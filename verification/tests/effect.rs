use context::config::Operation;
use context::context::Context;
use context::effect::Effect;
use context::path::DirPath;

const STORED: &str = r#"{"context": {"/": {"key1": "value1", "key2": "value2"}, "/dir1": {"key1": "value4"}}}"#;

fn open(pwd: &str) -> Context {
    Context::from_config_props(
        String::from("/context_config.json"),
        DirPath::parse(pwd),
        Some(String::from(STORED)),
    )
}

#[test]
fn apply_print_all_shows_visible_values() {
    let mut context = open("/dir1");
    match context.apply(Operation::Print(None)) {
        Effect::ShowAll(values) => {
            assert_eq!(values.len(), 2);
            assert_eq!(values.get("key1").unwrap(), "value4");
            assert_eq!(values.get("key2").unwrap(), "value2");
        }
        other => panic!("{other:?}"),
    }
    assert_eq!(context.to_json().unwrap(), open("/dir1").to_json().unwrap());
}

#[test]
fn apply_print_one_shows_the_value_or_nothing() {
    let mut context = open("/dir1");
    match context.apply(Operation::Print(Some(String::from("key1")))) {
        Effect::ShowOne(value) => assert_eq!(value, Some(String::from("value4"))),
        other => panic!("{other:?}"),
    }
    match context.apply(Operation::Print(Some(String::from("missing")))) {
        Effect::ShowOne(value) => assert_eq!(value, None),
        other => panic!("{other:?}"),
    }
}

#[test]
fn apply_add_changes_the_store_and_asks_to_save() {
    let mut context = open("/dir1");
    let effect = context.apply(Operation::Add(String::from("key2"), String::from("near")));
    assert!(matches!(effect, Effect::Save));
    assert_eq!(context.get_value("key2").unwrap(), "near");
    assert_eq!(context.data().get(&DirPath::parse("/")).unwrap().get("key2").unwrap(), "value2");
}

#[test]
fn apply_remove_changes_the_store_and_asks_to_save() {
    let mut context = open("/dir1");
    let effect = context.apply(Operation::Remove(String::from("key1")));
    assert!(matches!(effect, Effect::Save));
    assert_eq!(context.get_value("key1").unwrap(), "value1");
    let effect = context.apply(Operation::Remove(String::from("never set")));
    assert!(matches!(effect, Effect::Save));
}

#[test]
fn apply_config_shows_the_backing_file() {
    let mut context = open("/dir1");
    match context.apply(Operation::Config) {
        Effect::ShowConfigPath(path) => assert_eq!(path, "/context_config.json"),
        other => panic!("{other:?}"),
    }
}
