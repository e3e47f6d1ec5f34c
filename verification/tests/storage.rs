use context::context::{Context, ContextData};
use context::path::DirPath;
use context::values::ValueMap;

const FIXTURE: &str = r#"{"context": {
    "/": {"key1": "value1", "key2": "value2"},
    "/dir1": {"key3": "value3", "key1": "value4"},
    "/dir1/dir2": {"key4": "value5", "key1": "value6"},
    "/dir1/dir2/dir3": {"key4": "value5", "key1": "value8"}
}}"#;

fn open(contents: Option<&str>, pwd: &str) -> Context {
    Context::from_config_props(
        String::from("/context_config.json"),
        DirPath::parse(pwd),
        contents.map(String::from),
    )
}

#[test]
fn load_worked_fixture() {
    let mut context = open(Some(FIXTURE), "/dir1/dir2/dir3");
    let all = context.get_value_all();
    assert_eq!(all.len(), 4);
    assert_eq!(all.get("key1").unwrap(), "value8");
    assert_eq!(all.get("key2").unwrap(), "value2");
    assert_eq!(all.get("key3").unwrap(), "value3");
    assert_eq!(all.get("key4").unwrap(), "value5");
    assert_eq!(context.get_value("key1").unwrap(), "value8");
    context.remove_value("key1");
    assert_eq!(context.get_value("key1").unwrap(), "value6");
    assert_eq!(context.config_path(), "/context_config.json");
}

#[test]
fn load_example_of_the_format() {
    let text = r#"{"context": {"/": {"key1": "value1"}, "/dir1": {"key3": "value3"}}}"#;
    let context = open(Some(text), "/dir1");
    assert_eq!(context.get_value("key1").unwrap(), "value1");
    assert_eq!(context.get_value("key3").unwrap(), "value3");
    assert_eq!(context.data().to_listing().len(), 2);
    assert_eq!(open(Some(text), "/").get_value("key3"), None);
}

#[test]
fn load_without_a_file_is_empty() {
    let context = open(None, "/dir1");
    assert_eq!(context.get_value_all().len(), 0);
    assert_eq!(context.data().to_listing().len(), 0);
    assert_eq!(context.get_value("key1"), None);
}

#[test]
fn load_of_empty_store() {
    let context = open(Some(r#"{"context": {}}"#), "/dir1");
    assert_eq!(context.data().to_listing().len(), 0);
}

#[test]
fn load_of_malformed_contents_is_empty() {
    let malformed = [
        "",
        "not json",
        "{",
        r#"{"context": {"/": {"key1": "value1"}}"#,
        r#"{"context": {"/": {"key1": "value1"}}} trailing"#,
        r#"{"context": {"/": {"key1": 1}}}"#,
        r#"{"context": {"/": "flat"}}"#,
        r#"{"context": ["/"]}"#,
        r#"{"context": null}"#,
        "[]",
        "null",
        "42",
    ];
    for text in malformed {
        let context = open(Some(text), "/");
        assert_eq!(context.data().to_listing().len(), 0, "{text}");
        assert_eq!(context.get_value("key1"), None);
    }
}

#[test]
fn load_without_the_context_member_is_empty() {
    assert_eq!(open(Some("{}"), "/").data().to_listing().len(), 0);
    let other = r#"{"other": {"/": {"key1": "value1"}}}"#;
    assert_eq!(open(Some(other), "/").get_value("key1"), None);
}

#[test]
fn load_cleans_directory_paths() {
    let text = r#"{"context": {"/dir1/": {"a": "1"}, "/dir1//dir2/.": {"b": "2"}}}"#;
    let context = open(Some(text), "/dir1/dir2");
    assert_eq!(context.get_value("a").unwrap(), "1");
    assert_eq!(context.get_value("b").unwrap(), "2");
    assert!(context.data().get(&DirPath::parse("/dir1")).is_some());
}

#[test]
fn load_reads_escapes() {
    let text = r#"{"context": {"/": {"quote\"d": "line\nbreak é"}}}"#;
    let context = open(Some(text), "/");
    assert_eq!(context.get_value("quote\"d").unwrap(), "line\nbreak \u{e9}");
}

#[test]
fn save_text_of_small_store() {
    let mut context = open(None, "/dir1");
    context.set_value(String::from("key"), String::from("value"));
    let expected = "{\n  \"context\": {\n    \"/dir1\": {\n      \"key\": \"value\"\n    }\n  }\n}";
    assert_eq!(context.to_json().unwrap(), expected);
}

#[test]
fn save_text_of_empty_store() {
    let context = open(None, "/");
    assert_eq!(context.to_json().unwrap(), "{\n  \"context\": {}\n}");
}

#[test]
fn save_holds_every_directory() {
    let mut context = open(Some(FIXTURE), "/elsewhere");
    context.set_value(String::from("new"), String::from("entry"));
    let text = context.to_json().unwrap();
    for part in ["\"/\"", "\"/dir1\"", "\"/dir1/dir2\"", "\"/dir1/dir2/dir3\"", "\"/elsewhere\""] {
        assert!(text.contains(part), "{part}");
    }
}

#[test]
fn save_then_load_gives_the_same_values() {
    let mut first = open(Some(FIXTURE), "/dir1/dir2");
    first.set_value(String::from("added"), String::from("with \"quotes\" and \\ and \n"));
    first.set_value(String::from("caf\u{e9}"), String::from("\u{65e5}\u{672c}"));
    first.remove_value("key4");
    let text = first.to_json().unwrap();
    for pwd in ["/", "/dir1", "/dir1/dir2", "/dir1/dir2/dir3", "/dir1/dir2/dir3/dir4", "/other"] {
        let before = Context::new(
            ContextData::from_listing(&first.data().to_listing()),
            String::new(),
            DirPath::parse(pwd),
        );
        let after = open(Some(&text), pwd);
        let mut expected = before.get_value_all().to_pairs();
        let mut found = after.get_value_all().to_pairs();
        expected.sort();
        found.sort();
        assert_eq!(found, expected);
    }
    assert_eq!(open(Some(&text), "/").to_json().unwrap(), text);
}

#[test]
fn last_save_wins() {
    let mut one = open(Some(FIXTURE), "/dir1");
    let mut two = open(Some(FIXTURE), "/dir1");
    one.set_value(String::from("from_one"), String::from("1"));
    two.set_value(String::from("from_two"), String::from("2"));
    let _written_first = one.to_json().unwrap();
    let written_last = two.to_json().unwrap();
    let reopened = open(Some(&written_last), "/dir1");
    assert_eq!(reopened.get_value("from_two").unwrap(), "2");
    assert_eq!(reopened.get_value("from_one"), None);
}

#[test]
fn document_of_store_and_back() {
    let mut data = ContextData::new();
    data.set(&DirPath::parse("/a"), String::from("k"), String::from("v"));
    data.set(&DirPath::parse("/"), String::from("k"), String::from("w"));
    let document = data.to_document();
    assert_eq!(document.len(), 1);
    assert_eq!(document[0].0, "context");
    assert_eq!(document[0].1.len(), 2);
    let back = ContextData::from_document(&document);
    assert_eq!(back.get(&DirPath::parse("/a")).unwrap().get("k").unwrap(), "v");
    assert_eq!(back.get(&DirPath::parse("/")).unwrap().get("k").unwrap(), "w");
}

#[test]
fn document_last_context_member_counts() {
    let section = |value: &str| {
        vec![(String::from("/"), vec![(String::from("k"), String::from(value))])]
    };
    let document = vec![
        (String::from("context"), section("first")),
        (String::from("other"), section("ignored")),
        (String::from("context"), section("second")),
        (String::from("zzz"), section("ignored")),
    ];
    let data = ContextData::from_document(&document);
    assert_eq!(data.get(&DirPath::parse("/")).unwrap().get("k").unwrap(), "second");
    assert_eq!(data.to_listing().len(), 1);
}

#[test]
fn listing_later_directory_entry_wins() {
    let listing = vec![
        (String::from("/a"), vec![(String::from("k"), String::from("1"))]),
        (String::from("/a/"), vec![(String::from("j"), String::from("2"))]),
    ];
    let data = ContextData::from_listing(&listing);
    let at: &ValueMap = data.get(&DirPath::parse("/a")).unwrap();
    assert_eq!(at.len(), 1);
    assert_eq!(at.get("j").unwrap(), "2");
}

#[test]
fn reading_without_a_document_is_empty() {
    let context = Context::from_reading(String::from("/c.json"), DirPath::parse("/a"), None);
    assert_eq!(context.data().to_listing().len(), 0);
    assert_eq!(context.config_path(), "/c.json");
    assert!(context.pwd().same_as(&DirPath::parse("/a")));

    let document = vec![(
        String::from("context"),
        vec![(String::from("/a"), vec![(String::from("k"), String::from("v"))])],
    )];
    let context = Context::from_reading(String::from("/c.json"), DirPath::parse("/a/b"), Some(&document));
    assert_eq!(context.get_value("k").unwrap(), "v");
}
