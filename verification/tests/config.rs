use context::arguments::ContextArgs;
use context::config::{
    get_config_path_or_default, get_pwd_or_default, ConfigError, ContextConfig, Environment,
    Operation,
};
use context::path::DirPath;

fn environment() -> Environment {
    Environment {
        context_config: None,
        xdg_config_home: None,
        home: Some(String::from("/home/user")),
        current_dir: Some(String::from("/home/user/project")),
    }
}

fn bare_environment() -> Environment {
    Environment { context_config: None, xdg_config_home: None, home: None, current_dir: None }
}

fn words(list: &[&str]) -> Vec<String> {
    list.iter().map(|word| word.to_string()).collect()
}

#[test]
fn test_implicit_print_all() -> Result<(), ConfigError> {
    let config = ContextConfig::try_from(
        ContextArgs { pwd: None, config: None, operation: vec![] },
        &environment(),
    )?;

    assert_eq!(config.operation, Operation::Print(None));
    Ok(())
}

#[test]
fn test_print_all() -> Result<(), ConfigError> {
    let config = ContextConfig::try_from(
        ContextArgs { pwd: None, config: None, operation: vec!["print".to_string()] },
        &environment(),
    )?;

    assert_eq!(config.operation, Operation::Print(None));
    Ok(())
}

#[test]
fn test_print_key() -> Result<(), ConfigError> {
    let config = ContextConfig::try_from(
        ContextArgs {
            pwd: None,
            config: None,
            operation: vec!["print".to_string(), "key".to_string()],
        },
        &environment(),
    )?;

    assert_eq!(config.operation, Operation::Print(Some("key".to_string())));
    Ok(())
}

#[test]
fn test_add_key_value() -> Result<(), ConfigError> {
    let config = ContextConfig::try_from(
        ContextArgs {
            pwd: None,
            config: None,
            operation: vec!["add".to_string(), "key".to_string(), "value".to_string()],
        },
        &environment(),
    )?;

    assert_eq!(config.operation, Operation::Add("key".to_string(), "value".to_string()));
    Ok(())
}

#[test]
fn test_remove_key() -> Result<(), ConfigError> {
    let config = ContextConfig::try_from(
        ContextArgs { pwd: None, config: None, operation: vec!["rm".to_string(), "key".to_string()] },
        &environment(),
    )?;

    assert_eq!(config.operation, Operation::Remove("key".to_string()));
    Ok(())
}

#[test]
fn operation_config_takes_no_argument() {
    assert_eq!(Operation::try_from(words(&["config"])), Ok(Operation::Config));
    assert_eq!(
        Operation::try_from(words(&["config", "extra"])),
        Err(ConfigError::WrongArgumentCount("config".to_string()))
    );
}

#[test]
fn operation_bare_word_is_a_key_to_print() {
    assert_eq!(Operation::try_from(words(&["key1"])), Ok(Operation::Print(Some("key1".to_string()))));
    assert_eq!(Operation::try_from(words(&[""])), Ok(Operation::Print(Some(String::new()))));
    assert_eq!(
        Operation::try_from(words(&["key1", "other"])),
        Err(ConfigError::WrongArgumentCount("key1".to_string()))
    );
}

#[test]
fn operation_print_ignores_what_follows_the_key() {
    assert_eq!(
        Operation::try_from(words(&["print", "key", "more", "words"])),
        Ok(Operation::Print(Some("key".to_string())))
    );
}

#[test]
fn operation_add_needs_key_and_value() {
    for given in [words(&["add"]), words(&["add", "k"]), words(&["add", "k", "v", "w"])] {
        assert_eq!(
            Operation::try_from(given),
            Err(ConfigError::WrongArgumentCount("add".to_string()))
        );
    }
    assert_eq!(
        Operation::try_from(words(&["add", "rm", "print"])),
        Ok(Operation::Add("rm".to_string(), "print".to_string()))
    );
}

#[test]
fn operation_rm_needs_one_key() {
    for given in [words(&["rm"]), words(&["rm", "a", "b"])] {
        assert_eq!(
            Operation::try_from(given),
            Err(ConfigError::WrongArgumentCount("remove".to_string()))
        );
    }
}

#[test]
fn error_messages() {
    assert_eq!(
        ConfigError::WrongArgumentCount("add".to_string()).message(),
        "Wrong number of arguments for add"
    );
    assert_eq!(
        ConfigError::WrongArgumentCount("remove".to_string()).message(),
        "Wrong number of arguments for remove"
    );
    assert_eq!(ConfigError::ConfigPathNotFound.message(), "Unable to find config file");
    assert_eq!(ConfigError::WorkingDirectoryNotFound.message(), "Unable to get current directory");
}

#[test]
fn config_path_given_wins() {
    let env = Environment {
        context_config: Some("/env/config.json".to_string()),
        xdg_config_home: Some("/xdg".to_string()),
        home: Some("/home/user".to_string()),
        current_dir: None,
    };
    assert_eq!(
        get_config_path_or_default(Some("/given.json".to_string()), &env),
        Ok("/given.json".to_string())
    );
    assert_eq!(get_config_path_or_default(None, &env), Ok("/env/config.json".to_string()));
}

#[test]
fn config_path_below_xdg_config_home() {
    let env = Environment {
        context_config: None,
        xdg_config_home: Some("/home/user/.config".to_string()),
        home: Some("/home/user".to_string()),
        current_dir: None,
    };
    assert_eq!(
        get_config_path_or_default(None, &env),
        Ok("/home/user/.config/context/context_config.json".to_string())
    );
}

#[test]
fn config_path_below_home() {
    assert_eq!(
        get_config_path_or_default(None, &environment()),
        Ok("/home/user/context/context_config.json".to_string())
    );
}

#[test]
fn config_path_separator_is_not_doubled() {
    let mut env = bare_environment();
    env.home = Some("/home/user/".to_string());
    assert_eq!(
        get_config_path_or_default(None, &env),
        Ok("/home/user/context/context_config.json".to_string())
    );
    env.home = Some("/".to_string());
    assert_eq!(
        get_config_path_or_default(None, &env),
        Ok("/context/context_config.json".to_string())
    );
    env.home = Some(String::new());
    assert_eq!(
        get_config_path_or_default(None, &env),
        Ok("context/context_config.json".to_string())
    );
}

#[test]
fn config_path_not_found() {
    assert_eq!(
        get_config_path_or_default(None, &bare_environment()),
        Err(ConfigError::ConfigPathNotFound)
    );
}

#[test]
fn pwd_given_or_current() {
    let env = environment();
    assert_eq!(
        get_pwd_or_default(Some("/given/dir".to_string()), &env).unwrap(),
        DirPath::parse("/given/dir")
    );
    assert_eq!(get_pwd_or_default(None, &env).unwrap(), DirPath::parse("/home/user/project"));
    assert_eq!(
        get_pwd_or_default(None, &bare_environment()).unwrap_err(),
        ConfigError::WorkingDirectoryNotFound
    );
}

#[test]
fn request_holds_all_three_parts() {
    let config = ContextConfig::try_from(
        ContextArgs {
            pwd: Some("/work/here/".to_string()),
            config: None,
            operation: words(&["rm", "key"]),
        },
        &environment(),
    )
    .unwrap();
    assert_eq!(config.pwd, DirPath::parse("/work/here"));
    assert_eq!(config.config, "/home/user/context/context_config.json");
    assert_eq!(config.operation, Operation::Remove("key".to_string()));
}

#[test]
fn request_reports_the_first_failure() {
    let args = |operation: &[&str]| ContextArgs { pwd: None, config: None, operation: words(operation) };
    assert_eq!(
        ContextConfig::try_from(args(&["add"]), &bare_environment()).unwrap_err(),
        ConfigError::WrongArgumentCount("add".to_string())
    );
    assert_eq!(
        ContextConfig::try_from(args(&["print"]), &bare_environment()).unwrap_err(),
        ConfigError::ConfigPathNotFound
    );
    let mut env = bare_environment();
    env.context_config = Some("/c.json".to_string());
    assert_eq!(
        ContextConfig::try_from(args(&["print"]), &env).unwrap_err(),
        ConfigError::WorkingDirectoryNotFound
    );
}
