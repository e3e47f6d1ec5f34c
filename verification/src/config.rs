//! From raw arguments to a validated request: the operation to perform, the
//! backing file and the working directory.

use vstd::prelude::*;
use vstd::string::StringExecFns;
use crate::arguments::{ContextArgs, ContextArgsView};
use crate::path::{path_of_text, DirPath, PathView};
use crate::text::{optional_text, text_eq, texts};

verus! {

broadcast use vstd::string::group_string_axioms;

/// What one invocation is asked to do.
#[derive(Debug, PartialEq)]
pub enum Operation {
    /// Show one key's value, or all visible values where no key is named.
    Print(Option<String>),
    /// Bind a key to a value at the working directory.
    Add(String, String),
    /// Unbind a key at the working directory.
    Remove(String),
    /// Show the path of the backing file.
    Config,
}

/// The mathematical value of an operation.
pub enum OperationView {
    Print(Option<Seq<char>>),
    Add(Seq<char>, Seq<char>),
    Remove(Seq<char>),
    Config,
}

impl View for Operation {
    type V = OperationView;

    open spec fn view(&self) -> OperationView {
        match self {
            Operation::Print(key) => OperationView::Print(optional_text(*key)),
            Operation::Add(key, value) => OperationView::Add(key@, value@),
            Operation::Remove(key) => OperationView::Remove(key@),
            Operation::Config => OperationView::Config,
        }
    }
}

/// Why raw arguments could not be turned into a request.
#[derive(Debug, PartialEq)]
pub enum ConfigError {
    /// The named operation was given the wrong number of arguments.
    WrongArgumentCount(String),
    /// No backing file was given and none could be found in the environment.
    ConfigPathNotFound,
    /// No working directory was given and the current one is unknown.
    WorkingDirectoryNotFound,
}

/// The mathematical value of a `ConfigError`.
pub enum ConfigErrorView {
    WrongArgumentCount(Seq<char>),
    ConfigPathNotFound,
    WorkingDirectoryNotFound,
}

impl ConfigErrorView {
    /// The text shown to the user.
    pub open spec fn message(self) -> Seq<char> {
        match self {
            ConfigErrorView::WrongArgumentCount(name) => "Wrong number of arguments for "@ + name,
            ConfigErrorView::ConfigPathNotFound => "Unable to find config file"@,
            ConfigErrorView::WorkingDirectoryNotFound => "Unable to get current directory"@,
        }
    }
}

impl View for ConfigError {
    type V = ConfigErrorView;

    open spec fn view(&self) -> ConfigErrorView {
        match self {
            ConfigError::WrongArgumentCount(name) => ConfigErrorView::WrongArgumentCount(name@),
            ConfigError::ConfigPathNotFound => ConfigErrorView::ConfigPathNotFound,
            ConfigError::WorkingDirectoryNotFound => ConfigErrorView::WorkingDirectoryNotFound,
        }
    }
}

impl ConfigError {
    /// The text shown to the user.
    pub fn message(&self) -> (text: String)
        ensures
            text@ == self@.message(),
    {
        match self {
            ConfigError::WrongArgumentCount(name) => {
                let lead = "Wrong number of arguments for ".to_owned();
                lead.concat(name.as_str())
            },
            ConfigError::ConfigPathNotFound => "Unable to find config file".to_owned(),
            ConfigError::WorkingDirectoryNotFound => "Unable to get current directory".to_owned(),
        }
    }
}

/// The operation that a sequence of words asks for.
///
/// No word at all asks for every visible value. The verbs `add`, `rm` and
/// `config` take exactly two, one and no arguments. `print` shows the key that
/// follows it, or everything. Any other single word is a key to show.
pub open spec fn operation_of(words: Seq<Seq<char>>) -> Result<OperationView, ConfigErrorView> {
    if words.len() == 0 {
        Ok(OperationView::Print(None))
    } else if words[0] == "add"@ {
        if words.len() == 3 {
            Ok(OperationView::Add(words[1], words[2]))
        } else {
            Err(ConfigErrorView::WrongArgumentCount("add"@))
        }
    } else if words[0] == "rm"@ {
        if words.len() == 2 {
            Ok(OperationView::Remove(words[1]))
        } else {
            Err(ConfigErrorView::WrongArgumentCount("remove"@))
        }
    } else if words[0] == "print"@ {
        if words.len() == 1 {
            Ok(OperationView::Print(None))
        } else {
            Ok(OperationView::Print(Some(words[1])))
        }
    } else if words[0] == "config"@ {
        if words.len() == 1 {
            Ok(OperationView::Config)
        } else {
            Err(ConfigErrorView::WrongArgumentCount("config"@))
        }
    } else if words.len() == 1 {
        Ok(OperationView::Print(Some(words[0])))
    } else {
        Err(ConfigErrorView::WrongArgumentCount(words[0]))
    }
}

impl Operation {
    /// Reads the operation from its words.
    pub fn try_from(words: Vec<String>) -> (parsed: Result<Operation, ConfigError>)
        ensures
            match parsed {
                Ok(operation) => operation_of(texts(words@)) == Ok::<OperationView, ConfigErrorView>(
                    operation@,
                ),
                Err(error) => operation_of(texts(words@)) == Err::<OperationView, ConfigErrorView>(
                    error@,
                ),
            },
    {
        let mut words = words;
        let count = words.len();
        if count == 0 {
            return Ok(Operation::Print(None));
        }
        if text_eq(words[0].as_str(), "add") {
            if count != 3 {
                return Err(ConfigError::WrongArgumentCount("add".to_owned()));
            }
            let value = words.pop().unwrap();
            let key = words.pop().unwrap();
            Ok(Operation::Add(key, value))
        } else if text_eq(words[0].as_str(), "rm") {
            if count != 2 {
                return Err(ConfigError::WrongArgumentCount("remove".to_owned()));
            }
            let key = words.pop().unwrap();
            Ok(Operation::Remove(key))
        } else if text_eq(words[0].as_str(), "print") {
            if count == 1 {
                return Ok(Operation::Print(None));
            }
            let key = words.swap_remove(1);
            Ok(Operation::Print(Some(key)))
        } else if text_eq(words[0].as_str(), "config") {
            if count != 1 {
                return Err(ConfigError::WrongArgumentCount("config".to_owned()));
            }
            Ok(Operation::Config)
        } else {
            let key = words.swap_remove(0);
            if count != 1 {
                return Err(ConfigError::WrongArgumentCount(key));
            }
            Ok(Operation::Print(Some(key)))
        }
    }
}

/// What the process environment held when the request was made.
#[derive(Debug)]
pub struct Environment {
    /// The value of `CONTEXT_CONFIG`, if it is set.
    pub context_config: Option<String>,
    /// The value of `XDG_CONFIG_HOME`, if it is set.
    pub xdg_config_home: Option<String>,
    /// The value of `HOME`, if it is set.
    pub home: Option<String>,
    /// The current directory of the process, if it is known.
    pub current_dir: Option<String>,
}

/// The mathematical value of an `Environment`.
pub struct EnvironmentView {
    pub context_config: Option<Seq<char>>,
    pub xdg_config_home: Option<Seq<char>>,
    pub home: Option<Seq<char>>,
    pub current_dir: Option<Seq<char>>,
}

impl View for Environment {
    type V = EnvironmentView;

    open spec fn view(&self) -> EnvironmentView {
        EnvironmentView {
            context_config: optional_text(self.context_config),
            xdg_config_home: optional_text(self.xdg_config_home),
            home: optional_text(self.home),
            current_dir: optional_text(self.current_dir),
        }
    }
}

/// A path with one more relative name below it: a `/` goes between the two
/// unless the path is empty or already ends in one.
pub open spec fn extended(base: Seq<char>, name: Seq<char>) -> Seq<char> {
    if base.len() == 0 || base.last() == '/' {
        base + name
    } else {
        base.push('/') + name
    }
}

/// The backing file that is used by default below a configuration directory.
pub open spec fn default_config_in(base: Seq<char>) -> Seq<char> {
    extended(extended(base, "context"@), "context_config.json"@)
}

/// The path of the backing file: the one given, else the first that the
/// environment offers, in the order `CONTEXT_CONFIG`, `XDG_CONFIG_HOME`, `HOME`.
pub open spec fn config_path_of(config: Option<Seq<char>>, env: EnvironmentView) -> Result<
    Seq<char>,
    ConfigErrorView,
> {
    if let Some(path) = config {
        Ok(path)
    } else if let Some(path) = env.context_config {
        Ok(path)
    } else if let Some(base) = env.xdg_config_home {
        Ok(default_config_in(base))
    } else if let Some(base) = env.home {
        Ok(default_config_in(base))
    } else {
        Err(ConfigErrorView::ConfigPathNotFound)
    }
}

/// The working directory: the one given, else the current directory.
pub open spec fn pwd_of(pwd: Option<Seq<char>>, env: EnvironmentView) -> Result<
    PathView,
    ConfigErrorView,
> {
    if let Some(text) = pwd {
        Ok(path_of_text(text))
    } else if let Some(text) = env.current_dir {
        Ok(path_of_text(text))
    } else {
        Err(ConfigErrorView::WorkingDirectoryNotFound)
    }
}

/// Puts one more relative name below a path.
fn extend_path(base: String, name: &str) -> (path: String)
    ensures
        path@ == extended(base@, name@),
{
    let len = base.as_str().unicode_len();
    let mut path = base;
    if len > 0 && path.as_str().get_char(len - 1) != '/' {
        proof {
            reveal_strlit("/");
        }
        path.append("/");
    }
    path.append(name);
    path
}

/// The backing file that is used by default below a configuration directory.
fn default_config_path(base: &String) -> (path: String)
    ensures
        path@ == default_config_in(base@),
{
    extend_path(extend_path(base.clone(), "context"), "context_config.json")
}

/// Finds the path of the backing file.
pub fn get_config_path_or_default(config: Option<String>, env: &Environment) -> (found: Result<
    String,
    ConfigError,
>)
    ensures
        match found {
            Ok(path) => config_path_of(optional_text(config), env@) == Ok::<
                Seq<char>,
                ConfigErrorView,
            >(path@),
            Err(error) => config_path_of(optional_text(config), env@) == Err::<
                Seq<char>,
                ConfigErrorView,
            >(error@),
        },
{
    if let Some(path) = config {
        return Ok(path);
    }
    if let Some(path) = &env.context_config {
        return Ok(path.clone());
    }
    if let Some(base) = &env.xdg_config_home {
        return Ok(default_config_path(base));
    }
    if let Some(base) = &env.home {
        return Ok(default_config_path(base));
    }
    Err(ConfigError::ConfigPathNotFound)
}

/// Finds the working directory.
pub fn get_pwd_or_default(pwd: Option<String>, env: &Environment) -> (found: Result<
    DirPath,
    ConfigError,
>)
    ensures
        match found {
            Ok(path) => pwd_of(optional_text(pwd), env@) == Ok::<PathView, ConfigErrorView>(path@),
            Err(error) => pwd_of(optional_text(pwd), env@) == Err::<PathView, ConfigErrorView>(
                error@,
            ),
        },
{
    if let Some(text) = pwd {
        return Ok(DirPath::parse(text.as_str()));
    }
    if let Some(text) = &env.current_dir {
        return Ok(DirPath::parse(text.as_str()));
    }
    Err(ConfigError::WorkingDirectoryNotFound)
}

/// A validated request.
#[derive(Debug)]
pub struct ContextConfig {
    /// The working directory.
    pub pwd: DirPath,
    /// The path of the backing file.
    pub config: String,
    /// The operation to perform.
    pub operation: Operation,
}

/// The mathematical value of a validated request.
pub struct ContextConfigView {
    pub pwd: PathView,
    pub config: Seq<char>,
    pub operation: OperationView,
}

impl View for ContextConfig {
    type V = ContextConfigView;

    open spec fn view(&self) -> ContextConfigView {
        ContextConfigView { pwd: self.pwd@, config: self.config@, operation: self.operation@ }
    }
}

/// The request that raw arguments make in an environment. The operation is
/// read first, then the backing file is found, then the working directory; the
/// first of them that fails gives the error.
pub open spec fn request_of(args: ContextArgsView, env: EnvironmentView) -> Result<
    ContextConfigView,
    ConfigErrorView,
> {
    match operation_of(args.operation) {
        Err(error) => Err(error),
        Ok(operation) => match config_path_of(args.config, env) {
            Err(error) => Err(error),
            Ok(config) => match pwd_of(args.pwd, env) {
                Err(error) => Err(error),
                Ok(pwd) => Ok(ContextConfigView { pwd, config, operation }),
            },
        },
    }
}

impl ContextConfig {
    /// Validates raw arguments against an environment.
    pub fn try_from(args: ContextArgs, env: &Environment) -> (request: Result<
        ContextConfig,
        ConfigError,
    >)
        ensures
            match request {
                Ok(config) => request_of(args@, env@) == Ok::<ContextConfigView, ConfigErrorView>(
                    config@,
                ),
                Err(error) => request_of(args@, env@) == Err::<ContextConfigView, ConfigErrorView>(
                    error@,
                ),
            },
    {
        let operation = match Operation::try_from(args.operation) {
            Ok(operation) => operation,
            Err(error) => {
                return Err(error);
            },
        };
        let config = match get_config_path_or_default(args.config, env) {
            Ok(config) => config,
            Err(error) => {
                return Err(error);
            },
        };
        let pwd = match get_pwd_or_default(args.pwd, env) {
            Ok(pwd) => pwd,
            Err(error) => {
                return Err(error);
            },
        };
        Ok(ContextConfig { pwd, config, operation })
    }
}

} // verus!
