//! The settings a new project is created with.

use vstd::prelude::*;
use vstd::string::*;
use crate::error::{ErrorView, ProconError};
use crate::paths::{join, joined};
use crate::text::same_text;

verus! {

/// Which template is used by default and where the user's templates live.
#[derive(Debug, Clone)]
pub struct TemplateConfig {
    pub default: String,
    pub path: String,
}

/// The build settings written into a generated project.
#[derive(Debug, Clone)]
pub struct ProjectConfig {
    pub cpp_standard: String,
    pub cmake_minimum_version: String,
}

/// The whole configuration.
#[derive(Debug, Clone)]
pub struct Config {
    pub template: TemplateConfig,
    pub project: ProjectConfig,
}

/// The user's configuration directory as `dirs::config_dir` reports it,
/// turned into text. Taken on trust: the call returns. The directory depends
/// on the platform and the environment and may be absent, so nothing is
/// claimed of the result.
#[verifier::external_body]
pub(crate) fn user_config_dir() -> (dir: Option<String>) {
    match dirs::config_dir() {
        Some(path) => Some(path.to_string_lossy().into_owned()),
        None => None,
    }
}

/// The directory of the user's templates under the configuration directory
/// `config_dir`.
pub open spec fn templates_root(config_dir: Seq<char>) -> Seq<char> {
    joined(joined(config_dir, "procon_rs"@), "templates"@)
}

/// The directory of the user's templates under `config_dir`.
pub fn templates_root_in(config_dir: &str) -> (root: String)
    ensures
        root@ == templates_root(config_dir@),
{
    let base = join(config_dir, "procon_rs");
    join(base.as_str(), "templates")
}

/// The directory of the user's templates: under the user's configuration
/// directory where there is one.
pub fn user_templates_root() -> (root: Option<String>)
    ensures
        root matches Some(path) ==> exists|config_dir: Seq<char>|
            path@ == templates_root(config_dir),
{
    match user_config_dir() {
        Some(dir) => Some(templates_root_in(dir.as_str())),
        None => None,
    }
}

impl Config {
    /// `self` holds the default settings, with the templates under
    /// `config_dir`, or under `.` where there is no configuration directory.
    pub open spec fn is_default_in(self, config_dir: Option<Seq<char>>) -> bool {
        &&& self.template.default@ == "default"@
        &&& self.template.path@ == templates_root(
            match config_dir {
                Some(dir) => dir,
                None => "."@,
            },
        )
        &&& self.project.cpp_standard@ == "17"@
        &&& self.project.cmake_minimum_version@ == "3.16"@
    }

    /// The default settings for a user whose configuration directory is
    /// `config_dir`.
    pub fn default_in(config_dir: Option<&str>) -> (config: Config)
        ensures
            config.is_default_in(
                match config_dir {
                    Some(dir) => Some(dir@),
                    None => None,
                },
            ),
    {
        let base = match config_dir {
            Some(dir) => dir,
            None => ".",
        };
        Config {
            template: TemplateConfig {
                default: String::from_str("default"),
                path: templates_root_in(base),
            },
            project: ProjectConfig {
                cpp_standard: String::from_str("17"),
                cmake_minimum_version: String::from_str("3.16"),
            },
        }
    }

    /// `self` holds the default settings for some configuration directory,
    /// or for none.
    pub open spec fn is_default(self) -> bool {
        exists|config_dir: Option<Seq<char>>| self.is_default_in(config_dir)
    }

    /// The default settings for the user's configuration directory as the
    /// environment gives it.
    fn for_this_user() -> (config: Config)
        ensures
            config.is_default(),
    {
        match user_config_dir() {
            Some(dir) => {
                let config = Config::default_in(Some(dir.as_str()));
                assert(config.is_default_in(Some(dir@)));
                config
            },
            None => {
                let config = Config::default_in(None);
                assert(config.is_default_in(None));
                config
            },
        }
    }

    /// The effective configuration. No configuration file is read: the
    /// result is always the default.
    pub fn load() -> (loaded: Result<Config, ProconError>)
        ensures
            loaded matches Ok(config) && config.is_default(),
    {
        Ok(Config::for_this_user())
    }

    /// What `get` returns for `key`.
    pub open spec fn value_of(self, key: Seq<char>) -> Option<Seq<char>> {
        if key == "template.default"@ {
            Some(self.template.default@)
        } else if key == "template.path"@ {
            Some(self.template.path@)
        } else if key == "project.cpp_standard"@ {
            Some(self.project.cpp_standard@)
        } else if key == "project.cmake_minimum_version"@ {
            Some(self.project.cmake_minimum_version@)
        } else {
            None
        }
    }

    /// The value stored under the dotted `key`, or `None` for an unknown key.
    pub fn get(&self, key: &str) -> (value: Option<String>)
        ensures
            match value {
                Some(text) => self.value_of(key@) == Some(text@),
                None => self.value_of(key@) is None,
            },
    {
        if same_text(key, "template.default") {
            Some(self.template.default.clone())
        } else if same_text(key, "template.path") {
            Some(self.template.path.clone())
        } else if same_text(key, "project.cpp_standard") {
            Some(self.project.cpp_standard.clone())
        } else if same_text(key, "project.cmake_minimum_version") {
            Some(self.project.cmake_minimum_version.clone())
        } else {
            None
        }
    }

    /// Stores `value` under the dotted `key`. An unknown key is rejected and
    /// leaves the configuration as it was.
    pub fn set(&mut self, key: &str, value: &str) -> (outcome: Result<(), ProconError>)
        ensures
            match outcome {
                Ok(_) => old(self).value_of(key@) is Some && final(self).value_of(key@) == Some(
                    value@,
                ),
                Err(error) => old(self).value_of(key@) is None && *final(self) == *old(self)
                    && error@ == ErrorView::ConfigError("Unknown configuration key: "@ + key@),
            },
            forall|other: Seq<char>|
                other != key@ ==> final(self).value_of(other) == old(self).value_of(other),
    {
        proof {
            reveal_strlit("template.default");
            reveal_strlit("template.path");
            reveal_strlit("project.cpp_standard");
            reveal_strlit("project.cmake_minimum_version");
            assert("template.default"@.len() != "template.path"@.len());
            assert("template.default"@.len() != "project.cpp_standard"@.len());
            assert("template.default"@.len() != "project.cmake_minimum_version"@.len());
            assert("template.path"@.len() != "project.cpp_standard"@.len());
            assert("template.path"@.len() != "project.cmake_minimum_version"@.len());
            assert("project.cpp_standard"@.len() != "project.cmake_minimum_version"@.len());
        }
        if same_text(key, "template.default") {
            self.template.default = String::from_str(value);
            Ok(())
        } else if same_text(key, "template.path") {
            self.template.path = String::from_str(value);
            Ok(())
        } else if same_text(key, "project.cpp_standard") {
            self.project.cpp_standard = String::from_str(value);
            Ok(())
        } else if same_text(key, "project.cmake_minimum_version") {
            self.project.cmake_minimum_version = String::from_str(value);
            Ok(())
        } else {
            Err(ProconError::ConfigError(String::from_str("Unknown configuration key: ").concat(key)))
        }
    }
}

impl Default for Config {
    /// The default settings, with the templates under the user's
    /// configuration directory, or under `.` where there is none.
    fn default() -> (config: Config)
        ensures
            config.is_default(),
    {
        Config::for_this_user()
    }
}

} // verus!
