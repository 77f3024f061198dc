use vstd::prelude::*;
use vstd::string::StringExecFns;

pub mod laws;
pub mod render;
pub mod scanner;
pub mod substitute;
pub mod text;
pub mod value;

use crate::value::{Table, Value};

verus! {

/// The preprocessor that replaces `{{variables}}` in the chapters of a book.
pub struct VariablesPreprocessor;

/// What a problem in the configuration is; none of them stops a run.
pub enum ConfigWarning {
    /// The book has no table for this preprocessor.
    NoConfiguration,
    /// The preprocessor's table has no `variables` entry.
    NoVariables,
    /// `use_env` is set to something other than a boolean.
    UseEnvNotBoolean,
}

/// What a run takes from the preprocessor's configuration.
pub struct Settings<'a> {
    /// The variables, when the configuration holds a table of them.
    pub variables: Option<&'a Table>,
    /// Whether unresolved names are looked up in the environment.
    pub use_env: bool,
    pub warnings: Vec<ConfigWarning>,
}

impl VariablesPreprocessor {
    /// Create a new `VariablesPreprocessor`.
    pub fn new() -> (r: VariablesPreprocessor)
        ensures
            r == VariablesPreprocessor,
    {
        VariablesPreprocessor
    }

    /// The name under which the book's configuration holds this preprocessor.
    pub fn name(&self) -> (r: &'static str)
        ensures
            r@ == seq!['v', 'a', 'r', 'i', 'a', 'b', 'l', 'e', 's'],
    {
        proof {
            reveal_strlit("variables");
        }
        "variables"
    }

    /// Reads the settings of a run from the preprocessor's table, if the book
    /// has one. The variables are used only where `variables` is a table;
    /// `use_env` is on only where it is the boolean `true`.
    pub fn settings<'a>(&self, config: Option<&'a Table>) -> (r: Settings<'a>)
        ensures
            config is None ==> r.variables is None && !r.use_env && r.warnings@.len() == 1
                && r.warnings@[0] is NoConfiguration,
            config is Some ==> ({
                let c = config->0;
                let vars = c.spec_get(variables_key());
                let env = c.spec_get(use_env_key());
                &&& match r.variables {
                    Some(t) => vars == Some(Value::Table(*t)),
                    None => !(vars is Some && vars->0 is Table),
                }
                &&& r.use_env == (env == Some(Value::Boolean(true)))
                &&& r.warnings@.len() == (if vars is None {
                    1int
                } else {
                    0
                }) + (if env is Some && !(env->0 is Boolean) {
                    1int
                } else {
                    0
                })
                &&& vars is None ==> r.warnings@[0] is NoVariables
                &&& env is Some && !(env->0 is Boolean) ==> r.warnings@[r.warnings@.len() - 1] is UseEnvNotBoolean
            }),
    {
        let mut warnings: Vec<ConfigWarning> = Vec::new();
        match config {
            None => {
                warnings.push(ConfigWarning::NoConfiguration);
                Settings { variables: None, use_env: false, warnings }
            },
            Some(c) => {
                proof {
                    reveal_strlit("variables");
                    reveal_strlit("use_env");
                }
                let vars_key = String::from_str("variables");
                let env_key = String::from_str("use_env");
                assert(vars_key@ =~= variables_key());
                assert(env_key@ =~= use_env_key());
                let variables = match c.get(&vars_key) {
                    Some(Value::Table(t)) => Some(t),
                    Some(_) => None,
                    None => {
                        warnings.push(ConfigWarning::NoVariables);
                        None
                    },
                };
                let use_env = match c.get(&env_key) {
                    Some(Value::Boolean(b)) => *b,
                    Some(_) => {
                        warnings.push(ConfigWarning::UseEnvNotBoolean);
                        false
                    },
                    None => false,
                };
                Settings { variables, use_env, warnings }
            },
        }
    }
}

/// The key `variables`.
pub open spec fn variables_key() -> Seq<char> {
    seq!['v', 'a', 'r', 'i', 'a', 'b', 'l', 'e', 's']
}

/// The key `use_env`.
pub open spec fn use_env_key() -> Seq<char> {
    seq!['u', 's', 'e', '_', 'e', 'n', 'v']
}

} // verus!
