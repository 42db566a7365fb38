//! The settings of a run, as read once at its start.

use vstd::prelude::*;
use vstd::string::StringExecFns;
use crate::model::ConfigError;

verus! {

/// The credential pair with which every request is authenticated.
#[derive(Debug, PartialEq, Eq)]
pub struct Credentials {
    pub user: String,
    pub password: String,
}

/// The name of the setting that holds the user.
pub open spec fn user_variable() -> Seq<char> {
    "TYPO3NIX_USER"@
}

/// The name of the setting that holds the password.
pub open spec fn password_variable() -> Seq<char> {
    "TYPO3NIX_PASSWORD"@
}

/// Takes the credential pair from the two settings, each given as its value
/// or `None` where it is absent. An absent setting is an error that names
/// the setting, the user first.
pub fn credentials_from(user: Option<String>, password: Option<String>) -> (credentials: Result<
    Credentials,
    ConfigError,
>)
    ensures
        match (user, password) {
            (Some(name), Some(secret)) => credentials matches Ok(pair) && pair.user == name
                && pair.password == secret,
            (None, _) => credentials matches Err(error) && error.variable@ == user_variable(),
            (Some(_), None) => credentials matches Err(error) && error.variable@
                == password_variable(),
        },
{
    match user {
        Some(name) => match password {
            Some(secret) => Ok(Credentials { user: name, password: secret }),
            None => Err(ConfigError { variable: String::from_str("TYPO3NIX_PASSWORD") }),
        },
        None => Err(ConfigError { variable: String::from_str("TYPO3NIX_USER") }),
    }
}

/// Whether the test-mode setting is switched on: its value is the one
/// character `1`. Any other value, and an absent setting, leave it off.
pub fn test_mode_from(value: Option<&str>) -> (on: bool)
    ensures
        on <==> (value matches Some(text) && text@ == "1"@),
{
    match value {
        Some(text) => {
            let on = text.unicode_len() == 1 && text.get_char(0) == '1';
            proof {
                reveal_strlit("1");
                assert(on <==> text@ =~= "1"@);
            }
            on
        },
        None => false,
    }
}

/// The text that reports an absent setting.
pub open spec fn not_set_message_of(variable: Seq<char>) -> Seq<char> {
    variable + " not set"@
}

impl ConfigError {
    /// The text that reports this error.
    pub fn message(&self) -> (text: String)
        ensures
            text@ == not_set_message_of(self.variable@),
    {
        let mut text = self.variable.clone();
        text.append(" not set");
        text
    }
}

} // verus!
