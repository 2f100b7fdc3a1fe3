//! The configuration: a `key = value` text whose general section names the
//! mailbox and the account to deliver as.
use vstd::prelude::*;

use crate::delivery::Config;

verus! {

/// Why the configuration could not be used.
#[derive(Debug, PartialEq, Eq)]
pub enum ConfigError {
    /// The text is not valid `key = value` syntax; the parser's message.
    Malformed(String),
    /// There is no general section.
    NoGeneralSection,
    /// `mailDir` is not set.
    MissingMailDir,
    /// `userName` is not set.
    MissingUserName,
}

/// What rust-ini makes of `text` when asked for `key` in its general
/// section: `Err` when the text does not parse, `Ok(None)` when it has no
/// general section, and otherwise the value stored under `key`, if any.
pub uninterp spec fn ini_general_lookup(text: Seq<char>, key: Seq<char>) -> Result<Option<Option<Seq<char>>>, ()>;

pub open spec fn lookup_view(r: Result<Option<Option<String>>, String>) -> Result<Option<Option<Seq<char>>>, ()> {
    match r {
        Err(_) => Err(()),
        Ok(None) => Ok(None),
        Ok(Some(None)) => Ok(Some(None)),
        Ok(Some(Some(v))) => Ok(Some(Some(v@))),
    }
}

/// Relies on rust-ini's `Ini::load_from_str`, `Ini::section` with no name
/// and `Properties::get`: the outcome depends on the text and the key
/// alone. A parse error is handed back as its message.
#[verifier::external_body]
fn ini_general_value(text: &str, key: &str) -> (r: Result<Option<Option<String>>, String>)
    ensures
        lookup_view(r) == ini_general_lookup(text@, key@),
{
    match ini::Ini::load_from_str(text) {
        Err(e) => Err(e.to_string()),
        Ok(conf) => Ok(conf.section(None::<String>).map(|s| s.get(key).map(|v| v.to_string()))),
    }
}

/// The configuration made of the values found for `mailDir` and
/// `userName`; a missing one is an error, `mailDir` first.
pub fn config_from_entries(mail_dir: Option<String>, user_name: Option<String>) -> (r: Result<
    Config,
    ConfigError,
>)
    ensures
        mail_dir is None ==> r == Err::<Config, ConfigError>(ConfigError::MissingMailDir),
        mail_dir is Some && user_name is None ==> r == Err::<Config, ConfigError>(
            ConfigError::MissingUserName,
        ),
        mail_dir is Some && user_name is Some ==> (r matches Ok(c) && c.mailDir@ == mail_dir->0@
            && c.userName@ == user_name->0@),
{
    match mail_dir {
        None => Err(ConfigError::MissingMailDir),
        Some(m) => match user_name {
            None => Err(ConfigError::MissingUserName),
            Some(u) => Ok(Config { mailDir: m, userName: u }),
        },
    }
}

/// The text that is parsed: `text` without a leading byte-order mark.
pub open spec fn without_bom(text: Seq<char>) -> Seq<char> {
    if text.len() > 0 && text[0] == '\u{feff}' {
        text.drop_first()
    } else {
        text
    }
}

/// `r` is the configuration read from a text whose lookups of `mailDir`
/// and `userName` came out as `m` and `u`: a parse error, a missing general
/// section or a missing key is reported, in that order, `mailDir` first;
/// otherwise `r` holds the two values.
pub open spec fn config_outcome(
    m: Result<Option<Option<Seq<char>>>, ()>,
    u: Result<Option<Option<Seq<char>>>, ()>,
    r: Result<Config, ConfigError>,
) -> bool {
    match m {
        Err(_) => r matches Err(ConfigError::Malformed(_)),
        Ok(None) => r == Err::<Config, ConfigError>(ConfigError::NoGeneralSection),
        Ok(Some(None)) => r == Err::<Config, ConfigError>(ConfigError::MissingMailDir),
        Ok(Some(Some(mv))) => match u {
            Err(_) => r matches Err(ConfigError::Malformed(_)),
            Ok(None) => r == Err::<Config, ConfigError>(ConfigError::NoGeneralSection),
            Ok(Some(None)) => r == Err::<Config, ConfigError>(ConfigError::MissingUserName),
            Ok(Some(Some(uv))) => r matches Ok(c) && c.mailDir@ == mv && c.userName@ == uv,
        },
    }
}

/// Reads the configuration from its text: the values of `mailDir` and
/// `userName` in the general section. A leading byte-order mark is skipped.
pub fn parse_config(text: &str) -> (r: Result<Config, ConfigError>)
    ensures
        config_outcome(
            ini_general_lookup(without_bom(text@), "mailDir"@),
            ini_general_lookup(without_bom(text@), "userName"@),
            r,
        ),
{
    let n = text.unicode_len();
    let body = if n > 0 && text.get_char(0) == '\u{feff}' {
        text.substring_char(1, n)
    } else {
        text
    };
    assert(body@ =~= without_bom(text@));
    let mail_dir = match ini_general_value(body, "mailDir") {
        Err(msg) => return Err(ConfigError::Malformed(msg)),
        Ok(None) => return Err(ConfigError::NoGeneralSection),
        Ok(Some(None)) => return Err(ConfigError::MissingMailDir),
        Ok(Some(Some(v))) => v,
    };
    let user_name = match ini_general_value(body, "userName") {
        Err(msg) => return Err(ConfigError::Malformed(msg)),
        Ok(None) => return Err(ConfigError::NoGeneralSection),
        Ok(Some(v)) => v,
    };
    config_from_entries(Some(mail_dir), user_name)
}

} // verus!
