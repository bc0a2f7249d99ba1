//! The settings of the service. Each is read from a variable of the environment; the
//! caller looks the variable up and hands its value in, `None` where it is not set.

use crate::text::{decimal, decimal_string, parse_usize, parsed_usize, prefixed, same_text};
use vstd::prelude::*;
use vstd::string::StringExecFns;

verus! {

/// The collection that is used where none is named.
pub const DEFAULT_COLLECTION: &'static str = "main";

/// How many workers scan a collection.
pub const NUM_WORKERS: usize = 4;

/// The page that a query returns where it names none.
pub const DEFAULT_PAGE: usize = 0;

/// How many rows a page holds where the query does not say.
pub const DEFAULT_PAGE_SIZE: usize = 10;

/// The port that the service listens on.
pub const PORT: usize = 8750;

/// The default of the numeric setting `v`, or `None` if `v` names no such setting.
pub open spec fn default_usize(v: Seq<char>) -> Option<usize> {
    if v == "ZENITHDS_NUM_WORKERS"@ {
        Some(NUM_WORKERS)
    } else if v == "ZENITHDS_DEFAULT_PAGE"@ {
        Some(DEFAULT_PAGE)
    } else if v == "ZENITHDS_DEFAULT_PAGE_SIZE"@ {
        Some(DEFAULT_PAGE_SIZE)
    } else if v == "ZENITHDS_PORT"@ {
        Some(PORT)
    } else {
        None
    }
}

/// The numeric setting `v` where the environment holds `value` for it: the number
/// that the value stands for, the default where the variable is not set or its value
/// is no number, and 0 where `v` names no numeric setting.
pub open spec fn setting_usize(v: Seq<char>, value: Option<Seq<char>>) -> usize {
    match default_usize(v) {
        None => 0,
        Some(default) => match value {
            None => default,
            Some(text) => match parsed_usize(text) {
                Some(n) => n,
                None => default,
            },
        },
    }
}

/// The default of the text setting `v`, or `None` if `v` names no such setting.
pub open spec fn default_str(v: Seq<char>) -> Option<Seq<char>> {
    if v == "ZENITHDS_HOST"@ {
        Some("0.0.0.0"@)
    } else if v == "ZENITHDS_USE_PREFIX"@ {
        Some(""@)
    } else if v == "ZENITHDS_ALLOWED_ORIGINS"@ {
        Some(""@)
    } else {
        None
    }
}

/// The text setting `v` where the environment holds `value` for it: the value, the
/// default where the variable is not set, and the empty string where `v` names no
/// text setting.
pub open spec fn setting_str(v: Seq<char>, value: Option<Seq<char>>) -> Seq<char> {
    match default_str(v) {
        None => ""@,
        Some(default) => match value {
            None => default,
            Some(text) => text,
        },
    }
}

/// The view of a value that may be missing.
pub open spec fn text_of(value: Option<&str>) -> Option<Seq<char>> {
    match value {
        Some(text) => Some(text@),
        None => None,
    }
}

/// `value` read as a number, or `default`.
fn unpack_var_usize(value: Option<&str>, default: usize) -> (n: usize)
    ensures
        n == match text_of(value) {
            None => default,
            Some(text) => match parsed_usize(text) {
                Some(n) => n,
                None => default,
            },
        },
{
    match value {
        None => default,
        Some(text) => match parse_usize(text) {
            Some(n) => n,
            None => default,
        },
    }
}

/// `value`, or `default`.
fn unpack_var_str(value: Option<&str>, default: &str) -> (s: String)
    ensures
        s@ == match text_of(value) {
            None => default@,
            Some(text) => text,
        },
{
    match value {
        None => String::from_str(default),
        Some(text) => String::from_str(text),
    }
}

/// The numeric setting `v`, where `value` is what the environment holds for it.
///
/// Returns `0` if `v` names no numeric setting, or the default if the variable is
/// not set.
pub fn envar_usize(v: &str, value: Option<&str>) -> (n: usize)
    ensures
        n == setting_usize(v@, text_of(value)),
{
    if same_text(v, "ZENITHDS_NUM_WORKERS") {
        unpack_var_usize(value, NUM_WORKERS)
    } else if same_text(v, "ZENITHDS_DEFAULT_PAGE") {
        unpack_var_usize(value, DEFAULT_PAGE)
    } else if same_text(v, "ZENITHDS_DEFAULT_PAGE_SIZE") {
        unpack_var_usize(value, DEFAULT_PAGE_SIZE)
    } else if same_text(v, "ZENITHDS_PORT") {
        unpack_var_usize(value, PORT)
    } else {
        0
    }
}

/// The text setting `v`, where `value` is what the environment holds for it.
///
/// Returns the empty string if `v` names no text setting, or the default if the
/// variable is not set.
pub fn envar_str(v: &str, value: Option<&str>) -> (s: String)
    ensures
        s@ == setting_str(v@, text_of(value)),
{
    if same_text(v, "ZENITHDS_HOST") {
        unpack_var_str(value, "0.0.0.0")
    } else if same_text(v, "ZENITHDS_USE_PREFIX") {
        unpack_var_str(value, "")
    } else if same_text(v, "ZENITHDS_ALLOWED_ORIGINS") {
        unpack_var_str(value, "")
    } else {
        String::from_str("")
    }
}

/// The address on which the service listens: host, colon, port.
pub open spec fn address_text(debug: bool, host: Option<Seq<char>>, port: Option<Seq<char>>) -> Seq<
    char,
> {
    (if debug {
        "127.0.0.1"@
    } else {
        setting_str("ZENITHDS_HOST"@, host)
    }) + ":"@ + decimal(setting_usize("ZENITHDS_PORT"@, port) as nat)
}

/// The address for establishing the server, from the values that the environment
/// holds for `ZENITHDS_HOST` and `ZENITHDS_PORT`. In a debug build the host is
/// `127.0.0.1` whatever is set.
pub fn address(debug: bool, host: Option<&str>, port: Option<&str>) -> (s: String)
    ensures
        s@ == address_text(debug, text_of(host), text_of(port)),
{
    let mut s = if debug {
        String::from_str("127.0.0.1")
    } else {
        envar_str("ZENITHDS_HOST", host)
    };
    s.append(":");
    s.append(decimal_string(envar_usize("ZENITHDS_PORT", port)).as_str());
    s
}

/// The prefix of the API's resources for `version`, where `use_prefix` is what the
/// environment holds for `ZENITHDS_USE_PREFIX`. If that is set and not empty, the
/// name of the application comes first.
pub fn prefix(version: &str, use_prefix: Option<&str>) -> (s: String)
    ensures
        s@ == (if setting_str("ZENITHDS_USE_PREFIX"@, text_of(use_prefix)).len() == 0 {
            "/api/"@
        } else {
            "/zenithds/api/"@
        }) + version@,
{
    if envar_str("ZENITHDS_USE_PREFIX", use_prefix).as_str().is_empty() {
        prefixed("/api/", version)
    } else {
        prefixed("/zenithds/api/", version)
    }
}

} // verus!
