//! Reading boolean switches from environment values (the lookup of the variables under their
//! new and legacy names is done by the caller).
use vstd::prelude::*;
use crate::text::str_eq;

verus! {

/// A switch's value turns it on: it is set, to exactly "1".
pub open spec fn is_one(value: Option<&str>) -> bool {
    value matches Some(v) && v@ == "1"@
}

/// Whether a switch kept under a new name and a legacy name is on, given the values of the
/// two variables: it is when either is exactly "1".
pub fn is_flag_enabled(new_value: Option<&str>, old_value: Option<&str>) -> (r: bool)
    ensures
        r == (is_one(new_value) || is_one(old_value)),
{
    let new_on = match new_value {
        Some(v) => str_eq(v, "1"),
        None => false,
    };
    let old_on = match old_value {
        Some(v) => str_eq(v, "1"),
        None => false,
    };
    new_on || old_on
}

/// The value of a variable kept under a new name and a legacy name, given the two values: the
/// new one's when it is set, else the legacy one's; and whether a deprecation warning is due
/// (only the legacy name is set).
pub fn env_or_legacy(new_value: Option<String>, old_value: Option<String>) -> (r: (Option<String>, bool))
    ensures
        r.0 == (if new_value is Some { new_value } else { old_value }),
        r.1 == (new_value is None && old_value is Some),
{
    match new_value {
        Some(v) => (Some(v), false),
        None => {
            let warn = old_value.is_some();
            (old_value, warn)
        },
    }
}

/// Values that turn a switch on.
pub open spec fn is_on_word(v: Seq<char>) -> bool {
    v == "1"@ || v == "true"@ || v == "TRUE"@ || v == "yes"@ || v == "on"@
}

/// Values that turn a switch off.
pub open spec fn is_off_word(v: Seq<char>) -> bool {
    v == "0"@ || v == "false"@ || v == "FALSE"@ || v == "no"@ || v == "off"@
}

/// A switch's setting: on for 1/true/TRUE/yes/on, off for 0/false/FALSE/no/off, and
/// `default` when it is unset or holds anything else.
pub fn env_flag(value: Option<&str>, default: bool) -> (r: bool)
    ensures
        r == match value {
            Some(v) => if is_on_word(v@) { true } else if is_off_word(v@) { false } else { default },
            None => default,
        },
{
    match value {
        Some(v) => {
            if str_eq(v, "1") || str_eq(v, "true") || str_eq(v, "TRUE") || str_eq(v, "yes") || str_eq(v, "on") {
                true
            } else if str_eq(v, "0") || str_eq(v, "false") || str_eq(v, "FALSE") || str_eq(v, "no") || str_eq(v, "off") {
                false
            } else {
                default
            }
        },
        None => default,
    }
}

} // verus!
