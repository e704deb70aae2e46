//! Names of keys and buttons.

use vstd::prelude::*;

verus! {

/// The name of a key or button, such as `BTN_SIDE`.
pub uninterp spec fn key_name(code: u16) -> Seq<char>;

/// The code of the key or button called by a name.
pub uninterp spec fn key_code(name: Seq<char>) -> Option<u16>;

/// The `Debug` form of `evdev::KeyCode::new`: the name of a key or button, which is what a
/// configuration takes, or a placeholder for a code without one. A name so given is either none
/// that can be looked up or stands for the same code.
#[verifier::external_body]
pub(crate) fn name_of_key(code: u16) -> (s: String)
    ensures
        s@ == key_name(code),
        key_code(s@) is None || key_code(s@) == Some(code),
{
    format!("{:?}", evdev::KeyCode::new(code))
}

/// `<evdev::KeyCode as FromStr>::from_str`: the code of the key or button of that exact name, if
/// there is one.
#[verifier::external_body]
pub(crate) fn code_of_key(name: &str) -> (r: Option<u16>)
    ensures
        r == key_code(name@),
{
    name.parse::<evdev::KeyCode>().ok().map(|k| k.code())
}

/// The code of the key or button called `name`, if there is one.
pub fn code_for(name: &str) -> (r: Option<u16>)
    ensures
        r == key_code(name@),
{
    code_of_key(name)
}

/// The name of a key or button as a binding holds it. Looking it up gives the same code, where
/// it can be looked up at all.
pub fn binding_name(code: u16) -> (s: String)
    ensures
        s@ == key_name(code),
        key_code(s@) is None || key_code(s@) == Some(code),
{
    name_of_key(code)
}

} // verus!
