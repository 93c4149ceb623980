//! Where the options file lives.

use vstd::prelude::*;

verus! {

/// The home directory, or `/tmp` when it is unknown.
pub open spec fn home_or_tmp(home: Option<String>) -> Seq<char> {
    match home {
        Some(h) => h@,
        None => "/tmp"@,
    }
}

/// The options file below a home directory (`HOME`, or `/tmp` when it is
/// not set): `<home>/.config/jreb/config.toml`.
pub fn get_config_path(home: Option<String>) -> (r: String)
    ensures
        r@ == home_or_tmp(home) + "/.config/jreb/config.toml"@,
{
    let mut p = match home {
        Some(h) => h,
        None => String::from_str("/tmp"),
    };
    p.append("/.config/jreb/config.toml");
    p
}

} // verus!
