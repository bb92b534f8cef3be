//! Where a shop's configuration lives.
use crate::text::{snake_case, to_snake_case};
use vstd::prelude::*;

verus! {

broadcast use vstd::string::group_string_axioms;

/// The directory that holds the shops' configuration files: `/config/`.
pub fn config_dir() -> (dir: String)
    ensures
        dir@ == "/config/"@,
{
    String::from_str("/config/")
}

/// The file that holds a shop's configuration: `/config/<shop>.toml`, with
/// the shop's name in snake case.
pub fn config_path(shopname: &str) -> (path: String)
    ensures
        path@ == "/config/"@ + snake_case(shopname@) + ".toml"@,
{
    let mut path = config_dir();
    let name = to_snake_case(shopname);
    path.append(name.as_str());
    path.append(".toml");
    path
}

/// The configuration name of a shop type: its display name in snake case.
pub fn config_name(display_name: &str) -> (name: String)
    ensures
        name@ == snake_case(display_name@),
{
    to_snake_case(display_name)
}

} // verus!
