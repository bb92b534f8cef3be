//! How HTTP clients are set up.
use crate::models::products::ClientBuilderOptions;
use vstd::prelude::*;

verus! {

broadcast use vstd::string::group_string_axioms;

/// The proxy a client goes through: the one in the options, unless it is
/// missing or empty.
pub fn proxy_to_use(options: &ClientBuilderOptions) -> (proxy: Option<String>)
    ensures
        match options.proxy {
            Some(p) => if p@.len() > 0 {
                proxy == Some(p)
            } else {
                proxy is None
            },
            None => proxy is None,
        },
{
    match &options.proxy {
        Some(p) => if p.unicode_len() > 0 {
            Some(p.clone())
        } else {
            None
        },
        None => None,
    }
}

} // verus!
