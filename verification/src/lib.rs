use vstd::prelude::*;

pub mod captcha;
pub mod combine;
pub mod config_loader;
pub mod drive_wheel;
pub mod invariants;
pub mod driver;
pub mod onedrive;
pub mod path_compress;
pub mod request_handler;
pub mod side_effects;
pub mod vfs;

verus! {

/// A single path segment is valid when it holds no `/`, so that joining
/// segments with `/` stays unambiguous.
pub open spec fn valid_segment(name: Seq<char>) -> bool {
    !name.contains('/')
}

} // verus!
