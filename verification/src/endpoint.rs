//! The mount point under which mock routes are served.
use vstd::prelude::*;
use crate::text::{ends_with, occurs_in, str_contains, str_ends_with};

verus! {

/// Whether `prefix` names the session segment: it ends with
/// `/:serverify_session`, or goes on behind it with another segment.
pub open spec fn names_session_segment(prefix: Seq<char>) -> bool {
    ends_with(prefix, "/:serverify_session"@) || occurs_in(prefix, "/:serverify_session/"@)
}

/// A path prefix that holds the session segment `/:serverify_session`.
pub struct PathPrefix<'a>(pub &'a str);

impl<'a> PathPrefix<'a> {
    /// Takes `prefix` if it holds the session segment, and refuses it
    /// otherwise.
    pub fn new(prefix: &'a str) -> (r: Result<PathPrefix<'a>, String>)
        ensures
            match r {
                Ok(p) => names_session_segment(prefix@) && p.0@ == prefix@,
                Err(e) => !names_session_segment(prefix@) && e@
                    == "Prefix must start with a slash"@,
            },
    {
        if str_ends_with(prefix, "/:serverify_session") || str_contains(
            prefix,
            "/:serverify_session/",
        ) {
            Ok(PathPrefix(prefix))
        } else {
            Err("Prefix must start with a slash".to_owned())
        }
    }
}

} // verus!
