//! Textual path helpers with POSIX separators.

use vstd::prelude::*;

use crate::text::{chars_of, push_char};

verus! {

broadcast use vstd::string::group_string_axioms;

/// `base` joined with `rel` as `Path::join` does: an absolute `rel` replaces `base`;
/// otherwise the two are joined by one `/`.
pub open spec fn spec_join(base: Seq<char>, rel: Seq<char>) -> Seq<char> {
    if rel.len() > 0 && rel[0] == '/' {
        rel
    } else if base.len() == 0 {
        rel
    } else if base.last() == '/' {
        base + rel
    } else {
        base.push('/') + rel
    }
}

/// Joins a path onto a base path; an absolute one replaces the base.
pub fn join_path(base: &str, rel: &str) -> (r: String)
    ensures
        r@ == spec_join(base@, rel@),
{
    let rel_chars = chars_of(rel);
    if rel_chars.len() > 0 && rel_chars[0] == '/' {
        return String::from_str(rel);
    }
    let chars = chars_of(base);
    let mut out = String::from_str(base);
    if chars.len() > 0 && chars[chars.len() - 1] != '/' {
        push_char(&mut out, '/');
    }
    out.append(rel);
    proof {
        if base@.len() == 0 {
            assert(base@ + rel@ =~= rel@);
        }
    }
    out
}

} // verus!
