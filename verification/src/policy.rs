//! The caller-side input policy.  The store itself accepts any text;
//! callers trim their input first, refuse to save a note that is
//! entirely empty, and give an untitled note with a body the title
//! `"Untitled"`.
use vstd::prelude::*;

use crate::text::{trim_str, trimmed};

verus! {

/// Prepare input for adding a note: trim both fields; `None` when both
/// are empty after trimming (nothing to save); the placeholder title
/// `"Untitled"` when only the title is empty.
pub fn prepare_add_input(title: &str, body: &str) -> (r: Option<(String, String)>)
    ensures
        match r {
            None => trimmed(title@).len() == 0 && trimmed(body@).len() == 0,
            Some(tb) => {
                &&& !(trimmed(title@).len() == 0 && trimmed(body@).len() == 0)
                &&& tb.0@ == if trimmed(title@).len() == 0 {
                    "Untitled"@
                } else {
                    trimmed(title@)
                }
                &&& tb.1@ == trimmed(body@)
            },
        },
{
    let t = trim_str(title);
    let b = trim_str(body);
    if t.as_str().is_empty() {
        if b.as_str().is_empty() {
            None
        } else {
            Some((String::from_str("Untitled"), b))
        }
    } else {
        Some((t, b))
    }
}

/// Prepare input for editing a note: trim both fields; `None` when both
/// are empty after trimming (no changes provided).
pub fn prepare_edit_input(title: &str, body: &str) -> (r: Option<(String, String)>)
    ensures
        match r {
            None => trimmed(title@).len() == 0 && trimmed(body@).len() == 0,
            Some(tb) => {
                &&& !(trimmed(title@).len() == 0 && trimmed(body@).len() == 0)
                &&& tb.0@ == trimmed(title@)
                &&& tb.1@ == trimmed(body@)
            },
        },
{
    let t = trim_str(title);
    let b = trim_str(body);
    if t.as_str().is_empty() && b.as_str().is_empty() {
        None
    } else {
        Some((t, b))
    }
}

} // verus!
