//! Rewrites path strings written in POSIX-emulation shell syntax (MSYS/MinGW
//! drive roots, `~`, caret escapes, mixed slashes) into native
//! drive-letter syntax, and resolves `.` and `..` segments lexically.
pub mod error;
pub mod laws;
pub mod resolve;
pub mod rewrite;
mod text;

use vstd::prelude::*;

use crate::error::PathError;
use crate::resolve::{dots_resolved, resolve_dots};
use crate::rewrite::{
    fix_root, fix_tilde, normalize_slash, normalized, opt_view, result_view, root_fixed,
    tilde_result, unescaped, win_escape_char,
};
use crate::text::{chars_of, string_of};

verus! {

/// The most UTF-16 code units a canonical path may take; the native buffer keeps
/// one more for its terminator.
pub const MAX_PATH_UTF16: usize = 32767;

/// How many UTF-16 code units `c` takes: two outside the Basic Multilingual Plane.
pub open spec fn utf16_units(c: char) -> nat {
    if c as u32 > 0xFFFF {
        2
    } else {
        1
    }
}

/// How many UTF-16 code units `s` takes.
pub open spec fn utf16_len(s: Seq<char>) -> nat
    decreases s.len(),
{
    if s.len() == 0 {
        0
    } else {
        utf16_len(s.drop_last()) + utf16_units(s.last())
    }
}

proof fn lemma_utf16_len_prefix(s: Seq<char>, i: int)
    requires
        0 <= i <= s.len(),
    ensures
        utf16_len(s.take(i)) <= utf16_len(s),
    decreases s.len(),
{
    if i < s.len() {
        assert(s.take(i) == s.drop_last().take(i));
        lemma_utf16_len_prefix(s.drop_last(), i);
    } else {
        assert(s.take(i) == s);
    }
}

/// Whether `cs` fits in `max` UTF-16 code units.
fn fits_utf16(cs: &Vec<char>, max: usize) -> (r: bool)
    ensures
        r == (utf16_len(cs@) <= max),
{
    let mut count: usize = 0;
    let mut i: usize = 0;
    while i < cs.len()
        invariant
            i <= cs.len(),
            count == utf16_len(cs@.take(i as int)),
            count <= max,
        decreases cs.len() - i,
    {
        assert(cs@.take(i + 1).drop_last() == cs@.take(i as int));
        let units: usize = if (cs[i] as u32) > 0xFFFF {
            2
        } else {
            1
        };
        if units > max - count {
            proof {
                lemma_utf16_len_prefix(cs@, i + 1);
            }
            return false;
        }
        count = count + units;
        i = i + 1;
    }
    assert(cs@.take(cs.len() as int) == cs@);
    true
}

/// The path after the rewrite rules, in their fixed order: caret escapes, drive
/// root, tilde, slashes.
pub open spec fn rewritten(s: Seq<char>, home: Option<Seq<char>>) -> Result<Seq<char>, PathError> {
    match tilde_result(root_fixed(unescaped(s)), home) {
        Ok(t) => Ok(normalized(t)),
        Err(e) => Err(e),
    }
}

/// The outcome of canonicalizing `s` with home directory `home`.
pub open spec fn canonical(s: Seq<char>, home: Option<Seq<char>>) -> Result<Seq<char>, PathError> {
    match rewritten(s, home) {
        Ok(t) => if utf16_len(dots_resolved(t)) <= MAX_PATH_UTF16 {
            Ok(dots_resolved(t))
        } else {
            Err(PathError::PathTooLong)
        },
        Err(e) => Err(e),
    }
}

/// Canonicalizes a path: removes caret escapes, turns `/x/` into `X:\`, replaces a
/// leading `~` with `home`, collapses slash runs into one backslash, then resolves
/// `.` and `..` segments. `home` is the home directory, if one is set.
pub fn canonicalize(path: &str, home: Option<&str>) -> (r: Result<String, PathError>)
    ensures
        result_view(r) == canonical(path@, opt_view(home)),
{
    let a = win_escape_char(path);
    let b = fix_root(a.as_str());
    let c = match fix_tilde(b.as_str(), home) {
        Ok(c) => c,
        Err(e) => return Err(e),
    };
    let d = normalize_slash(c.as_str());
    let cs = chars_of(d.as_str());
    let resolved = resolve_dots(&cs);
    if !fits_utf16(&resolved, MAX_PATH_UTF16) {
        return Err(PathError::PathTooLong);
    }
    Ok(string_of(&resolved))
}

/// The flags handed to the native move call: replace an existing destination
/// when `overwrite` is set, and always allow copy and delete across volumes.
pub open spec fn move_flags_of(overwrite: bool) -> u32 {
    if overwrite {
        3
    } else {
        2
    }
}

/// Bit of the native move flags that lets the destination be replaced.
pub const MOVE_REPLACE_EXISTING: u32 = 1;

/// Bit of the native move flags that allows a copy and delete across volumes.
pub const MOVE_COPY_ALLOWED: u32 = 2;

/// The native move flags for a move that may or may not replace its destination.
pub fn move_flags(overwrite: bool) -> (r: u32)
    ensures
        r == move_flags_of(overwrite),
        (r & MOVE_REPLACE_EXISTING != 0) == overwrite,
        r & MOVE_COPY_ALLOWED != 0,
{
    let mut flags: u32 = MOVE_COPY_ALLOWED;
    if overwrite {
        flags = flags | MOVE_REPLACE_EXISTING;
    }
    assert((3u32 & 1u32 != 0) && (3u32 & 2u32 != 0) && (2u32 & 1u32 == 0) && (2u32 & 2u32 != 0))
        by (bit_vector);
    assert(2u32 | 1u32 == 3u32) by (bit_vector);
    flags
}

} // verus!
