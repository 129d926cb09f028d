use vstd::prelude::*;

use crate::error::PathError;
use crate::text::{chars_of, string_of};

verus! {

/// Either slash style.
pub open spec fn is_slash(c: char) -> bool {
    c == '/' || c == '\\'
}

/// Every maximal run of `/` and `\` replaced by one `\`, built left to right.
pub open spec fn normalized(s: Seq<char>) -> Seq<char>
    decreases s.len(),
{
    if s.len() == 0 {
        s
    } else {
        let prev = normalized(s.drop_last());
        let c = s.last();
        if !is_slash(c) {
            prev.push(c)
        } else if s.len() >= 2 && is_slash(s[s.len() - 2]) {
            prev
        } else {
            prev.push('\\')
        }
    }
}

/// Collapses every run of one or more slashes of either style into one backslash.
pub fn normalize_slash(path: &str) -> (r: String)
    ensures
        r@ == normalized(path@),
{
    let cs = chars_of(path);
    let mut out: Vec<char> = Vec::new();
    let mut i: usize = 0;
    while i < cs.len()
        invariant
            cs@ == path@,
            i <= cs.len(),
            out@ == normalized(cs@.take(i as int)),
        decreases cs.len() - i,
    {
        let c = cs[i];
        assert(cs@.take(i as int + 1).drop_last() == cs@.take(i as int));
        if c != '/' && c != '\\' {
            out.push(c);
        } else if i == 0 || (cs[i - 1] != '/' && cs[i - 1] != '\\') {
            out.push('\\');
        }
        i = i + 1;
    }
    assert(cs@.take(cs.len() as int) == cs@);
    string_of(&out)
}


/// What `^` followed by any one character becomes: that character.
pub open spec fn unescaped(s: Seq<char>) -> Seq<char>
    decreases s.len(),
{
    if s.len() == 0 {
        s
    } else if s.len() >= 2 && s[0] == '^' {
        seq![s[1]] + unescaped(s.skip(2))
    } else {
        seq![s[0]] + unescaped(s.skip(1))
    }
}

/// Removes caret escapes: each `^` together with the character after it becomes
/// that character, scanning left to right.
pub fn win_escape_char(path: &str) -> (r: String)
    ensures
        r@ == unescaped(path@),
{
    let cs = chars_of(path);
    let mut out: Vec<char> = Vec::new();
    let mut i: usize = 0;
    assert(cs@.skip(0) == cs@);
    assert(out@ + cs@ == cs@);
    while i < cs.len()
        invariant
            cs@ == path@,
            i <= cs.len(),
            out@ + unescaped(cs@.skip(i as int)) == unescaped(cs@),
        decreases cs.len() - i,
    {
        let ghost rest = cs@.skip(i as int);
        if i + 1 < cs.len() && cs[i] == '^' {
            assert(rest.skip(2) == cs@.skip(i as int + 2));
            out.push(cs[i + 1]);
            i = i + 2;
        } else {
            assert(rest.skip(1) == cs@.skip(i as int + 1));
            out.push(cs[i]);
            i = i + 1;
        }
        assert(out@ + unescaped(cs@.skip(i as int)) == unescaped(cs@));
    }
    assert(out@ + Seq::<char>::empty() == out@);
    string_of(&out)
}

/// An ASCII letter.
pub open spec fn is_drive_letter(c: char) -> bool {
    ('a' <= c && c <= 'z') || ('A' <= c && c <= 'Z')
}

/// The upper-case form of an ASCII letter; any other character is kept.
pub open spec fn upper(c: char) -> char {
    if 'a' <= c && c <= 'z' {
        ((c as u8) - 32) as u8 as char
    } else {
        c
    }
}

fn to_upper(c: char) -> (r: char)
    ensures
        r == upper(c),
{
    if 'a' <= c && c <= 'z' {
        ((c as u8) - 32) as u8 as char
    } else {
        c
    }
}

/// `/x/rest` for one ASCII letter `x` and any `rest`.
pub open spec fn is_mingw_rooted(s: Seq<char>) -> bool {
    &&& s.len() >= 3
    &&& s[0] == '/'
    &&& is_drive_letter(s[1])
    &&& s[2] == '/'
}

/// `/x/rest` becomes `X:\rest`; anything else is kept.
pub open spec fn root_fixed(s: Seq<char>) -> Seq<char> {
    if is_mingw_rooted(s) {
        seq![upper(s[1]), ':', '\\'] + s.skip(3)
    } else {
        s
    }
}

/// Turns an MSYS/MinGW drive root `/x/rest` into `X:\rest`, with `rest` copied as it
/// stands; any other input comes back unchanged.
pub fn fix_root(path: &str) -> (r: String)
    ensures
        r@ == root_fixed(path@),
{
    let cs = chars_of(path);
    if cs.len() < 3 || cs[0] != '/' || cs[2] != '/' {
        return string_of(&cs);
    }
    let d = cs[1];
    if !(('a' <= d && d <= 'z') || ('A' <= d && d <= 'Z')) {
        return string_of(&cs);
    }
    let mut out: Vec<char> = Vec::new();
    out.push(to_upper(d));
    out.push(':');
    out.push('\\');
    let mut i: usize = 3;
    while i < cs.len()
        invariant
            cs@ == path@,
            3 <= i <= cs.len(),
            out@ == seq![upper(d), ':', '\\'] + cs@.subrange(3, i as int),
        decreases cs.len() - i,
    {
        assert(cs@.subrange(3, i + 1) == cs@.subrange(3, i as int).push(cs[i as int]));
        out.push(cs[i]);
        i = i + 1;
    }
    assert(cs@.subrange(3, cs.len() as int) == cs@.skip(3));
    string_of(&out)
}


/// `~rest`, for any `rest`.
pub open spec fn is_tilde_rooted(s: Seq<char>) -> bool {
    s.len() >= 1 && s[0] == '~'
}

/// What tilde expansion gives with home directory `home`, when it succeeds.
pub open spec fn tilde_expanded(s: Seq<char>, home: Seq<char>) -> Seq<char> {
    if is_tilde_rooted(s) {
        home + s.skip(1)
    } else {
        s
    }
}

/// The outcome of tilde expansion, `home` being the home directory if one is set.
pub open spec fn tilde_result(s: Seq<char>, home: Option<Seq<char>>) -> Result<Seq<char>, PathError> {
    if is_tilde_rooted(s) && home is None {
        Err(PathError::MissingEnvironmentVariable)
    } else {
        Ok(tilde_expanded(s, if home is Some { home->Some_0 } else { Seq::empty() }))
    }
}

/// The view of an optional string.
pub open spec fn opt_view(home: Option<&str>) -> Option<Seq<char>> {
    match home {
        Some(h) => Some(h@),
        None => None,
    }
}

/// The view of a result that carries a string.
pub open spec fn result_view(r: Result<String, PathError>) -> Result<Seq<char>, PathError> {
    match r {
        Ok(s) => Ok(s@),
        Err(e) => Err(e),
    }
}

/// Replaces a leading `~` with the home directory `home`, keeping the rest as it
/// stands; fails when the path starts with `~` and `home` is `None`.
pub fn fix_tilde(path: &str, home: Option<&str>) -> (r: Result<String, PathError>)
    ensures
        result_view(r) == tilde_result(path@, opt_view(home)),
{
    let cs = chars_of(path);
    if cs.len() == 0 || cs[0] != '~' {
        return Ok(string_of(&cs));
    }
    match home {
        None => Err(PathError::MissingEnvironmentVariable),
        Some(h) => {
            let mut out = chars_of(h);
            let mut i: usize = 1;
            while i < cs.len()
                invariant
                    cs@ == path@,
                    1 <= i <= cs.len(),
                    out@ == h@ + cs@.subrange(1, i as int),
                decreases cs.len() - i,
            {
                assert(cs@.subrange(1, i + 1) == cs@.subrange(1, i as int).push(cs[i as int]));
                out.push(cs[i]);
                i = i + 1;
            }
            assert(cs@.subrange(1, cs.len() as int) == cs@.skip(1));
            Ok(string_of(&out))
        },
    }
}

} // verus!
