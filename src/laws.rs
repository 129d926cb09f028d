use vstd::prelude::*;

use crate::error::PathError;
use crate::rewrite::{
    is_drive_letter, is_slash, normalized, root_fixed, tilde_result, unescaped,
};

verus! {

/// No forward slash, and no two backslashes side by side.
pub open spec fn is_clean(s: Seq<char>) -> bool {
    &&& !s.contains('/')
    &&& forall|i: int| 0 <= i < s.len() - 1 ==> !(#[trigger] s[i] == '\\' && s[i + 1] == '\\')
}

/// A string without carets has no escapes to remove.
pub proof fn lemma_unescaped_no_caret(s: Seq<char>)
    requires
        !s.contains('^'),
    ensures
        unescaped(s) == s,
    decreases s.len(),
{
    if s.len() > 0 {
        assert(s[0] != '^');
        assert forall|k: int| 0 <= k < s.skip(1).len() implies s.skip(1)[k] != '^' by {
            assert(s.skip(1)[k] == s[k + 1]);
        }
        lemma_unescaped_no_caret(s.skip(1));
        assert(seq![s[0]] + s.skip(1) =~= s);
    }
}

/// Removing caret escapes twice from a string without carets gives what removing
/// them once gives.
pub proof fn lemma_unescape_idempotent(s: Seq<char>)
    requires
        !s.contains('^'),
    ensures
        unescaped(unescaped(s)) == unescaped(s),
{
    lemma_unescaped_no_caret(s);
}

/// The drive-root rule leaves alone every string that does not start with `/`,
/// an ASCII letter and `/`.
pub proof fn lemma_root_fix_no_match(s: Seq<char>)
    requires
        !(s.len() >= 3 && s[0] == '/' && is_drive_letter(s[1]) && s[2] == '/'),
    ensures
        root_fixed(s) == s,
{
}

/// Slash normalization yields a clean string, which ends in a backslash exactly
/// when the input ends in a slash of either style.
pub proof fn lemma_normalized_clean(s: Seq<char>)
    ensures
        is_clean(normalized(s)),
        normalized(s).len() > 0 && normalized(s).last() == '\\' <==> s.len() > 0 && is_slash(
            s.last(),
        ),
    decreases s.len(),
{
    if s.len() > 0 {
        let p = normalized(s.drop_last());
        lemma_normalized_clean(s.drop_last());
        let c = s.last();
        if !is_slash(c) {
            let q = p.push(c);
            assert(q.last() == c);
            assert forall|i: int| 0 <= i < q.len() - 1 implies !(#[trigger] q[i] == '\\' && q[i
                + 1] == '\\') by {
                if i < p.len() - 1 {
                    assert(q[i] == p[i] && q[i + 1] == p[i + 1]);
                }
            }
            assert(!q.contains('/')) by {
                if q.contains('/') {
                    let k = choose|k: int| 0 <= k < q.len() && q[k] == '/';
                    if k < p.len() {
                        assert(p[k] == '/');
                    }
                }
            }
        } else if s.len() >= 2 && is_slash(s[s.len() - 2]) {
            assert(s.drop_last().last() == s[s.len() - 2]);
        } else {
            let q = p.push('\\');
            if s.len() >= 2 {
                assert(s.drop_last().last() == s[s.len() - 2]);
            }
            assert forall|i: int| 0 <= i < q.len() - 1 implies !(#[trigger] q[i] == '\\' && q[i
                + 1] == '\\') by {
                if i < p.len() - 1 {
                    assert(q[i] == p[i] && q[i + 1] == p[i + 1]);
                } else {
                    assert(q[i] == p.last());
                }
            }
            assert(!q.contains('/')) by {
                if q.contains('/') {
                    let k = choose|k: int| 0 <= k < q.len() && q[k] == '/';
                    if k < p.len() {
                        assert(p[k] == '/');
                    }
                }
            }
        }
    }
}

/// A clean string is left as it is by slash normalization.
pub proof fn lemma_normalized_fixes_clean(s: Seq<char>)
    requires
        is_clean(s),
    ensures
        normalized(s) == s,
    decreases s.len(),
{
    if s.len() > 0 {
        let t = s.drop_last();
        assert(is_clean(t)) by {
            assert forall|i: int| 0 <= i < t.len() - 1 implies !(#[trigger] t[i] == '\\' && t[i
                + 1] == '\\') by {
                assert(t[i] == s[i] && t[i + 1] == s[i + 1]);
            }
            if t.contains('/') {
                let k = choose|k: int| 0 <= k < t.len() && t[k] == '/';
                assert(s[k] == '/');
            }
        }
        lemma_normalized_fixes_clean(t);
        assert(s.last() != '/');
        if s.len() >= 2 && s.last() == '\\' {
            assert(s[s.len() - 2] != '/');
            assert(s[s.len() - 2] != '\\');
        }
        assert(t.push(s.last()) =~= s);
    }
}

/// Slash normalization is idempotent.
pub proof fn lemma_normalize_idempotent(s: Seq<char>)
    ensures
        normalized(normalized(s)) == normalized(s),
{
    lemma_normalized_clean(s);
    lemma_normalized_fixes_clean(normalized(s));
}

/// The characters of `s` that are not slashes, in order.
pub open spec fn non_slash_chars(s: Seq<char>) -> Seq<char> {
    s.filter(|c: char| !is_slash(c))
}

/// The backslashes of `s`.
pub open spec fn backslashes(s: Seq<char>) -> Seq<char> {
    s.filter(|c: char| c == '\\')
}

/// How many maximal runs of slashes, of either style, `s` holds: the slashes that
/// do not follow a slash.
pub open spec fn slash_runs(s: Seq<char>) -> nat
    decreases s.len(),
{
    if s.len() == 0 {
        0
    } else if is_slash(s.last()) && !(s.len() >= 2 && is_slash(s[s.len() - 2])) {
        slash_runs(s.drop_last()) + 1
    } else {
        slash_runs(s.drop_last())
    }
}

/// Slash normalization keeps every other character, in order, and leaves exactly
/// one backslash for each run of slashes.
pub proof fn lemma_normalize_keeps_text_and_counts_runs(s: Seq<char>)
    ensures
        non_slash_chars(normalized(s)) == non_slash_chars(s),
        backslashes(normalized(s)).len() == slash_runs(s),
    decreases s.len(),
{
    broadcast use Seq::lemma_filter_push;

    if s.len() == 0 {
        assert(non_slash_chars(s) =~= Seq::<char>::empty()) by {
            reveal(Seq::filter);
        }
        assert(backslashes(s) =~= Seq::<char>::empty()) by {
            reveal(Seq::filter);
        }
    } else {
        let t = s.drop_last();
        lemma_normalize_keeps_text_and_counts_runs(t);
        assert(t.push(s.last()) =~= s);
    }
}

/// Slash normalization starts with a backslash exactly when the input starts with
/// a slash, and otherwise starts with the input's first character.
pub proof fn lemma_normalized_first(s: Seq<char>)
    requires
        s.len() > 0,
    ensures
        normalized(s).len() > 0,
        normalized(s)[0] == if is_slash(s[0]) {
            '\\'
        } else {
            s[0]
        },
    decreases s.len(),
{
    if s.len() > 1 {
        let t = s.drop_last();
        lemma_normalized_first(t);
        assert(t[0] == s[0]);
        let p = normalized(t);
        assert(p.push(s.last())[0] == p[0]);
        assert(p.push('\\')[0] == p[0]);
    } else {
        assert(s.drop_last() =~= Seq::<char>::empty());
        assert(normalized(s.drop_last()) =~= Seq::<char>::empty());
        assert(Seq::<char>::empty().push(s[0])[0] == s[0]);
        assert(Seq::<char>::empty().push('\\')[0] == '\\');
    }
}

/// Normalization splits at a point where no slash follows: the part after it
/// is normalized on its own.
pub proof fn lemma_normalized_concat(a: Seq<char>, b: Seq<char>)
    requires
        b.len() == 0 || !is_slash(b[0]),
    ensures
        normalized(a + b) == normalized(a) + normalized(b),
    decreases b.len(),
{
    if b.len() == 0 {
        assert(a + b =~= a);
        assert(normalized(a) + normalized(b) =~= normalized(a));
    } else {
        let ab = a + b;
        let bd = b.drop_last();
        assert(ab.drop_last() =~= a + bd);
        assert(ab.last() == b.last());
        lemma_normalized_concat(a, bd);
        if b.len() >= 2 {
            assert(ab[ab.len() - 2] == b[b.len() - 2]);
            assert(bd[0] == b[0]);
        } else {
            assert(bd =~= Seq::<char>::empty());
        }
        let na = normalized(a);
        let nb = normalized(bd);
        assert((na + nb).push(b.last()) =~= na + nb.push(b.last()));
        assert((na + nb).push('\\') =~= na + nb.push('\\'));
    }
}

/// A run of one or more slashes, of either style, after a point where no slash
/// stands, becomes one backslash.
pub proof fn lemma_normalized_run(p: Seq<char>, run: Seq<char>)
    requires
        p.len() == 0 || !is_slash(p.last()),
        run.len() >= 1,
        forall|i: int| 0 <= i < run.len() ==> is_slash(#[trigger] run[i]),
    ensures
        normalized(p + run) == normalized(p).push('\\'),
    decreases run.len(),
{
    let pr = p + run;
    assert(pr.last() == run.last());
    if run.len() == 1 {
        assert(pr.drop_last() =~= p);
        if p.len() > 0 {
            assert(pr[pr.len() - 2] == p.last());
        }
    } else {
        let rd = run.drop_last();
        assert(pr.drop_last() =~= p + rd);
        assert(pr[pr.len() - 2] == run[run.len() - 2]);
        lemma_normalized_run(p, rd);
    }
}

/// Slash normalization collapses every run of one or more slashes, mixed or
/// not, leading, inner or trailing, into exactly one backslash, and normalizes
/// what stands on either side of the run on its own.
pub proof fn lemma_normalize_collapses_runs(p: Seq<char>, run: Seq<char>, q: Seq<char>)
    requires
        p.len() == 0 || !is_slash(p.last()),
        run.len() >= 1,
        forall|i: int| 0 <= i < run.len() ==> is_slash(#[trigger] run[i]),
        q.len() == 0 || !is_slash(q[0]),
    ensures
        normalized(p + run + q) == normalized(p) + seq!['\\'] + normalized(q),
{
    lemma_normalized_run(p, run);
    lemma_normalized_concat(p + run, q);
    assert(normalized(p).push('\\') =~= normalized(p) + seq!['\\']);
}

/// Tilde expansion touches only a leading `~`: a string that does not start with
/// `~` comes back as it is, wherever else a `~` stands; one that does, with a home
/// directory given, becomes that directory followed by the rest, kept as it is.
pub proof fn lemma_tilde_only_leading(s: Seq<char>, home: Option<Seq<char>>)
    ensures
        (s.len() == 0 || s[0] != '~') ==> tilde_result(s, home) == Ok::<Seq<char>, PathError>(s),
        s.len() >= 1 && s[0] == '~' && home is Some ==> {
            &&& tilde_result(s, home) == Ok::<Seq<char>, PathError>(home->Some_0 + s.skip(1))
            &&& (home->Some_0 + s.skip(1)).skip(home->Some_0.len() as int) == s.skip(1)
        },
{
    if home is Some {
        assert((home->Some_0 + s.skip(1)).skip(home->Some_0.len() as int) =~= s.skip(1));
    }
}

} // verus!
