use vstd::prelude::*;

verus! {

/// The views of a list of segments.
pub open spec fn views(v: Seq<Vec<char>>) -> Seq<Seq<char>> {
    v.map_values(|x: Vec<char>| x@)
}

/// The pieces of `s` between backslashes; `n` backslashes give `n + 1` pieces.
pub open spec fn segments(s: Seq<char>) -> Seq<Seq<char>>
    decreases s.len(),
{
    if s.len() == 0 {
        seq![Seq::<char>::empty()]
    } else {
        let prev = segments(s.drop_last());
        if s.last() == '\\' {
            prev.push(Seq::<char>::empty())
        } else {
            prev.drop_last().push(prev.last().push(s.last()))
        }
    }
}

/// Segments taken in order: `.` is dropped, `..` removes the segment kept before
/// it (if there is none, it is dropped too), any other segment is kept.
pub open spec fn resolved(segs: Seq<Seq<char>>) -> Seq<Seq<char>>
    decreases segs.len(),
{
    if segs.len() == 0 {
        segs
    } else {
        let prev = resolved(segs.drop_last());
        let g = segs.last();
        if g == seq!['.'] {
            prev
        } else if g == seq!['.', '.'] {
            if prev.len() > 0 {
                prev.drop_last()
            } else {
                prev
            }
        } else {
            prev.push(g)
        }
    }
}

/// The segments written one after the other, with a backslash between two.
pub open spec fn joined(segs: Seq<Seq<char>>) -> Seq<char>
    decreases segs.len(),
{
    if segs.len() == 0 {
        Seq::empty()
    } else if segs.len() == 1 {
        segs[0]
    } else {
        joined(segs.drop_last()) + seq!['\\'] + segs.last()
    }
}

/// A first segment that roots the path: empty (a leading backslash) or a drive,
/// ending in `:`.
pub open spec fn is_root_segment(g: Seq<char>) -> bool {
    g.len() == 0 || g.last() == ':'
}

/// A backslash-separated path with its `.` and `..` segments resolved. A root
/// (drive or leading backslash) is kept with the backslash after it, and `..`
/// never climbs above it.
pub open spec fn dots_resolved(s: Seq<char>) -> Seq<char> {
    let segs = segments(s);
    if is_root_segment(segs[0]) {
        if segs.len() >= 2 {
            segs[0] + seq!['\\'] + joined(resolved(segs.skip(1)))
        } else {
            segs[0]
        }
    } else {
        joined(resolved(segs))
    }
}

proof fn lemma_segments_nonempty(s: Seq<char>)
    ensures
        segments(s).len() >= 1,
    decreases s.len(),
{
    if s.len() > 0 {
        lemma_segments_nonempty(s.drop_last());
    }
}

fn split_segments(cs: &Vec<char>) -> (r: Vec<Vec<char>>)
    ensures
        views(r@) == segments(cs@),
{
    let mut done: Vec<Vec<char>> = Vec::new();
    let mut cur: Vec<char> = Vec::new();
    let mut i: usize = 0;
    assert(views(done@).push(cur@) =~= segments(cs@.take(0)));
    while i < cs.len()
        invariant
            i <= cs.len(),
            views(done@).push(cur@) == segments(cs@.take(i as int)),
        decreases cs.len() - i,
    {
        let c = cs[i];
        let ghost before = cs@.take(i as int);
        assert(cs@.take(i as int + 1).drop_last() == before);
        proof {
            lemma_segments_nonempty(before);
        }
        if c == '\\' {
            done.push(cur);
            cur = Vec::new();
            assert(views(done@).push(cur@) =~= segments(cs@.take(i as int + 1)));
        } else {
            cur.push(c);
            assert(views(done@).push(cur@) =~= segments(cs@.take(i as int + 1)));
        }
        i = i + 1;
    }
    done.push(cur);
    assert(cs@.take(cs.len() as int) == cs@);
    assert(views(done@) =~= segments(cs@));
    done
}

fn is_dot(g: &Vec<char>) -> (r: bool)
    ensures
        r == (g@ == seq!['.']),
{
    let r = g.len() == 1 && g[0] == '.';
    if r {
        assert(g@ =~= seq!['.']);
    }
    r
}

fn is_dot_dot(g: &Vec<char>) -> (r: bool)
    ensures
        r == (g@ == seq!['.', '.']),
{
    let r = g.len() == 2 && g[0] == '.' && g[1] == '.';
    if r {
        assert(g@ =~= seq!['.', '.']);
    }
    r
}

fn resolve_segments(segs: &Vec<Vec<char>>, start: usize) -> (r: Vec<Vec<char>>)
    requires
        start <= segs.len(),
    ensures
        views(r@) == resolved(views(segs@).skip(start as int)),
{
    let mut out: Vec<Vec<char>> = Vec::new();
    let mut j: usize = start;
    assert(views(segs@).subrange(start as int, start as int) =~= Seq::<Seq<char>>::empty());
    while j < segs.len()
        invariant
            start <= j <= segs.len(),
            views(out@) == resolved(views(segs@).subrange(start as int, j as int)),
        decreases segs.len() - j,
    {
        let ghost vs = views(segs@);
        assert(vs.subrange(start as int, j + 1).drop_last() == vs.subrange(start as int, j as int));
        assert(vs.subrange(start as int, j + 1).last() == segs@[j as int]@);
        let g = &segs[j];
        if is_dot(g) {
        } else if is_dot_dot(g) {
            if out.len() > 0 {
                out.pop();
                assert(views(out@) =~= resolved(views(segs@).subrange(start as int, j as int)).drop_last());
            }
        } else {
            out.push(g.clone());
            assert(views(out@) =~= resolved(views(segs@).subrange(start as int, j as int)).push(g@));
        }
        j = j + 1;
    }
    assert(views(segs@).subrange(start as int, segs.len() as int) =~= views(segs@).skip(start as int));
    out
}

fn join_segments(segs: &Vec<Vec<char>>) -> (r: Vec<char>)
    ensures
        r@ == joined(views(segs@)),
{
    let mut out: Vec<char> = Vec::new();
    let mut k: usize = 0;
    assert(views(segs@).take(0) =~= Seq::<Seq<char>>::empty());
    while k < segs.len()
        invariant
            k <= segs.len(),
            out@ == joined(views(segs@).take(k as int)),
        decreases segs.len() - k,
    {
        let ghost vs = views(segs@);
        assert(vs.take(k as int + 1).drop_last() == vs.take(k as int));
        let g = &segs[k];
        if k > 0 {
            out.push('\\');
        }
        let ghost start = out@;
        let mut i: usize = 0;
        while i < g.len()
            invariant
                i <= g.len(),
                out@ == start + g@.take(i as int),
            decreases g.len() - i,
        {
            assert(g@.take(i as int + 1) == g@.take(i as int).push(g@[i as int]));
            out.push(g[i]);
            i = i + 1;
        }
        assert(g@.take(g.len() as int) == g@);
        k = k + 1;
        assert(out@ =~= joined(vs.take(k as int)));
    }
    assert(views(segs@).take(segs.len() as int) == views(segs@));
    out
}

/// Resolves the `.` and `..` segments of a path whose separators are backslashes.
pub fn resolve_dots(cs: &Vec<char>) -> (r: Vec<char>)
    ensures
        r@ == dots_resolved(cs@),
{
    let segs = split_segments(cs);
    proof {
        lemma_segments_nonempty(cs@);
    }
    let first = &segs[0];
    if first.len() == 0 || first[first.len() - 1] == ':' {
        let mut out = first.clone();
        assert(out@ == views(segs@)[0]);
        if segs.len() >= 2 {
            let kept = resolve_segments(&segs, 1);
            let mut rest = join_segments(&kept);
            out.push('\\');
            out.append(&mut rest);
        }
        out
    } else {
        let kept = resolve_segments(&segs, 0);
        assert(views(segs@).skip(0) == views(segs@));
        join_segments(&kept)
    }
}

} // verus!
