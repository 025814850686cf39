//! Splitting a dataset into records: one per line, in file order.
use vstd::prelude::*;

verus! {

/// The byte that ends a line.
pub const NEWLINE: u8 = 10;

/// The byte that may stand before `NEWLINE` and is dropped with it.
pub const CARRIAGE_RETURN: u8 = 13;

/// What is left of a raw line once one trailing `\n`, and a `\r` before it,
/// are dropped.
pub open spec fn strip_line_end(raw: Seq<u8>) -> Seq<u8> {
    if raw.len() > 0 && raw.last() == NEWLINE {
        let s = raw.drop_last();
        if s.len() > 0 && s.last() == CARRIAGE_RETURN {
            s.drop_last()
        } else {
            s
        }
    } else {
        raw
    }
}

/// The length of the first raw line of `t`, its `\n` included.
pub open spec fn line_len(t: Seq<u8>) -> nat
    decreases t.len(),
{
    if t.len() == 0 {
        0
    } else if t[0] == NEWLINE {
        1
    } else {
        1 + line_len(t.skip(1))
    }
}

/// The raw lines of `t` in order: each runs up to and including a `\n`, the
/// last one may lack it; a final `\n` starts no further line.
pub open spec fn raw_lines(t: Seq<u8>) -> Seq<Seq<u8>>
    decreases t.len(),
{
    if t.len() == 0 {
        Seq::empty()
    } else {
        let k = line_len(t) as int;
        if 0 < k <= t.len() {
            seq![t.take(k)] + raw_lines(t.skip(k))
        } else {
            seq![t]
        }
    }
}

/// The records of `t`: its raw lines without their line ends.
pub open spec fn lines_of(t: Seq<u8>) -> Seq<Seq<u8>> {
    raw_lines(t).map_values(|p: Seq<u8>| strip_line_end(p))
}

/// Where the first line of `t` ends, when its first `\n` is at `m`, or when
/// it has none and `m` is its length.
pub proof fn lemma_line_len(t: Seq<u8>, m: int)
    requires
        0 <= m <= t.len(),
        forall|j: int| 0 <= j < m ==> t[j] != NEWLINE,
        m == t.len() || t[m] == NEWLINE,
    ensures
        line_len(t) == if m == t.len() { m } else { m + 1 },
    decreases m,
{
    if m > 0 {
        let u = t.skip(1);
        assert forall|j: int| 0 <= j < m - 1 implies u[j] != NEWLINE by {
            assert(u[j] == t[j + 1]);
        }
        if m < t.len() {
            assert(u[m - 1] == t[m]);
        }
        lemma_line_len(u, m - 1);
    }
}

/// The first line of a non-empty `t` is non-empty, has no `\n` but at its
/// end, and ends in `\n` unless it is all of `t`.
pub proof fn lemma_line_len_bounds(t: Seq<u8>)
    requires
        t.len() > 0,
    ensures
        1 <= line_len(t) <= t.len(),
        forall|j: int| 0 <= j < line_len(t) - 1 ==> t[j] != NEWLINE,
        line_len(t) < t.len() ==> t[line_len(t) - 1] == NEWLINE,
    decreases t.len(),
{
    let u = t.skip(1);
    if t[0] != NEWLINE && u.len() == 0 {
        assert(line_len(u) == 0);
    } else if t[0] != NEWLINE {
        lemma_line_len_bounds(u);
        assert forall|j: int| 0 <= j < line_len(t) - 1 implies t[j] != NEWLINE by {
            if j > 0 {
                assert(t[j] == u[j - 1]);
            }
        }
        if line_len(t) < t.len() {
            assert(t[line_len(t) - 1] == u[line_len(u) - 1]);
        }
    }
}

/// Copies `t[lo..hi]`.
fn copy_range(t: &[u8], lo: usize, hi: usize) -> (r: Vec<u8>)
    requires
        lo <= hi <= t@.len(),
    ensures
        r@ == t@.subrange(lo as int, hi as int),
{
    let mut r: Vec<u8> = Vec::new();
    let mut i: usize = lo;
    while i < hi
        invariant
            lo <= i <= hi,
            hi <= t@.len(),
            r@ == t@.subrange(lo as int, i as int),
        decreases hi - i,
    {
        r.push(t[i]);
        i = i + 1;
        assert(r@ =~= t@.subrange(lo as int, i as int));
    }
    r
}

/// Where the body of the raw line `t[lo..hi]` ends.
fn body_end(t: &[u8], lo: usize, hi: usize) -> (r: usize)
    requires
        lo <= hi <= t@.len(),
    ensures
        lo <= r <= hi,
        t@.subrange(lo as int, r as int) == strip_line_end(t@.subrange(lo as int, hi as int)),
{
    let ghost raw = t@.subrange(lo as int, hi as int);
    let mut e: usize = hi;
    if e > lo && t[e - 1] == NEWLINE {
        assert(raw.drop_last() =~= t@.subrange(lo as int, hi - 1));
        e = e - 1;
        if e > lo && t[e - 1] == CARRIAGE_RETURN {
            assert(raw.drop_last().drop_last() =~= t@.subrange(lo as int, hi - 2));
            e = e - 1;
        }
    }
    e
}

/// The body of one raw line: the line without one trailing `\n` and a `\r`
/// before it.
pub fn line_body(raw: &[u8]) -> (r: Vec<u8>)
    ensures
        r@ == strip_line_end(raw@),
{
    let e = body_end(raw, 0, raw.len());
    assert(raw@.subrange(0, raw@.len() as int) =~= raw@);
    copy_range(raw, 0, e)
}

/// Splits a dataset into its records, in file order.
pub fn split_lines(text: &[u8]) -> (r: Vec<Vec<u8>>)
    ensures
        r@.map_values(|l: Vec<u8>| l@) == lines_of(text@),
{
    let mut out: Vec<Vec<u8>> = Vec::new();
    let mut start: usize = 0;
    let mut i: usize = 0;
    let ghost n = text@.len() as int;
    assert(text@.subrange(0, n) =~= text@);
    assert(out@.map_values(|l: Vec<u8>| l@) + lines_of(text@) =~= lines_of(text@));
    while i < text.len()
        invariant
            start <= i <= text@.len(),
            n == text@.len(),
            forall|j: int| start <= j < i ==> text@[j] != NEWLINE,
            lines_of(text@) == out@.map_values(|l: Vec<u8>| l@) + lines_of(
                text@.subrange(start as int, n),
            ),
        decreases text.len() - i,
    {
        if text[i] == NEWLINE {
            let e = body_end(text, start, i + 1);
            let line = copy_range(text, start, e);
            proof {
                let u = text@.subrange(start as int, n);
                let k = i + 1 - start;
                lemma_line_len(u, i - start);
                assert(u.take(k) =~= text@.subrange(start as int, i + 1));
                assert(u.skip(k) =~= text@.subrange(i + 1, n));
                assert(raw_lines(u) == seq![u.take(k)] + raw_lines(u.skip(k)));
                assert(lines_of(u) =~= seq![line@] + lines_of(u.skip(k)));
            }
            let ghost before = out@;
            out.push(line);
            proof {
                assert(out@.map_values(|l: Vec<u8>| l@) =~= before.map_values(|l: Vec<u8>| l@)
                    + seq![line@]);
            }
            start = i + 1;
        }
        i = i + 1;
    }
    if start < text.len() {
        let line = copy_range(text, start, text.len());
        proof {
            let u = text@.subrange(start as int, n);
            lemma_line_len(u, u.len() as int);
            assert(u.take(u.len() as int) =~= u);
            assert(u.skip(u.len() as int) =~= Seq::<u8>::empty());
            assert(raw_lines(u.skip(u.len() as int)).len() == 0);
            assert(raw_lines(u) =~= seq![u]);
            assert(strip_line_end(u) == u);
            assert(lines_of(u) =~= seq![line@]);
        }
        let ghost before = out@;
        out.push(line);
        proof {
            assert(out@.map_values(|l: Vec<u8>| l@) =~= before.map_values(|l: Vec<u8>| l@)
                + seq![line@]);
        }
    } else {
        proof {
            assert(lines_of(text@.subrange(start as int, n)) =~= Seq::<Seq<u8>>::empty());
            assert(out@.map_values(|l: Vec<u8>| l@) + Seq::<Seq<u8>>::empty() =~= out@.map_values(
                |l: Vec<u8>| l@,
            ));
        }
    }
    out
}

} // verus!
