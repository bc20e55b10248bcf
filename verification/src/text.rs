//! Byte-level text scanning: first-occurrence search, `lines()`-style
//! splitting of a byte stream, and locating the end of the typescript's
//! header line.

use vstd::prelude::*;

verus! {

/// Index of the first occurrence of `b` in `s`, or `s.len()` when `b` does
/// not occur.
pub open spec fn first_index_of(s: Seq<u8>, b: u8) -> int
    decreases s.len(),
{
    if s.len() == 0 {
        0
    } else if s[0] == b {
        0
    } else {
        1 + first_index_of(s.skip(1), b)
    }
}

/// `first_index_of` lands in bounds, lands on `b` when `b` occurs, and
/// nothing before it is `b`.
pub proof fn lemma_first_index_of(s: Seq<u8>, b: u8)
    ensures
        0 <= first_index_of(s, b) <= s.len(),
        first_index_of(s, b) < s.len() ==> s[first_index_of(s, b)] == b,
        forall|k: int| 0 <= k < first_index_of(s, b) ==> s[k] != b,
    decreases s.len(),
{
    if s.len() > 0 && s[0] != b {
        lemma_first_index_of(s.skip(1), b);
        assert forall|k: int| 0 <= k < first_index_of(s, b) implies s[k] != b by {
            if k > 0 {
                assert(s.skip(1)[k - 1] == s[k]);
            }
        }
    }
}

/// Any index that carries `b` with no `b` before it is the first index.
pub proof fn lemma_first_index_of_unique(s: Seq<u8>, b: u8, i: int)
    requires
        0 <= i <= s.len(),
        i < s.len() ==> s[i] == b,
        forall|k: int| 0 <= k < i ==> s[k] != b,
        i == s.len() ==> forall|k: int| 0 <= k < s.len() ==> s[k] != b,
    ensures
        first_index_of(s, b) == i,
{
    lemma_first_index_of(s, b);
    let f = first_index_of(s, b);
    if f < i {
        assert(s[f] == b);
    } else if i < f {
        assert(s[i] != b);
    }
}

/// First index of byte `b` in `v` at or after `from`, or `v.len()` when `b`
/// does not occur there.
pub fn find_byte(v: &Vec<u8>, b: u8, from: usize) -> (r: usize)
    requires
        from <= v@.len(),
    ensures
        from <= r <= v@.len(),
        r - from == first_index_of(v@.skip(from as int), b),
        r < v@.len() ==> v@[r as int] == b,
        forall|k: int| from <= k < r ==> v@[k] != b,
{
    let mut i: usize = from;
    while i < v.len()
        invariant
            from <= i <= v@.len(),
            forall|k: int| from <= k < i ==> v@[k] != b,
        decreases v@.len() - i,
    {
        if v[i] == b {
            proof {
                let s = v@.skip(from as int);
                assert forall|k: int| 0 <= k < i - from implies s[k] != b by {
                    assert(s[k] == v@[from + k]);
                }
                assert(s[i - from] == v@[i as int]);
                lemma_first_index_of_unique(s, b, i - from);
            }
            return i;
        }
        i = i + 1;
    }
    proof {
        let s = v@.skip(from as int);
        assert forall|k: int| 0 <= k < i - from implies s[k] != b by {
            assert(s[k] == v@[from + k]);
        }
        lemma_first_index_of_unique(s, b, i - from);
    }
    i
}

/// Removes a single trailing carriage return, as `lines()` does for a line
/// that was closed by a newline.
pub open spec fn strip_cr(l: Seq<u8>) -> Seq<u8> {
    if l.len() > 0 && l[l.len() - 1] == 13 {
        l.drop_last()
    } else {
        l
    }
}

/// The lines of a byte stream: split on newline bytes; a line closed by a
/// newline loses one trailing carriage return; a final unterminated line is
/// kept as it stands; a trailing newline does not open an empty last line.
pub open spec fn spec_lines(t: Seq<u8>) -> Seq<Seq<u8>>
    decreases t.len(),
    via spec_lines_decreases
{
    if t.len() == 0 {
        Seq::empty()
    } else {
        let i = first_index_of(t, 10);
        if i == t.len() {
            seq![t]
        } else {
            seq![strip_cr(t.take(i))].add(spec_lines(t.skip(i + 1)))
        }
    }
}

#[via_fn]
proof fn spec_lines_decreases(t: Seq<u8>) {
    lemma_first_index_of(t, 10);
}

/// The views of a sequence of byte vectors.
pub open spec fn line_views(s: Seq<Vec<u8>>) -> Seq<Seq<u8>> {
    s.map_values(|v: Vec<u8>| v@)
}

/// Copies `v[from..to]` into a fresh vector.
pub fn copy_range(v: &Vec<u8>, from: usize, to: usize) -> (r: Vec<u8>)
    requires
        from <= to <= v@.len(),
    ensures
        r@ == v@.subrange(from as int, to as int),
{
    let mut r: Vec<u8> = Vec::new();
    let mut i: usize = from;
    while i < to
        invariant
            from <= i <= to <= v@.len(),
            r@ == v@.subrange(from as int, i as int),
        decreases to - i,
    {
        r.push(v[i]);
        i = i + 1;
        proof {
            assert(r@ =~= v@.subrange(from as int, i as int));
        }
    }
    r
}

/// Copies a byte vector.
pub fn clone_bytes(v: &Vec<u8>) -> (r: Vec<u8>)
    ensures
        r@ == v@,
{
    let r = copy_range(v, 0, v.len());
    proof {
        assert(r@ =~= v@);
    }
    r
}

/// Splits a byte stream into its lines, as `spec_lines` describes.
pub fn split_lines(t: &Vec<u8>) -> (r: Vec<Vec<u8>>)
    ensures
        line_views(r@) == spec_lines(t@),
{
    let mut r: Vec<Vec<u8>> = Vec::new();
    let mut start: usize = 0;
    proof {
        assert(t@.skip(0) =~= t@);
        assert(line_views(r@).add(spec_lines(t@)) =~= spec_lines(t@));
    }
    while start < t.len()
        invariant
            start <= t@.len(),
            spec_lines(t@) == line_views(r@).add(spec_lines(t@.skip(start as int))),
        decreases t@.len() - start,
    {
        let ghost rest = t@.skip(start as int);
        let j = find_byte(t, 10, start);
        proof {
            lemma_first_index_of(rest, 10);
        }
        if j == t.len() {
            // Final unterminated line: everything from `start` on.
            let line = copy_range(t, start, j);
            proof {
                assert(line@ =~= rest);
                assert(spec_lines(rest) == seq![rest]);
                assert(line_views(r@.push(line)) =~= line_views(r@).push(rest));
                assert(spec_lines(t@) =~= line_views(r@.push(line)).add(
                    spec_lines(t@.skip(t@.len() as int)),
                ));
            }
            r.push(line);
            start = j;
        } else {
            let end: usize = if j > start && t[j - 1] == 13 {
                j - 1
            } else {
                j
            };
            let line = copy_range(t, start, end);
            proof {
                let i = j - start;
                assert(line@ =~= strip_cr(rest.take(i))) by {
                    if i > 0 {
                        assert(rest.take(i)[i - 1] == t@[j - 1]);
                    }
                    if j > start && t@[j - 1] == 13 {
                        assert(strip_cr(rest.take(i)) == rest.take(i).drop_last());
                        assert(line@ =~= rest.take(i).drop_last());
                    } else {
                        assert(line@ =~= rest.take(i));
                    }
                }
                assert(rest.skip(i + 1) =~= t@.skip(j + 1));
                assert(spec_lines(rest) == seq![line@].add(spec_lines(t@.skip(j + 1))));
                assert(line_views(r@.push(line)) =~= line_views(r@).push(line@));
                assert(line_views(r@).push(line@).add(spec_lines(t@.skip(j + 1))) =~= line_views(
                    r@.push(line),
                ).add(spec_lines(t@.skip(j + 1))));
            }
            r.push(line);
            start = j + 1;
        }
    }
    proof {
        assert(t@.skip(start as int) =~= Seq::<u8>::empty());
        assert(line_views(r@).add(spec_lines(t@.skip(start as int))) =~= line_views(r@));
    }
    r
}

/// Index just past the typescript's header line: one past the first newline,
/// or the stream's length when no newline occurs.
pub open spec fn spec_header_end(s: Seq<u8>) -> int {
    if first_index_of(s, 10) == s.len() {
        s.len() as int
    } else {
        first_index_of(s, 10) + 1
    }
}

/// Locates the end of the header line that a typescript stream opens with;
/// the bytes before it are discarded without interpretation.
pub fn header_end(script: &Vec<u8>) -> (r: usize)
    ensures
        r == spec_header_end(script@),
        r <= script@.len(),
{
    proof {
        lemma_first_index_of(script@, 10);
    }
    let j = find_byte(script, 10, 0);
    proof {
        assert(script@.skip(0) =~= script@);
    }
    if j == script.len() {
        j
    } else {
        j + 1
    }
}

} // verus!
