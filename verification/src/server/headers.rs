//! HTTP request heads as bytes: where the head ends and its CRLF-separated
//! lines.

use vstd::prelude::*;

verus! {

/// Whether a CRLF starts at `i`.
pub open spec fn crlf_at(b: Seq<u8>, i: int) -> bool {
    0 <= i && i + 1 < b.len() && b[i] == 13 && b[i + 1] == 10
}

/// The index of the first CRLF in `b`.
pub open spec fn first_crlf(b: Seq<u8>) -> Option<int>
    decreases b.len(),
{
    if b.len() < 2 {
        None
    } else if b[0] == 13 && b[1] == 10 {
        Some(0)
    } else {
        match first_crlf(b.drop_first()) {
            Some(i) => Some(i + 1),
            None => None,
        }
    }
}

/// The pieces of `b` between CRLFs (`str::split("\r\n")`).
pub open spec fn crlf_lines(b: Seq<u8>) -> Seq<Seq<u8>>
    decreases b.len(),
{
    match first_crlf(b) {
        Some(i) => if 0 <= i && i + 2 <= b.len() {
            seq![b.take(i)] + crlf_lines(b.skip(i + 2))
        } else {
            seq![b]
        },
        None => seq![b],
    }
}

/// The index of the first blank line (`\r\n\r\n`) at or after `i`, or 0
/// when there is none.
pub open spec fn head_end_from(d: Seq<u8>, i: int) -> int
    decreases d.len() - i,
{
    if i < 0 || i + 4 > d.len() {
        0
    } else if d[i] == 13 && d[i + 1] == 10 && d[i + 2] == 13 && d[i + 3] == 10 {
        i
    } else {
        head_end_from(d, i + 1)
    }
}

/// Where the head of a request ends (0 when no blank line was seen).
pub open spec fn head_end(d: Seq<u8>) -> int {
    head_end_from(d, 0)
}

/// ASCII lower-casing of a byte.
pub open spec fn lower_byte(b: u8) -> u8 {
    if 0x41 <= b <= 0x5a {
        (b + 32) as u8
    } else {
        b
    }
}

pub open spec fn lower_bytes(b: Seq<u8>) -> Seq<u8> {
    b.map_values(|x: u8| lower_byte(x))
}

pub fn lower_byte_exec(b: u8) -> (r: u8)
    ensures
        r == lower_byte(b),
{
    if 0x41 <= b && b <= 0x5a {
        b + 32
    } else {
        b
    }
}

/// Where the head of `d` ends.
pub fn find_head_end(d: &[u8]) -> (e: usize)
    ensures
        e == head_end(d@),
        e <= d@.len(),
{
    let mut i: usize = 0;
    while d.len() >= 4 && i <= d.len() - 4
        invariant
            0 <= i,
            i <= d@.len(),
            head_end(d@) == head_end_from(d@, i as int),
        decreases d@.len() - i,
    {
        if d[i] == 13 && d[i + 1] == 10 && d[i + 2] == 13 && d[i + 3] == 10 {
            return i;
        }
        i = i + 1;
    }
    0
}

proof fn lemma_first_crlf_from(b: Seq<u8>, i: int)
    requires
        0 <= i <= b.len(),
        forall|j: int| 0 <= j < i ==> !crlf_at(b, j),
    ensures
        first_crlf(b) == match first_crlf(b.skip(i)) {
            Some(k) => Some(k + i),
            None => None::<int>,
        },
    decreases i,
{
    if i == 0 {
        assert(b.skip(0) == b);
        match first_crlf(b) {
            Some(k) => {},
            None => {},
        }
    } else {
        assert(!crlf_at(b, 0));
        assert forall|j: int| 0 <= j < i - 1 implies !crlf_at(b.drop_first(), j) by {
            assert(!crlf_at(b, j + 1));
        }
        lemma_first_crlf_from(b.drop_first(), i - 1);
        assert(b.drop_first().skip(i - 1) == b.skip(i));
    }
}

proof fn lemma_first_crlf_props(b: Seq<u8>)
    ensures
        first_crlf(b) matches Some(i) ==> crlf_at(b, i),
    decreases b.len(),
{
    if b.len() >= 2 && !(b[0] == 13 && b[1] == 10) {
        lemma_first_crlf_props(b.drop_first());
    }
}

/// The pieces of `d` that the bounds `r` mark.
pub open spec fn pieces(d: Seq<u8>, r: Seq<(usize, usize)>) -> Seq<Seq<u8>> {
    r.map_values(|p: (usize, usize)| d.subrange(p.0 as int, p.1 as int))
}

/// The bounds of the lines of `d[lo..hi]`, split at CRLF.
pub fn crlf_bounds(d: &[u8], lo: usize, hi: usize) -> (r: Vec<(usize, usize)>)
    requires
        lo <= hi <= d@.len(),
    ensures
        r@.len() == crlf_lines(d@.subrange(lo as int, hi as int)).len(),
        forall|k: int| 0 <= k < r@.len() ==> lo <= (#[trigger] r@[k]).0 <= r@[k].1 <= hi,
        forall|k: int|
            0 <= k < r@.len() ==> d@.subrange((#[trigger] r@[k]).0 as int, r@[k].1 as int)
                == crlf_lines(d@.subrange(lo as int, hi as int))[k],
{
    let ghost all = crlf_lines(d@.subrange(lo as int, hi as int));
    let mut r: Vec<(usize, usize)> = Vec::new();
    let mut start = lo;
    let mut i = lo;
    proof {
        assert(pieces(d@, r@) + crlf_lines(d@.subrange(start as int, hi as int)) =~= all);
    }
    while i < hi
        invariant
            lo <= start <= i <= hi <= d@.len(),
            all == crlf_lines(d@.subrange(lo as int, hi as int)),
            forall|j: int| 0 <= j < i - start ==> !crlf_at(d@.subrange(start as int, hi as int), j),
            pieces(d@, r@) + crlf_lines(d@.subrange(start as int, hi as int)) == all,
            forall|k: int| 0 <= k < r@.len() ==> lo <= (#[trigger] r@[k]).0 <= r@[k].1 <= hi,
        decreases hi - i,
    {
        if i + 1 < hi && d[i] == 13 && d[i + 1] == 10 {
            let ghost rest = d@.subrange(start as int, hi as int);
            let ghost r0 = r@;
            proof {
                lemma_first_crlf_from(rest, i - start);
                assert(rest.skip(i - start)[0] == 13 && rest.skip(i - start)[1] == 10);
                assert(first_crlf(rest) == Some(i - start));
                assert(rest.take(i - start) == d@.subrange(start as int, i as int));
                assert(rest.skip(i - start + 2) == d@.subrange(i + 2, hi as int));
            }
            r.push((start, i));
            proof {
                assert(pieces(d@, r@) =~= pieces(d@, r0).push(d@.subrange(start as int, i as int)));
                assert(pieces(d@, r@) + crlf_lines(d@.subrange(i + 2, hi as int)) =~= pieces(d@, r0)
                    + crlf_lines(rest));
            }
            start = i + 2;
            i = i + 2;
        } else {
            proof {
                assert(!crlf_at(d@.subrange(start as int, hi as int), i - start));
            }
            i = i + 1;
        }
    }
    let ghost rest = d@.subrange(start as int, hi as int);
    let ghost r0 = r@;
    proof {
        lemma_first_crlf_from(rest, rest.len() as int);
        assert(rest.skip(rest.len() as int).len() == 0);
        assert(first_crlf(rest) is None);
        assert(crlf_lines(rest) == seq![rest]);
    }
    r.push((start, hi));
    proof {
        assert(pieces(d@, r@) =~= pieces(d@, r0).push(rest));
        assert(pieces(d@, r@) =~= all);
        assert forall|k: int| 0 <= k < r@.len() implies d@.subrange((#[trigger] r@[k]).0 as int, r@[k].1 as int)
            == all[k] by {
            assert(pieces(d@, r@)[k] == d@.subrange(r@[k].0 as int, r@[k].1 as int));
        }
    }
    r
}

} // verus!
