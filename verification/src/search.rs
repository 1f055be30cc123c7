//! Searching a response body for a query, ignoring case: every byte offset at
//! which the lowercased query occurs in the lowercased body, each reported as
//! a line number and a column, both counted in the body as shown.
use vstd::prelude::*;
use vstd::utf8::{encode_utf8, is_char_boundary};

verus! {

/// `needle` occurs in `hay` at byte offset `p`.
pub open spec fn occurs_at(hay: Seq<u8>, needle: Seq<u8>, p: int) -> bool {
    &&& 0 <= p
    &&& p + needle.len() <= hay.len()
    &&& hay.subrange(p, p + needle.len()) == needle
}

/// The offsets from `start` on, in increasing order, at which `needle`
/// occurs in `hay`.
pub open spec fn occurrences_from(hay: Seq<u8>, needle: Seq<u8>, start: int) -> Seq<int>
    decreases hay.len() + 1 - start,
{
    if start < 0 || start > hay.len() {
        Seq::empty()
    } else if occurs_at(hay, needle, start) {
        seq![start] + occurrences_from(hay, needle, start + 1)
    } else {
        occurrences_from(hay, needle, start + 1)
    }
}

/// The number of newline bytes among the first `p` bytes of `b`.
pub open spec fn newlines_before(b: Seq<u8>, p: int) -> int
    decreases p,
{
    if p <= 0 {
        0
    } else {
        newlines_before(b, p - 1) + if b[p - 1] == 10u8 {
            1int
        } else {
            0int
        }
    }
}

/// How many lines `str::lines` gives for the first `p` bytes of `b`: one per
/// newline, and one more for a last line that has no newline.
pub open spec fn line_of(b: Seq<u8>, p: int) -> int {
    newlines_before(b, p) + if p > 0 && b[p - 1] != 10u8 {
        1int
    } else {
        0int
    }
}

/// Where the line that holds offset `p` starts: just after the last newline
/// before `p`, or at 0.
pub open spec fn line_start(b: Seq<u8>, p: int) -> int
    decreases p,
{
    if p <= 0 {
        0
    } else if b[p - 1] == 10u8 {
        p
    } else {
        line_start(b, p - 1)
    }
}

/// The column of offset `p`: its distance in bytes from the start of its line.
pub open spec fn col_of(b: Seq<u8>, p: int) -> int {
    p - line_start(b, p)
}

/// A search of `query` in `lower` (the lowercased `body`) goes through: the
/// query is not empty, and wherever it occurs, that offset is a character
/// boundary of the body and the offset after it one of the lowercased body.
pub open spec fn search_safe(body: Seq<u8>, lower: Seq<u8>, query: Seq<u8>) -> bool {
    &&& query.len() > 0
    &&& forall|p: int|
        #[trigger] occurs_at(lower, query, p) ==> is_char_boundary(body, p) && is_char_boundary(
            lower,
            p + 1,
        )
}

/// The line and column of offset `p` in `body`.
pub open spec fn position_of(body: Seq<u8>, p: int) -> (usize, usize) {
    (line_of(body, p) as usize, col_of(body, p) as usize)
}

/// The line and column in `body` of each offset of `offsets`.
pub open spec fn positions(body: Seq<u8>, offsets: Seq<int>) -> Seq<(usize, usize)> {
    offsets.map_values(|p: int| position_of(body, p))
}

/// The line and column in `body` of every occurrence of `query` in `lower`,
/// in order.
pub open spec fn search_result(body: Seq<u8>, lower: Seq<u8>, query: Seq<u8>) -> Seq<(usize, usize)> {
    positions(body, occurrences_from(lower, query, 0))
}

proof fn lemma_no_room(hay: Seq<u8>, needle: Seq<u8>, p: int)
    requires
        needle.len() > 0,
        0 <= p,
        p + needle.len() > hay.len(),
    ensures
        occurrences_from(hay, needle, p) =~= Seq::<int>::empty(),
    decreases hay.len() + 1 - p,
{
    if p <= hay.len() {
        lemma_no_room(hay, needle, p + 1);
    }
}

proof fn lemma_line_start_le(b: Seq<u8>, p: int)
    requires
        0 <= p,
    ensures
        0 <= line_start(b, p) <= p,
    decreases p,
{
    if p > 0 {
        lemma_line_start_le(b, p - 1);
    }
}

/// Whether `needle` occurs in `hay` at offset `p`.
fn bytes_match_at(hay: &[u8], needle: &[u8], p: usize) -> (r: bool)
    requires
        p + needle@.len() <= hay@.len(),
    ensures
        r == occurs_at(hay@, needle@, p as int),
{
    let hay_len = hay.len();
    let mut j: usize = 0;
    while j < needle.len()
        invariant
            j <= needle@.len(),
            p + needle@.len() <= hay@.len(),
            hay@.len() == hay_len,
            forall|k: int| 0 <= k < j ==> hay@[p + k] == needle@[k],
        decreases needle.len() - j,
    {
        if hay[p + j] != needle[j] {
            proof {
                assert(hay@.subrange(p as int, p + needle@.len())[j as int] != needle@[j as int]);
            }
            return false;
        }
        j = j + 1;
    }
    proof {
        assert(hay@.subrange(p as int, p + needle@.len()) =~= needle@);
    }
    true
}

/// The line number and column of offset `p` in `b`.
fn line_col(b: &[u8], p: usize) -> (r: (usize, usize))
    requires
        p <= b@.len(),
    ensures
        r.0 == line_of(b@, p as int),
        r.1 == col_of(b@, p as int),
{
    let mut n: usize = 0;
    let mut start: usize = 0;
    let mut i: usize = 0;
    while i < p
        invariant
            i <= p <= b@.len(),
            n == newlines_before(b@, i as int),
            start == line_start(b@, i as int),
            n + (if i > 0 && b@[i - 1] != 10u8 {
                1int
            } else {
                0int
            }) <= i,
        decreases p - i,
    {
        if b[i] == 10 {
            n = n + 1;
            start = i + 1;
        }
        i = i + 1;
    }
    proof {
        lemma_line_start_le(b@, p as int);
    }
    let extra: usize = if p > 0 && b[p - 1] != 10 {
        1
    } else {
        0
    };
    (n + extra, p - start)
}

/// The line and column, in `body`, of every offset at which `query` occurs in
/// `lower`, the lowercased body, in order. Offsets are in bytes; the line is
/// the number of lines before the match and on it.
pub fn search_matches_in(body: &str, lower: &str, query: &str) -> (r: Vec<(usize, usize)>)
    requires
        search_safe(encode_utf8(body@), encode_utf8(lower@), encode_utf8(query@)),
    ensures
        r@ == search_result(encode_utf8(body@), encode_utf8(lower@), encode_utf8(query@)),
{
    let bb = body.as_bytes();
    let lb = lower.as_bytes();
    let qb = query.as_bytes();
    let mut out: Vec<(usize, usize)> = Vec::new();
    let mut p: usize = 0;
    proof {
        vstd::utf8::encode_utf8_valid_utf8(body@);
    }
    while p < lb.len() && lb.len() - p >= qb.len()
        invariant
            search_safe(bb@, lb@, qb@),
            vstd::utf8::valid_utf8(bb@),
            p <= lb@.len(),
            out@ + positions(bb@, occurrences_from(lb@, qb@, p as int)) == positions(
                bb@,
                occurrences_from(lb@, qb@, 0),
            ),
        decreases lb.len() - p,
    {
        let ghost rest = occurrences_from(lb@, qb@, p as int + 1);
        if bytes_match_at(lb, qb, p) {
            proof {
                assert(is_char_boundary(bb@, p as int));
                assert(p == 0 || p <= bb@.len());
                assert(positions(bb@, occurrences_from(lb@, qb@, p as int)) =~= seq![
                    position_of(bb@, p as int),
                ] + positions(bb@, rest));
            }
            let lc = line_col(bb, p);
            let ghost before = out@;
            out.push(lc);
            proof {
                assert(lc == position_of(bb@, p as int));
                assert(out@ + positions(bb@, rest) =~= before + (seq![position_of(bb@, p as int)]
                    + positions(bb@, rest)));
            }
        }
        p = p + 1;
    }
    proof {
        lemma_no_room(lb@, qb@, p as int);
        assert(out@ + positions(bb@, occurrences_from(lb@, qb@, p as int)) =~= out@);
    }
    out
}

/// Whether a search of `query` in `lower`, the lowercased `body`, goes
/// through (`search_safe`).
pub fn search_is_safe(body: &str, lower: &str, query: &str) -> (r: bool)
    ensures
        r == search_safe(encode_utf8(body@), encode_utf8(lower@), encode_utf8(query@)),
{
    let lb = lower.as_bytes();
    let qb = query.as_bytes();
    if qb.len() == 0 {
        return false;
    }
    let mut p: usize = 0;
    while p < lb.len() && lb.len() - p >= qb.len()
        invariant
            qb@.len() > 0,
            p <= lb@.len(),
            lb@ == encode_utf8(lower@),
            qb@ == encode_utf8(query@),
            forall|k: int|
                0 <= k < p ==> (#[trigger] occurs_at(lb@, qb@, k) ==> is_char_boundary(
                    encode_utf8(body@),
                    k,
                ) && is_char_boundary(lb@, k + 1)),
        decreases lb.len() - p,
    {
        if bytes_match_at(lb, qb, p) {
            if !body.is_char_boundary(p) || !lower.is_char_boundary(p + 1) {
                return false;
            }
        }
        p = p + 1;
    }
    true
}

} // verus!
