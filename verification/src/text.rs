//! Rows of ASCII text: columns between commas, and blanks at the ends of a
//! column.

use vstd::prelude::*;

verus! {

/// The byte `,`.
pub const COMMA: u8 = 44;

/// ASCII bytes as characters.
pub open spec fn as_text(bytes: Seq<u8>) -> Seq<char> {
    Seq::new(bytes.len(), |i: int| bytes[i] as char)
}

/// Whether `b` is ASCII white space: a space, a tab, a line feed, a form
/// feed or a carriage return.
pub open spec fn is_space(b: u8) -> bool {
    b == 32 || b == 9 || b == 10 || b == 12 || b == 13
}

/// `s` without the white space it starts with.
pub open spec fn trim_start(s: Seq<u8>) -> Seq<u8>
    decreases s.len(),
{
    if s.len() > 0 && is_space(s[0]) {
        trim_start(s.drop_first())
    } else {
        s
    }
}

/// `s` without the white space it ends with.
pub open spec fn trim_end(s: Seq<u8>) -> Seq<u8>
    decreases s.len(),
{
    if s.len() > 0 && is_space(s.last()) {
        trim_end(s.drop_last())
    } else {
        s
    }
}

/// `s` without the white space at either end.
pub open spec fn trim(s: Seq<u8>) -> Seq<u8> {
    trim_end(trim_start(s))
}

/// The places at which the byte `b` stands in `s`, in rising order.
pub open spec fn positions(s: Seq<u8>, b: u8) -> Seq<int>
    decreases s.len(),
{
    if s.len() == 0 {
        Seq::empty()
    } else if s.last() == b {
        positions(s.drop_last(), b).push(s.len() - 1)
    } else {
        positions(s.drop_last(), b)
    }
}

/// The number of columns of `row`: one more than it has commas.
pub open spec fn column_count(row: Seq<u8>) -> nat {
    positions(row, COMMA).len() + 1
}

/// The column `k` of `row`, counted from zero: the bytes between one comma
/// and the next, or an end of the row.
pub open spec fn column(row: Seq<u8>, k: int) -> Seq<u8>
    recommends
        0 <= k < column_count(row),
{
    let commas = positions(row, COMMA);
    let from = if k == 0 {
        0
    } else {
        commas[k - 1] + 1
    };
    let to = if k < commas.len() {
        commas[k]
    } else {
        row.len() as int
    };
    row.subrange(from, to)
}

/// Each place that `positions` lists lies in `s` and holds `b`, and the
/// places rise.
pub proof fn lemma_positions(s: Seq<u8>, b: u8)
    ensures
        forall|k: int|
            0 <= k < positions(s, b).len() ==> 0 <= #[trigger] positions(s, b)[k] < s.len()
                && s[positions(s, b)[k]] == b,
        forall|j: int, k: int|
            0 <= j < k < positions(s, b).len() ==> positions(s, b)[j] < positions(s, b)[k],
    decreases s.len(),
{
    if s.len() > 0 {
        let shorter = positions(s.drop_last(), b);
        let all = positions(s, b);
        lemma_positions(s.drop_last(), b);
        assert forall|k: int| 0 <= k < all.len() implies 0 <= #[trigger] all[k] < s.len() && s[all[k]]
            == b by {
            if k < shorter.len() {
                assert(all[k] == shorter[k]);
            }
        }
        assert forall|j: int, k: int| 0 <= j < k < all.len() implies all[j] < all[k] by {
            assert(all[j] == shorter[j]);
        }
    }
}

/// `s` without the white space at either end.
pub fn trim_ascii(s: &[u8]) -> (r: &[u8])
    ensures
        r@ == trim(s@),
{
    let mut lo: usize = 0;
    assert(s@.skip(0) =~= s@);
    while lo < s.len() && is_ascii_whitespace(s[lo])
        invariant
            lo <= s.len(),
            trim_start(s@) == trim_start(s@.skip(lo as int)),
        decreases s.len() - lo,
    {
        assert(s@.skip(lo as int).drop_first() =~= s@.skip(lo + 1));
        lo = lo + 1;
    }
    let mut hi: usize = s.len();
    while lo < hi && is_ascii_whitespace(s[hi - 1])
        invariant
            lo <= hi <= s.len(),
            trim(s@) == trim_end(s@.subrange(lo as int, hi as int)),
        decreases hi - lo,
    {
        assert(s@.subrange(lo as int, hi as int).drop_last() =~= s@.subrange(
            lo as int,
            hi - 1,
        ));
        hi = hi - 1;
    }
    &s[lo..hi]
}

/// Whether `b` is ASCII white space.
fn is_ascii_whitespace(b: u8) -> (r: bool)
    ensures
        r == is_space(b),
{
    b == 32 || b == 9 || b == 10 || b == 12 || b == 13
}

/// The column `k` of `row`, whose commas stand at `commas`.
pub(crate) fn column_at<'a>(row: &'a [u8], commas: &Vec<usize>, k: usize) -> (r: &'a [u8])
    requires
        commas@.len() == positions(row@, COMMA).len(),
        forall|j: int| 0 <= j < commas.len() ==> commas[j] == positions(row@, COMMA)[j],
        k <= commas.len(),
    ensures
        r@ == column(row@, k as int),
{
    proof {
        lemma_positions(row@, COMMA);
    }
    let from: usize = if k == 0 {
        0
    } else {
        assert(commas[k - 1] < row.len());
        commas[k - 1] + 1
    };
    let to: usize = if k < commas.len() {
        commas[k]
    } else {
        row.len()
    };
    &row[from..to]
}

} // verus!
