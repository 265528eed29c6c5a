//! The file indexer: a memory-mapped log file and its newline offset table,
//! giving random access to lines, filtered offset lists and minimap buckets.

use vstd::prelude::*;

use crate::filter::FilterEngine;
use crate::filter::LogFilter;
use crate::filter::rule_color;
use crate::filter::rule_matches;

verus! {

// ------------------------------------------------------------------
// Trusted boundary around the memmap2 crate and lossy decoding.
// ------------------------------------------------------------------

#[verifier::external_type_specification]
#[verifier::external_body]
pub struct ExMmap(memmap2::Mmap);

/// The bytes a memory map holds. A map is read-only and backed by a
/// snapshot, so its contents are a fixed sequence.
pub uninterp spec fn mmap_view(m: memmap2::Mmap) -> Seq<u8>;

/// Relies on `memmap2::Mmap::len`: the length of the mapped byte slice.
#[verifier::external_body]
fn mmap_len(m: &memmap2::Mmap) -> (r: usize)
    ensures
        r == mmap_view(*m).len(),
{
    m.len()
}

/// Relies on `memmap2::Mmap`'s deref to `[u8]`: the byte at one position.
#[verifier::external_body]
fn mmap_byte(m: &memmap2::Mmap, i: usize) -> (r: u8)
    requires
        i < mmap_view(*m).len(),
    ensures
        r == mmap_view(*m)[i as int],
{
    m[i]
}

/// Relies on `memmap2::Mmap`'s deref to `[u8]`: a copy of one byte range.
#[verifier::external_body]
fn mmap_range(m: &memmap2::Mmap, start: usize, end: usize) -> (r: Vec<u8>)
    requires
        start <= end <= mmap_view(*m).len(),
    ensures
        r@ == mmap_view(*m).subrange(start as int, end as int),
{
    m[start..end].to_vec()
}

/// The text `String::from_utf8_lossy` decodes from the bytes: a function of
/// the bytes alone.
pub uninterp spec fn lossy_of(bytes: Seq<u8>) -> Seq<char>;

/// Relies on `String::from_utf8_lossy`: the decoded text depends on the
/// bytes alone.
#[verifier::external_body]
fn decode_lossy(bytes: &[u8]) -> (r: String)
    ensures
        r@ == lossy_of(bytes@),
{
    String::from_utf8_lossy(bytes).into_owned()
}

// ------------------------------------------------------------------
// The line model.
// ------------------------------------------------------------------

/// Position `j` starts a line: the first byte of the file, or the byte just
/// after a newline, as long as it is still within the file.
pub open spec fn is_line_start(m: Seq<u8>, j: int) -> bool {
    0 <= j < m.len() && (j == 0 || m[j - 1] == 10)
}

/// The line starts among the first `n` positions, in order.
pub open spec fn starts_upto(m: Seq<u8>, n: int) -> Seq<int>
    decreases n,
{
    if n <= 0 {
        Seq::empty()
    } else if is_line_start(m, n - 1) {
        starts_upto(m, n - 1).push(n - 1)
    } else {
        starts_upto(m, n - 1)
    }
}

/// Every line start of the file: what the offset table must hold.
pub open spec fn line_starts(m: Seq<u8>) -> Seq<int> {
    starts_upto(m, m.len() as int)
}

/// The first newline at or after `j`: the exclusive end of the line there,
/// or the end of the file if no newline follows.
pub open spec fn find_nl(m: Seq<u8>, j: int) -> int
    decreases m.len() - j when 0 <= j <= m.len()
{
    if j >= m.len() {
        m.len() as int
    } else if m[j] == 10 {
        j
    } else {
        find_nl(m, j + 1)
    }
}

/// The raw bytes of the line starting at `start`: everything up to, and not
/// through, the next newline.
pub open spec fn line_at(m: Seq<u8>, start: int) -> Seq<u8> {
    m.subrange(start, find_nl(m, start))
}

/// One trailing carriage return is stripped for display.
pub open spec fn strip_cr(s: Seq<u8>) -> Seq<u8> {
    if s.len() > 0 && s[s.len() - 1] == 13 {
        s.drop_last()
    } else {
        s
    }
}

/// The displayed form of the line starting at `start`: the raw line with a
/// trailing carriage return stripped, decoded lossily.
pub open spec fn display_line(m: Seq<u8>, start: int) -> Seq<char> {
    lossy_of(strip_cr(line_at(m, start)))
}

/// How many newline bytes the first `n` positions hold.
pub open spec fn newlines_upto(m: Seq<u8>, n: int) -> int
    decreases n,
{
    if n <= 0 {
        0
    } else {
        newlines_upto(m, n - 1) + if m[n - 1] == 10 {
            1int
        } else {
            0int
        }
    }
}

// ------------------------------------------------------------------
// Facts about the line model.
// ------------------------------------------------------------------

/// The shape of every prefix of the offset table: the recorded positions
/// are exactly the line starts below `n`, in strictly increasing order.
proof fn lemma_starts_upto_props(m: Seq<u8>, n: int)
    requires
        0 <= n <= m.len(),
    ensures
        forall|i: int|
            0 <= i < starts_upto(m, n).len() ==> 0 <= #[trigger] starts_upto(m, n)[i] < n
                && is_line_start(m, starts_upto(m, n)[i]),
        forall|i: int, k: int|
            0 <= i < k < starts_upto(m, n).len() ==> starts_upto(m, n)[i] < starts_upto(m, n)[k],
        forall|j: int| 0 <= j < n && is_line_start(m, j) ==> starts_upto(m, n).contains(j),
    decreases n,
{
    if n > 0 {
        lemma_starts_upto_props(m, n - 1);
        assert forall|j: int| 0 <= j < n && is_line_start(m, j) implies starts_upto(
            m,
            n,
        ).contains(j) by {
            if j < n - 1 {
                let i = choose|i: int|
                    0 <= i < starts_upto(m, n - 1).len() && #[trigger] starts_upto(m, n - 1)[i]
                        == j;
                assert(starts_upto(m, n)[i] == j);
            } else {
                assert(starts_upto(m, n).last() == j);
            }
        }
    }
}

/// The offset table lists exactly the file's line starts, in increasing
/// order, beginning with position zero whenever the file is non-empty.
pub proof fn lemma_line_starts_props(m: Seq<u8>)
    ensures
        forall|i: int|
            0 <= i < line_starts(m).len() ==> 0 <= #[trigger] line_starts(m)[i] < m.len()
                && is_line_start(m, line_starts(m)[i]),
        forall|i: int, k: int|
            0 <= i < k < line_starts(m).len() ==> line_starts(m)[i] < line_starts(m)[k],
        forall|j: int| is_line_start(m, j) ==> line_starts(m).contains(j),
        m.len() > 0 ==> line_starts(m).len() > 0 && line_starts(m)[0] == 0,
        m.len() == 0 ==> line_starts(m).len() == 0,
{
    lemma_starts_upto_props(m, m.len() as int);
    if m.len() > 0 {
        assert(is_line_start(m, 0));
        let i = choose|i: int|
            0 <= i < line_starts(m).len() && #[trigger] line_starts(m)[i] == 0;
        assert(line_starts(m)[0] == 0) by {
            if i > 0 {
                assert(line_starts(m)[0] < line_starts(m)[i]);
            }
        }
    }
}

/// If no newline sits in `[j, k)` and a newline sits at `k`, the line
/// scanned from `j` ends exactly at `k`.
proof fn lemma_find_nl_at(m: Seq<u8>, j: int, k: int)
    requires
        0 <= j <= k <= m.len(),
        k == m.len() || m[k] == 10,
        forall|l: int| j <= l < k ==> m[l] != 10,
    ensures
        find_nl(m, j) == k,
    decreases k - j,
{
    if j < k {
        lemma_find_nl_at(m, j + 1, k);
    }
}

/// The table's offsets, each paired with the newline scan that bounds its
/// line: every offset is a line start, the table starts at zero, each next
/// offset sits just past the newline that ends the previous line, and the
/// table's length counts the file's lines — one per newline, plus one for a
/// final line that does not end in a newline.
pub proof fn lemma_offset_coverage(m: Seq<u8>)
    ensures
        m.len() > 0 ==> line_starts(m).len() > 0 && line_starts(m)[0] == 0,
        forall|i: int|
            0 <= i < line_starts(m).len() - 1 ==> #[trigger] line_starts(m)[i + 1] == find_nl(
                m,
                line_starts(m)[i],
            ) + 1,
        line_starts(m).len() == newlines_upto(m, m.len() as int) + (if m.len() > 0 && m[m.len()
            - 1] != 10 {
            1int
        } else {
            0int
        }),
{
    let o = line_starts(m);
    lemma_line_starts_props(m);
    assert forall|i: int| 0 <= i < o.len() - 1 implies #[trigger] o[i + 1] == find_nl(m, o[i])
        + 1 by {
        lemma_adjacent_starts(m, i);
    }
    if m.len() > 0 {
        lemma_starts_count(m, m.len() as int);
        assert(newlines_upto(m, m.len() as int) == newlines_upto(m, m.len() - 1) + (if m[m.len()
            - 1] == 10 {
            1int
        } else {
            0int
        }));
    }
}

/// Between one line start and the next there is no newline but the one just
/// before the next start.
proof fn lemma_adjacent_starts(m: Seq<u8>, i: int)
    requires
        0 <= i < line_starts(m).len() - 1,
    ensures
        line_starts(m)[i + 1] == find_nl(m, line_starts(m)[i]) + 1,
{
    let o = line_starts(m);
    lemma_line_starts_props(m);
    let a = o[i];
    let b = o[i + 1];
    assert(m[b - 1] == 10);
    assert forall|l: int| a <= l < b - 1 implies m[l] != 10 by {
        if m[l] == 10 {
            assert(is_line_start(m, l + 1));
            assert(o.contains(l + 1));
            let k = choose|k: int| 0 <= k < o.len() && #[trigger] o[k] == l + 1;
            if k <= i {
                if k < i {
                    assert(o[k] < o[i]);
                }
                assert(o[k] <= a);
            } else {
                if k > i + 1 {
                    assert(o[i + 1] < o[k]);
                }
                assert(b <= o[k]);
            }
        }
    }
    lemma_find_nl_at(m, a, b - 1);
}

/// Below any position `n`, the table holds one entry per newline among the
/// first `n - 1` bytes, plus the entry for position zero.
proof fn lemma_starts_count(m: Seq<u8>, n: int)
    requires
        1 <= n <= m.len(),
    ensures
        starts_upto(m, n).len() == 1 + newlines_upto(m, n - 1),
    decreases n,
{
    if n == 1 {
        assert(starts_upto(m, 0) =~= Seq::<int>::empty());
        assert(is_line_start(m, 0));
    } else {
        lemma_starts_count(m, n - 1);
    }
}

/// What remains of the file from the `i`-th line start on: each line's
/// bytes run to the next start, the last to the end of the file.
pub open spec fn rebuild_from(m: Seq<u8>, i: int) -> Seq<u8>
    decreases line_starts(m).len() - i when 0 <= i <= line_starts(m).len()
{
    if i >= line_starts(m).len() {
        Seq::empty()
    } else {
        let stop = if i + 1 < line_starts(m).len() {
            line_starts(m)[i + 1]
        } else {
            m.len() as int
        };
        m.subrange(line_starts(m)[i], stop) + rebuild_from(m, i + 1)
    }
}

/// Concatenating every line in order — each being its displayed bytes plus
/// the newline that ended it, the last plus its newline only if the file
/// ends in one — reproduces the file exactly.
pub proof fn lemma_round_trip(m: Seq<u8>)
    ensures
        rebuild_from(m, 0) == m,
        forall|i: int|
            0 <= i < line_starts(m).len() - 1 ==> m.subrange(
                #[trigger] line_starts(m)[i],
                line_starts(m)[i + 1],
            ) == line_at(m, line_starts(m)[i]).push(10u8),
        line_starts(m).len() > 0 ==> m.subrange(line_starts(m).last(), m.len() as int) == line_at(
            m,
            line_starts(m).last(),
        ) + (if m[m.len() - 1] == 10 {
            seq![10u8]
        } else {
            Seq::<u8>::empty()
        }),
{
    let o = line_starts(m);
    lemma_line_starts_props(m);
    lemma_offset_coverage(m);
    if o.len() == 0 {
        assert(rebuild_from(m, 0) =~= m);
    } else {
        lemma_rebuild_suffix(m, 0);
        assert(rebuild_from(m, 0) =~= m);
    }
    assert forall|i: int| 0 <= i < o.len() - 1 implies m.subrange(#[trigger] o[i], o[i + 1])
        == line_at(m, o[i]).push(10u8) by {
        assert(o[i + 1] == find_nl(m, o[i]) + 1);
        assert(m.subrange(o[i], o[i + 1]) =~= line_at(m, o[i]).push(10u8));
    }
    if o.len() > 0 {
        lemma_last_line(m);
    }
}

/// The last line runs to the end of the file: past its start the only
/// possible newline is the file's final byte.
proof fn lemma_last_line(m: Seq<u8>)
    requires
        line_starts(m).len() > 0,
    ensures
        m.subrange(line_starts(m).last(), m.len() as int) == line_at(m, line_starts(m).last()) + (
        if m[m.len() - 1] == 10 {
            seq![10u8]
        } else {
            Seq::<u8>::empty()
        }),
{
    let o = line_starts(m);
    lemma_line_starts_props(m);
    let a = o.last();
    let stop: int = if m[m.len() - 1] == 10 {
        m.len() - 1
    } else {
        m.len() as int
    };
    assert forall|l: int| a <= l < stop implies m[l] != 10 by {
        if m[l] == 10 {
            assert(is_line_start(m, l + 1));
            assert(o.contains(l + 1));
            let k = choose|k: int| 0 <= k < o.len() && #[trigger] o[k] == l + 1;
            if k < o.len() - 1 {
                assert(o[k] < o[o.len() - 1]);
            }
            assert(o[k] <= a);
        }
    }
    lemma_find_nl_at(m, a, stop);
    assert(m.subrange(a, m.len() as int) =~= line_at(m, a) + (if m[m.len() - 1] == 10 {
        seq![10u8]
    } else {
        Seq::<u8>::empty()
    }));
}

/// Each suffix of the table rebuilds the corresponding suffix of the file.
proof fn lemma_rebuild_suffix(m: Seq<u8>, i: int)
    requires
        0 <= i < line_starts(m).len(),
    ensures
        rebuild_from(m, i) == m.subrange(line_starts(m)[i], m.len() as int),
    decreases line_starts(m).len() - i,
{
    let o = line_starts(m);
    lemma_line_starts_props(m);
    if i == o.len() - 1 {
        assert(rebuild_from(m, i + 1) =~= Seq::<u8>::empty());
        assert(rebuild_from(m, i) == m.subrange(o[i], m.len() as int) + rebuild_from(m, i + 1));
        assert(m.subrange(o[i], m.len() as int) + Seq::<u8>::empty() =~= m.subrange(
            o[i],
            m.len() as int,
        ));
    } else {
        lemma_rebuild_suffix(m, i + 1);
        assert(o[i] <= o[i + 1] <= m.len());
        assert(rebuild_from(m, i) == m.subrange(o[i], o[i + 1]) + rebuild_from(m, i + 1));
        assert(m.subrange(o[i], o[i + 1]) + m.subrange(o[i + 1], m.len() as int) =~= m.subrange(
            o[i],
            m.len() as int,
        ));
    }
}

/// The color the rule gives each line starting at the given offsets.
pub open spec fn line_colors_spec(
    m: Seq<u8>,
    fs: Seq<LogFilter>,
    search: Option<Seq<char>>,
    offs: Seq<usize>,
) -> Seq<Option<Seq<char>>> {
    Seq::new(offs.len(), |i: int| rule_color(fs, search, lossy_of(line_at(m, offs[i] as int))))
}

/// Of the given offsets' first `n`, those whose line the rule accepts, in
/// order.
pub open spec fn matching_upto(
    m: Seq<u8>,
    fs: Seq<LogFilter>,
    search: Option<Seq<char>>,
    offs: Seq<int>,
    n: int,
) -> Seq<int>
    decreases n,
{
    if n <= 0 {
        Seq::empty()
    } else if rule_matches(fs, search, lossy_of(line_at(m, offs[n - 1]))) {
        matching_upto(m, fs, search, offs, n - 1).push(offs[n - 1])
    } else {
        matching_upto(m, fs, search, offs, n - 1)
    }
}

/// A filtered offset list is a subsequence of the offsets it was drawn
/// from: every element comes from the first `n` offsets, and when those are
/// strictly increasing, so is the filtered list.
pub proof fn lemma_matching_upto_increasing(
    m: Seq<u8>,
    fs: Seq<LogFilter>,
    search: Option<Seq<char>>,
    offs: Seq<int>,
    n: int,
)
    requires
        0 <= n <= offs.len(),
        forall|i: int, k: int| 0 <= i < k < offs.len() ==> offs[i] < offs[k],
    ensures
        forall|i: int|
            0 <= i < matching_upto(m, fs, search, offs, n).len() ==> offs.take(n).contains(
                #[trigger] matching_upto(m, fs, search, offs, n)[i],
            ),
        forall|i: int, k: int|
            0 <= i < k < matching_upto(m, fs, search, offs, n).len() ==> matching_upto(
                m,
                fs,
                search,
                offs,
                n,
            )[i] < matching_upto(m, fs, search, offs, n)[k],
    decreases n,
{
    if n > 0 {
        lemma_matching_upto_increasing(m, fs, search, offs, n - 1);
        let prev = matching_upto(m, fs, search, offs, n - 1);
        let cur = matching_upto(m, fs, search, offs, n);
        assert forall|i: int| 0 <= i < prev.len() implies #[trigger] prev[i] < offs[n - 1] by {
            let j = choose|j: int| 0 <= j < n - 1 && #[trigger] offs.take(n - 1)[j] == prev[i];
            assert(offs[j] < offs[n - 1]);
        }
        assert forall|i: int| 0 <= i < cur.len() implies offs.take(n).contains(
            #[trigger] cur[i],
        ) by {
            if i < prev.len() {
                let j = choose|j: int| 0 <= j < n - 1 && #[trigger] offs.take(n - 1)[j] == prev[i];
                assert(offs.take(n)[j] == cur[i]);
            } else {
                assert(cur[i] == offs[n - 1]);
                assert(offs.take(n)[n - 1] == offs[n - 1]);
            }
        }
    }
}

// ------------------------------------------------------------------
// Minimap buckets.
// ------------------------------------------------------------------

/// One minimap bucket: of the `span` lines in the bucket's range, `count`
/// carry a color, and `color` is the first one seen. The bucket's displayed
/// intensity is `count / span` — the two fields pin it down exactly, and
/// `count <= span` keeps it within zero and one.
#[derive(Debug, Clone)]
pub struct MinimapBucket {
    pub count: usize,
    pub span: usize,
    pub color: Option<String>,
}

/// The view of each owned color.
pub open spec fn view_colors(cs: Seq<Option<String>>) -> Seq<Option<Seq<char>>> {
    cs.map_values(
        |c: Option<String>|
            match c {
                Some(s) => Some(s@),
                None => None,
            },
    )
}

/// How many of the colors in `[lo, hi)` are set.
pub open spec fn count_some_in(cols: Seq<Option<Seq<char>>>, lo: int, hi: int) -> int
    decreases hi - lo,
{
    if lo >= hi {
        0
    } else {
        count_some_in(cols, lo, hi - 1) + if cols[hi - 1] is Some {
            1int
        } else {
            0int
        }
    }
}

/// The first set color in `[lo, hi)`, if any.
pub open spec fn first_some_in(cols: Seq<Option<Seq<char>>>, lo: int, hi: int) -> Option<
    Seq<char>,
>
    decreases hi - lo,
{
    if lo >= hi {
        None
    } else if first_some_in(cols, lo, hi - 1) is Some {
        first_some_in(cols, lo, hi - 1)
    } else {
        cols[hi - 1]
    }
}

/// The total of the buckets' counts.
pub open spec fn sum_counts(bs: Seq<MinimapBucket>) -> int
    decreases bs.len(),
{
    if bs.len() == 0 {
        0
    } else {
        sum_counts(bs.drop_last()) + bs.last().count
    }
}

/// The bucket size: line count over bucket count, rounded up.
pub open spec fn ceil_div(n: int, b: int) -> int {
    if n % b == 0 {
        n / b
    } else {
        n / b + 1
    }
}

/// Where bucket `b` begins, clipped to the line count.
pub open spec fn bucket_lo(b: int, cs: int, n: int) -> int {
    if b * cs < n {
        b * cs
    } else {
        n
    }
}

/// What one bucket must hold for its range of the color sequence.
pub open spec fn bucket_correct(
    cols: Seq<Option<Seq<char>>>,
    cs: int,
    b: int,
    bk: MinimapBucket,
) -> bool {
    let lo = bucket_lo(b, cs, cols.len() as int);
    let hi = bucket_lo(b + 1, cs, cols.len() as int);
    &&& bk.span == hi - lo
    &&& bk.count == count_some_in(cols, lo, hi)
    &&& bk.count <= bk.span
    &&& match bk.color {
        Some(c) => first_some_in(cols, lo, hi) == Some(c@),
        None => first_some_in(cols, lo, hi) is None,
    }
}

/// What the whole minimap must hold: one bucket per contiguous range of
/// ceiling size, or nothing when there are no lines or no buckets.
pub open spec fn buckets_correct(
    cols: Seq<Option<Seq<char>>>,
    buckets: int,
    r: Seq<MinimapBucket>,
) -> bool {
    if cols.len() == 0 || buckets <= 0 {
        r.len() == 0
    } else {
        &&& r.len() == buckets
        &&& forall|b: int|
            0 <= b < buckets ==> bucket_correct(
                cols,
                ceil_div(cols.len() as int, buckets),
                b,
                #[trigger] r[b],
            )
    }
}

/// Splits the colored lines into `buckets` contiguous ranges of ceiling
/// size (the last may be shorter) and aggregates each: how many lines are
/// colored, and with which first color.
pub fn build_buckets(colors: &[Option<String>], buckets: usize) -> (r: Vec<MinimapBucket>)
    ensures
        buckets_correct(view_colors(colors@), buckets as int, r@),
        sum_counts(r@) <= colors@.len(),
{
    let ghost cols = view_colors(colors@);
    let n = colors.len();
    let mut r: Vec<MinimapBucket> = Vec::new();
    if n == 0 || buckets == 0 {
        return r;
    }
    let cs = if n % buckets > 0 {
        proof {
            assert(buckets != 1) by {
                assert(n % 1 == 0) by (nonlinear_arith);
            }
            assert(n / buckets + 1 <= n) by (nonlinear_arith)
                requires
                    n >= 1,
                    buckets >= 2,
            ;
        }
        n / buckets + 1
    } else {
        proof {
            assert(n / buckets >= 1) by (nonlinear_arith)
                requires
                    n >= 1,
                    buckets >= 1,
                    n % buckets == 0,
            ;
        }
        n / buckets
    };
    assert(cs == ceil_div(n as int, buckets as int));
    assert(cs >= 1);
    let mut lo: usize = 0;
    let mut b: usize = 0;
    while b < buckets
        invariant
            n == colors@.len(),
            cols == view_colors(colors@),
            n > 0,
            buckets > 0,
            cs == ceil_div(n as int, buckets as int),
            cs >= 1,
            b <= buckets,
            lo as int == bucket_lo(b as int, cs as int, n as int),
            lo <= n,
            r@.len() == b,
            forall|k: int|
                0 <= k < b ==> bucket_correct(cols, cs as int, k, #[trigger] r@[k]),
            sum_counts(r@) <= lo,
        decreases buckets - b,
    {
        let hi = if n - lo < cs {
            n
        } else {
            lo + cs
        };
        proof {
            assert((b as int + 1) * (cs as int) == (b as int) * (cs as int) + (cs as int))
                by (nonlinear_arith);
            assert(hi as int == bucket_lo(b as int + 1, cs as int, n as int));
        }
        let mut count: usize = 0;
        let mut color: Option<String> = None;
        let mut j: usize = lo;
        while j < hi
            invariant
                n == colors@.len(),
                cols == view_colors(colors@),
                lo <= j <= hi <= n,
                count <= j - lo,
                count == count_some_in(cols, lo as int, j as int),
                match color {
                    Some(c) => first_some_in(cols, lo as int, j as int) == Some(c@),
                    None => first_some_in(cols, lo as int, j as int) is None,
                },
            decreases hi - j,
        {
            proof {
                assert(cols[j as int] == (match colors@[j as int] {
                    Some(s) => Some(s@),
                    None => None,
                }));
            }
            match &colors[j] {
                Some(c) => {
                    count += 1;
                    if color.is_none() {
                        color = Some(c.clone());
                    }
                },
                None => {},
            }
            j += 1;
        }
        let ghost before = r@;
        r.push(MinimapBucket { count, span: hi - lo, color });
        proof {
            assert(r@.drop_last() =~= before);
            assert(sum_counts(r@) == sum_counts(before) + count);
        }
        lo = hi;
        b += 1;
    }
    r
}

// ------------------------------------------------------------------
// The indexer.
// ------------------------------------------------------------------

/// A memory-mapped log file with its offset table of line starts.
pub struct Indexer {
    path: String,
    mmap: memmap2::Mmap,
    offsets: Vec<usize>,
}

impl Indexer {
    /// The mapped file bytes.
    pub closed spec fn bytes(self) -> Seq<u8> {
        mmap_view(self.mmap)
    }

    /// The offset table as stored.
    pub closed spec fn spec_offset_table(self) -> Seq<usize> {
        self.offsets@
    }

    /// The offset table, as mathematical integers.
    pub closed spec fn spec_offsets(self) -> Seq<int> {
        self.offsets@.map_values(|o: usize| o as int)
    }

    /// The path the file was opened from.
    pub closed spec fn spec_path(self) -> Seq<char> {
        self.path@
    }

    /// The offset table has been built and is exactly the line starts.
    pub open spec fn indexed(self) -> bool {
        self.spec_offsets() == line_starts(self.bytes())
    }

    /// The table is either still empty (not yet indexed) or fully built.
    pub open spec fn wf(self) -> bool {
        self.spec_offsets() == Seq::<int>::empty() || self.indexed()
    }

    /// Wraps an already-mapped file. The offset table starts empty; `index`
    /// builds it.
    pub fn new(path: String, mmap: memmap2::Mmap) -> (r: Indexer)
        ensures
            r.wf(),
            r.bytes() == mmap_view(mmap),
            r.spec_path() == path@,
            r.spec_offsets() == Seq::<int>::empty(),
    {
        let r = Indexer { path, mmap, offsets: Vec::new() };
        proof {
            assert(r.spec_offsets() =~= Seq::<int>::empty());
        }
        r
    }

    /// One pass over the mapped bytes, recording every line start.
    pub fn index(&mut self)
        ensures
            final(self).indexed(),
            final(self).wf(),
            final(self).bytes() == old(self).bytes(),
            final(self).spec_path() == old(self).spec_path(),
    {
        let len = mmap_len(&self.mmap);
        let ghost m = mmap_view(self.mmap);
        let mut offsets: Vec<usize> = Vec::new();
        let mut j: usize = 0;
        while j < len
            invariant
                len == m.len(),
                m == mmap_view(self.mmap),
                j <= len,
                offsets@.map_values(|o: usize| o as int) == starts_upto(m, j as int),
            decreases len - j,
        {
            let at_start = if j == 0 {
                true
            } else {
                mmap_byte(&self.mmap, j - 1) == 10
            };
            let ghost before = offsets@;
            if at_start {
                offsets.push(j);
                proof {
                    assert(is_line_start(m, j as int));
                    assert(offsets@.map_values(|o: usize| o as int) =~= before.map_values(
                        |o: usize| o as int,
                    ).push(j as int));
                }
            } else {
                proof {
                    assert(!is_line_start(m, j as int));
                }
            }
            j += 1;
        }
        self.offsets = offsets;
    }

    /// How many lines the file has.
    pub fn line_count(&self) -> (r: usize)
        ensures
            r == self.spec_offsets().len(),
    {
        self.offsets.len()
    }

    /// The path the file was opened from.
    pub fn file_path(&self) -> (r: &String)
        ensures
            r@ == self.spec_path(),
    {
        &self.path
    }

    /// The position just past the line starting at `start`: the first
    /// newline at or after it, or the end of the file.
    fn find_newline(&self, start: usize) -> (r: usize)
        requires
            start as int <= self.bytes().len(),
        ensures
            r == find_nl(self.bytes(), start as int),
            start <= r <= self.bytes().len(),
    {
        let len = mmap_len(&self.mmap);
        let mut j: usize = start;
        while j < len
            invariant
                start <= j <= len,
                len == self.bytes().len(),
                find_nl(self.bytes(), start as int) == find_nl(self.bytes(), j as int),
            decreases len - j,
        {
            if mmap_byte(&self.mmap, j) == 10 {
                return j;
            }
            j += 1;
        }
        len
    }

    /// The line whose start offset is `offsets[index]`, stripped of its
    /// trailing carriage return and decoded; nothing when `index` is out of
    /// bounds. The line's end is always found by a forward newline scan, so
    /// the offsets need not be contiguous.
    pub fn get_line_from_offsets(&self, custom_offsets: &[usize], index: usize) -> (r: Option<
        String,
    >)
        requires
            forall|i: int|
                0 <= i < custom_offsets@.len() ==> ((#[trigger] custom_offsets@[i]) as int)
                    < self.bytes().len(),
        ensures
            match r {
                Some(line) => index < custom_offsets@.len() && line@ == display_line(
                    self.bytes(),
                    custom_offsets@[index as int] as int,
                ),
                None => index >= custom_offsets@.len(),
            },
    {
        if index >= custom_offsets.len() {
            return None;
        }
        let start = custom_offsets[index];
        let end = self.find_newline(start);
        let end = if end > start && mmap_byte(&self.mmap, end - 1) == 13 {
            end - 1
        } else {
            end
        };
        let bytes = mmap_range(&self.mmap, start, end);
        proof {
            assert(bytes@ =~= strip_cr(line_at(self.bytes(), start as int)));
        }
        Some(decode_lossy(bytes.as_slice()))
    }

    /// The `index`-th line of the file, stripped and decoded; nothing when
    /// past the end.
    pub fn get_line(&self, index: usize) -> (r: Option<String>)
        requires
            self.wf(),
        ensures
            match r {
                Some(line) => index < self.spec_offsets().len() && line@ == display_line(
                    self.bytes(),
                    self.spec_offsets()[index as int],
                ),
                None => index >= self.spec_offsets().len(),
            },
    {
        proof {
            lemma_line_starts_props(self.bytes());
            if self.indexed() {
                assert forall|i: int| 0 <= i < self.offsets@.len() implies ((
                #[trigger] self.offsets@[i]) as int) < self.bytes().len() by {
                    assert(self.spec_offsets()[i] == line_starts(self.bytes())[i]);
                }
            } else {
                assert(self.spec_offsets().len() == self.offsets@.len());
                assert(self.offsets@.len() == 0);
            }
        }
        self.get_line_from_offsets(self.offsets.as_slice(), index)
    }

    /// The raw line starting at `offset`, decoded but not stripped of a
    /// carriage return: what the filter engine is run on.
    pub fn get_line_at_offset_raw(&self, offset: usize) -> (r: String)
        requires
            offset as int <= self.bytes().len(),
        ensures
            r@ == lossy_of(line_at(self.bytes(), offset as int)),
    {
        let end = self.find_newline(offset);
        let bytes = mmap_range(&self.mmap, offset, end);
        proof {
            assert(bytes@ =~= line_at(self.bytes(), offset as int));
        }
        decode_lossy(bytes.as_slice())
    }

    /// The offsets of the lines the engine accepts, in file order: the
    /// filtered offset list behind a filtered view.
    pub fn apply_filters(&self, engine: &FilterEngine) -> (r: Vec<usize>)
        requires
            self.wf(),
            engine.wf(),
        ensures
            r@.map_values(|o: usize| o as int) == matching_upto(
                self.bytes(),
                engine.spec_filters(),
                engine.spec_search(),
                self.spec_offsets(),
                self.spec_offsets().len() as int,
            ),
            forall|i: int|
                0 <= i < r@.len() ==> ((#[trigger] r@[i]) as int) < self.bytes().len(),
    {
        proof {
            lemma_line_starts_props(self.bytes());
            if self.indexed() {
                assert forall|k: int| 0 <= k < self.offsets@.len() implies ((
                #[trigger] self.offsets@[k]) as int) < self.bytes().len() by {
                    assert(self.spec_offsets()[k] == line_starts(self.bytes())[k]);
                }
            } else {
                assert(self.spec_offsets().len() == self.offsets@.len());
            }
        }
        let n = self.offsets.len();
        let mut out: Vec<usize> = Vec::new();
        let mut i: usize = 0;
        while i < n
            invariant
                self.wf(),
                engine.wf(),
                n == self.offsets@.len(),
                i <= n,
                forall|k: int|
                    0 <= k < self.offsets@.len() ==> ((#[trigger] self.offsets@[k]) as int)
                        < self.bytes().len(),
                out@.map_values(|o: usize| o as int) == matching_upto(
                    self.bytes(),
                    engine.spec_filters(),
                    engine.spec_search(),
                    self.spec_offsets(),
                    i as int,
                ),
                forall|k: int|
                    0 <= k < out@.len() ==> ((#[trigger] out@[k]) as int) < self.bytes().len(),
            decreases n - i,
        {
            let off = self.offsets[i];
            let line = self.get_line_at_offset_raw(off);
            let ghost before = out@;
            if engine.matches(line.as_str()) {
                out.push(off);
                proof {
                    assert(out@.map_values(|o: usize| o as int) =~= before.map_values(
                        |o: usize| o as int,
                    ).push(off as int));
                }
            }
            proof {
                assert(self.spec_offsets()[i as int] == off as int);
            }
            i += 1;
        }
        out
    }

    /// The minimap over the active offsets: the given filtered list when
    /// one is passed, the full table otherwise.
    pub fn get_minimap_data(
        &self,
        engine: &FilterEngine,
        buckets: usize,
        custom_offsets: Option<&[usize]>,
    ) -> (r: Vec<MinimapBucket>)
        requires
            self.wf(),
            engine.wf(),
            match custom_offsets {
                Some(c) => forall|i: int|
                    0 <= i < c@.len() ==> ((#[trigger] c@[i]) as int) < self.bytes().len(),
                None => true,
            },
        ensures
            ({
                let active = match custom_offsets {
                    Some(c) => c@,
                    None => self.spec_offset_table(),
                };
                let cols = line_colors_spec(
                    self.bytes(),
                    engine.spec_filters(),
                    engine.spec_search(),
                    active,
                );
                &&& buckets_correct(cols, buckets as int, r@)
                &&& sum_counts(r@) <= active.len()
            }),
    {
        proof {
            lemma_line_starts_props(self.bytes());
            if self.indexed() {
                assert forall|k: int| 0 <= k < self.offsets@.len() implies ((
                #[trigger] self.offsets@[k]) as int) < self.bytes().len() by {
                    assert(self.spec_offsets()[k] == line_starts(self.bytes())[k]);
                }
            } else {
                assert(self.spec_offsets().len() == self.offsets@.len());
            }
        }
        let active: &[usize] = match custom_offsets {
            Some(c) => c,
            None => self.offsets.as_slice(),
        };
        let ghost cols = line_colors_spec(
            self.bytes(),
            engine.spec_filters(),
            engine.spec_search(),
            active@,
        );
        let na = active.len();
        let mut colors: Vec<Option<String>> = Vec::new();
        let mut i: usize = 0;
        while i < na
            invariant
                self.wf(),
                engine.wf(),
                na == active@.len(),
                cols == line_colors_spec(
                    self.bytes(),
                    engine.spec_filters(),
                    engine.spec_search(),
                    active@,
                ),
                forall|k: int|
                    0 <= k < active@.len() ==> ((#[trigger] active@[k]) as int)
                        < self.bytes().len(),
                i <= na,
                colors@.len() == i,
                forall|k: int|
                    0 <= k < i ==> (match #[trigger] colors@[k] {
                        Some(c) => cols[k] == Some(c@),
                        None => cols[k] is None,
                    }),
            decreases na - i,
        {
            let line = self.get_line_at_offset_raw(active[i]);
            let c = engine.get_match_color(line.as_str());
            colors.push(c);
            i += 1;
        }
        proof {
            assert forall|k: int| 0 <= k < colors@.len() implies #[trigger] view_colors(colors@)[k]
                == cols[k] by {
                assert(view_colors(colors@)[k] == (match colors@[k] {
                    Some(s) => Some(s@),
                    None => None,
                }));
            }
            assert(view_colors(colors@) =~= cols);
        }
        build_buckets(colors.as_slice(), buckets)
    }
}

} // verus!
