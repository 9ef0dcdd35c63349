use vstd::prelude::*;
use vstd::string::StringSliceAdditionalSpecFns;
use crate::scoring::{GAP_OPEN, GAP_EXTEND, blosum62, blosum62_spec, is_residue, seq_residues_ok};

verus! {

/// Upper bound on the length of each input sequence, so that every
/// intermediate alignment score fits comfortably in an `i32`.
pub const MAX_LEN: usize = 16777216;

/// One step of an alignment trace, read left to right.
#[derive(Clone, Copy, PartialEq, Eq, Debug)]
pub enum AlignmentOperation {
    /// A diagonal move over two identical residues.
    Match,
    /// A diagonal move over two differing residues.
    Subst,
    /// A residue of the second sequence aligned against a gap in the first.
    Del,
    /// A residue of the first sequence aligned against a gap in the second.
    Ins,
    /// A run of unaligned residues of the first sequence.
    Xclip(usize),
    /// A run of unaligned residues of the second sequence.
    Yclip(usize),
}

/// Which of the two algorithms produced an alignment.
#[derive(Clone, Copy, PartialEq, Eq, Debug)]
pub enum AlignmentMode {
    Global,
    Local,
}

/// The alignment engine's failure: the mode string named no known algorithm.
#[derive(Clone, Copy, PartialEq, Eq, Debug)]
pub enum AlignError {
    InvalidMode,
}

/// An alignment of a region of a first sequence (the `x` axis) against a
/// region of a second sequence (the `y` axis): its score, the half-open
/// aligned regions, the two full lengths, and the trace of operations that
/// walks both regions end to end.
#[derive(Clone, PartialEq, Debug)]
pub struct Alignment {
    pub score: i32,
    pub xstart: usize,
    pub xend: usize,
    pub ystart: usize,
    pub yend: usize,
    pub xlen: usize,
    pub ylen: usize,
    pub operations: Vec<AlignmentOperation>,
    pub mode: AlignmentMode,
}

/// The operation consumes a residue of the first sequence.
pub open spec fn op_eats_x(op: AlignmentOperation) -> bool {
    op is Match || op is Subst || op is Ins
}

/// The operation consumes a residue of the second sequence.
pub open spec fn op_eats_y(op: AlignmentOperation) -> bool {
    op is Match || op is Subst || op is Del
}

pub open spec fn is_clip(op: AlignmentOperation) -> bool {
    op is Xclip || op is Yclip
}

pub open spec fn no_clips(ops: Seq<AlignmentOperation>) -> bool {
    forall|k: int| 0 <= k < ops.len() ==> !is_clip(#[trigger] ops[k])
}

/// How many operations of a trace consume a residue of the first sequence.
pub open spec fn count_x(ops: Seq<AlignmentOperation>) -> int
    decreases ops.len(),
{
    if ops.len() == 0 {
        0
    } else {
        (if op_eats_x(ops[0]) { 1int } else { 0int }) + count_x(ops.skip(1))
    }
}

/// How many operations of a trace consume a residue of the second sequence.
pub open spec fn count_y(ops: Seq<AlignmentOperation>) -> int
    decreases ops.len(),
{
    if ops.len() == 0 {
        0
    } else {
        (if op_eats_y(ops[0]) { 1int } else { 0int }) + count_y(ops.skip(1))
    }
}

/// How many `Match` operations a trace holds.
pub open spec fn count_matches(ops: Seq<AlignmentOperation>) -> int
    decreases ops.len(),
{
    if ops.len() == 0 {
        0
    } else {
        (if ops[0] is Match { 1int } else { 0int }) + count_matches(ops.skip(1))
    }
}

/// Replaying `ops` over the sequences `x` and `y` from position `(xi, yi)`
/// consumes residues one by one, classifies every diagonal move correctly as
/// `Match` or `Subst`, and lands exactly on `(xe, ye)`.
pub open spec fn trace_ok(
    x: Seq<u8>,
    y: Seq<u8>,
    ops: Seq<AlignmentOperation>,
    xi: int,
    yi: int,
    xe: int,
    ye: int,
) -> bool
    decreases ops.len(),
{
    if ops.len() == 0 {
        xi == xe && yi == ye
    } else {
        match ops[0] {
            AlignmentOperation::Match => xi < xe && yi < ye && 0 <= xi < x.len() && 0 <= yi
                < y.len() && x[xi] == y[yi] && trace_ok(x, y, ops.skip(1), xi + 1, yi + 1, xe, ye),
            AlignmentOperation::Subst => xi < xe && yi < ye && 0 <= xi < x.len() && 0 <= yi
                < y.len() && x[xi] != y[yi] && trace_ok(x, y, ops.skip(1), xi + 1, yi + 1, xe, ye),
            AlignmentOperation::Ins => xi < xe && 0 <= xi < x.len() && trace_ok(
                x,
                y,
                ops.skip(1),
                xi + 1,
                yi,
                xe,
                ye,
            ),
            AlignmentOperation::Del => yi < ye && 0 <= yi < y.len() && trace_ok(
                x,
                y,
                ops.skip(1),
                xi,
                yi + 1,
                xe,
                ye,
            ),
            AlignmentOperation::Xclip(_) => false,
            AlignmentOperation::Yclip(_) => false,
        }
    }
}

impl Alignment {
    /// Structural well-formedness: offsets are ordered and within the stated
    /// lengths, the lengths respect the engine's size limit, the trace holds
    /// no clip operations, and it consumes exactly the two aligned regions.
    pub open spec fn wf(self) -> bool {
        &&& self.xstart <= self.xend
        &&& self.xend <= self.xlen
        &&& self.xlen <= MAX_LEN
        &&& self.ystart <= self.yend
        &&& self.yend <= self.ylen
        &&& self.ylen <= MAX_LEN
        &&& no_clips(self.operations@)
        &&& count_x(self.operations@) == self.xend - self.xstart
        &&& count_y(self.operations@) == self.yend - self.ystart
    }

    /// The alignment describes the two given sequences: the stated lengths
    /// are theirs, and replaying the trace from the start of the aligned
    /// region walks both sequences consistently to its end.
    pub open spec fn valid_for(self, x: Seq<u8>, y: Seq<u8>) -> bool {
        &&& self.xlen == x.len()
        &&& self.ylen == y.len()
        &&& trace_ok(
            x,
            y,
            self.operations@,
            self.xstart as int,
            self.ystart as int,
            self.xend as int,
            self.yend as int,
        )
    }
}

/// A consistent trace consumes exactly the two aligned regions: the counts of
/// consuming operations equal the regions' lengths, no clip operation occurs,
/// and there are no more `Match` steps than consumed residues of either side.
pub proof fn lemma_trace_counts(
    x: Seq<u8>,
    y: Seq<u8>,
    ops: Seq<AlignmentOperation>,
    xi: int,
    yi: int,
    xe: int,
    ye: int,
)
    requires
        trace_ok(x, y, ops, xi, yi, xe, ye),
    ensures
        count_x(ops) == xe - xi,
        count_y(ops) == ye - yi,
        count_matches(ops) <= xe - xi,
        count_matches(ops) <= ye - yi,
        no_clips(ops),
        ops.len() <= (xe - xi) + (ye - yi),
    decreases ops.len(),
{
    if ops.len() == 0 {
    } else {
        match ops[0] {
            AlignmentOperation::Match => {
                lemma_trace_counts(x, y, ops.skip(1), xi + 1, yi + 1, xe, ye);
            },
            AlignmentOperation::Subst => {
                lemma_trace_counts(x, y, ops.skip(1), xi + 1, yi + 1, xe, ye);
            },
            AlignmentOperation::Ins => {
                lemma_trace_counts(x, y, ops.skip(1), xi + 1, yi, xe, ye);
            },
            AlignmentOperation::Del => {
                lemma_trace_counts(x, y, ops.skip(1), xi, yi + 1, xe, ye);
            },
            AlignmentOperation::Xclip(_) => {},
            AlignmentOperation::Yclip(_) => {},
        }
        assert forall|k: int| 0 <= k < ops.len() implies !is_clip(#[trigger] ops[k]) by {
            if k >= 1 {
                assert(ops[k] == ops.skip(1)[k - 1]);
            }
        }
    }
}

/// Sentinel for a dynamic-programming cell that no path reaches; far below
/// every reachable score, yet far above `i32::MIN`, so that adding a gap
/// penalty to it cannot overflow.
const MIN_SCORE: i32 = -1073741824;

/// Bound on the magnitude of every reachable dynamic-programming score at
/// cell `(i, j)`: no single step contributes more than 16 to it.
spec fn cb(i: int, j: int) -> int {
    16 * (i + j) + 16
}

/// The entry of a flat row-major matrix with `n + 1` columns at `(i, j)`.
spec fn cell_at<T>(s: Seq<T>, i: int, j: int, n: int) -> T {
    s[i * (n + 1) + j]
}

/// Validity of one traceback cell. `sd` says which move the score layer
/// took: 0 none (start/stop), 1 diagonal, 2 gap consuming the first
/// sequence, 3 gap consuming the second. `ie`/`de` say whether the gap
/// layers extend a previous gap. `strict` distinguishes global alignment,
/// where a trace may stop only at the origin.
spec fn cell_ok(sd: u8, ie: bool, de: bool, i: int, j: int, strict: bool) -> bool {
    &&& sd <= 3
    &&& (sd == 0 ==> (strict ==> i == 0 && j == 0))
    &&& (sd == 1 ==> i >= 1 && j >= 1)
    &&& (sd == 2 ==> i >= 1)
    &&& (sd == 3 ==> j >= 1)
    &&& (ie ==> i >= 2)
    &&& (de ==> j >= 2)
}

spec fn tb_ok(sd: Seq<u8>, ie: Seq<bool>, de: Seq<bool>, i: int, j: int, n: int, strict: bool) -> bool {
    cell_ok(cell_at(sd, i, j, n), cell_at(ie, i, j, n), cell_at(de, i, j, n), i, j, strict)
}

/// Flat row-major indexing stays inside a matrix of `(m+1)*(n+1)` cells.
proof fn lemma_idx_bound(i: int, j: int, m: int, n: int)
    by (nonlinear_arith)
    requires
        0 <= i <= m,
        0 <= j <= n,
    ensures
        0 <= i * (n + 1) + j < (m + 1) * (n + 1),
{
}

/// Distinct cells of a row-major matrix have distinct flat indices.
proof fn lemma_idx_distinct(i1: int, j1: int, i2: int, j2: int, n: int)
    by (nonlinear_arith)
    requires
        0 <= j1 <= n,
        0 <= j2 <= n,
        0 <= i1,
        0 <= i2,
        i1 != i2 || j1 != j2,
    ensures
        i1 * (n + 1) + j1 != i2 * (n + 1) + j2,
{
}

/// A sequence read back to front.
spec fn rev_of<T>(s: Seq<T>) -> Seq<T> {
    Seq::new(s.len(), |k: int| s[s.len() - 1 - k])
}

proof fn lemma_rev_push<T>(s: Seq<T>, e: T)
    ensures
        rev_of(s.push(e)) =~= seq![e] + rev_of(s),
        rev_of(s.push(e)).len() == s.len() + 1,
        rev_of(s.push(e))[0] == e,
        rev_of(s.push(e)).skip(1) =~= rev_of(s),
{
    assert forall|k: int| 0 <= k < s.len() + 1 implies rev_of(s.push(e))[k] == (seq![e] + rev_of(
        s,
    ))[k] by {
        if k == 0 {
            assert(s.push(e)[s.len() as int] == e);
        } else {
            assert(s.push(e)[s.len() - k] == s[s.len() - k]);
        }
    }
}

/// The affine-gap score of a trace read left to right from positions
/// `(xi, yi)`: a diagonal step earns the substitution score of its residue
/// pair; a gap step costs `GAP_OPEN`, or `GAP_EXTEND` when it continues a
/// run of the same kind of gap (`gx`: the previous operation consumed only
/// the first sequence, `gy`: only the second); clip steps cost nothing.
pub open spec fn trace_score(
    ops: Seq<AlignmentOperation>,
    x: Seq<u8>,
    y: Seq<u8>,
    xi: int,
    yi: int,
    gx: bool,
    gy: bool,
) -> int
    decreases ops.len(),
{
    if ops.len() == 0 {
        0
    } else {
        match ops[0] {
            AlignmentOperation::Match => blosum62_spec(x[xi], y[yi]) + trace_score(
                ops.skip(1),
                x,
                y,
                xi + 1,
                yi + 1,
                false,
                false,
            ),
            AlignmentOperation::Subst => blosum62_spec(x[xi], y[yi]) + trace_score(
                ops.skip(1),
                x,
                y,
                xi + 1,
                yi + 1,
                false,
                false,
            ),
            AlignmentOperation::Ins => (if gx {
                GAP_EXTEND as int
            } else {
                GAP_OPEN as int
            }) + trace_score(ops.skip(1), x, y, xi + 1, yi, true, false),
            AlignmentOperation::Del => (if gy {
                GAP_EXTEND as int
            } else {
                GAP_OPEN as int
            }) + trace_score(ops.skip(1), x, y, xi, yi + 1, false, true),
            AlignmentOperation::Xclip(nn) => trace_score(ops.skip(1), x, y, xi + nn, yi, false, false),
            AlignmentOperation::Yclip(nn) => trace_score(ops.skip(1), x, y, xi, yi + nn, false, false),
        }
    }
}

/// The "inside a gap in the first sequence" flag only affects a trace whose
/// head is that very gap operation.
proof fn lemma_trace_score_gx(ops: Seq<AlignmentOperation>, x: Seq<u8>, y: Seq<u8>, xi: int, yi: int, gy: bool)
    requires
        ops.len() == 0 || !(ops[0] is Ins),
    ensures
        trace_score(ops, x, y, xi, yi, true, gy) == trace_score(ops, x, y, xi, yi, false, gy),
{
}

/// The "inside a gap in the second sequence" flag only affects a trace whose
/// head is that very gap operation.
proof fn lemma_trace_score_gy(ops: Seq<AlignmentOperation>, x: Seq<u8>, y: Seq<u8>, xi: int, yi: int, gx: bool)
    requires
        ops.len() == 0 || !(ops[0] is Del),
    ensures
        trace_score(ops, x, y, xi, yi, gx, true) == trace_score(ops, x, y, xi, yi, gx, false),
{
}

/// A gap cell that opens its gap (rather than extending one) never sits
/// beside a score cell that itself chose that gap layer: opening from such a
/// cell would cost `GAP_OPEN` where extending costs only `GAP_EXTEND`, and
/// the fill takes the better of the two. The traceback uses this to charge
/// each emitted gap operation exactly as the trace's run structure demands.
spec fn gap_run_ok(sd: Seq<u8>, ie: Seq<bool>, de: Seq<bool>, i: int, j: int, n: int) -> bool {
    &&& (i >= 1 && !cell_at(ie, i, j, n) ==> cell_at(sd, i - 1, j, n) != 2)
    &&& (j >= 1 && !cell_at(de, i, j, n) ==> cell_at(sd, i, j - 1, n) != 3)
}

/// Per-cell dominance of a dynamic-programming table: the score cell at
/// `(i, j)` is at least as large as each of its candidates (a diagonal step
/// from `(i-1, j-1)`, or the better of the two gap layers), and each gap
/// layer cell is at least as large as extending its run or opening it anew.
/// A table with this property cannot be out-scored by any trace.
spec fn cell_dom(
    sv: Seq<i32>,
    iv: Seq<i32>,
    dv: Seq<i32>,
    x: Seq<u8>,
    y: Seq<u8>,
    i: int,
    j: int,
    n: int,
) -> bool {
    &&& (i >= 1 && j >= 1 ==> cell_at(sv, i, j, n) as int >= cell_at(sv, i - 1, j - 1, n)
        + blosum62_spec(x[i - 1], y[j - 1]))
    &&& (i >= 1 ==> cell_at(sv, i, j, n) as int >= cell_at(iv, i, j, n) as int)
    &&& (i >= 1 ==> cell_at(iv, i, j, n) as int >= cell_at(iv, i - 1, j, n) + GAP_EXTEND)
    &&& (i >= 1 ==> cell_at(iv, i, j, n) as int >= cell_at(sv, i - 1, j, n) + GAP_OPEN)
    &&& (j >= 1 ==> cell_at(sv, i, j, n) as int >= cell_at(dv, i, j, n) as int)
    &&& (j >= 1 ==> cell_at(dv, i, j, n) as int >= cell_at(dv, i, j - 1, n) + GAP_EXTEND)
    &&& (j >= 1 ==> cell_at(dv, i, j, n) as int >= cell_at(sv, i, j - 1, n) + GAP_OPEN)
}

/// The entry value a trace starts from: the gap-layer cell when the trace
/// continues a gap run, the score cell otherwise.
spec fn dom_entry(
    sv: Seq<i32>,
    iv: Seq<i32>,
    dv: Seq<i32>,
    xi: int,
    yi: int,
    n: int,
    gx: bool,
    gy: bool,
) -> int {
    if gx {
        cell_at(iv, xi, yi, n) as int
    } else if gy {
        cell_at(dv, xi, yi, n) as int
    } else {
        cell_at(sv, xi, yi, n) as int
    }
}

/// Exact per-cell bookkeeping of a dynamic-programming table: each stored
/// direction records which candidate the cell's value equals, and each gap
/// layer records whether its value extends the previous gap cell or opens
/// from the score cell. The traceback uses these equalities to account for
/// the returned score step by step.
spec fn cell_exact(
    sv: Seq<i32>,
    iv: Seq<i32>,
    dv: Seq<i32>,
    sd: Seq<u8>,
    ie: Seq<bool>,
    de: Seq<bool>,
    x: Seq<u8>,
    y: Seq<u8>,
    i: int,
    j: int,
    n: int,
) -> bool {
    &&& (cell_at(sd, i, j, n) == 0 ==> cell_at(sv, i, j, n) == 0)
    &&& (cell_at(sd, i, j, n) == 1 ==> i >= 1 && j >= 1 && cell_at(sv, i, j, n) as int == cell_at(
        sv,
        i - 1,
        j - 1,
        n,
    ) + blosum62_spec(x[i - 1], y[j - 1]))
    &&& (cell_at(sd, i, j, n) == 2 ==> i >= 1 && cell_at(sv, i, j, n) == cell_at(iv, i, j, n))
    &&& (cell_at(sd, i, j, n) == 3 ==> j >= 1 && cell_at(sv, i, j, n) == cell_at(dv, i, j, n))
    &&& (i >= 1 && cell_at(ie, i, j, n) ==> cell_at(iv, i, j, n) as int == cell_at(iv, i - 1, j, n)
        + GAP_EXTEND)
    &&& (i >= 1 && !cell_at(ie, i, j, n) ==> cell_at(iv, i, j, n) as int == cell_at(sv, i - 1, j, n)
        + GAP_OPEN)
    &&& (j >= 1 && cell_at(de, i, j, n) ==> cell_at(dv, i, j, n) as int == cell_at(dv, i, j - 1, n)
        + GAP_EXTEND)
    &&& (j >= 1 && !cell_at(de, i, j, n) ==> cell_at(dv, i, j, n) as int == cell_at(sv, i, j - 1, n)
        + GAP_OPEN)
}

/// No consistent trace can beat a dominating dynamic-programming table: the
/// score of any trace from `(xi, yi)` to `(xe, ye)`, added to the cell it
/// starts from, never exceeds the score cell it ends at.
proof fn lemma_dp_dominates(
    sv: Seq<i32>,
    iv: Seq<i32>,
    dv: Seq<i32>,
    x: Seq<u8>,
    y: Seq<u8>,
    ops: Seq<AlignmentOperation>,
    xi: int,
    yi: int,
    xe: int,
    ye: int,
    gx: bool,
    gy: bool,
    m: int,
    n: int,
)
    requires
        trace_ok(x, y, ops, xi, yi, xe, ye),
        0 <= xi,
        0 <= yi,
        xi <= xe <= m,
        yi <= ye <= n,
        m == x.len(),
        n == y.len(),
        gx ==> xi >= 1,
        gy ==> yi >= 1,
        !(gx && gy),
        forall|ii: int, jj: int|
            0 <= ii <= m && 0 <= jj <= n ==> cell_dom(sv, iv, dv, x, y, ii, jj, n),
    ensures
        dom_entry(sv, iv, dv, xi, yi, n, gx, gy) + trace_score(ops, x, y, xi, yi, gx, gy)
            <= cell_at(sv, xe, ye, n) as int,
    decreases ops.len(),
{
    assert(cell_dom(sv, iv, dv, x, y, xi, yi, n));
    let entry = dom_entry(sv, iv, dv, xi, yi, n, gx, gy);
    assert(entry <= cell_at(sv, xi, yi, n) as int);
    if ops.len() == 0 {
    } else {
        match ops[0] {
            AlignmentOperation::Match => {
                assert(cell_dom(sv, iv, dv, x, y, xi + 1, yi + 1, n));
                lemma_dp_dominates(
                    sv, iv, dv, x, y, ops.skip(1), xi + 1, yi + 1, xe, ye, false, false, m, n,
                );
                assert(cell_at(sv, xi + 1, yi + 1, n) as int >= cell_at(sv, xi, yi, n)
                    + blosum62_spec(x[xi], y[yi]));
                assert(trace_score(ops, x, y, xi, yi, gx, gy) == blosum62_spec(x[xi], y[yi])
                    + trace_score(ops.skip(1), x, y, xi + 1, yi + 1, false, false));
            },
            AlignmentOperation::Subst => {
                assert(cell_dom(sv, iv, dv, x, y, xi + 1, yi + 1, n));
                lemma_dp_dominates(
                    sv, iv, dv, x, y, ops.skip(1), xi + 1, yi + 1, xe, ye, false, false, m, n,
                );
                assert(cell_at(sv, xi + 1, yi + 1, n) as int >= cell_at(sv, xi, yi, n)
                    + blosum62_spec(x[xi], y[yi]));
                assert(trace_score(ops, x, y, xi, yi, gx, gy) == blosum62_spec(x[xi], y[yi])
                    + trace_score(ops.skip(1), x, y, xi + 1, yi + 1, false, false));
            },
            AlignmentOperation::Ins => {
                assert(cell_dom(sv, iv, dv, x, y, xi + 1, yi, n));
                lemma_dp_dominates(
                    sv, iv, dv, x, y, ops.skip(1), xi + 1, yi, xe, ye, true, false, m, n,
                );
                assert(cell_at(iv, xi + 1, yi, n) as int >= cell_at(iv, xi, yi, n) + GAP_EXTEND);
                assert(cell_at(iv, xi + 1, yi, n) as int >= cell_at(sv, xi, yi, n) + GAP_OPEN);
                assert(trace_score(ops, x, y, xi, yi, gx, gy) == (if gx {
                    GAP_EXTEND as int
                } else {
                    GAP_OPEN as int
                }) + trace_score(ops.skip(1), x, y, xi + 1, yi, true, false));
                assert(entry + (if gx {
                    GAP_EXTEND as int
                } else {
                    GAP_OPEN as int
                }) <= cell_at(iv, xi + 1, yi, n) as int);
            },
            AlignmentOperation::Del => {
                assert(cell_dom(sv, iv, dv, x, y, xi, yi + 1, n));
                lemma_dp_dominates(
                    sv, iv, dv, x, y, ops.skip(1), xi, yi + 1, xe, ye, false, true, m, n,
                );
                assert(cell_at(dv, xi, yi + 1, n) as int >= cell_at(dv, xi, yi, n) + GAP_EXTEND);
                assert(cell_at(dv, xi, yi + 1, n) as int >= cell_at(sv, xi, yi, n) + GAP_OPEN);
                assert(trace_score(ops, x, y, xi, yi, gx, gy) == (if gy {
                    GAP_EXTEND as int
                } else {
                    GAP_OPEN as int
                }) + trace_score(ops.skip(1), x, y, xi, yi + 1, false, true));
                assert(entry + (if gy {
                    GAP_EXTEND as int
                } else {
                    GAP_OPEN as int
                }) <= cell_at(dv, xi, yi + 1, n) as int);
            },
            AlignmentOperation::Xclip(_) => {},
            AlignmentOperation::Yclip(_) => {},
        }
    }
}

/// A trace read with the two sequences' roles exchanged: gap operations and
/// clips swap sides, diagonal steps stay.
pub open spec fn transpose_op(op: AlignmentOperation) -> AlignmentOperation {
    match op {
        AlignmentOperation::Match => AlignmentOperation::Match,
        AlignmentOperation::Subst => AlignmentOperation::Subst,
        AlignmentOperation::Ins => AlignmentOperation::Del,
        AlignmentOperation::Del => AlignmentOperation::Ins,
        AlignmentOperation::Xclip(nn) => AlignmentOperation::Yclip(nn),
        AlignmentOperation::Yclip(nn) => AlignmentOperation::Xclip(nn),
    }
}

pub open spec fn transpose_ops(ops: Seq<AlignmentOperation>) -> Seq<AlignmentOperation> {
    Seq::new(ops.len(), |k: int| transpose_op(ops[k]))
}

/// Transposing a trace exchanges the two sequences' roles exactly: validity
/// is preserved with the axes swapped, and the affine-gap score is unchanged
/// (the substitution matrix is symmetric).
pub proof fn lemma_transpose_trace(
    x: Seq<u8>,
    y: Seq<u8>,
    ops: Seq<AlignmentOperation>,
    xi: int,
    yi: int,
    xe: int,
    ye: int,
    gx: bool,
    gy: bool,
)
    requires
        trace_ok(x, y, ops, xi, yi, xe, ye),
    ensures
        trace_ok(y, x, transpose_ops(ops), yi, xi, ye, xe),
        trace_score(transpose_ops(ops), y, x, yi, xi, gy, gx) == trace_score(
            ops,
            x,
            y,
            xi,
            yi,
            gx,
            gy,
        ),
    decreases ops.len(),
{
    assert(transpose_ops(ops).len() == ops.len());
    if ops.len() == 0 {
    } else {
        assert(transpose_ops(ops)[0] == transpose_op(ops[0]));
        assert(transpose_ops(ops).skip(1) =~= transpose_ops(ops.skip(1)));
        match ops[0] {
            AlignmentOperation::Match => {
                crate::scoring::lemma_blosum62_symmetric(x[xi], y[yi]);
                lemma_transpose_trace(x, y, ops.skip(1), xi + 1, yi + 1, xe, ye, false, false);
            },
            AlignmentOperation::Subst => {
                crate::scoring::lemma_blosum62_symmetric(x[xi], y[yi]);
                lemma_transpose_trace(x, y, ops.skip(1), xi + 1, yi + 1, xe, ye, false, false);
            },
            AlignmentOperation::Ins => {
                lemma_transpose_trace(x, y, ops.skip(1), xi + 1, yi, xe, ye, true, false);
            },
            AlignmentOperation::Del => {
                lemma_transpose_trace(x, y, ops.skip(1), xi, yi + 1, xe, ye, false, true);
            },
            AlignmentOperation::Xclip(_) => {},
            AlignmentOperation::Yclip(_) => {},
        }
    }
}

/// Global alignment scores are symmetric in the two sequences: any two
/// results whose scores are the exact affine-gap score of their own trace
/// and an upper bound on every valid trace must agree, because each trace
/// transposes into a trace of the swapped problem with the same score.
pub proof fn lemma_global_score_symmetry(a1: Alignment, a2: Alignment, x: Seq<u8>, y: Seq<u8>)
    requires
        trace_ok(x, y, a1.operations@, 0, 0, x.len() as int, y.len() as int),
        a1.score as int == trace_score(a1.operations@, x, y, 0, 0, false, false),
        trace_ok(y, x, a2.operations@, 0, 0, y.len() as int, x.len() as int),
        a2.score as int == trace_score(a2.operations@, y, x, 0, 0, false, false),
        forall|ops2: Seq<AlignmentOperation>|
            trace_ok(x, y, ops2, 0, 0, x.len() as int, y.len() as int) ==> trace_score(
                ops2,
                x,
                y,
                0,
                0,
                false,
                false,
            ) <= a1.score,
        forall|ops2: Seq<AlignmentOperation>|
            trace_ok(y, x, ops2, 0, 0, y.len() as int, x.len() as int) ==> trace_score(
                ops2,
                y,
                x,
                0,
                0,
                false,
                false,
            ) <= a2.score,
    ensures
        a1.score == a2.score,
{
    lemma_transpose_trace(x, y, a1.operations@, 0, 0, x.len() as int, y.len() as int, false, false);
    assert(trace_score(transpose_ops(a1.operations@), y, x, 0, 0, false, false) <= a2.score);
    lemma_transpose_trace(y, x, a2.operations@, 0, 0, y.len() as int, x.len() as int, false, false);
    assert(trace_score(transpose_ops(a2.operations@), x, y, 0, 0, false, false) <= a1.score);
}

/// Local alignment scores are symmetric in the two sequences: any two
/// results whose scores are their own trace's affine-gap score and an upper
/// bound on every valid trace over any pair of regions must agree.
pub proof fn lemma_local_score_symmetry(a1: Alignment, a2: Alignment, x: Seq<u8>, y: Seq<u8>)
    requires
        a1.wf(),
        a1.valid_for(x, y),
        a2.wf(),
        a2.valid_for(y, x),
        a1.score as int == trace_score(
            a1.operations@,
            x,
            y,
            a1.xstart as int,
            a1.ystart as int,
            false,
            false,
        ),
        a2.score as int == trace_score(
            a2.operations@,
            y,
            x,
            a2.xstart as int,
            a2.ystart as int,
            false,
            false,
        ),
        forall|ops2: Seq<AlignmentOperation>, xs: int, ys: int, xe2: int, ye2: int|
            0 <= xs && 0 <= ys && xe2 <= x.len() && ye2 <= y.len() && trace_ok(
                x,
                y,
                ops2,
                xs,
                ys,
                xe2,
                ye2,
            ) ==> trace_score(ops2, x, y, xs, ys, false, false) <= a1.score,
        forall|ops2: Seq<AlignmentOperation>, xs: int, ys: int, xe2: int, ye2: int|
            0 <= xs && 0 <= ys && xe2 <= y.len() && ye2 <= x.len() && trace_ok(
                y,
                x,
                ops2,
                xs,
                ys,
                xe2,
                ye2,
            ) ==> trace_score(ops2, y, x, xs, ys, false, false) <= a2.score,
    ensures
        a1.score == a2.score,
{
    lemma_transpose_trace(
        x,
        y,
        a1.operations@,
        a1.xstart as int,
        a1.ystart as int,
        a1.xend as int,
        a1.yend as int,
        false,
        false,
    );
    assert(trace_score(
        transpose_ops(a1.operations@),
        y,
        x,
        a1.ystart as int,
        a1.xstart as int,
        false,
        false,
    ) <= a2.score);
    lemma_transpose_trace(
        y,
        x,
        a2.operations@,
        a2.xstart as int,
        a2.ystart as int,
        a2.xend as int,
        a2.yend as int,
        false,
        false,
    );
    assert(trace_score(
        transpose_ops(a2.operations@),
        x,
        y,
        a2.ystart as int,
        a2.xstart as int,
        false,
        false,
    ) <= a1.score);
}

/// The identity percentage of an alignment: the number of `Match` steps in
/// the trace, as a share of the longer sequence, rounded half-up; zero when
/// both sequences are empty.
pub open spec fn identity_spec(al: Alignment) -> int {
    let len = if al.xlen >= al.ylen {
        al.xlen as int
    } else {
        al.ylen as int
    };
    if len == 0 {
        0
    } else {
        (200 * count_matches(al.operations@) + len) / (2 * len)
    }
}

/// Percentage of aligned positions that are exact residue matches, relative
/// to the longer of the two input sequences. Always in `[0, 100]`; an
/// alignment of two empty sequences has identity zero.
pub fn identity(alignment: &Alignment) -> (r: u8)
    requires
        alignment.wf(),
    ensures
        r as int == identity_spec(*alignment),
        r <= 100,
{
    let ops = &alignment.operations;
    let mut matches: usize = 0;
    let mut k: usize = 0;
    proof {
        assert(ops@.skip(0) =~= ops@);
    }
    while k < ops.len()
        invariant
            0 <= k <= ops@.len(),
            matches + count_matches(ops@.skip(k as int)) == count_matches(ops@),
            matches <= k,
        decreases ops@.len() - k,
    {
        proof {
            assert(ops@.skip(k as int).skip(1) =~= ops@.skip(k as int + 1));
            assert(ops@.skip(k as int)[0] == ops@[k as int]);
        }
        match ops[k] {
            AlignmentOperation::Match => {
                matches = matches + 1;
            },
            _ => {},
        }
        k = k + 1;
    }
    proof {
        assert(ops@.skip(ops@.len() as int) =~= Seq::<AlignmentOperation>::empty());
        lemma_count_matches_le(alignment);
    }
    let len = if alignment.xlen >= alignment.ylen {
        alignment.xlen
    } else {
        alignment.ylen
    };
    if len == 0 {
        return 0;
    }
    let num = 200 * (matches as u64) + (len as u64);
    let den = 2 * (len as u64);
    let v = num / den;
    proof {
        lemma_round_div_le_100(matches as int, len as int);
    }
    v as u8
}

/// A well-formed alignment has no more `Match` steps than the longer
/// sequence has residues.
proof fn lemma_count_matches_le(al: &Alignment)
    requires
        al.wf(),
    ensures
        count_matches(al.operations@) <= al.xend - al.xstart,
        0 <= count_matches(al.operations@),
{
    lemma_counts_bound(al.operations@);
}

/// Counting is monotone: the number of `Match` steps never exceeds the
/// number of steps consuming the first sequence, and both are non-negative.
proof fn lemma_counts_bound(ops: Seq<AlignmentOperation>)
    ensures
        0 <= count_matches(ops) <= count_x(ops),
        0 <= count_y(ops),
        count_matches(ops) <= count_y(ops),
    decreases ops.len(),
{
    if ops.len() == 0 {
    } else {
        lemma_counts_bound(ops.skip(1));
    }
}

/// Needleman-Wunsch alignment with affine gaps: both sequences are consumed
/// end to end, the returned score is exactly the affine-gap score of the
/// returned trace, and ties are broken deterministically, preferring a
/// diagonal move, then a gap in the second sequence, then a gap in the
/// first.
#[verifier::rlimit(100)]
pub(crate) fn align_global(x: &[u8], y: &[u8]) -> (r: Alignment)
    requires
        seq_residues_ok(x@),
        seq_residues_ok(y@),
        x@.len() <= MAX_LEN,
        y@.len() <= MAX_LEN,
        (x@.len() + 1) * (y@.len() + 1) <= usize::MAX,
    ensures
        r.wf(),
        r.valid_for(x@, y@),
        r.xstart == 0,
        r.ystart == 0,
        r.xend == x@.len(),
        r.yend == y@.len(),
        r.xlen == x@.len(),
        r.ylen == y@.len(),
        r.operations@.len() <= x@.len() + y@.len(),
        r.score as int == trace_score(r.operations@, x@, y@, 0, 0, false, false),
        forall|ops2: Seq<AlignmentOperation>|
            trace_ok(x@, y@, ops2, 0, 0, x@.len() as int, y@.len() as int) ==> trace_score(
                ops2,
                x@,
                y@,
                0,
                0,
                false,
                false,
            ) <= r.score,
        r.mode == AlignmentMode::Global,
{
    let m = x.len();
    let n = y.len();
    proof {
        lemma_idx_bound(m as int, n as int, m as int, n as int);
    }
    let size = (m + 1) * (n + 1);
    let mut sdir: Vec<u8> = vec![0u8; size];
    let mut iext: Vec<bool> = vec![false; size];
    let mut dext: Vec<bool> = vec![false; size];
    let mut s_prev: Vec<i32> = vec![0i32; m + 1];
    let mut s_curr: Vec<i32> = vec![0i32; m + 1];
    let mut d_prev: Vec<i32> = vec![MIN_SCORE; m + 1];
    let mut d_curr: Vec<i32> = vec![MIN_SCORE; m + 1];
    let mut i_curr: Vec<i32> = vec![MIN_SCORE; m + 1];
    let mut sv: Vec<i32> = vec![0i32; size];
    let mut iv: Vec<i32> = vec![MIN_SCORE; size];
    let mut dv: Vec<i32> = vec![MIN_SCORE; size];

    proof {
        lemma_idx_bound(0, 0, m as int, n as int);
        assert(cell_at(sdir@, 0, 0, n as int) == 0u8);
        assert(cell_at(iext@, 0, 0, n as int) == false);
        assert(cell_at(dext@, 0, 0, n as int) == false);
        assert(cell_at(sv@, 0, 0, n as int) == 0);
        assert(cell_at(iv@, 0, 0, n as int) == MIN_SCORE);
        assert forall|k: int| 0 <= k <= m implies cell_at(dv@, k, 0, n as int) == MIN_SCORE by {
            lemma_idx_bound(k, 0, m as int, n as int);
        }
    }

    // Column 0: only gaps consuming the first sequence can reach cell (i, 0).
    let mut i: usize = 1;
    while i <= m
        invariant
            1 <= i <= m + 1,
            m == x@.len() <= MAX_LEN,
            n == y@.len() <= MAX_LEN,
            size == (m + 1) * (n + 1) <= usize::MAX,
            sdir@.len() == size,
            iext@.len() == size,
            dext@.len() == size,
            s_prev@.len() == m + 1,
            s_prev@[0] == 0,
            forall|k: int| 1 <= k < i ==> s_prev@[k] == -(k + 4),
            sv@.len() == size,
            iv@.len() == size,
            dv@.len() == size,
            cell_at(sv@, 0, 0, n as int) == 0,
            cell_at(sdir@, 0, 0, n as int) == 0u8,
            cell_at(iv@, 0, 0, n as int) == MIN_SCORE,
            forall|k: int| 0 <= k < i ==> s_prev@[k] == cell_at(sv@, k, 0, n as int),
            forall|k: int| 1 <= k < i ==> cell_at(iv@, k, 0, n as int) == s_prev@[k],
            forall|k: int| 1 <= k < i ==> cell_at(iext@, k, 0, n as int) == (k >= 2),
            forall|k: int| 0 <= k <= m ==> cell_at(dv@, k, 0, n as int) == MIN_SCORE,
            forall|ii: int, jj: int|
                0 <= ii < i && jj == 0 ==> tb_ok(sdir@, iext@, dext@, ii, jj, n as int, true),
            forall|ii: int, jj: int|
                0 <= ii < i && jj == 0 ==> gap_run_ok(sdir@, iext@, dext@, ii, jj, n as int),
        decreases m + 1 - i,
    {
        let ghost sd0 = sdir@;
        let ghost ie0 = iext@;
        let ghost de0 = dext@;
        proof {
            lemma_idx_bound(i as int, 0, m as int, n as int);
        }
        let pos = i * (n + 1);
        let v = if i == 1 {
            GAP_OPEN
        } else {
            s_prev[i - 1] + GAP_EXTEND
        };
        s_prev[i] = v;
        sdir[pos] = 2u8;
        iext[pos] = i >= 2;
        dext[pos] = false;
        let ghost sv0 = sv@;
        let ghost iv0 = iv@;
        sv[pos] = v;
        iv[pos] = v;
        proof {
            assert forall|k: int| 0 <= k < i + 1 implies s_prev@[k] == cell_at(
                sv@,
                k,
                0,
                n as int,
            ) by {
                lemma_idx_bound(k, 0, m as int, n as int);
                if k != i as int {
                    lemma_idx_distinct(k, 0, i as int, 0, n as int);
                    assert(cell_at(sv@, k, 0, n as int) == cell_at(sv0, k, 0, n as int));
                }
            }
            assert forall|k: int| 1 <= k < i + 1 implies cell_at(iv@, k, 0, n as int)
                == s_prev@[k] by {
                lemma_idx_bound(k, 0, m as int, n as int);
                if k != i as int {
                    lemma_idx_distinct(k, 0, i as int, 0, n as int);
                    assert(cell_at(iv@, k, 0, n as int) == cell_at(iv0, k, 0, n as int));
                }
            }
            assert(cell_at(sv@, 0, 0, n as int) == cell_at(sv0, 0, 0, n as int)
                && cell_at(iv@, 0, 0, n as int) == cell_at(iv0, 0, 0, n as int)) by {
                lemma_idx_bound(0, 0, m as int, n as int);
                lemma_idx_distinct(0, 0, i as int, 0, n as int);
            }
            assert forall|k: int| 1 <= k < i + 1 implies cell_at(iext@, k, 0, n as int) == (k
                >= 2) by {
                lemma_idx_bound(k, 0, m as int, n as int);
                if k != i as int {
                    lemma_idx_distinct(k, 0, i as int, 0, n as int);
                    assert(cell_at(iext@, k, 0, n as int) == cell_at(ie0, k, 0, n as int));
                }
            }
        }
        proof {
            assert forall|ii: int, jj: int| 0 <= ii < i + 1 && jj == 0 implies tb_ok(
                sdir@,
                iext@,
                dext@,
                ii,
                jj,
                n as int,
                true,
            ) by {
                lemma_idx_bound(ii, jj, m as int, n as int);
                if ii == i as int && jj == 0 {
                    assert(cell_at(sdir@, ii, jj, n as int) == 2u8);
                    assert(cell_at(iext@, ii, jj, n as int) == (i >= 2));
                    assert(cell_at(dext@, ii, jj, n as int) == false);
                } else {
                    assert(tb_ok(sd0, ie0, de0, ii, jj, n as int, true));
                    lemma_idx_distinct(ii, jj, i as int, 0, n as int);
                    assert(cell_at(sdir@, ii, jj, n as int) == cell_at(sd0, ii, jj, n as int));
                    assert(cell_at(iext@, ii, jj, n as int) == cell_at(ie0, ii, jj, n as int));
                    assert(cell_at(dext@, ii, jj, n as int) == cell_at(de0, ii, jj, n as int));
                }
            }
            assert forall|ii: int, jj: int| 0 <= ii < i + 1 && jj == 0 implies gap_run_ok(
                sdir@,
                iext@,
                dext@,
                ii,
                jj,
                n as int,
            ) by {
                lemma_idx_bound(ii, jj, m as int, n as int);
                if ii >= 1 {
                    lemma_idx_bound(ii - 1, jj, m as int, n as int);
                }
                if ii == i as int && jj == 0 {
                    assert(cell_at(iext@, ii, jj, n as int) == (i >= 2));
                    if i < 2 {
                        assert(tb_ok(sd0, ie0, de0, 0, 0, n as int, true));
                        lemma_idx_distinct(0, 0, i as int, 0, n as int);
                        assert(cell_at(sdir@, 0, 0, n as int) == cell_at(sd0, 0, 0, n as int));
                    }
                } else {
                    assert(gap_run_ok(sd0, ie0, de0, ii, jj, n as int));
                    lemma_idx_distinct(ii, jj, i as int, 0, n as int);
                    assert(cell_at(iext@, ii, jj, n as int) == cell_at(ie0, ii, jj, n as int));
                    assert(cell_at(dext@, ii, jj, n as int) == cell_at(de0, ii, jj, n as int));
                    if ii >= 1 && !(ii - 1 == i as int && jj == 0) {
                        lemma_idx_distinct(ii - 1, jj, i as int, 0, n as int);
                        assert(cell_at(sdir@, ii - 1, jj, n as int) == cell_at(sd0, ii - 1, jj, n as int));
                    }
                }
            }
        }
        i = i + 1;
    }

    proof {
        assert forall|k: int|
            0 <= k <= m && cell_at(sdir@, k, 0, n as int) == 3 implies s_prev@[k] == d_prev@[k] by {
            lemma_idx_bound(k, 0, m as int, n as int);
            assert(tb_ok(sdir@, iext@, dext@, k, 0, n as int, true));
        }
        assert forall|ii: int, jj: int| 0 <= ii <= m && jj == 0 implies cell_dom(
            sv@,
            iv@,
            dv@,
            x@,
            y@,
            ii,
            jj,
            n as int,
        ) by {
            lemma_idx_bound(ii, jj, m as int, n as int);
            assert(tb_ok(sdir@, iext@, dext@, ii, jj, n as int, true));
            if ii >= 1 {
                lemma_idx_bound(ii - 1, jj, m as int, n as int);
                assert(cell_at(sv@, ii, 0, n as int) == s_prev@[ii]);
                assert(cell_at(iv@, ii, 0, n as int) == s_prev@[ii]);
                if ii >= 2 {
                    assert(cell_at(sv@, ii - 1, 0, n as int) == s_prev@[ii - 1]);
                    assert(cell_at(iv@, ii - 1, 0, n as int) == s_prev@[ii - 1]);
                }
            }
        }
        assert forall|ii: int, jj: int| 0 <= ii <= m && jj == 0 implies cell_exact(
            sv@,
            iv@,
            dv@,
            sdir@,
            iext@,
            dext@,
            x@,
            y@,
            ii,
            jj,
            n as int,
        ) by {
            lemma_idx_bound(ii, jj, m as int, n as int);
            assert(tb_ok(sdir@, iext@, dext@, ii, jj, n as int, true));
            if ii >= 1 {
                lemma_idx_bound(ii - 1, jj, m as int, n as int);
                assert(cell_at(sv@, ii, 0, n as int) == s_prev@[ii]);
                assert(cell_at(iv@, ii, 0, n as int) == s_prev@[ii]);
                assert(cell_at(iext@, ii, 0, n as int) == (ii >= 2));
                if ii >= 2 {
                    assert(cell_at(sv@, ii - 1, 0, n as int) == s_prev@[ii - 1]);
                    assert(cell_at(iv@, ii - 1, 0, n as int) == s_prev@[ii - 1]);
                }
            }
        }
    }

    // Main fill, one column of the second sequence at a time.
    let mut j: usize = 1;
    while j <= n
        invariant
            1 <= j <= n + 1,
            m == x@.len() <= MAX_LEN,
            n == y@.len() <= MAX_LEN,
            seq_residues_ok(x@),
            seq_residues_ok(y@),
            size == (m + 1) * (n + 1) <= usize::MAX,
            sdir@.len() == size,
            iext@.len() == size,
            dext@.len() == size,
            s_prev@.len() == m + 1,
            s_curr@.len() == m + 1,
            d_prev@.len() == m + 1,
            d_curr@.len() == m + 1,
            i_curr@.len() == m + 1,
            forall|k: int| 0 <= k <= m ==> -cb(k, j - 1) <= #[trigger] s_prev@[k] <= cb(k, j - 1),
            forall|k: int|
                0 <= k <= m ==> #[trigger] d_prev@[k] == MIN_SCORE || -cb(k, j - 1) <= d_prev@[k]
                    <= cb(k, j - 1),
            j == 1 ==> forall|k: int| 0 <= k <= m ==> #[trigger] d_prev@[k] == MIN_SCORE,
            j >= 2 ==> -cb(0, j - 1) <= d_prev@[0] <= cb(0, j - 1),
            forall|ii: int, jj: int|
                0 <= ii <= m && 0 <= jj < j ==> tb_ok(sdir@, iext@, dext@, ii, jj, n as int, true),
            forall|ii: int, jj: int|
                0 <= ii <= m && 0 <= jj < j ==> gap_run_ok(sdir@, iext@, dext@, ii, jj, n as int),
            forall|k: int|
                0 <= k <= m && cell_at(sdir@, k, j - 1, n as int) == 3 ==> s_prev@[k] == d_prev@[k],
            sv@.len() == size,
            iv@.len() == size,
            dv@.len() == size,
            cell_at(sv@, 0, 0, n as int) == 0,
            j >= 2 ==> s_prev@[0] == d_prev@[0],
            forall|k: int| 0 <= k <= m ==> s_prev@[k] == cell_at(sv@, k, j - 1, n as int),
            forall|k: int| 0 <= k <= m ==> d_prev@[k] == cell_at(dv@, k, j - 1, n as int),
            forall|ii: int, jj: int|
                0 <= ii <= m && 0 <= jj < j ==> cell_dom(sv@, iv@, dv@, x@, y@, ii, jj, n as int),
            forall|ii: int, jj: int|
                0 <= ii <= m && 0 <= jj < j ==> cell_exact(
                    sv@,
                    iv@,
                    dv@,
                    sdir@,
                    iext@,
                    dext@,
                    x@,
                    y@,
                    ii,
                    jj,
                    n as int,
                ),
        decreases n + 1 - j,
    {
        let ghost sd0 = sdir@;
        let ghost ie0 = iext@;
        let ghost de0 = dext@;
        proof {
            lemma_idx_bound(0, j as int, m as int, n as int);
        }
        // Row 0 of this column: only gaps consuming the second sequence.
        let dval = if j == 1 {
            GAP_OPEN
        } else {
            d_prev[0] + GAP_EXTEND
        };
        d_curr[0] = dval;
        s_curr[0] = dval;
        i_curr[0] = MIN_SCORE;
        let pos0 = j;
        sdir[pos0] = 3u8;
        dext[pos0] = j >= 2;
        iext[pos0] = false;
        let ghost sv0 = sv@;
        let ghost iv0 = iv@;
        let ghost dv0 = dv@;
        sv[pos0] = dval;
        dv[pos0] = dval;
        iv[pos0] = MIN_SCORE;
        proof {
            assert forall|k: int| 0 <= k <= m implies s_prev@[k] == cell_at(sv@, k, j - 1, n as int)
                by {
                lemma_idx_bound(k, j - 1, m as int, n as int);
                lemma_idx_distinct(k, j - 1, 0, j as int, n as int);
                assert(cell_at(sv@, k, j - 1, n as int) == cell_at(sv0, k, j - 1, n as int));
            }
            assert forall|k: int| 0 <= k <= m implies d_prev@[k] == cell_at(dv@, k, j - 1, n as int)
                by {
                lemma_idx_bound(k, j - 1, m as int, n as int);
                lemma_idx_distinct(k, j - 1, 0, j as int, n as int);
                assert(cell_at(dv@, k, j - 1, n as int) == cell_at(dv0, k, j - 1, n as int));
            }
            assert(cell_at(sv@, 0, 0, n as int) == cell_at(sv0, 0, 0, n as int)) by {
                lemma_idx_bound(0, 0, m as int, n as int);
                lemma_idx_distinct(0, 0, 0, j as int, n as int);
            }
            assert forall|ii: int, jj: int|
                (0 <= ii <= m && 0 <= jj < j) || (ii == 0 && jj == j) implies cell_dom(
                sv@,
                iv@,
                dv@,
                x@,
                y@,
                ii,
                jj,
                n as int,
            ) by {
                lemma_idx_bound(ii, jj, m as int, n as int);
                if ii >= 1 {
                    lemma_idx_bound(ii - 1, jj, m as int, n as int);
                }
                if jj >= 1 {
                    lemma_idx_bound(ii, jj - 1, m as int, n as int);
                }
                if ii >= 1 && jj >= 1 {
                    lemma_idx_bound(ii - 1, jj - 1, m as int, n as int);
                }
                if ii == 0 && jj == j as int {
                    lemma_idx_distinct(0, j - 1, 0, j as int, n as int);
                    assert(cell_at(sv@, 0, jj - 1, n as int) == cell_at(sv0, 0, jj - 1, n as int));
                    assert(cell_at(dv@, 0, jj - 1, n as int) == cell_at(dv0, 0, jj - 1, n as int));
                    assert(cell_at(sv@, 0, jj - 1, n as int) == s_prev@[0]);
                    assert(cell_at(dv@, 0, jj - 1, n as int) == d_prev@[0]);
                } else {
                    assert(cell_dom(sv0, iv0, dv0, x@, y@, ii, jj, n as int));
                    lemma_idx_distinct(ii, jj, 0, j as int, n as int);
                    assert(cell_at(sv@, ii, jj, n as int) == cell_at(sv0, ii, jj, n as int));
                    assert(cell_at(iv@, ii, jj, n as int) == cell_at(iv0, ii, jj, n as int));
                    assert(cell_at(dv@, ii, jj, n as int) == cell_at(dv0, ii, jj, n as int));
                    if ii >= 1 && !(ii - 1 == 0 && jj == j as int) {
                        lemma_idx_distinct(ii - 1, jj, 0, j as int, n as int);
                        assert(cell_at(sv@, ii - 1, jj, n as int) == cell_at(sv0, ii - 1, jj, n as int));
                        assert(cell_at(iv@, ii - 1, jj, n as int) == cell_at(iv0, ii - 1, jj, n as int));
                    }
                    if jj >= 1 && !(ii == 0 && jj - 1 == j as int) {
                        lemma_idx_distinct(ii, jj - 1, 0, j as int, n as int);
                        assert(cell_at(sv@, ii, jj - 1, n as int) == cell_at(sv0, ii, jj - 1, n as int));
                        assert(cell_at(dv@, ii, jj - 1, n as int) == cell_at(dv0, ii, jj - 1, n as int));
                    }
                    if ii >= 1 && jj >= 1 && !(ii - 1 == 0 && jj - 1 == j as int) {
                        lemma_idx_distinct(ii - 1, jj - 1, 0, j as int, n as int);
                        assert(cell_at(sv@, ii - 1, jj - 1, n as int) == cell_at(
                            sv0,
                            ii - 1,
                            jj - 1,
                            n as int,
                        ));
                    }
                }
            }
            assert forall|ii: int, jj: int|
                (0 <= ii <= m && 0 <= jj < j) || (ii == 0 && jj == j) implies cell_exact(
                sv@,
                iv@,
                dv@,
                sdir@,
                iext@,
                dext@,
                x@,
                y@,
                ii,
                jj,
                n as int,
            ) by {
                lemma_idx_bound(ii, jj, m as int, n as int);
                if ii >= 1 {
                    lemma_idx_bound(ii - 1, jj, m as int, n as int);
                }
                if jj >= 1 {
                    lemma_idx_bound(ii, jj - 1, m as int, n as int);
                }
                if ii >= 1 && jj >= 1 {
                    lemma_idx_bound(ii - 1, jj - 1, m as int, n as int);
                }
                if ii == 0 && jj == j as int {
                    assert(cell_at(sdir@, ii, jj, n as int) == 3u8);
                    assert(cell_at(dext@, ii, jj, n as int) == (j >= 2));
                    assert(cell_at(iext@, ii, jj, n as int) == false);
                    lemma_idx_distinct(0, j - 1, 0, j as int, n as int);
                    assert(cell_at(sv@, 0, jj - 1, n as int) == cell_at(sv0, 0, jj - 1, n as int));
                    assert(cell_at(dv@, 0, jj - 1, n as int) == cell_at(dv0, 0, jj - 1, n as int));
                    assert(cell_at(sv@, 0, jj - 1, n as int) == s_prev@[0]);
                    assert(cell_at(dv@, 0, jj - 1, n as int) == d_prev@[0]);
                } else {
                    assert(cell_exact(sv0, iv0, dv0, sd0, ie0, de0, x@, y@, ii, jj, n as int));
                    lemma_idx_distinct(ii, jj, 0, j as int, n as int);
                    assert(cell_at(sv@, ii, jj, n as int) == cell_at(sv0, ii, jj, n as int));
                    assert(cell_at(iv@, ii, jj, n as int) == cell_at(iv0, ii, jj, n as int));
                    assert(cell_at(dv@, ii, jj, n as int) == cell_at(dv0, ii, jj, n as int));
                    assert(cell_at(sdir@, ii, jj, n as int) == cell_at(sd0, ii, jj, n as int));
                    assert(cell_at(iext@, ii, jj, n as int) == cell_at(ie0, ii, jj, n as int));
                    assert(cell_at(dext@, ii, jj, n as int) == cell_at(de0, ii, jj, n as int));
                    if ii >= 1 && !(ii - 1 == 0 && jj == j as int) {
                        lemma_idx_distinct(ii - 1, jj, 0, j as int, n as int);
                        assert(cell_at(sv@, ii - 1, jj, n as int) == cell_at(sv0, ii - 1, jj, n as int));
                        assert(cell_at(iv@, ii - 1, jj, n as int) == cell_at(iv0, ii - 1, jj, n as int));
                    }
                    if jj >= 1 && !(ii == 0 && jj - 1 == j as int) {
                        lemma_idx_distinct(ii, jj - 1, 0, j as int, n as int);
                        assert(cell_at(sv@, ii, jj - 1, n as int) == cell_at(sv0, ii, jj - 1, n as int));
                        assert(cell_at(dv@, ii, jj - 1, n as int) == cell_at(dv0, ii, jj - 1, n as int));
                    }
                    if ii >= 1 && jj >= 1 && !(ii - 1 == 0 && jj - 1 == j as int) {
                        lemma_idx_distinct(ii - 1, jj - 1, 0, j as int, n as int);
                        assert(cell_at(sv@, ii - 1, jj - 1, n as int) == cell_at(
                            sv0,
                            ii - 1,
                            jj - 1,
                            n as int,
                        ));
                    }
                }
            }
        }
        proof {
            assert forall|ii: int, jj: int|
                (0 <= ii <= m && 0 <= jj < j) || (ii == 0 && jj == j) implies tb_ok(
                sdir@,
                iext@,
                dext@,
                ii,
                jj,
                n as int,
                true,
            ) by {
                lemma_idx_bound(ii, jj, m as int, n as int);
                if ii == 0 && jj == j as int {
                    assert(cell_at(sdir@, ii, jj, n as int) == 3u8);
                    assert(cell_at(dext@, ii, jj, n as int) == (j >= 2));
                    assert(cell_at(iext@, ii, jj, n as int) == false);
                } else {
                    assert(tb_ok(sd0, ie0, de0, ii, jj, n as int, true));
                    lemma_idx_distinct(ii, jj, 0, j as int, n as int);
                    assert(cell_at(sdir@, ii, jj, n as int) == cell_at(sd0, ii, jj, n as int));
                    assert(cell_at(iext@, ii, jj, n as int) == cell_at(ie0, ii, jj, n as int));
                    assert(cell_at(dext@, ii, jj, n as int) == cell_at(de0, ii, jj, n as int));
                }
            }
            assert forall|ii: int, jj: int|
                (0 <= ii <= m && 0 <= jj < j) || (ii == 0 && jj == j) implies gap_run_ok(
                sdir@,
                iext@,
                dext@,
                ii,
                jj,
                n as int,
            ) by {
                lemma_idx_bound(ii, jj, m as int, n as int);
                if ii >= 1 {
                    lemma_idx_bound(ii - 1, jj, m as int, n as int);
                }
                if jj >= 1 {
                    lemma_idx_bound(ii, jj - 1, m as int, n as int);
                }
                if ii == 0 && jj == j as int {
                    assert(cell_at(dext@, ii, jj, n as int) == (j >= 2));
                    if j < 2 {
                        assert(tb_ok(sd0, ie0, de0, 0, 0, n as int, true));
                        lemma_idx_distinct(0, 0, 0, j as int, n as int);
                        assert(cell_at(sdir@, 0, 0, n as int) == cell_at(sd0, 0, 0, n as int));
                    } else {
                        lemma_idx_distinct(0, j - 1, 0, j as int, n as int);
                        assert(cell_at(sdir@, 0, jj - 1, n as int) == cell_at(sd0, 0, jj - 1, n as int));
                        assert(tb_ok(sd0, ie0, de0, 0, jj - 1, n as int, true));
                    }
                } else {
                    assert(gap_run_ok(sd0, ie0, de0, ii, jj, n as int));
                    lemma_idx_distinct(ii, jj, 0, j as int, n as int);
                    assert(cell_at(iext@, ii, jj, n as int) == cell_at(ie0, ii, jj, n as int));
                    assert(cell_at(dext@, ii, jj, n as int) == cell_at(de0, ii, jj, n as int));
                    if ii >= 1 && !(ii - 1 == 0 && jj == j as int) {
                        lemma_idx_distinct(ii - 1, jj, 0, j as int, n as int);
                        assert(cell_at(sdir@, ii - 1, jj, n as int) == cell_at(sd0, ii - 1, jj, n as int));
                    }
                    if jj >= 1 && !(ii == 0 && jj - 1 == j as int) {
                        lemma_idx_distinct(ii, jj - 1, 0, j as int, n as int);
                        assert(cell_at(sdir@, ii, jj - 1, n as int) == cell_at(sd0, ii, jj - 1, n as int));
                    }
                }
            }
            assert forall|k: int|
                0 <= k <= m && cell_at(sdir@, k, j - 1, n as int) == 3 implies s_prev@[k]
                == d_prev@[k] by {
                lemma_idx_bound(k, j - 1, m as int, n as int);
                lemma_idx_distinct(k, j - 1, 0, j as int, n as int);
                assert(cell_at(sdir@, k, j - 1, n as int) == cell_at(sd0, k, j - 1, n as int));
            }
        }

        let q = y[j - 1];
        let mut i2: usize = 1;
        while i2 <= m
            invariant
                1 <= i2 <= m + 1,
                1 <= j <= n,
                m == x@.len() <= MAX_LEN,
                n == y@.len() <= MAX_LEN,
                seq_residues_ok(x@),
                seq_residues_ok(y@),
                is_residue(q),
                q == y@[j - 1],
                size == (m + 1) * (n + 1) <= usize::MAX,
                sdir@.len() == size,
                iext@.len() == size,
                dext@.len() == size,
                s_prev@.len() == m + 1,
                s_curr@.len() == m + 1,
                d_prev@.len() == m + 1,
                d_curr@.len() == m + 1,
                i_curr@.len() == m + 1,
                forall|k: int|
                    0 <= k <= m ==> -cb(k, j - 1) <= #[trigger] s_prev@[k] <= cb(k, j - 1),
                forall|k: int|
                    0 <= k <= m ==> #[trigger] d_prev@[k] == MIN_SCORE || -cb(k, j - 1)
                        <= d_prev@[k] <= cb(k, j - 1),
                j == 1 ==> forall|k: int| 0 <= k <= m ==> #[trigger] d_prev@[k] == MIN_SCORE,
                forall|k: int| 0 <= k < i2 ==> -cb(k, j as int) <= #[trigger] s_curr@[k] <= cb(
                    k,
                    j as int,
                ),
                i_curr@[0] == MIN_SCORE,
                forall|k: int| 1 <= k < i2 ==> -cb(k, j as int) <= #[trigger] i_curr@[k] <= cb(
                    k,
                    j as int,
                ),
                forall|k: int| 0 <= k < i2 ==> -cb(k, j as int) <= #[trigger] d_curr@[k] <= cb(
                    k,
                    j as int,
                ),
                forall|ii: int, jj: int|
                    (0 <= ii <= m && 0 <= jj < j) || (0 <= ii < i2 && jj == j) ==> tb_ok(
                        sdir@,
                        iext@,
                        dext@,
                        ii,
                        jj,
                        n as int,
                        true,
                    ),
                forall|ii: int, jj: int|
                    (0 <= ii <= m && 0 <= jj < j) || (0 <= ii < i2 && jj == j) ==> gap_run_ok(
                        sdir@,
                        iext@,
                        dext@,
                        ii,
                        jj,
                        n as int,
                    ),
                forall|k: int|
                    0 <= k <= m && #[trigger] cell_at(sdir@, k, j - 1, n as int) == 3
                        ==> s_prev@[k] == d_prev@[k],
                forall|k: int|
                    0 <= k < i2 && #[trigger] cell_at(sdir@, k, j as int, n as int) == 2
                        ==> s_curr@[k] == i_curr@[k],
                forall|k: int|
                    0 <= k < i2 && #[trigger] cell_at(sdir@, k, j as int, n as int) == 3
                        ==> s_curr@[k] == d_curr@[k],
                sv@.len() == size,
                iv@.len() == size,
                dv@.len() == size,
                cell_at(sv@, 0, 0, n as int) == 0,
                s_curr@[0] == d_curr@[0],
                forall|k: int| 0 <= k <= m ==> s_prev@[k] == cell_at(sv@, k, j - 1, n as int),
                forall|k: int| 0 <= k <= m ==> d_prev@[k] == cell_at(dv@, k, j - 1, n as int),
                forall|k: int| 0 <= k < i2 ==> s_curr@[k] == cell_at(sv@, k, j as int, n as int),
                forall|k: int| 0 <= k < i2 ==> i_curr@[k] == cell_at(iv@, k, j as int, n as int),
                forall|k: int| 0 <= k < i2 ==> d_curr@[k] == cell_at(dv@, k, j as int, n as int),
                forall|ii: int, jj: int|
                    (0 <= ii <= m && 0 <= jj < j) || (0 <= ii < i2 && jj == j) ==> cell_dom(
                        sv@,
                        iv@,
                        dv@,
                        x@,
                        y@,
                        ii,
                        jj,
                        n as int,
                    ),
                forall|ii: int, jj: int|
                    (0 <= ii <= m && 0 <= jj < j) || (0 <= ii < i2 && jj == j) ==> cell_exact(
                        sv@,
                        iv@,
                        dv@,
                        sdir@,
                        iext@,
                        dext@,
                        x@,
                        y@,
                        ii,
                        jj,
                        n as int,
                    ),
            decreases m + 1 - i2,
        {
            let ghost sd0 = sdir@;
            let ghost ie0 = iext@;
            let ghost de0 = dext@;
            proof {
                lemma_idx_bound(i2 as int, j as int, m as int, n as int);
            }
            let p = x[i2 - 1];
            let sub = blosum62(p, q);
            let m_score = s_prev[i2 - 1] + sub;

            let i_open = s_curr[i2 - 1] + GAP_OPEN;
            let i_ext = i_curr[i2 - 1] + GAP_EXTEND;
            let best_i: i32;
            let ie_new: bool;
            if i_ext > i_open {
                best_i = i_ext;
                ie_new = true;
            } else {
                best_i = i_open;
                ie_new = false;
            }

            let d_open = s_prev[i2] + GAP_OPEN;
            let d_ext = d_prev[i2] + GAP_EXTEND;
            let best_d: i32;
            let de_new: bool;
            if d_ext > d_open {
                best_d = d_ext;
                de_new = true;
            } else {
                best_d = d_open;
                de_new = false;
            }

            let mut best = m_score;
            let mut dir: u8 = 1;
            if best_i > best {
                best = best_i;
                dir = 2;
            }
            if best_d > best {
                best = best_d;
                dir = 3;
            }

            s_curr[i2] = best;
            i_curr[i2] = best_i;
            d_curr[i2] = best_d;
            let pos = i2 * (n + 1) + j;
            sdir[pos] = dir;
            iext[pos] = ie_new;
            dext[pos] = de_new;
            let ghost sv0 = sv@;
            let ghost iv0 = iv@;
            let ghost dv0 = dv@;
            sv[pos] = best;
            iv[pos] = best_i;
            dv[pos] = best_d;
            proof {
                assert(ie_new ==> i2 >= 2);
                assert(de_new ==> j >= 2);
                assert(cell_at(sv@, 0, 0, n as int) == cell_at(sv0, 0, 0, n as int)) by {
                    lemma_idx_bound(0, 0, m as int, n as int);
                    lemma_idx_distinct(0, 0, i2 as int, j as int, n as int);
                }
                assert forall|k: int| 0 <= k <= m implies s_prev@[k] == cell_at(
                    sv@,
                    k,
                    j - 1,
                    n as int,
                ) by {
                    lemma_idx_bound(k, j - 1, m as int, n as int);
                    lemma_idx_distinct(k, j - 1, i2 as int, j as int, n as int);
                    assert(cell_at(sv@, k, j - 1, n as int) == cell_at(sv0, k, j - 1, n as int));
                }
                assert forall|k: int| 0 <= k <= m implies d_prev@[k] == cell_at(
                    dv@,
                    k,
                    j - 1,
                    n as int,
                ) by {
                    lemma_idx_bound(k, j - 1, m as int, n as int);
                    lemma_idx_distinct(k, j - 1, i2 as int, j as int, n as int);
                    assert(cell_at(dv@, k, j - 1, n as int) == cell_at(dv0, k, j - 1, n as int));
                }
                assert forall|k: int| 0 <= k < i2 + 1 implies s_curr@[k] == cell_at(
                    sv@,
                    k,
                    j as int,
                    n as int,
                ) && i_curr@[k] == cell_at(iv@, k, j as int, n as int) && d_curr@[k] == cell_at(
                    dv@,
                    k,
                    j as int,
                    n as int,
                ) by {
                    lemma_idx_bound(k, j as int, m as int, n as int);
                    if k != i2 as int {
                        lemma_idx_distinct(k, j as int, i2 as int, j as int, n as int);
                        assert(cell_at(sv@, k, j as int, n as int) == cell_at(sv0, k, j as int, n as int));
                        assert(cell_at(iv@, k, j as int, n as int) == cell_at(iv0, k, j as int, n as int));
                        assert(cell_at(dv@, k, j as int, n as int) == cell_at(dv0, k, j as int, n as int));
                    }
                }
                assert forall|ii: int, jj: int|
                    (0 <= ii <= m && 0 <= jj < j) || (0 <= ii < i2 + 1 && jj == j) implies cell_dom(
                    sv@,
                    iv@,
                    dv@,
                    x@,
                    y@,
                    ii,
                    jj,
                    n as int,
                ) by {
                    lemma_idx_bound(ii, jj, m as int, n as int);
                    if ii >= 1 {
                        lemma_idx_bound(ii - 1, jj, m as int, n as int);
                    }
                    if jj >= 1 {
                        lemma_idx_bound(ii, jj - 1, m as int, n as int);
                    }
                    if ii >= 1 && jj >= 1 {
                        lemma_idx_bound(ii - 1, jj - 1, m as int, n as int);
                    }
                    if ii == i2 as int && jj == j as int {
                        assert(cell_at(sv@, ii, jj, n as int) == best);
                        assert(cell_at(iv@, ii, jj, n as int) == best_i);
                        assert(cell_at(dv@, ii, jj, n as int) == best_d);
                        lemma_idx_distinct(ii - 1, jj, i2 as int, j as int, n as int);
                        assert(cell_at(sv@, ii - 1, jj, n as int) == cell_at(sv0, ii - 1, jj, n as int));
                        assert(cell_at(iv@, ii - 1, jj, n as int) == cell_at(iv0, ii - 1, jj, n as int));
                        lemma_idx_distinct(ii, jj - 1, i2 as int, j as int, n as int);
                        assert(cell_at(sv@, ii, jj - 1, n as int) == cell_at(sv0, ii, jj - 1, n as int));
                        assert(cell_at(dv@, ii, jj - 1, n as int) == cell_at(dv0, ii, jj - 1, n as int));
                        lemma_idx_distinct(ii - 1, jj - 1, i2 as int, j as int, n as int);
                        assert(cell_at(sv@, ii - 1, jj - 1, n as int) == cell_at(
                            sv0,
                            ii - 1,
                            jj - 1,
                            n as int,
                        ));
                        assert(cell_at(sv@, ii - 1, jj - 1, n as int) == s_prev@[i2 - 1]);
                        assert(cell_at(sv@, ii - 1, jj, n as int) == s_curr@[i2 - 1]);
                        assert(cell_at(iv@, ii - 1, jj, n as int) == i_curr@[i2 - 1]);
                        assert(cell_at(dv@, ii, jj - 1, n as int) == d_prev@[i2 as int]);
                        assert(cell_at(sv@, ii, jj - 1, n as int) == s_prev@[i2 as int]);
                    } else {
                        assert(cell_dom(sv0, iv0, dv0, x@, y@, ii, jj, n as int));
                        lemma_idx_distinct(ii, jj, i2 as int, j as int, n as int);
                        assert(cell_at(sv@, ii, jj, n as int) == cell_at(sv0, ii, jj, n as int));
                        assert(cell_at(iv@, ii, jj, n as int) == cell_at(iv0, ii, jj, n as int));
                        assert(cell_at(dv@, ii, jj, n as int) == cell_at(dv0, ii, jj, n as int));
                        if ii >= 1 && !(ii - 1 == i2 as int && jj == j as int) {
                            lemma_idx_distinct(ii - 1, jj, i2 as int, j as int, n as int);
                            assert(cell_at(sv@, ii - 1, jj, n as int) == cell_at(sv0, ii - 1, jj, n as int));
                            assert(cell_at(iv@, ii - 1, jj, n as int) == cell_at(iv0, ii - 1, jj, n as int));
                        }
                        if jj >= 1 && !(ii == i2 as int && jj - 1 == j as int) {
                            lemma_idx_distinct(ii, jj - 1, i2 as int, j as int, n as int);
                            assert(cell_at(sv@, ii, jj - 1, n as int) == cell_at(sv0, ii, jj - 1, n as int));
                            assert(cell_at(dv@, ii, jj - 1, n as int) == cell_at(dv0, ii, jj - 1, n as int));
                        }
                        if ii >= 1 && jj >= 1 && !(ii - 1 == i2 as int && jj - 1 == j as int) {
                            lemma_idx_distinct(ii - 1, jj - 1, i2 as int, j as int, n as int);
                            assert(cell_at(sv@, ii - 1, jj - 1, n as int) == cell_at(
                                sv0,
                                ii - 1,
                                jj - 1,
                                n as int,
                            ));
                        }
                    }
                }
                assert forall|ii: int, jj: int|
                    (0 <= ii <= m && 0 <= jj < j) || (0 <= ii < i2 + 1 && jj == j) implies cell_exact(
                    sv@,
                    iv@,
                    dv@,
                    sdir@,
                    iext@,
                    dext@,
                    x@,
                    y@,
                    ii,
                    jj,
                    n as int,
                ) by {
                    lemma_idx_bound(ii, jj, m as int, n as int);
                    if ii >= 1 {
                        lemma_idx_bound(ii - 1, jj, m as int, n as int);
                    }
                    if jj >= 1 {
                        lemma_idx_bound(ii, jj - 1, m as int, n as int);
                    }
                    if ii >= 1 && jj >= 1 {
                        lemma_idx_bound(ii - 1, jj - 1, m as int, n as int);
                    }
                    if ii == i2 as int && jj == j as int {
                        assert(cell_at(sv@, ii, jj, n as int) == best);
                        assert(cell_at(iv@, ii, jj, n as int) == best_i);
                        assert(cell_at(dv@, ii, jj, n as int) == best_d);
                        assert(cell_at(sdir@, ii, jj, n as int) == dir);
                        assert(cell_at(iext@, ii, jj, n as int) == ie_new);
                        assert(cell_at(dext@, ii, jj, n as int) == de_new);
                        lemma_idx_distinct(ii - 1, jj, i2 as int, j as int, n as int);
                        assert(cell_at(sv@, ii - 1, jj, n as int) == cell_at(sv0, ii - 1, jj, n as int));
                        assert(cell_at(iv@, ii - 1, jj, n as int) == cell_at(iv0, ii - 1, jj, n as int));
                        lemma_idx_distinct(ii, jj - 1, i2 as int, j as int, n as int);
                        assert(cell_at(sv@, ii, jj - 1, n as int) == cell_at(sv0, ii, jj - 1, n as int));
                        assert(cell_at(dv@, ii, jj - 1, n as int) == cell_at(dv0, ii, jj - 1, n as int));
                        lemma_idx_distinct(ii - 1, jj - 1, i2 as int, j as int, n as int);
                        assert(cell_at(sv@, ii - 1, jj - 1, n as int) == cell_at(
                            sv0,
                            ii - 1,
                            jj - 1,
                            n as int,
                        ));
                        assert(cell_at(sv@, ii - 1, jj - 1, n as int) == s_prev@[i2 - 1]);
                        assert(cell_at(sv@, ii - 1, jj, n as int) == s_curr@[i2 - 1]);
                        assert(cell_at(iv@, ii - 1, jj, n as int) == i_curr@[i2 - 1]);
                        assert(cell_at(dv@, ii, jj - 1, n as int) == d_prev@[i2 as int]);
                        assert(cell_at(sv@, ii, jj - 1, n as int) == s_prev@[i2 as int]);
                    } else {
                        assert(cell_exact(sv0, iv0, dv0, sd0, ie0, de0, x@, y@, ii, jj, n as int));
                        lemma_idx_distinct(ii, jj, i2 as int, j as int, n as int);
                        assert(cell_at(sv@, ii, jj, n as int) == cell_at(sv0, ii, jj, n as int));
                        assert(cell_at(iv@, ii, jj, n as int) == cell_at(iv0, ii, jj, n as int));
                        assert(cell_at(dv@, ii, jj, n as int) == cell_at(dv0, ii, jj, n as int));
                        assert(cell_at(sdir@, ii, jj, n as int) == cell_at(sd0, ii, jj, n as int));
                        assert(cell_at(iext@, ii, jj, n as int) == cell_at(ie0, ii, jj, n as int));
                        assert(cell_at(dext@, ii, jj, n as int) == cell_at(de0, ii, jj, n as int));
                        if ii >= 1 && !(ii - 1 == i2 as int && jj == j as int) {
                            lemma_idx_distinct(ii - 1, jj, i2 as int, j as int, n as int);
                            assert(cell_at(sv@, ii - 1, jj, n as int) == cell_at(sv0, ii - 1, jj, n as int));
                            assert(cell_at(iv@, ii - 1, jj, n as int) == cell_at(iv0, ii - 1, jj, n as int));
                        }
                        if jj >= 1 && !(ii == i2 as int && jj - 1 == j as int) {
                            lemma_idx_distinct(ii, jj - 1, i2 as int, j as int, n as int);
                            assert(cell_at(sv@, ii, jj - 1, n as int) == cell_at(sv0, ii, jj - 1, n as int));
                            assert(cell_at(dv@, ii, jj - 1, n as int) == cell_at(dv0, ii, jj - 1, n as int));
                        }
                        if ii >= 1 && jj >= 1 && !(ii - 1 == i2 as int && jj - 1 == j as int) {
                            lemma_idx_distinct(ii - 1, jj - 1, i2 as int, j as int, n as int);
                            assert(cell_at(sv@, ii - 1, jj - 1, n as int) == cell_at(
                                sv0,
                                ii - 1,
                                jj - 1,
                                n as int,
                            ));
                        }
                    }
                }
                assert forall|ii: int, jj: int|
                    (0 <= ii <= m && 0 <= jj < j) || (0 <= ii < i2 + 1 && jj == j) implies tb_ok(
                    sdir@,
                    iext@,
                    dext@,
                    ii,
                    jj,
                    n as int,
                    true,
                ) by {
                    lemma_idx_bound(ii, jj, m as int, n as int);
                    if ii == i2 as int && jj == j as int {
                        assert(cell_at(sdir@, ii, jj, n as int) == dir);
                        assert(cell_at(iext@, ii, jj, n as int) == ie_new);
                        assert(cell_at(dext@, ii, jj, n as int) == de_new);
                    } else {
                        assert(tb_ok(sd0, ie0, de0, ii, jj, n as int, true));
                        lemma_idx_distinct(ii, jj, i2 as int, j as int, n as int);
                        assert(cell_at(sdir@, ii, jj, n as int) == cell_at(sd0, ii, jj, n as int));
                        assert(cell_at(iext@, ii, jj, n as int) == cell_at(ie0, ii, jj, n as int));
                        assert(cell_at(dext@, ii, jj, n as int) == cell_at(de0, ii, jj, n as int));
                    }
                }
                assert forall|k: int|
                    0 <= k <= m && #[trigger] cell_at(sdir@, k, j - 1, n as int) == 3
                        implies s_prev@[k] == d_prev@[k] by {
                    lemma_idx_bound(k, j - 1, m as int, n as int);
                    lemma_idx_distinct(k, j - 1, i2 as int, j as int, n as int);
                    assert(cell_at(sdir@, k, j - 1, n as int) == cell_at(sd0, k, j - 1, n as int));
                }
                assert forall|k: int|
                    0 <= k < i2 + 1 && #[trigger] cell_at(sdir@, k, j as int, n as int) == 2
                        implies s_curr@[k] == i_curr@[k] by {
                    lemma_idx_bound(k, j as int, m as int, n as int);
                    if k != i2 as int {
                        lemma_idx_distinct(k, j as int, i2 as int, j as int, n as int);
                        assert(cell_at(sdir@, k, j as int, n as int) == cell_at(sd0, k, j as int, n as int));
                    }
                }
                assert forall|k: int|
                    0 <= k < i2 + 1 && #[trigger] cell_at(sdir@, k, j as int, n as int) == 3
                        implies s_curr@[k] == d_curr@[k] by {
                    lemma_idx_bound(k, j as int, m as int, n as int);
                    if k != i2 as int {
                        lemma_idx_distinct(k, j as int, i2 as int, j as int, n as int);
                        assert(cell_at(sdir@, k, j as int, n as int) == cell_at(sd0, k, j as int, n as int));
                    }
                }
                assert forall|ii: int, jj: int|
                    (0 <= ii <= m && 0 <= jj < j) || (0 <= ii < i2 + 1 && jj == j) implies gap_run_ok(
                    sdir@,
                    iext@,
                    dext@,
                    ii,
                    jj,
                    n as int,
                ) by {
                    lemma_idx_bound(ii, jj, m as int, n as int);
                    if ii >= 1 {
                        lemma_idx_bound(ii - 1, jj, m as int, n as int);
                    }
                    if jj >= 1 {
                        lemma_idx_bound(ii, jj - 1, m as int, n as int);
                    }
                    if ii == i2 as int && jj == j as int {
                        assert(cell_at(iext@, ii, jj, n as int) == ie_new);
                        assert(cell_at(dext@, ii, jj, n as int) == de_new);
                        if !ie_new {
                            assert(cell_at(sdir@, ii - 1, jj, n as int) == cell_at(sd0, ii - 1, jj, n as int))
                                by {
                                lemma_idx_distinct(ii - 1, jj, i2 as int, j as int, n as int);
                            }
                            if i2 == 1 {
                                assert(tb_ok(sdir@, iext@, dext@, 0, j as int, n as int, true));
                            } else {
                                assert(cell_at(sd0, i2 - 1, j as int, n as int) == 2 ==> s_curr@[i2 - 1]
                                    == i_curr@[i2 - 1]);
                            }
                        }
                        if !de_new {
                            assert(cell_at(sdir@, ii, jj - 1, n as int) == cell_at(sd0, ii, jj - 1, n as int))
                                by {
                                lemma_idx_distinct(ii, jj - 1, i2 as int, j as int, n as int);
                            }
                            if j == 1 {
                                assert(tb_ok(sdir@, iext@, dext@, i2 as int, 0, n as int, true));
                            } else {
                                assert(cell_at(sd0, i2 as int, j - 1, n as int) == 3 ==> s_prev@[i2 as int]
                                    == d_prev@[i2 as int]);
                            }
                        }
                    } else {
                        assert(gap_run_ok(sd0, ie0, de0, ii, jj, n as int));
                        lemma_idx_distinct(ii, jj, i2 as int, j as int, n as int);
                        assert(cell_at(iext@, ii, jj, n as int) == cell_at(ie0, ii, jj, n as int));
                        assert(cell_at(dext@, ii, jj, n as int) == cell_at(de0, ii, jj, n as int));
                        if ii >= 1 && !(ii - 1 == i2 as int && jj == j as int) {
                            lemma_idx_distinct(ii - 1, jj, i2 as int, j as int, n as int);
                            assert(cell_at(sdir@, ii - 1, jj, n as int) == cell_at(sd0, ii - 1, jj, n as int));
                        }
                        if jj >= 1 && !(ii == i2 as int && jj - 1 == j as int) {
                            lemma_idx_distinct(ii, jj - 1, i2 as int, j as int, n as int);
                            assert(cell_at(sdir@, ii, jj - 1, n as int) == cell_at(sd0, ii, jj - 1, n as int));
                        }
                    }
                }
            }
            i2 = i2 + 1;
        }
        std::mem::swap(&mut s_prev, &mut s_curr);
        std::mem::swap(&mut d_prev, &mut d_curr);
        j = j + 1;
    }

    // Traceback from the bottom-right corner to the origin, accumulating the
    // affine-gap score of the trace as it is emitted: each gap operation is
    // charged as an extension exactly when its gap layer extends.
    let mut rev: Vec<AlignmentOperation> = Vec::new();
    let mut li: usize = m;
    let mut lj: usize = n;
    let mut layer: u8 = 0;
    let mut ts: i32 = 0;
    proof {
        assert(rev_of(rev@) =~= Seq::<AlignmentOperation>::empty());
    }
    loop
        invariant
            li <= m,
            lj <= n,
            m == x@.len() <= MAX_LEN,
            n == y@.len() <= MAX_LEN,
            seq_residues_ok(x@),
            seq_residues_ok(y@),
            layer == 0 || layer == 2 || layer == 3,
            layer == 2 ==> li >= 1,
            layer == 3 ==> lj >= 1,
            size == (m + 1) * (n + 1) <= usize::MAX,
            sdir@.len() == size,
            iext@.len() == size,
            dext@.len() == size,
            forall|ii: int, jj: int|
                0 <= ii <= m && 0 <= jj <= n ==> tb_ok(sdir@, iext@, dext@, ii, jj, n as int, true),
            forall|ii: int, jj: int|
                0 <= ii <= m && 0 <= jj <= n ==> gap_run_ok(sdir@, iext@, dext@, ii, jj, n as int),
            sv@.len() == size,
            iv@.len() == size,
            dv@.len() == size,
            cell_at(sv@, 0, 0, n as int) == 0,
            forall|ii: int, jj: int|
                0 <= ii <= m && 0 <= jj <= n ==> cell_dom(sv@, iv@, dv@, x@, y@, ii, jj, n as int),
            forall|ii: int, jj: int|
                0 <= ii <= m && 0 <= jj <= n ==> cell_exact(
                    sv@,
                    iv@,
                    dv@,
                    sdir@,
                    iext@,
                    dext@,
                    x@,
                    y@,
                    ii,
                    jj,
                    n as int,
                ),
            trace_ok(x@, y@, rev_of(rev@), li as int, lj as int, m as int, n as int),
            rev@.len() <= (m - li) + (n - lj),
            ts as int == trace_score(
                rev_of(rev@),
                x@,
                y@,
                li as int,
                lj as int,
                layer == 2,
                layer == 3,
            ),
            -16 * rev@.len() <= ts as int <= 16 * rev@.len(),
            cell_at(sv@, m as int, n as int, n as int) as int == ts as int + (if layer == 0 {
                cell_at(sv@, li as int, lj as int, n as int) as int
            } else if layer == 2 {
                cell_at(iv@, li as int, lj as int, n as int) as int
            } else {
                cell_at(dv@, li as int, lj as int, n as int) as int
            }),
            (layer == 0 && rev@.len() > 0 && rev_of(rev@)[0] is Ins) ==> cell_at(
                sdir@,
                li as int,
                lj as int,
                n as int,
            ) != 2,
            (layer == 0 && rev@.len() > 0 && rev_of(rev@)[0] is Del) ==> cell_at(
                sdir@,
                li as int,
                lj as int,
                n as int,
            ) != 3,
        ensures
            trace_ok(x@, y@, rev_of(rev@), 0, 0, m as int, n as int),
            rev@.len() <= m + n,
            ts as int == trace_score(rev_of(rev@), x@, y@, 0, 0, false, false),
            ts as int == cell_at(sv@, m as int, n as int, n as int) as int,
        decreases li + lj, (if layer == 0 { 1int } else { 0int }),
    {
        let ghost rev0 = rev@;
        if layer == 0 {
            proof {
                lemma_idx_bound(li as int, lj as int, m as int, n as int);
                assert(tb_ok(sdir@, iext@, dext@, li as int, lj as int, n as int, true));
            }
            let d = sdir[li * (n + 1) + lj];
            proof {
                assert(d == cell_at(sdir@, li as int, lj as int, n as int));
                assert(cell_exact(
                    sv@,
                    iv@,
                    dv@,
                    sdir@,
                    iext@,
                    dext@,
                    x@,
                    y@,
                    li as int,
                    lj as int,
                    n as int,
                ));
            }
            if d == 0 {
                proof {
                    assert(li == 0 && lj == 0);
                }
                break ;
            } else if d == 1 {
                let sub = blosum62(x[li - 1], y[lj - 1]);
                let op = if x[li - 1] == y[lj - 1] {
                    AlignmentOperation::Match
                } else {
                    AlignmentOperation::Subst
                };
                rev.push(op);
                ts = ts + sub;
                proof {
                    lemma_rev_push(rev0, op);
                    assert(trace_ok(
                        x@,
                        y@,
                        rev_of(rev@),
                        li as int - 1,
                        lj as int - 1,
                        m as int,
                        n as int,
                    ));
                    assert(trace_score(
                        rev_of(rev@),
                        x@,
                        y@,
                        li as int - 1,
                        lj as int - 1,
                        false,
                        false,
                    ) == blosum62_spec(x@[li as int - 1], y@[lj as int - 1]) + trace_score(
                        rev_of(rev0),
                        x@,
                        y@,
                        li as int,
                        lj as int,
                        false,
                        false,
                    ));
                }
                li = li - 1;
                lj = lj - 1;
            } else if d == 2 {
                proof {
                    if rev@.len() > 0 && rev_of(rev@)[0] is Ins {
                        assert(false);
                    }
                    lemma_trace_score_gx(rev_of(rev@), x@, y@, li as int, lj as int, false);
                }
                layer = 2;
            } else {
                proof {
                    if rev@.len() > 0 && rev_of(rev@)[0] is Del {
                        assert(false);
                    }
                    lemma_trace_score_gy(rev_of(rev@), x@, y@, li as int, lj as int, false);
                }
                layer = 3;
            }
        } else if layer == 2 {
            proof {
                lemma_idx_bound(li as int, lj as int, m as int, n as int);
                assert(tb_ok(sdir@, iext@, dext@, li as int, lj as int, n as int, true));
                assert(gap_run_ok(sdir@, iext@, dext@, li as int, lj as int, n as int));
                assert(cell_exact(
                    sv@,
                    iv@,
                    dv@,
                    sdir@,
                    iext@,
                    dext@,
                    x@,
                    y@,
                    li as int,
                    lj as int,
                    n as int,
                ));
            }
            let e = iext[li * (n + 1) + lj];
            proof {
                assert(e == cell_at(iext@, li as int, lj as int, n as int));
            }
            rev.push(AlignmentOperation::Ins);
            ts = ts + (if e {
                GAP_EXTEND
            } else {
                GAP_OPEN
            });
            proof {
                lemma_rev_push(rev0, AlignmentOperation::Ins);
                assert(trace_ok(
                    x@,
                    y@,
                    rev_of(rev@),
                    li as int - 1,
                    lj as int,
                    m as int,
                    n as int,
                ));
                assert(trace_score(rev_of(rev@), x@, y@, li as int - 1, lj as int, e, false) == (
                if e {
                    GAP_EXTEND as int
                } else {
                    GAP_OPEN as int
                }) + trace_score(rev_of(rev0), x@, y@, li as int, lj as int, true, false));
            }
            li = li - 1;
            if !e {
                layer = 0;
            }
        } else {
            proof {
                lemma_idx_bound(li as int, lj as int, m as int, n as int);
                assert(tb_ok(sdir@, iext@, dext@, li as int, lj as int, n as int, true));
                assert(gap_run_ok(sdir@, iext@, dext@, li as int, lj as int, n as int));
                assert(cell_exact(
                    sv@,
                    iv@,
                    dv@,
                    sdir@,
                    iext@,
                    dext@,
                    x@,
                    y@,
                    li as int,
                    lj as int,
                    n as int,
                ));
            }
            let e = dext[li * (n + 1) + lj];
            proof {
                assert(e == cell_at(dext@, li as int, lj as int, n as int));
            }
            rev.push(AlignmentOperation::Del);
            ts = ts + (if e {
                GAP_EXTEND
            } else {
                GAP_OPEN
            });
            proof {
                lemma_rev_push(rev0, AlignmentOperation::Del);
                assert(trace_ok(
                    x@,
                    y@,
                    rev_of(rev@),
                    li as int,
                    lj as int - 1,
                    m as int,
                    n as int,
                ));
                assert(trace_score(rev_of(rev@), x@, y@, li as int, lj as int - 1, false, e) == (
                if e {
                    GAP_EXTEND as int
                } else {
                    GAP_OPEN as int
                }) + trace_score(rev_of(rev0), x@, y@, li as int, lj as int, false, true));
            }
            lj = lj - 1;
            if !e {
                layer = 0;
            }
        }
    }
    let score = ts;
    proof {
        assert forall|ops2: Seq<AlignmentOperation>|
            trace_ok(x@, y@, ops2, 0, 0, m as int, n as int) implies trace_score(
            ops2,
            x@,
            y@,
            0,
            0,
            false,
            false,
        ) <= score as int by {
            lemma_dp_dominates(
                sv@,
                iv@,
                dv@,
                x@,
                y@,
                ops2,
                0,
                0,
                m as int,
                n as int,
                false,
                false,
                m as int,
                n as int,
            );
        }
    }

    // The trace was collected back to front; reverse it.
    let mut operations: Vec<AlignmentOperation> = Vec::new();
    let mut k: usize = rev.len();
    while k > 0
        invariant
            k <= rev@.len(),
            operations@.len() == rev@.len() - k,
            forall|t: int| 0 <= t < operations@.len() ==> operations@[t] == rev@[rev@.len() - 1 - t],
        decreases k,
    {
        k = k - 1;
        operations.push(rev[k]);
    }
    proof {
        assert(operations@ =~= rev_of(rev@));
        lemma_trace_counts(x@, y@, operations@, 0, 0, m as int, n as int);
    }
    Alignment {
        score,
        xstart: 0,
        xend: m,
        ystart: 0,
        yend: n,
        xlen: m,
        ylen: n,
        operations,
        mode: AlignmentMode::Global,
    }
}

/// Smith-Waterman alignment with affine gaps: the best-scoring pair of
/// contiguous regions is reported, cells reset to zero rather than go
/// negative, the traceback starts at the maximum-scoring cell and stops at
/// the first zero cell, and a non-positive maximum yields the empty
/// alignment with score zero.
#[verifier::rlimit(100)]
pub(crate) fn align_local(x: &[u8], y: &[u8]) -> (r: Alignment)
    requires
        seq_residues_ok(x@),
        seq_residues_ok(y@),
        x@.len() <= MAX_LEN,
        y@.len() <= MAX_LEN,
        (x@.len() + 1) * (y@.len() + 1) <= usize::MAX,
    ensures
        r.wf(),
        r.valid_for(x@, y@),
        r.score >= 0,
        r.score == 0 ==> r.xstart == r.xend && r.ystart == r.yend && r.operations@.len() == 0,
        forall|ops2: Seq<AlignmentOperation>, xs: int, ys: int, xe2: int, ye2: int|
            0 <= xs && 0 <= ys && xe2 <= x@.len() && ye2 <= y@.len() && trace_ok(
                x@,
                y@,
                ops2,
                xs,
                ys,
                xe2,
                ye2,
            ) ==> trace_score(ops2, x@, y@, xs, ys, false, false) <= r.score,
        r.score as int == trace_score(
            r.operations@,
            x@,
            y@,
            r.xstart as int,
            r.ystart as int,
            false,
            false,
        ),
        r.xlen == x@.len(),
        r.ylen == y@.len(),
        r.operations@.len() <= x@.len() + y@.len(),
        r.mode == AlignmentMode::Local,
{
    let m = x.len();
    let n = y.len();
    proof {
        lemma_idx_bound(m as int, n as int, m as int, n as int);
    }
    let size = (m + 1) * (n + 1);
    let mut sdir: Vec<u8> = vec![0u8; size];
    let mut iext: Vec<bool> = vec![false; size];
    let mut dext: Vec<bool> = vec![false; size];
    let mut s_prev: Vec<i32> = vec![0i32; m + 1];
    let mut s_curr: Vec<i32> = vec![0i32; m + 1];
    let mut d_prev: Vec<i32> = vec![MIN_SCORE; m + 1];
    let mut d_curr: Vec<i32> = vec![MIN_SCORE; m + 1];
    let mut i_curr: Vec<i32> = vec![MIN_SCORE; m + 1];
    let mut bv: i32 = 0;
    let mut bi: usize = 0;
    let mut bj: usize = 0;
    let mut sv: Vec<i32> = vec![0i32; size];
    let mut iv: Vec<i32> = vec![MIN_SCORE; size];
    let mut dv: Vec<i32> = vec![MIN_SCORE; size];

    proof {
        assert forall|ii: int, jj: int| 0 <= ii <= m && 0 <= jj <= n implies tb_ok(
            sdir@,
            iext@,
            dext@,
            ii,
            jj,
            n as int,
            false,
        ) by {
            lemma_idx_bound(ii, jj, m as int, n as int);
            assert(cell_at(sdir@, ii, jj, n as int) == 0u8);
            assert(cell_at(iext@, ii, jj, n as int) == false);
            assert(cell_at(dext@, ii, jj, n as int) == false);
        }
    }

    // Column 0 of the score layer holds only zero-score stop cells; its gap
    // layer consuming the first sequence opens from one of them at each row.
    let mut i0: usize = 1;
    while i0 <= m
        invariant
            1 <= i0 <= m + 1,
            m == x@.len() <= MAX_LEN,
            n == y@.len() <= MAX_LEN,
            size == (m + 1) * (n + 1) <= usize::MAX,
            iv@.len() == size,
            forall|ii: int| 1 <= ii < i0 ==> cell_at(iv@, ii, 0, n as int) == GAP_OPEN,
            cell_at(iv@, 0, 0, n as int) == MIN_SCORE,
        decreases m + 1 - i0,
    {
        let ghost iv0 = iv@;
        proof {
            lemma_idx_bound(i0 as int, 0, m as int, n as int);
        }
        iv[i0 * (n + 1)] = GAP_OPEN;
        proof {
            assert forall|ii: int| 1 <= ii < i0 + 1 implies cell_at(iv@, ii, 0, n as int)
                == GAP_OPEN by {
                lemma_idx_bound(ii, 0, m as int, n as int);
                if ii != i0 as int {
                    lemma_idx_distinct(ii, 0, i0 as int, 0, n as int);
                    assert(cell_at(iv@, ii, 0, n as int) == cell_at(iv0, ii, 0, n as int));
                }
            }
            assert(cell_at(iv@, 0, 0, n as int) == cell_at(iv0, 0, 0, n as int)) by {
                lemma_idx_bound(0, 0, m as int, n as int);
                lemma_idx_distinct(0, 0, i0 as int, 0, n as int);
            }
        }
        i0 = i0 + 1;
    }

    proof {
        assert forall|ii: int, jj: int| 0 <= ii <= m && jj == 0 implies cell_dom(
            sv@,
            iv@,
            dv@,
            x@,
            y@,
            ii,
            jj,
            n as int,
        ) by {
            lemma_idx_bound(ii, jj, m as int, n as int);
            if ii >= 1 {
                lemma_idx_bound(ii - 1, jj, m as int, n as int);
                assert(cell_at(iv@, ii, 0, n as int) == GAP_OPEN);
                if ii >= 2 {
                    assert(cell_at(iv@, ii - 1, 0, n as int) == GAP_OPEN);
                } else {
                    assert(cell_at(iv@, 0, 0, n as int) == MIN_SCORE);
                }
            }
        }
        assert forall|k: int| 0 <= k <= m implies s_prev@[k] == cell_at(sv@, k, 0, n as int) by {
            lemma_idx_bound(k, 0, m as int, n as int);
        }
        assert forall|k: int| 0 <= k <= m implies d_prev@[k] == cell_at(dv@, k, 0, n as int) by {
            lemma_idx_bound(k, 0, m as int, n as int);
        }
        assert forall|ii: int, jj: int| 0 <= ii <= m && jj == 0 implies 0 <= #[trigger] cell_at(
            sv@,
            ii,
            jj,
            n as int,
        ) && cell_at(sv@, ii, jj, n as int) as int <= bv as int by {
            lemma_idx_bound(ii, jj, m as int, n as int);
        }
        assert forall|ii: int, jj: int| 0 <= ii <= m && jj == 0 implies cell_exact(
            sv@,
            iv@,
            dv@,
            sdir@,
            iext@,
            dext@,
            x@,
            y@,
            ii,
            jj,
            n as int,
        ) by {
            lemma_idx_bound(ii, jj, m as int, n as int);
            if ii >= 1 {
                lemma_idx_bound(ii - 1, jj, m as int, n as int);
                assert(cell_at(iv@, ii, 0, n as int) == GAP_OPEN);
            }
        }
        assert forall|jj: int| 0 <= jj <= n implies cell_at(sdir@, 0, jj, n as int) == 0u8 by {
            lemma_idx_bound(0, jj, m as int, n as int);
        }
        assert forall|ii: int| 0 <= ii <= m implies cell_at(sdir@, ii, 0, n as int) == 0u8 by {
            lemma_idx_bound(ii, 0, m as int, n as int);
        }
        assert forall|jj: int| 0 <= jj <= n implies cell_at(dext@, 0, jj, n as int) == false by {
            lemma_idx_bound(0, jj, m as int, n as int);
        }
        assert forall|ii: int| 0 <= ii <= m implies cell_at(iext@, ii, 0, n as int) == false by {
            lemma_idx_bound(ii, 0, m as int, n as int);
        }
        lemma_idx_bound(0, 0, m as int, n as int);
    }

    // Every score cell of column 0 is a zero-score stop cell.
    let mut j: usize = 1;
    while j <= n
        invariant
            1 <= j <= n + 1,
            m == x@.len() <= MAX_LEN,
            n == y@.len() <= MAX_LEN,
            seq_residues_ok(x@),
            seq_residues_ok(y@),
            size == (m + 1) * (n + 1) <= usize::MAX,
            sdir@.len() == size,
            iext@.len() == size,
            dext@.len() == size,
            s_prev@.len() == m + 1,
            s_curr@.len() == m + 1,
            d_prev@.len() == m + 1,
            d_curr@.len() == m + 1,
            i_curr@.len() == m + 1,
            forall|k: int| 0 <= k <= m ==> 0 <= #[trigger] s_prev@[k] <= cb(k, j - 1),
            forall|k: int|
                0 <= k <= m ==> #[trigger] d_prev@[k] == MIN_SCORE || -cb(k, j - 1) <= d_prev@[k]
                    <= cb(k, j - 1),
            j == 1 ==> forall|k: int| 0 <= k <= m ==> #[trigger] d_prev@[k] == MIN_SCORE,
            sv@.len() == size,
            iv@.len() == size,
            dv@.len() == size,
            s_prev@[0] == 0,
            j >= 2 ==> d_prev@[0] == GAP_OPEN,
            bj < j,
            forall|jj: int| 0 <= jj <= n ==> cell_at(sdir@, 0, jj, n as int) == 0u8,
            forall|ii: int| 0 <= ii <= m ==> cell_at(sdir@, ii, 0, n as int) == 0u8,
            forall|jj: int| 0 <= jj <= n ==> cell_at(dext@, 0, jj, n as int) == false,
            forall|ii: int| 0 <= ii <= m ==> cell_at(iext@, ii, 0, n as int) == false,
            bv as int == cell_at(sv@, bi as int, bj as int, n as int) as int,
            forall|k: int| 0 <= k <= m ==> s_prev@[k] == cell_at(sv@, k, j - 1, n as int),
            forall|k: int| 0 <= k <= m ==> d_prev@[k] == cell_at(dv@, k, j - 1, n as int),
            forall|ii: int, jj: int|
                0 <= ii <= m && 0 <= jj < j ==> cell_dom(sv@, iv@, dv@, x@, y@, ii, jj, n as int),
            forall|ii: int, jj: int|
                0 <= ii <= m && 0 <= jj < j ==> cell_exact(
                    sv@,
                    iv@,
                    dv@,
                    sdir@,
                    iext@,
                    dext@,
                    x@,
                    y@,
                    ii,
                    jj,
                    n as int,
                ),
            forall|ii: int, jj: int|
                0 <= ii <= m && 0 <= jj < j ==> 0 <= #[trigger] cell_at(sv@, ii, jj, n as int)
                    && cell_at(sv@, ii, jj, n as int) as int <= bv as int,
            forall|ii: int, jj: int|
                0 <= ii <= m && 0 <= jj <= n ==> tb_ok(sdir@, iext@, dext@, ii, jj, n as int, false),
            bv >= 0,
            bi <= m,
            bj <= n,
        decreases n + 1 - j,
    {
        d_curr[0] = GAP_OPEN;
        s_curr[0] = 0;
        i_curr[0] = MIN_SCORE;
        let ghost sv0 = sv@;
        let ghost iv0 = iv@;
        let ghost dv0 = dv@;
        proof {
            lemma_idx_bound(0, j as int, m as int, n as int);
        }
        sv[j] = 0;
        iv[j] = MIN_SCORE;
        dv[j] = GAP_OPEN;
        proof {
            assert forall|k: int| 0 <= k <= m implies s_prev@[k] == cell_at(sv@, k, j - 1, n as int)
                by {
                lemma_idx_bound(k, j - 1, m as int, n as int);
                lemma_idx_distinct(k, j - 1, 0, j as int, n as int);
                assert(cell_at(sv@, k, j - 1, n as int) == cell_at(sv0, k, j - 1, n as int));
            }
            assert forall|k: int| 0 <= k <= m implies d_prev@[k] == cell_at(dv@, k, j - 1, n as int)
                by {
                lemma_idx_bound(k, j - 1, m as int, n as int);
                lemma_idx_distinct(k, j - 1, 0, j as int, n as int);
                assert(cell_at(dv@, k, j - 1, n as int) == cell_at(dv0, k, j - 1, n as int));
            }
            assert(bv as int == cell_at(sv@, bi as int, bj as int, n as int) as int) by {
                lemma_idx_bound(bi as int, bj as int, m as int, n as int);
                lemma_idx_distinct(bi as int, bj as int, 0, j as int, n as int);
                assert(cell_at(sv@, bi as int, bj as int, n as int) == cell_at(
                    sv0,
                    bi as int,
                    bj as int,
                    n as int,
                ));
            }
            assert forall|ii: int, jj: int|
                (0 <= ii <= m && 0 <= jj < j) || (ii == 0 && jj == j) implies cell_dom(
                sv@,
                iv@,
                dv@,
                x@,
                y@,
                ii,
                jj,
                n as int,
            ) by {
                lemma_idx_bound(ii, jj, m as int, n as int);
                if ii >= 1 {
                    lemma_idx_bound(ii - 1, jj, m as int, n as int);
                }
                if jj >= 1 {
                    lemma_idx_bound(ii, jj - 1, m as int, n as int);
                }
                if ii >= 1 && jj >= 1 {
                    lemma_idx_bound(ii - 1, jj - 1, m as int, n as int);
                }
                if ii == 0 && jj == j as int {
                    lemma_idx_distinct(0, j - 1, 0, j as int, n as int);
                    assert(cell_at(sv@, 0, jj - 1, n as int) == cell_at(sv0, 0, jj - 1, n as int));
                    assert(cell_at(dv@, 0, jj - 1, n as int) == cell_at(dv0, 0, jj - 1, n as int));
                    assert(cell_at(sv@, 0, jj - 1, n as int) == s_prev@[0]);
                    assert(cell_at(dv@, 0, jj - 1, n as int) == d_prev@[0]);
                } else {
                    assert(cell_dom(sv0, iv0, dv0, x@, y@, ii, jj, n as int));
                    lemma_idx_distinct(ii, jj, 0, j as int, n as int);
                    assert(cell_at(sv@, ii, jj, n as int) == cell_at(sv0, ii, jj, n as int));
                    assert(cell_at(iv@, ii, jj, n as int) == cell_at(iv0, ii, jj, n as int));
                    assert(cell_at(dv@, ii, jj, n as int) == cell_at(dv0, ii, jj, n as int));
                    if ii >= 1 && !(ii - 1 == 0 && jj == j as int) {
                        lemma_idx_distinct(ii - 1, jj, 0, j as int, n as int);
                        assert(cell_at(sv@, ii - 1, jj, n as int) == cell_at(sv0, ii - 1, jj, n as int));
                        assert(cell_at(iv@, ii - 1, jj, n as int) == cell_at(iv0, ii - 1, jj, n as int));
                    }
                    if jj >= 1 && !(ii == 0 && jj - 1 == j as int) {
                        lemma_idx_distinct(ii, jj - 1, 0, j as int, n as int);
                        assert(cell_at(sv@, ii, jj - 1, n as int) == cell_at(sv0, ii, jj - 1, n as int));
                        assert(cell_at(dv@, ii, jj - 1, n as int) == cell_at(dv0, ii, jj - 1, n as int));
                    }
                    if ii >= 1 && jj >= 1 && !(ii - 1 == 0 && jj - 1 == j as int) {
                        lemma_idx_distinct(ii - 1, jj - 1, 0, j as int, n as int);
                        assert(cell_at(sv@, ii - 1, jj - 1, n as int) == cell_at(
                            sv0,
                            ii - 1,
                            jj - 1,
                            n as int,
                        ));
                    }
                }
            }
            assert forall|ii: int, jj: int|
                (0 <= ii <= m && 0 <= jj < j) || (ii == 0 && jj == j) implies 0 <= #[trigger] cell_at(
                sv@,
                ii,
                jj,
                n as int,
            ) && cell_at(sv@, ii, jj, n as int) as int <= bv as int by {
                lemma_idx_bound(ii, jj, m as int, n as int);
                if !(ii == 0 && jj == j as int) {
                    lemma_idx_distinct(ii, jj, 0, j as int, n as int);
                    assert(cell_at(sv@, ii, jj, n as int) == cell_at(sv0, ii, jj, n as int));
                }
            }
            assert forall|ii: int, jj: int|
                (0 <= ii <= m && 0 <= jj < j) || (ii == 0 && jj == j) implies cell_exact(
                sv@,
                iv@,
                dv@,
                sdir@,
                iext@,
                dext@,
                x@,
                y@,
                ii,
                jj,
                n as int,
            ) by {
                lemma_idx_bound(ii, jj, m as int, n as int);
                if ii >= 1 {
                    lemma_idx_bound(ii - 1, jj, m as int, n as int);
                }
                if jj >= 1 {
                    lemma_idx_bound(ii, jj - 1, m as int, n as int);
                }
                if ii >= 1 && jj >= 1 {
                    lemma_idx_bound(ii - 1, jj - 1, m as int, n as int);
                }
                if ii == 0 && jj == j as int {
                    assert(cell_at(sdir@, 0, jj, n as int) == 0u8);
                    lemma_idx_distinct(0, j - 1, 0, j as int, n as int);
                    assert(cell_at(sv@, 0, jj - 1, n as int) == cell_at(sv0, 0, jj - 1, n as int));
                    assert(cell_at(sv@, 0, jj - 1, n as int) == s_prev@[0]);
                } else {
                    assert(cell_exact(sv0, iv0, dv0, sdir@, iext@, dext@, x@, y@, ii, jj, n as int));
                    lemma_idx_distinct(ii, jj, 0, j as int, n as int);
                    assert(cell_at(sv@, ii, jj, n as int) == cell_at(sv0, ii, jj, n as int));
                    assert(cell_at(iv@, ii, jj, n as int) == cell_at(iv0, ii, jj, n as int));
                    assert(cell_at(dv@, ii, jj, n as int) == cell_at(dv0, ii, jj, n as int));
                    if ii >= 1 && !(ii - 1 == 0 && jj == j as int) {
                        lemma_idx_distinct(ii - 1, jj, 0, j as int, n as int);
                        assert(cell_at(sv@, ii - 1, jj, n as int) == cell_at(sv0, ii - 1, jj, n as int));
                        assert(cell_at(iv@, ii - 1, jj, n as int) == cell_at(iv0, ii - 1, jj, n as int));
                    }
                    if jj >= 1 && !(ii == 0 && jj - 1 == j as int) {
                        lemma_idx_distinct(ii, jj - 1, 0, j as int, n as int);
                        assert(cell_at(sv@, ii, jj - 1, n as int) == cell_at(sv0, ii, jj - 1, n as int));
                        assert(cell_at(dv@, ii, jj - 1, n as int) == cell_at(dv0, ii, jj - 1, n as int));
                    }
                    if ii >= 1 && jj >= 1 && !(ii - 1 == 0 && jj - 1 == j as int) {
                        lemma_idx_distinct(ii - 1, jj - 1, 0, j as int, n as int);
                        assert(cell_at(sv@, ii - 1, jj - 1, n as int) == cell_at(
                            sv0,
                            ii - 1,
                            jj - 1,
                            n as int,
                        ));
                    }
                }
            }
        }

        let q = y[j - 1];
        let mut i2: usize = 1;
        while i2 <= m
            invariant
                1 <= i2 <= m + 1,
                1 <= j <= n,
                m == x@.len() <= MAX_LEN,
                n == y@.len() <= MAX_LEN,
                seq_residues_ok(x@),
                seq_residues_ok(y@),
                is_residue(q),
                q == y@[j - 1],
                size == (m + 1) * (n + 1) <= usize::MAX,
                sdir@.len() == size,
                iext@.len() == size,
                dext@.len() == size,
                s_prev@.len() == m + 1,
                s_curr@.len() == m + 1,
                d_prev@.len() == m + 1,
                d_curr@.len() == m + 1,
                i_curr@.len() == m + 1,
                forall|k: int| 0 <= k <= m ==> 0 <= #[trigger] s_prev@[k] <= cb(k, j - 1),
                forall|k: int|
                    0 <= k <= m ==> #[trigger] d_prev@[k] == MIN_SCORE || -cb(k, j - 1)
                        <= d_prev@[k] <= cb(k, j - 1),
                j == 1 ==> forall|k: int| 0 <= k <= m ==> #[trigger] d_prev@[k] == MIN_SCORE,
                forall|k: int| 0 <= k < i2 ==> 0 <= #[trigger] s_curr@[k] <= cb(k, j as int),
                s_curr@[0] == 0,
                sv@.len() == size,
                iv@.len() == size,
                dv@.len() == size,
                bj <= j,
                bj == j ==> bi < i2,
                forall|jj: int| 0 <= jj <= n ==> cell_at(sdir@, 0, jj, n as int) == 0u8,
                forall|ii: int| 0 <= ii <= m ==> cell_at(sdir@, ii, 0, n as int) == 0u8,
                forall|jj: int| 0 <= jj <= n ==> cell_at(dext@, 0, jj, n as int) == false,
                forall|ii: int| 0 <= ii <= m ==> cell_at(iext@, ii, 0, n as int) == false,
                bv as int == cell_at(sv@, bi as int, bj as int, n as int) as int,
                forall|k: int| 0 <= k <= m ==> s_prev@[k] == cell_at(sv@, k, j - 1, n as int),
                forall|k: int| 0 <= k <= m ==> d_prev@[k] == cell_at(dv@, k, j - 1, n as int),
                forall|k: int| 0 <= k < i2 ==> s_curr@[k] == cell_at(sv@, k, j as int, n as int),
                forall|k: int| 0 <= k < i2 ==> i_curr@[k] == cell_at(iv@, k, j as int, n as int),
                forall|k: int| 0 <= k < i2 ==> d_curr@[k] == cell_at(dv@, k, j as int, n as int),
                forall|ii: int, jj: int|
                    (0 <= ii <= m && 0 <= jj < j) || (0 <= ii < i2 && jj == j) ==> cell_dom(
                        sv@,
                        iv@,
                        dv@,
                        x@,
                        y@,
                        ii,
                        jj,
                        n as int,
                    ),
                forall|ii: int, jj: int|
                    (0 <= ii <= m && 0 <= jj < j) || (0 <= ii < i2 && jj == j) ==> cell_exact(
                        sv@,
                        iv@,
                        dv@,
                        sdir@,
                        iext@,
                        dext@,
                        x@,
                        y@,
                        ii,
                        jj,
                        n as int,
                    ),
                forall|ii: int, jj: int|
                    (0 <= ii <= m && 0 <= jj < j) || (0 <= ii < i2 && jj == j) ==> 0
                        <= #[trigger] cell_at(sv@, ii, jj, n as int) && cell_at(
                        sv@,
                        ii,
                        jj,
                        n as int,
                    ) as int <= bv as int,
                i_curr@[0] == MIN_SCORE,
                forall|k: int| 1 <= k < i2 ==> -cb(k, j as int) <= #[trigger] i_curr@[k] <= cb(
                    k,
                    j as int,
                ),
                d_curr@[0] == GAP_OPEN,
                forall|k: int| 1 <= k < i2 ==> -cb(k, j as int) <= #[trigger] d_curr@[k] <= cb(
                    k,
                    j as int,
                ),
                forall|ii: int, jj: int|
                    0 <= ii <= m && 0 <= jj <= n ==> tb_ok(
                        sdir@,
                        iext@,
                        dext@,
                        ii,
                        jj,
                        n as int,
                        false,
                    ),
                bv >= 0,
                bi <= m,
                bj <= n,
            decreases m + 1 - i2,
        {
            let ghost sd0 = sdir@;
            let ghost ie0 = iext@;
            let ghost de0 = dext@;
            proof {
                lemma_idx_bound(i2 as int, j as int, m as int, n as int);
            }
            let p = x[i2 - 1];
            let sub = blosum62(p, q);
            let m_score = s_prev[i2 - 1] + sub;

            let i_open = s_curr[i2 - 1] + GAP_OPEN;
            let i_ext = i_curr[i2 - 1] + GAP_EXTEND;
            let best_i: i32;
            let ie_new: bool;
            if i_ext > i_open {
                best_i = i_ext;
                ie_new = true;
            } else {
                best_i = i_open;
                ie_new = false;
            }

            let d_open = s_prev[i2] + GAP_OPEN;
            let d_ext = d_prev[i2] + GAP_EXTEND;
            let best_d: i32;
            let de_new: bool;
            if d_ext > d_open {
                best_d = d_ext;
                de_new = true;
            } else {
                best_d = d_open;
                de_new = false;
            }

            let mut best: i32 = 0;
            let mut dir: u8 = 0;
            if m_score > best {
                best = m_score;
                dir = 1;
            }
            if best_i > best {
                best = best_i;
                dir = 2;
            }
            if best_d > best {
                best = best_d;
                dir = 3;
            }

            s_curr[i2] = best;
            i_curr[i2] = best_i;
            d_curr[i2] = best_d;
            let pos = i2 * (n + 1) + j;
            sdir[pos] = dir;
            iext[pos] = ie_new;
            dext[pos] = de_new;
            let ghost sv0 = sv@;
            let ghost iv0 = iv@;
            let ghost dv0 = dv@;
            sv[pos] = best;
            iv[pos] = best_i;
            dv[pos] = best_d;
            if best > bv {
                bv = best;
                bi = i2;
                bj = j;
            }
            proof {
                assert(ie_new ==> i2 >= 2);
                assert(de_new ==> j >= 2);
                assert forall|k: int| 0 <= k <= m implies s_prev@[k] == cell_at(
                    sv@,
                    k,
                    j - 1,
                    n as int,
                ) by {
                    lemma_idx_bound(k, j - 1, m as int, n as int);
                    lemma_idx_distinct(k, j - 1, i2 as int, j as int, n as int);
                    assert(cell_at(sv@, k, j - 1, n as int) == cell_at(sv0, k, j - 1, n as int));
                }
                assert forall|k: int| 0 <= k <= m implies d_prev@[k] == cell_at(
                    dv@,
                    k,
                    j - 1,
                    n as int,
                ) by {
                    lemma_idx_bound(k, j - 1, m as int, n as int);
                    lemma_idx_distinct(k, j - 1, i2 as int, j as int, n as int);
                    assert(cell_at(dv@, k, j - 1, n as int) == cell_at(dv0, k, j - 1, n as int));
                }
                assert forall|k: int| 0 <= k < i2 + 1 implies s_curr@[k] == cell_at(
                    sv@,
                    k,
                    j as int,
                    n as int,
                ) && i_curr@[k] == cell_at(iv@, k, j as int, n as int) && d_curr@[k] == cell_at(
                    dv@,
                    k,
                    j as int,
                    n as int,
                ) by {
                    lemma_idx_bound(k, j as int, m as int, n as int);
                    if k != i2 as int {
                        lemma_idx_distinct(k, j as int, i2 as int, j as int, n as int);
                        assert(cell_at(sv@, k, j as int, n as int) == cell_at(sv0, k, j as int, n as int));
                        assert(cell_at(iv@, k, j as int, n as int) == cell_at(iv0, k, j as int, n as int));
                        assert(cell_at(dv@, k, j as int, n as int) == cell_at(dv0, k, j as int, n as int));
                    }
                }
                assert(bv as int == cell_at(sv@, bi as int, bj as int, n as int) as int) by {
                    lemma_idx_bound(bi as int, bj as int, m as int, n as int);
                    if !(bi == i2 && bj == j) {
                        lemma_idx_distinct(bi as int, bj as int, i2 as int, j as int, n as int);
                        assert(cell_at(sv@, bi as int, bj as int, n as int) == cell_at(
                            sv0,
                            bi as int,
                            bj as int,
                            n as int,
                        ));
                    }
                }
                assert forall|ii: int, jj: int|
                    (0 <= ii <= m && 0 <= jj < j) || (0 <= ii < i2 + 1 && jj == j) implies cell_dom(
                    sv@,
                    iv@,
                    dv@,
                    x@,
                    y@,
                    ii,
                    jj,
                    n as int,
                ) by {
                    lemma_idx_bound(ii, jj, m as int, n as int);
                    if ii >= 1 {
                        lemma_idx_bound(ii - 1, jj, m as int, n as int);
                    }
                    if jj >= 1 {
                        lemma_idx_bound(ii, jj - 1, m as int, n as int);
                    }
                    if ii >= 1 && jj >= 1 {
                        lemma_idx_bound(ii - 1, jj - 1, m as int, n as int);
                    }
                    if ii == i2 as int && jj == j as int {
                        assert(cell_at(sv@, ii, jj, n as int) == best);
                        assert(cell_at(iv@, ii, jj, n as int) == best_i);
                        assert(cell_at(dv@, ii, jj, n as int) == best_d);
                        lemma_idx_distinct(ii - 1, jj, i2 as int, j as int, n as int);
                        assert(cell_at(sv@, ii - 1, jj, n as int) == cell_at(sv0, ii - 1, jj, n as int));
                        assert(cell_at(iv@, ii - 1, jj, n as int) == cell_at(iv0, ii - 1, jj, n as int));
                        lemma_idx_distinct(ii, jj - 1, i2 as int, j as int, n as int);
                        assert(cell_at(sv@, ii, jj - 1, n as int) == cell_at(sv0, ii, jj - 1, n as int));
                        assert(cell_at(dv@, ii, jj - 1, n as int) == cell_at(dv0, ii, jj - 1, n as int));
                        lemma_idx_distinct(ii - 1, jj - 1, i2 as int, j as int, n as int);
                        assert(cell_at(sv@, ii - 1, jj - 1, n as int) == cell_at(
                            sv0,
                            ii - 1,
                            jj - 1,
                            n as int,
                        ));
                        assert(cell_at(sv@, ii - 1, jj - 1, n as int) == s_prev@[i2 - 1]);
                        assert(cell_at(sv@, ii - 1, jj, n as int) == s_curr@[i2 - 1]);
                        assert(cell_at(iv@, ii - 1, jj, n as int) == i_curr@[i2 - 1]);
                        assert(cell_at(dv@, ii, jj - 1, n as int) == d_prev@[i2 as int]);
                        assert(cell_at(sv@, ii, jj - 1, n as int) == s_prev@[i2 as int]);
                    } else {
                        assert(cell_dom(sv0, iv0, dv0, x@, y@, ii, jj, n as int));
                        lemma_idx_distinct(ii, jj, i2 as int, j as int, n as int);
                        assert(cell_at(sv@, ii, jj, n as int) == cell_at(sv0, ii, jj, n as int));
                        assert(cell_at(iv@, ii, jj, n as int) == cell_at(iv0, ii, jj, n as int));
                        assert(cell_at(dv@, ii, jj, n as int) == cell_at(dv0, ii, jj, n as int));
                        if ii >= 1 && !(ii - 1 == i2 as int && jj == j as int) {
                            lemma_idx_distinct(ii - 1, jj, i2 as int, j as int, n as int);
                            assert(cell_at(sv@, ii - 1, jj, n as int) == cell_at(sv0, ii - 1, jj, n as int));
                            assert(cell_at(iv@, ii - 1, jj, n as int) == cell_at(iv0, ii - 1, jj, n as int));
                        }
                        if jj >= 1 && !(ii == i2 as int && jj - 1 == j as int) {
                            lemma_idx_distinct(ii, jj - 1, i2 as int, j as int, n as int);
                            assert(cell_at(sv@, ii, jj - 1, n as int) == cell_at(sv0, ii, jj - 1, n as int));
                            assert(cell_at(dv@, ii, jj - 1, n as int) == cell_at(dv0, ii, jj - 1, n as int));
                        }
                        if ii >= 1 && jj >= 1 && !(ii - 1 == i2 as int && jj - 1 == j as int) {
                            lemma_idx_distinct(ii - 1, jj - 1, i2 as int, j as int, n as int);
                            assert(cell_at(sv@, ii - 1, jj - 1, n as int) == cell_at(
                                sv0,
                                ii - 1,
                                jj - 1,
                                n as int,
                            ));
                        }
                    }
                }
                assert forall|ii: int, jj: int|
                    (0 <= ii <= m && 0 <= jj < j) || (0 <= ii < i2 + 1 && jj == j) implies 0
                    <= #[trigger] cell_at(sv@, ii, jj, n as int) && cell_at(
                    sv@,
                    ii,
                    jj,
                    n as int,
                ) as int <= bv as int by {
                    lemma_idx_bound(ii, jj, m as int, n as int);
                    if !(ii == i2 as int && jj == j as int) {
                        lemma_idx_distinct(ii, jj, i2 as int, j as int, n as int);
                        assert(cell_at(sv@, ii, jj, n as int) == cell_at(sv0, ii, jj, n as int));
                    }
                }
                assert forall|jj: int| 0 <= jj <= n implies cell_at(sdir@, 0, jj, n as int) == 0u8
                    && cell_at(dext@, 0, jj, n as int) == false by {
                    lemma_idx_bound(0, jj, m as int, n as int);
                    lemma_idx_distinct(0, jj, i2 as int, j as int, n as int);
                    assert(cell_at(sdir@, 0, jj, n as int) == cell_at(sd0, 0, jj, n as int));
                    assert(cell_at(dext@, 0, jj, n as int) == cell_at(de0, 0, jj, n as int));
                }
                assert forall|ii: int| 0 <= ii <= m implies cell_at(sdir@, ii, 0, n as int) == 0u8
                    && cell_at(iext@, ii, 0, n as int) == false by {
                    lemma_idx_bound(ii, 0, m as int, n as int);
                    lemma_idx_distinct(ii, 0, i2 as int, j as int, n as int);
                    assert(cell_at(sdir@, ii, 0, n as int) == cell_at(sd0, ii, 0, n as int));
                    assert(cell_at(iext@, ii, 0, n as int) == cell_at(ie0, ii, 0, n as int));
                }
                assert forall|ii: int, jj: int|
                    (0 <= ii <= m && 0 <= jj < j) || (0 <= ii < i2 + 1 && jj == j) implies cell_exact(
                    sv@,
                    iv@,
                    dv@,
                    sdir@,
                    iext@,
                    dext@,
                    x@,
                    y@,
                    ii,
                    jj,
                    n as int,
                ) by {
                    lemma_idx_bound(ii, jj, m as int, n as int);
                    if ii >= 1 {
                        lemma_idx_bound(ii - 1, jj, m as int, n as int);
                    }
                    if jj >= 1 {
                        lemma_idx_bound(ii, jj - 1, m as int, n as int);
                    }
                    if ii >= 1 && jj >= 1 {
                        lemma_idx_bound(ii - 1, jj - 1, m as int, n as int);
                    }
                    if ii == i2 as int && jj == j as int {
                        assert(cell_at(sv@, ii, jj, n as int) == best);
                        assert(cell_at(iv@, ii, jj, n as int) == best_i);
                        assert(cell_at(dv@, ii, jj, n as int) == best_d);
                        assert(cell_at(sdir@, ii, jj, n as int) == dir);
                        assert(cell_at(iext@, ii, jj, n as int) == ie_new);
                        assert(cell_at(dext@, ii, jj, n as int) == de_new);
                        lemma_idx_distinct(ii - 1, jj, i2 as int, j as int, n as int);
                        assert(cell_at(sv@, ii - 1, jj, n as int) == cell_at(sv0, ii - 1, jj, n as int));
                        assert(cell_at(iv@, ii - 1, jj, n as int) == cell_at(iv0, ii - 1, jj, n as int));
                        lemma_idx_distinct(ii, jj - 1, i2 as int, j as int, n as int);
                        assert(cell_at(sv@, ii, jj - 1, n as int) == cell_at(sv0, ii, jj - 1, n as int));
                        assert(cell_at(dv@, ii, jj - 1, n as int) == cell_at(dv0, ii, jj - 1, n as int));
                        lemma_idx_distinct(ii - 1, jj - 1, i2 as int, j as int, n as int);
                        assert(cell_at(sv@, ii - 1, jj - 1, n as int) == cell_at(
                            sv0,
                            ii - 1,
                            jj - 1,
                            n as int,
                        ));
                        assert(cell_at(sv@, ii - 1, jj - 1, n as int) == s_prev@[i2 - 1]);
                        assert(cell_at(sv@, ii - 1, jj, n as int) == s_curr@[i2 - 1]);
                        assert(cell_at(iv@, ii - 1, jj, n as int) == i_curr@[i2 - 1]);
                        assert(cell_at(dv@, ii, jj - 1, n as int) == d_prev@[i2 as int]);
                        assert(cell_at(sv@, ii, jj - 1, n as int) == s_prev@[i2 as int]);
                    } else {
                        assert(cell_exact(sv0, iv0, dv0, sd0, ie0, de0, x@, y@, ii, jj, n as int));
                        lemma_idx_distinct(ii, jj, i2 as int, j as int, n as int);
                        assert(cell_at(sv@, ii, jj, n as int) == cell_at(sv0, ii, jj, n as int));
                        assert(cell_at(iv@, ii, jj, n as int) == cell_at(iv0, ii, jj, n as int));
                        assert(cell_at(dv@, ii, jj, n as int) == cell_at(dv0, ii, jj, n as int));
                        assert(cell_at(sdir@, ii, jj, n as int) == cell_at(sd0, ii, jj, n as int));
                        assert(cell_at(iext@, ii, jj, n as int) == cell_at(ie0, ii, jj, n as int));
                        assert(cell_at(dext@, ii, jj, n as int) == cell_at(de0, ii, jj, n as int));
                        if ii >= 1 && !(ii - 1 == i2 as int && jj == j as int) {
                            lemma_idx_distinct(ii - 1, jj, i2 as int, j as int, n as int);
                            assert(cell_at(sv@, ii - 1, jj, n as int) == cell_at(sv0, ii - 1, jj, n as int));
                            assert(cell_at(iv@, ii - 1, jj, n as int) == cell_at(iv0, ii - 1, jj, n as int));
                        }
                        if jj >= 1 && !(ii == i2 as int && jj - 1 == j as int) {
                            lemma_idx_distinct(ii, jj - 1, i2 as int, j as int, n as int);
                            assert(cell_at(sv@, ii, jj - 1, n as int) == cell_at(sv0, ii, jj - 1, n as int));
                            assert(cell_at(dv@, ii, jj - 1, n as int) == cell_at(dv0, ii, jj - 1, n as int));
                        }
                        if ii >= 1 && jj >= 1 && !(ii - 1 == i2 as int && jj - 1 == j as int) {
                            lemma_idx_distinct(ii - 1, jj - 1, i2 as int, j as int, n as int);
                            assert(cell_at(sv@, ii - 1, jj - 1, n as int) == cell_at(
                                sv0,
                                ii - 1,
                                jj - 1,
                                n as int,
                            ));
                        }
                    }
                }
                assert forall|ii: int, jj: int| 0 <= ii <= m && 0 <= jj <= n implies tb_ok(
                    sdir@,
                    iext@,
                    dext@,
                    ii,
                    jj,
                    n as int,
                    false,
                ) by {
                    lemma_idx_bound(ii, jj, m as int, n as int);
                    if ii == i2 as int && jj == j as int {
                        assert(cell_at(sdir@, ii, jj, n as int) == dir);
                        assert(cell_at(iext@, ii, jj, n as int) == ie_new);
                        assert(cell_at(dext@, ii, jj, n as int) == de_new);
                    } else {
                        assert(tb_ok(sd0, ie0, de0, ii, jj, n as int, false));
                        lemma_idx_distinct(ii, jj, i2 as int, j as int, n as int);
                        assert(cell_at(sdir@, ii, jj, n as int) == cell_at(sd0, ii, jj, n as int));
                        assert(cell_at(iext@, ii, jj, n as int) == cell_at(ie0, ii, jj, n as int));
                        assert(cell_at(dext@, ii, jj, n as int) == cell_at(de0, ii, jj, n as int));
                    }
                }
            }
            i2 = i2 + 1;
        }
        std::mem::swap(&mut s_prev, &mut s_curr);
        std::mem::swap(&mut d_prev, &mut d_curr);
        j = j + 1;
    }

    proof {
        assert forall|ops2: Seq<AlignmentOperation>, xs: int, ys: int, xe2: int, ye2: int|
            0 <= xs && 0 <= ys && xe2 <= m && ye2 <= n && trace_ok(
                x@,
                y@,
                ops2,
                xs,
                ys,
                xe2,
                ye2,
            ) implies trace_score(ops2, x@, y@, xs, ys, false, false) <= bv as int by {
            lemma_trace_counts(x@, y@, ops2, xs, ys, xe2, ye2);
            lemma_counts_bound(ops2);
            lemma_dp_dominates(
                sv@,
                iv@,
                dv@,
                x@,
                y@,
                ops2,
                xs,
                ys,
                xe2,
                ye2,
                false,
                false,
                m as int,
                n as int,
            );
            assert(0 <= cell_at(sv@, xs, ys, n as int));
            assert(cell_at(sv@, xe2, ye2, n as int) as int <= bv as int);
        }
    }

    if bv <= 0 {
        let operations: Vec<AlignmentOperation> = Vec::new();
        return Alignment {
            score: 0,
            xstart: 0,
            xend: 0,
            ystart: 0,
            yend: 0,
            xlen: m,
            ylen: n,
            operations,
            mode: AlignmentMode::Local,
        };
    }

    // Traceback from the best cell to the first stop cell, accumulating the
    // affine-gap score of the trace as it is emitted.
    let mut rev: Vec<AlignmentOperation> = Vec::new();
    let mut li: usize = bi;
    let mut lj: usize = bj;
    let mut layer: u8 = 0;
    let mut ts: i32 = 0;
    proof {
        assert(rev_of(rev@) =~= Seq::<AlignmentOperation>::empty());
    }
    loop
        invariant
            li <= bi,
            lj <= bj,
            bi <= m,
            bj <= n,
            m == x@.len() <= MAX_LEN,
            n == y@.len() <= MAX_LEN,
            seq_residues_ok(x@),
            seq_residues_ok(y@),
            layer == 0 || layer == 2 || layer == 3,
            layer == 2 ==> li >= 1,
            layer == 3 ==> lj >= 1,
            size == (m + 1) * (n + 1) <= usize::MAX,
            sdir@.len() == size,
            iext@.len() == size,
            dext@.len() == size,
            sv@.len() == size,
            iv@.len() == size,
            dv@.len() == size,
            forall|ii: int, jj: int|
                0 <= ii <= m && 0 <= jj <= n ==> tb_ok(sdir@, iext@, dext@, ii, jj, n as int, false),
            forall|ii: int, jj: int|
                0 <= ii <= m && 0 <= jj <= n ==> cell_dom(sv@, iv@, dv@, x@, y@, ii, jj, n as int),
            forall|ii: int, jj: int|
                0 <= ii <= m && 0 <= jj <= n ==> cell_exact(
                    sv@,
                    iv@,
                    dv@,
                    sdir@,
                    iext@,
                    dext@,
                    x@,
                    y@,
                    ii,
                    jj,
                    n as int,
                ),
            bv as int == cell_at(sv@, bi as int, bj as int, n as int) as int,
            trace_ok(x@, y@, rev_of(rev@), li as int, lj as int, bi as int, bj as int),
            rev@.len() <= (bi - li) + (bj - lj),
            ts as int == trace_score(
                rev_of(rev@),
                x@,
                y@,
                li as int,
                lj as int,
                layer == 2,
                layer == 3,
            ),
            -16 * rev@.len() <= ts as int <= 16 * rev@.len(),
            bv as int == ts as int + (if layer == 0 {
                cell_at(sv@, li as int, lj as int, n as int) as int
            } else if layer == 2 {
                cell_at(iv@, li as int, lj as int, n as int) as int
            } else {
                cell_at(dv@, li as int, lj as int, n as int) as int
            }),
            (layer == 0 && rev@.len() > 0 && rev_of(rev@)[0] is Ins) ==> cell_at(
                sdir@,
                li as int,
                lj as int,
                n as int,
            ) != 2,
            (layer == 0 && rev@.len() > 0 && rev_of(rev@)[0] is Del) ==> cell_at(
                sdir@,
                li as int,
                lj as int,
                n as int,
            ) != 3,
        ensures
            li <= bi <= m,
            lj <= bj <= n,
            trace_ok(x@, y@, rev_of(rev@), li as int, lj as int, bi as int, bj as int),
            rev@.len() <= m + n,
            bv as int == ts as int,
            ts as int == trace_score(rev_of(rev@), x@, y@, li as int, lj as int, false, false),
        decreases li + lj, (if layer == 0 { 1int } else { 0int }),
    {
        let ghost rev0 = rev@;
        if layer == 0 {
            proof {
                lemma_idx_bound(li as int, lj as int, m as int, n as int);
                assert(tb_ok(sdir@, iext@, dext@, li as int, lj as int, n as int, false));
            }
            let d = sdir[li * (n + 1) + lj];
            proof {
                assert(d == cell_at(sdir@, li as int, lj as int, n as int));
                assert(cell_exact(
                    sv@,
                    iv@,
                    dv@,
                    sdir@,
                    iext@,
                    dext@,
                    x@,
                    y@,
                    li as int,
                    lj as int,
                    n as int,
                ));
            }
            if d == 0 {
                proof {
                    assert(cell_at(sv@, li as int, lj as int, n as int) == 0);
                }
                break ;
            } else if d == 1 {
                let sub = blosum62(x[li - 1], y[lj - 1]);
                let op = if x[li - 1] == y[lj - 1] {
                    AlignmentOperation::Match
                } else {
                    AlignmentOperation::Subst
                };
                rev.push(op);
                ts = ts + sub;
                proof {
                    lemma_rev_push(rev0, op);
                    assert(trace_ok(
                        x@,
                        y@,
                        rev_of(rev@),
                        li as int - 1,
                        lj as int - 1,
                        bi as int,
                        bj as int,
                    ));
                    assert(trace_score(
                        rev_of(rev@),
                        x@,
                        y@,
                        li as int - 1,
                        lj as int - 1,
                        false,
                        false,
                    ) == blosum62_spec(x@[li as int - 1], y@[lj as int - 1]) + trace_score(
                        rev_of(rev0),
                        x@,
                        y@,
                        li as int,
                        lj as int,
                        false,
                        false,
                    ));
                }
                li = li - 1;
                lj = lj - 1;
            } else if d == 2 {
                proof {
                    if rev@.len() > 0 && rev_of(rev@)[0] is Ins {
                        assert(false);
                    }
                    lemma_trace_score_gx(rev_of(rev@), x@, y@, li as int, lj as int, false);
                }
                layer = 2;
            } else {
                proof {
                    if rev@.len() > 0 && rev_of(rev@)[0] is Del {
                        assert(false);
                    }
                    lemma_trace_score_gy(rev_of(rev@), x@, y@, li as int, lj as int, false);
                }
                layer = 3;
            }
        } else if layer == 2 {
            proof {
                lemma_idx_bound(li as int, lj as int, m as int, n as int);
                assert(tb_ok(sdir@, iext@, dext@, li as int, lj as int, n as int, false));
                assert(cell_exact(
                    sv@,
                    iv@,
                    dv@,
                    sdir@,
                    iext@,
                    dext@,
                    x@,
                    y@,
                    li as int,
                    lj as int,
                    n as int,
                ));
                assert(cell_dom(sv@, iv@, dv@, x@, y@, li as int, lj as int, n as int));
            }
            let e = iext[li * (n + 1) + lj];
            rev.push(AlignmentOperation::Ins);
            ts = ts + (if e {
                GAP_EXTEND
            } else {
                GAP_OPEN
            });
            proof {
                assert(e == cell_at(iext@, li as int, lj as int, n as int));
                lemma_rev_push(rev0, AlignmentOperation::Ins);
                assert(trace_ok(
                    x@,
                    y@,
                    rev_of(rev@),
                    li as int - 1,
                    lj as int,
                    bi as int,
                    bj as int,
                ));
                assert(trace_score(rev_of(rev@), x@, y@, li as int - 1, lj as int, e, false) == (
                if e {
                    GAP_EXTEND as int
                } else {
                    GAP_OPEN as int
                }) + trace_score(rev_of(rev0), x@, y@, li as int, lj as int, true, false));
                if !e {
                    lemma_idx_bound(li as int - 1, lj as int, m as int, n as int);
                    assert(cell_exact(
                        sv@,
                        iv@,
                        dv@,
                        sdir@,
                        iext@,
                        dext@,
                        x@,
                        y@,
                        li as int - 1,
                        lj as int,
                        n as int,
                    ));
                    if cell_at(sdir@, li as int - 1, lj as int, n as int) == 2 {
                        assert(false);
                    }
                }
            }
            li = li - 1;
            if !e {
                layer = 0;
            }
        } else {
            proof {
                lemma_idx_bound(li as int, lj as int, m as int, n as int);
                assert(tb_ok(sdir@, iext@, dext@, li as int, lj as int, n as int, false));
                assert(cell_exact(
                    sv@,
                    iv@,
                    dv@,
                    sdir@,
                    iext@,
                    dext@,
                    x@,
                    y@,
                    li as int,
                    lj as int,
                    n as int,
                ));
                assert(cell_dom(sv@, iv@, dv@, x@, y@, li as int, lj as int, n as int));
            }
            let e = dext[li * (n + 1) + lj];
            rev.push(AlignmentOperation::Del);
            ts = ts + (if e {
                GAP_EXTEND
            } else {
                GAP_OPEN
            });
            proof {
                assert(e == cell_at(dext@, li as int, lj as int, n as int));
                lemma_rev_push(rev0, AlignmentOperation::Del);
                assert(trace_ok(
                    x@,
                    y@,
                    rev_of(rev@),
                    li as int,
                    lj as int - 1,
                    bi as int,
                    bj as int,
                ));
                assert(trace_score(rev_of(rev@), x@, y@, li as int, lj as int - 1, false, e) == (
                if e {
                    GAP_EXTEND as int
                } else {
                    GAP_OPEN as int
                }) + trace_score(rev_of(rev0), x@, y@, li as int, lj as int, false, true));
                if !e {
                    lemma_idx_bound(li as int, lj as int - 1, m as int, n as int);
                    assert(cell_exact(
                        sv@,
                        iv@,
                        dv@,
                        sdir@,
                        iext@,
                        dext@,
                        x@,
                        y@,
                        li as int,
                        lj as int - 1,
                        n as int,
                    ));
                    if cell_at(sdir@, li as int, lj as int - 1, n as int) == 3 {
                        assert(false);
                    }
                }
            }
            lj = lj - 1;
            if !e {
                layer = 0;
            }
        }
    }

    // The trace was collected back to front; reverse it.
    let mut operations: Vec<AlignmentOperation> = Vec::new();
    let mut k: usize = rev.len();
    while k > 0
        invariant
            k <= rev@.len(),
            operations@.len() == rev@.len() - k,
            forall|t: int| 0 <= t < operations@.len() ==> operations@[t] == rev@[rev@.len() - 1 - t],
        decreases k,
    {
        k = k - 1;
        operations.push(rev[k]);
    }
    proof {
        assert(operations@ =~= rev_of(rev@));
        lemma_trace_counts(
            x@,
            y@,
            operations@,
            li as int,
            lj as int,
            bi as int,
            bj as int,
        );
    }
    Alignment {
        score: bv,
        xstart: li,
        xend: bi,
        ystart: lj,
        yend: bj,
        xlen: m,
        ylen: n,
        operations,
        mode: AlignmentMode::Local,
    }
}

/// The bytes of the mode string selecting global alignment, `"global"`.
pub open spec fn is_global_mode(s: Seq<u8>) -> bool {
    s.len() == 6 && s[0] == 103 && s[1] == 108 && s[2] == 111 && s[3] == 98 && s[4] == 97 && s[5]
        == 108
}

/// The bytes of the mode string selecting local alignment, `"local"`.
pub open spec fn is_local_mode(s: Seq<u8>) -> bool {
    s.len() == 5 && s[0] == 108 && s[1] == 111 && s[2] == 99 && s[3] == 97 && s[4] == 108
}

/// Aligns two sequences under the mode named by `mode`: `"global"` consumes
/// both sequences end to end and reports exactly the affine-gap score of its
/// trace, `"local"` reports the best-scoring pair of contiguous regions with
/// a non-negative score and an empty region whenever the score is zero, and
/// any other mode string is rejected as `InvalidMode`.
pub fn align(x: &[u8], y: &[u8], mode: &str) -> (r: Result<Alignment, AlignError>)
    requires
        seq_residues_ok(x@),
        seq_residues_ok(y@),
        x@.len() <= MAX_LEN,
        y@.len() <= MAX_LEN,
        (x@.len() + 1) * (y@.len() + 1) <= usize::MAX,
    ensures
        is_global_mode(mode.spec_bytes()) ==> (r matches Ok(al) && al.wf() && al.valid_for(
            x@,
            y@,
        ) && al.xstart == 0 && al.ystart == 0 && al.xend == x@.len() && al.yend == y@.len()
            && al.mode == AlignmentMode::Global && al.operations@.len() <= x@.len() + y@.len()
            && al.score as int == trace_score(al.operations@, x@, y@, 0, 0, false, false) && (
        forall|ops2: Seq<AlignmentOperation>|
            trace_ok(x@, y@, ops2, 0, 0, x@.len() as int, y@.len() as int) ==> trace_score(
                ops2,
                x@,
                y@,
                0,
                0,
                false,
                false,
            ) <= al.score)),
        is_local_mode(mode.spec_bytes()) ==> (r matches Ok(al) && al.wf() && al.valid_for(x@, y@)
            && al.score >= 0 && al.mode == AlignmentMode::Local && al.operations@.len() <= x@.len()
            + y@.len() && (al.score == 0 ==> al.xstart == al.xend && al.ystart == al.yend)
            && al.score as int == trace_score(
            al.operations@,
            x@,
            y@,
            al.xstart as int,
            al.ystart as int,
            false,
            false,
        ) && (forall|ops2: Seq<AlignmentOperation>, xs: int, ys: int, xe2: int, ye2: int|
            0 <= xs && 0 <= ys && xe2 <= x@.len() && ye2 <= y@.len() && trace_ok(
                x@,
                y@,
                ops2,
                xs,
                ys,
                xe2,
                ye2,
            ) ==> trace_score(ops2, x@, y@, xs, ys, false, false) <= al.score)),
        !is_global_mode(mode.spec_bytes()) && !is_local_mode(mode.spec_bytes()) ==> (r matches Err(
            e,
        ) && e == AlignError::InvalidMode),
{
    let b = mode.as_bytes();
    if b.len() == 6 && b[0] == 103 && b[1] == 108 && b[2] == 111 && b[3] == 98 && b[4] == 97
        && b[5] == 108 {
        Ok(align_global(x, y))
    } else if b.len() == 5 && b[0] == 108 && b[1] == 111 && b[2] == 99 && b[3] == 97 && b[4]
        == 108 {
        Ok(align_local(x, y))
    } else {
        Err(AlignError::InvalidMode)
    }
}

/// Sum of the self-substitution scores of the residues of `r` in `[lo, hi)`.
pub open spec fn self_score_sum(r: Seq<u8>, lo: int, hi: int) -> int
    decreases hi - lo,
{
    if lo >= hi {
        0
    } else {
        self_score_sum(r, lo, hi - 1) + blosum62_spec(r[hi - 1], r[hi - 1])
    }
}

/// Safety of replaying a trace for the similarity walk over a `query` (the
/// shorter input) and a `reference` (the longer): every unguarded residue
/// access stays in bounds and no index can wrap.
pub open spec fn sim_steps_ok(
    ops: Seq<AlignmentOperation>,
    xi: int,
    yi: int,
    q: Seq<u8>,
    r: Seq<u8>,
) -> bool
    decreases ops.len(),
{
    if ops.len() == 0 {
        true
    } else {
        match ops[0] {
            AlignmentOperation::Match => xi + 1 <= usize::MAX && yi + 1 <= usize::MAX
                && sim_steps_ok(ops.skip(1), xi + 1, yi + 1, q, r),
            AlignmentOperation::Subst => xi + 1 <= usize::MAX && yi + 1 <= usize::MAX
                && sim_steps_ok(ops.skip(1), xi + 1, yi + 1, q, r),
            AlignmentOperation::Del => 0 <= xi < q.len() && sim_steps_ok(
                ops.skip(1),
                xi + 1,
                yi,
                q,
                r,
            ),
            AlignmentOperation::Ins => 0 <= yi < r.len() && sim_steps_ok(
                ops.skip(1),
                xi,
                yi + 1,
                q,
                r,
            ),
            AlignmentOperation::Xclip(nn) => xi + nn <= usize::MAX && sim_steps_ok(
                ops.skip(1),
                xi + nn,
                yi,
                q,
                r,
            ),
            AlignmentOperation::Yclip(nn) => yi + nn <= usize::MAX && sim_steps_ok(
                ops.skip(1),
                xi,
                yi + nn,
                q,
                r,
            ),
        }
    }
}

/// One pass of the similarity walk: the achieved score and the ceiling score
/// accumulated over a trace, starting from accumulators `(sc, mx)` at
/// positions `(xi, yi)` of query and reference. A diagonal step scores only
/// while `xi` is inside the query and `yi` inside the second input (length
/// `yb`); a gap step charges the opening penalty against the skipped
/// residue's self-score.
pub open spec fn sim_walk(
    ops: Seq<AlignmentOperation>,
    xi: int,
    yi: int,
    sc: int,
    mx: int,
    q: Seq<u8>,
    r: Seq<u8>,
    yb: int,
) -> (int, int)
    decreases ops.len(),
{
    if ops.len() == 0 {
        (sc, mx)
    } else {
        match ops[0] {
            AlignmentOperation::Match => {
                if xi < q.len() && yi < yb {
                    let s = blosum62_spec(q[xi], r[yi]);
                    sim_walk(ops.skip(1), xi + 1, yi + 1, sc + s, mx + s, q, r, yb)
                } else {
                    sim_walk(ops.skip(1), xi + 1, yi + 1, sc, mx, q, r, yb)
                }
            },
            AlignmentOperation::Subst => {
                if xi < q.len() && yi < yb {
                    let s = blosum62_spec(q[xi], r[yi]);
                    let sa = blosum62_spec(q[xi], q[xi]);
                    let sb = blosum62_spec(r[yi], r[yi]);
                    let best = if sa >= sb {
                        sa
                    } else {
                        sb
                    };
                    sim_walk(ops.skip(1), xi + 1, yi + 1, sc + s, mx + best, q, r, yb)
                } else {
                    sim_walk(ops.skip(1), xi + 1, yi + 1, sc, mx, q, r, yb)
                }
            },
            AlignmentOperation::Del => sim_walk(
                ops.skip(1),
                xi + 1,
                yi,
                sc + GAP_OPEN,
                mx + blosum62_spec(q[xi], q[xi]),
                q,
                r,
                yb,
            ),
            AlignmentOperation::Ins => sim_walk(
                ops.skip(1),
                xi,
                yi + 1,
                sc + GAP_OPEN,
                mx + blosum62_spec(r[yi], r[yi]),
                q,
                r,
                yb,
            ),
            AlignmentOperation::Xclip(nn) => sim_walk(ops.skip(1), xi + nn, yi, sc, mx, q, r, yb),
            AlignmentOperation::Yclip(nn) => sim_walk(ops.skip(1), xi, yi + nn, sc, mx, q, r, yb),
        }
    }
}

/// The similarity percentage: the aligned walk's achieved score (clamped at
/// zero), as a share of the ceiling score made of the reference's unaligned
/// flanks and the per-step ceilings, rounded half-up, zero when the ceiling
/// is not positive, and clamped at 100. The clamp matters only where a flank
/// residue with a negative self-score shrinks the ceiling below the achieved
/// score; the reported percentage still stays within bounds.
pub open spec fn similarity_spec(al: Alignment, x: Seq<u8>, y: Seq<u8>) -> int {
    let q = if x.len() > y.len() {
        y
    } else {
        x
    };
    let r = if x.len() > y.len() {
        x
    } else {
        y
    };
    let mx0 = self_score_sum(r, 0, al.ystart as int);
    let walked = sim_walk(
        al.operations@,
        al.xstart as int,
        al.ystart as int,
        0,
        mx0,
        q,
        r,
        y.len() as int,
    );
    let mx = walked.1 + self_score_sum(r, al.yend as int, r.len() as int);
    if mx <= 0 {
        0
    } else {
        let scc = if walked.0 < 0 {
            0int
        } else {
            walked.0
        };
        let v = (200 * scc + mx) / (2 * mx);
        if v > 100 {
            100
        } else {
            v
        }
    }
}

/// Percentage of the best achievable score that the alignment realises. The
/// shorter input is the query, the longer the reference; the reference's
/// unaligned flanks contribute their self-scores to the ceiling only. The
/// result equals `similarity_spec` exactly.
pub fn similarity(alignment: &Alignment, x: &[u8], y: &[u8]) -> (res: u8)
    requires
        alignment.wf(),
        alignment.valid_for(x@, y@),
        seq_residues_ok(x@),
        seq_residues_ok(y@),
        sim_steps_ok(
            alignment.operations@,
            alignment.xstart as int,
            alignment.ystart as int,
            if x@.len() > y@.len() {
                y@
            } else {
                x@
            },
            if x@.len() > y@.len() {
                x@
            } else {
                y@
            },
        ),
    ensures
        res as int == similarity_spec(*alignment, x@, y@),
        res <= 100,
{
    proof {
        lemma_similarity_bounds(*alignment, x@, y@);
        lemma_trace_counts(
            x@,
            y@,
            alignment.operations@,
            alignment.xstart as int,
            alignment.ystart as int,
            alignment.xend as int,
            alignment.yend as int,
        );
    }
    let query: &[u8] = if x.len() > y.len() {
        y
    } else {
        x
    };
    let reference: &[u8] = if x.len() > y.len() {
        x
    } else {
        y
    };
    let mut sc: i32 = 0;
    let mut mx: i32 = 0;

    // Ceiling contribution of the reference's left unaligned flank.
    let mut t: usize = 0;
    while t < alignment.ystart
        invariant
            0 <= t <= alignment.ystart,
            alignment.ystart <= reference@.len() <= MAX_LEN,
            seq_residues_ok(reference@),
            mx == self_score_sum(reference@, 0, t as int),
            -16 * (t as int) <= mx <= 16 * (t as int),
        decreases alignment.ystart - t,
    {
        mx = mx + blosum62(reference[t], reference[t]);
        t = t + 1;
    }

    let ghost q = query@;
    let ghost r = reference@;
    let ghost yb = y@.len() as int;
    let ghost target = sim_walk(
        alignment.operations@,
        alignment.xstart as int,
        alignment.ystart as int,
        0,
        mx as int,
        q,
        r,
        yb,
    );

    // Replay the trace from the start of the aligned region.
    let ops = &alignment.operations;
    let mut xi: usize = alignment.xstart;
    let mut yi: usize = alignment.ystart;
    let mut k: usize = 0;
    proof {
        assert(ops@.skip(0) =~= ops@);
    }
    while k < ops.len()
        invariant
            0 <= k <= ops@.len(),
            ops@ == alignment.operations@,
            ops@.len() <= 2 * MAX_LEN,
            q == query@,
            r == reference@,
            yb == y@.len() as int,
            query@.len() <= reference@.len() <= MAX_LEN,
            y@.len() <= reference@.len(),
            seq_residues_ok(query@),
            seq_residues_ok(reference@),
            sim_steps_ok(ops@.skip(k as int), xi as int, yi as int, q, r),
            sim_walk(ops@.skip(k as int), xi as int, yi as int, sc as int, mx as int, q, r, yb)
                == target,
            -16 * (k as int) <= sc <= 16 * (k as int),
            -16 * (reference@.len() + k) <= mx <= 16 * (reference@.len() + k),
        decreases ops@.len() - k,
    {
        proof {
            assert(ops@.skip(k as int).skip(1) =~= ops@.skip(k as int + 1));
            assert(ops@.skip(k as int)[0] == ops@[k as int]);
        }
        let op = ops[k];
        match op {
            AlignmentOperation::Match => {
                if xi < query.len() && yi < y.len() {
                    let s = blosum62(query[xi], reference[yi]);
                    sc = sc + s;
                    mx = mx + s;
                }
                xi = xi + 1;
                yi = yi + 1;
            },
            AlignmentOperation::Subst => {
                if xi < query.len() && yi < y.len() {
                    let s = blosum62(query[xi], reference[yi]);
                    let sa = blosum62(query[xi], query[xi]);
                    let sb = blosum62(reference[yi], reference[yi]);
                    sc = sc + s;
                    mx = mx + (if sa >= sb {
                        sa
                    } else {
                        sb
                    });
                }
                xi = xi + 1;
                yi = yi + 1;
            },
            AlignmentOperation::Del => {
                sc = sc + GAP_OPEN;
                mx = mx + blosum62(query[xi], query[xi]);
                xi = xi + 1;
            },
            AlignmentOperation::Ins => {
                sc = sc + GAP_OPEN;
                mx = mx + blosum62(reference[yi], reference[yi]);
                yi = yi + 1;
            },
            AlignmentOperation::Xclip(nn) => {
                xi = xi + nn;
            },
            AlignmentOperation::Yclip(nn) => {
                yi = yi + nn;
            },
        }
        k = k + 1;
    }
    proof {
        assert(ops@.skip(ops@.len() as int) =~= Seq::<AlignmentOperation>::empty());
    }

    // Ceiling contribution of the reference's right unaligned flank.
    let mut t2: usize = alignment.yend;
    while t2 < reference.len()
        invariant
            alignment.yend <= t2 <= reference@.len() <= MAX_LEN,
            seq_residues_ok(reference@),
            mx as int == target.1 + self_score_sum(reference@, alignment.yend as int, t2 as int),
            -16 * (3 * MAX_LEN) <= target.1 <= 16 * (3 * MAX_LEN),
            -16 * (3 * MAX_LEN) - 16 * (t2 as int) <= mx <= 16 * (3 * MAX_LEN) + 16 * (t2 as int),
        decreases reference@.len() - t2,
    {
        mx = mx + blosum62(reference[t2], reference[t2]);
        t2 = t2 + 1;
    }

    if mx <= 0 {
        return 0;
    }
    let scc: u64 = if sc < 0 {
        0
    } else {
        sc as u64
    };
    let mxu: u64 = mx as u64;
    let v = (200 * scc + mxu) / (2 * mxu);
    if v > 100 {
        100
    } else {
        v as u8
    }
}

/// Runtime check matching `sim_steps_ok`: says whether the similarity walk
/// over this alignment keeps every unguarded access in bounds, so that a
/// caller outside verified code can test `similarity`'s precondition and
/// fail cleanly instead of walking out of the query.
pub fn similarity_replay_ok(alignment: &Alignment, x: &[u8], y: &[u8]) -> (r: bool)
    ensures
        r == sim_steps_ok(
            alignment.operations@,
            alignment.xstart as int,
            alignment.ystart as int,
            if x@.len() > y@.len() {
                y@
            } else {
                x@
            },
            if x@.len() > y@.len() {
                x@
            } else {
                y@
            },
        ),
{
    let ghost q = if x@.len() > y@.len() {
        y@
    } else {
        x@
    };
    let ghost r = if x@.len() > y@.len() {
        x@
    } else {
        y@
    };
    let qlen = if x.len() > y.len() {
        y.len()
    } else {
        x.len()
    };
    let rlen = if x.len() > y.len() {
        x.len()
    } else {
        y.len()
    };
    let ops = &alignment.operations;
    let mut xi: usize = alignment.xstart;
    let mut yi: usize = alignment.ystart;
    let mut k: usize = 0;
    proof {
        assert(ops@.skip(0) =~= ops@);
    }
    while k < ops.len()
        invariant
            0 <= k <= ops@.len(),
            ops@ == alignment.operations@,
            qlen == q.len(),
            rlen == r.len(),
            q == (if x@.len() > y@.len() {
                y@
            } else {
                x@
            }),
            r == (if x@.len() > y@.len() {
                x@
            } else {
                y@
            }),
            sim_steps_ok(ops@.skip(k as int), xi as int, yi as int, q, r) == sim_steps_ok(
                alignment.operations@,
                alignment.xstart as int,
                alignment.ystart as int,
                q,
                r,
            ),
        decreases ops@.len() - k,
    {
        proof {
            assert(ops@.skip(k as int).skip(1) =~= ops@.skip(k as int + 1));
            assert(ops@.skip(k as int)[0] == ops@[k as int]);
        }
        match ops[k] {
            AlignmentOperation::Match => {
                if xi == usize::MAX || yi == usize::MAX {
                    return false;
                }
                xi = xi + 1;
                yi = yi + 1;
            },
            AlignmentOperation::Subst => {
                if xi == usize::MAX || yi == usize::MAX {
                    return false;
                }
                xi = xi + 1;
                yi = yi + 1;
            },
            AlignmentOperation::Del => {
                if xi >= qlen {
                    return false;
                }
                xi = xi + 1;
            },
            AlignmentOperation::Ins => {
                if yi >= rlen {
                    return false;
                }
                yi = yi + 1;
            },
            AlignmentOperation::Xclip(nn) => {
                if xi > usize::MAX - nn {
                    return false;
                }
                xi = xi + nn;
            },
            AlignmentOperation::Yclip(nn) => {
                if yi > usize::MAX - nn {
                    return false;
                }
                yi = yi + nn;
            },
        }
        k = k + 1;
    }
    proof {
        assert(ops@.skip(ops@.len() as int) =~= Seq::<AlignmentOperation>::empty());
    }
    true
}

/// Similarity stays between 0 and 100 for every alignment and every pair of
/// sequences: a non-positive ceiling yields zero by definition, and a
/// positive one yields a non-negative rounded share clamped at 100.
pub proof fn lemma_similarity_bounds(al: Alignment, x: Seq<u8>, y: Seq<u8>)
    ensures
        0 <= similarity_spec(al, x, y) <= 100,
{
    let q = if x.len() > y.len() {
        y
    } else {
        x
    };
    let r = if x.len() > y.len() {
        x
    } else {
        y
    };
    let mx0 = self_score_sum(r, 0, al.ystart as int);
    let walked = sim_walk(
        al.operations@,
        al.xstart as int,
        al.ystart as int,
        0,
        mx0,
        q,
        r,
        y.len() as int,
    );
    let mx = walked.1 + self_score_sum(r, al.yend as int, r.len() as int);
    if mx > 0 {
        let scc = if walked.0 < 0 {
            0int
        } else {
            walked.0
        };
        vstd::arithmetic::div_mod::lemma_div_pos_is_pos(200 * scc + mx, 2 * mx);
    }
}

/// Rounding `100 * matches / len` half-up stays at or below 100 whenever
/// `matches <= len`.
pub(crate) proof fn lemma_round_div_le_100(m: int, len: int)
    requires
        0 <= m <= len,
        1 <= len,
    ensures
        0 <= (200 * m + len) / (2 * len) <= 100,
{
    let d = 2 * len;
    assert(200 * m + len <= 200 * len + len) by (nonlinear_arith)
        requires
            m <= len,
            0 <= len,
    ;
    assert(200 * len + len == 100 * d + len);
    assert((100 * d + len) / d == 100) by {
        vstd::arithmetic::div_mod::lemma_fundamental_div_mod_converse(
            100 * d + len,
            d,
            100,
            len,
        );
    }
    vstd::arithmetic::div_mod::lemma_div_is_ordered(200 * m + len, 100 * d + len, d);
    vstd::arithmetic::div_mod::lemma_div_pos_is_pos(200 * m + len, d);
}

} // verus!
