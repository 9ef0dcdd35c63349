pub mod scoring;
pub mod alignment;

use vstd::prelude::*;
pub use alignment::identity;
use alignment::{Alignment, AlignmentMode, AlignmentOperation, MAX_LEN, is_clip, lemma_trace_counts};
use scoring::{GAP_OPEN, blosum62, blosum62_spec, seq_residues_ok};

verus! {

/// Global alignment of two sequences: a convenience entry point fixed to the
/// Needleman-Wunsch algorithm, with the same guarantees as the global mode
/// of `alignment::align`.
pub fn align(x: &[u8], y: &[u8]) -> (r: Alignment)
    requires
        seq_residues_ok(x@),
        seq_residues_ok(y@),
        x@.len() <= MAX_LEN,
        y@.len() <= MAX_LEN,
        (x@.len() + 1) * (y@.len() + 1) <= usize::MAX,
    ensures
        r.wf(),
        r.valid_for(x@, y@),
        r.xstart == 0,
        r.ystart == 0,
        r.xend == x@.len(),
        r.yend == y@.len(),
        r.score as int == alignment::trace_score(r.operations@, x@, y@, 0, 0, false, false),
        forall|ops2: Seq<AlignmentOperation>|
            alignment::trace_ok(x@, y@, ops2, 0, 0, x@.len() as int, y@.len() as int)
                ==> alignment::trace_score(ops2, x@, y@, 0, 0, false, false) <= r.score,
        r.mode == AlignmentMode::Global,
{
    alignment::align_global(x, y)
}

/// One pass of the direct similarity walk: achieved score and ceiling score
/// accumulated over a trace in input order, scoring a step only while both
/// indices lie inside the aligned region `[.., xe) x [.., ye)`. A diagonal
/// step achieves the pair's score against a ceiling of the better self-score;
/// a gap step charges the opening penalty against the skipped residue's
/// self-score.
pub open spec fn direct_walk(
    ops: Seq<AlignmentOperation>,
    xi: int,
    yi: int,
    sc: int,
    mx: int,
    x: Seq<u8>,
    y: Seq<u8>,
    xe: int,
    ye: int,
) -> (int, int)
    decreases ops.len(),
{
    if ops.len() == 0 {
        (sc, mx)
    } else {
        match ops[0] {
            AlignmentOperation::Match | AlignmentOperation::Subst => {
                if xi < xe && yi < ye {
                    let s = blosum62_spec(x[xi], y[yi]);
                    let sa = blosum62_spec(x[xi], x[xi]);
                    let sb = blosum62_spec(y[yi], y[yi]);
                    let best = if sa >= sb {
                        sa
                    } else {
                        sb
                    };
                    direct_walk(ops.skip(1), xi + 1, yi + 1, sc + s, mx + best, x, y, xe, ye)
                } else {
                    direct_walk(ops.skip(1), xi + 1, yi + 1, sc, mx, x, y, xe, ye)
                }
            },
            AlignmentOperation::Del => {
                if xi < xe {
                    direct_walk(
                        ops.skip(1),
                        xi + 1,
                        yi,
                        sc + GAP_OPEN,
                        mx + blosum62_spec(x[xi], x[xi]),
                        x,
                        y,
                        xe,
                        ye,
                    )
                } else {
                    direct_walk(ops.skip(1), xi + 1, yi, sc, mx, x, y, xe, ye)
                }
            },
            AlignmentOperation::Ins => {
                if yi < ye {
                    direct_walk(
                        ops.skip(1),
                        xi,
                        yi + 1,
                        sc + GAP_OPEN,
                        mx + blosum62_spec(y[yi], y[yi]),
                        x,
                        y,
                        xe,
                        ye,
                    )
                } else {
                    direct_walk(ops.skip(1), xi, yi + 1, sc, mx, x, y, xe, ye)
                }
            },
            AlignmentOperation::Xclip(nn) => direct_walk(
                ops.skip(1),
                xi + nn,
                yi,
                sc,
                mx,
                x,
                y,
                xe,
                ye,
            ),
            AlignmentOperation::Yclip(nn) => direct_walk(
                ops.skip(1),
                xi,
                yi + nn,
                sc,
                mx,
                x,
                y,
                xe,
                ye,
            ),
        }
    }
}

/// The direct similarity percentage: the walk's achieved score (clamped at
/// zero) as a share of its ceiling, rounded half-up, zero when the ceiling
/// is not positive, and saturated at 255 as a byte.
pub open spec fn direct_similarity_spec(al: Alignment, x: Seq<u8>, y: Seq<u8>) -> int {
    let walked = direct_walk(
        al.operations@,
        al.xstart as int,
        al.ystart as int,
        0,
        0,
        x,
        y,
        al.xend as int,
        al.yend as int,
    );
    let mx = walked.1;
    if mx <= 0 {
        0
    } else {
        let scc = if walked.0 < 0 {
            0int
        } else {
            walked.0
        };
        let v = (200 * scc + mx) / (2 * mx);
        if v > 255 {
            255
        } else {
            v
        }
    }
}

/// Percentage of the best achievable score that the alignment realises,
/// scored directly along the two inputs in their given order, with no flank
/// terms. The result equals `direct_similarity_spec` exactly.
pub fn similarity(alignment: &Alignment, x: &[u8], y: &[u8]) -> (res: u8)
    requires
        alignment.wf(),
        alignment.valid_for(x@, y@),
        seq_residues_ok(x@),
        seq_residues_ok(y@),
    ensures
        res as int == direct_similarity_spec(*alignment, x@, y@),
        res <= 100,
{
    proof {
        lemma_direct_similarity_bounds(*alignment, x@, y@);
        lemma_trace_counts(
            x@,
            y@,
            alignment.operations@,
            alignment.xstart as int,
            alignment.ystart as int,
            alignment.xend as int,
            alignment.yend as int,
        );
    }
    let mut sc: i32 = 0;
    let mut mx: i32 = 0;
    let ghost target = direct_walk(
        alignment.operations@,
        alignment.xstart as int,
        alignment.ystart as int,
        0,
        0,
        x@,
        y@,
        alignment.xend as int,
        alignment.yend as int,
    );
    let ops = &alignment.operations;
    let mut xi: usize = alignment.xstart;
    let mut yi: usize = alignment.ystart;
    let mut k: usize = 0;
    proof {
        assert(ops@.skip(0) =~= ops@);
    }
    while k < ops.len()
        invariant
            0 <= k <= ops@.len(),
            ops@ == alignment.operations@,
            ops@.len() <= 2 * MAX_LEN,
            alignment.xend <= x@.len() <= MAX_LEN,
            alignment.yend <= y@.len() <= MAX_LEN,
            alignment.xstart <= MAX_LEN,
            alignment.ystart <= MAX_LEN,
            xi <= alignment.xstart + k,
            yi <= alignment.ystart + k,
            seq_residues_ok(x@),
            seq_residues_ok(y@),
            alignment::no_clips(ops@),
            direct_walk(
                ops@.skip(k as int),
                xi as int,
                yi as int,
                sc as int,
                mx as int,
                x@,
                y@,
                alignment.xend as int,
                alignment.yend as int,
            ) == target,
            -16 * (k as int) <= sc <= 16 * (k as int),
            -16 * (k as int) <= mx <= 16 * (k as int),
        decreases ops@.len() - k,
    {
        proof {
            assert(ops@.skip(k as int).skip(1) =~= ops@.skip(k as int + 1));
            assert(ops@.skip(k as int)[0] == ops@[k as int]);
        }
        let op = ops[k];
        match op {
            AlignmentOperation::Match | AlignmentOperation::Subst => {
                if xi < alignment.xend && yi < alignment.yend {
                    let s = blosum62(x[xi], y[yi]);
                    let sa = blosum62(x[xi], x[xi]);
                    let sb = blosum62(y[yi], y[yi]);
                    sc = sc + s;
                    mx = mx + (if sa >= sb {
                        sa
                    } else {
                        sb
                    });
                }
                xi = xi + 1;
                yi = yi + 1;
            },
            AlignmentOperation::Del => {
                if xi < alignment.xend {
                    sc = sc + GAP_OPEN;
                    mx = mx + blosum62(x[xi], x[xi]);
                }
                xi = xi + 1;
            },
            AlignmentOperation::Ins => {
                if yi < alignment.yend {
                    sc = sc + GAP_OPEN;
                    mx = mx + blosum62(y[yi], y[yi]);
                }
                yi = yi + 1;
            },
            AlignmentOperation::Xclip(nn) => {
                proof {
                    assert(!is_clip(ops@[k as int]));
                    assert(false);
                }
                xi = xi + nn;
            },
            AlignmentOperation::Yclip(nn) => {
                proof {
                    assert(!is_clip(ops@[k as int]));
                    assert(false);
                }
                yi = yi + nn;
            },
        }
        k = k + 1;
    }
    proof {
        assert(ops@.skip(ops@.len() as int) =~= Seq::<AlignmentOperation>::empty());
    }
    if mx <= 0 {
        return 0;
    }
    let scc: u64 = if sc < 0 {
        0
    } else {
        sc as u64
    };
    let mxu: u64 = mx as u64;
    let v = (200 * scc + mxu) / (2 * mxu);
    if v > 255 {
        255
    } else {
        v as u8
    }
}

/// The direct similarity walk never gains more achieved score than ceiling:
/// each step contributes at most as much to the achieved score as to the
/// ceiling.
proof fn lemma_direct_walk_mono(
    ops: Seq<AlignmentOperation>,
    xi: int,
    yi: int,
    sc: int,
    mx: int,
    x: Seq<u8>,
    y: Seq<u8>,
    xe: int,
    ye: int,
)
    ensures
        direct_walk(ops, xi, yi, sc, mx, x, y, xe, ye).0 - sc <= direct_walk(
            ops,
            xi,
            yi,
            sc,
            mx,
            x,
            y,
            xe,
            ye,
        ).1 - mx,
    decreases ops.len(),
{
    if ops.len() == 0 {
    } else {
        match ops[0] {
            AlignmentOperation::Match | AlignmentOperation::Subst => {
                if xi < xe && yi < ye {
                    scoring::lemma_blosum62_le_self_max(x[xi], y[yi]);
                    let s = blosum62_spec(x[xi], y[yi]);
                    let sa = blosum62_spec(x[xi], x[xi]);
                    let sb = blosum62_spec(y[yi], y[yi]);
                    let best = if sa >= sb {
                        sa
                    } else {
                        sb
                    };
                    lemma_direct_walk_mono(
                        ops.skip(1),
                        xi + 1,
                        yi + 1,
                        sc + s,
                        mx + best,
                        x,
                        y,
                        xe,
                        ye,
                    );
                } else {
                    lemma_direct_walk_mono(ops.skip(1), xi + 1, yi + 1, sc, mx, x, y, xe, ye);
                }
            },
            AlignmentOperation::Del => {
                if xi < xe {
                    scoring::lemma_blosum62_bounds(x[xi], x[xi]);
                    lemma_direct_walk_mono(
                        ops.skip(1),
                        xi + 1,
                        yi,
                        sc + GAP_OPEN,
                        mx + blosum62_spec(x[xi], x[xi]),
                        x,
                        y,
                        xe,
                        ye,
                    );
                } else {
                    lemma_direct_walk_mono(ops.skip(1), xi + 1, yi, sc, mx, x, y, xe, ye);
                }
            },
            AlignmentOperation::Ins => {
                if yi < ye {
                    scoring::lemma_blosum62_bounds(y[yi], y[yi]);
                    lemma_direct_walk_mono(
                        ops.skip(1),
                        xi,
                        yi + 1,
                        sc + GAP_OPEN,
                        mx + blosum62_spec(y[yi], y[yi]),
                        x,
                        y,
                        xe,
                        ye,
                    );
                } else {
                    lemma_direct_walk_mono(ops.skip(1), xi, yi + 1, sc, mx, x, y, xe, ye);
                }
            },
            AlignmentOperation::Xclip(nn) => {
                lemma_direct_walk_mono(ops.skip(1), xi + nn, yi, sc, mx, x, y, xe, ye);
            },
            AlignmentOperation::Yclip(nn) => {
                lemma_direct_walk_mono(ops.skip(1), xi, yi + nn, sc, mx, x, y, xe, ye);
            },
        }
    }
}

/// The direct similarity percentage lies between 0 and 100 for every
/// alignment and pair of sequences: the walk can never achieve more than its
/// own ceiling, and a non-positive ceiling yields zero by definition.
pub proof fn lemma_direct_similarity_bounds(al: Alignment, x: Seq<u8>, y: Seq<u8>)
    ensures
        0 <= direct_similarity_spec(al, x, y) <= 100,
{
    let walked = direct_walk(
        al.operations@,
        al.xstart as int,
        al.ystart as int,
        0,
        0,
        x,
        y,
        al.xend as int,
        al.yend as int,
    );
    lemma_direct_walk_mono(
        al.operations@,
        al.xstart as int,
        al.ystart as int,
        0,
        0,
        x,
        y,
        al.xend as int,
        al.yend as int,
    );
    if walked.1 > 0 {
        let scc = if walked.0 < 0 {
            0int
        } else {
            walked.0
        };
        alignment::lemma_round_div_le_100(scc, walked.1);
    }
}

} // verus!
