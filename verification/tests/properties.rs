use compseq::alignment::{align, identity, similarity, AlignError, AlignmentOperation};
use compseq::scoring::{blosum62, sequence_ok};

fn replay_counts(ops: &[AlignmentOperation]) -> (usize, usize) {
    let mut cx = 0;
    let mut cy = 0;
    for op in ops {
        match op {
            AlignmentOperation::Match | AlignmentOperation::Subst => {
                cx += 1;
                cy += 1;
            }
            AlignmentOperation::Ins => cx += 1,
            AlignmentOperation::Del => cy += 1,
            AlignmentOperation::Xclip(_) | AlignmentOperation::Yclip(_) => {
                panic!("clip operation in an engine trace")
            }
        }
    }
    (cx, cy)
}

#[test]
fn determinism_global() {
    let x = b"LSPADKTNVKAA";
    let y = b"PEEKSAV";
    let a1 = align(x, y, "global").unwrap();
    let a2 = align(x, y, "global").unwrap();
    assert_eq!(a1, a2);
}

#[test]
fn determinism_local() {
    let x = b"LSPADKTNVKAA";
    let y = b"PEEKSAV";
    let a1 = align(x, y, "local").unwrap();
    let a2 = align(x, y, "local").unwrap();
    assert_eq!(a1, a2);
}

#[test]
fn trace_consistency_global() {
    let x = b"ALSPADQTNVK";
    let y = b"PEEKSAV";
    let a = align(x, y, "global").unwrap();
    assert_eq!((a.xstart, a.ystart), (0, 0));
    assert_eq!((a.xend, a.yend), (x.len(), y.len()));
    let (cx, cy) = replay_counts(&a.operations);
    assert_eq!(cx, a.xend - a.xstart);
    assert_eq!(cy, a.yend - a.ystart);
}

#[test]
fn trace_consistency_local() {
    let x = b"LSPADKTNVKAA";
    let y = b"PEEKSAV";
    let a = align(x, y, "local").unwrap();
    assert!(a.xstart <= a.xend && a.xend <= x.len());
    assert!(a.ystart <= a.yend && a.yend <= y.len());
    let (cx, cy) = replay_counts(&a.operations);
    assert_eq!(cx, a.xend - a.xstart);
    assert_eq!(cy, a.yend - a.ystart);
}

#[test]
fn identity_bounds_various() {
    let pairs: [(&[u8], &[u8]); 4] = [
        (b"LSPADKTNVKAA", b"PEEKSAV"),
        (b"A", b"A"),
        (b"", b""),
        (b"WWWW", b"AAAA"),
    ];
    for (x, y) in pairs {
        let a = align(x, y, "global").unwrap();
        assert!(identity(&a) <= 100);
        let b = align(x, y, "local").unwrap();
        assert!(identity(&b) <= 100);
    }
}

#[test]
fn identity_self_is_hundred() {
    let x = b"WYAVLKMNPQ";
    let a = align(x, x, "global").unwrap();
    assert_eq!(identity(&a), 100);
}

#[test]
fn similarity_bounds_various() {
    let pairs: [(&[u8], &[u8]); 4] = [
        (b"LSPADKTNVKAA", b"PEEKSAV"),
        (b"A", b"A"),
        (b"", b""),
        (b"WWWW", b"AAAA"),
    ];
    for (x, y) in pairs {
        let a = align(x, y, "global").unwrap();
        assert!(similarity(&a, x, y) <= 100);
        let b = align(x, y, "local").unwrap();
        assert!(similarity(&b, x, y) <= 100);
    }
}

#[test]
fn similarity_self_is_hundred() {
    let x = b"WYAVLKMNPQ";
    let a = align(x, x, "global").unwrap();
    assert_eq!(similarity(&a, x, x), 100);
}

#[test]
fn symmetry_of_scores() {
    let pairs: [(&[u8], &[u8]); 3] = [
        (b"LSPADKTNVKAA", b"PEEKSAV"),
        (b"ALSPADQTNVK", b"LSPADQTNVK"),
        (b"WYAVLK", b"KLVAYW"),
    ];
    for (x, y) in pairs {
        let g1 = align(x, y, "global").unwrap();
        let g2 = align(y, x, "global").unwrap();
        assert_eq!(g1.score, g2.score);
        let l1 = align(x, y, "local").unwrap();
        let l2 = align(y, x, "local").unwrap();
        assert_eq!(l1.score, l2.score);
    }
}

#[test]
fn local_core_has_no_gaps() {
    let x = b"LSPADKTNVKAA";
    let y = b"PEEKSAV";
    let a = align(x, y, "local").unwrap();
    assert!(a.score >= 0);
    assert!(!a.operations.is_empty());
    for op in &a.operations {
        assert!(matches!(
            op,
            AlignmentOperation::Match | AlignmentOperation::Subst
        ));
    }
}

#[test]
fn local_no_positive_score_is_empty() {
    let x = b"W";
    let y = b"A";
    let a = align(x, y, "local").unwrap();
    assert_eq!(a.score, 0);
    assert_eq!((a.xstart, a.xend, a.ystart, a.yend), (0, 0, 0, 0));
    assert!(a.operations.is_empty());
}

#[test]
fn invalid_mode_is_rejected() {
    let x = b"LSPADKTNVK";
    let y = b"LSPADQTNVK";
    assert_eq!(align(x, y, "banana"), Err(AlignError::InvalidMode));
    assert_eq!(align(x, y, ""), Err(AlignError::InvalidMode));
    assert_eq!(align(x, y, "GLOBAL"), Err(AlignError::InvalidMode));
}

#[test]
fn global_empty_sequences() {
    let a = align(b"", b"", "global").unwrap();
    assert_eq!(a.score, 0);
    assert!(a.operations.is_empty());
    let b = align(b"AB", b"", "global").unwrap();
    // One gap opening and one extension over the two skipped residues.
    assert_eq!(b.score, -6);
}

fn affine_trace_score(ops: &[AlignmentOperation], x: &[u8], y: &[u8], xs: usize, ys: usize) -> i32 {
    let mut xi = xs;
    let mut yi = ys;
    let mut score = 0;
    let mut gx = false;
    let mut gy = false;
    for op in ops {
        match op {
            AlignmentOperation::Match | AlignmentOperation::Subst => {
                score += blosum62(x[xi], y[yi]);
                xi += 1;
                yi += 1;
                gx = false;
                gy = false;
            }
            AlignmentOperation::Ins => {
                score += if gx { -1 } else { -5 };
                xi += 1;
                gx = true;
                gy = false;
            }
            AlignmentOperation::Del => {
                score += if gy { -1 } else { -5 };
                yi += 1;
                gx = false;
                gy = true;
            }
            AlignmentOperation::Xclip(n) => xi += n,
            AlignmentOperation::Yclip(n) => yi += n,
        }
    }
    score
}

#[test]
fn score_is_the_trace_score_global() {
    let pairs: [(&[u8], &[u8]); 3] = [
        (b"LSPADKTNVKAA", b"PEEKSAV"),
        (b"ALSPADQTNVK", b"LSPADQTNVK"),
        (b"AB", b""),
    ];
    for (x, y) in pairs {
        let a = align(x, y, "global").unwrap();
        assert_eq!(a.score, affine_trace_score(&a.operations, x, y, 0, 0));
    }
}

#[test]
fn score_is_the_trace_score_local() {
    let pairs: [(&[u8], &[u8]); 2] = [(b"LSPADKTNVKAA", b"PEEKSAV"), (b"WYAVLK", b"KLVAYW")];
    for (x, y) in pairs {
        let a = align(x, y, "local").unwrap();
        assert_eq!(a.score, affine_trace_score(&a.operations, x, y, a.xstart, a.ystart));
    }
}

#[test]
fn blosum62_table_values() {
    assert_eq!(blosum62(b'H', b'H'), 8);
    assert_eq!(blosum62(b'H', b'A'), -2);
    assert_eq!(blosum62(b'A', b'*'), -4);
    assert_eq!(blosum62(b'*', b'*'), 1);
    assert_eq!(blosum62(b'X', b'X'), -1);
    assert_eq!(blosum62(b'X', b'Z'), -1);
    assert_eq!(blosum62(b'K', b'Q'), 1);
}

#[test]
fn sequence_validation() {
    assert!(sequence_ok(b"LSPADKTNVKAA"));
    assert!(sequence_ok(b"*"));
    assert!(sequence_ok(b""));
    assert!(!sequence_ok(b"acgt"));
    assert!(!sequence_ok(b"LSP DK"));
}
