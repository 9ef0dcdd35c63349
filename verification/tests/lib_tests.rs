use compseq::{align, identity, similarity};
use compseq::alignment::AlignmentOperation::{Ins, Match, Subst};

#[test]
fn lib_alignment_operations() {
    let x = b"LSPADKTNVKAA";
    let y = b"PEEKSAV";
    let alignment = align(x, y);
    assert_eq!(
        alignment.operations,
        [Ins, Ins, Match, Subst, Subst, Match, Subst, Ins, Ins, Ins, Match, Subst]
    );
}

#[test]
fn lib_identity_exact_match() {
    let x = b"LSPADKTNVKAA";
    let y = b"LSPADKTNVKAA";
    let alignment = align(x, y);
    assert_eq!(identity(&alignment), 100);
}

#[test]
fn lib_identity_no_match() {
    let x = b"LSPADKTNVKAA";
    let y = b"QQQQQQQQQQQQ";
    let alignment = align(x, y);
    assert_eq!(identity(&alignment), 0);
}

#[test]
fn lib_identity_ninety() {
    let x = b"LSPADKTNVK";
    let y = b"LSPADQTNVK";
    let alignment = align(x, y);
    assert_eq!(identity(&alignment), 90);
}

#[test]
fn lib_identity_zero() {
    let x = b"LSPADKTNVK";
    let y = b"";
    let alignment = align(x, y);
    assert_eq!(identity(&alignment), 0);
}

#[test]
fn lib_similarity_exact_match() {
    let x = b"LSPADKTNVKAA";
    let y = b"LSPADKTNVKAA";
    let alignment = align(x, y);
    assert_eq!(similarity(&alignment, x, y), 100);
}

#[test]
fn lib_similarity_no_match() {
    let x = b"LSPADKTNVKAA";
    let y = b"QQQQQQQQQQ";
    let alignment = align(x, y);
    assert_eq!(similarity(&alignment, x, y), 0);
}

#[test]
fn lib_similarity_single_match() {
    let x = b"LSPADKTNVKAA";
    let y = b"LLLLL";
    let alignment = align(x, y);
    assert_eq!(similarity(&alignment, x, y), 0);
}

#[test]
fn lib_similarity_zero() {
    let x = b"LSPADKTNVKAA";
    let y = b"";
    let alignment = align(x, y);
    assert_eq!(similarity(&alignment, x, y), 0);
}

#[test]
fn lib_similarity_ninety_two() {
    let x = b"LSPADKTNVK";
    let y = b"LSPADQTNVK";
    let alignment = align(x, y);
    assert_eq!(similarity(&alignment, x, y), 92);
}
