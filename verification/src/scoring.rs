use vstd::prelude::*;

verus! {

/// Gap-open penalty of the affine gap model: the cost of starting a run of
/// gap characters in either sequence.
pub const GAP_OPEN: i32 = -5;

/// Gap-extension penalty of the affine gap model: the cost of each gap
/// character after the first in a run.
pub const GAP_EXTEND: i32 = -1;

/// The symbols the substitution matrix covers: the letters `A` through `Z`
/// and the stop symbol `*`.
pub open spec fn is_residue(c: u8) -> bool {
    (65 <= c && c <= 90) || c == 42
}

/// Every symbol of a sequence lies inside the supported alphabet.
pub open spec fn seq_residues_ok(s: Seq<u8>) -> bool {
    forall|i: int| 0 <= i < s.len() ==> is_residue(#[trigger] s[i])
}

/// Runtime check matching `is_residue`.
pub fn residue_ok(c: u8) -> (r: bool)
    ensures
        r == is_residue(c),
{
    (65 <= c && c <= 90) || c == 42
}

/// Runtime check that every byte of a sequence is a supported residue,
/// so that the aligner and the metrics may score it.
pub fn sequence_ok(s: &[u8]) -> (r: bool)
    ensures
        r == seq_residues_ok(s@),
{
    let mut i: usize = 0;
    while i < s.len()
        invariant
            0 <= i <= s@.len(),
            forall|k: int| 0 <= k < i ==> is_residue(#[trigger] s@[k]),
        decreases s@.len() - i,
    {
        if !residue_ok(s[i]) {
            return false;
        }
        i = i + 1;
    }
    true
}

/// The BLOSUM62 substitution score of a residue pair, as a table over the
/// alphabet `A`..`Z` and `*`; symbols outside the alphabet score 0 here, but
/// the executable lookup rejects them by precondition.
/// Residues are ASCII codes; each row lists the scores against
/// `A`..`Z` and `*` in that order.
pub open spec fn blosum62_spec(a: u8, b: u8) -> int {
    if a == 65 {  // row A
        if b == 65 { 4 } else if b == 66 { -2 } else if b == 67 { 0 } else if b == 68 { -2 } else if b == 69 { -1 } else if b == 70 { -2 }
        else if b == 71 { 0 } else if b == 72 { -2 } else if b == 73 { -1 } else if b == 74 { -1 } else if b == 75 { -1 } else if b == 76 { -1 }
        else if b == 77 { -1 } else if b == 78 { -2 } else if b == 79 { 0 } else if b == 80 { -1 } else if b == 81 { -1 } else if b == 82 { -1 }
        else if b == 83 { 1 } else if b == 84 { 0 } else if b == 85 { 0 } else if b == 86 { 0 } else if b == 87 { -3 } else if b == 88 { 0 }
        else if b == 89 { -2 } else if b == 90 { -1 } else if b == 42 { -4 }
        else { 0 }
    }
    else if a == 66 {  // row B
        if b == 65 { -2 } else if b == 66 { 4 } else if b == 67 { -3 } else if b == 68 { 4 } else if b == 69 { 1 } else if b == 70 { -3 }
        else if b == 71 { -1 } else if b == 72 { 0 } else if b == 73 { -3 } else if b == 74 { -4 } else if b == 75 { 0 } else if b == 76 { -4 }
        else if b == 77 { -3 } else if b == 78 { 3 } else if b == 79 { -1 } else if b == 80 { -2 } else if b == 81 { 0 } else if b == 82 { -1 }
        else if b == 83 { 0 } else if b == 84 { -1 } else if b == 85 { -1 } else if b == 86 { -3 } else if b == 87 { -4 } else if b == 88 { -1 }
        else if b == 89 { -3 } else if b == 90 { 1 } else if b == 42 { -4 }
        else { 0 }
    }
    else if a == 67 {  // row C
        if b == 65 { 0 } else if b == 66 { -3 } else if b == 67 { 9 } else if b == 68 { -3 } else if b == 69 { -4 } else if b == 70 { -2 }
        else if b == 71 { -3 } else if b == 72 { -3 } else if b == 73 { -1 } else if b == 74 { -1 } else if b == 75 { -3 } else if b == 76 { -1 }
        else if b == 77 { -1 } else if b == 78 { -3 } else if b == 79 { -2 } else if b == 80 { -3 } else if b == 81 { -3 } else if b == 82 { -3 }
        else if b == 83 { -1 } else if b == 84 { -1 } else if b == 85 { -2 } else if b == 86 { -1 } else if b == 87 { -2 } else if b == 88 { -2 }
        else if b == 89 { -2 } else if b == 90 { -3 } else if b == 42 { -4 }
        else { 0 }
    }
    else if a == 68 {  // row D
        if b == 65 { -2 } else if b == 66 { 4 } else if b == 67 { -3 } else if b == 68 { 6 } else if b == 69 { 2 } else if b == 70 { -3 }
        else if b == 71 { -1 } else if b == 72 { -1 } else if b == 73 { -3 } else if b == 74 { -4 } else if b == 75 { -1 } else if b == 76 { -4 }
        else if b == 77 { -3 } else if b == 78 { 1 } else if b == 79 { -1 } else if b == 80 { -1 } else if b == 81 { 0 } else if b == 82 { -2 }
        else if b == 83 { 0 } else if b == 84 { -1 } else if b == 85 { -1 } else if b == 86 { -3 } else if b == 87 { -4 } else if b == 88 { -1 }
        else if b == 89 { -3 } else if b == 90 { 1 } else if b == 42 { -4 }
        else { 0 }
    }
    else if a == 69 {  // row E
        if b == 65 { -1 } else if b == 66 { 1 } else if b == 67 { -4 } else if b == 68 { 2 } else if b == 69 { 5 } else if b == 70 { -3 }
        else if b == 71 { -2 } else if b == 72 { 0 } else if b == 73 { -3 } else if b == 74 { -3 } else if b == 75 { 1 } else if b == 76 { -3 }
        else if b == 77 { -2 } else if b == 78 { 0 } else if b == 79 { -1 } else if b == 80 { -1 } else if b == 81 { 2 } else if b == 82 { 0 }
        else if b == 83 { 0 } else if b == 84 { -1 } else if b == 85 { -1 } else if b == 86 { -2 } else if b == 87 { -3 } else if b == 88 { -1 }
        else if b == 89 { -2 } else if b == 90 { 4 } else if b == 42 { -4 }
        else { 0 }
    }
    else if a == 70 {  // row F
        if b == 65 { -2 } else if b == 66 { -3 } else if b == 67 { -2 } else if b == 68 { -3 } else if b == 69 { -3 } else if b == 70 { 6 }
        else if b == 71 { -3 } else if b == 72 { -1 } else if b == 73 { 0 } else if b == 74 { 0 } else if b == 75 { -3 } else if b == 76 { 0 }
        else if b == 77 { 0 } else if b == 78 { -3 } else if b == 79 { -1 } else if b == 80 { -4 } else if b == 81 { -3 } else if b == 82 { -3 }
        else if b == 83 { -2 } else if b == 84 { -2 } else if b == 85 { -1 } else if b == 86 { -1 } else if b == 87 { 1 } else if b == 88 { -1 }
        else if b == 89 { 3 } else if b == 90 { -3 } else if b == 42 { -4 }
        else { 0 }
    }
    else if a == 71 {  // row G
        if b == 65 { 0 } else if b == 66 { -1 } else if b == 67 { -3 } else if b == 68 { -1 } else if b == 69 { -2 } else if b == 70 { -3 }
        else if b == 71 { 6 } else if b == 72 { -2 } else if b == 73 { -4 } else if b == 74 { -4 } else if b == 75 { -2 } else if b == 76 { -4 }
        else if b == 77 { -3 } else if b == 78 { 0 } else if b == 79 { -1 } else if b == 80 { -2 } else if b == 81 { -2 } else if b == 82 { -2 }
        else if b == 83 { 0 } else if b == 84 { -2 } else if b == 85 { -1 } else if b == 86 { -3 } else if b == 87 { -2 } else if b == 88 { -1 }
        else if b == 89 { -3 } else if b == 90 { -2 } else if b == 42 { -4 }
        else { 0 }
    }
    else if a == 72 {  // row H
        if b == 65 { -2 } else if b == 66 { 0 } else if b == 67 { -3 } else if b == 68 { -1 } else if b == 69 { 0 } else if b == 70 { -1 }
        else if b == 71 { -2 } else if b == 72 { 8 } else if b == 73 { -3 } else if b == 74 { -3 } else if b == 75 { -1 } else if b == 76 { -3 }
        else if b == 77 { -2 } else if b == 78 { 1 } else if b == 79 { -1 } else if b == 80 { -2 } else if b == 81 { 0 } else if b == 82 { 0 }
        else if b == 83 { -1 } else if b == 84 { -2 } else if b == 85 { -1 } else if b == 86 { -3 } else if b == 87 { -2 } else if b == 88 { -1 }
        else if b == 89 { 2 } else if b == 90 { 0 } else if b == 42 { -4 }
        else { 0 }
    }
    else if a == 73 {  // row I
        if b == 65 { -1 } else if b == 66 { -3 } else if b == 67 { -1 } else if b == 68 { -3 } else if b == 69 { -3 } else if b == 70 { 0 }
        else if b == 71 { -4 } else if b == 72 { -3 } else if b == 73 { 4 } else if b == 74 { 3 } else if b == 75 { -3 } else if b == 76 { 2 }
        else if b == 77 { 1 } else if b == 78 { -3 } else if b == 79 { -1 } else if b == 80 { -3 } else if b == 81 { -3 } else if b == 82 { -3 }
        else if b == 83 { -2 } else if b == 84 { -1 } else if b == 85 { -1 } else if b == 86 { 3 } else if b == 87 { -3 } else if b == 88 { -1 }
        else if b == 89 { -1 } else if b == 90 { -3 } else if b == 42 { -4 }
        else { 0 }
    }
    else if a == 74 {  // row J
        if b == 65 { -1 } else if b == 66 { -4 } else if b == 67 { -1 } else if b == 68 { -4 } else if b == 69 { -3 } else if b == 70 { 0 }
        else if b == 71 { -4 } else if b == 72 { -3 } else if b == 73 { 3 } else if b == 74 { 3 } else if b == 75 { -3 } else if b == 76 { 3 }
        else if b == 77 { 2 } else if b == 78 { -3 } else if b == 79 { -1 } else if b == 80 { -3 } else if b == 81 { -3 } else if b == 82 { -3 }
        else if b == 83 { -2 } else if b == 84 { -1 } else if b == 85 { -1 } else if b == 86 { 2 } else if b == 87 { -3 } else if b == 88 { -1 }
        else if b == 89 { -1 } else if b == 90 { -3 } else if b == 42 { -4 }
        else { 0 }
    }
    else if a == 75 {  // row K
        if b == 65 { -1 } else if b == 66 { 0 } else if b == 67 { -3 } else if b == 68 { -1 } else if b == 69 { 1 } else if b == 70 { -3 }
        else if b == 71 { -2 } else if b == 72 { -1 } else if b == 73 { -3 } else if b == 74 { -3 } else if b == 75 { 5 } else if b == 76 { -2 }
        else if b == 77 { -1 } else if b == 78 { 0 } else if b == 79 { -1 } else if b == 80 { -1 } else if b == 81 { 1 } else if b == 82 { 2 }
        else if b == 83 { 0 } else if b == 84 { -1 } else if b == 85 { -1 } else if b == 86 { -2 } else if b == 87 { -3 } else if b == 88 { -1 }
        else if b == 89 { -2 } else if b == 90 { 1 } else if b == 42 { -4 }
        else { 0 }
    }
    else if a == 76 {  // row L
        if b == 65 { -1 } else if b == 66 { -4 } else if b == 67 { -1 } else if b == 68 { -4 } else if b == 69 { -3 } else if b == 70 { 0 }
        else if b == 71 { -4 } else if b == 72 { -3 } else if b == 73 { 2 } else if b == 74 { 3 } else if b == 75 { -2 } else if b == 76 { 4 }
        else if b == 77 { 2 } else if b == 78 { -3 } else if b == 79 { -1 } else if b == 80 { -3 } else if b == 81 { -2 } else if b == 82 { -2 }
        else if b == 83 { -2 } else if b == 84 { -1 } else if b == 85 { -1 } else if b == 86 { 1 } else if b == 87 { -2 } else if b == 88 { -1 }
        else if b == 89 { -1 } else if b == 90 { -3 } else if b == 42 { -4 }
        else { 0 }
    }
    else if a == 77 {  // row M
        if b == 65 { -1 } else if b == 66 { -3 } else if b == 67 { -1 } else if b == 68 { -3 } else if b == 69 { -2 } else if b == 70 { 0 }
        else if b == 71 { -3 } else if b == 72 { -2 } else if b == 73 { 1 } else if b == 74 { 2 } else if b == 75 { -1 } else if b == 76 { 2 }
        else if b == 77 { 5 } else if b == 78 { -2 } else if b == 79 { -1 } else if b == 80 { -2 } else if b == 81 { 0 } else if b == 82 { -1 }
        else if b == 83 { -1 } else if b == 84 { -1 } else if b == 85 { -1 } else if b == 86 { 1 } else if b == 87 { -1 } else if b == 88 { -1 }
        else if b == 89 { -1 } else if b == 90 { -1 } else if b == 42 { -4 }
        else { 0 }
    }
    else if a == 78 {  // row N
        if b == 65 { -2 } else if b == 66 { 3 } else if b == 67 { -3 } else if b == 68 { 1 } else if b == 69 { 0 } else if b == 70 { -3 }
        else if b == 71 { 0 } else if b == 72 { 1 } else if b == 73 { -3 } else if b == 74 { -3 } else if b == 75 { 0 } else if b == 76 { -3 }
        else if b == 77 { -2 } else if b == 78 { 6 } else if b == 79 { -1 } else if b == 80 { -2 } else if b == 81 { 0 } else if b == 82 { 0 }
        else if b == 83 { 1 } else if b == 84 { 0 } else if b == 85 { -1 } else if b == 86 { -3 } else if b == 87 { -4 } else if b == 88 { -1 }
        else if b == 89 { -2 } else if b == 90 { 0 } else if b == 42 { -4 }
        else { 0 }
    }
    else if a == 79 {  // row O
        if b == 65 { 0 } else if b == 66 { -1 } else if b == 67 { -2 } else if b == 68 { -1 } else if b == 69 { -1 } else if b == 70 { -1 }
        else if b == 71 { -1 } else if b == 72 { -1 } else if b == 73 { -1 } else if b == 74 { -1 } else if b == 75 { -1 } else if b == 76 { -1 }
        else if b == 77 { -1 } else if b == 78 { -1 } else if b == 79 { -1 } else if b == 80 { -2 } else if b == 81 { -1 } else if b == 82 { -1 }
        else if b == 83 { 0 } else if b == 84 { 0 } else if b == 85 { -1 } else if b == 86 { -1 } else if b == 87 { -2 } else if b == 88 { -1 }
        else if b == 89 { -1 } else if b == 90 { -1 } else if b == 42 { -4 }
        else { 0 }
    }
    else if a == 80 {  // row P
        if b == 65 { -1 } else if b == 66 { -2 } else if b == 67 { -3 } else if b == 68 { -1 } else if b == 69 { -1 } else if b == 70 { -4 }
        else if b == 71 { -2 } else if b == 72 { -2 } else if b == 73 { -3 } else if b == 74 { -3 } else if b == 75 { -1 } else if b == 76 { -3 }
        else if b == 77 { -2 } else if b == 78 { -2 } else if b == 79 { -2 } else if b == 80 { 7 } else if b == 81 { -1 } else if b == 82 { -2 }
        else if b == 83 { -1 } else if b == 84 { -1 } else if b == 85 { -2 } else if b == 86 { -2 } else if b == 87 { -4 } else if b == 88 { -2 }
        else if b == 89 { -3 } else if b == 90 { -1 } else if b == 42 { -4 }
        else { 0 }
    }
    else if a == 81 {  // row Q
        if b == 65 { -1 } else if b == 66 { 0 } else if b == 67 { -3 } else if b == 68 { 0 } else if b == 69 { 2 } else if b == 70 { -3 }
        else if b == 71 { -2 } else if b == 72 { 0 } else if b == 73 { -3 } else if b == 74 { -3 } else if b == 75 { 1 } else if b == 76 { -2 }
        else if b == 77 { 0 } else if b == 78 { 0 } else if b == 79 { -1 } else if b == 80 { -1 } else if b == 81 { 5 } else if b == 82 { 1 }
        else if b == 83 { 0 } else if b == 84 { -1 } else if b == 85 { -1 } else if b == 86 { -2 } else if b == 87 { -2 } else if b == 88 { -1 }
        else if b == 89 { -1 } else if b == 90 { 3 } else if b == 42 { -4 }
        else { 0 }
    }
    else if a == 82 {  // row R
        if b == 65 { -1 } else if b == 66 { -1 } else if b == 67 { -3 } else if b == 68 { -2 } else if b == 69 { 0 } else if b == 70 { -3 }
        else if b == 71 { -2 } else if b == 72 { 0 } else if b == 73 { -3 } else if b == 74 { -3 } else if b == 75 { 2 } else if b == 76 { -2 }
        else if b == 77 { -1 } else if b == 78 { 0 } else if b == 79 { -1 } else if b == 80 { -2 } else if b == 81 { 1 } else if b == 82 { 5 }
        else if b == 83 { -1 } else if b == 84 { -1 } else if b == 85 { -1 } else if b == 86 { -3 } else if b == 87 { -3 } else if b == 88 { -1 }
        else if b == 89 { -2 } else if b == 90 { 0 } else if b == 42 { -4 }
        else { 0 }
    }
    else if a == 83 {  // row S
        if b == 65 { 1 } else if b == 66 { 0 } else if b == 67 { -1 } else if b == 68 { 0 } else if b == 69 { 0 } else if b == 70 { -2 }
        else if b == 71 { 0 } else if b == 72 { -1 } else if b == 73 { -2 } else if b == 74 { -2 } else if b == 75 { 0 } else if b == 76 { -2 }
        else if b == 77 { -1 } else if b == 78 { 1 } else if b == 79 { 0 } else if b == 80 { -1 } else if b == 81 { 0 } else if b == 82 { -1 }
        else if b == 83 { 4 } else if b == 84 { 1 } else if b == 85 { 0 } else if b == 86 { -2 } else if b == 87 { -3 } else if b == 88 { 0 }
        else if b == 89 { -2 } else if b == 90 { 0 } else if b == 42 { -4 }
        else { 0 }
    }
    else if a == 84 {  // row T
        if b == 65 { 0 } else if b == 66 { -1 } else if b == 67 { -1 } else if b == 68 { -1 } else if b == 69 { -1 } else if b == 70 { -2 }
        else if b == 71 { -2 } else if b == 72 { -2 } else if b == 73 { -1 } else if b == 74 { -1 } else if b == 75 { -1 } else if b == 76 { -1 }
        else if b == 77 { -1 } else if b == 78 { 0 } else if b == 79 { 0 } else if b == 80 { -1 } else if b == 81 { -1 } else if b == 82 { -1 }
        else if b == 83 { 1 } else if b == 84 { 5 } else if b == 85 { 0 } else if b == 86 { 0 } else if b == 87 { -2 } else if b == 88 { 0 }
        else if b == 89 { -2 } else if b == 90 { -1 } else if b == 42 { -4 }
        else { 0 }
    }
    else if a == 85 {  // row U
        if b == 65 { 0 } else if b == 66 { -1 } else if b == 67 { -2 } else if b == 68 { -1 } else if b == 69 { -1 } else if b == 70 { -1 }
        else if b == 71 { -1 } else if b == 72 { -1 } else if b == 73 { -1 } else if b == 74 { -1 } else if b == 75 { -1 } else if b == 76 { -1 }
        else if b == 77 { -1 } else if b == 78 { -1 } else if b == 79 { -1 } else if b == 80 { -2 } else if b == 81 { -1 } else if b == 82 { -1 }
        else if b == 83 { 0 } else if b == 84 { 0 } else if b == 85 { -1 } else if b == 86 { -1 } else if b == 87 { -2 } else if b == 88 { -1 }
        else if b == 89 { -1 } else if b == 90 { -1 } else if b == 42 { -4 }
        else { 0 }
    }
    else if a == 86 {  // row V
        if b == 65 { 0 } else if b == 66 { -3 } else if b == 67 { -1 } else if b == 68 { -3 } else if b == 69 { -2 } else if b == 70 { -1 }
        else if b == 71 { -3 } else if b == 72 { -3 } else if b == 73 { 3 } else if b == 74 { 2 } else if b == 75 { -2 } else if b == 76 { 1 }
        else if b == 77 { 1 } else if b == 78 { -3 } else if b == 79 { -1 } else if b == 80 { -2 } else if b == 81 { -2 } else if b == 82 { -3 }
        else if b == 83 { -2 } else if b == 84 { 0 } else if b == 85 { -1 } else if b == 86 { 4 } else if b == 87 { -3 } else if b == 88 { -1 }
        else if b == 89 { -1 } else if b == 90 { -2 } else if b == 42 { -4 }
        else { 0 }
    }
    else if a == 87 {  // row W
        if b == 65 { -3 } else if b == 66 { -4 } else if b == 67 { -2 } else if b == 68 { -4 } else if b == 69 { -3 } else if b == 70 { 1 }
        else if b == 71 { -2 } else if b == 72 { -2 } else if b == 73 { -3 } else if b == 74 { -3 } else if b == 75 { -3 } else if b == 76 { -2 }
        else if b == 77 { -1 } else if b == 78 { -4 } else if b == 79 { -2 } else if b == 80 { -4 } else if b == 81 { -2 } else if b == 82 { -3 }
        else if b == 83 { -3 } else if b == 84 { -2 } else if b == 85 { -2 } else if b == 86 { -3 } else if b == 87 { 11 } else if b == 88 { -2 }
        else if b == 89 { 2 } else if b == 90 { -3 } else if b == 42 { -4 }
        else { 0 }
    }
    else if a == 88 {  // row X
        if b == 65 { 0 } else if b == 66 { -1 } else if b == 67 { -2 } else if b == 68 { -1 } else if b == 69 { -1 } else if b == 70 { -1 }
        else if b == 71 { -1 } else if b == 72 { -1 } else if b == 73 { -1 } else if b == 74 { -1 } else if b == 75 { -1 } else if b == 76 { -1 }
        else if b == 77 { -1 } else if b == 78 { -1 } else if b == 79 { -1 } else if b == 80 { -2 } else if b == 81 { -1 } else if b == 82 { -1 }
        else if b == 83 { 0 } else if b == 84 { 0 } else if b == 85 { -1 } else if b == 86 { -1 } else if b == 87 { -2 } else if b == 88 { -1 }
        else if b == 89 { -1 } else if b == 90 { -1 } else if b == 42 { -4 }
        else { 0 }
    }
    else if a == 89 {  // row Y
        if b == 65 { -2 } else if b == 66 { -3 } else if b == 67 { -2 } else if b == 68 { -3 } else if b == 69 { -2 } else if b == 70 { 3 }
        else if b == 71 { -3 } else if b == 72 { 2 } else if b == 73 { -1 } else if b == 74 { -1 } else if b == 75 { -2 } else if b == 76 { -1 }
        else if b == 77 { -1 } else if b == 78 { -2 } else if b == 79 { -1 } else if b == 80 { -3 } else if b == 81 { -1 } else if b == 82 { -2 }
        else if b == 83 { -2 } else if b == 84 { -2 } else if b == 85 { -1 } else if b == 86 { -1 } else if b == 87 { 2 } else if b == 88 { -1 }
        else if b == 89 { 7 } else if b == 90 { -2 } else if b == 42 { -4 }
        else { 0 }
    }
    else if a == 90 {  // row Z
        if b == 65 { -1 } else if b == 66 { 1 } else if b == 67 { -3 } else if b == 68 { 1 } else if b == 69 { 4 } else if b == 70 { -3 }
        else if b == 71 { -2 } else if b == 72 { 0 } else if b == 73 { -3 } else if b == 74 { -3 } else if b == 75 { 1 } else if b == 76 { -3 }
        else if b == 77 { -1 } else if b == 78 { 0 } else if b == 79 { -1 } else if b == 80 { -1 } else if b == 81 { 3 } else if b == 82 { 0 }
        else if b == 83 { 0 } else if b == 84 { -1 } else if b == 85 { -1 } else if b == 86 { -2 } else if b == 87 { -3 } else if b == 88 { -1 }
        else if b == 89 { -2 } else if b == 90 { 4 } else if b == 42 { -4 }
        else { 0 }
    }
    else if a == 42 {  // row the stop symbol *
        if b == 65 { -4 } else if b == 66 { -4 } else if b == 67 { -4 } else if b == 68 { -4 } else if b == 69 { -4 } else if b == 70 { -4 }
        else if b == 71 { -4 } else if b == 72 { -4 } else if b == 73 { -4 } else if b == 74 { -4 } else if b == 75 { -4 } else if b == 76 { -4 }
        else if b == 77 { -4 } else if b == 78 { -4 } else if b == 79 { -4 } else if b == 80 { -4 } else if b == 81 { -4 } else if b == 82 { -4 }
        else if b == 83 { -4 } else if b == 84 { -4 } else if b == 85 { -4 } else if b == 86 { -4 } else if b == 87 { -4 } else if b == 88 { -4 }
        else if b == 89 { -4 } else if b == 90 { -4 } else if b == 42 { 1 }
        else { 0 }
    }
    else { 0 }
}

/// Executable BLOSUM62 lookup, proved equal to the table above.
#[verifier::rlimit(60)]
pub fn blosum62(a: u8, b: u8) -> (r: i32)
    requires
        is_residue(a),
        is_residue(b),
    ensures
        r as int == blosum62_spec(a, b),
        -4 <= r <= 11,
{
    if a == 65 {  // row A
        if b == 65 { 4 } else if b == 66 { -2 } else if b == 67 { 0 } else if b == 68 { -2 } else if b == 69 { -1 } else if b == 70 { -2 }
        else if b == 71 { 0 } else if b == 72 { -2 } else if b == 73 { -1 } else if b == 74 { -1 } else if b == 75 { -1 } else if b == 76 { -1 }
        else if b == 77 { -1 } else if b == 78 { -2 } else if b == 79 { 0 } else if b == 80 { -1 } else if b == 81 { -1 } else if b == 82 { -1 }
        else if b == 83 { 1 } else if b == 84 { 0 } else if b == 85 { 0 } else if b == 86 { 0 } else if b == 87 { -3 } else if b == 88 { 0 }
        else if b == 89 { -2 } else if b == 90 { -1 } else if b == 42 { -4 }
        else { 0 }
    }
    else if a == 66 {  // row B
        if b == 65 { -2 } else if b == 66 { 4 } else if b == 67 { -3 } else if b == 68 { 4 } else if b == 69 { 1 } else if b == 70 { -3 }
        else if b == 71 { -1 } else if b == 72 { 0 } else if b == 73 { -3 } else if b == 74 { -4 } else if b == 75 { 0 } else if b == 76 { -4 }
        else if b == 77 { -3 } else if b == 78 { 3 } else if b == 79 { -1 } else if b == 80 { -2 } else if b == 81 { 0 } else if b == 82 { -1 }
        else if b == 83 { 0 } else if b == 84 { -1 } else if b == 85 { -1 } else if b == 86 { -3 } else if b == 87 { -4 } else if b == 88 { -1 }
        else if b == 89 { -3 } else if b == 90 { 1 } else if b == 42 { -4 }
        else { 0 }
    }
    else if a == 67 {  // row C
        if b == 65 { 0 } else if b == 66 { -3 } else if b == 67 { 9 } else if b == 68 { -3 } else if b == 69 { -4 } else if b == 70 { -2 }
        else if b == 71 { -3 } else if b == 72 { -3 } else if b == 73 { -1 } else if b == 74 { -1 } else if b == 75 { -3 } else if b == 76 { -1 }
        else if b == 77 { -1 } else if b == 78 { -3 } else if b == 79 { -2 } else if b == 80 { -3 } else if b == 81 { -3 } else if b == 82 { -3 }
        else if b == 83 { -1 } else if b == 84 { -1 } else if b == 85 { -2 } else if b == 86 { -1 } else if b == 87 { -2 } else if b == 88 { -2 }
        else if b == 89 { -2 } else if b == 90 { -3 } else if b == 42 { -4 }
        else { 0 }
    }
    else if a == 68 {  // row D
        if b == 65 { -2 } else if b == 66 { 4 } else if b == 67 { -3 } else if b == 68 { 6 } else if b == 69 { 2 } else if b == 70 { -3 }
        else if b == 71 { -1 } else if b == 72 { -1 } else if b == 73 { -3 } else if b == 74 { -4 } else if b == 75 { -1 } else if b == 76 { -4 }
        else if b == 77 { -3 } else if b == 78 { 1 } else if b == 79 { -1 } else if b == 80 { -1 } else if b == 81 { 0 } else if b == 82 { -2 }
        else if b == 83 { 0 } else if b == 84 { -1 } else if b == 85 { -1 } else if b == 86 { -3 } else if b == 87 { -4 } else if b == 88 { -1 }
        else if b == 89 { -3 } else if b == 90 { 1 } else if b == 42 { -4 }
        else { 0 }
    }
    else if a == 69 {  // row E
        if b == 65 { -1 } else if b == 66 { 1 } else if b == 67 { -4 } else if b == 68 { 2 } else if b == 69 { 5 } else if b == 70 { -3 }
        else if b == 71 { -2 } else if b == 72 { 0 } else if b == 73 { -3 } else if b == 74 { -3 } else if b == 75 { 1 } else if b == 76 { -3 }
        else if b == 77 { -2 } else if b == 78 { 0 } else if b == 79 { -1 } else if b == 80 { -1 } else if b == 81 { 2 } else if b == 82 { 0 }
        else if b == 83 { 0 } else if b == 84 { -1 } else if b == 85 { -1 } else if b == 86 { -2 } else if b == 87 { -3 } else if b == 88 { -1 }
        else if b == 89 { -2 } else if b == 90 { 4 } else if b == 42 { -4 }
        else { 0 }
    }
    else if a == 70 {  // row F
        if b == 65 { -2 } else if b == 66 { -3 } else if b == 67 { -2 } else if b == 68 { -3 } else if b == 69 { -3 } else if b == 70 { 6 }
        else if b == 71 { -3 } else if b == 72 { -1 } else if b == 73 { 0 } else if b == 74 { 0 } else if b == 75 { -3 } else if b == 76 { 0 }
        else if b == 77 { 0 } else if b == 78 { -3 } else if b == 79 { -1 } else if b == 80 { -4 } else if b == 81 { -3 } else if b == 82 { -3 }
        else if b == 83 { -2 } else if b == 84 { -2 } else if b == 85 { -1 } else if b == 86 { -1 } else if b == 87 { 1 } else if b == 88 { -1 }
        else if b == 89 { 3 } else if b == 90 { -3 } else if b == 42 { -4 }
        else { 0 }
    }
    else if a == 71 {  // row G
        if b == 65 { 0 } else if b == 66 { -1 } else if b == 67 { -3 } else if b == 68 { -1 } else if b == 69 { -2 } else if b == 70 { -3 }
        else if b == 71 { 6 } else if b == 72 { -2 } else if b == 73 { -4 } else if b == 74 { -4 } else if b == 75 { -2 } else if b == 76 { -4 }
        else if b == 77 { -3 } else if b == 78 { 0 } else if b == 79 { -1 } else if b == 80 { -2 } else if b == 81 { -2 } else if b == 82 { -2 }
        else if b == 83 { 0 } else if b == 84 { -2 } else if b == 85 { -1 } else if b == 86 { -3 } else if b == 87 { -2 } else if b == 88 { -1 }
        else if b == 89 { -3 } else if b == 90 { -2 } else if b == 42 { -4 }
        else { 0 }
    }
    else if a == 72 {  // row H
        if b == 65 { -2 } else if b == 66 { 0 } else if b == 67 { -3 } else if b == 68 { -1 } else if b == 69 { 0 } else if b == 70 { -1 }
        else if b == 71 { -2 } else if b == 72 { 8 } else if b == 73 { -3 } else if b == 74 { -3 } else if b == 75 { -1 } else if b == 76 { -3 }
        else if b == 77 { -2 } else if b == 78 { 1 } else if b == 79 { -1 } else if b == 80 { -2 } else if b == 81 { 0 } else if b == 82 { 0 }
        else if b == 83 { -1 } else if b == 84 { -2 } else if b == 85 { -1 } else if b == 86 { -3 } else if b == 87 { -2 } else if b == 88 { -1 }
        else if b == 89 { 2 } else if b == 90 { 0 } else if b == 42 { -4 }
        else { 0 }
    }
    else if a == 73 {  // row I
        if b == 65 { -1 } else if b == 66 { -3 } else if b == 67 { -1 } else if b == 68 { -3 } else if b == 69 { -3 } else if b == 70 { 0 }
        else if b == 71 { -4 } else if b == 72 { -3 } else if b == 73 { 4 } else if b == 74 { 3 } else if b == 75 { -3 } else if b == 76 { 2 }
        else if b == 77 { 1 } else if b == 78 { -3 } else if b == 79 { -1 } else if b == 80 { -3 } else if b == 81 { -3 } else if b == 82 { -3 }
        else if b == 83 { -2 } else if b == 84 { -1 } else if b == 85 { -1 } else if b == 86 { 3 } else if b == 87 { -3 } else if b == 88 { -1 }
        else if b == 89 { -1 } else if b == 90 { -3 } else if b == 42 { -4 }
        else { 0 }
    }
    else if a == 74 {  // row J
        if b == 65 { -1 } else if b == 66 { -4 } else if b == 67 { -1 } else if b == 68 { -4 } else if b == 69 { -3 } else if b == 70 { 0 }
        else if b == 71 { -4 } else if b == 72 { -3 } else if b == 73 { 3 } else if b == 74 { 3 } else if b == 75 { -3 } else if b == 76 { 3 }
        else if b == 77 { 2 } else if b == 78 { -3 } else if b == 79 { -1 } else if b == 80 { -3 } else if b == 81 { -3 } else if b == 82 { -3 }
        else if b == 83 { -2 } else if b == 84 { -1 } else if b == 85 { -1 } else if b == 86 { 2 } else if b == 87 { -3 } else if b == 88 { -1 }
        else if b == 89 { -1 } else if b == 90 { -3 } else if b == 42 { -4 }
        else { 0 }
    }
    else if a == 75 {  // row K
        if b == 65 { -1 } else if b == 66 { 0 } else if b == 67 { -3 } else if b == 68 { -1 } else if b == 69 { 1 } else if b == 70 { -3 }
        else if b == 71 { -2 } else if b == 72 { -1 } else if b == 73 { -3 } else if b == 74 { -3 } else if b == 75 { 5 } else if b == 76 { -2 }
        else if b == 77 { -1 } else if b == 78 { 0 } else if b == 79 { -1 } else if b == 80 { -1 } else if b == 81 { 1 } else if b == 82 { 2 }
        else if b == 83 { 0 } else if b == 84 { -1 } else if b == 85 { -1 } else if b == 86 { -2 } else if b == 87 { -3 } else if b == 88 { -1 }
        else if b == 89 { -2 } else if b == 90 { 1 } else if b == 42 { -4 }
        else { 0 }
    }
    else if a == 76 {  // row L
        if b == 65 { -1 } else if b == 66 { -4 } else if b == 67 { -1 } else if b == 68 { -4 } else if b == 69 { -3 } else if b == 70 { 0 }
        else if b == 71 { -4 } else if b == 72 { -3 } else if b == 73 { 2 } else if b == 74 { 3 } else if b == 75 { -2 } else if b == 76 { 4 }
        else if b == 77 { 2 } else if b == 78 { -3 } else if b == 79 { -1 } else if b == 80 { -3 } else if b == 81 { -2 } else if b == 82 { -2 }
        else if b == 83 { -2 } else if b == 84 { -1 } else if b == 85 { -1 } else if b == 86 { 1 } else if b == 87 { -2 } else if b == 88 { -1 }
        else if b == 89 { -1 } else if b == 90 { -3 } else if b == 42 { -4 }
        else { 0 }
    }
    else if a == 77 {  // row M
        if b == 65 { -1 } else if b == 66 { -3 } else if b == 67 { -1 } else if b == 68 { -3 } else if b == 69 { -2 } else if b == 70 { 0 }
        else if b == 71 { -3 } else if b == 72 { -2 } else if b == 73 { 1 } else if b == 74 { 2 } else if b == 75 { -1 } else if b == 76 { 2 }
        else if b == 77 { 5 } else if b == 78 { -2 } else if b == 79 { -1 } else if b == 80 { -2 } else if b == 81 { 0 } else if b == 82 { -1 }
        else if b == 83 { -1 } else if b == 84 { -1 } else if b == 85 { -1 } else if b == 86 { 1 } else if b == 87 { -1 } else if b == 88 { -1 }
        else if b == 89 { -1 } else if b == 90 { -1 } else if b == 42 { -4 }
        else { 0 }
    }
    else if a == 78 {  // row N
        if b == 65 { -2 } else if b == 66 { 3 } else if b == 67 { -3 } else if b == 68 { 1 } else if b == 69 { 0 } else if b == 70 { -3 }
        else if b == 71 { 0 } else if b == 72 { 1 } else if b == 73 { -3 } else if b == 74 { -3 } else if b == 75 { 0 } else if b == 76 { -3 }
        else if b == 77 { -2 } else if b == 78 { 6 } else if b == 79 { -1 } else if b == 80 { -2 } else if b == 81 { 0 } else if b == 82 { 0 }
        else if b == 83 { 1 } else if b == 84 { 0 } else if b == 85 { -1 } else if b == 86 { -3 } else if b == 87 { -4 } else if b == 88 { -1 }
        else if b == 89 { -2 } else if b == 90 { 0 } else if b == 42 { -4 }
        else { 0 }
    }
    else if a == 79 {  // row O
        if b == 65 { 0 } else if b == 66 { -1 } else if b == 67 { -2 } else if b == 68 { -1 } else if b == 69 { -1 } else if b == 70 { -1 }
        else if b == 71 { -1 } else if b == 72 { -1 } else if b == 73 { -1 } else if b == 74 { -1 } else if b == 75 { -1 } else if b == 76 { -1 }
        else if b == 77 { -1 } else if b == 78 { -1 } else if b == 79 { -1 } else if b == 80 { -2 } else if b == 81 { -1 } else if b == 82 { -1 }
        else if b == 83 { 0 } else if b == 84 { 0 } else if b == 85 { -1 } else if b == 86 { -1 } else if b == 87 { -2 } else if b == 88 { -1 }
        else if b == 89 { -1 } else if b == 90 { -1 } else if b == 42 { -4 }
        else { 0 }
    }
    else if a == 80 {  // row P
        if b == 65 { -1 } else if b == 66 { -2 } else if b == 67 { -3 } else if b == 68 { -1 } else if b == 69 { -1 } else if b == 70 { -4 }
        else if b == 71 { -2 } else if b == 72 { -2 } else if b == 73 { -3 } else if b == 74 { -3 } else if b == 75 { -1 } else if b == 76 { -3 }
        else if b == 77 { -2 } else if b == 78 { -2 } else if b == 79 { -2 } else if b == 80 { 7 } else if b == 81 { -1 } else if b == 82 { -2 }
        else if b == 83 { -1 } else if b == 84 { -1 } else if b == 85 { -2 } else if b == 86 { -2 } else if b == 87 { -4 } else if b == 88 { -2 }
        else if b == 89 { -3 } else if b == 90 { -1 } else if b == 42 { -4 }
        else { 0 }
    }
    else if a == 81 {  // row Q
        if b == 65 { -1 } else if b == 66 { 0 } else if b == 67 { -3 } else if b == 68 { 0 } else if b == 69 { 2 } else if b == 70 { -3 }
        else if b == 71 { -2 } else if b == 72 { 0 } else if b == 73 { -3 } else if b == 74 { -3 } else if b == 75 { 1 } else if b == 76 { -2 }
        else if b == 77 { 0 } else if b == 78 { 0 } else if b == 79 { -1 } else if b == 80 { -1 } else if b == 81 { 5 } else if b == 82 { 1 }
        else if b == 83 { 0 } else if b == 84 { -1 } else if b == 85 { -1 } else if b == 86 { -2 } else if b == 87 { -2 } else if b == 88 { -1 }
        else if b == 89 { -1 } else if b == 90 { 3 } else if b == 42 { -4 }
        else { 0 }
    }
    else if a == 82 {  // row R
        if b == 65 { -1 } else if b == 66 { -1 } else if b == 67 { -3 } else if b == 68 { -2 } else if b == 69 { 0 } else if b == 70 { -3 }
        else if b == 71 { -2 } else if b == 72 { 0 } else if b == 73 { -3 } else if b == 74 { -3 } else if b == 75 { 2 } else if b == 76 { -2 }
        else if b == 77 { -1 } else if b == 78 { 0 } else if b == 79 { -1 } else if b == 80 { -2 } else if b == 81 { 1 } else if b == 82 { 5 }
        else if b == 83 { -1 } else if b == 84 { -1 } else if b == 85 { -1 } else if b == 86 { -3 } else if b == 87 { -3 } else if b == 88 { -1 }
        else if b == 89 { -2 } else if b == 90 { 0 } else if b == 42 { -4 }
        else { 0 }
    }
    else if a == 83 {  // row S
        if b == 65 { 1 } else if b == 66 { 0 } else if b == 67 { -1 } else if b == 68 { 0 } else if b == 69 { 0 } else if b == 70 { -2 }
        else if b == 71 { 0 } else if b == 72 { -1 } else if b == 73 { -2 } else if b == 74 { -2 } else if b == 75 { 0 } else if b == 76 { -2 }
        else if b == 77 { -1 } else if b == 78 { 1 } else if b == 79 { 0 } else if b == 80 { -1 } else if b == 81 { 0 } else if b == 82 { -1 }
        else if b == 83 { 4 } else if b == 84 { 1 } else if b == 85 { 0 } else if b == 86 { -2 } else if b == 87 { -3 } else if b == 88 { 0 }
        else if b == 89 { -2 } else if b == 90 { 0 } else if b == 42 { -4 }
        else { 0 }
    }
    else if a == 84 {  // row T
        if b == 65 { 0 } else if b == 66 { -1 } else if b == 67 { -1 } else if b == 68 { -1 } else if b == 69 { -1 } else if b == 70 { -2 }
        else if b == 71 { -2 } else if b == 72 { -2 } else if b == 73 { -1 } else if b == 74 { -1 } else if b == 75 { -1 } else if b == 76 { -1 }
        else if b == 77 { -1 } else if b == 78 { 0 } else if b == 79 { 0 } else if b == 80 { -1 } else if b == 81 { -1 } else if b == 82 { -1 }
        else if b == 83 { 1 } else if b == 84 { 5 } else if b == 85 { 0 } else if b == 86 { 0 } else if b == 87 { -2 } else if b == 88 { 0 }
        else if b == 89 { -2 } else if b == 90 { -1 } else if b == 42 { -4 }
        else { 0 }
    }
    else if a == 85 {  // row U
        if b == 65 { 0 } else if b == 66 { -1 } else if b == 67 { -2 } else if b == 68 { -1 } else if b == 69 { -1 } else if b == 70 { -1 }
        else if b == 71 { -1 } else if b == 72 { -1 } else if b == 73 { -1 } else if b == 74 { -1 } else if b == 75 { -1 } else if b == 76 { -1 }
        else if b == 77 { -1 } else if b == 78 { -1 } else if b == 79 { -1 } else if b == 80 { -2 } else if b == 81 { -1 } else if b == 82 { -1 }
        else if b == 83 { 0 } else if b == 84 { 0 } else if b == 85 { -1 } else if b == 86 { -1 } else if b == 87 { -2 } else if b == 88 { -1 }
        else if b == 89 { -1 } else if b == 90 { -1 } else if b == 42 { -4 }
        else { 0 }
    }
    else if a == 86 {  // row V
        if b == 65 { 0 } else if b == 66 { -3 } else if b == 67 { -1 } else if b == 68 { -3 } else if b == 69 { -2 } else if b == 70 { -1 }
        else if b == 71 { -3 } else if b == 72 { -3 } else if b == 73 { 3 } else if b == 74 { 2 } else if b == 75 { -2 } else if b == 76 { 1 }
        else if b == 77 { 1 } else if b == 78 { -3 } else if b == 79 { -1 } else if b == 80 { -2 } else if b == 81 { -2 } else if b == 82 { -3 }
        else if b == 83 { -2 } else if b == 84 { 0 } else if b == 85 { -1 } else if b == 86 { 4 } else if b == 87 { -3 } else if b == 88 { -1 }
        else if b == 89 { -1 } else if b == 90 { -2 } else if b == 42 { -4 }
        else { 0 }
    }
    else if a == 87 {  // row W
        if b == 65 { -3 } else if b == 66 { -4 } else if b == 67 { -2 } else if b == 68 { -4 } else if b == 69 { -3 } else if b == 70 { 1 }
        else if b == 71 { -2 } else if b == 72 { -2 } else if b == 73 { -3 } else if b == 74 { -3 } else if b == 75 { -3 } else if b == 76 { -2 }
        else if b == 77 { -1 } else if b == 78 { -4 } else if b == 79 { -2 } else if b == 80 { -4 } else if b == 81 { -2 } else if b == 82 { -3 }
        else if b == 83 { -3 } else if b == 84 { -2 } else if b == 85 { -2 } else if b == 86 { -3 } else if b == 87 { 11 } else if b == 88 { -2 }
        else if b == 89 { 2 } else if b == 90 { -3 } else if b == 42 { -4 }
        else { 0 }
    }
    else if a == 88 {  // row X
        if b == 65 { 0 } else if b == 66 { -1 } else if b == 67 { -2 } else if b == 68 { -1 } else if b == 69 { -1 } else if b == 70 { -1 }
        else if b == 71 { -1 } else if b == 72 { -1 } else if b == 73 { -1 } else if b == 74 { -1 } else if b == 75 { -1 } else if b == 76 { -1 }
        else if b == 77 { -1 } else if b == 78 { -1 } else if b == 79 { -1 } else if b == 80 { -2 } else if b == 81 { -1 } else if b == 82 { -1 }
        else if b == 83 { 0 } else if b == 84 { 0 } else if b == 85 { -1 } else if b == 86 { -1 } else if b == 87 { -2 } else if b == 88 { -1 }
        else if b == 89 { -1 } else if b == 90 { -1 } else if b == 42 { -4 }
        else { 0 }
    }
    else if a == 89 {  // row Y
        if b == 65 { -2 } else if b == 66 { -3 } else if b == 67 { -2 } else if b == 68 { -3 } else if b == 69 { -2 } else if b == 70 { 3 }
        else if b == 71 { -3 } else if b == 72 { 2 } else if b == 73 { -1 } else if b == 74 { -1 } else if b == 75 { -2 } else if b == 76 { -1 }
        else if b == 77 { -1 } else if b == 78 { -2 } else if b == 79 { -1 } else if b == 80 { -3 } else if b == 81 { -1 } else if b == 82 { -2 }
        else if b == 83 { -2 } else if b == 84 { -2 } else if b == 85 { -1 } else if b == 86 { -1 } else if b == 87 { 2 } else if b == 88 { -1 }
        else if b == 89 { 7 } else if b == 90 { -2 } else if b == 42 { -4 }
        else { 0 }
    }
    else if a == 90 {  // row Z
        if b == 65 { -1 } else if b == 66 { 1 } else if b == 67 { -3 } else if b == 68 { 1 } else if b == 69 { 4 } else if b == 70 { -3 }
        else if b == 71 { -2 } else if b == 72 { 0 } else if b == 73 { -3 } else if b == 74 { -3 } else if b == 75 { 1 } else if b == 76 { -3 }
        else if b == 77 { -1 } else if b == 78 { 0 } else if b == 79 { -1 } else if b == 80 { -1 } else if b == 81 { 3 } else if b == 82 { 0 }
        else if b == 83 { 0 } else if b == 84 { -1 } else if b == 85 { -1 } else if b == 86 { -2 } else if b == 87 { -3 } else if b == 88 { -1 }
        else if b == 89 { -2 } else if b == 90 { 4 } else if b == 42 { -4 }
        else { 0 }
    }
    else if a == 42 {  // row the stop symbol *
        if b == 65 { -4 } else if b == 66 { -4 } else if b == 67 { -4 } else if b == 68 { -4 } else if b == 69 { -4 } else if b == 70 { -4 }
        else if b == 71 { -4 } else if b == 72 { -4 } else if b == 73 { -4 } else if b == 74 { -4 } else if b == 75 { -4 } else if b == 76 { -4 }
        else if b == 77 { -4 } else if b == 78 { -4 } else if b == 79 { -4 } else if b == 80 { -4 } else if b == 81 { -4 } else if b == 82 { -4 }
        else if b == 83 { -4 } else if b == 84 { -4 } else if b == 85 { -4 } else if b == 86 { -4 } else if b == 87 { -4 } else if b == 88 { -4 }
        else if b == 89 { -4 } else if b == 90 { -4 } else if b == 42 { 1 }
        else { 0 }
    }
    else { 0 }
}

/// The matrix is symmetric: the score of a pair does not depend on the order
/// of its residues.
pub proof fn lemma_blosum62_symmetric(a: u8, b: u8)
    ensures
        blosum62_spec(a, b) == blosum62_spec(b, a),
{
}

/// No pair scores above the better of the two self-substitution scores, so a
/// substitution can never beat the ceiling the similarity metric charges for it.
pub proof fn lemma_blosum62_le_self_max(a: u8, b: u8)
    ensures
        blosum62_spec(a, b) <= blosum62_spec(a, a) || blosum62_spec(a, b) <= blosum62_spec(b, b),
{
}

/// Every self-substitution score is at least -1, and every entry of the
/// matrix lies between -4 and 11.
pub proof fn lemma_blosum62_bounds(a: u8, b: u8)
    ensures
        -4 <= blosum62_spec(a, b) <= 11,
        blosum62_spec(a, a) >= -1,
{
}

} // verus!
