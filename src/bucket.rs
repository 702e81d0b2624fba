use vstd::prelude::*;

verus! {

/// Number of squares on the board.
pub const SQUARE_COUNT: usize = 64;

/// Number of parameter buckets; bucket `k` covers the eight squares `8k .. 8k + 7`.
pub const BUCKET_COUNT: usize = 8;

/// The bucket that a king on square `square` (0..63) selects.
pub open spec fn bucket_of(square: int) -> int {
    square / 8
}

/// Maps a king square to the parameter bucket used for it, both at training
/// time and when the inference engine picks a bucket from the exported file.
pub fn bucket_index(square: u8) -> (r: u8)
    requires
        (square as usize) < SQUARE_COUNT,
    ensures
        r as int == bucket_of(square as int),
        (r as usize) < BUCKET_COUNT,
{
    square / 8
}

/// The bucket of every square, indexed by square.
pub fn bucket_layout() -> (r: Vec<usize>)
    ensures
        r@.len() == SQUARE_COUNT,
        forall|i: int| 0 <= i < SQUARE_COUNT ==> r@[i] as int == bucket_of(i),
{
    let mut r: Vec<usize> = Vec::new();
    let mut i: usize = 0;
    while i < SQUARE_COUNT
        invariant
            i <= SQUARE_COUNT,
            r@.len() == i,
            forall|j: int| 0 <= j < i ==> r@[j] as int == bucket_of(j),
        decreases SQUARE_COUNT - i,
    {
        r.push(i / 8);
        i = i + 1;
    }
    r
}

} // verus!
