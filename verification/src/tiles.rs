//! Checks on a tile configuration: well-formedness, inversion parity and the
//! ready-made-run detector.

use vstd::prelude::*;
use crate::error::PazzleError;

verus! {

/// Number of cells on the board.
pub const SIZE: usize = 16;

/// Sixteen distinct values, each in `0..=15`. The value `0` is the blank;
/// cell `i` lies in row `i / 4`, column `i % 4`.
pub open spec fn is_configuration(s: Seq<u8>) -> bool {
    &&& s.len() == 16
    &&& forall|i: int| 0 <= i < 16 ==> #[trigger] s[i] <= 15
    &&& forall|i: int, j: int| 0 <= i < j < 16 ==> #[trigger] s[i] != #[trigger] s[j]
}

/// Accepts exactly the configurations: any other length, any value above 15
/// and any repeated value, wherever it stands, is rejected.
pub fn validate_configuration(tiles: &[u8]) -> (r: Result<(), PazzleError>)
    ensures
        r is Ok <==> is_configuration(tiles@),
        r is Err ==> r == Err::<(), PazzleError>(PazzleError::MalformedConfiguration),
{
    if tiles.len() != SIZE {
        return Err(PazzleError::MalformedConfiguration);
    }
    let mut i: usize = 0;
    while i < SIZE
        invariant
            tiles@.len() == 16,
            i <= 16,
            forall|a: int| 0 <= a < i ==> #[trigger] tiles@[a] <= 15,
            forall|a: int, b: int| 0 <= a < i && 0 <= b < 16 && a != b ==> #[trigger] tiles@[a] != #[trigger] tiles@[b],
        decreases 16 - i,
    {
        let buff: u8 = tiles[i];
        if buff > 15 {
            return Err(PazzleError::MalformedConfiguration);
        }
        let mut j: usize = 0;
        while j < SIZE
            invariant
                tiles@.len() == 16,
                i < 16,
                j <= 16,
                buff == tiles@[i as int],
                forall|b: int| 0 <= b < j && b != i ==> buff != #[trigger] tiles@[b],
            decreases 16 - j,
        {
            if i != j && buff == tiles[j] {
                return Err(PazzleError::MalformedConfiguration);
            }
            j += 1;
        }
        i += 1;
    }
    Ok(())
}

/// How many of the first `k` cells hold a larger value than cell `j`.
pub open spec fn larger_before(s: Seq<u8>, j: int, k: int) -> nat
    decreases k,
{
    if k <= 0 {
        0
    } else {
        larger_before(s, j, k - 1) + (if s[k - 1] > s[j] { 1nat } else { 0nat })
    }
}

/// The number of inversions among the first `n` cells: pairs of cells
/// `i < j < n` with `s[i] > s[j]`. The blank counts like any other value.
pub open spec fn inversions(s: Seq<u8>, n: int) -> nat
    decreases n,
{
    if n <= 0 {
        0
    } else {
        inversions(s, n - 1) + larger_before(s, n - 1, n - 1)
    }
}

/// The parity rule for starting boards: the number of inversions over all
/// sixteen cells is even. The row of the blank plays no part in it.
pub open spec fn solvable(s: Seq<u8>) -> bool {
    inversions(s, 16) % 2 == 0
}

/// Cells `i ..= i + 4` hold five values that rise by one from cell to cell.
pub open spec fn run_at(s: Seq<u8>, i: int) -> bool {
    &&& s[i + 1] == s[i] + 1
    &&& s[i + 2] == s[i] + 2
    &&& s[i + 3] == s[i] + 3
    &&& s[i + 4] == s[i] + 4
}

/// Some run of five rising values starts in one of the first twelve cells.
pub open spec fn has_easy_run(s: Seq<u8>) -> bool {
    exists|i: int| 0 <= i < 12 && run_at(s, i)
}

/// Whether the board passes the parity rule for starting boards.
pub fn is_solvable(tiles: &[u8; 16]) -> (r: bool)
    ensures
        r == solvable(tiles@),
{
    let mut count_inversions: u32 = 0;
    let mut i: usize = 0;
    while i < SIZE
        invariant
            i <= 16,
            count_inversions == inversions(tiles@, i as int),
            count_inversions <= 16 * i,
        decreases 16 - i,
    {
        let mut larger: u32 = 0;
        let mut j: usize = 0;
        while j < i
            invariant
                j <= i < 16,
                larger == larger_before(tiles@, i as int, j as int),
                larger <= j,
            decreases i - j,
        {
            if tiles[j] > tiles[i] {
                larger += 1;
            }
            j += 1;
        }
        count_inversions += larger;
        i += 1;
    }
    count_inversions % 2 == 0
}

/// The detector for boards that are too easy: rejects a board on which five
/// values rising by one stand in a row of cells that starts among the first
/// twelve.
pub fn check_allocation(tiles: &[u8; 16]) -> (r: Result<(), PazzleError>)
    ensures
        r is Err <==> has_easy_run(tiles@),
        r is Err ==> r == Err::<(), PazzleError>(PazzleError::TooEasy),
{
    let mut i: usize = 0;
    while i < SIZE - 4
        invariant
            i <= 12,
            forall|k: int| 0 <= k < i ==> !run_at(tiles@, k),
        decreases 12 - i,
    {
        let first: u16 = tiles[i] as u16;
        if tiles[i + 1] as u16 == first + 1 && tiles[i + 2] as u16 == first + 2
            && tiles[i + 3] as u16 == first + 3 && tiles[i + 4] as u16 == first + 4 {
            assert(run_at(tiles@, i as int));
            return Err(PazzleError::TooEasy);
        }
        i += 1;
    }
    Ok(())
}

} // verus!
