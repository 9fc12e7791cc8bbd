//! One move of the blank, and the solved board.

use vstd::prelude::*;
use crate::error::PazzleError;
use crate::tiles::{is_configuration, validate_configuration, SIZE};

verus! {

/// The cells below `n` in which `a` and `b` hold different values, in rising
/// order.
pub open spec fn changed_cells(a: Seq<u8>, b: Seq<u8>, n: int) -> Seq<int>
    decreases n,
{
    if n <= 0 {
        Seq::empty()
    } else if a[n - 1] != b[n - 1] {
        changed_cells(a, b, n - 1).push(n - 1)
    } else {
        changed_cells(a, b, n - 1)
    }
}

/// Cells `p` and `q` touch on the 4x4 grid: side by side in one row, or one
/// directly above the other. The last cell of a row and the first of the next
/// do not touch.
pub open spec fn adjacent(p: int, q: int) -> bool {
    ||| p / 4 == q / 4 && (q - p == 1 || p - q == 1)
    ||| q - p == 4
    ||| p - q == 4
}

/// Why `proposed` is not one move away from `current`, or `None` if it is.
///
/// Both boards must be configurations. The boards must differ; they may
/// differ in two cells only; one of those two cells must hold the blank in
/// `current`, and the two must touch.
pub open spec fn move_verdict(current: Seq<u8>, proposed: Seq<u8>) -> Option<PazzleError> {
    let d = changed_cells(current, proposed, 16);
    if !is_configuration(current) || !is_configuration(proposed) {
        Some(PazzleError::MalformedConfiguration)
    } else if d.len() == 0 {
        Some(PazzleError::NoMove)
    } else if d.len() > 2 {
        Some(PazzleError::MultiMove)
    } else if d.len() == 2 && (current[d[0]] == 0 || current[d[1]] == 0) && adjacent(d[0], d[1]) {
        None
    } else {
        Some(PazzleError::IllegalMove)
    }
}

/// The board every game ends on: `1, 2, ..., 15` and the blank last.
pub open spec fn solved() -> Seq<u8> {
    Seq::new(16, |i: int| if i < 15 { (i + 1) as u8 } else { 0u8 })
}

/// Every changed cell lies below `n`, and the cells come in rising order.
pub proof fn lemma_changed_cells_rising(a: Seq<u8>, b: Seq<u8>, n: int)
    ensures
        forall|k: int| 0 <= k < changed_cells(a, b, n).len() ==> 0 <= #[trigger] changed_cells(a, b, n)[k] < n,
        forall|k: int, l: int| 0 <= k < l < changed_cells(a, b, n).len()
            ==> #[trigger] changed_cells(a, b, n)[k] < #[trigger] changed_cells(a, b, n)[l],
        changed_cells(a, b, n).len() <= (if n < 0 { 0 } else { n }),
    decreases n,
{
    if n > 0 {
        lemma_changed_cells_rising(a, b, n - 1);
    }
}

/// Checks that `proposed` is one legal move away from `current` and, if so,
/// hands `proposed` back as the board to adopt.
pub fn apply_move(current: &[u8; 16], proposed: &[u8; 16]) -> (r: Result<[u8; 16], PazzleError>)
    ensures
        match move_verdict(current@, proposed@) {
            None => r == Ok::<[u8; 16], PazzleError>(*proposed),
            Some(e) => r == Err::<[u8; 16], PazzleError>(e),
        },
{
    if validate_configuration(current.as_slice()).is_err() {
        return Err(PazzleError::MalformedConfiguration);
    }
    if validate_configuration(proposed.as_slice()).is_err() {
        return Err(PazzleError::MalformedConfiguration);
    }
    let mut changed: Vec<usize> = Vec::new();
    let mut i: usize = 0;
    while i < SIZE
        invariant
            i <= 16,
            changed@.len() == changed_cells(current@, proposed@, i as int).len(),
            forall|k: int| 0 <= k < changed@.len() ==> #[trigger] changed@[k] as int == changed_cells(current@, proposed@, i as int)[k],
        decreases 16 - i,
    {
        if current[i] != proposed[i] {
            changed.push(i);
        }
        i += 1;
    }
    proof {
        lemma_changed_cells_rising(current@, proposed@, 16);
    }
    if changed.len() == 0 {
        return Err(PazzleError::NoMove);
    }
    if changed.len() > 2 {
        return Err(PazzleError::MultiMove);
    }
    if changed.len() != 2 {
        return Err(PazzleError::IllegalMove);
    }
    let p: usize = changed[0];
    let q: usize = changed[1];
    let blank_moves: bool = current[p] == 0 || current[q] == 0;
    let touching: bool = (q - p == 1 && p / 4 == q / 4) || q - p == 4;
    if blank_moves && touching {
        Ok(*proposed)
    } else {
        Err(PazzleError::IllegalMove)
    }
}

/// Whether the board is the solved one. All sixteen cells are compared.
pub fn is_solved(tiles: &[u8; 16]) -> (r: bool)
    ensures
        r == (tiles@ == solved()),
{
    let mut i: usize = 0;
    while i < SIZE - 1
        invariant
            i <= 15,
            forall|k: int| 0 <= k < i ==> #[trigger] tiles@[k] == solved()[k],
        decreases 15 - i,
    {
        if tiles[i] != (i + 1) as u8 {
            return false;
        }
        i += 1;
    }
    if tiles[SIZE - 1] != 0 {
        return false;
    }
    assert(tiles@ =~= solved());
    true
}

} // verus!
