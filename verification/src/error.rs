//! The failures an operation can report.

use vstd::prelude::*;

verus! {

/// Names one of the two record tables a store keeps per participant.
#[derive(Clone, Copy, Debug, PartialEq, Eq, Structural)]
pub enum StorageKey {
    /// Stake, opponent link and commitment flag.
    Players,
    /// The board of the participant's running game.
    Games,
}

/// Why an operation was rejected. A rejected operation changes nothing.
#[derive(Clone, Copy, Debug, PartialEq, Eq, Structural)]
pub enum PazzleError {
    /// The tiles are not sixteen distinct values in `0..=15`.
    MalformedConfiguration,
    /// The starting board has an odd number of inversions.
    Unsolvable,
    /// The starting board holds a ready-made ascending run.
    TooEasy,
    /// The proposed board equals the current one.
    NoMove,
    /// The proposed board differs from the current one in more than two cells.
    MultiMove,
    /// The two changed cells are not the blank and one of its grid neighbours.
    IllegalMove,
    /// The participant is registered already.
    AlreadyRegistered,
    /// The participant already holds a nonzero stake.
    DuplicateStake,
    /// The participant holds no stake.
    NoStake,
    /// The linked opponent is committed, or the participant is already playing.
    MatchInProgress,
    /// The two stakes differ.
    StakeMismatch,
    /// A participant named itself as opponent.
    SelfPairing,
    /// The named opponent is not registered.
    UnknownOpponent,
    /// The participant has not named an opponent.
    NoOpponent,
    /// The participant or the linked opponent is not committed.
    NotReady,
    /// Nobody is registered.
    NoPlayers,
    /// The table holds no record for the participant.
    NotFound(StorageKey),
    /// The two stakes together exceed what one payout can carry.
    PotOverflow,
}

impl PazzleError {
    /// The reason, in words, that goes with each failure.
    pub open spec fn reason(self) -> Seq<char> {
        match self {
            PazzleError::MalformedConfiguration => "unexpected tiles (16 different values 0-15 needed)"@,
            PazzleError::Unsolvable => "the resulting permutation does not resolve"@,
            PazzleError::TooEasy => "this sequence is like cheating"@,
            PazzleError::NoMove => "the move was not made"@,
            PazzleError::MultiMove => "only one permutation can be done in one turn"@,
            PazzleError::IllegalMove => "not a correct move"@,
            PazzleError::AlreadyRegistered => "you are already in the player list"@,
            PazzleError::DuplicateStake => "you have already placed a bet"@,
            PazzleError::NoStake => "you don't have a bid"@,
            PazzleError::MatchInProgress => "finish the game, the challenge has already been accepted"@,
            PazzleError::StakeMismatch => "rates must be the same"@,
            PazzleError::SelfPairing => "you cannot play against yourself"@,
            PazzleError::UnknownOpponent => "the opponent is not from the list of players"@,
            PazzleError::NoOpponent => "select an opponent"@,
            PazzleError::NotReady => "you or your opponent are not yet ready to play"@,
            PazzleError::NoPlayers => "there are no players"@,
            PazzleError::NotFound(StorageKey::Players) => "player not found"@,
            PazzleError::NotFound(StorageKey::Games) => "game not found"@,
            PazzleError::PotOverflow => "the stakes are too large to pay out together"@,
        }
    }

    /// The reason for the failure as text.
    pub fn message(&self) -> (s: String)
        ensures
            s@ == self.reason(),
    {
        let text: &str = match self {
            PazzleError::MalformedConfiguration => "unexpected tiles (16 different values 0-15 needed)",
            PazzleError::Unsolvable => "the resulting permutation does not resolve",
            PazzleError::TooEasy => "this sequence is like cheating",
            PazzleError::NoMove => "the move was not made",
            PazzleError::MultiMove => "only one permutation can be done in one turn",
            PazzleError::IllegalMove => "not a correct move",
            PazzleError::AlreadyRegistered => "you are already in the player list",
            PazzleError::DuplicateStake => "you have already placed a bet",
            PazzleError::NoStake => "you don't have a bid",
            PazzleError::MatchInProgress => "finish the game, the challenge has already been accepted",
            PazzleError::StakeMismatch => "rates must be the same",
            PazzleError::SelfPairing => "you cannot play against yourself",
            PazzleError::UnknownOpponent => "the opponent is not from the list of players",
            PazzleError::NoOpponent => "select an opponent",
            PazzleError::NotReady => "you or your opponent are not yet ready to play",
            PazzleError::NoPlayers => "there are no players",
            PazzleError::NotFound(StorageKey::Players) => "player not found",
            PazzleError::NotFound(StorageKey::Games) => "game not found",
            PazzleError::PotOverflow => "the stakes are too large to pay out together",
        };
        text.to_owned()
    }
}

} // verus!
