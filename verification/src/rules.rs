//! The state of a store as mathematics, and the rules by which each
//! operation changes it.
//!
//! A participant is known by the text of its account name. Every rule first
//! names the failures, in the order in which they are looked for, and then
//! the state that a successful operation leaves.

use vstd::prelude::*;
use crate::error::{PazzleError, StorageKey};
use crate::moves::{move_verdict, solved};
use crate::player::PlayerView;
use crate::tiles::{has_easy_run, is_configuration, solvable};

verus! {

/// What a store holds.
#[verifier::ext_equal]
pub struct PazzleView {
    /// The registered participants, in the order in which they registered.
    pub order: Seq<Seq<char>>,
    /// Stake, opponent link and commitment of each participant.
    pub players: Map<Seq<char>, PlayerView>,
    /// The board of each participant who is playing.
    pub games: Map<Seq<char>, Seq<u8>>,
    /// Whether starting boards are also held to the too-easy detector.
    pub strict: bool,
}

impl PazzleView {
    /// The store in which nobody is registered.
    pub open spec fn empty(strict: bool) -> PazzleView {
        PazzleView { order: Seq::empty(), players: Map::empty(), games: Map::empty(), strict }
    }

    pub open spec fn registered(self, who: Seq<char>) -> bool {
        self.players.contains_key(who)
    }

    /// `who` is playing: a board exists for it.
    pub open spec fn in_match(self, who: Seq<char>) -> bool {
        self.games.contains_key(who)
    }

    /// The record of `who` is consistent with the rest of the store: a named
    /// opponent is registered and is someone else, and a committed
    /// participant has a stake and an opponent.
    pub open spec fn record_ok(self, who: Seq<char>) -> bool {
        let p = self.players[who];
        &&& p.opponent matches Some(o) ==> self.players.contains_key(o) && o != who
        &&& p.is_play ==> p.price > 0 && p.opponent is Some
    }

    /// What holds of every store between two operations.
    ///
    /// Nobody is registered twice; the records are those of the registered
    /// participants; whoever is playing is committed, and its board is a
    /// configuration; every record is consistent.
    pub open spec fn valid(self) -> bool {
        &&& self.order.no_duplicates()
        &&& forall|k: Seq<char>|
            #![trigger self.players.contains_key(k)]
            #![trigger self.order.contains(k)]
            self.players.contains_key(k) <==> self.order.contains(k)
        &&& forall|k: Seq<char>| #[trigger]
            self.games.contains_key(k) ==> self.players.contains_key(k) && self.players[k].is_play
                && is_configuration(self.games[k])
        &&& forall|k: Seq<char>| #[trigger] self.players.contains_key(k) ==> self.record_ok(k)
    }

    /// The opponent that `who` has named is committed.
    pub open spec fn opponent_committed(self, who: Seq<char>) -> bool {
        self.players[who].opponent matches Some(o) && self.players[o].is_play
    }

    /// `who` and the opponent it has named are both committed.
    pub open spec fn both_committed(self, who: Seq<char>) -> bool {
        self.players[who].is_play && self.opponent_committed(who)
    }

    /// The store with the record of `who` replaced.
    pub open spec fn with_player(self, who: Seq<char>, p: PlayerView) -> PazzleView {
        PazzleView { players: self.players.insert(who, p), ..self }
    }

    /// The store with `who` added as the newest participant.
    pub open spec fn with_newcomer(self, who: Seq<char>) -> PazzleView {
        PazzleView {
            order: self.order.push(who),
            players: self.players.insert(who, PlayerView::fresh()),
            ..self
        }
    }

    /// Registration. Refused as `AlreadyRegistered` for someone who is
    /// registered; otherwise `who` joins as the newest participant, with no
    /// stake, no opponent and no commitment.
    pub open spec fn register(self, who: Seq<char>) -> Result<PazzleView, PazzleError> {
        if self.registered(who) {
            Err(PazzleError::AlreadyRegistered)
        } else {
            Ok(self.with_newcomer(who))
        }
    }

    /// Setting a stake. Someone unknown is registered first. Refused as
    /// `DuplicateStake` for someone who holds a nonzero stake; otherwise
    /// `amount` is recorded, be it zero.
    pub open spec fn set_stake(self, who: Seq<char>, amount: u128) -> Result<PazzleView, PazzleError> {
        let known = if self.registered(who) { self } else { self.with_newcomer(who) };
        if known.players[who].price != 0 {
            Err(PazzleError::DuplicateStake)
        } else {
            Ok(known.with_player(who, PlayerView { price: amount, ..known.players[who] }))
        }
    }

    /// Withdrawing the stake, which cancels the pairing from this side.
    ///
    /// Refused, in this order: as `NotFound(Players)` for someone unknown, as
    /// `NoStake` where the stake is zero, as `MatchInProgress` once the named
    /// opponent is committed. Otherwise the second part of the result, the
    /// whole stake, is owed to `who`; the stake is zero, the commitment ends
    /// and a board is dropped. The opponent link stays.
    pub open spec fn withdraw(self, who: Seq<char>) -> Result<(PazzleView, u128), PazzleError> {
        if !self.registered(who) {
            Err(PazzleError::NotFound(StorageKey::Players))
        } else if self.players[who].price == 0 {
            Err(PazzleError::NoStake)
        } else if self.opponent_committed(who) {
            Err(PazzleError::MatchInProgress)
        } else {
            Ok(
                (
                    PazzleView {
                        players: self.players.insert(
                            who,
                            PlayerView { price: 0, is_play: false, ..self.players[who] },
                        ),
                        games: self.games.remove(who),
                        ..self
                    },
                    self.players[who].price,
                ),
            )
        }
    }

    /// Naming an opponent.
    ///
    /// Refused, in this order: as `UnknownOpponent` where `opponent` is not
    /// registered, as `SelfPairing` where it is `who`, as `NotFound(Players)`
    /// where `who` is not registered, as `MatchInProgress` where the opponent
    /// named before is committed, as `StakeMismatch` where the two stakes
    /// differ. Otherwise the link of `who` is replaced, and `who` is
    /// committed from that moment if the two equal stakes are nonzero; with
    /// two stakes of zero the link is recorded without commitment. A board
    /// left from an earlier pairing is dropped. The record of `opponent`
    /// does not change: its own link is its own affair.
    pub open spec fn propose(self, who: Seq<char>, opponent: Seq<char>) -> Result<
        PazzleView,
        PazzleError,
    > {
        if !self.registered(opponent) {
            Err(PazzleError::UnknownOpponent)
        } else if opponent == who {
            Err(PazzleError::SelfPairing)
        } else if !self.registered(who) {
            Err(PazzleError::NotFound(StorageKey::Players))
        } else if self.opponent_committed(who) {
            Err(PazzleError::MatchInProgress)
        } else if self.players[who].price != self.players[opponent].price {
            Err(PazzleError::StakeMismatch)
        } else {
            Ok(
                PazzleView {
                    players: self.players.insert(
                        who,
                        PlayerView {
                            price: self.players[who].price,
                            opponent: Some(opponent),
                            is_play: self.players[who].price != 0,
                        },
                    ),
                    games: self.games.remove(who),
                    ..self
                },
            )
        }
    }

    /// Starting a game.
    ///
    /// Refused, in this order: as `NotFound(Players)` for someone unknown, as
    /// `NoOpponent` where no opponent is named, as `MatchInProgress` where
    /// `who` is playing already, as `NotReady` unless `who` and the named
    /// opponent are both committed, as `MalformedConfiguration` where
    /// `tiles` is no configuration, as `TooEasy` where the store is strict
    /// and the board has a ready-made run, as `Unsolvable` where the number
    /// of inversions is odd. Otherwise `who` gets `tiles` as its board.
    pub open spec fn start(self, who: Seq<char>, tiles: Seq<u8>) -> Result<PazzleView, PazzleError> {
        if !self.registered(who) {
            Err(PazzleError::NotFound(StorageKey::Players))
        } else if self.players[who].opponent is None {
            Err(PazzleError::NoOpponent)
        } else if self.in_match(who) {
            Err(PazzleError::MatchInProgress)
        } else if !self.both_committed(who) {
            Err(PazzleError::NotReady)
        } else if !is_configuration(tiles) {
            Err(PazzleError::MalformedConfiguration)
        } else if self.strict && has_easy_run(tiles) {
            Err(PazzleError::TooEasy)
        } else if !solvable(tiles) {
            Err(PazzleError::Unsolvable)
        } else {
            Ok(PazzleView { games: self.games.insert(who, tiles), ..self })
        }
    }

    /// The store after the part of `who` in a match is cleared at
    /// settlement: `who` is left with the record of a newcomer, whatever the
    /// stake was, and without a board.
    pub open spec fn clear_on_settlement(self, who: Seq<char>) -> PazzleView {
        PazzleView {
            players: self.players.insert(who, PlayerView::fresh()),
            games: self.games.remove(who),
            ..self
        }
    }

    /// The store after `who` has won against `opponent`: both are cleared.
    pub open spec fn settled(self, who: Seq<char>, opponent: Seq<char>) -> PazzleView {
        self.clear_on_settlement(who).clear_on_settlement(opponent)
    }

    /// A move.
    ///
    /// Refused, in this order: as `NotFound(Players)` for someone unknown, as
    /// `NoOpponent` where no opponent is named, as `NotReady` unless `who`
    /// and the named opponent are both committed, as
    /// `MalformedConfiguration` where `proposed` is no configuration, as
    /// `NotFound(Games)` where `who` has no board, for the reason the move
    /// engine gives where `proposed` is not one move from the board, and as
    /// `PotOverflow` where the move solves the board and the two stakes
    /// together exceed `u128::MAX`.
    ///
    /// Otherwise `proposed` becomes the board of `who`. If it is the solved
    /// board the match is settled, and the second part of the result is the
    /// pot, both stakes together, which is owed to `who`.
    pub open spec fn submit(self, who: Seq<char>, proposed: Seq<u8>) -> Result<
        (PazzleView, Option<u128>),
        PazzleError,
    > {
        if !self.registered(who) {
            Err(PazzleError::NotFound(StorageKey::Players))
        } else if self.players[who].opponent is None {
            Err(PazzleError::NoOpponent)
        } else if !self.both_committed(who) {
            Err(PazzleError::NotReady)
        } else if !is_configuration(proposed) {
            Err(PazzleError::MalformedConfiguration)
        } else if !self.in_match(who) {
            Err(PazzleError::NotFound(StorageKey::Games))
        } else if move_verdict(self.games[who], proposed) is Some {
            Err(move_verdict(self.games[who], proposed)->0)
        } else if proposed != solved() {
            Ok((PazzleView { games: self.games.insert(who, proposed), ..self }, None))
        } else {
            let opponent = self.players[who].opponent->0;
            let pot = self.players[who].price + self.players[opponent].price;
            if pot > u128::MAX {
                Err(PazzleError::PotOverflow)
            } else {
                Ok((self.settled(who, opponent), Some(pot as u128)))
            }
        }
    }
}

} // verus!
