//! The records a store keeps for each participant.

use vstd::prelude::*;
use crate::account::AccountId;

verus! {

/// What a participant has at stake and against whom.
#[derive(Debug)]
pub struct Player {
    /// The stake; zero means no active wager.
    pub price: u128,
    /// The opponent this participant has named, if any.
    pub opponent: Option<AccountId>,
    /// Whether the participant is committed to play the named opponent.
    pub is_play: bool,
}

/// A participant's record with names as text.
pub struct PlayerView {
    pub price: u128,
    pub opponent: Option<Seq<char>>,
    pub is_play: bool,
}

impl PlayerView {
    /// The record of someone who has just registered: no stake, no opponent,
    /// not committed.
    pub open spec fn fresh() -> PlayerView {
        PlayerView { price: 0, opponent: None, is_play: false }
    }
}

impl View for Player {
    type V = PlayerView;

    open spec fn view(&self) -> PlayerView {
        PlayerView {
            price: self.price,
            opponent: match self.opponent {
                Some(id) => Some(id@),
                None => None,
            },
            is_play: self.is_play,
        }
    }
}

impl Default for Player {
    fn default() -> (p: Self)
        ensures
            p@ == PlayerView::fresh(),
    {
        Player { price: 0, opponent: None, is_play: false }
    }
}

impl Clone for Player {
    fn clone(&self) -> (p: Self)
        ensures
            p@ == self@,
    {
        let opponent: Option<AccountId> = match &self.opponent {
            Some(id) => Some(id.clone()),
            None => None,
        };
        Player { price: self.price, opponent, is_play: self.is_play }
    }
}

/// The board of a running game.
#[derive(Clone, Copy, Debug)]
pub struct Game {
    pub tiles: [u8; 16],
}

impl Default for Game {
    fn default() -> (g: Self)
        ensures
            g.tiles@ == Seq::new(16, |i: int| 0u8),
    {
        let g = Game { tiles: [0u8; 16] };
        assert(g.tiles@ =~= Seq::new(16, |i: int| 0u8));
        g
    }
}

/// A request to move `amount` to the account `to`.
#[derive(Debug)]
pub struct Transfer {
    pub to: AccountId,
    pub amount: u128,
}

} // verus!
