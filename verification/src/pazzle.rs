//! The store: who is registered, what each participant has at stake and
//! against whom, and the boards of the running games.

use vstd::prelude::*;
use crate::account::AccountId;
use crate::error::{PazzleError, StorageKey};
use crate::player::{Game, Player, PlayerView, Transfer};
use crate::moves::{apply_move, is_solved};
use crate::rules::PazzleView;
use crate::tiles::{check_allocation, is_solvable, validate_configuration};

verus! {

/// The participants with their records and boards.
///
/// Record `i` of `players` and board `i` of `games` belong to the account
/// `i` of `players_vec`.
pub struct Pazzle {
    players_vec: Vec<AccountId>,
    players: Vec<Player>,
    games: Vec<Option<Game>>,
    strict: bool,
}

/// The place of `who` in `order`.
pub open spec fn slot(order: Seq<Seq<char>>, who: Seq<char>) -> int {
    choose|i: int| 0 <= i < order.len() && order[i] == who
}

/// Where nobody is listed twice, the place of the name at `i` is `i`.
pub proof fn lemma_slot(order: Seq<Seq<char>>, i: int)
    requires
        order.no_duplicates(),
        0 <= i < order.len(),
    ensures
        order.contains(order[i]),
        slot(order, order[i]) == i,
{
}

/// The store made of three lists of equal length: the names in the order of
/// registration, and beside each name its record and its board, if it has
/// one.
pub open spec fn assemble(
    order: Seq<Seq<char>>,
    players: Seq<PlayerView>,
    games: Seq<Option<Seq<u8>>>,
    strict: bool,
) -> PazzleView {
    PazzleView {
        order,
        players: Map::new(|k: Seq<char>| order.contains(k), |k: Seq<char>| players[slot(order, k)]),
        games: Map::new(
            |k: Seq<char>| order.contains(k) && games[slot(order, k)] is Some,
            |k: Seq<char>| games[slot(order, k)]->0,
        ),
        strict,
    }
}

/// The names in a list of accounts.
pub open spec fn names(accounts: Seq<AccountId>) -> Seq<Seq<char>> {
    Seq::new(accounts.len(), |i: int| accounts[i]@)
}

/// The records in a list of players, with names as text.
pub open spec fn records(players: Seq<Player>) -> Seq<PlayerView> {
    Seq::new(players.len(), |i: int| players[i]@)
}

/// The boards in a list of games.
pub open spec fn boards(games: Seq<Option<Game>>) -> Seq<Option<Seq<u8>>> {
    Seq::new(
        games.len(),
        |i: int|
            match games[i] {
                Some(g) => Some(g.tiles@),
                None => None,
            },
    )
}

impl View for Pazzle {
    type V = PazzleView;

    closed spec fn view(&self) -> PazzleView {
        assemble(names(self.players_vec@), records(self.players@), boards(self.games@), self.strict)
    }
}

impl Pazzle {
    /// The three lists are equally long.
    pub closed spec fn aligned(&self) -> bool {
        &&& self.players.len() == self.players_vec.len()
        &&& self.games.len() == self.players_vec.len()
    }

    /// The store is in a state that the operations can leave.
    pub open spec fn wf(&self) -> bool {
        self.aligned() && self@.valid()
    }

    /// An empty store. With `strict`, starting boards are also held to the
    /// too-easy detector.
    pub fn new(strict: bool) -> (s: Pazzle)
        ensures
            s.wf(),
            s@ == PazzleView::empty(strict),
    {
        let s = Pazzle { players_vec: Vec::new(), players: Vec::new(), games: Vec::new(), strict };
        assert(s@ =~= PazzleView::empty(strict));
        s
    }

    /// Where `id` stands in the list of participants.
    fn position(&self, id: &AccountId) -> (r: Option<usize>)
        requires
            self.aligned(),
            self@.order.no_duplicates(),
        ensures
            r is Some <==> self@.order.contains(id@),
            r matches Some(i) ==> i < self@.order.len() && self@.order[i as int] == id@
                && slot(self@.order, id@) == i,
    {
        let mut i: usize = 0;
        while i < self.players_vec.len()
            invariant
                i <= self.players_vec.len(),
                self@.order.len() == self.players_vec.len(),
                self@.order.no_duplicates(),
                forall|j: int| 0 <= j < i ==> self@.order[j] != id@,
            decreases self.players_vec.len() - i,
        {
            if self.players_vec[i].same(id) {
                proof {
                    lemma_slot(self@.order, i as int);
                }
                return Some(i);
            }
            i += 1;
        }
        None
    }

    /// Replaces the record at place `i`.
    fn put_player(&mut self, i: usize, p: Player)
        requires
            old(self).aligned(),
            old(self)@.order.no_duplicates(),
            i < old(self)@.order.len(),
        ensures
            final(self).aligned(),
            final(self)@ == old(self)@.with_player(old(self)@.order[i as int], p@),
    {
        self.players.set(i, p);
        proof {
            let before = old(self)@;
            let after = self@;
            assert(after.order =~= before.order);
            lemma_slot(before.order, i as int);
            assert(after.players =~= before.players.insert(before.order[i as int], p@)) by {
                assert forall|k: Seq<char>| after.players.contains_key(k) implies #[trigger] after.players[k]
                    == before.players.insert(before.order[i as int], p@)[k] by {
                    if k != before.order[i as int] {
                        assert(slot(before.order, k) != i);
                    }
                }
            }
            assert(after.games =~= before.games);
            assert(after =~= before.with_player(before.order[i as int], p@));
        }
    }

    /// Replaces the board at place `i`, or drops it.
    fn put_game(&mut self, i: usize, g: Option<Game>)
        requires
            old(self).aligned(),
            old(self)@.order.no_duplicates(),
            i < old(self)@.order.len(),
        ensures
            final(self).aligned(),
            final(self)@ == (PazzleView {
                games: match g {
                    Some(game) => old(self)@.games.insert(old(self)@.order[i as int], game.tiles@),
                    None => old(self)@.games.remove(old(self)@.order[i as int]),
                },
                ..old(self)@
            }),
    {
        self.games.set(i, g);
        proof {
            let before = old(self)@;
            let after = self@;
            let who = before.order[i as int];
            let games = match g {
                Some(game) => before.games.insert(who, game.tiles@),
                None => before.games.remove(who),
            };
            assert(after.order =~= before.order);
            lemma_slot(before.order, i as int);
            assert(after.players =~= before.players);
            assert(after.games =~= games) by {
                assert forall|k: Seq<char>| after.games.contains_key(k) <==> games.contains_key(k) by {
                    if k != who && before.order.contains(k) {
                        assert(slot(before.order, k) != i);
                    }
                }
                assert forall|k: Seq<char>| after.games.contains_key(k) implies #[trigger] after.games[k]
                    == games[k] by {
                    if k != who {
                        assert(slot(before.order, k) != i);
                    }
                }
            }
            assert(after =~= PazzleView { games, ..before });
        }
    }

    /// Adds `id` as the newest participant.
    fn append(&mut self, id: AccountId)
        requires
            old(self).aligned(),
            old(self)@.order.no_duplicates(),
            !old(self)@.order.contains(id@),
        ensures
            final(self).aligned(),
            final(self)@ == old(self)@.with_newcomer(id@),
    {
        self.players_vec.push(id);
        self.players.push(Player::default());
        self.games.push(None);
        proof {
            let before = old(self)@;
            let after = self@;
            let who = id@;
            let n = before.order.len() as int;
            assert(after.order =~= before.order.push(who));
            assert(after.order.no_duplicates());
            assert forall|k: Seq<char>| before.order.contains(k) implies slot(after.order, k) == slot(
                before.order,
                k,
            ) by {
                let j = slot(before.order, k);
                assert(after.order[j] == k);
                lemma_slot(after.order, j);
            }
            lemma_slot(after.order, n);
            assert(after.players =~= before.players.insert(who, PlayerView::fresh())) by {
                assert forall|k: Seq<char>| after.order.contains(k) <==> (k == who
                    || before.order.contains(k)) by {
                    if before.order.contains(k) {
                        let j = slot(before.order, k);
                        assert(after.order[j] == k);
                    }
                }
            }
            assert(after.games =~= before.games) by {
                assert forall|k: Seq<char>| after.games.contains_key(k) <==> before.games.contains_key(
                    k,
                ) by {
                    if before.order.contains(k) {
                        let j = slot(before.order, k);
                        assert(after.order[j] == k);
                    }
                }
            }
            assert(after =~= before.with_newcomer(who));
        }
    }

    /// Registers `caller`.
    pub fn add_me_to_players(&mut self, caller: &AccountId) -> (r: Result<(), PazzleError>)
        requires
            old(self).wf(),
        ensures
            final(self).wf(),
            match old(self)@.register(caller@) {
                Ok(next) => r is Ok && final(self)@ == next,
                Err(e) => r == Err::<(), PazzleError>(e) && final(self)@ == old(self)@,
            },
    {
        if self.position(caller).is_some() {
            return Err(PazzleError::AlreadyRegistered);
        }
        self.append(caller.clone());
        Ok(())
    }

    /// Whether `caller` is registered.
    pub fn is_i_in_players(&self, caller: &AccountId) -> (r: bool)
        requires
            self.wf(),
        ensures
            r == self@.registered(caller@),
    {
        self.position(caller).is_some()
    }

    /// The place of the opponent that the participant at place `i` has named.
    fn opponent_position(&self, i: usize) -> (r: Option<usize>)
        requires
            self.wf(),
            i < self@.order.len(),
        ensures
            r is Some <==> self@.players[self@.order[i as int]].opponent is Some,
            r matches Some(j) ==> j < self@.order.len() && j != i
                && self@.players[self@.order[i as int]].opponent == Some(self@.order[j as int]),
    {
        proof {
            lemma_slot(self@.order, i as int);
        }
        match &self.players[i].opponent {
            Some(o) => {
                let r = self.position(o);
                assert(self@.record_ok(self@.order[i as int]));
                r
            },
            None => None,
        }
    }

    /// Clears the participant at place `i` at settlement: the stake is
    /// zeroed, link and commitment end, the board is dropped.
    fn clear_on_settlement(&mut self, i: usize)
        requires
            old(self).aligned(),
            old(self)@.order.no_duplicates(),
            i < old(self)@.order.len(),
        ensures
            final(self).aligned(),
            final(self)@ == old(self)@.clear_on_settlement(old(self)@.order[i as int]),
    {
        self.put_player(i, Player::default());
        self.put_game(i, None);
    }

    /// Takes `tiles` as the caller's next board if it is one legal move away
    /// from the current one. A move onto the solved board settles the match:
    /// the caller and the opponent it has named lose stake, link, commitment
    /// and board, and the transfer of both stakes to the caller is returned.
    pub fn run(&mut self, caller: &AccountId, tiles: [u8; 16]) -> (r: Result<
        Option<Transfer>,
        PazzleError,
    >)
        requires
            old(self).wf(),
        ensures
            final(self).wf(),
            match old(self)@.submit(caller@, tiles@) {
                Ok((next, None)) => {
                    &&& final(self)@ == next
                    &&& r matches Ok(None)
                },
                Ok((next, Some(pot))) => {
                    &&& final(self)@ == next
                    &&& r matches Ok(Some(t))
                    &&& t.to@ == caller@
                    &&& t.amount == pot
                },
                Err(e) => {
                    &&& final(self)@ == old(self)@
                    &&& r == Err::<Option<Transfer>, PazzleError>(e)
                },
            },
    {
        let i: usize = match self.position(caller) {
            Some(i) => i,
            None => {
                return Err(PazzleError::NotFound(StorageKey::Players));
            },
        };
        let j: usize = match self.opponent_position(i) {
            Some(j) => j,
            None => {
                return Err(PazzleError::NoOpponent);
            },
        };
        proof {
            lemma_slot(self@.order, i as int);
            lemma_slot(self@.order, j as int);
        }
        if !(self.players[i].is_play && self.players[j].is_play) {
            return Err(PazzleError::NotReady);
        }
        if validate_configuration(tiles.as_slice()).is_err() {
            return Err(PazzleError::MalformedConfiguration);
        }
        let game: Game = match self.games[i] {
            Some(g) => g,
            None => {
                return Err(PazzleError::NotFound(StorageKey::Games));
            },
        };
        let board: [u8; 16] = match apply_move(&game.tiles, &tiles) {
            Ok(b) => b,
            Err(e) => {
                return Err(e);
            },
        };
        if !is_solved(&board) {
            self.put_game(i, Some(Game { tiles: board }));
            return Ok(None);
        }
        let pot: u128 = match self.players[i].price.checked_add(self.players[j].price) {
            Some(p) => p,
            None => {
                return Err(PazzleError::PotOverflow);
            },
        };
        self.clear_on_settlement(i);
        self.clear_on_settlement(j);
        Ok(Some(Transfer { to: caller.clone(), amount: pot }))
    }

    /// Names `opponent_id` as the caller's opponent. Both stakes must be
    /// equal; if they are also nonzero the caller is committed at once.
    pub fn set_opponent(&mut self, caller: &AccountId, opponent_id: AccountId) -> (r: Result<
        (),
        PazzleError,
    >)
        requires
            old(self).wf(),
        ensures
            final(self).wf(),
            match old(self)@.propose(caller@, opponent_id@) {
                Ok(next) => r is Ok && final(self)@ == next,
                Err(e) => r == Err::<(), PazzleError>(e) && final(self)@ == old(self)@,
            },
    {
        let j: usize = match self.position(&opponent_id) {
            Some(j) => j,
            None => {
                return Err(PazzleError::UnknownOpponent);
            },
        };
        if opponent_id.same(caller) {
            return Err(PazzleError::SelfPairing);
        }
        let i: usize = match self.position(caller) {
            Some(i) => i,
            None => {
                return Err(PazzleError::NotFound(StorageKey::Players));
            },
        };
        proof {
            lemma_slot(self@.order, i as int);
            lemma_slot(self@.order, j as int);
        }
        match self.opponent_position(i) {
            Some(k) => {
                proof {
                    lemma_slot(self@.order, k as int);
                }
                if self.players[k].is_play {
                    return Err(PazzleError::MatchInProgress);
                }
            },
            None => {},
        }
        let price: u128 = self.players[i].price;
        if price != self.players[j].price {
            return Err(PazzleError::StakeMismatch);
        }
        self.put_player(i, Player { price, opponent: Some(opponent_id), is_play: price != 0 });
        self.put_game(i, None);
        Ok(())
    }

    /// Starts the caller's game on the board `shuffle`.
    pub fn new_game(&mut self, caller: &AccountId, shuffle: [u8; 16]) -> (r: Result<
        (),
        PazzleError,
    >)
        requires
            old(self).wf(),
        ensures
            final(self).wf(),
            match old(self)@.start(caller@, shuffle@) {
                Ok(next) => r is Ok && final(self)@ == next,
                Err(e) => r == Err::<(), PazzleError>(e) && final(self)@ == old(self)@,
            },
    {
        let i: usize = match self.position(caller) {
            Some(i) => i,
            None => {
                return Err(PazzleError::NotFound(StorageKey::Players));
            },
        };
        let j: usize = match self.opponent_position(i) {
            Some(j) => j,
            None => {
                return Err(PazzleError::NoOpponent);
            },
        };
        proof {
            lemma_slot(self@.order, i as int);
            lemma_slot(self@.order, j as int);
        }
        if self.games[i].is_some() {
            return Err(PazzleError::MatchInProgress);
        }
        if !(self.players[i].is_play && self.players[j].is_play) {
            return Err(PazzleError::NotReady);
        }
        if validate_configuration(shuffle.as_slice()).is_err() {
            return Err(PazzleError::MalformedConfiguration);
        }
        if self.strict && check_allocation(&shuffle).is_err() {
            return Err(PazzleError::TooEasy);
        }
        if !is_solvable(&shuffle) {
            return Err(PazzleError::Unsolvable);
        }
        self.put_game(i, Some(Game { tiles: shuffle }));
        Ok(())
    }

    /// Gives the caller's stake back: returns the transfer of the whole stake
    /// to the caller, and ends the caller's commitment and game.
    pub fn withdraw_and_cancel_price(&mut self, caller: &AccountId) -> (r: Result<
        Transfer,
        PazzleError,
    >)
        requires
            old(self).wf(),
        ensures
            final(self).wf(),
            match old(self)@.withdraw(caller@) {
                Ok((next, refund)) => {
                    &&& final(self)@ == next
                    &&& r matches Ok(t)
                    &&& t.to@ == caller@
                    &&& t.amount == refund
                },
                Err(e) => {
                    &&& final(self)@ == old(self)@
                    &&& r == Err::<Transfer, PazzleError>(e)
                },
            },
    {
        let i: usize = match self.position(caller) {
            Some(i) => i,
            None => {
                return Err(PazzleError::NotFound(StorageKey::Players));
            },
        };
        proof {
            lemma_slot(self@.order, i as int);
        }
        let price: u128 = self.players[i].price;
        if price == 0 {
            return Err(PazzleError::NoStake);
        }
        match self.opponent_position(i) {
            Some(k) => {
                proof {
                    lemma_slot(self@.order, k as int);
                }
                if self.players[k].is_play {
                    return Err(PazzleError::MatchInProgress);
                }
            },
            None => {},
        }
        let opponent: Option<AccountId> = match &self.players[i].opponent {
            Some(o) => Some(o.clone()),
            None => None,
        };
        self.put_player(i, Player { price: 0, opponent, is_play: false });
        self.put_game(i, None);
        Ok(Transfer { to: caller.clone(), amount: price })
    }

    /// Records `amount` as the caller's stake. A caller who is not
    /// registered is registered first.
    pub fn set_price(&mut self, caller: &AccountId, amount: u128) -> (r: Result<(), PazzleError>)
        requires
            old(self).wf(),
        ensures
            final(self).wf(),
            match old(self)@.set_stake(caller@, amount) {
                Ok(next) => r is Ok && final(self)@ == next,
                Err(e) => r == Err::<(), PazzleError>(e) && final(self)@ == old(self)@,
            },
    {
        match self.position(caller) {
            Some(i) => {
                proof {
                    lemma_slot(self@.order, i as int);
                }
                if self.players[i].price != 0 {
                    return Err(PazzleError::DuplicateStake);
                }
                let opponent: Option<AccountId> = match &self.players[i].opponent {
                    Some(o) => Some(o.clone()),
                    None => None,
                };
                let is_play: bool = self.players[i].is_play;
                self.put_player(i, Player { price: amount, opponent, is_play });
            },
            None => {
                self.append(caller.clone());
                let i: usize = self.players_vec.len() - 1;
                proof {
                    lemma_slot(self@.order, i as int);
                }
                self.put_player(i, Player { price: amount, opponent: None, is_play: false });
                assert(self@ =~= old(self)@.set_stake(caller@, amount)->Ok_0);
            },
        }
        Ok(())
    }

    /// The registered accounts in the order of registration, and beside each
    /// its record.
    pub fn get_players(&self) -> (r: Result<(Vec<AccountId>, Vec<Player>), PazzleError>)
        requires
            self.wf(),
        ensures
            r is Err <==> self@.order.len() == 0,
            r is Err ==> r->Err_0 == PazzleError::NoPlayers,
            r matches Ok((accounts, players)) ==> {
                &&& accounts.len() == self@.order.len()
                &&& players.len() == self@.order.len()
                &&& forall|i: int|
                    0 <= i < self@.order.len() ==> (#[trigger] accounts[i])@ == self@.order[i]
                &&& forall|i: int|
                    0 <= i < self@.order.len() ==> (#[trigger] players[i])@
                        == self@.players[self@.order[i]]
            },
    {
        if self.players_vec.len() == 0 {
            return Err(PazzleError::NoPlayers);
        }
        let mut players: Vec<Player> = Vec::new();
        let mut accounts: Vec<AccountId> = Vec::new();
        let mut i: usize = 0;
        while i < self.players_vec.len()
            invariant
                self.wf(),
                i <= self.players_vec.len(),
                self@.order.len() == self.players_vec.len(),
                accounts.len() == i,
                players.len() == i,
                forall|k: int| 0 <= k < i ==> (#[trigger] accounts[k])@ == self@.order[k],
                forall|k: int|
                    0 <= k < i ==> (#[trigger] players[k])@ == self@.players[self@.order[k]],
            decreases self.players_vec.len() - i,
        {
            proof {
                lemma_slot(self@.order, i as int);
            }
            accounts.push(self.players_vec[i].clone());
            players.push(self.players[i].clone());
            i += 1;
        }
        Ok((accounts, players))
    }

    /// The opponent that `account_id` has named, if any.
    pub fn get_opponent(&self, account_id: &AccountId) -> (r: Result<Option<AccountId>, PazzleError>)
        requires
            self.wf(),
        ensures
            r is Ok <==> self@.registered(account_id@),
            r is Err ==> r->Err_0 == PazzleError::NotFound(StorageKey::Players),
            r matches Ok(o) ==> {
                &&& o is Some <==> self@.players[account_id@].opponent is Some
                &&& o matches Some(id) ==> self@.players[account_id@].opponent == Some(id@)
            },
    {
        match self.position(account_id) {
            Some(i) => {
                proof {
                    lemma_slot(self@.order, i as int);
                }
                match &self.players[i].opponent {
                    Some(o) => Ok(Some(o.clone())),
                    None => Ok(None),
                }
            },
            None => Err(PazzleError::NotFound(StorageKey::Players)),
        }
    }

    /// Whether `player_id` is committed.
    pub fn is_play_player(&self, player_id: &AccountId) -> (r: Result<bool, PazzleError>)
        requires
            self.wf(),
        ensures
            r == (if self@.registered(player_id@) {
                Ok::<bool, PazzleError>(self@.players[player_id@].is_play)
            } else {
                Err::<bool, PazzleError>(PazzleError::NotFound(StorageKey::Players))
            }),
    {
        match self.position(player_id) {
            Some(i) => {
                proof {
                    lemma_slot(self@.order, i as int);
                }
                Ok(self.players[i].is_play)
            },
            None => Err(PazzleError::NotFound(StorageKey::Players)),
        }
    }

    /// The board of the game that `account_id` is playing.
    pub fn get_tiles(&self, account_id: &AccountId) -> (r: Result<[u8; 16], PazzleError>)
        requires
            self.wf(),
        ensures
            r is Ok <==> self@.in_match(account_id@),
            r is Err ==> r->Err_0 == PazzleError::NotFound(StorageKey::Games),
            r matches Ok(tiles) ==> tiles@ == self@.games[account_id@],
    {
        match self.position(account_id) {
            Some(i) => {
                proof {
                    lemma_slot(self@.order, i as int);
                }
                match self.games[i] {
                    Some(g) => Ok(g.tiles),
                    None => Err(PazzleError::NotFound(StorageKey::Games)),
                }
            },
            None => Err(PazzleError::NotFound(StorageKey::Games)),
        }
    }

    /// Whether the caller's board is the solved one.
    pub fn is_solved(&self, caller: &AccountId) -> (r: Result<bool, PazzleError>)
        requires
            self.wf(),
        ensures
            r == (if self@.in_match(caller@) {
                Ok::<bool, PazzleError>(self@.games[caller@] == crate::moves::solved())
            } else {
                Err::<bool, PazzleError>(PazzleError::NotFound(StorageKey::Games))
            }),
    {
        match self.get_tiles(caller) {
            Ok(tiles) => Ok(is_solved(&tiles)),
            Err(e) => Err(e),
        }
    }

    /// Whether `tiles` passes the parity rule for starting boards.
    pub fn is_solvable(&self, tiles: [u8; 16]) -> (r: bool)
        ensures
            r == crate::tiles::solvable(tiles@),
    {
        is_solvable(&tiles)
    }

    /// Rejects `tiles` if it is too easy a start.
    pub fn check_allocation(&self, tiles: [u8; 16]) -> (r: Result<(), PazzleError>)
        ensures
            r is Err <==> crate::tiles::has_easy_run(tiles@),
            r is Err ==> r == Err::<(), PazzleError>(PazzleError::TooEasy),
    {
        check_allocation(&tiles)
    }

    /// Rejects `tiles` unless it is a configuration.
    pub fn check_tiles(&self, tiles: [u8; 16]) -> (r: Result<(), PazzleError>)
        ensures
            r is Ok <==> crate::tiles::is_configuration(tiles@),
            r is Err ==> r == Err::<(), PazzleError>(PazzleError::MalformedConfiguration),
    {
        validate_configuration(tiles.as_slice())
    }

    /// Unwraps the result of a lookup that is known to have found its record.
    pub fn expect_value_found<T>(&self, option: Option<T>) -> (v: T)
        requires
            option is Some,
        ensures
            option == Some(v),
    {
        option.unwrap()
    }

    /// Whether starting boards are also held to the too-easy detector.
    pub fn strict(&self) -> (r: bool)
        ensures
            r == self@.strict,
    {
        self.strict
    }

    /// Switches the too-easy detector for starting boards on or off.
    pub fn set_strict(&mut self, strict: bool)
        requires
            old(self).wf(),
        ensures
            final(self).wf(),
            final(self)@ == (PazzleView { strict, ..old(self)@ }),
    {
        self.strict = strict;
        assert(self@ =~= PazzleView { strict, ..old(self)@ });
    }
}

impl Default for Pazzle {
    /// An empty store without the too-easy detector.
    fn default() -> (s: Self)
        ensures
            s.wf(),
            s@ == PazzleView::empty(false),
    {
        Pazzle::new(false)
    }
}

impl Pazzle {
    /// Whether record and board at place `i` fit the rest of the store.
    fn entry_fits(&self, i: usize) -> (ok: bool)
        requires
            self.aligned(),
            self@.order.no_duplicates(),
            i < self@.order.len(),
        ensures
            ok == {
                let who = self@.order[i as int];
                &&& self@.record_ok(who)
                &&& self@.games.contains_key(who) ==> self@.players[who].is_play
                    && crate::tiles::is_configuration(self@.games[who])
            },
    {
        proof {
            lemma_slot(self@.order, i as int);
        }
        let linked: bool = match &self.players[i].opponent {
            Some(o) => {
                match self.position(o) {
                    Some(j) => j != i,
                    None => false,
                }
            },
            None => !self.players[i].is_play,
        };
        let staked: bool = !self.players[i].is_play || self.players[i].price > 0;
        let playing: bool = match &self.games[i] {
            Some(g) => self.players[i].is_play && validate_configuration(g.tiles.as_slice()).is_ok(),
            None => true,
        };
        linked && staked && playing
    }

    /// Puts a store together from its lists, as [`Pazzle::into_parts`] hands
    /// them out. Lists that do not make a valid store are refused.
    pub fn from_parts(
        players_vec: Vec<AccountId>,
        players: Vec<Player>,
        games: Vec<Option<Game>>,
        strict: bool,
    ) -> (r: Option<Pazzle>)
        ensures
            r is Some <==> {
                &&& players@.len() == players_vec@.len()
                &&& games@.len() == players_vec@.len()
                &&& assemble(names(players_vec@), records(players@), boards(games@), strict).valid()
            },
            r matches Some(s) ==> s.wf() && s@ == assemble(
                names(players_vec@),
                records(players@),
                boards(games@),
                strict,
            ),
    {
        let n: usize = players_vec.len();
        if players.len() != n || games.len() != n {
            return None;
        }
        let ghost order = names(players_vec@);
        let mut i: usize = 0;
        while i < n
            invariant
                n == players_vec.len(),
                i <= n,
                order == names(players_vec@),
                forall|a: int, b: int| 0 <= a < b < i ==> order[a] != order[b],
            decreases n - i,
        {
            let mut j: usize = 0;
            while j < i
                invariant
                    n == players_vec.len(),
                    j <= i < n,
                    order == names(players_vec@),
                    forall|a: int| 0 <= a < j ==> order[a] != order[i as int],
                decreases i - j,
            {
                if players_vec[j].same(&players_vec[i]) {
                    assert(order[j as int] == order[i as int]);
                    return None;
                }
                j += 1;
            }
            i += 1;
        }
        let ghost whole = assemble(names(players_vec@), records(players@), boards(games@), strict);
        let s = Pazzle { players_vec, players, games, strict };
        assert(s@ == whole);
        assert(s@.order =~= order);
        assert(s@.order.no_duplicates());
        let mut k: usize = 0;
        while k < n
            invariant
                k <= n,
                n == s@.order.len(),
                s.aligned(),
                s@ == whole,
                whole == assemble(names(players_vec@), records(players@), boards(games@), strict),
                s@.order.no_duplicates(),
                forall|a: int| 0 <= a < k ==> s@.record_ok(#[trigger] s@.order[a]),
                forall|a: int|
                    0 <= a < k && s@.games.contains_key(#[trigger] s@.order[a])
                        ==> s@.players[s@.order[a]].is_play && crate::tiles::is_configuration(
                        s@.games[s@.order[a]],
                    ),
            decreases n - k,
        {
            if !s.entry_fits(k) {
                proof {
                    lemma_slot(s@.order, k as int);
                    let who = s@.order[k as int];
                    assert(s@.players.contains_key(who));
                    if s@.valid() {
                        assert(s@.record_ok(who));
                    }
                }
                return None;
            }
            k += 1;
        }
        proof {
            assert forall|w: Seq<char>| #[trigger] s@.players.contains_key(w) implies s@.record_ok(
                w,
            ) by {
                let a = slot(s@.order, w);
                assert(s@.order[a] == w);
            }
            assert forall|w: Seq<char>| #[trigger]
                s@.games.contains_key(w) implies s@.players.contains_key(w)
                && s@.players[w].is_play && crate::tiles::is_configuration(s@.games[w]) by {
                let a = slot(s@.order, w);
                assert(s@.order[a] == w);
            }
        }
        Some(s)
    }

    /// Takes the store apart: the accounts in the order of registration,
    /// beside each its record and its board, and the setting of the too-easy
    /// detector.
    pub fn into_parts(self) -> (r: (Vec<AccountId>, Vec<Player>, Vec<Option<Game>>, bool))
        requires
            self.wf(),
        ensures
            r.0@.len() == r.1@.len() == r.2@.len(),
            self@ == assemble(names(r.0@), records(r.1@), boards(r.2@), r.3),
    {
        (self.players_vec, self.players, self.games, self.strict)
    }
}

} // verus!
