//! What holds of the boards, the moves and the store, for all inputs.

use vstd::prelude::*;
use vstd::set_lib::{lemma_int_range, lemma_subset_equality, set_int_range};
use crate::error::PazzleError;
use crate::moves::{adjacent, changed_cells, lemma_changed_cells_rising, move_verdict, solved};
use crate::player::PlayerView;
use crate::rules::PazzleView;
use crate::tiles::is_configuration;

verus! {

/// The value `v` stands in one of the sixteen cells.
pub open spec fn occurs(s: Seq<u8>, v: u8) -> bool {
    exists|i: int| 0 <= i < 16 && #[trigger] s[i] == v
}

/// Sixteen cells in which every value from 0 to 15 stands somewhere.
pub open spec fn is_permutation(s: Seq<u8>) -> bool {
    &&& s.len() == 16
    &&& forall|v: u8| v <= 15 ==> #[trigger] occurs(s, v)
}

/// On a configuration every value from 0 to 15 stands somewhere.
pub proof fn lemma_configuration_holds_every_value(s: Seq<u8>)
    requires
        is_configuration(s),
    ensures
        is_permutation(s),
{
    let t = Seq::new(16, |i: int| s[i] as int);
    assert(t.no_duplicates()) by {
        assert forall|i: int, j: int| 0 <= i < t.len() && 0 <= j < t.len() && i != j implies t[i]
            != t[j] by {
            if i < j {
                assert(s[i] != s[j]);
            } else {
                assert(s[j] != s[i]);
            }
        }
    }
    t.unique_seq_to_set();
    lemma_int_range(0, 16);
    assert(t.to_set().subset_of(set_int_range(0, 16))) by {
        assert forall|v: int| t.to_set().contains(v) implies set_int_range(0, 16).contains(v) by {
            let i = choose|i: int| 0 <= i < t.len() && t[i] == v;
            assert(s[i] <= 15);
        }
    }
    vstd::seq_lib::seq_to_set_is_finite(t);
    lemma_subset_equality(t.to_set(), set_int_range(0, 16));
    assert forall|v: u8| v <= 15 implies #[trigger] occurs(s, v) by {
        assert(set_int_range(0, 16).contains(v as int));
        assert(t.to_set().contains(v as int));
        let i = choose|i: int| 0 <= i < t.len() && t[i] == v as int;
        assert(s[i] == v);
    }
}

/// Sixteen cells in which every value from 0 to 15 stands somewhere hold no
/// other value and none twice.
pub proof fn lemma_every_value_makes_configuration(s: Seq<u8>)
    requires
        is_permutation(s),
    ensures
        is_configuration(s),
{
    let place = |v: int| choose|i: int| 0 <= i < 16 && #[trigger] s[i] == v;
    let t = Seq::new(16, place);
    assert forall|v: int| 0 <= v < 16 implies 0 <= #[trigger] t[v] < 16 && s[t[v]] == v by {
        let b = v as u8;
        assert(occurs(s, b));
        let i = choose|i: int| 0 <= i < 16 && #[trigger] s[i] == b;
        assert(s[i] == v);
    }
    assert(t.no_duplicates());
    t.unique_seq_to_set();
    lemma_int_range(0, 16);
    assert(t.to_set().subset_of(set_int_range(0, 16))) by {
        assert forall|i: int| t.to_set().contains(i) implies set_int_range(0, 16).contains(i) by {
            let v = choose|v: int| 0 <= v < t.len() && t[v] == i;
            assert(0 <= t[v] < 16);
        }
    }
    vstd::seq_lib::seq_to_set_is_finite(t);
    lemma_subset_equality(t.to_set(), set_int_range(0, 16));
    assert forall|i: int| 0 <= i < 16 implies #[trigger] s[i] <= 15 by {
        assert(set_int_range(0, 16).contains(i));
        assert(t.to_set().contains(i));
        let v = choose|v: int| 0 <= v < t.len() && t[v] == i;
        assert(s[t[v]] == v);
    }
    assert forall|i: int, j: int| 0 <= i < j < 16 implies #[trigger] s[i] != #[trigger] s[j] by {
        assert(set_int_range(0, 16).contains(i));
        assert(set_int_range(0, 16).contains(j));
        assert(t.to_set().contains(i));
        assert(t.to_set().contains(j));
        let v = choose|v: int| 0 <= v < t.len() && t[v] == i;
        let w = choose|w: int| 0 <= w < t.len() && t[w] == j;
        assert(s[t[v]] == v);
        assert(s[t[w]] == w);
    }
}

/// The configurations are exactly the permutations of the values 0 to 15.
pub proof fn lemma_configuration_iff_permutation(s: Seq<u8>)
    ensures
        is_configuration(s) <==> is_permutation(s),
{
    if is_configuration(s) {
        lemma_configuration_holds_every_value(s);
    }
    if is_permutation(s) {
        lemma_every_value_makes_configuration(s);
    }
}

/// The changed cells are exactly the cells in which the two boards differ.
pub proof fn lemma_changed_cells_are_differences(a: Seq<u8>, b: Seq<u8>, n: int)
    ensures
        forall|k: int|
            0 <= k < changed_cells(a, b, n).len() ==> a[#[trigger] changed_cells(a, b, n)[k]]
                != b[changed_cells(a, b, n)[k]],
        forall|i: int|
            0 <= i < n && a[i] != b[i] ==> #[trigger] changed_cells(a, b, n).contains(i),
    decreases n,
{
    if n > 0 {
        lemma_changed_cells_are_differences(a, b, n - 1);
        let before = changed_cells(a, b, n - 1);
        let d = changed_cells(a, b, n);
        assert forall|i: int| 0 <= i < n && a[i] != b[i] implies #[trigger] d.contains(i) by {
            if i < n - 1 {
                assert(before.contains(i));
                let k = choose|k: int| 0 <= k < before.len() && before[k] == i;
                assert(d[k] == i);
            } else {
                assert(d[d.len() - 1] == i);
            }
        }
    }
}

/// It does not matter which of the two boards is taken first.
pub proof fn lemma_changed_cells_symmetric(a: Seq<u8>, b: Seq<u8>, n: int)
    ensures
        changed_cells(a, b, n) == changed_cells(b, a, n),
    decreases n,
{
    if n > 0 {
        lemma_changed_cells_symmetric(a, b, n - 1);
    }
}

/// Where the boards differ in the cells `p < q` and nowhere else, these two
/// are the changed cells.
pub proof fn lemma_two_changed_cells(a: Seq<u8>, b: Seq<u8>, p: int, q: int)
    requires
        0 <= p < q < 16,
        forall|i: int| 0 <= i < 16 ==> (a[i] != b[i] <==> (i == p || i == q)),
    ensures
        changed_cells(a, b, 16) == seq![p, q],
{
    let d = changed_cells(a, b, 16);
    lemma_changed_cells_rising(a, b, 16);
    lemma_changed_cells_are_differences(a, b, 16);
    assert(d.contains(p));
    assert(d.contains(q));
    let kp = choose|k: int| 0 <= k < d.len() && d[k] == p;
    let kq = choose|k: int| 0 <= k < d.len() && d[k] == q;
    assert(d[kp] == p && d[kq] == q);
    if d.len() > 2 {
        assert(d[0] < d[1] < d[2]);
        assert(a[d[0]] != b[d[0]]);
        assert(a[d[1]] != b[d[1]]);
        assert(a[d[2]] != b[d[2]]);
    }
    assert(d.len() == 2);
    assert(d =~= seq![p, q]);
}

/// Where the boards differ in three cells, more than two cells changed.
pub proof fn lemma_three_changed_cells(a: Seq<u8>, b: Seq<u8>, p: int, q: int, r: int)
    requires
        0 <= p < 16,
        0 <= q < 16,
        0 <= r < 16,
        p != q && q != r && p != r,
        a[p] != b[p],
        a[q] != b[q],
        a[r] != b[r],
    ensures
        changed_cells(a, b, 16).len() > 2,
{
    let d = changed_cells(a, b, 16);
    lemma_changed_cells_are_differences(a, b, 16);
    assert(d.contains(p));
    assert(d.contains(q));
    assert(d.contains(r));
    let kp = choose|k: int| 0 <= k < d.len() && d[k] == p;
    let kq = choose|k: int| 0 <= k < d.len() && d[k] == q;
    let kr = choose|k: int| 0 <= k < d.len() && d[k] == r;
    assert(d[kp] == p && d[kq] == q && d[kr] == r);
}

/// The board `a` with the contents of the cells `p` and `q` exchanged.
pub open spec fn exchanged(a: Seq<u8>, p: int, q: int) -> Seq<u8> {
    a.update(p, a[q]).update(q, a[p])
}

/// `b` is `a` after the blank, standing in some cell `p`, has changed places
/// with the tile in a cell `q` that touches `p`.
pub open spec fn is_slide(a: Seq<u8>, b: Seq<u8>) -> bool {
    exists|p: int, q: int|
        0 <= p < 16 && 0 <= q < 16 && adjacent(p, q) && a[p] == 0 && #[trigger] exchanged(a, p, q)
            == b
}

/// Two configurations that agree outside the cells `p` and `q` and differ in
/// both hold each other's values there.
pub proof fn lemma_two_differences_exchange(a: Seq<u8>, b: Seq<u8>, p: int, q: int)
    requires
        is_configuration(a),
        is_configuration(b),
        0 <= p < 16,
        0 <= q < 16,
        p != q,
        forall|i: int| 0 <= i < 16 && i != p && i != q ==> a[i] == b[i],
        a[p] != b[p],
    ensures
        b[p] == a[q],
        b[q] == a[p],
        b == exchanged(a, p, q),
{
    lemma_configuration_holds_every_value(b);
    assert(occurs(b, a[p]));
    let i = choose|i: int| 0 <= i < 16 && #[trigger] b[i] == a[p];
    if i != p && i != q {
        assert(a[i] == b[i]);
        if i < p {
            assert(a[i] != a[p]);
        } else {
            assert(a[p] != a[i]);
        }
    }
    assert(i == q);
    lemma_configuration_holds_every_value(a);
    assert(occurs(a, b[p]));
    let j = choose|j: int| 0 <= j < 16 && #[trigger] a[j] == b[p];
    if j != p && j != q {
        assert(a[j] == b[j]);
        if j < p {
            assert(b[j] != b[p]);
        } else {
            assert(b[p] != b[j]);
        }
    }
    assert(j == q);
    assert(b =~= exchanged(a, p, q));
}

/// Two configurations never differ in one cell alone.
pub proof fn lemma_never_one_changed_cell(a: Seq<u8>, b: Seq<u8>)
    requires
        is_configuration(a),
        is_configuration(b),
    ensures
        changed_cells(a, b, 16).len() != 1,
{
    let d = changed_cells(a, b, 16);
    if d.len() == 1 {
        lemma_changed_cells_rising(a, b, 16);
        lemma_changed_cells_are_differences(a, b, 16);
        let p = d[0];
        assert(a[p] != b[p]);
        assert forall|i: int| 0 <= i < 16 && i != p implies a[i] == b[i] by {
            if a[i] != b[i] {
                assert(d.contains(i));
            }
        }
        let q = if p == 0 { 1int } else { 0int };
        lemma_two_differences_exchange(a, b, p, q);
        assert(b[q] == a[q]);
        if p < q {
            assert(a[p] != a[q]);
        } else {
            assert(a[q] != a[p]);
        }
    }
}

/// A board with two cells exchanged is a configuration again.
pub proof fn lemma_exchanged_configuration(a: Seq<u8>, p: int, q: int)
    requires
        is_configuration(a),
        0 <= p < 16,
        0 <= q < 16,
    ensures
        is_configuration(exchanged(a, p, q)),
{
    let b = exchanged(a, p, q);
    assert forall|i: int, j: int| 0 <= i < j < 16 implies #[trigger] b[i] != #[trigger] b[j] by {
        let oi = if i == p { q } else if i == q { p } else { i };
        let oj = if j == p { q } else if j == q { p } else { j };
        assert(b[i] == a[oi]);
        assert(b[j] == a[oj]);
        if oi < oj {
            assert(a[oi] != a[oj]);
        } else {
            assert(a[oj] != a[oi]);
        }
    }
    assert forall|i: int| 0 <= i < 16 implies #[trigger] b[i] <= 15 by {
        let oi = if i == p { q } else if i == q { p } else { i };
        assert(b[i] == a[oi]);
        assert(a[oi] <= 15);
    }
}

/// A move is accepted exactly when the proposed board is the current one
/// after the blank has changed places with a tile next to it.
pub proof fn lemma_move_is_slide(a: Seq<u8>, b: Seq<u8>)
    requires
        is_configuration(a),
    ensures
        move_verdict(a, b) is None <==> is_slide(a, b),
{
    let d = changed_cells(a, b, 16);
    lemma_changed_cells_rising(a, b, 16);
    lemma_changed_cells_are_differences(a, b, 16);
    if move_verdict(a, b) is None {
        let p = d[0];
        let q = d[1];
        assert(a[p] != b[p]);
        assert(a[q] != b[q]);
        assert forall|i: int| 0 <= i < 16 && i != p && i != q implies a[i] == b[i] by {
            if a[i] != b[i] {
                assert(d.contains(i));
            }
        }
        lemma_two_differences_exchange(a, b, p, q);
        if a[p] == 0 {
            assert(exchanged(a, p, q) == b);
        } else {
            assert(exchanged(a, q, p) =~= b);
        }
    }
    if is_slide(a, b) {
        let (p, q) = choose|p: int, q: int|
            0 <= p < 16 && 0 <= q < 16 && adjacent(p, q) && a[p] == 0 && #[trigger] exchanged(
                a,
                p,
                q,
            ) == b;
        lemma_exchanged_configuration(a, p, q);
        if p < q {
            assert(a[p] != a[q]);
            lemma_two_changed_cells(a, b, p, q);
        } else {
            assert(a[q] != a[p]);
            lemma_two_changed_cells(a, b, q, p);
        }
    }
}

/// A move can be taken back: if `b` is one move from `a`, then `a` is one
/// move from `b`.
pub proof fn lemma_move_round_trip(a: Seq<u8>, b: Seq<u8>)
    requires
        move_verdict(a, b) is None,
    ensures
        move_verdict(b, a) is None,
{
    lemma_move_is_slide(a, b);
    let (p, q) = choose|p: int, q: int|
        0 <= p < 16 && 0 <= q < 16 && adjacent(p, q) && a[p] == 0 && #[trigger] exchanged(a, p, q)
            == b;
    assert(exchanged(b, q, p) =~= a);
    assert(b[q] == 0);
    assert(is_slide(b, a));
    lemma_move_is_slide(b, a);
}

/// Two moves cannot be made as one: if `b` is one move from `a` and `c` one
/// move from `b`, then `c` is refused as a move from `a`, as no move where
/// the second move takes the first back and as more than one move otherwise.
pub proof fn lemma_no_move_skips(a: Seq<u8>, b: Seq<u8>, c: Seq<u8>)
    requires
        move_verdict(a, b) is None,
        move_verdict(b, c) is None,
    ensures
        move_verdict(a, c) == Some(
            if c == a {
                PazzleError::NoMove
            } else {
                PazzleError::MultiMove
            },
        ),
{
    lemma_move_is_slide(a, b);
    lemma_move_is_slide(b, c);
    let (p, q) = choose|p: int, q: int|
        0 <= p < 16 && 0 <= q < 16 && adjacent(p, q) && a[p] == 0 && #[trigger] exchanged(a, p, q)
            == b;
    let (r, t) = choose|r: int, t: int|
        0 <= r < 16 && 0 <= t < 16 && adjacent(r, t) && b[r] == 0 && #[trigger] exchanged(b, r, t)
            == c;
    assert(b[q] == 0);
    if r < q {
        assert(b[r] != b[q]);
    }
    if q < r {
        assert(b[q] != b[r]);
    }
    assert(r == q);
    if t == p {
        assert(c =~= a);
        assert(changed_cells(a, c, 16).len() == 0) by {
            lemma_changed_cells_are_differences(a, c, 16);
            let d = changed_cells(a, c, 16);
            if d.len() > 0 {
                assert(a[d[0]] != c[d[0]]);
            }
        }
    } else {
        assert(c[t] == 0);
        assert(c[q] == b[t]);
        assert(b[t] == a[t]);
        assert(c[p] == a[q]);
        if p < q {
            assert(a[p] != a[q]);
        } else {
            assert(a[q] != a[p]);
        }
        if p < t {
            assert(a[p] != a[t]);
        } else {
            assert(a[t] != a[p]);
        }
        if q < t {
            assert(a[q] != a[t]);
        } else {
            assert(a[t] != a[q]);
        }
        lemma_three_changed_cells(a, c, p, q, t);
        assert(c != a);
    }
}

/// The solved board, cell by cell; it is a configuration.
pub proof fn lemma_solved_is_configuration()
    ensures
        solved() == seq![1u8, 2, 3, 4, 5, 6, 7, 8, 9, 10, 11, 12, 13, 14, 15, 0],
        is_configuration(solved()),
{
    assert(solved() =~= seq![1u8, 2, 3, 4, 5, 6, 7, 8, 9, 10, 11, 12, 13, 14, 15, 0]);
}

/// A board is the solved one unless some cell, the last included, holds
/// another value than the solved board has there.
pub proof fn lemma_solved_cell_by_cell(s: Seq<u8>)
    requires
        s.len() == 16,
    ensures
        s == solved() <==> (forall|i: int| 0 <= i < 16 ==> #[trigger] s[i] == solved()[i]),
        s == solved() <==> (s[15] == 0 && forall|i: int| 0 <= i < 15 ==> #[trigger] s[i] == i + 1),
{
    if forall|i: int| 0 <= i < 16 ==> #[trigger] s[i] == solved()[i] {
        assert(s =~= solved());
    }
    if s[15] == 0 && forall|i: int| 0 <= i < 15 ==> #[trigger] s[i] == i + 1 {
        assert(s =~= solved());
    }
}

/// Registration leaves a store that is valid again.
pub proof fn lemma_register_keeps_valid(s: PazzleView, who: Seq<char>)
    requires
        s.valid(),
        s.register(who) is Ok,
    ensures
        s.register(who)->Ok_0.valid(),
{
    lemma_newcomer_keeps_valid(s, who);
}

/// Adding someone who is not registered leaves a valid store.
pub proof fn lemma_newcomer_keeps_valid(s: PazzleView, who: Seq<char>)
    requires
        s.valid(),
        !s.registered(who),
    ensures
        s.with_newcomer(who).valid(),
{
    let next = s.with_newcomer(who);
    assert(!s.order.contains(who));
    assert(next.order.no_duplicates());
    assert forall|k: Seq<char>| next.players.contains_key(k) <==> next.order.contains(k) by {
        if s.order.contains(k) {
            let i = choose|i: int| 0 <= i < s.order.len() && s.order[i] == k;
            assert(next.order[i] == k);
        }
        if k == who {
            assert(next.order[s.order.len() as int] == who);
        }
    }
    assert forall|k: Seq<char>| #[trigger] next.players.contains_key(k) implies next.record_ok(k) by {
        if k != who {
            assert(s.record_ok(k));
        }
    }
}

/// Setting a stake leaves a store that is valid again.
pub proof fn lemma_set_stake_keeps_valid(s: PazzleView, who: Seq<char>, amount: u128)
    requires
        s.valid(),
        s.set_stake(who, amount) is Ok,
    ensures
        s.set_stake(who, amount)->Ok_0.valid(),
{
    let known = if s.registered(who) { s } else { s.with_newcomer(who) };
    if !s.registered(who) {
        lemma_newcomer_keeps_valid(s, who);
    }
    let next = s.set_stake(who, amount)->Ok_0;
    assert(known.record_ok(who));
    assert forall|k: Seq<char>| #[trigger] next.players.contains_key(k) implies next.record_ok(k) by {
        if k != who {
            assert(known.record_ok(k));
        }
    }
    assert forall|k: Seq<char>| next.players.contains_key(k) <==> next.order.contains(k) by {
        assert(known.players.contains_key(k) <==> known.order.contains(k));
    }
}

/// Withdrawing a stake leaves a store that is valid again.
pub proof fn lemma_withdraw_keeps_valid(s: PazzleView, who: Seq<char>)
    requires
        s.valid(),
        s.withdraw(who) is Ok,
    ensures
        s.withdraw(who)->Ok_0.0.valid(),
{
    let next = s.withdraw(who)->Ok_0.0;
    assert(s.record_ok(who));
    assert forall|k: Seq<char>| #[trigger] next.players.contains_key(k) implies next.record_ok(k) by {
        if k != who {
            assert(s.record_ok(k));
        }
    }
    assert forall|k: Seq<char>| next.players.contains_key(k) <==> next.order.contains(k) by {
        assert(s.players.contains_key(k) <==> s.order.contains(k));
    }
}

/// Naming an opponent leaves a store that is valid again.
pub proof fn lemma_propose_keeps_valid(s: PazzleView, who: Seq<char>, opponent: Seq<char>)
    requires
        s.valid(),
        s.propose(who, opponent) is Ok,
    ensures
        s.propose(who, opponent)->Ok_0.valid(),
{
    let next = s.propose(who, opponent)->Ok_0;
    assert forall|k: Seq<char>| #[trigger] next.players.contains_key(k) implies next.record_ok(k) by {
        if k != who {
            assert(s.record_ok(k));
        }
    }
    assert forall|k: Seq<char>| next.players.contains_key(k) <==> next.order.contains(k) by {
        assert(s.players.contains_key(k) <==> s.order.contains(k));
    }
}

/// Starting a game leaves a store that is valid again.
pub proof fn lemma_start_keeps_valid(s: PazzleView, who: Seq<char>, tiles: Seq<u8>)
    requires
        s.valid(),
        s.start(who, tiles) is Ok,
    ensures
        s.start(who, tiles)->Ok_0.valid(),
{
    let next = s.start(who, tiles)->Ok_0;
    assert forall|k: Seq<char>| #[trigger] next.players.contains_key(k) implies next.record_ok(k) by {
        assert(s.record_ok(k));
    }
}

/// A move, with or without settlement, leaves a store that is valid again.
pub proof fn lemma_submit_keeps_valid(s: PazzleView, who: Seq<char>, proposed: Seq<u8>)
    requires
        s.valid(),
        s.submit(who, proposed) is Ok,
    ensures
        s.submit(who, proposed)->Ok_0.0.valid(),
{
    let next = s.submit(who, proposed)->Ok_0.0;
    assert(s.record_ok(who));
    let opponent = s.players[who].opponent->0;
    assert forall|k: Seq<char>| #[trigger] next.players.contains_key(k) implies next.record_ok(k) by {
        if k != who && k != opponent {
            assert(s.record_ok(k));
        }
    }
    assert forall|k: Seq<char>| next.players.contains_key(k) <==> next.order.contains(k) by {
        assert(s.players.contains_key(k) <==> s.order.contains(k));
    }
}

/// No operation removes a participant or changes the order of registration:
/// whoever is registered stays registered.
pub proof fn lemma_registration_is_kept(
    s: PazzleView,
    who: Seq<char>,
    other: Seq<char>,
    amount: u128,
    tiles: Seq<u8>,
    k: Seq<char>,
)
    requires
        s.registered(k),
    ensures
        s.register(who) matches Ok(next) ==> next.registered(k),
        s.set_stake(who, amount) matches Ok(next) ==> next.registered(k),
        s.withdraw(who) matches Ok(next) ==> next.0.registered(k) && next.0.order == s.order,
        s.propose(who, other) matches Ok(next) ==> next.registered(k) && next.order == s.order,
        s.start(who, tiles) matches Ok(next) ==> next.registered(k) && next.order == s.order,
        s.submit(who, tiles) matches Ok(next) ==> next.0.registered(k) && next.0.order == s.order,
{
}

/// Between two registered participants of whom the first has no committed
/// opponent: naming the other is refused as a stake mismatch exactly when
/// the two stakes differ, whether or not they are zero; with equal stakes it
/// succeeds and links the first to the other, committed exactly when the
/// stakes are not zero.
pub proof fn lemma_propose_by_stakes(s: PazzleView, who: Seq<char>, opponent: Seq<char>)
    requires
        s.registered(who),
        s.registered(opponent),
        who != opponent,
        !s.opponent_committed(who),
    ensures
        s.players[who].price != s.players[opponent].price ==> s.propose(who, opponent) == Err::<
            PazzleView,
            PazzleError,
        >(PazzleError::StakeMismatch),
        s.players[who].price == s.players[opponent].price ==> {
            &&& s.propose(who, opponent) matches Ok(next)
            &&& next.players[who].opponent == Some(opponent)
            &&& next.players[who].price == s.players[who].price
            &&& next.players[who].is_play <==> s.players[who].price != 0
            &&& !next.in_match(who)
            &&& forall|k: Seq<char>| k != who ==> next.players[k] == s.players[k]
        },
{
}

/// A registered participant with a stake: the stake stays locked exactly
/// while the named opponent is committed. Otherwise withdrawing returns the
/// whole stake and leaves the participant without stake, commitment or board.
pub proof fn lemma_withdraw_by_commitment(s: PazzleView, who: Seq<char>)
    requires
        s.registered(who),
        s.players[who].price > 0,
    ensures
        s.opponent_committed(who) ==> s.withdraw(who) == Err::<(PazzleView, u128), PazzleError>(
            PazzleError::MatchInProgress,
        ),
        !s.opponent_committed(who) ==> {
            &&& s.withdraw(who) matches Ok(next)
            &&& next.1 == s.players[who].price
            &&& next.0.players[who].price == 0
            &&& !next.0.players[who].is_play
            &&& next.0.players[who].opponent == s.players[who].opponent
            &&& !next.0.in_match(who)
            &&& forall|k: Seq<char>| k != who ==> next.0.players[k] == s.players[k]
        },
{
}

/// What an accepted move does: it is a slide of the blank on the mover's
/// board. Short of the solved board only that board changes. On the solved
/// board the mover is owed both stakes, and mover and opponent are left as
/// newcomers without a board, whatever the stakes were; nobody else changes.
pub proof fn lemma_settlement(s: PazzleView, who: Seq<char>, proposed: Seq<u8>)
    requires
        s.valid(),
        s.submit(who, proposed) is Ok,
    ensures
        is_slide(s.games[who], proposed),
        s.submit(who, proposed)->Ok_0.1 is Some <==> proposed == solved(),
        proposed != solved() ==> s.submit(who, proposed)->Ok_0.0 == (PazzleView {
            games: s.games.insert(who, proposed),
            ..s
        }),
        proposed == solved() ==> {
            let next = s.submit(who, proposed)->Ok_0.0;
            let opponent = s.players[who].opponent->0;
            &&& s.submit(who, proposed)->Ok_0.1 == Some(
                (s.players[who].price + s.players[opponent].price) as u128,
            )
            &&& s.players[who].price + s.players[opponent].price <= u128::MAX
            &&& next.players[who] == PlayerView::fresh()
            &&& next.players[opponent] == PlayerView::fresh()
            &&& !next.in_match(who)
            &&& !next.in_match(opponent)
            &&& forall|k: Seq<char>|
                k != who && k != opponent ==> next.players[k] == s.players[k]
                    && (next.games.contains_key(k) <==> s.games.contains_key(k))
        },
{
    lemma_move_is_slide(s.games[who], proposed);
}

/// A game can only be started by a participant who has a stake and has
/// named an opponent, when both are committed; a move can only be made by a
/// participant who has started a game.
pub proof fn lemma_stages_in_order(s: PazzleView, who: Seq<char>, tiles: Seq<u8>)
    requires
        s.valid(),
    ensures
        s.start(who, tiles) is Ok ==> s.registered(who) && s.players[who].price > 0
            && s.both_committed(who) && !s.in_match(who),
        s.submit(who, tiles) is Ok ==> s.in_match(who) && s.both_committed(who),
        s.in_match(who) ==> s.registered(who) && s.players[who].is_play && s.players[who].price
            > 0 && s.players[who].opponent is Some,
{
    if s.registered(who) {
        assert(s.record_ok(who));
    }
}

} // verus!
