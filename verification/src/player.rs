pub mod moves;

use vstd::multiset::Multiset;
use vstd::prelude::*;

use crate::bag::Bag;
use crate::board::location::Location;
use crate::board::mov::{Move, SpecMove};
use crate::board::position::Position;
use crate::board::{placed_locations, Board};
use crate::player::moves::{
    get_combination_moves, lemma_player_moves_wf, spec_player_moves, spec_player_moves_from,
    views_of, wf_found_move,
};
use crate::board::position::on_grid;
use crate::rules::{free_cell, line_ok, tiles_match, validate_tiles};
use crate::tile::{clone_tiles, Tile, Tiles};

verus! {

pub type Points = i32;

pub type Combination = Tiles;

pub type Combinations = Vec<Tiles>;

/// The tile sequences a vector of combinations holds.
pub open spec fn views_of_combos(combos: Seq<Vec<Tile>>) -> Seq<Seq<Tile>> {
    combos.map_values(|c: Vec<Tile>| c@)
}

/// Whether `tile` combines with every tile already in the combination.
pub open spec fn matches_all(c: Seq<Tile>, tile: Tile) -> bool {
    forall|i: int| 0 <= i < c.len() ==> tiles_match(c[i], tile)
}

/// Every combination that extends `c` with tiles of `rest`, in enumeration
/// order: `c` itself first, then for each acceptable tile of `rest` in turn,
/// all extensions by that tile, recursively drawing only on the tiles after
/// it.  Taking only later tiles rules out reusing a hand slot and emitting
/// the same set in two orders.
pub open spec fn spec_combos(c: Seq<Tile>, rest: Seq<Tile>) -> Seq<Seq<Tile>>
    decreases rest.len(), rest.len() + 1,
{
    seq![c] + spec_combos_ext(c, rest, 0)
}

/// The extensions of `c` by a tile of `rest` at index `i` or later.
pub open spec fn spec_combos_ext(c: Seq<Tile>, rest: Seq<Tile>, i: int) -> Seq<Seq<Tile>>
    decreases rest.len(), rest.len() - i,
{
    if i < 0 || i >= rest.len() {
        Seq::empty()
    } else {
        (if matches_all(c, rest[i]) {
            spec_combos(c.push(rest[i]), rest.skip(i + 1))
        } else {
            Seq::empty()
        }) + spec_combos_ext(c, rest, i + 1)
    }
}

/// Every combination a hand offers: for each hand slot in turn, all
/// combinations starting with that tile and drawing only on later slots.
pub open spec fn spec_hand_combos_from(hand: Seq<Tile>, i: int) -> Seq<Seq<Tile>>
    decreases hand.len() - i,
{
    if i < 0 || i >= hand.len() {
        Seq::empty()
    } else {
        spec_combos(seq![hand[i]], hand.skip(i + 1)) + spec_hand_combos_from(hand, i + 1)
    }
}

/// Every combination a hand offers, in enumeration order.
pub open spec fn spec_hand_combos(hand: Seq<Tile>) -> Seq<Seq<Tile>> {
    spec_hand_combos_from(hand, 0)
}

/// A combination extended by an acceptable tile stays pairwise matchable.
proof fn lemma_push_line_ok(c: Seq<Tile>, tile: Tile)
    requires
        line_ok(c),
        matches_all(c, tile),
    ensures
        line_ok(c.push(tile)),
{
    let e = c.push(tile);
    assert forall|i: int, j: int| 0 <= i < j < e.len() implies tiles_match(e[i], e[j]) by {
        if j < c.len() {
            assert(e[i] == c[i] && e[j] == c[j]);
        } else {
            assert(e[j] == tile && e[i] == c[i]);
        }
    }
}

/// Every combination the generator emits from a pairwise-matchable seed is
/// itself pairwise matchable and at least as long as the seed.
pub proof fn lemma_combos_closure(c: Seq<Tile>, rest: Seq<Tile>)
    requires
        line_ok(c),
        c.len() >= 1,
    ensures
        forall|k: int| 0 <= k < spec_combos(c, rest).len() ==> line_ok(
            #[trigger] spec_combos(c, rest)[k],
        ) && spec_combos(c, rest)[k].len() >= 1,
    decreases rest.len(), rest.len() + 1,
{
    lemma_combos_ext_closure(c, rest, 0);
    assert forall|k: int| 0 <= k < spec_combos(c, rest).len() implies line_ok(
        #[trigger] spec_combos(c, rest)[k],
    ) && spec_combos(c, rest)[k].len() >= 1 by {
        if k == 0 {
            assert(spec_combos(c, rest)[0] == c);
        } else {
            assert(spec_combos(c, rest)[k] == spec_combos_ext(c, rest, 0)[k - 1]);
        }
    }
}

proof fn lemma_combos_ext_closure(c: Seq<Tile>, rest: Seq<Tile>, i: int)
    requires
        line_ok(c),
        c.len() >= 1,
    ensures
        forall|k: int| 0 <= k < spec_combos_ext(c, rest, i).len() ==> line_ok(
            #[trigger] spec_combos_ext(c, rest, i)[k],
        ) && spec_combos_ext(c, rest, i)[k].len() >= 1,
    decreases rest.len(), rest.len() - i,
{
    if 0 <= i < rest.len() {
        if matches_all(c, rest[i]) {
            lemma_push_line_ok(c, rest[i]);
            lemma_combos_closure(c.push(rest[i]), rest.skip(i + 1));
        }
        lemma_combos_ext_closure(c, rest, i + 1);
        let head = if matches_all(c, rest[i]) {
            spec_combos(c.push(rest[i]), rest.skip(i + 1))
        } else {
            Seq::empty()
        };
        assert forall|k: int| 0 <= k < spec_combos_ext(c, rest, i).len() implies line_ok(
            #[trigger] spec_combos_ext(c, rest, i)[k],
        ) && spec_combos_ext(c, rest, i)[k].len() >= 1 by {
            if k < head.len() {
                assert(spec_combos_ext(c, rest, i)[k] == head[k]);
            } else {
                assert(spec_combos_ext(c, rest, i)[k] == spec_combos_ext(c, rest, i + 1)[k
                    - head.len()]);
            }
        }
    }
}

/// Every combination the hand generator emits is pairwise matchable in all
/// positions and holds at least one tile.
pub proof fn lemma_generator_closure(hand: Seq<Tile>)
    ensures
        forall|k: int| 0 <= k < spec_hand_combos(hand).len() ==> line_ok(
            #[trigger] spec_hand_combos(hand)[k],
        ) && spec_hand_combos(hand)[k].len() >= 1,
{
    lemma_hand_combos_from_closure(hand, 0);
}

proof fn lemma_hand_combos_from_closure(hand: Seq<Tile>, i: int)
    ensures
        forall|k: int| 0 <= k < spec_hand_combos_from(hand, i).len() ==> line_ok(
            #[trigger] spec_hand_combos_from(hand, i)[k],
        ) && spec_hand_combos_from(hand, i)[k].len() >= 1,
    decreases hand.len() - i,
{
    if 0 <= i < hand.len() {
        assert(line_ok(seq![hand[i]]));
        lemma_combos_closure(seq![hand[i]], hand.skip(i + 1));
        lemma_hand_combos_from_closure(hand, i + 1);
        let head = spec_combos(seq![hand[i]], hand.skip(i + 1));
        assert forall|k: int| 0 <= k < spec_hand_combos_from(hand, i).len() implies line_ok(
            #[trigger] spec_hand_combos_from(hand, i)[k],
        ) && spec_hand_combos_from(hand, i)[k].len() >= 1 by {
            if k < head.len() {
                assert(spec_hand_combos_from(hand, i)[k] == head[k]);
            } else {
                assert(spec_hand_combos_from(hand, i)[k] == spec_hand_combos_from(hand, i + 1)[k
                    - head.len()]);
            }
        }
    }
}

/// Whether `tile` can be added to the combination: it must combine with
/// every tile already there.
fn combination_accepts(combination: &Combination, tile: &Tile) -> (r: bool)
    ensures
        r == matches_all(combination@, *tile),
{
    let n = combination.len();
    for i in 0..n
        invariant
            n == combination@.len(),
            forall|j: int| 0 <= j < i ==> tiles_match(combination@[j], *tile),
    {
        if !validate_tiles(&combination[i], tile) {
            return false;
        }
    }
    true
}

/// A fresh vector holding the tiles from `start` on.
fn tiles_from(tiles: &Tiles, start: usize) -> (r: Tiles)
    requires
        start <= tiles@.len(),
    ensures
        r@ == tiles@.skip(start as int),
{
    let mut out: Tiles = Vec::new();
    let n = tiles.len();
    for i in start..n
        invariant
            start <= i <= n == tiles@.len(),
            out@ =~= tiles@.subrange(start as int, i as int),
    {
        out.push(tiles[i]);
    }
    proof {
        assert(out@ =~= tiles@.skip(start as int));
    }
    out
}


/// The index of the first hand slot holding `tile`, or -1 when no slot does.
pub open spec fn spec_first_index(s: Seq<Tile>, tile: Tile) -> int
    decreases s.len(),
{
    if s.len() == 0 {
        -1
    } else if s[0] == tile {
        0
    } else {
        let rest = spec_first_index(s.drop_first(), tile);
        if rest < 0 {
            -1
        } else {
            rest + 1
        }
    }
}

proof fn lemma_first_index_at(s: Seq<Tile>, tile: Tile, i: int)
    requires
        0 <= i < s.len(),
        s[i] == tile,
        forall|j: int| 0 <= j < i ==> s[j] != tile,
    ensures
        spec_first_index(s, tile) == i,
    decreases i,
{
    if i > 0 {
        lemma_first_index_at(s.drop_first(), tile, i - 1);
    }
}

proof fn lemma_first_index_none(s: Seq<Tile>, tile: Tile)
    requires
        forall|j: int| 0 <= j < s.len() ==> s[j] != tile,
    ensures
        spec_first_index(s, tile) == -1,
    decreases s.len(),
{
    if s.len() > 0 {
        lemma_first_index_none(s.drop_first(), tile);
    }
}

/// The best of the candidates: the highest-scoring one, and among equals the
/// one found last.  This reproduces a stable ascending sort followed by
/// taking the last element, and makes the selection deterministic.
pub open spec fn spec_best_move(moves: Seq<SpecMove>) -> Option<SpecMove>
    decreases moves.len(),
{
    if moves.len() == 0 {
        None
    } else {
        match spec_best_move(moves.drop_last()) {
            None => Some(moves.last()),
            Some(m) => if moves.last().points >= m.points {
                Some(moves.last())
            } else {
                Some(m)
            },
        }
    }
}

/// The selected move is one of the candidates and none of them scores more.
pub proof fn lemma_best_move_is_max(moves: Seq<SpecMove>)
    ensures
        moves.len() == 0 <==> spec_best_move(moves) is None,
        spec_best_move(moves) matches Some(best) ==> moves.contains(best) && forall|j: int|
            0 <= j < moves.len() ==> moves[j].points <= best.points,
    decreases moves.len(),
{
    if moves.len() > 0 {
        lemma_best_move_is_max(moves.drop_last());
        let best = spec_best_move(moves).unwrap();
        if moves.len() == 1 || spec_best_move(moves.drop_last()) is None {
            assert(best == moves.last());
            assert(moves.contains(best)) by {
                assert(moves[moves.len() - 1] == best);
            }
        } else {
            let prev = spec_best_move(moves.drop_last()).unwrap();
            if moves.last().points >= prev.points {
                assert(moves[moves.len() - 1] == best);
            } else {
                assert(moves.drop_last().contains(prev));
                let w = choose|w: int| 0 <= w < moves.drop_last().len() && moves.drop_last()[w]
                    == prev;
                assert(moves[w] == prev);
            }
        }
        assert forall|j: int| 0 <= j < moves.len() implies moves[j].points <= best.points by {
            if j < moves.len() - 1 {
                assert(moves.drop_last()[j] == moves[j]);
            }
        }
    }
}

/// Whether the player's cached combinations are exactly what the generator
/// yields for the current hand.
pub open spec fn combos_synced(p: Player) -> bool {
    views_of_combos(p.combinations@) == spec_hand_combos(p.hand@)
}

/// Whether every cached combination holds at least one tile, as everything
/// the generator emits does.
pub open spec fn combos_nonempty(combos: Seq<Vec<Tile>>) -> bool {
    forall|k: int| 0 <= k < combos.len() ==> (#[trigger] combos[k]@).len() >= 1
}

/// An empty sequence of tiles holds the empty multiset.
proof fn lemma_to_multiset_empty(s: Seq<Tile>)
    requires
        s.len() == 0,
    ensures
        s.to_multiset() == Multiset::<Tile>::empty(),
{
    broadcast use vstd::multiset::group_multiset_axioms;

    assert(s.to_multiset() =~= Multiset::<Tile>::empty()) by {
        assert forall|t: Tile| s.to_multiset().count(t) == 0 by {
            vstd::seq_lib::to_multiset_contains(s, t);
        }
    }
}

/// Relies on rand::random_range: a uniform draw from `0..bound` lies below
/// `bound`; the call only panics on an empty range, which the precondition
/// rules out.
#[verifier::external_body]
pub(crate) fn random_below(bound: usize) -> (r: usize)
    requires
        bound >= 1,
    ensures
        r < bound,
{
    rand::random_range(0..bound)
}

/// A player: the points gathered so far, the tiles in hand, and the cached
/// combinations the hand offers, kept in step with the hand after every
/// draw.
#[derive(Debug)]
pub struct Player {
    pub points: Points,
    pub hand: Tiles,
    pub combinations: Combinations,
}

impl Player {
    /// Constructs a new player with a hand of 6 tiles drawn from the bag at
    /// random.
    pub fn new(bag: &mut Bag) -> (r: Player)
        ensures
            r.points == 0,
            r.hand@.len() == if 6 <= old(bag)@.len() {
                6int
            } else {
                old(bag)@.len() as int
            },
            final(bag)@.len() == old(bag)@.len() - r.hand@.len(),
            r.hand@.to_multiset().add(final(bag)@.to_multiset()) == old(bag)@.to_multiset(),
            combos_synced(r),
            combos_nonempty(r.combinations@),
    {
        let mut player = Player { points: 0, hand: Vec::new(), combinations: Vec::new() };

        proof {
            broadcast use vstd::multiset::group_multiset_axioms;

            lemma_to_multiset_empty(player.hand@);
            assert(player.hand@.to_multiset().add(old(bag)@.to_multiset()) =~= old(
                bag,
            )@.to_multiset());
        }
        player.draw(bag, 6);

        player
    }

    /// Draws a `number` of tiles from `bag` at random and appends them to the
    /// player's hand, then refreshes the cached combinations.  When the bag
    /// holds fewer tiles, only those are drawn.
    fn draw(&mut self, bag: &mut Bag, number: u8)
        ensures
            final(self).points == old(self).points,
            final(self).hand@.len() == old(self).hand@.len() + if number as int <= old(
                bag,
            )@.len() {
                number as int
            } else {
                old(bag)@.len() as int
            },
            final(self).hand@.subrange(0, old(self).hand@.len() as int) == old(self).hand@,
            final(bag)@.len() == old(bag)@.len() - (final(self).hand@.len() - old(
                self,
            ).hand@.len()),
            final(self).hand@.to_multiset().add(final(bag)@.to_multiset()) == old(
                self,
            ).hand@.to_multiset().add(old(bag)@.to_multiset()),
            combos_synced(*final(self)),
            combos_nonempty(final(self).combinations@),
    {
        let ghost total = old(self).hand@.to_multiset().add(old(bag)@.to_multiset());
        let bag_len = bag.tiles().len();
        let range: usize = if (number as usize) <= bag_len {
            number as usize
        } else {
            bag_len
        };

        let mut drawn: usize = 0;
        while drawn < range
            invariant
                drawn <= range,
                range <= old(bag)@.len(),
                self.points == old(self).points,
                self.combinations == old(self).combinations,
                self.hand@.len() == old(self).hand@.len() + drawn,
                self.hand@.subrange(0, old(self).hand@.len() as int) == old(self).hand@,
                bag@.len() == old(bag)@.len() - drawn,
                self.hand@.to_multiset().add(bag@.to_multiset()) == total,
            decreases range - drawn,
        {
            let max = bag.tiles().len();
            assert(max > 0);

            // Pick a random slot of the bag and draw the tile there.
            let index = random_below(max);
            let ghost hand_before = self.hand@;
            let ghost bag_before = bag@;
            match bag.remove(index) {
                Some(new_tile) => {
                    self.hand.push(new_tile);
                    proof {
                        broadcast use vstd::multiset::group_multiset_axioms;

                        vstd::seq_lib::to_multiset_build(hand_before, new_tile);
                        vstd::seq_lib::to_multiset_remove(bag_before, index as int);
                        assert(bag_before.to_multiset().count(new_tile) > 0) by {
                            assert(bag_before.to_multiset().len() == bag_before.remove(
                                index as int,
                            ).to_multiset().len() + 1) by {
                                vstd::seq_lib::to_multiset_len(bag_before.remove(index as int));
                                vstd::seq_lib::to_multiset_len(bag_before);
                            }
                            if bag_before.to_multiset().count(new_tile) == 0 {
                                assert(bag_before.remove(index as int).to_multiset()
                                    == bag_before.to_multiset().remove(new_tile));
                                assert(bag_before.to_multiset().remove(new_tile)
                                    =~= bag_before.to_multiset());
                            }
                        }
                        assert(self.hand@.to_multiset().add(bag@.to_multiset()) =~= total);
                        assert(self.hand@.subrange(0, old(self).hand@.len() as int) =~= old(
                            self,
                        ).hand@);
                    }
                },
                None => {},
            }
            drawn = drawn + 1;
        }

        // Refresh the cached combinations for the new hand.
        self.update_combinations();
    }

    /// Removes the first hand slot holding `tile` and draws one replacement
    /// tile; a tile the hand does not hold leaves the player unchanged.
    fn remove_tile(&mut self, bag: &mut Bag, tile: Tile)
        ensures
            final(self).points == old(self).points,
            spec_first_index(old(self).hand@, tile) < 0 ==> *final(self) == *old(self) && *final(bag)
                == *old(bag),
            spec_first_index(old(self).hand@, tile) >= 0 ==> {
                &&& combos_synced(*final(self))
                &&& combos_nonempty(final(self).combinations@)
                &&& final(self).hand@.len() == old(self).hand@.len() - 1 + if old(bag)@.len() >= 1 {
                    1int
                } else {
                    0int
                }
                &&& final(self).hand@.to_multiset().add(final(bag)@.to_multiset()).insert(tile)
                    == old(self).hand@.to_multiset().add(old(bag)@.to_multiset())
            },
    {
        let n = self.hand.len();
        for i in 0..n
            invariant
                n == self.hand@.len(),
                *self == *old(self),
                *bag == *old(bag),
                forall|j: int| 0 <= j < i ==> self.hand@[j] != tile,
        {
            if self.hand[i] == tile {
                proof {
                    lemma_first_index_at(self.hand@, tile, i as int);
                }
                let ghost hand_before = self.hand@;
                let removed = self.hand.remove(i);
                proof {
                    broadcast use vstd::multiset::group_multiset_axioms;

                    vstd::seq_lib::to_multiset_remove(hand_before, i as int);
                    assert(self.hand@.to_multiset().insert(tile) =~= hand_before.to_multiset())
                        by {
                        assert(hand_before.to_multiset().count(tile) > 0) by {
                            vstd::seq_lib::to_multiset_contains(hand_before, tile);
                        }
                    }
                }
                self.draw(bag, 1);
                proof {
                    broadcast use vstd::multiset::group_multiset_axioms;

                    assert(final(self).hand@.to_multiset().add(final(bag)@.to_multiset()).insert(
                        tile,
                    ) =~= old(self).hand@.to_multiset().add(old(bag)@.to_multiset()));
                }
                return ;
            }
        }
        proof {
            lemma_first_index_none(self.hand@, tile);
        }
    }

    /// Removes every tile of a played combination from the hand, drawing a
    /// replacement for each.
    fn remove_tiles(&mut self, bag: &mut Bag, combination: Combination)
        ensures
            final(self).points == old(self).points,
            (combos_synced(*final(self)) && combos_nonempty(final(self).combinations@)) || (
            *final(self) == *old(self) && *final(bag) == *old(bag)),
    {
        let n = combination.len();
        for t in 0..n
            invariant
                n == combination@.len(),
                self.points == old(self).points,
                (combos_synced(*self) && combos_nonempty(self.combinations@)) || (*self == *old(
                    self,
                ) && *bag == *old(bag)),
        {
            self.remove_tile(bag, combination[t]);
        }
    }

    /// Puts a randomly chosen part of the hand back into the bag and draws as
    /// many fresh tiles: the fallback when no legal move exists.
    fn replace(&mut self, bag: &mut Bag)
        ensures
            final(self).points == old(self).points,
            combos_synced(*final(self)),
            combos_nonempty(final(self).combinations@),
            final(self).hand@.to_multiset().add(final(bag)@.to_multiset()) == old(
                self,
            ).hand@.to_multiset().add(old(bag)@.to_multiset()),
    {
        let ghost total = old(self).hand@.to_multiset().add(old(bag)@.to_multiset());

        // Decide how many tiles to replace: at least one, at most a hand.
        let length: usize = if self.hand.len() >= 1 {
            self.hand.len()
        } else {
            1
        };
        let number = 1 + random_below(length);

        let mut tiles: Tiles = Vec::new();
        proof {
            broadcast use vstd::multiset::group_multiset_axioms;

            lemma_to_multiset_empty(tiles@);
            assert(self.hand@.to_multiset().add(tiles@.to_multiset()) =~= self.hand@.to_multiset());
        }
        let mut removed: usize = 0;
        while removed < number && self.hand.len() > 0
            invariant
                self.points == old(self).points,
                self.combinations == old(self).combinations,
                bag@ == old(bag)@,
                self.hand@.to_multiset().add(tiles@.to_multiset()) == old(
                    self,
                ).hand@.to_multiset(),
            decreases number - removed,
        {
            // Remove a random tile from the hand and set it aside.
            let index = random_below(self.hand.len());
            let ghost hand_before = self.hand@;
            let ghost aside_before = tiles@;
            let tile = self.hand.remove(index);
            tiles.push(tile);
            proof {
                broadcast use vstd::multiset::group_multiset_axioms;

                vstd::seq_lib::to_multiset_remove(hand_before, index as int);
                vstd::seq_lib::to_multiset_build(aside_before, tile);
                assert(self.hand@.to_multiset().add(tiles@.to_multiset())
                    =~= hand_before.to_multiset().add(aside_before.to_multiset())) by {
                    assert(hand_before.to_multiset().count(tile) > 0) by {
                        vstd::seq_lib::to_multiset_contains(hand_before, tile);
                    }
                }
            }
            removed = removed + 1;
        }

        // Draw replacements, then give the removed tiles back to the bag.
        let count: u8 = if number > 255 {
            255
        } else {
            number as u8
        };
        let ghost bag_mid = bag@;
        let ghost hand_mid = self.hand@;
        let ghost aside = tiles@;
        self.draw(bag, count);
        let ghost bag_after_draw = bag@;
        let ghost hand_after_draw = self.hand@;
        bag.add(tiles);
        proof {
            broadcast use vstd::multiset::group_multiset_axioms;

            vstd::seq_lib::lemma_multiset_commutative(bag_after_draw, aside);
            assert(bag@.to_multiset() == bag_after_draw.to_multiset().add(aside.to_multiset()));
            assert(hand_after_draw.to_multiset().add(bag_after_draw.to_multiset())
                == hand_mid.to_multiset().add(bag_mid.to_multiset()));
            assert(hand_mid.to_multiset().add(aside.to_multiset()) == old(
                self,
            ).hand@.to_multiset());
            assert forall|t: Tile| self.hand@.to_multiset().add(bag@.to_multiset()).count(t)
                == total.count(t) by {
                assert(bag@.to_multiset().count(t) == bag_after_draw.to_multiset().count(t)
                    + aside.to_multiset().count(t));
                assert(hand_after_draw.to_multiset().add(bag_after_draw.to_multiset()).count(t)
                    == hand_mid.to_multiset().add(bag_mid.to_multiset()).count(t));
                assert(hand_mid.to_multiset().add(aside.to_multiset()).count(t) == old(
                    self,
                ).hand@.to_multiset().count(t));
            }
            assert(self.hand@.to_multiset().add(bag@.to_multiset()) =~= total);
        }
    }

    /// Finds the best move and plays it: on an empty board the first hand
    /// tile starts at the origin for 1 point; otherwise every candidate is
    /// scored and the best one (ties to the last found) is placed, its
    /// points are added, and its tiles leave the hand.  With no legal move
    /// the hand is partly replaced instead.
    pub fn play(&mut self, board: &mut Board, bag: &mut Bag)
        requires
            old(board)@.len() == 0 ==> old(self).hand@.len() >= 1,
            combos_nonempty(old(self).combinations@),
            -1000000000 <= old(self).points <= 1000000000,
        ensures
            ({
                let all = spec_player_moves(old(board)@, views_of_combos(old(self).combinations@));
                if old(board)@.len() == 0 {
                    &&& final(board)@ == old(board)@.push(
                        Location {
                            position: Position { x: 0, y: 0 },
                            tile: old(self).hand@[0],
                        },
                    )
                    &&& final(self).points == old(self).points + 1
                    &&& final(self).hand@.len() == old(self).hand@.len() - 1 + (
                    if old(bag)@.len() >= 1 { 1int } else { 0int })
                } else {
                    match spec_best_move(all) {
                        Some(best) => {
                            &&& final(board)@ == old(board)@ + placed_locations(
                                best.place.comb,
                                best.place.px,
                                best.place.py,
                                best.place.dx,
                                best.place.dy,
                            )
                            &&& final(self).points == old(self).points + best.points
                        },
                        None => {
                            &&& final(board)@ == old(board)@
                            &&& final(self).points == old(self).points
                        },
                    }
                }
            }),
            combos_synced(*final(self)) || final(self).combinations == old(self).combinations,
    {
        if board.tiles().len() == 0 {
            // If the board is empty, start in the center.
            let tile = self.hand[0];
            board.add_tile(Location { position: Position { x: 0, y: 0 }, tile });
            self.points = self.points + 1;
            self.remove_tile(bag, tile);
        } else {
            // Get every possible move; the best is the highest-scoring one
            // found last.
            let moves = self.get_moves(board);
            let ghost all = spec_player_moves(board@, views_of_combos(self.combinations@));

            let mut best: Option<usize> = None;
            let n = moves.len();
            for i in 0..n
                invariant
                    n == moves@.len(),
                    views_of(moves@) == all,
                    match best {
                        None => spec_best_move(all.take(i as int)) is None,
                        Some(idx) => idx < i && spec_best_move(all.take(i as int)) == Some(
                            moves@[idx as int]@,
                        ),
                    },
            {
                proof {
                    assert(all.take(i + 1).drop_last() =~= all.take(i as int));
                    assert(all.take(i + 1).last() == moves@[i as int]@);
                }
                match best {
                    None => {
                        best = Some(i);
                    },
                    Some(idx) => {
                        if moves[i].points >= moves[idx].points {
                            best = Some(i);
                        }
                    },
                }
            }
            proof {
                assert(all.take(n as int) =~= all);
            }

            match best {
                Some(idx) => {
                    let ghost best_view = moves@[idx as int]@;
                    proof {
                        lemma_player_moves_wf(board@, views_of_combos(self.combinations@));
                        lemma_best_move_is_max(all);
                        let w = choose|w: int| 0 <= w < all.len() && all[w] == best_view;
                        assert(wf_found_move(board@, all[w]));
                        crate::rules::lemma_move_points_bounds(board@, best_view.place);
                    }
                    let (partial_move, points) = moves[idx].into_partial();
                    proof {
                        let place = best_view.place;
                        assert(partial_move.combination@ == place.comb);
                        assert(partial_move.position.x as int == place.px
                            && partial_move.position.y as int == place.py);
                        assert(partial_move.direction.0 as int == place.dx
                            && partial_move.direction.1 as int == place.dy);
                        assert forall|k: int|
                            0 <= k < partial_move.combination@.len() implies #[trigger] on_grid(
                            partial_move.position.x as int + partial_move.direction.0 as int * k,
                            partial_move.position.y as int + partial_move.direction.1 as int * k,
                        ) by {
                            assert(free_cell(board@, place.px + place.dx * k, place.py + place.dy
                                * k));
                        }
                    }

                    // Play the move by adding its tiles to the board.
                    board.add_tiles(&partial_move);

                    // Increase points.
                    self.points = self.points + points;

                    // Remove the played combination from the hand.
                    self.remove_tiles(bag, partial_move.combination);
                },
                None => {
                    // No tile can be played: replace part of the hand.
                    self.replace(bag);
                },
            }
        }
    }

    /// Finds all playable moves with the points each would gain, in the
    /// search's enumeration order.
    fn get_moves(&self, board: &Board) -> (r: Vec<Move>)
        requires
            combos_nonempty(self.combinations@),
        ensures
            views_of(r@) == spec_player_moves(board@, views_of_combos(self.combinations@)),
    {
        let ghost b = board@;
        let ghost combos = views_of_combos(self.combinations@);

        let mut found: Vec<Move> = Vec::new();
        let n = self.combinations.len();
        for i in 0..n
            invariant
                b == board@,
                combos == views_of_combos(self.combinations@),
                combos_nonempty(self.combinations@),
                n == self.combinations@.len(),
                spec_player_moves_from(b, combos, 0) =~= views_of(found@)
                    + spec_player_moves_from(b, combos, i as int),
        {
            let ghost before = views_of(found@);
            let mut sub = match get_combination_moves(board, &self.combinations[i]) {
                Some(sub) => sub,
                None => Vec::new(),
            };
            let ghost sub_views = views_of(sub@);
            found.append(&mut sub);
            proof {
                assert(views_of(found@) =~= before + sub_views);
                assert(spec_player_moves_from(b, combos, 0) =~= views_of(found@)
                    + spec_player_moves_from(b, combos, i + 1));
            }
        }
        proof {
            assert(spec_player_moves_from(b, combos, n as int) =~= Seq::<SpecMove>::empty());
            assert(views_of(found@) =~= spec_player_moves(b, combos));
        }
        found
    }

    /// Updates the player's cached combinations from the current hand state.
    /// Must be called after every hand update, as `draw` does.
    pub fn update_combinations(&mut self)
        ensures
            final(self).points == old(self).points,
            final(self).hand == old(self).hand,
            combos_synced(*final(self)),
            combos_nonempty(final(self).combinations@),
            forall|k: int| 0 <= k < final(self).combinations@.len() ==> line_ok(
                (#[trigger] final(self).combinations@[k])@,
            ),
    {
        let ghost hand = self.hand@;
        let mut combos: Combinations = Vec::new();
        let n = self.hand.len();
        for i in 0..n
            invariant
                n == self.hand@.len(),
                hand == self.hand@,
                spec_hand_combos(hand) =~= views_of_combos(combos@) + spec_hand_combos_from(
                    hand,
                    i as int,
                ),
        {
            let ghost before = views_of_combos(combos@);
            let seed = vec![self.hand[i]];
            assert(seed@ =~= seq![hand[i as int]]);
            let rest_tiles = tiles_from(&self.hand, i + 1);
            let mut sub = self.compute_combinations(&seed, &rest_tiles);
            let ghost sub_views = views_of_combos(sub@);
            combos.append(&mut sub);
            proof {
                assert(views_of_combos(combos@) =~= before + sub_views);
                assert(spec_hand_combos(hand) =~= views_of_combos(combos@)
                    + spec_hand_combos_from(hand, i + 1));
            }
        }
        proof {
            assert(spec_hand_combos_from(hand, n as int) =~= Seq::<Seq<Tile>>::empty());
            assert(views_of_combos(combos@) =~= spec_hand_combos(hand));
        }
        self.combinations = combos;
        proof {
            lemma_generator_closure(self.hand@);
            assert forall|k: int| 0 <= k < self.combinations@.len() implies ((
            #[trigger] self.combinations@[k])@).len() >= 1 && line_ok(self.combinations@[k]@) by {
                assert(views_of_combos(self.combinations@)[k] == self.combinations@[k]@);
                assert(spec_hand_combos(self.hand@)[k] == views_of_combos(self.combinations@)[k]);
            }
        }
    }

    /// For one `combination`, recursively computes every combination it can
    /// grow into with the given later `tiles`.  The entry `combination` is
    /// returned first, so the result always holds at least one element.
    fn compute_combinations(&self, combination: &Combination, tiles: &Tiles) -> (r: Combinations)
        ensures
            views_of_combos(r@) == spec_combos(combination@, tiles@),
        decreases tiles@.len(),
    {
        let ghost c = combination@;
        let ghost rest = tiles@;

        let mut result: Combinations = Vec::new();
        result.push(clone_tiles(combination));
        proof {
            assert(views_of_combos(result@) =~= seq![c]);
        }

        let n = tiles.len();
        for i in 0..n
            invariant
                n == rest.len(),
                rest == tiles@,
                c == combination@,
                spec_combos(c, rest) =~= views_of_combos(result@) + spec_combos_ext(
                    c,
                    rest,
                    i as int,
                ),
        {
            let ghost before = views_of_combos(result@);
            if combination_accepts(combination, &tiles[i]) {
                // Extend the combination with this tile and keep searching
                // among the tiles after it.
                let mut new_combination = clone_tiles(combination);
                new_combination.push(tiles[i]);
                let rest_tiles = tiles_from(tiles, i + 1);
                assert(new_combination@ =~= c.push(rest[i as int]));
                let mut sub = self.compute_combinations(&new_combination, &rest_tiles);
                let ghost sub_views = views_of_combos(sub@);
                result.append(&mut sub);
                proof {
                    assert(views_of_combos(result@) =~= before + sub_views);
                }
            }
            proof {
                assert(spec_combos(c, rest) =~= views_of_combos(result@) + spec_combos_ext(c,
                    rest, i + 1));
            }
        }
        proof {
            assert(spec_combos_ext(c, rest, n as int) =~= Seq::<Seq<Tile>>::empty());
            assert(views_of_combos(result@) =~= spec_combos(c, rest));
        }
        result
    }
}

} // verus!
