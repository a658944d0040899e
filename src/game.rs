use rand::seq::IteratorRandom;
use vstd::prelude::*;

use crate::challenge::{convertible_pair, Challenge, ChoiceSelection};
use crate::conversion::lemma_conversion_shape;
use crate::units::{pairs_of, same_pair, Quantity, Unit};

verus! {

/// Relies on rand's `IteratorRandom::choose` over the range `0..n`: on a non-empty iterator
/// of known length it returns `Some` of one of its items.
#[verifier::external_body]
fn choose_index(n: usize) -> (r: usize)
    requires
        n > 0,
    ensures
        r < n,
{
    (0..n).choose(&mut rand::thread_rng()).unwrap()
}

/// Level per unit pair.
pub type Levels = Seq<((Unit, Unit), usize)>;

/// `levels` tracks a pair equal to `pair` in either order.
pub open spec fn tracks(levels: Levels, pair: (Unit, Unit)) -> bool {
    exists|i: int| 0 <= i < levels.len() && same_pair(#[trigger] levels[i].0, pair)
}

/// Where `levels` tracks `pair`.
pub open spec fn slot_of(levels: Levels, pair: (Unit, Unit)) -> int {
    choose|i: int| 0 <= i < levels.len() && same_pair(#[trigger] levels[i].0, pair)
}

/// The level recorded for `pair`, in either order; 0 for an untracked pair.
pub open spec fn level_in(levels: Levels, pair: (Unit, Unit)) -> int {
    if tracks(levels, pair) {
        levels[slot_of(levels, pair)].1 as int
    } else {
        0
    }
}

/// No two entries name the same pair, in either order.
pub open spec fn distinct_pairs(levels: Levels) -> bool {
    forall|i: int, j: int|
        0 <= i < levels.len() && 0 <= j < levels.len() && same_pair(
            #[trigger] levels[i].0,
            #[trigger] levels[j].0,
        ) ==> i == j
}

/// With distinct pairs, a matching entry is the one `slot_of` picks.
proof fn lemma_slot_unique(levels: Levels, pair: (Unit, Unit), i: int)
    requires
        distinct_pairs(levels),
        0 <= i < levels.len(),
        same_pair(levels[i].0, pair),
    ensures
        tracks(levels, pair),
        slot_of(levels, pair) == i,
{
    let j = slot_of(levels, pair);
    assert(same_pair(levels[i].0, levels[j].0));
}

/// `levels` after a correct answer on `pair`: its level goes up by one, from an implicit 0
/// when it was not tracked.
pub open spec fn raised(levels: Levels, pair: (Unit, Unit)) -> Levels {
    if tracks(levels, pair) {
        let i = slot_of(levels, pair);
        levels.update(i, (levels[i].0, (levels[i].1 + 1) as usize))
    } else {
        levels.push((pair, 1))
    }
}

/// The state of one game: whether it goes on, the level reached on each unit pair, and the
/// challenge on show.
#[derive(Debug)]
pub struct Game {
    pub in_progress: bool,
    pub level_per_unit_pair: Vec<((Unit, Unit), usize)>,
    pub challenge: Challenge,
}

/// A level table and a challenge that a game can hold.
pub open spec fn valid_parts(levels: Levels, challenge: Challenge) -> bool {
    &&& challenge.wf()
    &&& convertible_pair(challenge.pair())
    &&& distinct_pairs(levels)
    &&& forall|i: int| 0 <= i < levels.len() ==> convertible_pair(#[trigger] levels[i].0)
}

impl Game {
    /// The level table.
    pub open spec fn levels(self) -> Levels {
        self.level_per_unit_pair@
    }

    /// The invariant that every operation of a game keeps.
    pub open spec fn wf(self) -> bool {
        valid_parts(self.levels(), self.challenge)
    }

    /// The level recorded for `pair`.
    pub open spec fn level(self, pair: (Unit, Unit)) -> int {
        level_in(self.levels(), pair)
    }

    /// `next` is what a pick of `selection` makes of `self`: nothing changes once the game
    /// has ended; a wrong pick ends it; a correct pick raises the level of the challenge's
    /// pair and shows a challenge generated for one of the tracked pairs at its level.
    pub open spec fn picked(self, next: Game, selection: ChoiceSelection) -> bool {
        if !self.in_progress {
            next == self
        } else if !self.challenge.correct(selection) {
            &&& !next.in_progress
            &&& next.levels() == self.levels()
            &&& next.challenge == self.challenge
        } else {
            &&& next.in_progress
            &&& next.levels() == raised(self.levels(), self.challenge.pair())
            &&& exists|i: int, fraction: u32, raise: bool, coarse_left: bool|
                0 <= i < next.levels().len() && #[trigger] next.challenge.generated_from(
                    next.levels()[i].0,
                    next.levels()[i].1 as nat,
                    fraction as int,
                    raise,
                    coarse_left,
                )
        }
    }

    /// The level recorded for `pair`, in either order; `None` when the game does not track it.
    pub fn level_of(&self, pair: (Unit, Unit)) -> (r: Option<usize>)
        requires
            distinct_pairs(self.levels()),
        ensures
            r.is_some() == tracks(self.levels(), pair),
            r.is_some() ==> r.unwrap() == self.level(pair),
    {
        match find_pair(&self.level_per_unit_pair, pair) {
            Some(i) => {
                proof {
                    lemma_slot_unique(self.levels(), pair, i as int);
                }
                Some(self.level_per_unit_pair[i].1)
            },
            None => None,
        }
    }
}

/// Whether two unit pairs name the same units, in either order.
fn same_units(p: (Unit, Unit), q: (Unit, Unit)) -> (r: bool)
    ensures
        r == same_pair(p, q),
{
    (p.0 == q.0 && p.1 == q.1) || (p.0 == q.1 && p.1 == q.0)
}

/// The index at which `levels` tracks `pair`.
fn find_pair(levels: &Vec<((Unit, Unit), usize)>, pair: (Unit, Unit)) -> (r: Option<usize>)
    ensures
        r.is_some() == tracks(levels@, pair),
        r.is_some() ==> r.unwrap() < levels@.len() && same_pair(levels@[r.unwrap() as int].0, pair),
{
    let mut i: usize = 0;
    while i < levels.len()
        invariant
            0 <= i <= levels@.len(),
            forall|j: int| 0 <= j < i ==> !same_pair(#[trigger] levels@[j].0, pair),
        decreases levels@.len() - i,
    {
        if same_units(levels[i].0, pair) {
            return Some(i);
        }
        i = i + 1;
    }
    None
}

/// Raising a pair keeps the table valid, tracks the pair, and adds one to its level only.
proof fn lemma_raised(levels: Levels, pair: (Unit, Unit))
    requires
        distinct_pairs(levels),
        forall|i: int| 0 <= i < levels.len() ==> convertible_pair(#[trigger] levels[i].0),
        convertible_pair(pair),
        level_in(levels, pair) < usize::MAX,
    ensures
        distinct_pairs(raised(levels, pair)),
        forall|i: int|
            0 <= i < raised(levels, pair).len() ==> convertible_pair(
                #[trigger] raised(levels, pair)[i].0,
            ),
        raised(levels, pair).len() > 0,
        tracks(raised(levels, pair), pair),
        level_in(raised(levels, pair), pair) == level_in(levels, pair) + 1,
        forall|q: (Unit, Unit)|
            !same_pair(q, pair) ==> #[trigger] level_in(raised(levels, pair), q) == level_in(
                levels,
                q,
            ),
{
    let r = raised(levels, pair);
    if tracks(levels, pair) {
        let i = slot_of(levels, pair);
        assert(forall|j: int| 0 <= j < r.len() ==> (#[trigger] r[j]).0 == levels[j].0);
        lemma_slot_unique(r, pair, i);
        assert forall|q: (Unit, Unit)| !same_pair(q, pair) implies #[trigger] level_in(r, q)
            == level_in(levels, q) by {
            if tracks(levels, q) {
                let k = slot_of(levels, q);
                lemma_slot_unique(r, q, k);
            }
            if tracks(r, q) {
                let k = slot_of(r, q);
                lemma_slot_unique(levels, q, k);
            }
        }
    } else {
        let n = levels.len() as int;
        assert(r[n].0 == pair);
        lemma_slot_unique(r, pair, n);
        assert forall|q: (Unit, Unit)| !same_pair(q, pair) implies #[trigger] level_in(r, q)
            == level_in(levels, q) by {
            if tracks(levels, q) {
                let k = slot_of(levels, q);
                assert(r[k] == levels[k]);
                lemma_slot_unique(r, q, k);
            }
            if tracks(r, q) {
                let k = slot_of(r, q);
                if k < n {
                    assert(r[k] == levels[k]);
                    lemma_slot_unique(levels, q, k);
                }
            }
        }
    }
}

/// Symmetric pairs convert alike.
proof fn lemma_same_pair_convertible(p: (Unit, Unit), q: (Unit, Unit))
    requires
        same_pair(p, q),
        convertible_pair(q),
    ensures
        convertible_pair(p),
{
    lemma_conversion_shape(q.0, q.1);
}

/// Every quantity has unit pairs, each convertible, none repeated.
pub proof fn lemma_pairs_of_valid(q: Quantity)
    ensures
        pairs_of(q).len() > 0,
        forall|i: int| 0 <= i < pairs_of(q).len() ==> convertible_pair(#[trigger] pairs_of(q)[i]),
        forall|i: int, j: int|
            0 <= i < pairs_of(q).len() && 0 <= j < pairs_of(q).len() && same_pair(
                #[trigger] pairs_of(q)[i],
                #[trigger] pairs_of(q)[j],
            ) ==> i == j,
{
}

/// Raise the level of `pair` in the table by one, adding it at level 1 when absent.
fn raise_level(levels: &mut Vec<((Unit, Unit), usize)>, pair: (Unit, Unit))
    requires
        distinct_pairs(old(levels)@),
        level_in(old(levels)@, pair) < usize::MAX,
    ensures
        final(levels)@ == raised(old(levels)@, pair),
{
    match find_pair(levels, pair) {
        Some(i) => {
            proof {
                lemma_slot_unique(old(levels)@, pair, i as int);
            }
            let (p, level) = levels[i];
            levels.set(i, (p, level + 1));
        },
        None => {
            levels.push((pair, 1));
        },
    }
}

impl Game {
    /// A new game on the unit pairs of `quantity`, each at level 0, showing a challenge for one
    /// of them picked at random.
    pub fn new_with_single_quantity(quantity: Quantity) -> (r: Game)
        ensures
            r.wf(),
            r.in_progress,
            r.levels().len() == pairs_of(quantity).len(),
            forall|i: int|
                0 <= i < r.levels().len() ==> #[trigger] r.levels()[i] == (
                    pairs_of(quantity)[i],
                    0usize,
                ),
            exists|i: int, fraction: u32, raise: bool, coarse_left: bool|
                0 <= i < pairs_of(quantity).len() && #[trigger] r.challenge.generated_from(
                    pairs_of(quantity)[i],
                    0,
                    fraction as int,
                    raise,
                    coarse_left,
                ),
    {
        proof {
            lemma_pairs_of_valid(quantity);
        }
        let unit_pairs = quantity.unit_pairs();
        let mut level_per_unit_pair: Vec<((Unit, Unit), usize)> = Vec::new();
        let mut i: usize = 0;
        while i < unit_pairs.len()
            invariant
                unit_pairs@ == pairs_of(quantity),
                0 <= i <= unit_pairs@.len(),
                level_per_unit_pair@.len() == i,
                forall|j: int| 0 <= j < i ==> #[trigger] level_per_unit_pair@[j] == (unit_pairs@[j], 0usize),
            decreases unit_pairs@.len() - i,
        {
            level_per_unit_pair.push((unit_pairs[i], 0));
            i = i + 1;
        }
        let first = choose_index(unit_pairs.len());
        let challenge = Challenge::generate(unit_pairs[first], 0);
        proof {
            let ps = pairs_of(quantity);
            let lv = level_per_unit_pair@;
            assert(forall|j: int| 0 <= j < lv.len() ==> (#[trigger] lv[j]).0 == ps[j]);
            lemma_same_pair_convertible(challenge.pair(), ps[first as int]);
            let (fraction, raise, coarse_left) = choose|fraction: u32, raise: bool, coarse_left: bool|
                challenge.generated_from(ps[first as int], 0, fraction as int, raise, coarse_left);
            assert(challenge.generated_from(ps[first as int], 0, fraction as int, raise, coarse_left));
        }
        Game { in_progress: true, level_per_unit_pair, challenge }
    }

    /// Submit the player's pick. A correct pick raises the level of the challenge's unit pair
    /// and shows a new challenge for a pair picked at random among the tracked ones, at its
    /// level; a wrong pick ends the game and leaves the challenge on show. A game that has
    /// ended stays as it is.
    pub fn pick(&mut self, selection: ChoiceSelection)
        requires
            old(self).wf(),
            old(self).level(old(self).challenge.pair()) < usize::MAX,
        ensures
            old(self).picked(*final(self), selection),
            final(self).wf(),
    {
        if !self.in_progress {
            return;
        }
        if self.challenge.is_correct(selection) {
            let pair = self.challenge.unit_pair();
            proof {
                lemma_raised(self.levels(), pair);
            }
            raise_level(&mut self.level_per_unit_pair, pair);
            let next = choose_index(self.level_per_unit_pair.len());
            let (next_pair, level) = self.level_per_unit_pair[next];
            let challenge = Challenge::generate(next_pair, level);
            proof {
                lemma_same_pair_convertible(challenge.pair(), next_pair);
                let (fraction, raise, coarse_left) = choose|fraction: u32, raise: bool, coarse_left: bool|
                    challenge.generated_from(next_pair, level as nat, fraction as int, raise, coarse_left);
                assert(challenge.generated_from(
                    self.levels()[next as int].0,
                    self.levels()[next as int].1 as nat,
                    fraction as int,
                    raise,
                    coarse_left,
                ));
            }
            self.challenge = challenge;
        } else {
            self.in_progress = false;
        }
    }
}

/// A correct pick keeps the game going and raises the level of the challenge's unit pair by
/// exactly one, leaving every other pair's level as it was.
pub proof fn lemma_correct_pick_raises_level(game: Game, next: Game, selection: ChoiceSelection)
    requires
        game.wf(),
        game.in_progress,
        game.challenge.correct(selection),
        game.level(game.challenge.pair()) < usize::MAX,
        game.picked(next, selection),
    ensures
        next.in_progress,
        next.level(game.challenge.pair()) == game.level(game.challenge.pair()) + 1,
        forall|q: (Unit, Unit)|
            !same_pair(q, game.challenge.pair()) ==> #[trigger] next.level(q) == game.level(q),
{
    lemma_raised(game.levels(), game.challenge.pair());
}

/// In a game on Temperature, which has a single unit pair, every correct pick asks again about
/// that pair, one level higher: the pair's level climbs 0, 1, 2, ...
pub proof fn lemma_temperature_levels_climb(
    game: Game,
    next: Game,
    selection: ChoiceSelection,
    level: usize,
)
    requires
        game.in_progress,
        game.levels() == seq![(pairs_of(Quantity::Temperature)[0], level)],
        same_pair(game.challenge.pair(), pairs_of(Quantity::Temperature)[0]),
        game.challenge.correct(selection),
        level < usize::MAX,
        game.picked(next, selection),
    ensures
        next.in_progress,
        next.levels() == seq![(pairs_of(Quantity::Temperature)[0], (level + 1) as usize)],
        same_pair(next.challenge.pair(), pairs_of(Quantity::Temperature)[0]),
{
    let p = pairs_of(Quantity::Temperature)[0];
    lemma_slot_unique(game.levels(), game.challenge.pair(), 0);
    assert(raised(game.levels(), game.challenge.pair()) =~= seq![(p, (level + 1) as usize)]);
    let (i, fraction, raise, coarse_left) = choose|i: int, fraction: u32, raise: bool, coarse_left: bool|
        0 <= i < next.levels().len() && #[trigger] next.challenge.generated_from(
            next.levels()[i].0,
            next.levels()[i].1 as nat,
            fraction as int,
            raise,
            coarse_left,
        );
    assert(i == 0);
}

/// A game on Temperature as it starts, followed by `picks.len()` correct picks: after `k`
/// picks the game is still going and the single pair's level is exactly `k`, so it climbs
/// 0, 1, 2, ... and never falls back.
pub proof fn lemma_temperature_run(games: Seq<Game>, picks: Seq<ChoiceSelection>)
    requires
        games.len() == picks.len() + 1,
        picks.len() < usize::MAX,
        games[0].in_progress,
        games[0].levels() == seq![(pairs_of(Quantity::Temperature)[0], 0usize)],
        exists|fraction: u32, raise: bool, coarse_left: bool|
            #[trigger] games[0].challenge.generated_from(
                pairs_of(Quantity::Temperature)[0],
                0,
                fraction as int,
                raise,
                coarse_left,
            ),
        forall|k: int|
            0 <= k < picks.len() ==> #[trigger] games[k].challenge.correct(picks[k]) && games[k].picked(
                games[k + 1],
                picks[k],
            ),
    ensures
        forall|k: int|
            0 <= k < games.len() ==> (#[trigger] games[k]).in_progress && games[k].levels() == seq![
                (pairs_of(Quantity::Temperature)[0], k as usize),
            ],
{
    lemma_temperature_run_prefix(games, picks, picks.len() as int);
    assert forall|k: int| 0 <= k < games.len() implies (#[trigger] games[k]).in_progress
        && games[k].levels() == seq![(pairs_of(Quantity::Temperature)[0], k as usize)] by {
        assert(run_state(games[k], k));
    }
}

/// After `k` correct picks of a Temperature game: still going, the pair at level `k`, and the
/// challenge on that pair.
spec fn run_state(game: Game, k: int) -> bool {
    let p = pairs_of(Quantity::Temperature)[0];
    &&& game.in_progress
    &&& game.levels() == seq![(p, k as usize)]
    &&& same_pair(game.challenge.pair(), p)
}

proof fn lemma_temperature_run_prefix(games: Seq<Game>, picks: Seq<ChoiceSelection>, n: int)
    requires
        0 <= n <= picks.len(),
        games.len() == picks.len() + 1,
        picks.len() < usize::MAX,
        games[0].in_progress,
        games[0].levels() == seq![(pairs_of(Quantity::Temperature)[0], 0usize)],
        exists|fraction: u32, raise: bool, coarse_left: bool|
            #[trigger] games[0].challenge.generated_from(
                pairs_of(Quantity::Temperature)[0],
                0,
                fraction as int,
                raise,
                coarse_left,
            ),
        forall|k: int|
            0 <= k < picks.len() ==> #[trigger] games[k].challenge.correct(picks[k]) && games[k].picked(
                games[k + 1],
                picks[k],
            ),
    ensures
        forall|k: int| 0 <= k <= n ==> run_state(#[trigger] games[k], k),
    decreases n,
{
    let p = pairs_of(Quantity::Temperature)[0];
    if n == 0 {
        let (fraction, raise, coarse_left) = choose|fraction: u32, raise: bool, coarse_left: bool|
            #[trigger] games[0].challenge.generated_from(p, 0, fraction as int, raise, coarse_left);
        assert(games[0].challenge.generated_from(p, 0, fraction as int, raise, coarse_left));
        assert(p == (Unit::Fahrenheit, Unit::Celsius));
        assert(same_pair(games[0].challenge.pair(), p));
        assert(run_state(games[0], 0));
    } else {
        lemma_temperature_run_prefix(games, picks, n - 1);
        let k = n - 1;
        assert(run_state(games[k], k));
        assert(games[k].challenge.correct(picks[k]) && games[k].picked(games[k + 1], picks[k]));
        lemma_temperature_levels_climb(games[k], games[k + 1], picks[k], k as usize);
        assert(run_state(games[n], n));
    }
}

/// A wrong pick ends the game, keeping the levels and the challenge on show.
pub proof fn lemma_wrong_pick_ends_game(game: Game, next: Game, selection: ChoiceSelection)
    requires
        game.in_progress,
        !game.challenge.correct(selection),
        game.picked(next, selection),
    ensures
        !next.in_progress,
        next.levels() == game.levels(),
        next.challenge == game.challenge,
{
}

/// Once ended, a game stays ended and unchanged, whatever is picked.
pub proof fn lemma_ended_game_stays_ended(game: Game, next: Game, selection: ChoiceSelection)
    requires
        !game.in_progress,
        game.picked(next, selection),
    ensures
        !next.in_progress,
        next == game,
{
}

} // verus!
