//! Partial points won in matches, and the leaderboard of full points.
use crate::player::PlayerId;
use vstd::prelude::*;

verus! {

/// Parts of a whole point. How many partial points make up a full point is
/// stored in the Leaderboard.
#[derive(Debug, Clone, Copy)]
pub struct PartialPoints(u8);

impl View for PartialPoints {
    type V = u8;

    closed spec fn view(&self) -> u8 {
        self.0
    }
}

impl PartialPoints {
    /// Increments the number of partial points by 1.
    pub fn increment(&mut self)
        requires
            old(self)@ < u8::MAX,
        ensures
            final(self)@ == old(self)@ + 1,
    {
        self.0 = self.0 + 1;
    }

    /// Resets the number of partial points to 0.
    pub fn reset(&mut self)
        ensures
            final(self)@ == 0,
    {
        self.0 = 0;
    }
}

impl Default for PartialPoints {
    fn default() -> (p: Self)
        ensures
            p@ == 0,
    {
        PartialPoints(0)
    }
}

/// What the leaderboard holds: the full points of each player (player `i` at `i - 1`), how many
/// partial points make a full point, the most cards a player may take, and whether all players
/// made the same number of full points in the last set (then each takes one card).
pub struct LeaderboardView {
    pub full_points: Seq<u8>,
    pub partial_points_per_point: u8,
    pub max_cards_awarded: u8,
    pub same_points: bool,
}

/// The game's leaderboard.
#[derive(Debug)]
pub struct Leaderboard {
    full_points: Vec<u8>,
    partial_points_per_point: u8,
    max_cards_awarded: u8,
    same_points: bool,
}

impl View for Leaderboard {
    type V = LeaderboardView;

    closed spec fn view(&self) -> LeaderboardView {
        LeaderboardView {
            full_points: self.full_points@,
            partial_points_per_point: self.partial_points_per_point,
            max_cards_awarded: self.max_cards_awarded,
            same_points: self.same_points,
        }
    }
}

/// The full points that `partial` partial points make, at `per_point` partial points each.
pub open spec fn points(partial: u8, per_point: u8) -> u8 {
    partial / per_point
}

/// The full points that the entries for player slot `slot` (player id `slot + 1`) make.
pub open spec fn gained(players: Seq<(PlayerId, PartialPoints)>, per_point: u8, slot: int) -> int
    decreases players.len(),
{
    if players.len() == 0 {
        0
    } else {
        gained(players.drop_last(), per_point, slot) + if players.last().0@ - 1 == slot {
            points(players.last().1@, per_point) as int
        } else {
            0
        }
    }
}

/// The most full points any entry makes, or 0 with no entries.
pub open spec fn max_points(players: Seq<(PlayerId, PartialPoints)>, per_point: u8) -> u8
    decreases players.len(),
{
    if players.len() == 0 {
        0
    } else {
        let rest = max_points(players.drop_last(), per_point);
        let p = points(players.last().1@, per_point);
        if p > rest {
            p
        } else {
            rest
        }
    }
}

/// The fewest full points any entry makes, or 255 with no entries.
pub open spec fn min_points(players: Seq<(PlayerId, PartialPoints)>, per_point: u8) -> u8
    decreases players.len(),
{
    if players.len() == 0 {
        255
    } else {
        let rest = min_points(players.drop_last(), per_point);
        let p = points(players.last().1@, per_point);
        if p < rest {
            p
        } else {
            rest
        }
    }
}

/// The most cards a player may take after a set: the most full points any player made, or 1
/// when all players made the same number.
pub open spec fn cards_awarded(players: Seq<(PlayerId, PartialPoints)>, per_point: u8) -> u8 {
    if max_points(players, per_point) == min_points(players, per_point) {
        1
    } else {
        max_points(players, per_point)
    }
}

/// The points gained over a prefix are no more than over the whole sequence.
proof fn lemma_gained_prefix(players: Seq<(PlayerId, PartialPoints)>, per_point: u8, slot: int, i: int)
    requires
        0 <= i <= players.len(),
    ensures
        0 <= gained(players.take(i), per_point, slot) <= gained(players, per_point, slot),
    decreases players.len(),
{
    if i == players.len() {
        assert(players.take(i) =~= players);
        lemma_gained_nonneg(players, per_point, slot);
    } else {
        lemma_gained_prefix(players.drop_last(), per_point, slot, i);
        assert(players.drop_last().take(i) =~= players.take(i));
    }
}

proof fn lemma_gained_nonneg(players: Seq<(PlayerId, PartialPoints)>, per_point: u8, slot: int)
    ensures
        gained(players, per_point, slot) >= 0,
    decreases players.len(),
{
    if players.len() > 0 {
        lemma_gained_nonneg(players.drop_last(), per_point, slot);
    }
}

impl Leaderboard {
    /// At least one partial point makes a full point.
    pub open spec fn wf(&self) -> bool {
        self@.partial_points_per_point > 0
    }

    pub fn new(num_players: u8) -> (l: Self)
        ensures
            l@.full_points == Seq::new(num_players as nat, |i: int| 0u8),
            l@.partial_points_per_point == 2,
            l@.max_cards_awarded == 0,
            !l@.same_points,
            l.wf(),
    {
        let mut full_points: Vec<u8> = Vec::new();
        let mut i: u8 = 0;
        while i < num_players
            invariant
                i <= num_players,
                full_points@ == Seq::new(i as nat, |k: int| 0u8),
            decreases num_players - i,
        {
            full_points.push(0);
            i = i + 1;
        }
        Leaderboard {
            full_points,
            partial_points_per_point: 2,
            max_cards_awarded: 0,
            same_points: false,
        }
    }

    /// The full points of each player, player `i` at `i - 1`.
    pub fn full_points(&self) -> (r: &[u8])
        ensures
            r@ == self@.full_points,
    {
        self.full_points.as_slice()
    }

    /// The most cards a player may take in the coming card selection.
    pub fn max_cards_awarded(&self) -> (r: u8)
        ensures
            r == self@.max_cards_awarded,
    {
        self.max_cards_awarded
    }

    /// Get the number of cards the player should take given the number of
    /// partial points: one card each when all players made the same number of points in the
    /// last set, else the most cards awarded less the player's full points.
    pub fn num_cards_to_take(&self, partial_points: PartialPoints) -> (r: u8)
        requires
            self.wf(),
            !self@.same_points ==> points(partial_points@, self@.partial_points_per_point)
                <= self@.max_cards_awarded,
        ensures
            r == if self@.same_points {
                1
            } else {
                self@.max_cards_awarded - points(partial_points@, self@.partial_points_per_point)
            },
    {
        if self.same_points {
            1
        } else {
            self.max_cards_awarded - partial_points.0 / self.partial_points_per_point
        }
    }

    /// Whether the partial points are enough to form at least 1 full point.
    pub fn full_point(&self, partial_points: PartialPoints) -> (r: bool)
        ensures
            r == (partial_points@ >= self@.partial_points_per_point),
    {
        partial_points.0 >= self.partial_points_per_point
    }
}

/// Partial points are enough for a full point exactly when they make at least one full point.
pub proof fn lemma_full_point_iff_one_point(partial: u8, per_point: u8)
    requires
        per_point > 0,
    ensures
        (partial >= per_point) <==> points(partial, per_point) >= 1,
{
    assert((partial >= per_point) <==> partial / per_point >= 1) by (nonlinear_arith)
        requires
            per_point > 0,
    ;
}

/// Every entry names a player of the leaderboard, and no player's full points would pass 255.
pub open spec fn update_fits(players: Seq<(PlayerId, PartialPoints)>, leaderboard: LeaderboardView) -> bool {
    &&& forall|k: int| 0 <= k < players.len() ==> players[k].0@ <= leaderboard.full_points.len()
    &&& forall|slot: int|
        0 <= slot < leaderboard.full_points.len() ==> leaderboard.full_points[slot] + gained(
            players,
            leaderboard.partial_points_per_point,
            slot,
        ) <= u8::MAX
}

/// Which updates fit: exactly those in which every entry's slot (its player id less one) is a
/// slot of the leaderboard, so that every player id from 1 up to the number of players is
/// accepted, and in which no player's full points pass 255 once the points of all of that
/// player's entries are added.
pub proof fn lemma_update_fits_exactly(players: Seq<(PlayerId, PartialPoints)>, leaderboard: LeaderboardView)
    ensures
        update_fits(players, leaderboard) <==> {
            &&& forall|k: int|
                0 <= k < players.len() ==> #[trigger] players[k].0@ - 1 < leaderboard.full_points.len()
            &&& forall|slot: int|
                0 <= slot < leaderboard.full_points.len() ==> leaderboard.full_points[slot] + gained(
                    players,
                    leaderboard.partial_points_per_point,
                    slot,
                ) < 256
        },
{
}

/// Whether `update_leaderboard` can add these entries' points: every entry names a player of
/// the leaderboard and no player's full points would pass 255.
pub fn leaderboard_update_fits(players: &[(PlayerId, PartialPoints)], leaderboard: &Leaderboard) -> (r:
    bool)
    requires
        leaderboard.wf(),
    ensures
        r == update_fits(players@, leaderboard@),
{
    let len = leaderboard.full_points.len();
    let per_point = leaderboard.partial_points_per_point;
    let mut k: usize = 0;
    while k < players.len()
        invariant
            k <= players@.len(),
            len == leaderboard@.full_points.len(),
            forall|j: int| 0 <= j < k ==> players@[j].0@ <= len,
        decreases players@.len() - k,
    {
        if players[k].0.value() as usize > len {
            return false;
        }
        k = k + 1;
    }
    // Totals per player, capped at 256 since anything past 255 does not fit.
    let mut totals: Vec<u16> = Vec::new();
    let mut slot: usize = 0;
    while slot < len
        invariant
            slot <= len,
            len == leaderboard@.full_points.len(),
            totals@.len() == slot,
            forall|j: int| 0 <= j < slot ==> totals@[j] == leaderboard@.full_points[j],
        decreases len - slot,
    {
        totals.push(leaderboard.full_points[slot] as u16);
        slot = slot + 1;
    }
    let mut i: usize = 0;
    while i < players.len()
        invariant
            i <= players@.len(),
            len == leaderboard@.full_points.len(),
            per_point == leaderboard@.partial_points_per_point,
            per_point > 0,
            totals@.len() == len,
            forall|j: int| 0 <= j < players@.len() ==> players@[j].0@ <= len,
            forall|j: int|
                0 <= j < len ==> totals@[j] == if leaderboard@.full_points[j] + gained(
                    players@.take(i as int),
                    per_point,
                    j,
                ) <= 256 {
                    leaderboard@.full_points[j] + gained(players@.take(i as int), per_point, j)
                } else {
                    256
                },
        decreases players@.len() - i,
    {
        let (player_id, partial_points) = players[i];
        let num_points = partial_points.0 / per_point;
        let target = (player_id.value() - 1) as usize;
        proof {
            let prefix = players@.take(i + 1);
            assert(prefix.drop_last() =~= players@.take(i as int));
            assert(prefix.last() == players@[i as int]);
            lemma_gained_nonneg(players@.take(i as int), per_point, target as int);
        }
        let sum = totals[target] + num_points as u16;
        totals[target] = if sum > 256 { 256 } else { sum };
        i = i + 1;
    }
    assert(players@.take(players@.len() as int) =~= players@);
    let mut j: usize = 0;
    while j < len
        invariant
            j <= len,
            len == leaderboard@.full_points.len(),
            totals@.len() == len,
            players@.take(players@.len() as int) == players@,
            forall|t: int| 0 <= t < len ==> totals@[t] == if leaderboard@.full_points[t] + gained(
                players@,
                leaderboard@.partial_points_per_point,
                t,
            ) <= 256 {
                leaderboard@.full_points[t] + gained(players@, leaderboard@.partial_points_per_point, t)
            } else {
                256
            },
            forall|t: int|
                0 <= t < j ==> leaderboard@.full_points[t] + gained(
                    players@,
                    leaderboard@.partial_points_per_point,
                    t,
                ) <= u8::MAX,
        decreases len - j,
    {
        if totals[j] > 255 {
            return false;
        }
        j = j + 1;
    }
    true
}

/// Fewer partial points never mean fewer cards to take: the cards a player takes fall as the
/// player's points rise.
pub proof fn lemma_fewer_points_more_cards(fewer: u8, more: u8, per_point: u8, max_cards: u8)
    requires
        per_point > 0,
        fewer <= more,
        points(more, per_point) <= max_cards,
    ensures
        points(fewer, per_point) <= points(more, per_point),
        max_cards - points(fewer, per_point) >= max_cards - points(more, per_point),
{
    vstd::arithmetic::div_mod::lemma_div_is_ordered(fewer as int, more as int, per_point as int);
}

/// Adds points to each player in the leaderboard. Does NOT reset all players'
/// partial points.
pub fn update_leaderboard(players: &[(PlayerId, PartialPoints)], leaderboard: &mut Leaderboard)
    requires
        old(leaderboard).wf(),
        update_fits(players@, old(leaderboard)@),
    ensures
        final(leaderboard)@.full_points.len() == old(leaderboard)@.full_points.len(),
        forall|slot: int|
            0 <= slot < old(leaderboard)@.full_points.len() ==> final(leaderboard)@.full_points[slot]
                == old(leaderboard)@.full_points[slot] + gained(
                players@,
                old(leaderboard)@.partial_points_per_point,
                slot,
            ),
        final(leaderboard)@.partial_points_per_point == old(leaderboard)@.partial_points_per_point,
        final(leaderboard)@.max_cards_awarded == cards_awarded(
            players@,
            old(leaderboard)@.partial_points_per_point,
        ),
        final(leaderboard)@.same_points == (max_points(
            players@,
            old(leaderboard)@.partial_points_per_point,
        ) == min_points(players@, old(leaderboard)@.partial_points_per_point)),
{
    let ghost old_points = leaderboard.full_points@;
    let per_point = leaderboard.partial_points_per_point;
    let mut max_points_seen: u8 = 0;
    let mut min_points_seen: u8 = 255;

    // Update min and max and the leaderboard value
    let mut i: usize = 0;
    while i < players.len()
        invariant
            i <= players@.len(),
            per_point == leaderboard.partial_points_per_point,
            per_point > 0,
            leaderboard.full_points@.len() == old_points.len(),
            forall|k: int| 0 <= k < players@.len() ==> players@[k].0@ <= old_points.len(),
            forall|slot: int|
                0 <= slot < old_points.len() ==> old_points[slot] + gained(players@, per_point, slot)
                    <= u8::MAX,
            forall|slot: int|
                0 <= slot < old_points.len() ==> leaderboard.full_points@[slot] == old_points[slot]
                    + gained(players@.take(i as int), per_point, slot),
            max_points_seen == max_points(players@.take(i as int), per_point),
            min_points_seen == min_points(players@.take(i as int), per_point),
        decreases players@.len() - i,
    {
        let (player_id, partial_points) = players[i];
        let num_points = partial_points.0 / per_point;
        if num_points > max_points_seen {
            max_points_seen = num_points;
        }
        if num_points < min_points_seen {
            min_points_seen = num_points;
        }
        let id = player_id.value();
        let slot = (id - 1) as usize;
        proof {
            let prefix = players@.take(i + 1);
            assert(prefix.drop_last() =~= players@.take(i as int));
            assert(prefix.last() == players@[i as int]);
            lemma_gained_prefix(players@, per_point, slot as int, i + 1);
        }
        leaderboard.full_points[slot] = leaderboard.full_points[slot] + num_points;
        i = i + 1;
    }
    assert(players@.take(players@.len() as int) =~= players@);

    // Set max cards awarded to the max number of points
    leaderboard.max_cards_awarded = max_points_seen;

    // If all players are to be awarded the same number of points, give them all
    // 1 card
    if max_points_seen == min_points_seen {
        leaderboard.max_cards_awarded = 1;
    };
    leaderboard.same_points = max_points_seen == min_points_seen;
}

/// When every player makes the same number of full points in a set, the most and the fewest are
/// equal, so `update_leaderboard` records `same_points` and `num_cards_to_take` gives each
/// player one card.
pub proof fn lemma_max_min_equal(players: Seq<(PlayerId, PartialPoints)>, per_point: u8)
    requires
        players.len() > 0,
        forall|k: int|
            #![trigger players[k]]
            0 <= k < players.len() ==> points(players[k].1@, per_point) == points(
                players[0].1@,
                per_point,
            ),
    ensures
        max_points(players, per_point) == points(players[0].1@, per_point),
        min_points(players, per_point) == points(players[0].1@, per_point),
    decreases players.len(),
{
    if players.len() > 1 {
        let rest = players.drop_last();
        assert forall|k: int| #![trigger rest[k]] 0 <= k < rest.len() implies points(rest[k].1@, per_point) == points(
            rest[0].1@,
            per_point,
        ) by {
            assert(rest[k] == players[k]);
            assert(rest[0] == players[0]);
        }
        lemma_max_min_equal(rest, per_point);
        assert(rest[0] == players[0]);
        assert(players.last() == players[players.len() - 1]);
        assert(points(players[players.len() - 1].1@, per_point) == points(players[0].1@, per_point));
    } else {
        assert(players.drop_last().len() == 0);
        assert(max_points(players.drop_last(), per_point) == 0);
        assert(min_points(players.drop_last(), per_point) == 255);
        assert(players.last() == players[0]);
    }
}

} // verus!
