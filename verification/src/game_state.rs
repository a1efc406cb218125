//! The rules of a match: when it ends, bullets, the fixed-timestep flag and map setup.
pub mod bullet;
pub mod player;
pub mod setup_match;

use crate::scoring::{Leaderboard, PartialPoints};
use crate::AppState;
use vstd::prelude::*;

verus! {

/// How many players of the list are alive.
pub open spec fn alive_count(players: Seq<(bool, PartialPoints)>) -> nat
    decreases players.len(),
{
    if players.len() == 0 {
        0
    } else {
        alive_count(players.drop_last()) + if players.last().0 {
            1nat
        } else {
            0nat
        }
    }
}

proof fn lemma_alive_count_prefix(players: Seq<(bool, PartialPoints)>, i: int)
    requires
        0 <= i <= players.len(),
    ensures
        alive_count(players.take(i)) <= alive_count(players),
    decreases players.len(),
{
    if i == players.len() {
        assert(players.take(i) =~= players);
    } else {
        lemma_alive_count_prefix(players.drop_last(), i);
        assert(players.drop_last().take(i) =~= players.take(i));
    }
}

/// Some player of the list has partial points for a full point.
pub open spec fn any_full_point(players: Seq<(bool, PartialPoints)>, per_point: u8) -> bool {
    exists|k: int| 0 <= k < players.len() && players[k].1@ >= per_point
}

proof fn lemma_any_full_point_step(players: Seq<(bool, PartialPoints)>, i: int, per_point: u8)
    requires
        0 <= i < players.len(),
    ensures
        any_full_point(players.take(i + 1), per_point) == (any_full_point(players.take(i), per_point)
            || players[i].1@ >= per_point),
{
    let longer = players.take(i + 1);
    let shorter = players.take(i);
    if any_full_point(longer, per_point) {
        let k = choose|k: int| 0 <= k < longer.len() && #[trigger] longer[k].1@ >= per_point;
        if k < i {
            assert(shorter[k] == longer[k]);
        }
    }
    if any_full_point(shorter, per_point) {
        let k = choose|k: int| 0 <= k < shorter.len() && #[trigger] shorter[k].1@ >= per_point;
        assert(shorter[k] == longer[k]);
    }
    if players[i].1@ >= per_point {
        assert(longer[i] == players[i]);
    }
}

/// Ends the match if at most one player is alive. Each entry says whether a player is alive
/// and holds the player's partial points.
///
/// Returns `None` while two or more players are alive. Otherwise returns the next state: card
/// selection if at least one player has amassed enough partial points for a full point, else
/// the next match.
pub fn try_end_match(leaderboard: &Leaderboard, players: &[(bool, PartialPoints)]) -> (next: Option<
    AppState,
>)
    ensures
        next is None <==> alive_count(players@) >= 2,
        alive_count(players@) < 2 ==> next == Some(
            if any_full_point(players@, leaderboard@.partial_points_per_point) {
                AppState::CardSelection
            } else {
                AppState::Match
            },
        ),
{
    let mut found_one = false;
    let mut full_point = false;
    let mut i: usize = 0;
    while i < players.len()
        invariant
            i <= players@.len(),
            alive_count(players@.take(i as int)) <= 1,
            found_one == (alive_count(players@.take(i as int)) == 1),
            full_point == any_full_point(players@.take(i as int), leaderboard@.partial_points_per_point),
        decreases players@.len() - i,
    {
        let (alive, partial_points) = players[i];
        proof {
            assert(players@.take(i + 1).drop_last() =~= players@.take(i as int));
            lemma_any_full_point_step(players@, i as int, leaderboard@.partial_points_per_point);
        }
        full_point = full_point || leaderboard.full_point(partial_points);
        if alive {
            if found_one {
                proof {
                    lemma_alive_count_prefix(players@, i + 1);
                }
                return None;
            } else {
                found_one = true;
            }
        }
        i = i + 1;
    }
    assert(players@.take(players@.len() as int) =~= players@);

    // If at least one player has amassed enough partial points for a full
    // point, move to card selection Otherwise, start the next match.
    Some(
        if full_point {
            AppState::CardSelection
        } else {
            AppState::Match
        },
    )
}

} // verus!
