//! Random choices made when a match is set up: the map, and where each player spawns.
use rand::rngs::ThreadRng;
use rand::seq::SliceRandom;
use vstd::prelude::*;

verus! {

/// Puts the elements of `order` in a random order, with `rand`'s `SliceRandom::shuffle` driven
/// by the thread-local generator (`ThreadRng::default()`).
///
/// Claimed of the outside code: the shuffle only swaps elements, so the same elements remain,
/// each as often as before. Which order comes out depends on chance and is not stated. The
/// thread-local generator panics if the operating system cannot seed it; that is not ruled out.
#[verifier::external_body]
fn shuffle(order: &mut Vec<usize>)
    ensures
        final(order)@.to_multiset() == old(order)@.to_multiset(),
        final(order)@.len() == old(order)@.len(),
{
    order.shuffle(&mut ThreadRng::default());
}

/// The indices `0..n` in a random order.
fn shuffled_indices(n: usize) -> (order: Vec<usize>)
    ensures
        order@.len() == n,
        order@.no_duplicates(),
        forall|k: int| 0 <= k < n ==> order@[k] < n,
{
    let mut order: Vec<usize> = Vec::new();
    let mut i: usize = 0;
    while i < n
        invariant
            i <= n,
            order@ == Seq::new(i as nat, |k: int| k as usize),
        decreases n - i,
    {
        order.push(i);
        i = i + 1;
    }
    let ghost before = order@;
    proof {
        assert(before.no_duplicates());
        before.lemma_multiset_has_no_duplicates();
    }
    shuffle(&mut order);
    proof {
        broadcast use vstd::seq_lib::group_to_multiset_ensures;

        order@.lemma_multiset_has_no_duplicates_conv();
        assert forall|k: int| 0 <= k < n implies order@[k] < n by {
            assert(order@.contains(order@[k]));
            assert(order@.to_multiset().count(order@[k]) > 0);
            assert(before.contains(order@[k]));
        }
    }
    order
}

/// The map that comes first in a shuffled order of the maps.
pub fn first_map(order: &Vec<usize>) -> (idx: usize)
    requires
        order@.len() > 0,
    ensures
        idx == order@[0],
{
    order[0]
}

/// Picks one of `num_maps` maps at random, as shuffling the maps and taking the first does.
pub fn choose_map(num_maps: usize) -> (idx: usize)
    requires
        num_maps > 0,
    ensures
        idx < num_maps,
{
    let order = shuffled_indices(num_maps);
    first_map(&order)
}

/// The spawn points of `num_players` players from a shuffled order of the spawn points: player
/// `k` spawns at the `k`-th point of the order.
pub fn first_spawn_points(order: Vec<usize>, num_players: usize) -> (points: Vec<usize>)
    requires
        num_players <= order@.len(),
    ensures
        points@ == order@.take(num_players as int),
{
    let mut points = order;
    points.truncate(num_players);
    points
}

/// Assigns each of `num_players` players a distinct spawn point out of `num_spawn_points`, in
/// random order: player `k` spawns at point `order[k]`.
pub fn move_players(num_players: usize, num_spawn_points: usize) -> (order: Vec<usize>)
    requires
        num_players <= num_spawn_points,
    ensures
        order@.len() == num_players,
        order@.no_duplicates(),
        forall|k: int| 0 <= k < num_players ==> order@[k] < num_spawn_points,
{
    let order = shuffled_indices(num_spawn_points);
    let points = first_spawn_points(order, num_players);
    assert(forall|k: int| 0 <= k < num_players ==> points@[k] == order@[k]);
    points
}

} // verus!
