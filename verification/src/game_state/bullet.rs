//! What a hit does to a bullet.
use crate::shared::Bounces;
use vstd::prelude::*;

verus! {

/// One hit of a bullet with `b` bounces left: the bounces left after it, and whether the
/// bullet is to be destroyed.
pub open spec fn hit_spec(b: u8) -> (u8, bool) {
    if b > 0 {
        ((b - 1) as u8, false)
    } else {
        (0, true)
    }
}

/// How many of `n` hits on a bullet that starts with `b` bounces report that it is to be
/// destroyed.
pub open spec fn kills_over_hits(b: u8, n: nat) -> nat
    decreases n,
{
    if n == 0 {
        0
    } else {
        (if hit_spec(b).1 { 1nat } else { 0nat }) + kills_over_hits(hit_spec(b).0, (n - 1) as nat)
    }
}

/// Handles one hit of a bullet: decrements its bounces, or, when none are left, reports that
/// the bullet is to be destroyed.
pub fn bullet_hit(bounces: &mut Bounces) -> (kill: bool)
    ensures
        (final(bounces).0, kill) == hit_spec(old(bounces).0),
{
    if bounces.0 > 0 {
        bounces.0 = bounces.0 - 1;
        false
    } else {
        true
    }
}

/// A bullet with `b` bounces survives its first `b` hits; every hit after those reports that it
/// is to be destroyed.
pub proof fn lemma_bullet_survives_its_bounces(b: u8, n: nat)
    ensures
        kills_over_hits(b, n) == if n > b { (n - b) as nat } else { 0nat },
    decreases n,
{
    if n > 0 {
        lemma_bullet_survives_its_bounces(hit_spec(b).0, (n - 1) as nat);
    }
}

} // verus!
