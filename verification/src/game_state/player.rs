//! Whether the fixed timestep ran this frame.
use vstd::prelude::*;

verus! {

/// A simple resource that tells us whether the fixed timestep ran this frame.
#[derive(Debug)]
pub struct DidFixedTimestepRunThisFrame(bool);

impl View for DidFixedTimestepRunThisFrame {
    type V = bool;

    closed spec fn view(&self) -> bool {
        self.0
    }
}

impl Default for DidFixedTimestepRunThisFrame {
    fn default() -> (f: Self)
        ensures
            !f@,
    {
        DidFixedTimestepRunThisFrame(false)
    }
}

/// The flag once it was cleared at the start of a frame and then set by each of `n` fixed
/// timesteps.
pub open spec fn flag_after_fixed_steps(n: nat) -> bool
    decreases n,
{
    if n == 0 {
        false
    } else {
        set_flag_spec(flag_after_fixed_steps((n - 1) as nat))
    }
}

/// The flag after `set_fixed_time_step_flag`, whatever it was.
pub open spec fn set_flag_spec(flag: bool) -> bool {
    true
}

/// Within a frame, the flag reports that the fixed timestep ran exactly when it ran at least
/// once since the flag was cleared.
pub proof fn lemma_flag_reports_fixed_steps(n: nat)
    ensures
        flag_after_fixed_steps(n) == (n > 0),
    decreases n,
{
    if n > 0 {
        lemma_flag_reports_fixed_steps((n - 1) as nat);
    }
}

/// Reset the flag at the start of every frame.
pub fn clear_fixed_timestep_flag(did_fixed_timestep_run_this_frame: &mut DidFixedTimestepRunThisFrame)
    ensures
        final(did_fixed_timestep_run_this_frame)@ == flag_after_fixed_steps(0),
{
    did_fixed_timestep_run_this_frame.0 = false;
}

/// Set the flag during each fixed timestep.
pub fn set_fixed_time_step_flag(did_fixed_timestep_run_this_frame: &mut DidFixedTimestepRunThisFrame)
    ensures
        final(did_fixed_timestep_run_this_frame)@ == set_flag_spec(
            old(did_fixed_timestep_run_this_frame)@,
        ),
{
    did_fixed_timestep_run_this_frame.0 = true;
}

/// Whether the fixed timestep ran since the flag was last cleared.
pub fn did_fixed_timestep_run_this_frame(flag: &DidFixedTimestepRunThisFrame) -> (r: bool)
    ensures
        r == flag@,
{
    flag.0
}

} // verus!
