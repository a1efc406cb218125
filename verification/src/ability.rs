//! Player abilities (jumping, shooting) and their use/cooldown cycle.
use vstd::prelude::*;

verus! {

/// The state of an ability.
#[derive(Debug, Clone, Copy, PartialEq, Eq, Structural)]
pub enum State {
    /// Cooling down; the ability is ready again after this many ticks and one more.
    Cooldown(u16),
    /// Ready to be activated.
    Ready,
    /// Being used; holding the input keeps the use going for this many more ticks.
    InUse(u16),
}

/// Some ability.
#[derive(Debug, Clone, Copy, PartialEq, Eq, Structural)]
pub struct Ability {
    pub state: State,
    pub stock: u16,
    pub max_stock: u16,
    pub use_time: u16,
    pub cooldown_time: u16,
}

/// The state an ability enters when a use ends.
pub open spec fn state_after_use(a: Ability) -> State {
    if a.cooldown_time > 0 {
        State::Cooldown((a.cooldown_time - 1) as u16)
    } else {
        State::Ready
    }
}

/// The state an ability enters when it is activated from `Ready`.
pub open spec fn state_on_activation(a: Ability) -> State {
    if a.use_time > 0 {
        State::InUse((a.use_time - 1) as u16)
    } else {
        state_after_use(a)
    }
}

/// One tick of an ability: the ability afterwards, and whether its effect applies.
pub open spec fn tick_spec(a: Ability, use_ability: bool) -> (Ability, bool) {
    match a.state {
        State::Ready => {
            if use_ability && a.stock > 0 {
                (Ability { state: state_on_activation(a), stock: (a.stock - 1) as u16, ..a }, true)
            } else {
                (a, false)
            }
        },
        State::InUse(timer) => {
            if timer > 0 && use_ability {
                (Ability { state: State::InUse((timer - 1) as u16), ..a }, true)
            } else {
                (Ability { state: state_after_use(a), ..a }, use_ability)
            }
        },
        State::Cooldown(timer) => {
            if timer > 0 {
                (Ability { state: State::Cooldown((timer - 1) as u16), ..a }, false)
            } else {
                (Ability { state: State::Ready, ..a }, false)
            }
        },
    }
}

/// Whether a tick from `a` activates the ability, spending one unit of stock.
pub open spec fn activates(a: Ability, use_ability: bool) -> bool {
    a.state == State::Ready && use_ability && a.stock > 0
}

/// The timers of an ability lie within its configured times, and its stock within its maximum.
pub open spec fn ability_wf(a: Ability) -> bool {
    &&& a.stock <= a.max_stock
    &&& match a.state {
        State::Ready => true,
        State::InUse(t) => t < a.use_time,
        State::Cooldown(t) => t < a.cooldown_time,
    }
}

/// The ability after a run of ticks with the given inputs, the first input first.
pub open spec fn run(a: Ability, inputs: Seq<bool>) -> Ability
    decreases inputs.len(),
{
    if inputs.len() == 0 {
        a
    } else {
        run(tick_spec(a, inputs[0]).0, inputs.drop_first())
    }
}

/// How many ticks of a run activate the ability.
pub open spec fn activations(a: Ability, inputs: Seq<bool>) -> nat
    decreases inputs.len(),
{
    if inputs.len() == 0 {
        0
    } else {
        (if activates(a, inputs[0]) { 1nat } else { 0nat }) + activations(
            tick_spec(a, inputs[0]).0,
            inputs.drop_first(),
        )
    }
}

/// How many ticks of a run apply the ability's effect.
pub open spec fn successes(a: Ability, inputs: Seq<bool>) -> nat
    decreases inputs.len(),
{
    if inputs.len() == 0 {
        0
    } else {
        (if tick_spec(a, inputs[0]).1 { 1nat } else { 0nat }) + successes(
            tick_spec(a, inputs[0]).0,
            inputs.drop_first(),
        )
    }
}


/// A tick keeps an ability well formed: its timers stay below the configured times and its
/// stock never exceeds the maximum.
pub proof fn lemma_tick_preserves_wf(a: Ability, use_ability: bool)
    requires
        ability_wf(a),
    ensures
        ability_wf(tick_spec(a, use_ability).0),
{
}

/// A tick spends one unit of stock exactly when it activates the ability from `Ready`, and
/// never changes the ability's configuration.
pub proof fn lemma_tick_stock(a: Ability, use_ability: bool)
    ensures
        tick_spec(a, use_ability).0.stock + (if activates(a, use_ability) { 1int } else { 0int })
            == a.stock,
        tick_spec(a, use_ability).0.max_stock == a.max_stock,
        tick_spec(a, use_ability).0.use_time == a.use_time,
        tick_spec(a, use_ability).0.cooldown_time == a.cooldown_time,
        activates(a, use_ability) ==> tick_spec(a, use_ability).1,
{
}

/// Over any run of ticks without a refill, the stock left plus the number of activations equals
/// the stock at the start: an ability is activated at most `stock` times.
pub proof fn lemma_run_stock(a: Ability, inputs: Seq<bool>)
    ensures
        run(a, inputs).stock + activations(a, inputs) == a.stock,
        activations(a, inputs) <= a.stock,
        run(a, inputs).max_stock == a.max_stock,
        run(a, inputs).use_time == a.use_time,
        run(a, inputs).cooldown_time == a.cooldown_time,
    decreases inputs.len(),
{
    if inputs.len() > 0 {
        lemma_tick_stock(a, inputs[0]);
        lemma_run_stock(tick_spec(a, inputs[0]).0, inputs.drop_first());
    }
}

/// A run of ticks keeps a well-formed ability well formed.
pub proof fn lemma_run_preserves_wf(a: Ability, inputs: Seq<bool>)
    requires
        ability_wf(a),
    ensures
        ability_wf(run(a, inputs)),
    decreases inputs.len(),
{
    if inputs.len() > 0 {
        lemma_tick_preserves_wf(a, inputs[0]);
        lemma_run_preserves_wf(tick_spec(a, inputs[0]).0, inputs.drop_first());
    }
}

/// An ability in `Cooldown(t)` counts down: after `i <= t` ticks, whatever the inputs, it is in
/// `Cooldown(t - i)`, has applied no effect, and is otherwise unchanged (its stock too).
pub proof fn lemma_cooldown_counts_down(a: Ability, inputs: Seq<bool>)
    requires
        a.state matches State::Cooldown(t) && inputs.len() <= t,
    ensures
        a.state matches State::Cooldown(t) && run(a, inputs) == (Ability {
            state: State::Cooldown((t - inputs.len()) as u16),
            ..a
        }),
        successes(a, inputs) == 0,
    decreases inputs.len(),
{
    if inputs.len() > 0 {
        lemma_cooldown_counts_down(tick_spec(a, inputs[0]).0, inputs.drop_first());
    }
}

/// An ability in `Cooldown(t)` applies no effect for the next `t + 1` ticks, whatever the
/// inputs, and is `Ready` afterwards, otherwise unchanged (its stock too).
pub proof fn lemma_cooldown_recovers(a: Ability, inputs: Seq<bool>)
    requires
        a.state matches State::Cooldown(t) && inputs.len() == t + 1,
    ensures
        run(a, inputs) == (Ability { state: State::Ready, ..a }),
        successes(a, inputs) == 0,
    decreases inputs.len(),
{
    if let State::Cooldown(t) = a.state {
        let next = tick_spec(a, inputs[0]).0;
        if t == 0 {
            assert(inputs.drop_first().len() == 0);
            assert(successes(next, inputs.drop_first()) == 0);
            assert(run(next, inputs.drop_first()) == next);
        } else {
            lemma_cooldown_recovers(next, inputs.drop_first());
        }
    }
}

/// Releasing the input during a use ends the use and starts the cooldown: the release tick and
/// the `cooldown_time` ticks after it apply no effect and spend no stock, whatever the inputs,
/// and the ability is `Ready` after them.
pub proof fn lemma_release_cools_down(a: Ability, inputs: Seq<bool>)
    requires
        a.state is InUse,
        inputs.len() >= 1,
        !inputs[0],
        inputs.len() <= a.cooldown_time + 1,
    ensures
        successes(a, inputs) == 0,
        activations(a, inputs) == 0,
        run(a, inputs).stock == a.stock,
        inputs.len() == a.cooldown_time + 1 ==> run(a, inputs).state == State::Ready,
{
    let next = tick_spec(a, false).0;
    let rest = inputs.drop_first();
    assert(!tick_spec(a, false).1);
    assert(next.stock == a.stock);
    if a.cooldown_time > 0 {
        assert(next.state == State::Cooldown((a.cooldown_time - 1) as u16));
        if rest.len() < a.cooldown_time {
            lemma_cooldown_counts_down(next, rest);
        } else {
            lemma_cooldown_recovers(next, rest);
        }
        lemma_run_stock(next, rest);
        lemma_no_successes_no_activations(next, rest);
    } else {
        assert(next.state == State::Ready);
        assert(rest.len() == 0);
        assert(successes(next, rest) == 0);
        assert(activations(next, rest) == 0);
        assert(run(next, rest) == next);
    }
}

/// A use that ends early also cools down: ticking an ability in use with its input released
/// applies the effect no more and puts it into its full cooldown, however much of the use window
/// was left; only an ability without a cooldown is ready again at once.
pub proof fn lemma_release_ends_use(a: Ability)
    requires
        a.state is InUse,
    ensures
        !tick_spec(a, false).1,
        tick_spec(a, false).0.stock == a.stock,
        a.cooldown_time > 0 ==> tick_spec(a, false).0.state == State::Cooldown(
            (a.cooldown_time - 1) as u16,
        ),
        a.cooldown_time == 0 ==> tick_spec(a, false).0.state == State::Ready,
        !activates(tick_spec(a, false).0, true) || a.cooldown_time == 0,
{
}

/// A run that applies no effect activates nothing.
proof fn lemma_no_successes_no_activations(a: Ability, inputs: Seq<bool>)
    requires
        successes(a, inputs) == 0,
    ensures
        activations(a, inputs) == 0,
    decreases inputs.len(),
{
    if inputs.len() > 0 {
        lemma_tick_stock(a, inputs[0]);
        lemma_no_successes_no_activations(tick_spec(a, inputs[0]).0, inputs.drop_first());
    }
}

/// Holding the input through a use keeps it going: from `InUse(t)`, each of the next `t + 1`
/// ticks with the input held applies the effect, without spending stock.
pub proof fn lemma_hold_keeps_use(a: Ability, inputs: Seq<bool>)
    requires
        a.state matches State::InUse(t) && inputs.len() <= t + 1,
        forall|i: int| 0 <= i < inputs.len() ==> inputs[i],
    ensures
        successes(a, inputs) == inputs.len(),
        run(a, inputs).stock == a.stock,
    decreases inputs.len(),
{
    if inputs.len() > 0 {
        let next = tick_spec(a, inputs[0]).0;
        let rest = inputs.drop_first();
        assert(inputs[0]);
        if let State::InUse(t) = a.state {
            if t == 0 {
                assert(rest.len() == 0);
                assert(successes(next, rest) == 0);
                assert(run(next, rest) == next);
            } else {
                assert forall|i: int| 0 <= i < rest.len() implies rest[i] by {
                    assert(rest[i] == inputs[i + 1]);
                }
                lemma_hold_keeps_use(next, rest);
            }
        }
    }
}

/// Pressing a ready ability that has stock activates it: the effect applies, one unit of stock
/// is spent, and holding the input keeps it applying for the whole use window, `use_time + 1`
/// ticks in all.
pub proof fn lemma_press_activates(a: Ability, inputs: Seq<bool>)
    requires
        a.state == State::Ready,
        a.stock > 0,
        1 <= inputs.len() <= a.use_time + 1,
        forall|i: int| 0 <= i < inputs.len() ==> inputs[i],
    ensures
        successes(a, inputs) == inputs.len(),
        activations(a, inputs) >= 1,
        run(a, inputs).stock == a.stock - 1,
{
    let next = tick_spec(a, true).0;
    let rest = inputs.drop_first();
    assert(inputs[0]);
    assert(tick_spec(a, true).1);
    assert(next.stock == a.stock - 1);
    lemma_run_stock(next, rest);
    if a.use_time > 0 {
        assert(next.state == State::InUse((a.use_time - 1) as u16));
        assert forall|i: int| 0 <= i < rest.len() implies rest[i] by {
            assert(rest[i] == inputs[i + 1]);
        }
        lemma_hold_keeps_use(next, rest);
        lemma_no_activation_in_use(next, rest);
    } else {
        assert(rest.len() == 0);
        assert(successes(next, rest) == 0);
        assert(run(next, rest) == next);
    }
}

/// Holding through a use activates nothing more.
proof fn lemma_no_activation_in_use(a: Ability, inputs: Seq<bool>)
    requires
        a.state matches State::InUse(t) && inputs.len() <= t + 1,
        forall|i: int| 0 <= i < inputs.len() ==> inputs[i],
    ensures
        activations(a, inputs) == 0,
    decreases inputs.len(),
{
    if inputs.len() > 0 {
        let next = tick_spec(a, inputs[0]).0;
        let rest = inputs.drop_first();
        if let State::InUse(t) = a.state {
            if t == 0 {
                assert(rest.len() == 0);
                assert(activations(next, rest) == 0);
            } else {
                assert forall|i: int| 0 <= i < rest.len() implies rest[i] by {
                    assert(rest[i] == inputs[i + 1]);
                }
                lemma_no_activation_in_use(next, rest);
            }
        }
    }
}

impl Ability {
    /// Updates the ability's cooldowns and such. Returns whether to apply the effect of the ability.
    pub fn tick(&mut self, use_ability: bool) -> (success: bool)
        ensures
            (*final(self), success) == tick_spec(*old(self), use_ability),
    {
        let (new_state, success) = match self.state {
            State::Ready => {
                if use_ability && self.stock > 0 {
                    self.stock = self.stock - 1;
                    if self.use_time > 0 {
                        (State::InUse(self.use_time - 1), true)
                    } else if self.cooldown_time > 0 {
                        (State::Cooldown(self.cooldown_time - 1), true)
                    } else {
                        (State::Ready, true)
                    }
                } else {
                    (State::Ready, false)
                }
            },
            State::InUse(timer) => {
                if timer > 0 && use_ability {
                    (State::InUse(timer - 1), true)
                } else {
                    if self.cooldown_time > 0 {
                        (State::Cooldown(self.cooldown_time - 1), use_ability)
                    } else {
                        (State::Ready, use_ability)
                    }
                }
            },
            State::Cooldown(timer) => (
                if timer > 0 {
                    State::Cooldown(timer - 1)
                } else {
                    State::Ready
                },
                false,
            ),
        };
        self.state = new_state;
        success
    }
}

/// What a player's abilities hold: the jump and the shoot ability.
pub struct AbilitiesView {
    pub jump: Ability,
    pub shoot: Ability,
}

/// All the abilities of a player.
#[derive(Debug, Clone, Copy, PartialEq)]
pub struct Abilities {
    jump: Ability,
    shoot: Ability,
}

impl View for Abilities {
    type V = AbilitiesView;

    closed spec fn view(&self) -> AbilitiesView {
        AbilitiesView { jump: self.jump, shoot: self.shoot }
    }
}

impl Abilities {
    /// Both abilities are well formed.
    pub open spec fn wf(&self) -> bool {
        ability_wf(self@.jump) && ability_wf(self@.shoot)
    }

    /// Updates the all the abilities' cooldowns and such. Returns whether to apply the effect of
    /// each ability.
    pub fn tick(&mut self, jump: bool, shoot: bool) -> (r: (bool, bool))
        ensures
            (final(self)@.jump, r.0) == tick_spec(old(self)@.jump, jump),
            (final(self)@.shoot, r.1) == tick_spec(old(self)@.shoot, shoot),
            old(self).wf() ==> final(self).wf(),
    {
        proof {
            if ability_wf(self.jump) {
                lemma_tick_preserves_wf(self.jump, jump);
            }
            if ability_wf(self.shoot) {
                lemma_tick_preserves_wf(self.shoot, shoot);
            }
        }
        (self.jump.tick(jump), self.shoot.tick(shoot))
    }

    /// The most jumps a player can hold.
    pub fn jump_max_stock(&self) -> (r: u16)
        ensures
            r == self@.jump.max_stock,
    {
        self.jump.max_stock
    }

    /// Refills jump stock.
    pub fn refill_jump(&mut self)
        ensures
            final(self)@.jump == (Ability { stock: old(self)@.jump.max_stock, ..old(self)@.jump }),
            final(self)@.shoot == old(self)@.shoot,
            old(self).wf() ==> final(self).wf(),
    {
        self.jump.stock = self.jump.max_stock;
    }

    /// Increases max jump stock by 1. The argument is not read: each call adds one jump.
    pub fn add_jump(&mut self, _additional_jumps: u16)
        requires
            old(self)@.jump.max_stock < u16::MAX,
        ensures
            final(self)@.jump == (Ability {
                max_stock: (old(self)@.jump.max_stock + 1) as u16,
                ..old(self)@.jump
            }),
            final(self)@.shoot == old(self)@.shoot,
            old(self).wf() ==> final(self).wf(),
    {
        self.jump.max_stock = self.jump.max_stock + 1;
    }
}

impl Default for Abilities {
    /// Players start without jump stock: touching the ground fills it.
    fn default() -> (r: Self)
        ensures
            r@.jump == (Ability {
                state: State::Ready,
                stock: 0,
                max_stock: 1,
                use_time: 5,
                cooldown_time: 20,
            }),
            r@.shoot == (Ability {
                state: State::Ready,
                stock: 60,
                max_stock: 60,
                use_time: 0,
                cooldown_time: 60,
            }),
            r.wf(),
    {
        Self {
            jump: Ability {
                state: State::Ready,
                stock: 0,
                max_stock: 1,
                use_time: 5,
                cooldown_time: 20,
            },
            shoot: Ability {
                state: State::Ready,
                stock: 60,
                max_stock: 60,
                use_time: 0,
                cooldown_time: 60,
            },
        }
    }
}

} // verus!
