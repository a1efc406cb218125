//! The lobby: players join and leave before the game starts.
use crate::player::{
    id_gen_bounded, id_gen_wf, issued, lemma_next_hands_out_unused_id, lemma_reinsert_returns_id,
    lemma_reinsert_undoes_next, next_spec, reinsert_spec, IdGenView,
    Input, PlayerId, PlayerIdGen,
};
use vstd::prelude::*;

verus! {

/// The colors players may take, by their place in the palette, and whether each is in use.
pub struct LobbyData {
    player_colors: Vec<bool>,
}

impl View for LobbyData {
    type V = Seq<bool>;

    closed spec fn view(&self) -> Seq<bool> {
        self.player_colors@
    }
}

/// Some color of the palette is not in use.
pub open spec fn has_free_color_spec(in_use: Seq<bool>) -> bool {
    exists|i: int| 0 <= i < in_use.len() && !in_use[i]
}

/// The first color not in use, or the number of colors when all are in use.
pub open spec fn first_free_color(in_use: Seq<bool>) -> int
    decreases in_use.len(),
{
    if in_use.len() == 0 {
        0
    } else if !in_use[0] {
        0
    } else {
        1 + first_free_color(in_use.drop_first())
    }
}

/// How many colors are in use.
pub open spec fn colors_in_use(in_use: Seq<bool>) -> nat
    decreases in_use.len(),
{
    if in_use.len() == 0 {
        0
    } else {
        colors_in_use(in_use.drop_last()) + if in_use.last() {
            1nat
        } else {
            0nat
        }
    }
}

/// A color not in use with every color before it in use is the first free color.
proof fn lemma_first_free_color(in_use: Seq<bool>, i: int)
    requires
        0 <= i < in_use.len(),
        !in_use[i],
        forall|j: int| 0 <= j < i ==> in_use[j],
    ensures
        first_free_color(in_use) == i,
    decreases i,
{
    if i > 0 {
        assert(in_use[0]);
        assert forall|j: int| 0 <= j < i - 1 implies in_use.drop_first()[j] by {
            assert(in_use.drop_first()[j] == in_use[j + 1]);
        }
        lemma_first_free_color(in_use.drop_first(), i - 1);
    }
}

/// When some color is free, the first free color is free and every color before it is in use.
proof fn lemma_first_free_color_is_free(in_use: Seq<bool>)
    requires
        has_free_color_spec(in_use),
    ensures
        0 <= first_free_color(in_use) < in_use.len(),
        !in_use[first_free_color(in_use)],
        forall|j: int| 0 <= j < first_free_color(in_use) ==> in_use[j],
    decreases in_use.len(),
{
    if in_use[0] {
        let rest = in_use.drop_first();
        let k = choose|k: int| 0 <= k < in_use.len() && !in_use[k];
        assert(rest[k - 1] == in_use[k]);
        lemma_first_free_color_is_free(rest);
        assert forall|j: int| 0 <= j < first_free_color(in_use) implies in_use[j] by {
            if j > 0 {
                assert(in_use[j] == rest[j - 1]);
            }
        }
    }
}

/// Marking one color changes the count of colors in use by what it changes at that color.
proof fn lemma_colors_in_use_update(in_use: Seq<bool>, i: int, v: bool)
    requires
        0 <= i < in_use.len(),
    ensures
        colors_in_use(in_use.update(i, v)) + (if in_use[i] { 1int } else { 0int }) == colors_in_use(
            in_use,
        ) + (if v { 1int } else { 0int }),
    decreases in_use.len(),
{
    let updated = in_use.update(i, v);
    if i == in_use.len() - 1 {
        assert(updated.drop_last() =~= in_use.drop_last());
    } else {
        assert(updated.drop_last() =~= in_use.drop_last().update(i, v));
        lemma_colors_in_use_update(in_use.drop_last(), i, v);
    }
}

/// Fewer colors in use than colors means some color is free.
proof fn lemma_colors_in_use_free(in_use: Seq<bool>)
    requires
        colors_in_use(in_use) < in_use.len(),
    ensures
        has_free_color_spec(in_use),
    decreases in_use.len(),
{
    if !in_use.last() {
        assert(!in_use[in_use.len() - 1]);
    } else {
        lemma_colors_in_use_free(in_use.drop_last());
        let k = choose|k: int| 0 <= k < in_use.drop_last().len() && !in_use.drop_last()[k];
        assert(!in_use[k]);
    }
}

impl LobbyData {
    /// A palette of `num_colors` colors, none in use.
    pub fn new(num_colors: usize) -> (d: Self)
        ensures
            d@ == Seq::new(num_colors as nat, |i: int| false),
    {
        let mut player_colors: Vec<bool> = Vec::new();
        let mut i: usize = 0;
        while i < num_colors
            invariant
                i <= num_colors,
                player_colors@ == Seq::new(i as nat, |k: int| false),
            decreases num_colors - i,
        {
            player_colors.push(false);
            i = i + 1;
        }
        LobbyData { player_colors }
    }

    /// A copy of the colors in use.
    pub fn duplicate(&self) -> (d: Self)
        ensures
            d@ == self@,
    {
        let mut player_colors: Vec<bool> = Vec::new();
        let mut i: usize = 0;
        while i < self.player_colors.len()
            invariant
                i <= self@.len(),
                player_colors@ == self@.take(i as int),
            decreases self@.len() - i,
        {
            player_colors.push(self.player_colors[i]);
            i = i + 1;
            assert(player_colors@ =~= self@.take(i as int));
        }
        assert(self@.take(self@.len() as int) =~= self@);
        LobbyData { player_colors }
    }

    /// Whether some color is not in use.
    pub fn has_free_color(&self) -> (r: bool)
        ensures
            r == has_free_color_spec(self@),
    {
        let mut i: usize = 0;
        while i < self.player_colors.len()
            invariant
                i <= self@.len(),
                forall|k: int| 0 <= k < i ==> self@[k],
            decreases self@.len() - i,
        {
            if !self.player_colors[i] {
                return true;
            }
            i = i + 1;
        }
        false
    }

    /// Takes the first color not in use, and marks it in use.
    pub fn next_player_color(&mut self) -> (color: usize)
        requires
            has_free_color_spec(old(self)@),
        ensures
            color < old(self)@.len(),
            !old(self)@[color as int],
            forall|k: int| 0 <= k < color ==> old(self)@[k],
            color == first_free_color(old(self)@),
            final(self)@ == old(self)@.update(color as int, true),
    {
        let mut i: usize = 0;
        while i < self.player_colors.len()
            invariant
                i <= self@.len(),
                self@ == old(self)@,
                has_free_color_spec(self@),
                forall|k: int| 0 <= k < i ==> self@[k],
            decreases self@.len() - i,
        {
            if !self.player_colors[i] {
                proof {
                    lemma_first_free_color(self@, i as int);
                }
                self.player_colors[i] = true;
                return i;
            }
            i = i + 1;
        }
        proof {
            let k = choose|k: int| 0 <= k < self@.len() && !self@[k];
            assert(self@[k]);
        }
        0
    }

    /// Marks the color no longer in use.
    pub fn reinsert_player_color(&mut self, color: usize)
        requires
            color < old(self)@.len(),
        ensures
            final(self)@ == old(self)@.update(color as int, false),
    {
        self.player_colors[color] = false;
    }
}

/// A player in the lobby: its entity's bits, its device, its id, and its color.
#[derive(Debug, Clone, Copy)]
pub struct LobbyPlayer {
    pub entity: u64,
    pub input: Input,
    pub id: PlayerId,
    pub color: usize,
}

/// Something a player asked for in the lobby.
#[derive(Debug, Clone, Copy, PartialEq, Eq, Structural)]
pub enum LobbyEvent {
    /// The player with this device leaves.
    Leave(Input),
    /// A player with this device joins.
    Join(Input),
    /// The game starts.
    Start,
}

/// What the lobby asks to be done for an event.
#[derive(Debug, Clone, Copy)]
pub enum LobbyAction {
    /// Despawn the player entity with these bits.
    Despawn(u64),
    /// Spawn a player for this device with this color and id.
    Spawn { input: Input, color: usize, id: PlayerId },
    /// Move on to the game.
    StartGame,
    /// Nothing to do.
    Nothing,
}

/// The place of the first player with this device, if any.
pub open spec fn find_player(players: Seq<LobbyPlayer>, input: Input) -> Option<int>
    decreases players.len(),
{
    if players.len() == 0 {
        None
    } else if players[0].input == input {
        Some(0)
    } else {
        match find_player(players.drop_first(), input) {
            Some(k) => Some(k + 1),
            None => None,
        }
    }
}

proof fn lemma_find_player(players: Seq<LobbyPlayer>, input: Input)
    ensures
        find_player(players, input) matches Some(k) ==> {
            &&& 0 <= k < players.len()
            &&& players[k].input == input
            &&& forall|j: int| 0 <= j < k ==> players[j].input != input
        },
        find_player(players, input) is None ==> forall|j: int|
            0 <= j < players.len() ==> players[j].input != input,
    decreases players.len(),
{
    if players.len() > 0 {
        lemma_find_player(players.drop_first(), input);
        if players[0].input != input {
            assert forall|j: int| 1 <= j < players.len() implies players[j].input
                == players.drop_first()[j - 1].input by {}
        }
    }
}

/// Finds the first player with this device.
fn find_player_exec(players: &[LobbyPlayer], input: Input) -> (r: Option<usize>)
    ensures
        r matches Some(k) ==> find_player(players@, input) == Some(k as int) && k < players@.len(),
        r is None ==> find_player(players@, input) is None,
{
    proof {
        lemma_find_player(players@, input);
    }
    let mut i: usize = 0;
    while i < players.len()
        invariant
            i <= players@.len(),
            forall|j: int| 0 <= j < i ==> players@[j].input != input,
        decreases players@.len() - i,
    {
        if players[i].input == input {
            proof {
                lemma_find_player_first(players@, input, i as int);
            }
            return Some(i);
        }
        i = i + 1;
    }
    proof {
        lemma_find_player_none(players@, input);
    }
    None
}

proof fn lemma_find_player_first(players: Seq<LobbyPlayer>, input: Input, i: int)
    requires
        0 <= i < players.len(),
        players[i].input == input,
        forall|j: int| 0 <= j < i ==> players[j].input != input,
    ensures
        find_player(players, input) == Some(i),
    decreases players.len(),
{
    if i > 0 {
        assert(players[0].input != input);
        assert forall|j: int| 0 <= j < i - 1 implies players.drop_first()[j].input != input by {
            assert(players.drop_first()[j] == players[j + 1]);
        }
        lemma_find_player_first(players.drop_first(), input, i - 1);
    }
}

proof fn lemma_find_player_none(players: Seq<LobbyPlayer>, input: Input)
    requires
        forall|j: int| 0 <= j < players.len() ==> players[j].input != input,
    ensures
        find_player(players, input) is None,
    decreases players.len(),
{
    if players.len() > 0 {
        assert(players[0].input != input);
        assert forall|j: int| 0 <= j < players.len() - 1 implies players.drop_first()[j].input
            != input by {
            assert(players.drop_first()[j] == players[j + 1]);
        }
        lemma_find_player_none(players.drop_first(), input);
    }
}

/// The events of a frame's controller presses, in the order of the controllers: for each, a
/// leave on East and then a join on South.
pub open spec fn controller_events(controllers: Seq<(u64, bool, bool)>) -> Seq<LobbyEvent>
    decreases controllers.len(),
{
    if controllers.len() == 0 {
        Seq::empty()
    } else {
        let (entity, east, south) = controllers.last();
        controller_events(controllers.drop_last()) + (if east {
            seq![LobbyEvent::Leave(Input::Gamepad(entity))]
        } else {
            Seq::empty()
        }) + (if south {
            seq![LobbyEvent::Join(Input::Gamepad(entity))]
        } else {
            Seq::empty()
        })
    }
}

/// The events of a frame, in the order the lobby handles them: the keyboard's Escape (leave)
/// and Space (join), then the controllers, then Enter (start).
pub open spec fn lobby_events_spec(
    escape: bool,
    space: bool,
    enter: bool,
    controllers: Seq<(u64, bool, bool)>,
) -> Seq<LobbyEvent> {
    (if escape {
        seq![LobbyEvent::Leave(Input::Keyboard)]
    } else {
        Seq::empty()
    }) + (if space {
        seq![LobbyEvent::Join(Input::Keyboard)]
    } else {
        Seq::empty()
    }) + controller_events(controllers) + (if enter {
        seq![LobbyEvent::Start]
    } else {
        Seq::empty()
    })
}

/// What a frame's controller presses ask for: a controller's leave exactly when some press of
/// East came from it, its join exactly when some press of South did, and nothing for the keyboard
/// and no start.
proof fn lemma_controller_events_contents(controllers: Seq<(u64, bool, bool)>)
    ensures
        forall|e: u64|
            controller_events(controllers).contains(LobbyEvent::Leave(Input::Gamepad(e)))
                <==> exists|k: int|
                0 <= k < controllers.len() && #[trigger] controllers[k].0 == e && controllers[k].1,
        forall|e: u64|
            controller_events(controllers).contains(LobbyEvent::Join(Input::Gamepad(e)))
                <==> exists|k: int|
                0 <= k < controllers.len() && #[trigger] controllers[k].0 == e && controllers[k].2,
        !controller_events(controllers).contains(LobbyEvent::Leave(Input::Keyboard)),
        !controller_events(controllers).contains(LobbyEvent::Join(Input::Keyboard)),
        !controller_events(controllers).contains(LobbyEvent::Start),
    decreases controllers.len(),
{
    if controllers.len() > 0 {
        let init = controllers.drop_last();
        lemma_controller_events_contents(init);
        let (entity, east, south) = controllers.last();
        let a = controller_events(init);
        let b: Seq<LobbyEvent> = if east {
            seq![LobbyEvent::Leave(Input::Gamepad(entity))]
        } else {
            Seq::empty()
        };
        let c: Seq<LobbyEvent> = if south {
            seq![LobbyEvent::Join(Input::Gamepad(entity))]
        } else {
            Seq::empty()
        };
        let all = controller_events(controllers);
        assert(all == a + b + c);
        assert forall|ev: LobbyEvent| all.contains(ev) <==> (a.contains(ev) || b.contains(ev) || c.contains(ev)) by {
            if all.contains(ev) {
                let i = choose|i: int| 0 <= i < all.len() && all[i] == ev;
                if i < a.len() {
                    assert(a[i] == ev);
                } else if i < a.len() + b.len() {
                    assert(b[i - a.len()] == ev);
                } else {
                    assert(c[i - a.len() - b.len()] == ev);
                }
            }
            if a.contains(ev) {
                let i = choose|i: int| 0 <= i < a.len() && a[i] == ev;
                assert(all[i] == ev);
            }
            if b.contains(ev) {
                let i = choose|i: int| 0 <= i < b.len() && b[i] == ev;
                assert(all[a.len() + i] == ev);
            }
            if c.contains(ev) {
                let i = choose|i: int| 0 <= i < c.len() && c[i] == ev;
                assert(all[a.len() + b.len() + i] == ev);
            }
        }
        let n = controllers.len() - 1;
        assert(controllers[n] == (entity, east, south));
        assert forall|e: u64|
            all.contains(LobbyEvent::Leave(Input::Gamepad(e))) <==> exists|k: int|
                0 <= k < controllers.len() && #[trigger] controllers[k].0 == e && controllers[k].1 by {
            let ev = LobbyEvent::Leave(Input::Gamepad(e));
            if b.contains(ev) {
                assert(b[0] == ev);
                assert(controllers[n].0 == e && controllers[n].1);
            }
            if exists|k: int| 0 <= k < controllers.len() && #[trigger] controllers[k].0 == e && controllers[k].1 {
                let k = choose|k: int| 0 <= k < controllers.len() && #[trigger] controllers[k].0 == e && controllers[k].1;
                if k < n {
                    assert(init[k] == controllers[k]);
                    assert(a.contains(ev));
                } else {
                    assert(b[0] == ev);
                    assert(b.contains(ev));
                }
            }
            if a.contains(ev) {
                let k = choose|k: int| 0 <= k < init.len() && #[trigger] init[k].0 == e && init[k].1;
                assert(init[k] == controllers[k]);
            }
            if c.contains(ev) {
                assert(c[0] == LobbyEvent::Join(Input::Gamepad(entity)));
            }
        }
        assert forall|e: u64|
            all.contains(LobbyEvent::Join(Input::Gamepad(e))) <==> exists|k: int|
                0 <= k < controllers.len() && #[trigger] controllers[k].0 == e && controllers[k].2 by {
            let ev = LobbyEvent::Join(Input::Gamepad(e));
            if c.contains(ev) {
                assert(c[0] == ev);
                assert(controllers[n].0 == e && controllers[n].2);
            }
            if exists|k: int| 0 <= k < controllers.len() && #[trigger] controllers[k].0 == e && controllers[k].2 {
                let k = choose|k: int| 0 <= k < controllers.len() && #[trigger] controllers[k].0 == e && controllers[k].2;
                if k < n {
                    assert(init[k] == controllers[k]);
                    assert(a.contains(ev));
                } else {
                    assert(c[0] == ev);
                    assert(c.contains(ev));
                }
            }
            if a.contains(ev) {
                let k = choose|k: int| 0 <= k < init.len() && #[trigger] init[k].0 == e && init[k].2;
                assert(init[k] == controllers[k]);
            }
            if b.contains(ev) {
                assert(b[0] == LobbyEvent::Leave(Input::Gamepad(entity)));
            }
        }
        if b.contains(LobbyEvent::Leave(Input::Keyboard)) || b.contains(LobbyEvent::Join(Input::Keyboard)) || b.contains(LobbyEvent::Start) {
            assert(b[0] == LobbyEvent::Leave(Input::Gamepad(entity)));
        }
        if c.contains(LobbyEvent::Leave(Input::Keyboard)) || c.contains(LobbyEvent::Join(Input::Keyboard)) || c.contains(LobbyEvent::Start) {
            assert(c[0] == LobbyEvent::Join(Input::Gamepad(entity)));
        }
    } else {
        assert(controller_events(controllers) =~= Seq::<LobbyEvent>::empty());
    }
}

/// What a frame's events ask for, press by press: the keyboard player leaves exactly when Escape
/// was pressed and joins exactly when Space was, whatever else was pressed; the game starts
/// exactly when Enter was pressed, and that comes last; a controller leaves exactly when its
/// East was pressed and joins exactly when its South was. With Escape the keyboard's leave comes
/// first, and Escape alone asks for that leave and nothing else.
pub proof fn lemma_frame_events(
    escape: bool,
    space: bool,
    enter: bool,
    controllers: Seq<(u64, bool, bool)>,
)
    ensures
        lobby_events_spec(escape, space, enter, controllers).contains(
            LobbyEvent::Leave(Input::Keyboard),
        ) <==> escape,
        lobby_events_spec(escape, space, enter, controllers).contains(
            LobbyEvent::Join(Input::Keyboard),
        ) <==> space,
        lobby_events_spec(escape, space, enter, controllers).contains(LobbyEvent::Start) <==> enter,
        forall|e: u64|
            lobby_events_spec(escape, space, enter, controllers).contains(
                LobbyEvent::Leave(Input::Gamepad(e)),
            ) <==> exists|k: int|
                0 <= k < controllers.len() && #[trigger] controllers[k].0 == e && controllers[k].1,
        forall|e: u64|
            lobby_events_spec(escape, space, enter, controllers).contains(
                LobbyEvent::Join(Input::Gamepad(e)),
            ) <==> exists|k: int|
                0 <= k < controllers.len() && #[trigger] controllers[k].0 == e && controllers[k].2,
        escape ==> lobby_events_spec(escape, space, enter, controllers)[0] == LobbyEvent::Leave(
            Input::Keyboard,
        ),
        enter ==> lobby_events_spec(escape, space, enter, controllers).last() == LobbyEvent::Start,
        !space && !enter && controllers.len() == 0 ==> lobby_events_spec(
            escape,
            space,
            enter,
            controllers,
        ).len() == (if escape { 1int } else { 0int }),
{
    lemma_controller_events_contents(controllers);
    let a: Seq<LobbyEvent> = if escape {
        seq![LobbyEvent::Leave(Input::Keyboard)]
    } else {
        Seq::empty()
    };
    let b: Seq<LobbyEvent> = if space {
        seq![LobbyEvent::Join(Input::Keyboard)]
    } else {
        Seq::empty()
    };
    let c = controller_events(controllers);
    let d: Seq<LobbyEvent> = if enter {
        seq![LobbyEvent::Start]
    } else {
        Seq::empty()
    };
    let all = lobby_events_spec(escape, space, enter, controllers);
    assert(all == a + b + c + d);
    assert forall|ev: LobbyEvent|
        all.contains(ev) <==> (a.contains(ev) || b.contains(ev) || c.contains(ev) || d.contains(ev)) by {
        if all.contains(ev) {
            let i = choose|i: int| 0 <= i < all.len() && all[i] == ev;
            if i < a.len() {
                assert(a[i] == ev);
            } else if i < a.len() + b.len() {
                assert(b[i - a.len()] == ev);
            } else if i < a.len() + b.len() + c.len() {
                assert(c[i - a.len() - b.len()] == ev);
            } else {
                assert(d[i - a.len() - b.len() - c.len()] == ev);
            }
        }
        if a.contains(ev) {
            let i = choose|i: int| 0 <= i < a.len() && a[i] == ev;
            assert(all[i] == ev);
        }
        if b.contains(ev) {
            let i = choose|i: int| 0 <= i < b.len() && b[i] == ev;
            assert(all[a.len() + i] == ev);
        }
        if c.contains(ev) {
            let i = choose|i: int| 0 <= i < c.len() && c[i] == ev;
            assert(all[a.len() + b.len() + i] == ev);
        }
        if d.contains(ev) {
            let i = choose|i: int| 0 <= i < d.len() && d[i] == ev;
            assert(all[a.len() + b.len() + c.len() + i] == ev);
        }
    }
    let lk = LobbyEvent::Leave(Input::Keyboard);
    let jk = LobbyEvent::Join(Input::Keyboard);
    let st = LobbyEvent::Start;
    if escape {
        assert(a[0] == lk);
        assert(a.contains(lk));
        assert(all[0] == lk);
    }
    if space {
        assert(b[0] == jk);
        assert(b.contains(jk));
    }
    if enter {
        assert(d[0] == st);
        assert(d.contains(st));
        assert(all.last() == st);
    }
    if a.contains(jk) || a.contains(st) {
        assert(a[0] == lk);
    }
    if b.contains(lk) || b.contains(st) {
        assert(b[0] == jk);
    }
    if d.contains(lk) || d.contains(jk) {
        assert(d[0] == st);
    }
    assert forall|e: u64| !a.contains(LobbyEvent::Leave(Input::Gamepad(e))) && !a.contains(
        LobbyEvent::Join(Input::Gamepad(e)),
    ) && !b.contains(LobbyEvent::Leave(Input::Gamepad(e))) && !b.contains(
        LobbyEvent::Join(Input::Gamepad(e)),
    ) && !d.contains(LobbyEvent::Leave(Input::Gamepad(e))) && !d.contains(
        LobbyEvent::Join(Input::Gamepad(e)),
    ) by {
        if a.len() > 0 {
            assert(a[0] == lk);
        }
        if b.len() > 0 {
            assert(b[0] == jk);
        }
        if d.len() > 0 {
            assert(d[0] == st);
        }
    }
    if controllers.len() == 0 {
        assert(c =~= Seq::<LobbyEvent>::empty());
    }
}

/// Turns a frame's presses into lobby events. Each controller is its entity's bits, whether
/// East was just pressed, and whether South was just pressed.
pub fn lobby_events(escape: bool, space: bool, enter: bool, controllers: &[(u64, bool, bool)]) -> (events:
    Vec<LobbyEvent>)
    ensures
        events@ == lobby_events_spec(escape, space, enter, controllers@),
{
    let mut events: Vec<LobbyEvent> = Vec::new();
    if escape {
        events.push(LobbyEvent::Leave(Input::Keyboard));
    }
    if space {
        events.push(LobbyEvent::Join(Input::Keyboard));
    }
    let ghost keyboard = events@;
    let mut i: usize = 0;
    while i < controllers.len()
        invariant
            i <= controllers@.len(),
            events@ == keyboard + controller_events(controllers@.take(i as int)),
        decreases controllers@.len() - i,
    {
        let (entity, east, south) = controllers[i];
        let ghost before = events@;
        if east {
            events.push(LobbyEvent::Leave(Input::Gamepad(entity)));
        }
        if south {
            events.push(LobbyEvent::Join(Input::Gamepad(entity)));
        }
        proof {
            let prefix = controllers@.take(i + 1);
            assert(prefix.drop_last() =~= controllers@.take(i as int));
            assert(prefix.last() == controllers@[i as int]);
            assert(events@ =~= keyboard + controller_events(prefix));
        }
        i = i + 1;
    }
    assert(controllers@.take(controllers@.len() as int) =~= controllers@);
    if enter {
        events.push(LobbyEvent::Start);
    }
    assert(events@ =~= lobby_events_spec(escape, space, enter, controllers@));
    events
}

/// What handling `event` needs to hold so that it cannot fail: a leaving player's id and color
/// can be handed back, and a joining player can get a color and an id.
pub open spec fn lobby_event_ok(
    gen: PlayerIdGen,
    lobby: LobbyData,
    players: Seq<LobbyPlayer>,
    event: LobbyEvent,
) -> bool {
    match event {
        LobbyEvent::Leave(input) => find_player(players, input) matches Some(k) ==> {
            &&& !gen@.free.contains(players[k].id@)
            &&& players[k].color < lobby@.len()
        },
        LobbyEvent::Join(input) => find_player(players, input) is None ==> {
            &&& has_free_color_spec(lobby@)
            &&& next_spec(gen@).1 is Some
        },
        LobbyEvent::Start => true,
    }
}

/// Whether `update_lobby` can handle `event`: a leaving player's id and color can be handed
/// back, and a joining player can get a color and an id.
pub fn can_handle_lobby_event(
    player_id_gen: &PlayerIdGen,
    lobby_data: &LobbyData,
    players: &[LobbyPlayer],
    event: LobbyEvent,
) -> (r: bool)
    ensures
        r == lobby_event_ok(*player_id_gen, *lobby_data, players@, event),
{
    match event {
        LobbyEvent::Leave(input) => match find_player_exec(players, input) {
            Some(k) => !player_id_gen.has_free_id(players[k].id) && players[k].color
                < lobby_data.player_colors.len(),
            None => true,
        },
        LobbyEvent::Join(input) => match find_player_exec(players, input) {
            Some(_) => true,
            None => lobby_data.has_free_color() && player_id_gen.can_issue(),
        },
        LobbyEvent::Start => true,
    }
}

/// Adds or removes a player in response to one event. `players` are the players as they were at
/// the start of the frame.
///
/// A leave despawns the first player with that device and hands back its id and color; a join
/// of a device that has no player takes the first free color and the next id and spawns a
/// player; a start moves on to the game.
pub fn update_lobby(
    player_id_gen: &mut PlayerIdGen,
    lobby_data: &mut LobbyData,
    players: &[LobbyPlayer],
    event: LobbyEvent,
) -> (action: LobbyAction)
    requires
        old(player_id_gen).wf(),
        lobby_event_ok(*old(player_id_gen), *old(lobby_data), players@, event),
    ensures
        final(player_id_gen).wf(),
        match event {
            LobbyEvent::Leave(input) => match find_player(players@, input) {
                Some(k) => {
                    &&& action == LobbyAction::Despawn(players@[k].entity)
                    &&& final(player_id_gen)@ == reinsert_spec(old(player_id_gen)@, players@[k].id@)
                    &&& final(lobby_data)@ == old(lobby_data)@.update(players@[k].color as int, false)
                },
                None => {
                    &&& action is Nothing
                    &&& final(player_id_gen)@ == old(player_id_gen)@
                    &&& final(lobby_data)@ == old(lobby_data)@
                },
            },
            LobbyEvent::Join(input) => match find_player(players@, input) {
                Some(k) => {
                    &&& action is Nothing
                    &&& final(player_id_gen)@ == old(player_id_gen)@
                    &&& final(lobby_data)@ == old(lobby_data)@
                },
                None => action matches LobbyAction::Spawn { input: spawned, color, id } && {
                    &&& spawned == input
                    &&& color < old(lobby_data)@.len()
                    &&& !old(lobby_data)@[color as int]
                    &&& (forall|j: int| 0 <= j < color ==> old(lobby_data)@[j])
                    &&& color == first_free_color(old(lobby_data)@)
                    &&& final(lobby_data)@ == old(lobby_data)@.update(color as int, true)
                    &&& (final(player_id_gen)@, Some(id@)) == next_spec(old(player_id_gen)@)
                },
            },
            LobbyEvent::Start => {
                &&& action is StartGame
                &&& final(player_id_gen)@ == old(player_id_gen)@
                &&& final(lobby_data)@ == old(lobby_data)@
            },
        },
{
    match event {
        LobbyEvent::Leave(input) => {
            match find_player_exec(players, input) {
                Some(k) => {
                    let player = players[k];
                    player_id_gen.reinsert(player.id);
                    lobby_data.reinsert_player_color(player.color);
                    LobbyAction::Despawn(player.entity)
                },
                None => LobbyAction::Nothing,
            }
        },
        LobbyEvent::Join(input) => {
            match find_player_exec(players, input) {
                Some(_) => LobbyAction::Nothing,
                None => {
                    let color = lobby_data.next_player_color();
                    let id = player_id_gen.next().expect("Too many players");
                    LobbyAction::Spawn { input, color, id }
                },
            }
        },
        LobbyEvent::Start => LobbyAction::StartGame,
    }
}


/// A player of the lobby as the rules see it: its device, its id and its color.
pub open spec fn record(p: LobbyPlayer) -> (Input, u8, usize) {
    (p.input, p.id@, p.color)
}

/// The lobby as the rules see it over a frame: the id generator, the colors in use, and the
/// players there are now.
pub struct LobbyState {
    pub ids: IdGenView,
    pub colors: Seq<bool>,
    pub players: Set<(Input, u8, usize)>,
}

/// What handling `event` against the frame's `snapshot` does to the lobby: what
/// `update_lobby` does to the id generator and the colors, and the player it removes or adds.
pub open spec fn lobby_step(s: LobbyState, snapshot: Seq<LobbyPlayer>, event: LobbyEvent) -> LobbyState {
    match event {
        LobbyEvent::Leave(input) => match find_player(snapshot, input) {
            Some(k) => LobbyState {
                ids: reinsert_spec(s.ids, snapshot[k].id@),
                colors: s.colors.update(snapshot[k].color as int, false),
                players: s.players.remove(record(snapshot[k])),
            },
            None => s,
        },
        LobbyEvent::Join(input) => match find_player(snapshot, input) {
            Some(_) => s,
            None => LobbyState {
                ids: next_spec(s.ids).0,
                colors: s.colors.update(first_free_color(s.colors), true),
                players: s.players.insert(
                    (input, next_spec(s.ids).1.unwrap(), first_free_color(s.colors) as usize),
                ),
            },
        },
        LobbyEvent::Start => s,
    }
}

/// What handling `event` needs so that it cannot fail (as `lobby_event_ok`), over views.
pub open spec fn lobby_step_ok(s: LobbyState, snapshot: Seq<LobbyPlayer>, event: LobbyEvent) -> bool {
    match event {
        LobbyEvent::Leave(input) => find_player(snapshot, input) matches Some(k) ==> {
            &&& !s.ids.free.contains(snapshot[k].id@)
            &&& snapshot[k].color < s.colors.len()
        },
        LobbyEvent::Join(input) => find_player(snapshot, input) is None ==> {
            &&& has_free_color_spec(s.colors)
            &&& next_spec(s.ids).1 is Some
        },
        LobbyEvent::Start => true,
    }
}

/// The lobby after a frame's events, handled in order.
pub open spec fn lobby_frame(s: LobbyState, snapshot: Seq<LobbyPlayer>, events: Seq<LobbyEvent>) -> LobbyState
    decreases events.len(),
{
    if events.len() == 0 {
        s
    } else {
        lobby_frame(lobby_step(s, snapshot, events[0]), snapshot, events.drop_first())
    }
}

/// Every event of the frame can be handled when its turn comes.
pub open spec fn lobby_frame_ok(s: LobbyState, snapshot: Seq<LobbyPlayer>, events: Seq<LobbyEvent>) -> bool
    decreases events.len(),
{
    events.len() == 0 || (lobby_step_ok(s, snapshot, events[0]) && lobby_frame_ok(
        lobby_step(s, snapshot, events[0]),
        snapshot,
        events.drop_first(),
    ))
}

/// How many joins a frame holds.
pub open spec fn joins(events: Seq<LobbyEvent>) -> nat
    decreases events.len(),
{
    if events.len() == 0 {
        0
    } else {
        (if events[0] is Join { 1nat } else { 0nat }) + joins(events.drop_first())
    }
}

/// No device leaves twice or joins twice in the frame.
pub open spec fn once_per_device(events: Seq<LobbyEvent>) -> bool {
    forall|i: int, j: int|
        0 <= i < events.len() && 0 <= j < events.len() && i != j && events[i] == events[j]
            ==> events[i] is Start
}

/// The lobby is consistent: the players have distinct devices, ids and colors; the ids out are
/// exactly the players' ids and the colors in use exactly the players' colors.
pub open spec fn lobby_inv(s: LobbyState) -> bool {
    &&& id_gen_wf(s.ids)
    &&& id_gen_bounded(s.ids)
    &&& s.players.finite()
    &&& issued(s.ids).finite()
    &&& issued(s.ids).len() == s.players.len()
    &&& colors_in_use(s.colors) == s.players.len()
    &&& forall|r: (Input, u8, usize)|
        #[trigger] s.players.contains(r) ==> {
            &&& issued(s.ids).contains(r.1)
            &&& r.2 < s.colors.len()
            &&& s.colors[r.2 as int]
        }
    &&& forall|r1: (Input, u8, usize), r2: (Input, u8, usize)|
        #[trigger] s.players.contains(r1) && #[trigger] s.players.contains(r2) && r1 != r2 ==> {
            &&& r1.0 != r2.0
            &&& r1.1 != r2.1
            &&& r1.2 != r2.2
        }
    &&& forall|c: int|
        0 <= c < s.colors.len() && #[trigger] s.colors[c] ==> exists|r: (Input, u8, usize)|
            #[trigger] s.players.contains(r) && r.2 == c
    &&& forall|x: u8|
        #[trigger] issued(s.ids).contains(x) ==> exists|r: (Input, u8, usize)|
            #[trigger] s.players.contains(r) && r.1 == x
}

/// One step of a frame keeps the lobby consistent, can be handled, and keeps what the rest of
/// the frame needs.
proof fn lemma_lobby_frame_steps(s: LobbyState, snapshot: Seq<LobbyPlayer>, events: Seq<LobbyEvent>)
    requires
        lobby_inv(s),
        once_per_device(events),
        s.players.len() + joins(events) <= s.colors.len(),
        s.colors.len() <= 255,
        forall|idx: int|
            0 <= idx < events.len() && (#[trigger] events[idx] matches LobbyEvent::Leave(i)
                && find_player(snapshot, i) matches Some(k)) ==> s.players.contains(
                record(snapshot[find_player(snapshot, events[idx]->Leave_0).unwrap()]),
            ),
        forall|idx: int, r: (Input, u8, usize)|
            0 <= idx < events.len() && (#[trigger] events[idx] matches LobbyEvent::Join(i)
                && find_player(snapshot, i) is None) && #[trigger] s.players.contains(r) ==> r.0
                != events[idx]->Join_0,
    ensures
        lobby_frame_ok(s, snapshot, events),
        lobby_inv(lobby_frame(s, snapshot, events)),
    decreases events.len(),
{
    if events.len() == 0 {
        return;
    }
    let e = events[0];
    let rest = events.drop_first();
    let t = lobby_step(s, snapshot, e);
    assert forall|i: int, j: int|
        0 <= i < rest.len() && 0 <= j < rest.len() && i != j && rest[i] == rest[j] implies rest[i] is Start by {
        assert(rest[i] == events[i + 1] && rest[j] == events[j + 1]);
    }
    match e {
        LobbyEvent::Leave(input) => {
            lemma_find_player(snapshot, input);
            match find_player(snapshot, input) {
                Some(k) => {
                    let rec = record(snapshot[k]);
                    assert(s.players.contains(rec));
                    let id = rec.1;
                    assert(issued(s.ids).contains(id));
                    lemma_reinsert_returns_id(s.ids, id);
                    lemma_colors_in_use_update(s.colors, rec.2 as int, false);
                    assert(lobby_inv(t)) by {
                        assert forall|c: int|
                            0 <= c < t.colors.len() && #[trigger] t.colors[c] implies exists|r: (Input, u8, usize)|
                            #[trigger] t.players.contains(r) && r.2 == c by {
                            assert(s.colors[c]);
                            let r = choose|r: (Input, u8, usize)| #[trigger] s.players.contains(r) && r.2 == c;
                            assert(t.players.contains(r));
                        }
                        assert forall|x: u8| #[trigger] issued(t.ids).contains(x) implies exists|r: (Input, u8, usize)|
                            #[trigger] t.players.contains(r) && r.1 == x by {
                            assert(issued(s.ids).contains(x));
                            let r = choose|r: (Input, u8, usize)| #[trigger] s.players.contains(r) && r.1 == x;
                            assert(t.players.contains(r));
                        }
                    }
                    assert forall|idx: int|
                        0 <= idx < rest.len() && (#[trigger] rest[idx] matches LobbyEvent::Leave(i)
                            && find_player(snapshot, i) matches Some(k2)) implies t.players.contains(
                            record(snapshot[find_player(snapshot, rest[idx]->Leave_0).unwrap()]),
                        ) by {
                        assert(rest[idx] == events[idx + 1]);
                        let j = rest[idx]->Leave_0;
                        lemma_find_player(snapshot, j);
                        assert(j != input);
                    }
                    assert forall|idx: int, r: (Input, u8, usize)|
                        0 <= idx < rest.len() && (#[trigger] rest[idx] matches LobbyEvent::Join(i)
                            && find_player(snapshot, i) is None) && #[trigger] t.players.contains(r) implies r.0
                            != rest[idx]->Join_0 by {
                        assert(rest[idx] == events[idx + 1]);
                    }
                    lemma_lobby_frame_steps(t, snapshot, rest);
                },
                None => {
                    lemma_lobby_frame_steps_same(s, snapshot, events);
                },
            }
        },
        LobbyEvent::Join(input) => {
            lemma_find_player(snapshot, input);
            match find_player(snapshot, input) {
                Some(k) => {
                    lemma_lobby_frame_steps_same(s, snapshot, events);
                },
                None => {
                    lemma_colors_in_use_free(s.colors);
                    lemma_first_free_color_is_free(s.colors);
                    lemma_next_hands_out_unused_id(s.ids);
                    let c = first_free_color(s.colors);
                    let id = next_spec(s.ids).1.unwrap();
                    let rec = (input, id, c as usize);
                    assert(!s.players.contains(rec));
                    lemma_colors_in_use_update(s.colors, c, true);
                    assert(lobby_inv(t)) by {
                        assert forall|r: (Input, u8, usize)| #[trigger] t.players.contains(r) implies {
                            &&& issued(t.ids).contains(r.1)
                            &&& r.2 < t.colors.len()
                            &&& t.colors[r.2 as int]
                        } by {
                            if r != rec {
                                assert(s.players.contains(r));
                                assert(r.2 != c);
                            }
                        }
                        assert forall|r1: (Input, u8, usize), r2: (Input, u8, usize)|
                            #[trigger] t.players.contains(r1) && #[trigger] t.players.contains(r2) && r1 != r2 implies {
                            &&& r1.0 != r2.0
                            &&& r1.1 != r2.1
                            &&& r1.2 != r2.2
                        } by {
                            if r1 == rec {
                                assert(s.players.contains(r2));
                                assert(r2.0 != events[0]->Join_0);
                            } else if r2 == rec {
                                assert(s.players.contains(r1));
                                assert(r1.0 != events[0]->Join_0);
                            }
                        }
                        assert forall|cc: int|
                            0 <= cc < t.colors.len() && #[trigger] t.colors[cc] implies exists|r: (Input, u8, usize)|
                            #[trigger] t.players.contains(r) && r.2 == cc by {
                            if cc == c {
                                assert(t.players.contains(rec));
                            } else {
                                assert(s.colors[cc]);
                                let r = choose|r: (Input, u8, usize)| #[trigger] s.players.contains(r) && r.2 == cc;
                                assert(t.players.contains(r));
                            }
                        }
                        assert forall|x: u8| #[trigger] issued(t.ids).contains(x) implies exists|r: (Input, u8, usize)|
                            #[trigger] t.players.contains(r) && r.1 == x by {
                            if x == id {
                                assert(t.players.contains(rec));
                            } else {
                                assert(issued(s.ids).contains(x));
                                let r = choose|r: (Input, u8, usize)| #[trigger] s.players.contains(r) && r.1 == x;
                                assert(t.players.contains(r));
                            }
                        }
                    }
                    assert forall|idx: int|
                        0 <= idx < rest.len() && (#[trigger] rest[idx] matches LobbyEvent::Leave(i)
                            && find_player(snapshot, i) matches Some(k2)) implies t.players.contains(
                            record(snapshot[find_player(snapshot, rest[idx]->Leave_0).unwrap()]),
                        ) by {
                        assert(rest[idx] == events[idx + 1]);
                    }
                    assert forall|idx: int, r: (Input, u8, usize)|
                        0 <= idx < rest.len() && (#[trigger] rest[idx] matches LobbyEvent::Join(i)
                            && find_player(snapshot, i) is None) && #[trigger] t.players.contains(r) implies r.0
                            != rest[idx]->Join_0 by {
                        assert(rest[idx] == events[idx + 1]);
                        if r == rec {
                            assert(rest[idx] != events[0]);
                        }
                    }
                    lemma_lobby_frame_steps(t, snapshot, rest);
                },
            }
        },
        LobbyEvent::Start => {
            lemma_lobby_frame_steps_same(s, snapshot, events);
        },
    }
}

/// A step that leaves the lobby as it is keeps what the rest of the frame needs.
proof fn lemma_lobby_frame_steps_same(s: LobbyState, snapshot: Seq<LobbyPlayer>, events: Seq<LobbyEvent>)
    requires
        events.len() > 0,
        lobby_step(s, snapshot, events[0]) == s,
        lobby_step_ok(s, snapshot, events[0]),
        lobby_inv(s),
        once_per_device(events),
        s.players.len() + joins(events) <= s.colors.len(),
        s.colors.len() <= 255,
        forall|idx: int|
            0 <= idx < events.len() && (#[trigger] events[idx] matches LobbyEvent::Leave(i)
                && find_player(snapshot, i) matches Some(k)) ==> s.players.contains(
                record(snapshot[find_player(snapshot, events[idx]->Leave_0).unwrap()]),
            ),
        forall|idx: int, r: (Input, u8, usize)|
            0 <= idx < events.len() && (#[trigger] events[idx] matches LobbyEvent::Join(i)
                && find_player(snapshot, i) is None) && #[trigger] s.players.contains(r) ==> r.0
                != events[idx]->Join_0,
    ensures
        lobby_frame_ok(s, snapshot, events),
        lobby_inv(lobby_frame(s, snapshot, events)),
    decreases events.len(), 0nat,
{
    let rest = events.drop_first();
    assert forall|i: int, j: int|
        0 <= i < rest.len() && 0 <= j < rest.len() && i != j && rest[i] == rest[j] implies rest[i] is Start by {
        assert(rest[i] == events[i + 1] && rest[j] == events[j + 1]);
    }
    assert forall|idx: int|
        0 <= idx < rest.len() && (#[trigger] rest[idx] matches LobbyEvent::Leave(i)
            && find_player(snapshot, i) matches Some(k2)) implies s.players.contains(
            record(snapshot[find_player(snapshot, rest[idx]->Leave_0).unwrap()]),
        ) by {
        assert(rest[idx] == events[idx + 1]);
    }
    assert forall|idx: int, r: (Input, u8, usize)|
        0 <= idx < rest.len() && (#[trigger] rest[idx] matches LobbyEvent::Join(i)
            && find_player(snapshot, i) is None) && #[trigger] s.players.contains(r) implies r.0
            != rest[idx]->Join_0 by {
        assert(rest[idx] == events[idx + 1]);
    }
    lemma_lobby_frame_steps(s, snapshot, rest);
}

/// Over a frame, the lobby stays consistent and every event can be handled: the players keep
/// distinct devices, ids and colors, the ids out are exactly the players' ids and the colors in
/// use exactly the players' colors. This holds when the lobby holds exactly the frame's
/// snapshot of players, no device leaves or joins twice in the frame, and there are enough
/// colors (at most 255) for every join.
pub proof fn lemma_lobby_frame_keeps_invariant(
    s: LobbyState,
    snapshot: Seq<LobbyPlayer>,
    events: Seq<LobbyEvent>,
)
    requires
        lobby_inv(s),
        s.players == snapshot_records(snapshot),
        once_per_device(events),
        s.players.len() + joins(events) <= s.colors.len(),
        s.colors.len() <= 255,
    ensures
        lobby_frame_ok(s, snapshot, events),
        lobby_inv(lobby_frame(s, snapshot, events)),
{
    assert forall|idx: int|
        0 <= idx < events.len() && (#[trigger] events[idx] matches LobbyEvent::Leave(i)
            && find_player(snapshot, i) matches Some(k)) implies s.players.contains(
            record(snapshot[find_player(snapshot, events[idx]->Leave_0).unwrap()]),
        ) by {
        let i = events[idx]->Leave_0;
        lemma_find_player(snapshot, i);
        let k = find_player(snapshot, i).unwrap();
        assert(snapshot_records(snapshot).contains(record(snapshot[k])));
    }
    assert forall|idx: int, r: (Input, u8, usize)|
        0 <= idx < events.len() && (#[trigger] events[idx] matches LobbyEvent::Join(i)
            && find_player(snapshot, i) is None) && #[trigger] s.players.contains(r) implies r.0
            != events[idx]->Join_0 by {
        let i = events[idx]->Join_0;
        lemma_find_player(snapshot, i);
        assert(snapshot_records(snapshot).contains(r));
        let k = choose|k: int| 0 <= k < snapshot.len() && record(snapshot[k]) == r;
    }
    lemma_lobby_frame_steps(s, snapshot, events);
}

/// The players of a frame's snapshot, as the rules see them.
pub open spec fn snapshot_records(snapshot: Seq<LobbyPlayer>) -> Set<(Input, u8, usize)> {
    Set::new(|r: (Input, u8, usize)| exists|k: int| 0 <= k < snapshot.len() && record(snapshot[k]) == r)
}

/// What `update_lobby` hands back for `event` when the lobby is in `s`.
pub open spec fn lobby_action_spec(
    action: LobbyAction,
    s: LobbyState,
    snapshot: Seq<LobbyPlayer>,
    event: LobbyEvent,
) -> bool {
    match event {
        LobbyEvent::Leave(input) => match find_player(snapshot, input) {
            Some(k) => action == LobbyAction::Despawn(snapshot[k].entity),
            None => action is Nothing,
        },
        LobbyEvent::Join(input) => match find_player(snapshot, input) {
            Some(_) => action is Nothing,
            None => action matches LobbyAction::Spawn { input: spawned, color, id } && {
                &&& spawned == input
                &&& color == first_free_color(s.colors)
                &&& Some(id@) == next_spec(s.ids).1
            },
        },
        LobbyEvent::Start => action is StartGame,
    }
}

/// A frame is handled event by event: over the first `i` events, then over the rest.
proof fn lemma_lobby_frame_split(s: LobbyState, snapshot: Seq<LobbyPlayer>, events: Seq<LobbyEvent>, i: int)
    requires
        0 <= i <= events.len(),
    ensures
        lobby_frame(s, snapshot, events) == lobby_frame(
            lobby_frame(s, snapshot, events.take(i)),
            snapshot,
            events.skip(i),
        ),
        lobby_frame_ok(s, snapshot, events) == (lobby_frame_ok(s, snapshot, events.take(i))
            && lobby_frame_ok(lobby_frame(s, snapshot, events.take(i)), snapshot, events.skip(i))),
    decreases i,
{
    if i == 0 {
        assert(events.take(0).len() == 0);
        assert(events.skip(0) =~= events);
    } else {
        let t = lobby_step(s, snapshot, events[0]);
        lemma_lobby_frame_split(t, snapshot, events.drop_first(), i - 1);
        assert(events.take(i).drop_first() =~= events.drop_first().take(i - 1));
        assert(events.drop_first().skip(i - 1) =~= events.skip(i));
        assert(events.take(i)[0] == events[0]);
    }
}

/// The last step of a frame's first `i + 1` events.
proof fn lemma_lobby_frame_last(s: LobbyState, snapshot: Seq<LobbyPlayer>, events: Seq<LobbyEvent>, i: int)
    requires
        0 <= i < events.len(),
    ensures
        lobby_frame(s, snapshot, events.take(i + 1)) == lobby_step(
            lobby_frame(s, snapshot, events.take(i)),
            snapshot,
            events[i],
        ),
        lobby_frame_ok(s, snapshot, events.take(i + 1)) == (lobby_frame_ok(
            s,
            snapshot,
            events.take(i),
        ) && lobby_step_ok(lobby_frame(s, snapshot, events.take(i)), snapshot, events[i])),
{
    let longer = events.take(i + 1);
    lemma_lobby_frame_split(s, snapshot, longer, i);
    assert(longer.take(i) =~= events.take(i));
    let last = longer.skip(i);
    assert(last.len() == 1 && last[0] == events[i]);
    let mid = lobby_frame(s, snapshot, events.take(i));
    assert(last.drop_first().len() == 0);
    assert(lobby_frame(lobby_step(mid, snapshot, events[i]), snapshot, last.drop_first()) == lobby_step(mid, snapshot, events[i]));
    assert(lobby_frame_ok(lobby_step(mid, snapshot, events[i]), snapshot, last.drop_first()));
}

/// Whether `update_lobby_frame` can handle the frame's events: each event can be handled when
/// its turn comes.
pub fn can_handle_lobby_frame(
    player_id_gen: &PlayerIdGen,
    lobby_data: &LobbyData,
    players: &[LobbyPlayer],
    events: &[LobbyEvent],
) -> (r: bool)
    requires
        player_id_gen.wf(),
    ensures
        r == lobby_frame_ok(
            LobbyState {
                ids: player_id_gen@,
                colors: lobby_data@,
                players: snapshot_records(players@),
            },
            players@,
            events@,
        ),
{
    let mut gen = player_id_gen.duplicate();
    let mut lobby = lobby_data.duplicate();
    let ghost start = LobbyState {
        ids: player_id_gen@,
        colors: lobby_data@,
        players: snapshot_records(players@),
    };
    let mut i: usize = 0;
    while i < events.len()
        invariant
            i <= events@.len(),
            start == (LobbyState {
                ids: player_id_gen@,
                colors: lobby_data@,
                players: snapshot_records(players@),
            }),
            gen.wf(),
            gen@ == lobby_frame(start, players@, events@.take(i as int)).ids,
            lobby@ == lobby_frame(start, players@, events@.take(i as int)).colors,
            lobby_frame_ok(start, players@, events@.take(i as int)),
        decreases events@.len() - i,
    {
        let ghost cur = lobby_frame(start, players@, events@.take(i as int));
        proof {
            lemma_lobby_frame_last(start, players@, events@, i as int);
        }
        if !can_handle_lobby_event(&gen, &lobby, players, events[i]) {
            proof {
                assert(cur.ids == gen@ && cur.colors == lobby@);
                assert(!lobby_step_ok(cur, players@, events@[i as int]));
                lemma_lobby_frame_split(start, players@, events@, i + 1);
                assert(!lobby_frame_ok(start, players@, events@.take(i + 1)));
            }
            return false;
        }
        update_lobby(&mut gen, &mut lobby, players, events[i]);
        i = i + 1;
    }
    assert(events@.take(events@.len() as int) =~= events@);
    true
}

/// Adds or removes players in response to a frame's events, in order (see `update_lobby`),
/// with `players` the players as they were at the start of the frame. Returns the actions, one
/// for each event.
pub fn update_lobby_frame(
    player_id_gen: &mut PlayerIdGen,
    lobby_data: &mut LobbyData,
    players: &[LobbyPlayer],
    events: &[LobbyEvent],
) -> (actions: Vec<LobbyAction>)
    requires
        old(player_id_gen).wf(),
        lobby_frame_ok(
            LobbyState {
                ids: old(player_id_gen)@,
                colors: old(lobby_data)@,
                players: snapshot_records(players@),
            },
            players@,
            events@,
        ),
    ensures
        final(player_id_gen).wf(),
        ({
            let start = LobbyState {
                ids: old(player_id_gen)@,
                colors: old(lobby_data)@,
                players: snapshot_records(players@),
            };
            &&& final(player_id_gen)@ == lobby_frame(start, players@, events@).ids
            &&& final(lobby_data)@ == lobby_frame(start, players@, events@).colors
            &&& actions@.len() == events@.len()
            &&& forall|k: int|
                0 <= k < events@.len() ==> lobby_action_spec(
                    #[trigger] actions@[k],
                    lobby_frame(start, players@, events@.take(k)),
                    players@,
                    events@[k],
                )
        }),
{
    let ghost start = LobbyState {
        ids: old(player_id_gen)@,
        colors: old(lobby_data)@,
        players: snapshot_records(players@),
    };
    proof {
        lemma_lobby_frame_split(start, players@, events@, events@.len() as int);
        assert(events@.take(events@.len() as int) =~= events@);
    }
    let mut actions: Vec<LobbyAction> = Vec::new();
    let mut i: usize = 0;
    while i < events.len()
        invariant
            i <= events@.len(),
            start == (LobbyState {
                ids: old(player_id_gen)@,
                colors: old(lobby_data)@,
                players: snapshot_records(players@),
            }),
            player_id_gen.wf(),
            player_id_gen@ == lobby_frame(start, players@, events@.take(i as int)).ids,
            lobby_data@ == lobby_frame(start, players@, events@.take(i as int)).colors,
            lobby_frame_ok(start, players@, events@),
            events@.take(events@.len() as int) == events@,
            actions@.len() == i,
            forall|k: int|
                0 <= k < i ==> lobby_action_spec(
                    #[trigger] actions@[k],
                    lobby_frame(start, players@, events@.take(k)),
                    players@,
                    events@[k],
                ),
        decreases events@.len() - i,
    {
        proof {
            lemma_lobby_frame_last(start, players@, events@, i as int);
            lemma_lobby_frame_split(start, players@, events@, i + 1);
            lemma_lobby_frame_split(start, players@, events@.take(i + 1), i as int);
            assert(events@.take(i + 1).take(i as int) =~= events@.take(i as int));
        }
        let action = update_lobby(player_id_gen, lobby_data, players, events[i]);
        actions.push(action);
        i = i + 1;
    }
    actions
}

/// A player who joins and then leaves gives back what it took: the colors in use are as before
/// the join, and the same ids are out. The requirements are what `update_lobby` ensures of a
/// join that spawns a player with `color` and `id`, followed by that player's leave.
pub proof fn lemma_leave_undoes_join(
    colors_before: Seq<bool>,
    colors_after_join: Seq<bool>,
    colors_after_leave: Seq<bool>,
    color: int,
    ids_before: IdGenView,
    ids_after_join: IdGenView,
    ids_after_leave: IdGenView,
    id: u8,
)
    requires
        id_gen_wf(ids_before),
        id_gen_bounded(ids_before),
        0 <= color < colors_before.len(),
        !colors_before[color],
        colors_after_join == colors_before.update(color, true),
        (ids_after_join, Some(id)) == next_spec(ids_before),
        colors_after_leave == colors_after_join.update(color, false),
        ids_after_leave == reinsert_spec(ids_after_join, id),
    ensures
        colors_after_leave == colors_before,
        issued(ids_after_leave) == issued(ids_before),
{
    assert(colors_after_leave =~= colors_before);
    lemma_reinsert_undoes_next(ids_before);
}

} // verus!
