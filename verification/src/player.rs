//! Player identity: input devices, player ids and the id generator.
use crate::shared::Source;
use vstd::prelude::*;

verus! {

/// The maximum number of players in a match.
pub const MAX_PLAYERS: u8 = 255;

/// The device a player plays with; a gamepad is named by its entity's bits.
#[derive(Debug, Clone, Copy, PartialEq, Eq, Structural)]
pub enum Input {
    Keyboard,
    Gamepad(u64),
}

/// A unique id for a player. There are max 255 ids. Id 0 is reserved for non-player objects.
#[derive(Debug, Clone, Copy, PartialEq, Eq)]
pub struct PlayerId(u8);

impl PlayerId {
    #[verifier::type_invariant]
    spec fn nonzero(self) -> bool {
        self.0 >= 1
    }
}

impl View for PlayerId {
    type V = u8;

    closed spec fn view(&self) -> u8 {
        self.0
    }
}

impl PlayerId {
    /// The number of this id.
    pub fn value(self) -> (r: u8)
        ensures
            r == self@,
            r >= 1,
    {
        proof {
            use_type_invariant(&self);
        }
        self.0
    }

    /// Converts the PlayerId into a Source component.
    pub fn into_source(self) -> (s: Source)
        ensures
            s.0 == self@,
            s != Source(0),
    {
        proof {
            use_type_invariant(&self);
        }
        Source(self.0)
    }
}

/// The number inside an optional player id.
pub open spec fn id_value(id: Option<PlayerId>) -> Option<u8> {
    match id {
        Some(id) => Some(id@),
        None => None,
    }
}

/// What an id generator holds: the last id it made fresh, and the ids handed back to it, the
/// most recently handed back last.
pub struct IdGenView {
    pub last: u8,
    pub free: Seq<u8>,
}

/// No handed-back id is there twice, and none is 0.
pub open spec fn id_gen_wf(v: IdGenView) -> bool {
    &&& v.free.no_duplicates()
    &&& forall|i: int| 0 <= i < v.free.len() ==> v.free[i] >= 1
}

/// Every handed-back id was made before, so none lies beyond the last fresh id.
pub open spec fn id_gen_bounded(v: IdGenView) -> bool {
    forall|i: int| 0 <= i < v.free.len() ==> v.free[i] <= v.last
}

/// The ids that are out: made by the generator and not handed back.
pub open spec fn issued(v: IdGenView) -> Set<u8> {
    Set::new(|i: u8| 1 <= i <= v.last && !v.free.contains(i))
}

/// What `next` does: hand out the most recently handed-back id, else a fresh one while any is
/// left.
pub open spec fn next_spec(v: IdGenView) -> (IdGenView, Option<u8>) {
    if v.free.len() > 0 {
        (IdGenView { last: v.last, free: v.free.drop_last() }, Some(v.free.last()))
    } else if v.last == MAX_PLAYERS {
        (v, None)
    } else {
        (IdGenView { last: (v.last + 1) as u8, free: v.free }, Some((v.last + 1) as u8))
    }
}

/// What `reinsert` does: `id` goes to the front of the queue of handed-back ids.
pub open spec fn reinsert_spec(v: IdGenView, id: u8) -> IdGenView {
    IdGenView { last: v.last, free: v.free.push(id) }
}

/// `next` hands out an id that is not out, and from then on it is out; the generator stays
/// well formed and bounded. So no id is handed out twice while it is in use.
pub proof fn lemma_next_hands_out_unused_id(v: IdGenView)
    requires
        id_gen_wf(v),
        id_gen_bounded(v),
    ensures
        next_spec(v).1 matches Some(id) ==> {
            &&& id >= 1
            &&& !issued(v).contains(id)
            &&& issued(next_spec(v).0) == issued(v).insert(id)
        },
        next_spec(v).1 is None ==> issued(v).len() == MAX_PLAYERS,
        id_gen_wf(next_spec(v).0),
        id_gen_bounded(next_spec(v).0),
{
    let (w, r) = next_spec(v);
    if v.free.len() > 0 {
        let id = v.free.last();
        assert(v.free.contains(id));
        assert forall|x: u8| w.free.contains(x) <==> (v.free.contains(x) && x != id) by {
            if w.free.contains(x) {
                let k = choose|k: int| 0 <= k < w.free.len() && w.free[k] == x;
                assert(v.free[k] == x);
                assert(k != v.free.len() - 1);
            }
            if v.free.contains(x) && x != id {
                let k = choose|k: int| 0 <= k < v.free.len() && v.free[k] == x;
                assert(k != v.free.len() - 1);
                assert(w.free[k] == x);
            }
        }
        assert(issued(w) =~= issued(v).insert(id));
    } else if v.last == MAX_PLAYERS {
        assert(issued(v) =~= Set::new(|i: u8| 1 <= i <= 255));
        lemma_ids_from_one_len(255);
    } else {
        assert(issued(w) =~= issued(v).insert((v.last + 1) as u8));
    }
}

/// The set of ids from 1 to `n` has `n` elements.
proof fn lemma_ids_from_one_len(n: u8)
    ensures
        Set::new(|i: u8| 1 <= i <= n).len() == n,
        Set::new(|i: u8| 1 <= i <= n).finite(),
    decreases n,
{
    if n > 0 {
        lemma_ids_from_one_len((n - 1) as u8);
        assert(Set::new(|i: u8| 1 <= i <= n) =~= Set::new(|i: u8| 1 <= i <= (n - 1) as u8).insert(n));
    } else {
        assert(Set::new(|i: u8| 1 <= i <= n) =~= Set::<u8>::empty());
    }
}

/// Handing back an id that is out makes it no longer out, leaves the other ids as they were,
/// and keeps the generator well formed and bounded.
pub proof fn lemma_reinsert_returns_id(v: IdGenView, id: u8)
    requires
        id_gen_wf(v),
        id_gen_bounded(v),
        issued(v).contains(id),
    ensures
        issued(reinsert_spec(v, id)) == issued(v).remove(id),
        id_gen_wf(reinsert_spec(v, id)),
        id_gen_bounded(reinsert_spec(v, id)),
{
    let w = reinsert_spec(v, id);
    assert forall|x: u8| w.free.contains(x) <==> (v.free.contains(x) || x == id) by {
        if w.free.contains(x) {
            let k = choose|k: int| 0 <= k < w.free.len() && w.free[k] == x;
            if k < v.free.len() {
                assert(v.free[k] == x);
            }
        }
        if v.free.contains(x) {
            let k = choose|k: int| 0 <= k < v.free.len() && v.free[k] == x;
            assert(w.free[k] == x);
        }
        if x == id {
            assert(w.free[v.free.len() as int] == x);
        }
    }
    assert forall|i: int, j: int|
        0 <= i < w.free.len() && 0 <= j < w.free.len() && i != j implies w.free[i] != w.free[j] by {
        if i < v.free.len() && j < v.free.len() {
        } else if i < v.free.len() {
            assert(v.free.contains(w.free[i]));
        } else {
            assert(v.free.contains(w.free[j]));
        }
    }
    assert(issued(w) =~= issued(v).remove(id));
}

/// A handed-back id is at the front of the queue: the next call of `next` hands it out, and
/// the generator is then as it was before the id came back.
pub proof fn lemma_next_after_reinsert(v: IdGenView, id: u8)
    ensures
        next_spec(reinsert_spec(v, id)) == (v, Some(id)),
{
    assert(reinsert_spec(v, id).free.drop_last() =~= v.free);
}

/// Handing back the id that `next` handed out leaves the same ids out as before.
pub proof fn lemma_reinsert_undoes_next(v: IdGenView)
    requires
        id_gen_wf(v),
        id_gen_bounded(v),
        next_spec(v).1 is Some,
    ensures
        issued(reinsert_spec(next_spec(v).0, next_spec(v).1.unwrap())) == issued(v),
        id_gen_bounded(reinsert_spec(next_spec(v).0, next_spec(v).1.unwrap())),
{
    let (w, r) = next_spec(v);
    let id = r.unwrap();
    lemma_next_hands_out_unused_id(v);
    assert(issued(w).contains(id));
    lemma_reinsert_returns_id(w, id);
    assert(issued(reinsert_spec(w, id)) =~= issued(v));
}

/// The generator after `n` calls of `next`.
pub open spec fn run_next(v: IdGenView, n: nat) -> IdGenView
    decreases n,
{
    if n == 0 {
        v
    } else {
        next_spec(run_next(v, (n - 1) as nat)).0
    }
}

/// A fresh generator hands out 1, 2, ... up to 255 in turn, and then nothing more.
pub proof fn lemma_fresh_generator_counts_up(n: nat)
    requires
        n <= MAX_PLAYERS,
    ensures
        run_next(IdGenView { last: 0, free: Seq::empty() }, n) == (IdGenView {
            last: n as u8,
            free: Seq::<u8>::empty(),
        }),
        n < MAX_PLAYERS ==> next_spec(run_next(IdGenView { last: 0, free: Seq::empty() }, n)).1
            == Some((n + 1) as u8),
        n == MAX_PLAYERS ==> next_spec(run_next(IdGenView { last: 0, free: Seq::empty() }, n)).1
            is None,
    decreases n,
{
    if n > 0 {
        lemma_fresh_generator_counts_up((n - 1) as nat);
    }
}

/// Generates unique ids for players.
#[derive(Debug, Clone, Eq, PartialEq, Hash)]
pub struct PlayerIdGen(u8, Vec<u8>);

impl View for PlayerIdGen {
    type V = IdGenView;

    closed spec fn view(&self) -> IdGenView {
        IdGenView { last: self.0, free: self.1@ }
    }
}

impl PlayerIdGen {
    /// No handed-back id is there twice, and none is 0.
    pub open spec fn wf(&self) -> bool {
        id_gen_wf(self@)
    }

    pub fn new() -> (g: Self)
        ensures
            g@.last == 0,
            g@.free == Seq::<u8>::empty(),
            g.wf(),
            id_gen_bounded(g@),
    {
        Self(0, Vec::new())
    }

    /// A copy of the generator.
    pub fn duplicate(&self) -> (g: Self)
        ensures
            g@ == self@,
    {
        let mut free: Vec<u8> = Vec::new();
        let mut i: usize = 0;
        while i < self.1.len()
            invariant
                i <= self@.free.len(),
                free@ == self@.free.take(i as int),
            decreases self@.free.len() - i,
        {
            free.push(self.1[i]);
            i = i + 1;
            assert(free@ =~= self@.free.take(i as int));
        }
        assert(self@.free.take(self@.free.len() as int) =~= self@.free);
        Self(self.0, free)
    }

    /// Whether `next` would hand out an id.
    pub fn can_issue(&self) -> (r: bool)
        ensures
            r == next_spec(self@).1 is Some,
    {
        self.1.len() > 0 || self.0 < MAX_PLAYERS
    }

    /// Whether the id has been handed back and not handed out since.
    pub fn has_free_id(&self, id: PlayerId) -> (r: bool)
        ensures
            r == self@.free.contains(id@),
    {
        let v = id.value();
        let mut i: usize = 0;
        while i < self.1.len()
            invariant
                i <= self@.free.len(),
                v == id@,
                forall|j: int| 0 <= j < i ==> self@.free[j] != v,
            decreases self@.free.len() - i,
        {
            if self.1[i] == v {
                return true;
            }
            i = i + 1;
        }
        false
    }

    /// Adds the PlayerId back to the generator. It will be added at the front of the queue.
    pub fn reinsert(&mut self, value: PlayerId)
        requires
            old(self).wf(),
            !old(self)@.free.contains(value@),
        ensures
            final(self).wf(),
            final(self)@ == reinsert_spec(old(self)@, value@),
    {
        let v = value.value();
        self.1.push(v);
        proof {
            let w = self@.free;
            assert forall|i: int, j: int|
                0 <= i < w.len() && 0 <= j < w.len() && i != j implies w[i] != w[j] by {
                if i < w.len() - 1 && j < w.len() - 1 {
                    assert(w[i] == old(self)@.free[i] && w[j] == old(self)@.free[j]);
                } else if i < w.len() - 1 {
                    assert(old(self)@.free.contains(w[i]));
                } else {
                    assert(old(self)@.free.contains(w[j]));
                }
            }
        }
    }

    /// Hands out the next id: the most recently handed-back id if there is one, else a fresh id,
    /// or `None` once all 255 ids have been made.
    pub fn next(&mut self) -> (r: Option<PlayerId>)
        requires
            old(self).wf(),
        ensures
            final(self).wf(),
            (final(self)@, id_value(r)) == next_spec(old(self)@),
    {
        if let Some(val) = self.1.pop() {
            Some(PlayerId(val))
        } else if self.0 == MAX_PLAYERS {
            None
        } else {
            self.0 = self.0 + 1;
            Some(PlayerId(self.0))
        }
    }
}

impl Default for PlayerIdGen {
    fn default() -> (g: Self)
        ensures
            g@.last == 0,
            g@.free == Seq::<u8>::empty(),
            g.wf(),
    {
        Self::new()
    }
}

} // verus!
