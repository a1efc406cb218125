//! Card selection: players take turns choosing a card from the cards drawn.
use vstd::prelude::*;

verus! {

/// The card selected after moving the selection left: the previous card, wrapping around, or
/// the last card when none was selected.
pub open spec fn left_spec(selected: Option<u8>, num_cards: u8) -> u8 {
    match selected {
        None => (num_cards - 1) as u8,
        Some(n) => if n == 0 {
            (num_cards - 1) as u8
        } else {
            (n - 1) as u8
        },
    }
}

/// The card selected after moving the selection right: the next card, wrapping around, or the
/// first card when none was selected.
pub open spec fn right_spec(selected: Option<u8>, num_cards: u8) -> u8 {
    match selected {
        None => 0,
        Some(n) => ((n + 1) % (num_cards as int)) as u8,
    }
}

/// Moves the selection one card to the left.
pub fn select_left(selected: Option<u8>, num_cards: u8) -> (r: u8)
    requires
        num_cards >= 1,
    ensures
        r == left_spec(selected, num_cards),
        (selected matches Some(n) ==> n < num_cards) ==> r < num_cards,
{
    match selected {
        None => num_cards - 1,
        Some(0) => num_cards - 1,
        Some(n) => n - 1,
    }
}

/// Moves the selection one card to the right.
pub fn select_right(selected: Option<u8>, num_cards: u8) -> (r: u8)
    requires
        num_cards >= 1,
        selected matches Some(n) ==> n < u8::MAX,
    ensures
        r == right_spec(selected, num_cards),
        r < num_cards,
{
    match selected {
        None => 0,
        Some(n) => (n + 1) % num_cards,
    }
}

/// Moving the selection right undoes moving it left, and moving it left undoes moving it right.
pub proof fn lemma_left_right_inverse(n: u8, num_cards: u8)
    requires
        n < num_cards,
    ensures
        right_spec(Some(left_spec(Some(n), num_cards)), num_cards) == n,
        left_spec(Some(right_spec(Some(n), num_cards)), num_cards) == n,
{
    if n + 1 == num_cards {
        assert((n + 1) % (num_cards as int) == 0) by {
            vstd::arithmetic::div_mod::lemma_mod_self_0(num_cards as int);
        }
    } else {
        assert((n + 1) % (num_cards as int) == n + 1) by {
            vstd::arithmetic::div_mod::lemma_small_mod((n + 1) as nat, num_cards as nat);
        }
    }
    if n == 0 {
        assert(((num_cards - 1) + 1) % (num_cards as int) == 0) by {
            vstd::arithmetic::div_mod::lemma_mod_self_0(num_cards as int);
        }
    } else {
        assert((n as int) % (num_cards as int) == n) by {
            vstd::arithmetic::div_mod::lemma_small_mod(n as nat, num_cards as nat);
        }
    }
}

/// The card selected after moving right `k` times from card `n`.
pub open spec fn right_times(n: u8, num_cards: u8, k: nat) -> u8
    decreases k,
{
    if k == 0 {
        n
    } else {
        right_spec(Some(right_times(n, num_cards, (k - 1) as nat)), num_cards)
    }
}

proof fn lemma_right_times_mod(n: u8, num_cards: u8, k: nat)
    requires
        n < num_cards,
    ensures
        right_times(n, num_cards, k) == (n + k) % (num_cards as int),
        right_times(n, num_cards, k) < num_cards,
    decreases k,
{
    let m = num_cards as int;
    if k == 0 {
        vstd::arithmetic::div_mod::lemma_small_mod(n as nat, num_cards as nat);
    } else {
        lemma_right_times_mod(n, num_cards, (k - 1) as nat);
        let prev = right_times(n, num_cards, (k - 1) as nat) as int;
        vstd::arithmetic::div_mod::lemma_add_mod_noop(n + k - 1, 1, m);
        vstd::arithmetic::div_mod::lemma_add_mod_noop(prev, 1, m);
        vstd::arithmetic::div_mod::lemma_mod_twice(n + k - 1, m);
        vstd::arithmetic::div_mod::lemma_mod_bound(n + k, m);
        assert((prev + 1) % m == ((prev % m) + (1int % m)) % m);
        assert(prev % m == prev) by {
            vstd::arithmetic::div_mod::lemma_small_mod(prev as nat, num_cards as nat);
        }
    }
}

/// Moving the selection right once per card brings it back to where it started.
pub proof fn lemma_right_cycles(n: u8, num_cards: u8)
    requires
        n < num_cards,
    ensures
        right_times(n, num_cards, num_cards as nat) == n,
{
    lemma_right_times_mod(n, num_cards, num_cards as nat);
    vstd::arithmetic::div_mod::lemma_add_mod_noop(n as int, num_cards as int, num_cards as int);
    vstd::arithmetic::div_mod::lemma_mod_self_0(num_cards as int);
    vstd::arithmetic::div_mod::lemma_small_mod(n as nat, num_cards as nat);
}

/// What one step of card selection asks to be done.
#[derive(Debug, Clone, Copy, PartialEq, Eq, Structural)]
pub enum CardSelectionAction {
    /// `player` takes card `card`; `done` when no player is left to choose, else the next
    /// player gets a fresh draw.
    Take { player: u64, card: u8, done: bool },
    /// Highlight card `selected` (if any) and no other.
    Highlight { selected: Option<u8> },
}

/// What card selection holds: the players still to choose (the last chooses next, each named
/// by its entity's bits), the selected card, and how many cards are drawn.
pub struct CardSelectionView {
    pub players_left: Seq<u64>,
    pub selected_card: Option<u8>,
    pub num_cards: u8,
}

/// All the data of card selection that the rules read.
pub struct CardSelectionData {
    players_left: Vec<u64>,
    selected_card: Option<u8>,
    num_cards: u8,
}

impl View for CardSelectionData {
    type V = CardSelectionView;

    closed spec fn view(&self) -> CardSelectionView {
        CardSelectionView {
            players_left: self.players_left@,
            selected_card: self.selected_card,
            num_cards: self.num_cards,
        }
    }
}

impl CardSelectionData {
    /// The selected card is one of the cards drawn.
    pub open spec fn wf(&self) -> bool {
        self@.selected_card matches Some(n) ==> n < self@.num_cards
    }

    /// Starts card selection for the given players, with `num_cards` cards drawn and none
    /// selected.
    pub fn new(players_left: Vec<u64>, num_cards: u8) -> (d: Self)
        ensures
            d@.players_left == players_left@,
            d@.selected_card is None,
            d@.num_cards == num_cards,
            d.wf(),
    {
        CardSelectionData { players_left, selected_card: None, num_cards }
    }

    /// How many players are still to choose.
    pub fn num_players_left(&self) -> (r: usize)
        ensures
            r == self@.players_left.len(),
    {
        self.players_left.len()
    }

    /// The player whose turn it is to choose.
    pub fn current_player(&self) -> (p: u64)
        requires
            self@.players_left.len() > 0,
        ensures
            p == self@.players_left.last(),
    {
        self.players_left[self.players_left.len() - 1]
    }

    /// The selected card, if any.
    pub fn selected_card(&self) -> (r: Option<u8>)
        ensures
            r == self@.selected_card,
    {
        self.selected_card
    }

    /// Handles the current player's input for this frame: `select` takes the selected card,
    /// otherwise `left` and then `right` move the selection.
    pub fn update_card_selection(&mut self, select: bool, left: bool, right: bool) -> (action:
        CardSelectionAction)
        requires
            old(self).wf(),
            old(self)@.players_left.len() > 0,
            select ==> old(self)@.selected_card is Some,
            !select && (left || right) ==> old(self)@.num_cards >= 1,
        ensures
            final(self).wf(),
            final(self)@.num_cards == old(self)@.num_cards,
            select ==> {
                &&& action == CardSelectionAction::Take {
                    player: old(self)@.players_left.last(),
                    card: old(self)@.selected_card.unwrap(),
                    done: old(self)@.players_left.len() == 1,
                }
                &&& final(self)@.players_left == old(self)@.players_left.drop_last()
                &&& final(self)@.selected_card == if old(self)@.players_left.len() == 1 {
                    old(self)@.selected_card
                } else {
                    None
                }
            },
            !select ==> {
                let after_left = if left {
                    Some(left_spec(old(self)@.selected_card, old(self)@.num_cards))
                } else {
                    old(self)@.selected_card
                };
                let after_right = if right {
                    Some(right_spec(after_left, old(self)@.num_cards))
                } else {
                    after_left
                };
                &&& action == CardSelectionAction::Highlight { selected: after_right }
                &&& final(self)@.selected_card == after_right
                &&& final(self)@.players_left == old(self)@.players_left
            },
    {
        if select {
            // Take card
            let player = self.players_left.pop().unwrap();
            let card = self.selected_card.unwrap();
            let done = self.players_left.len() == 0;
            if !done {
                self.selected_card = None;
            }
            CardSelectionAction::Take { player, card, done }
        } else {
            if left {
                self.selected_card = Some(select_left(self.selected_card, self.num_cards));
            }
            if right {
                self.selected_card = Some(select_right(self.selected_card, self.num_cards));
            }
            CardSelectionAction::Highlight { selected: self.selected_card }
        }
    }
}

} // verus!
