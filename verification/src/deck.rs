use std::collections::VecDeque;
use vstd::prelude::*;
use crate::chance::Dice;

verus! {

/// A pile of cards. Its view lists the cards from the bottom of the pile
/// (position 0) to the top.
#[derive(Debug)]
pub struct Deck<T>(pub(crate) VecDeque<T>);

impl<T> View for Deck<T> {
    type V = Seq<T>;

    closed spec fn view(&self) -> Seq<T> {
        self.0@
    }
}

/// The pile `deck` with `card` laid on top.
pub open spec fn put_on_top<T>(deck: Seq<T>, card: T) -> Seq<T> {
    deck.push(card)
}

/// The pile `deck` with `card` slid under it.
pub open spec fn put_under<T>(deck: Seq<T>, card: T) -> Seq<T> {
    seq![card] + deck
}

/// The top card of `deck`, if it has one, and the pile that is left.
pub open spec fn take_from_top<T>(deck: Seq<T>) -> (Option<T>, Seq<T>) {
    if deck.len() == 0 {
        (None, deck)
    } else {
        (Some(deck.last()), deck.drop_last())
    }
}

/// The bottom card of `deck`, if it has one, and the pile that is left.
pub open spec fn take_from_bottom<T>(deck: Seq<T>) -> (Option<T>, Seq<T>) {
    if deck.len() == 0 {
        (None, deck)
    } else {
        (Some(deck.first()), deck.drop_first())
    }
}

/// The pile `deck` with the cards at positions `i` and `j` exchanged.
pub open spec fn exchanged<T>(deck: Seq<T>, i: int, j: int) -> Seq<T> {
    deck.update(i, deck[j]).update(j, deck[i])
}

/// Whether `picks` can arrange a pile of `len` cards: there is one pick for
/// each position from the top down to the second card from the bottom, and
/// each pick is a position at or below the one that it is for.
pub open spec fn fitting(len: nat, picks: Seq<usize>) -> bool {
    &&& picks.len() == if len == 0 {
        0
    } else {
        len - 1
    }
    &&& forall|k: int| 0 <= k < picks.len() ==> (#[trigger] picks[k]) <= len - 1 - k
}

/// The pile `deck` arranged by `picks`: from the top down, each position
/// changes its card with the one at the position picked for it. The first
/// pick is for the top card, the next for the card below it, and so on.
pub open spec fn arranged<T>(deck: Seq<T>, picks: Seq<usize>) -> Seq<T>
    decreases picks.len(),
{
    if picks.len() == 0 {
        deck
    } else {
        exchanged(
            arranged(deck, picks.drop_last()),
            deck.len() - picks.len(),
            picks.last() as int,
        )
    }
}

/// `after` is `before` shuffled: arranged by picks that fit the pile.
pub open spec fn shuffled<T>(before: Seq<T>, after: Seq<T>) -> bool {
    exists|picks: Seq<usize>| fitting(before.len(), picks) && after == #[trigger] arranged(
        before,
        picks,
    )
}

impl<T> Deck<T> {
    /// A pile without cards.
    pub fn new_empty() -> (deck: Self)
        ensures
            deck@ == Seq::<T>::empty(),
    {
        Self(VecDeque::new())
    }

    /// The pile that holds `cards`, the first of them at the bottom.
    pub fn from_vec(cards: Vec<T>) -> (deck: Self)
        ensures
            deck@ == cards@,
    {
        let ghost whole = cards@;
        let mut rest = cards;
        let mut pile: VecDeque<T> = VecDeque::new();
        while rest.len() > 0
            invariant
                rest@ + pile@ == whole,
            decreases rest.len(),
        {
            let ghost before = rest@;
            let ghost above = pile@;
            match rest.pop() {
                Some(card) => {
                    pile.push_front(card);
                    assert(before =~= rest@.push(card));
                    assert(rest@ + pile@ =~= before + above);
                },
                None => {},
            }
        }
        assert(pile@ =~= rest@ + pile@);
        Self(pile)
    }

    /// The cards of the pile, the bottom one first.
    pub fn into_vec(self) -> (cards: Vec<T>)
        ensures
            cards@ == self@,
    {
        let mut pile = self.0;
        let mut cards: Vec<T> = Vec::new();
        while pile.len() > 0
            invariant
                cards@ + pile@ == self@,
            decreases pile.len(),
        {
            let ghost before = pile@;
            let ghost listed = cards@;
            match pile.pop_front() {
                Some(card) => {
                    cards.push(card);
                    assert(cards@ + pile@ =~= listed + before);
                },
                None => {},
            }
        }
        assert(cards@ =~= cards@ + pile@);
        cards
    }

    /// Number of cards in the pile.
    pub fn len(&self) -> (n: usize)
        ensures
            n == self@.len(),
    {
        self.0.len()
    }

    /// The card at position `i`, counted from the bottom, if there is one.
    pub fn get(&self, i: usize) -> (card: Option<&T>)
        ensures
            i < self@.len() ==> card == Some(&self@[i as int]),
            i >= self@.len() ==> card is None,
    {
        if i < self.0.len() {
            Some(&self.0[i])
        } else {
            None
        }
    }

    /// Lays `elem` on top of the pile.
    pub fn discard_to_top(&mut self, elem: T)
        ensures
            final(self)@ == put_on_top(old(self)@, elem),
    {
        self.0.push_back(elem);
    }

    /// Slides `elem` under the pile.
    pub fn discard_to_bottom(&mut self, elem: T)
        ensures
            final(self)@ == put_under(old(self)@, elem),
    {
        self.0.push_front(elem);
    }

    /// Takes the top card off the pile, if there is one.
    pub fn draw_from_top(&mut self) -> (card: Option<T>)
        ensures
            (card, final(self)@) == take_from_top(old(self)@),
    {
        let card = self.0.pop_back();
        assert(self.0@ =~= take_from_top(old(self).0@).1);
        card
    }

    /// Takes the bottom card from under the pile, if there is one.
    pub fn draw_from_bottom(&mut self) -> (card: Option<T>)
        ensures
            (card, final(self)@) == take_from_bottom(old(self)@),
    {
        let card = self.0.pop_front();
        assert(self.0@ =~= take_from_bottom(old(self).0@).1);
        card
    }

    /// Exchanges the cards at positions `i` and `j`, counted from the bottom.
    pub fn swap(&mut self, i: usize, j: usize)
        requires
            i < old(self)@.len(),
            j < old(self)@.len(),
        ensures
            final(self)@ == exchanged(old(self)@, i as int, j as int),
    {
        if i == j {
            assert(self.0@ =~= exchanged(self.0@, i as int, j as int));
            return ;
        }
        let (low, high) = if i < j {
            (i, j)
        } else {
            (j, i)
        };
        let upper = self.0.remove(high);
        let lower = self.0.remove(low);
        match (lower, upper) {
            (Some(lower), Some(upper)) => {
                self.0.insert(low, upper);
                self.0.insert(high, lower);
            },
            _ => {},
        }
        assert(self.0@ =~= exchanged(old(self).0@, i as int, j as int));
    }

    /// Arranges the pile by `picks`, if they fit it: from the top down, each
    /// position changes its card with the one at the position picked for it.
    /// Says whether the picks fit; a pile that they do not fit stays as it is.
    pub fn shuffle_by(&mut self, picks: &Vec<usize>) -> (done: bool)
        ensures
            done == fitting(old(self)@.len(), picks@),
            done ==> final(self)@ == arranged(old(self)@, picks@),
            !done ==> final(self)@ == old(self)@,
    {
        let len = self.0.len();
        let needed = if len == 0 {
            0
        } else {
            len - 1
        };
        if picks.len() != needed {
            return false;
        }
        let mut k: usize = 0;
        while k < picks.len()
            invariant
                k <= picks.len(),
                len == old(self)@.len(),
                picks.len() == needed,
                needed == if len == 0 {
                    0
                } else {
                    len - 1
                },
                forall|at: int| 0 <= at < k ==> (#[trigger] picks[at]) <= len - 1 - at,
            decreases picks.len() - k,
        {
            if picks[k] > len - 1 - k {
                return false;
            }
            k += 1;
        }
        let mut k: usize = 0;
        assert(picks@.take(0) =~= Seq::<usize>::empty());
        while k < picks.len()
            invariant
                k <= picks.len(),
                len == old(self)@.len(),
                fitting(len as nat, picks@),
                self@ == arranged(old(self)@, picks@.take(k as int)),
                self@.len() == len,
            decreases picks.len() - k,
        {
            assert(picks@.take(k as int + 1).drop_last() =~= picks@.take(k as int));
            assert(picks@.take(k as int + 1).last() == picks[k as int]);
            self.swap(len - 1 - k, picks[k]);
            k += 1;
        }
        assert(picks@.take(picks.len() as int) =~= picks@);
        true
    }

    /// Puts the cards in a random order, with dice of their own: from the
    /// top down, each position gets a card that the dice pick from those at
    /// or below it. Says whether there were dice: where the operating system
    /// gives no seed for them, the pile stays as it is.
    pub fn shuffle(&mut self) -> (done: bool)
        ensures
            done ==> shuffled(old(self)@, final(self)@),
            !done ==> final(self)@ == old(self)@,
            final(self)@.to_multiset() == old(self)@.to_multiset(),
    {
        match Dice::from_entropy() {
            Some(mut dice) => {
                self.shuffle_with(&mut dice);
                true
            },
            None => false,
        }
    }

    /// Puts the cards in a random order: from the top down, each position
    /// gets a card that `dice` pick from those at or below it.
    pub fn shuffle_with(&mut self, dice: &mut Dice)
        ensures
            shuffled(old(self)@, final(self)@),
            final(self)@.to_multiset() == old(self)@.to_multiset(),
    {
        let len = self.0.len();
        let mut picks: Vec<usize> = Vec::new();
        let mut i = len;
        while i >= 2
            invariant
                i <= len,
                len >= 1 ==> i >= 1,
                picks.len() + i == len,
                forall|k: int| 0 <= k < picks.len() ==> (#[trigger] picks[k]) <= len - 1 - k,
            decreases i,
        {
            i -= 1;
            let pick = dice.below(i + 1);
            picks.push(pick);
        }
        proof {
            lemma_arranged_keeps_cards(self@, picks@);
        }
        self.shuffle_by(&picks);
    }

    /// Moves every card of `other` onto the top of this pile, in order.
    pub fn append(&mut self, other: &mut Self)
        ensures
            final(self)@ == old(self)@ + old(other)@,
            final(other)@ == Seq::<T>::empty(),
    {
        self.0.append(&mut other.0)
    }
}

/// Exchanging two cards of a pile leaves the same cards in it.
pub proof fn lemma_exchange_keeps_cards<T>(deck: Seq<T>, i: int, j: int)
    requires
        0 <= i < deck.len(),
        0 <= j < deck.len(),
    ensures
        exchanged(deck, i, j).len() == deck.len(),
        exchanged(deck, i, j).to_multiset() == deck.to_multiset(),
{
    let half = deck.update(i, deck[j]);
    vstd::seq_lib::to_multiset_update(deck, i, deck[j]);
    vstd::seq_lib::to_multiset_update(half, j, deck[i]);
    vstd::seq_lib::to_multiset_contains(deck, deck[i]);
    vstd::seq_lib::to_multiset_contains(deck, deck[j]);
    assert(exchanged(deck, i, j).to_multiset() =~= deck.to_multiset());
}

/// A pile that is arranged by picks that fit it keeps its cards: it is as
/// large as before and holds each card as often as before.
pub proof fn lemma_arranged_keeps_cards<T>(deck: Seq<T>, picks: Seq<usize>)
    requires
        picks.len() < deck.len() || picks.len() == 0,
        forall|k: int| 0 <= k < picks.len() ==> (#[trigger] picks[k]) <= deck.len() - 1 - k,
    ensures
        arranged(deck, picks).len() == deck.len(),
        arranged(deck, picks).to_multiset() == deck.to_multiset(),
    decreases picks.len(),
{
    if picks.len() > 0 {
        let earlier = picks.drop_last();
        assert forall|k: int| 0 <= k < earlier.len() implies (#[trigger] earlier[k]) <= deck.len()
            - 1 - k by {
            assert(earlier[k] == picks[k]);
        }
        lemma_arranged_keeps_cards(deck, earlier);
        assert(picks.last() == picks[picks.len() - 1]);
        lemma_exchange_keeps_cards(
            arranged(deck, earlier),
            deck.len() - picks.len(),
            picks.last() as int,
        );
    }
}

/// A shuffled pile keeps its cards.
pub proof fn lemma_shuffled_keeps_cards<T>(before: Seq<T>, after: Seq<T>)
    requires
        shuffled(before, after),
    ensures
        after.len() == before.len(),
        after.to_multiset() == before.to_multiset(),
{
    let picks = choose|picks: Seq<usize>|
        fitting(before.len(), picks) && after == #[trigger] arranged(before, picks);
    lemma_arranged_keeps_cards(before, picks);
}

/// A card laid on top is the next one drawn from the top, and the pile is
/// then what it was.
pub proof fn lemma_draw_top_after_discard<T>(deck: Seq<T>, card: T)
    ensures
        take_from_top(put_on_top(deck, card)) == (Some(card), deck),
{
    assert(deck.push(card).drop_last() =~= deck);
}

/// A card slid under the pile is the next one drawn from the bottom, and the
/// pile is then what it was.
pub proof fn lemma_draw_bottom_after_discard<T>(deck: Seq<T>, card: T)
    ensures
        take_from_bottom(put_under(deck, card)) == (Some(card), deck),
{
    assert((seq![card] + deck).drop_first() =~= deck);
}

} // verus!
