use std::collections::VecDeque;

use rand::Rng;
use vstd::multiset::Multiset;
use vstd::prelude::*;

use crate::cards::Card;

verus! {

broadcast use {vstd::seq_lib::group_to_multiset_ensures, vstd::multiset::group_multiset_axioms};

/// The deck that is played: its last card is the card on top.
#[derive(Debug)]
pub struct Deck {
    pub deck: VecDeque<Card>,
}

impl View for Deck {
    type V = Seq<Card>;

    open spec fn view(&self) -> Seq<Card> {
        self.deck@
    }
}

impl Default for Deck {
    fn default() -> (d: Self)
        ensures
            d@ == Seq::<Card>::empty(),
    {
        Deck { deck: VecDeque::new() }
    }
}

/// `s` after the element at `i` was taken out and the last element moved
/// into its place.
pub open spec fn swap_remove_back_seq<T>(s: Seq<T>, i: int) -> Seq<T> {
    if i == s.len() - 1 {
        s.drop_last()
    } else {
        s.drop_last().update(i, s.last())
    }
}

/// `draws` holds, for each of `n` successive draws from a pile that starts
/// with `n` cards, a position within what is left of the pile.
pub open spec fn valid_draws(n: nat, draws: Seq<usize>) -> bool {
    &&& draws.len() == n
    &&& forall|k: int| 0 <= k < n ==> #[trigger] draws[k] < n - k
}

/// The order in which the cards of `s` come out when they are drawn one by
/// one at the positions `draws`, each draw filling its gap with the last
/// card of the pile.
pub open spec fn shuffled<T>(s: Seq<T>, draws: Seq<usize>) -> Seq<T>
    decreases draws.len(),
{
    if draws.len() == 0 || s.len() == 0 {
        seq![]
    } else {
        seq![s[draws[0] as int]] + shuffled(
            swap_remove_back_seq(s, draws[0] as int),
            draws.drop_first(),
        )
    }
}

/// `s` with its first element moved to the end.
pub open spec fn rotated_left<T>(s: Seq<T>) -> Seq<T> {
    if s.len() == 0 {
        s
    } else {
        s.drop_first().push(s[0])
    }
}

/// `s` with its last element moved to the front.
pub open spec fn rotated_right<T>(s: Seq<T>) -> Seq<T> {
    if s.len() == 0 {
        s
    } else {
        seq![s.last()] + s.drop_last()
    }
}

/// Calls `VecDeque::swap_remove_back`, which removes the element at
/// `index` and puts the last element in its place, or returns `None` and
/// leaves the deque alone where `index` is out of bounds.
#[verifier::external_body]
fn swap_remove_back_at(deck: &mut VecDeque<Card>, index: usize) -> (r: Option<Card>)
    ensures
        match r {
            Some(x) => {
                &&& index < old(deck)@.len()
                &&& x == old(deck)@[index as int]
                &&& final(deck)@ == swap_remove_back_seq(old(deck)@, index as int)
            },
            None => {
                &&& index >= old(deck)@.len()
                &&& final(deck)@ == old(deck)@
            },
        },
{
    deck.swap_remove_back(index)
}

/// `r` is a number that the random source can hand back when asked for one
/// below `upper`, that is, a result of a call of `random_below(upper)`.
pub closed spec fn drawn_at_random(upper: usize, r: usize) -> bool {
    call_ensures(random_below, (upper,), r)
}

/// Each of the `n` draws is a result of the random source, asked for a
/// position within what is left of the pile at that draw.
pub open spec fn random_draws(n: nat, draws: Seq<usize>) -> bool {
    forall|k: int| 0 <= k < n ==> drawn_at_random((n - k) as usize, #[trigger] draws[k])
}

/// The random source only hands back numbers below what it was asked for.
pub proof fn lemma_drawn_at_random_below(upper: usize, r: usize)
    requires
        drawn_at_random(upper, r),
    ensures
        r < upper,
{
}

/// Calls `rand::thread_rng().gen_range(0..upper)`: a random number below
/// `upper`. Which one it is depends on chance alone, so nothing more is
/// said of it.
#[verifier::external_body]
fn random_below(upper: usize) -> (r: usize)
    requires
        upper > 0,
    ensures
        r < upper,
{
    rand::thread_rng().gen_range(0..upper)
}

/// Taking out the element at `i` and moving the last one into its place
/// keeps every other element: put the taken one back and the multiset is
/// whole again.
proof fn lemma_swap_remove_back_multiset<T>(s: Seq<T>, i: int)
    requires
        0 <= i < s.len(),
    ensures
        swap_remove_back_seq(s, i).to_multiset().insert(s[i]) == s.to_multiset(),
        swap_remove_back_seq(s, i).len() == s.len() - 1,
{
    let t = s.drop_last();
    assert(t.push(s.last()) =~= s);
    if i == s.len() - 1 {
    } else {
        let r = t.update(i, s.last());
        assert(r.remove(i) =~= t.remove(i));
        assert(r.to_multiset().contains(s.last()));
        assert(r.to_multiset() =~= r.to_multiset().remove(s.last()).insert(s.last()));
        assert(t.to_multiset().contains(s[i]));
        assert(t.to_multiset() =~= t.to_multiset().remove(s[i]).insert(s[i]));
        assert(r.to_multiset().insert(s[i]) =~= t.to_multiset().insert(s.last()));
    }
}

/// Shuffling along valid draws keeps exactly the cards of the deck: the
/// result is a permutation of it.
pub proof fn lemma_shuffled_is_permutation<T>(s: Seq<T>, draws: Seq<usize>)
    requires
        valid_draws(s.len(), draws),
    ensures
        shuffled(s, draws).to_multiset() == s.to_multiset(),
        shuffled(s, draws).len() == s.len(),
    decreases draws.len(),
{
    if s.len() == 0 {
        assert(s.to_multiset() =~= Multiset::<T>::empty());
        assert(shuffled(s, draws).to_multiset() =~= Multiset::<T>::empty());
    } else {
        let i = draws[0] as int;
        assert(draws[0] < s.len() - 0);
        let rest = swap_remove_back_seq(s, i);
        lemma_swap_remove_back_multiset(s, i);
        assert forall|k: int| 0 <= k < rest.len() implies #[trigger] draws.drop_first()[k] < rest.len() - k by {
            assert(draws[k + 1] < s.len() - (k + 1));
        }
        lemma_shuffled_is_permutation(rest, draws.drop_first());
        let tail = shuffled(rest, draws.drop_first());
        vstd::seq_lib::lemma_seq_union_to_multiset_commutative(seq![s[i]], tail);
        vstd::seq_lib::lemma_multiset_commutative(seq![s[i]], tail);
        assert(seq![s[i]].to_multiset() =~= Multiset::<T>::empty().insert(s[i])) by {
            assert(seq![s[i]] =~= Seq::<T>::empty().push(s[i]));
            assert(Seq::<T>::empty().to_multiset() =~= Multiset::<T>::empty());
        }
        assert(shuffled(s, draws).to_multiset() =~= s.to_multiset());
    }
}

/// Moving the bottom card to the top and then the top card back to the
/// bottom gives back the deck one started from, and so does the other order.
pub proof fn lemma_next_previous_inverse<T>(s: Seq<T>)
    ensures
        rotated_right(rotated_left(s)) == s,
        rotated_left(rotated_right(s)) == s,
{
    if s.len() > 0 {
        assert(rotated_left(s).last() == s[0]);
        assert(rotated_left(s).drop_last() =~= s.drop_first());
        assert(rotated_right(rotated_left(s)) =~= s);
        assert(rotated_right(s)[0] == s.last());
        assert(rotated_right(s).drop_first() =~= s.drop_last());
        assert(rotated_left(rotated_right(s)) =~= s);
    }
}

/// Turning the deck forward puts at each position the card that was one
/// place after it (the first card going to the end); turning it back puts
/// there the card that was one place before it (the last card going to the
/// front). The number of cards stays the same.
pub proof fn lemma_rotation_positions<T>(s: Seq<T>)
    ensures
        rotated_left(s).len() == s.len(),
        rotated_right(s).len() == s.len(),
        forall|i: int|
            0 <= i < s.len() ==> #[trigger] rotated_left(s)[i] == s[(i + 1) % (s.len() as int)],
        forall|i: int|
            0 <= i < s.len() ==> #[trigger] rotated_right(s)[i] == s[(i + s.len() - 1) % (
            s.len() as int)],
{
    let n = s.len() as int;
    assert forall|i: int| 0 <= i < n implies #[trigger] rotated_left(s)[i] == s[(i + 1) % n] by {
        if i + 1 < n {
            vstd::arithmetic::div_mod::lemma_small_mod((i + 1) as nat, n as nat);
        } else {
            vstd::arithmetic::div_mod::lemma_mod_self_0(n);
        }
    }
    assert forall|i: int| 0 <= i < n implies #[trigger] rotated_right(s)[i] == s[(i + n - 1) % n] by {
        if i == 0 {
            vstd::arithmetic::div_mod::lemma_small_mod((n - 1) as nat, n as nat);
        } else {
            vstd::arithmetic::div_mod::lemma_mod_add_multiples_vanish(i - 1, n);
            vstd::arithmetic::div_mod::lemma_small_mod((i - 1) as nat, n as nat);
        }
    }
}

/// Turning the deck either way keeps exactly its cards.
pub proof fn lemma_rotations_keep_cards<T>(s: Seq<T>)
    ensures
        rotated_left(s).to_multiset() == s.to_multiset(),
        rotated_right(s).to_multiset() == s.to_multiset(),
{
    if s.len() > 0 {
        assert(s.drop_first() =~= s.remove(0));
        assert(s.to_multiset().contains(s[0]));
        assert(s.to_multiset() =~= s.to_multiset().remove(s[0]).insert(s[0]));
        assert(rotated_left(s).to_multiset() =~= s.to_multiset());
        assert(s.drop_last().push(s.last()) =~= s);
        vstd::seq_lib::lemma_multiset_commutative(seq![s.last()], s.drop_last());
        assert(seq![s.last()] =~= Seq::<T>::empty().push(s.last()));
        assert(Seq::<T>::empty().to_multiset() =~= Multiset::<T>::empty());
        assert(rotated_right(s).to_multiset() =~= s.to_multiset());
    }
}

/// `s` after `k` moves of the bottom card to the top.
pub open spec fn rotated_left_times<T>(s: Seq<T>, k: nat) -> Seq<T>
    decreases k,
{
    if k == 0 {
        s
    } else {
        rotated_left(rotated_left_times(s, (k - 1) as nat))
    }
}

/// After `k` moves of the bottom card to the top, with `k` at most the
/// size of the deck, the first `k` cards have gone, in order, to the end.
pub proof fn lemma_rotated_left_times<T>(s: Seq<T>, k: nat)
    requires
        k <= s.len(),
    ensures
        rotated_left_times(s, k) == s.skip(k as int) + s.take(k as int),
    decreases k,
{
    if k == 0 {
        assert(s.skip(0) + s.take(0) =~= s);
    } else {
        lemma_rotated_left_times(s, (k - 1) as nat);
        let prev = s.skip(k - 1) + s.take(k - 1);
        assert(prev.len() == s.len());
        assert(prev[0] == s[k - 1]);
        assert(prev.drop_first().push(prev[0]) =~= s.skip(k as int) + s.take(k as int));
    }
}

/// Moving the bottom card to the top as many times as the deck has cards
/// gives back the deck one started from.
pub proof fn lemma_full_cycle<T>(s: Seq<T>)
    ensures
        rotated_left_times(s, s.len()) == s,
{
    lemma_rotated_left_times(s, s.len());
    assert(s.skip(s.len() as int) + s.take(s.len() as int) =~= s);
}

/// A card put on the deck is the card on top afterwards.
pub proof fn lemma_added_card_on_top<T>(s: Seq<T>, card: T)
    ensures
        s.push(card).len() > 0,
        s.push(card).last() == card,
{
}

impl Deck {
    /// Puts a card on top of the deck.
    pub fn _add_card(&mut self, card: Card)
        ensures
            final(self)@ == old(self)@.push(card),
    {
        self.deck.push_back(card);
    }

    /// The card on top of the deck, if there is one.
    pub fn top_card(&self) -> (r: Option<&Card>)
        ensures
            r == (if self@.len() == 0 {
                None
            } else {
                Some(&self@.last())
            }),
    {
        let n = self.deck.len();
        if n == 0 {
            None
        } else {
            Some(&self.deck[n - 1])
        }
    }

    /// Moves the bottom card to the top.
    pub fn next_card(&mut self)
        ensures
            final(self)@ == rotated_left(old(self)@),
            final(self)@.len() == old(self)@.len(),
            forall|i: int|
                0 <= i < old(self)@.len() ==> #[trigger] final(self)@[i] == old(self)@[(i + 1) % (
                old(self)@.len() as int)],
    {
        proof {
            lemma_rotation_positions(self@);
        }
        if self.deck.len() != 0 {
            match self.deck.pop_front() {
                Some(card) => self.deck.push_back(card),
                None => {},
            }
        }
    }

    /// Moves the top card to the bottom.
    pub fn previous_card(&mut self)
        ensures
            final(self)@ == rotated_right(old(self)@),
            final(self)@.len() == old(self)@.len(),
            forall|i: int|
                0 <= i < old(self)@.len() ==> #[trigger] final(self)@[i] == old(self)@[(i + old(
                self)@.len() - 1) % (old(self)@.len() as int)],
    {
        proof {
            lemma_rotation_positions(self@);
        }
        if self.deck.len() != 0 {
            match self.deck.pop_back() {
                Some(card) => self.deck.push_front(card),
                None => {},
            }
        }
    }

    /// Shuffles the deck along the given draws: the cards are taken out one
    /// by one, the `k`-th at position `draws[k]` of what is left, with the
    /// last card filling the gap, and the cards come out in the new deck in
    /// the order in which they were drawn.
    pub fn shuffle_with(&mut self, draws: &Vec<usize>)
        requires
            valid_draws(old(self)@.len(), draws@),
        ensures
            final(self)@ == shuffled(old(self)@, draws@),
    {
        let ghost whole = self.deck@;
        let mut new_deck: VecDeque<Card> = VecDeque::new();
        let n = draws.len();
        let mut k: usize = 0;
        assert(draws@.skip(0) =~= draws@);
        assert(new_deck@ + shuffled(whole, draws@) =~= shuffled(whole, draws@));
        while k < n
            invariant
                n == draws@.len(),
                k <= n,
                self.deck@.len() == n - k,
                forall|j: int| k <= j < n ==> #[trigger] draws@[j] < n - j,
                shuffled(whole, draws@) == new_deck@ + shuffled(self.deck@, draws@.skip(k as int)),
            decreases n - k,
        {
            let ghost before = self.deck@;
            let d = draws[k];
            assert(draws@.skip(k as int).drop_first() =~= draws@.skip(k + 1));
            assert(draws@.skip(k as int)[0] == d);
            match swap_remove_back_at(&mut self.deck, d) {
                Some(card) => {
                    proof {
                        assert(shuffled(before, draws@.skip(k as int)) == seq![card] + shuffled(
                            self.deck@,
                            draws@.skip(k + 1),
                        ));
                        assert(new_deck@.push(card) + shuffled(self.deck@, draws@.skip(k + 1))
                            =~= new_deck@ + (seq![card] + shuffled(self.deck@, draws@.skip(k + 1))));
                    }
                    new_deck.push_back(card);
                },
                None => {},
            }
            k = k + 1;
        }
        assert(shuffled(self.deck@, draws@.skip(n as int)) =~= Seq::<Card>::empty());
        assert(new_deck@ + Seq::<Card>::empty() =~= new_deck@);
        self.deck = new_deck;
    }

    /// Shuffles the deck at random: each card is drawn from what is left at
    /// a random position, as `shuffle_with` does for given draws.
    pub fn shuffle(&mut self)
        ensures
            exists|draws: Seq<usize>|
                #![trigger shuffled(old(self)@, draws)]
                valid_draws(old(self)@.len(), draws) && random_draws(old(self)@.len(), draws)
                    && final(self)@ == shuffled(old(self)@, draws),
            final(self)@.to_multiset() == old(self)@.to_multiset(),
    {
        let n = self.deck.len();
        let mut draws: Vec<usize> = Vec::new();
        let mut k: usize = 0;
        while k < n
            invariant
                k <= n,
                draws@.len() == k,
                forall|j: int| 0 <= j < k ==> #[trigger] draws@[j] < n - j,
                forall|j: int| 0 <= j < k ==> drawn_at_random((n - j) as usize, #[trigger] draws@[j]),
            decreases n - k,
        {
            let d = random_below(n - k);
            draws.push(d);
            k = k + 1;
        }
        let ghost before = self@;
        self.shuffle_with(&draws);
        proof {
            lemma_shuffled_is_permutation(before, draws@);
        }
    }
}

} // verus!
