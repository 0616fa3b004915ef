use std::collections::VecDeque;

use vstd::prelude::*;

use crate::cards::Card;
use crate::deck::{
    lemma_rotations_keep_cards, lemma_shuffled_is_permutation, random_draws, rotated_left,
    rotated_right, shuffled, valid_draws, Deck,
};

verus! {

/// What the user interface asks of the application.
#[derive(Debug)]
pub enum Event {
    Initialize(String),
    AddDeckToDB,
    GetDeckFromDB(String),
    NextCard,
    PreviousCard,
    SetDatabase,
    SetImage(String, u8),
    ShuffleActive,
    NoOp,
}

/// The state of the application: where its database lives and the deck in
/// play.
#[derive(Debug)]
pub struct Model {
    pub base_path: String,
    pub active_deck: Deck,
}

impl Default for Model {
    fn default() -> (m: Self)
        ensures
            m.base_path@ == Seq::<char>::empty(),
            m.active_deck@ == Seq::<Card>::empty(),
    {
        Model { base_path: String::new(), active_deck: Deck::default() }
    }
}

/// What the user interface shows: the name of the card on top.
#[derive(Debug)]
pub struct ViewModel {
    pub active_card: String,
}

/// The application.
#[derive(Debug, Default)]
pub struct Planar;

/// Work that an update leaves to the shell, which owns the database and the
/// screen. The shell performs the actions in the order given.
#[derive(Debug)]
pub enum Action {
    /// Make sure that the card table exists in the database at `path`,
    /// filling it from the catalogue when it is created.
    EnsureCardDb { path: String },
    /// Make sure that the deck table exists in the database at `path`.
    EnsureDeckDb { path: String },
    /// Replace the active deck with `set_default_deck` of the catalogue.
    InstallDefaultDeck,
    /// Store `deck` under `deck_name` in the database at `path`.
    AddDeckToDb { path: String, deck_name: String, deck: Deck },
    /// Read the deck stored under `deck_name` in the database at `path`.
    GetDeckFromDb { path: String, deck_name: String },
    /// Set the image field of the card `name` in the database at `path`.
    SetImage { path: String, name: String, id: u8 },
    /// Draw the user interface again.
    Render,
}

/// The name under which an update stores a new deck.
pub open spec fn temp_deck_name() -> Seq<char> {
    "temp"@
}

/// The name that the view shows when the deck is empty.
pub open spec fn empty_deck_label() -> Seq<char> {
    "cat"@
}

/// What `update` does: how the model after an event relates to the model
/// before it, and which actions it hands to the shell.
pub open spec fn update_spec(event: Event, before: Model, after: Model, actions: Seq<Action>) -> bool {
    match event {
        Event::Initialize(path) => {
            &&& after.base_path == path
            &&& after.active_deck == before.active_deck
            &&& actions == seq![
                Action::EnsureCardDb { path },
                Action::EnsureDeckDb { path },
                Action::InstallDefaultDeck,
                Action::Render,
            ]
        },
        Event::AddDeckToDB => {
            &&& after == before
            &&& actions.len() == 1
            &&& actions[0] matches Action::AddDeckToDb { path, deck_name, deck }
            &&& path == before.base_path
            &&& deck_name@ == temp_deck_name()
            &&& deck@ == Seq::<Card>::empty()
        },
        Event::GetDeckFromDB(name) => {
            &&& after == before
            &&& actions == seq![Action::GetDeckFromDb { path: before.base_path, deck_name: name }]
        },
        Event::NextCard => {
            &&& after.base_path == before.base_path
            &&& after.active_deck@ == rotated_left(before.active_deck@)
            &&& actions == seq![Action::Render]
        },
        Event::PreviousCard => {
            &&& after.base_path == before.base_path
            &&& after.active_deck@ == rotated_right(before.active_deck@)
            &&& actions == seq![Action::Render]
        },
        Event::SetDatabase => {
            &&& after == before
            &&& actions == seq![
                Action::EnsureCardDb { path: before.base_path },
                Action::EnsureDeckDb { path: before.base_path },
            ]
        },
        Event::SetImage(name, id) => {
            &&& after == before
            &&& actions == seq![Action::SetImage { path: before.base_path, name, id }]
        },
        Event::ShuffleActive => {
            &&& after.base_path == before.base_path
            &&& exists|draws: Seq<usize>|
                #![trigger shuffled(before.active_deck@, draws)]
                valid_draws(before.active_deck@.len(), draws) && random_draws(
                    before.active_deck@.len(),
                    draws,
                ) && after.active_deck@ == shuffled(before.active_deck@, draws)
            &&& actions == seq![Action::Render]
        },
        Event::NoOp => {
            &&& after == before
            &&& actions == seq![Action::Render]
        },
    }
}

/// No event changes which cards the active deck holds: it may turn or
/// shuffle them, never add or lose one. (A new deck only comes in through
/// `Action::InstallDefaultDeck`, which the shell performs.)
pub proof fn lemma_update_keeps_cards(event: Event, before: Model, after: Model, actions: Seq<Action>)
    requires
        update_spec(event, before, after, actions),
    ensures
        after.active_deck@.to_multiset() == before.active_deck@.to_multiset(),
{
    lemma_rotations_keep_cards(before.active_deck@);
    if event is ShuffleActive {
        let draws = choose|draws: Seq<usize>|
            #![trigger shuffled(before.active_deck@, draws)]
            valid_draws(before.active_deck@.len(), draws) && random_draws(
                before.active_deck@.len(),
                draws,
            ) && after.active_deck@ == shuffled(before.active_deck@, draws);
        lemma_shuffled_is_permutation(before.active_deck@, draws);
    }
}

/// The events that only hand work to the shell and leave the model alone:
/// all but `Initialize` and the three that turn or shuffle the deck.
pub open spec fn leaves_model(event: Event) -> bool {
    !(event is Initialize || event is NextCard || event is PreviousCard || event is ShuffleActive)
}

/// Storing or reading a deck, setting up the database, setting an image or
/// doing nothing leaves the model as it was; every event but `Initialize`
/// keeps the database path, and `Initialize` keeps the deck.
pub proof fn lemma_update_leaves_model(event: Event, before: Model, after: Model, actions: Seq<Action>)
    requires
        update_spec(event, before, after, actions),
    ensures
        leaves_model(event) ==> after == before,
        !(event is Initialize) ==> after.base_path == before.base_path,
        event is Initialize ==> after.active_deck == before.active_deck,
{
}

/// The deck of all given cards, shuffled at random.
pub fn set_default_deck(cards: Vec<Card>) -> (deck: Deck)
    ensures
        exists|draws: Seq<usize>|
            #![trigger shuffled(cards@, draws)]
            valid_draws(cards@.len(), draws) && random_draws(cards@.len(), draws) && deck@
                == shuffled(cards@, draws),
        deck@.to_multiset() == cards@.to_multiset(),
{
    let ghost all = cards@;
    let mut cards = cards;
    let mut pile: VecDeque<Card> = VecDeque::new();
    while cards.len() > 0
        invariant
            cards@ + pile@ == all,
        decreases cards.len(),
    {
        let ghost rest = cards@;
        match cards.pop() {
            Some(card) => {
                assert(cards@ + (seq![card] + pile@) =~= rest + pile@);
                pile.push_front(card);
            },
            None => {},
        }
    }
    assert(cards@ + pile@ =~= pile@);
    let mut deck = Deck { deck: pile };
    deck.shuffle();
    deck
}

impl Planar {
    /// Applies an event to the model and returns the actions that the shell
    /// must perform, in order.
    pub fn update(&self, event: Event, model: &mut Model) -> (actions: Vec<Action>)
        ensures
            update_spec(event, *old(model), *final(model), actions@),
            leaves_model(event) ==> *final(model) == *old(model),
            !(event is Initialize) ==> final(model).base_path == old(model).base_path,
            event is Initialize ==> final(model).active_deck == old(model).active_deck,
    {
        let mut actions: Vec<Action> = Vec::new();
        match event {
            Event::Initialize(path) => {
                model.base_path = path;
                actions.push(Action::EnsureCardDb { path: model.base_path.clone() });
                actions.push(Action::EnsureDeckDb { path: model.base_path.clone() });
                actions.push(Action::InstallDefaultDeck);
                actions.push(Action::Render);
                assert(actions@ =~= seq![
                    Action::EnsureCardDb { path: model.base_path },
                    Action::EnsureDeckDb { path: model.base_path },
                    Action::InstallDefaultDeck,
                    Action::Render,
                ]);
            },
            Event::AddDeckToDB => {
                let temp_deck = Deck::default();
                actions.push(
                    Action::AddDeckToDb {
                        path: model.base_path.clone(),
                        deck_name: String::from_str("temp"),
                        deck: temp_deck,
                    },
                );
            },
            Event::GetDeckFromDB(name) => {
                actions.push(
                    Action::GetDeckFromDb { path: model.base_path.clone(), deck_name: name },
                );
            },
            Event::NextCard => {
                model.active_deck.next_card();
                actions.push(Action::Render);
            },
            Event::PreviousCard => {
                model.active_deck.previous_card();
                actions.push(Action::Render);
            },
            Event::SetDatabase => {
                actions.push(Action::EnsureCardDb { path: model.base_path.clone() });
                actions.push(Action::EnsureDeckDb { path: model.base_path.clone() });
                assert(actions@ =~= seq![
                    Action::EnsureCardDb { path: model.base_path },
                    Action::EnsureDeckDb { path: model.base_path },
                ]);
            },
            Event::SetImage(name, id) => {
                actions.push(Action::SetImage { path: model.base_path.clone(), name, id });
            },
            Event::ShuffleActive => {
                model.active_deck.shuffle();
                actions.push(Action::Render);
            },
            Event::NoOp => {
                actions.push(Action::Render);
            },
        }
        actions
    }

    /// What the user interface shows for the model: the name of the card on
    /// top of the deck, or `cat` when the deck is empty.
    pub fn view(&self, model: &Model) -> (vm: ViewModel)
        ensures
            vm.active_card@ == (if model.active_deck@.len() == 0 {
                empty_deck_label()
            } else {
                model.active_deck@.last().name@
            }),
    {
        let active_card = match model.active_deck.top_card() {
            Some(card) => card.name.clone(),
            None => String::from_str("cat"),
        };
        ViewModel { active_card }
    }
}

} // verus!
