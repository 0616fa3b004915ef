use planar::{Action, Card, CardType, Event, Model, Planar};

fn card(name: &str) -> Card {
    Card {
        card_type: CardType::Phenomenon,
        desc: String::new(),
        image: String::new(),
        name: name.to_string(),
    }
}

fn model_with(names: &[&str]) -> Model {
    let mut m = Model::default();
    m.base_path = "db.sqlite".to_string();
    for n in names {
        m.active_deck._add_card(card(n));
    }
    m
}

fn deck_names(m: &Model) -> Vec<String> {
    m.active_deck.deck.iter().map(|c| c.name.clone()).collect()
}

#[test]
fn view_shows_top_card_or_cat() {
    let app = Planar;
    assert_eq!(app.view(&Model::default()).active_card, "cat");
    assert_eq!(app.view(&model_with(&["A", "B"])).active_card, "B");
}

#[test]
fn initialize_sets_path_and_asks_for_databases() {
    let app = Planar;
    let mut m = Model::default();
    let actions = app.update(Event::Initialize("/data/planar.db".to_string()), &mut m);
    assert_eq!(m.base_path, "/data/planar.db");
    assert_eq!(actions.len(), 4);
    assert!(matches!(&actions[0], Action::EnsureCardDb { path } if path == "/data/planar.db"));
    assert!(matches!(&actions[1], Action::EnsureDeckDb { path } if path == "/data/planar.db"));
    assert!(matches!(&actions[2], Action::InstallDefaultDeck));
    assert!(matches!(&actions[3], Action::Render));
}

#[test]
fn add_deck_stores_empty_temp_deck() {
    let app = Planar;
    let mut m = model_with(&["A"]);
    let actions = app.update(Event::AddDeckToDB, &mut m);
    assert_eq!(actions.len(), 1);
    match &actions[0] {
        Action::AddDeckToDb { path, deck_name, deck } => {
            assert_eq!(path, "db.sqlite");
            assert_eq!(deck_name, "temp");
            assert!(deck.deck.is_empty());
        }
        other => panic!("unexpected {:?}", other),
    }
    assert_eq!(deck_names(&m), vec!["A"]);
}

#[test]
fn get_deck_asks_the_database() {
    let app = Planar;
    let mut m = model_with(&[]);
    let actions = app.update(Event::GetDeckFromDB("mine".to_string()), &mut m);
    assert_eq!(actions.len(), 1);
    assert!(matches!(&actions[0], Action::GetDeckFromDb { path, deck_name }
        if path == "db.sqlite" && deck_name == "mine"));
}

#[test]
fn next_and_previous_turn_the_deck_and_render() {
    let app = Planar;
    let mut m = model_with(&["A", "B", "C"]);
    let actions = app.update(Event::NextCard, &mut m);
    assert_eq!(deck_names(&m), vec!["B", "C", "A"]);
    assert!(actions.len() == 1 && matches!(actions[0], Action::Render));
    let actions = app.update(Event::PreviousCard, &mut m);
    assert_eq!(deck_names(&m), vec!["A", "B", "C"]);
    assert!(actions.len() == 1 && matches!(actions[0], Action::Render));
}

#[test]
fn set_database_asks_for_both_tables() {
    let app = Planar;
    let mut m = model_with(&[]);
    let actions = app.update(Event::SetDatabase, &mut m);
    assert_eq!(actions.len(), 2);
    assert!(matches!(&actions[0], Action::EnsureCardDb { path } if path == "db.sqlite"));
    assert!(matches!(&actions[1], Action::EnsureDeckDb { path } if path == "db.sqlite"));
}

#[test]
fn set_image_asks_the_database() {
    let app = Planar;
    let mut m = model_with(&[]);
    let actions = app.update(Event::SetImage("Agyrem".to_string(), 7), &mut m);
    assert_eq!(actions.len(), 1);
    assert!(matches!(&actions[0], Action::SetImage { path, name, id }
        if path == "db.sqlite" && name == "Agyrem" && *id == 7));
}

#[test]
fn shuffle_active_keeps_cards_and_renders() {
    let app = Planar;
    let mut m = model_with(&["A", "B", "C", "D"]);
    let actions = app.update(Event::ShuffleActive, &mut m);
    let mut names = deck_names(&m);
    names.sort();
    assert_eq!(names, vec!["A", "B", "C", "D"]);
    assert!(actions.len() == 1 && matches!(actions[0], Action::Render));
}

#[test]
fn no_op_only_renders() {
    let app = Planar;
    let mut m = model_with(&["A"]);
    let actions = app.update(Event::NoOp, &mut m);
    assert!(actions.len() == 1 && matches!(actions[0], Action::Render));
    assert_eq!(deck_names(&m), vec!["A"]);
    assert_eq!(m.base_path, "db.sqlite");
}
