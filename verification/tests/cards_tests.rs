use planar::cards::{
    card_from_record, cards_from_lines, drawable_name_of, image_path_of, resource_map_entry_of,
};
use planar::{get_card_type, Card, CardType};

#[test]
fn card_type_plane_text() {
    assert_eq!(get_card_type("Plane".to_string()), CardType::Plane);
}

#[test]
fn card_type_other_text_is_phenomenon() {
    assert_eq!(get_card_type("Phenomenon".to_string()), CardType::Phenomenon);
    assert_eq!(get_card_type("plane".to_string()), CardType::Phenomenon);
    assert_eq!(get_card_type(String::new()), CardType::Phenomenon);
}

#[test]
fn card_type_text_round_trip() {
    for t in [CardType::Plane, CardType::Phenomenon] {
        assert_eq!(get_card_type(t.as_str().to_string()), t);
    }
    assert_eq!(CardType::Plane.as_str(), "Plane");
    assert_eq!(CardType::Phenomenon.as_str(), "Phenomenon");
}

#[test]
fn defaults() {
    assert_eq!(CardType::default(), CardType::Plane);
    let c = Card::default();
    assert_eq!(c.card_type, CardType::Plane);
    assert!(c.name.is_empty() && c.desc.is_empty() && c.image.is_empty());
}

#[test]
fn record_becomes_card() {
    let c = card_from_record(
        "Academy at Tolaria West".to_string(),
        "Plane".to_string(),
        "Draw seven cards".to_string(),
    );
    assert_eq!(c.name, "Academy at Tolaria West");
    assert_eq!(c.desc, "Draw seven cards");
    assert_eq!(c.card_type, CardType::Plane);
    assert_eq!(c.image, "");
}

#[test]
fn image_paths() {
    assert_eq!(
        image_path_of(CardType::Plane, "Academy at Tolaria West"),
        "resources/planes/Academy_at_Tolaria_West.png"
    );
    assert_eq!(
        image_path_of(CardType::Phenomenon, "Chaotic Aether"),
        "resources/phenomenon/Chaotic_Aether.png"
    );
}

#[test]
fn lines_become_cards() {
    let lines: Vec<String> = vec![
        "Agyrem".to_string(),
        "White creatures return".to_string(),
        "Bant".to_string(),
        "Exalted".to_string(),
        "Dangling".to_string(),
    ];
    let cards = cards_from_lines(&lines, CardType::Plane);
    assert_eq!(cards.len(), 2);
    assert_eq!(cards[0].name, "Agyrem");
    assert_eq!(cards[0].desc, "White creatures return");
    assert_eq!(cards[0].image, "resources/planes/Agyrem.png");
    assert_eq!(cards[1].name, "Bant");
    assert_eq!(cards[1].desc, "Exalted");
    assert_eq!(cards[1].card_type, CardType::Plane);
    assert!(cards_from_lines(&Vec::new(), CardType::Phenomenon).is_empty());
}

#[test]
fn drawable_names() {
    assert_eq!(drawable_name_of("Academy at Tolaria West"), "academy_at_tolaria_west");
    assert_eq!(drawable_name_of("Kor'rai-Nad"), "korrai_nad");
    assert_eq!(drawable_name_of("Sokenzan, 7"), "sokenzan,_7");
}

#[test]
fn resource_map_line() {
    assert_eq!(
        resource_map_entry_of("The Eon Fog"),
        "resourceMap[\"The Eon Fog\"] = R.drawable.the_eon_fog"
    );
}
