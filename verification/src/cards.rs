use vstd::prelude::*;

use crate::text::push_char;

verus! {

/// The two kinds of planar cards.
#[derive(Clone, Copy, Debug, PartialEq, Eq, Structural)]
pub enum CardType {
    Plane,
    Phenomenon,
}

impl Default for CardType {
    fn default() -> (r: Self)
        ensures
            r == CardType::Plane,
    {
        CardType::Plane
    }
}

/// A card of the catalogue.
#[derive(Debug)]
pub struct Card {
    pub card_type: CardType,
    pub desc: String,
    pub image: String,
    pub name: String,
}

impl Default for Card {
    fn default() -> (r: Self)
        ensures
            r.card_type == CardType::Plane,
            r.desc@ == Seq::<char>::empty(),
            r.image@ == Seq::<char>::empty(),
            r.name@ == Seq::<char>::empty(),
    {
        Card {
            card_type: CardType::Plane,
            desc: String::new(),
            image: String::new(),
            name: String::new(),
        }
    }
}

/// The text that names a card type in storage.
pub open spec fn card_type_text(t: CardType) -> Seq<char> {
    match t {
        CardType::Plane => "Plane"@,
        CardType::Phenomenon => "Phenomenon"@,
    }
}

/// The card type that a stored text stands for: `Plane` gives `Plane`,
/// every other text gives `Phenomenon`.
pub open spec fn card_type_of(text: Seq<char>) -> CardType {
    if text == "Plane"@ {
        CardType::Plane
    } else {
        CardType::Phenomenon
    }
}

/// Reads a card type from its stored text.
pub fn get_card_type(card_type: String) -> (r: CardType)
    ensures
        r == card_type_of(card_type@),
{
    let plane = String::from_str("Plane");
    if card_type == plane {
        CardType::Plane
    } else {
        CardType::Phenomenon
    }
}

impl CardType {
    /// The text under which this card type is stored.
    pub fn as_str(self) -> (s: &'static str)
        ensures
            s@ == card_type_text(self),
    {
        match self {
            CardType::Plane => "Plane",
            CardType::Phenomenon => "Phenomenon",
        }
    }
}

/// Storing a card type as text and reading it back gives the same card type.
pub proof fn lemma_card_type_text_round_trip(t: CardType)
    ensures
        card_type_of(card_type_text(t)) == t,
{
    reveal_strlit("Plane");
    reveal_strlit("Phenomenon");
    if t == CardType::Phenomenon {
        assert("Phenomenon"@.len() != "Plane"@.len());
    }
}

/// Builds a card from a stored record; the image is left empty.
pub fn card_from_record(name: String, card_type: String, desc: String) -> (card: Card)
    ensures
        card.name == name,
        card.desc == desc,
        card.card_type == card_type_of(card_type@),
        card.image@ == Seq::<char>::empty(),
{
    Card { card_type: get_card_type(card_type), desc, image: String::new(), name }
}


/// `name` with every space replaced by an underscore.
pub open spec fn underscore_spaces(name: Seq<char>) -> Seq<char> {
    name.map_values(|c: char| if c == ' ' { '_' } else { c })
}

/// The folder that holds the pictures of one card type.
pub open spec fn image_folder(t: CardType) -> Seq<char> {
    match t {
        CardType::Plane => "resources/planes/"@,
        CardType::Phenomenon => "resources/phenomenon/"@,
    }
}

/// The picture path of a card: its folder, the name with spaces turned to
/// underscores, and `.png`.
pub open spec fn image_path(t: CardType, name: Seq<char>) -> Seq<char> {
    image_folder(t) + underscore_spaces(name) + ".png"@
}

/// The picture path is the card type's folder, then the name with each
/// space, and nothing else, turned into an underscore, then `.png`.
pub proof fn lemma_image_path_layout(t: CardType, name: Seq<char>)
    ensures
        image_path(t, name).len() == image_folder(t).len() + name.len() + 4,
        image_path(t, name).take(image_folder(t).len() as int) == image_folder(t),
        forall|i: int|
            0 <= i < name.len() ==> image_path(t, name)[image_folder(t).len() + i] == (if #[trigger] name[i]
                == ' ' {
                '_'
            } else {
                name[i]
            }),
        image_path(t, name).skip((image_folder(t).len() + name.len()) as int) == ".png"@,
{
    reveal_strlit(".png");
    let f = image_folder(t);
    let p = image_path(t, name);
    assert(p.take(f.len() as int) =~= f);
    assert(p.skip((f.len() + name.len()) as int) =~= ".png"@);
    assert forall|i: int| 0 <= i < name.len() implies p[f.len() + i] == (if #[trigger] name[i] == ' ' {
        '_'
    } else {
        name[i]
    }) by {
        assert(p[f.len() + i] == underscore_spaces(name)[i]);
    }
}

/// Computes the picture path of a card of type `card_type` named `name`.
pub fn image_path_of(card_type: CardType, name: &str) -> (path: String)
    ensures
        path@ == image_path(card_type, name@),
        path@.len() == image_folder(card_type).len() + name@.len() + 4,
        path@.take(image_folder(card_type).len() as int) == image_folder(card_type),
        forall|i: int|
            0 <= i < name@.len() ==> path@[image_folder(card_type).len() + i] == (if #[trigger] name@[i]
                == ' ' {
                '_'
            } else {
                name@[i]
            }),
        path@.skip((image_folder(card_type).len() + name@.len()) as int) == ".png"@,
{
    proof {
        lemma_image_path_layout(card_type, name@);
    }
    let mut path = match card_type {
        CardType::Plane => String::from_str("resources/planes/"),
        CardType::Phenomenon => String::from_str("resources/phenomenon/"),
    };
    let ghost folder = path@;
    let n = name.unicode_len();
    let mut i: usize = 0;
    while i < n
        invariant
            n == name@.len(),
            i <= n,
            folder == image_folder(card_type),
            path@ == folder + underscore_spaces(name@.take(i as int)),
        decreases n - i,
    {
        let c = name.get_char(i);
        push_char(&mut path, if c == ' ' { '_' } else { c });
        assert(underscore_spaces(name@.take(i + 1)) =~= underscore_spaces(name@.take(i as int)).push(
            if c == ' ' { '_' } else { c },
        ));
        i = i + 1;
    }
    assert(name@.take(n as int) =~= name@);
    path.append(".png");
    path
}


/// The card that lines `2 * i` (its name) and `2 * i + 1` (its
/// description) of a card list describe.
pub open spec fn card_from_lines_spec(lines: Seq<String>, i: int, t: CardType, card: Card) -> bool {
    &&& card.name == lines[2 * i]
    &&& card.desc == lines[2 * i + 1]
    &&& card.card_type == t
    &&& card.image@ == image_path(t, lines[2 * i]@)
}

/// A card read from lines `2 * i` and `2 * i + 1` of a list of type `t`
/// has type `t`, the name of line `2 * i` and the description of line
/// `2 * i + 1`, and its picture path keeps every character of that name
/// but spaces, which become underscores.
pub proof fn lemma_card_from_lines_fields(lines: Seq<String>, i: int, t: CardType, card: Card)
    requires
        card_from_lines_spec(lines, i, t, card),
    ensures
        card.card_type == t,
        card.name == lines[2 * i],
        card.desc == lines[2 * i + 1],
        forall|j: int|
            0 <= j < lines[2 * i]@.len() ==> card.image@[image_folder(t).len() + j] == (if #[trigger] lines[2
                * i]@[j] == ' ' {
                '_'
            } else {
                lines[2 * i]@[j]
            }),
{
    lemma_image_path_layout(t, lines[2 * i]@);
}

/// Reads a card list of type `card_type`: the lines alternate between a
/// card's name and its description; a last name without a description is
/// dropped.
pub fn cards_from_lines(lines: &Vec<String>, card_type: CardType) -> (cards: Vec<Card>)
    ensures
        cards.len() == lines.len() / 2,
        forall|i: int|
            0 <= i < cards.len() ==> #[trigger] card_from_lines_spec(
                lines@,
                i,
                card_type,
                cards@[i],
            ),
        forall|i: int|
            0 <= i < cards.len() ==> {
                &&& (#[trigger] cards@[i]).card_type == card_type
                &&& cards@[i].name == lines@[2 * i]
                &&& cards@[i].desc == lines@[2 * i + 1]
                &&& cards@[i].image@ == image_path(card_type, lines@[2 * i]@)
            },
{
    let mut cards: Vec<Card> = Vec::new();
    let mut i: usize = 0;
    while i + 1 < lines.len()
        invariant
            i % 2 == 0,
            i <= lines.len(),
            cards.len() == i / 2,
            forall|k: int|
                0 <= k < cards.len() ==> #[trigger] card_from_lines_spec(
                    lines@,
                    k,
                    card_type,
                    cards@[k],
                ),
            forall|k: int|
                0 <= k < cards.len() ==> {
                    &&& (#[trigger] cards@[k]).card_type == card_type
                    &&& cards@[k].name == lines@[2 * k]
                    &&& cards@[k].desc == lines@[2 * k + 1]
                    &&& cards@[k].image@ == image_path(card_type, lines@[2 * k]@)
                },
        decreases lines.len() - i,
    {
        let name = lines[i].clone();
        let desc = lines[i + 1].clone();
        let image = image_path_of(card_type, name.as_str());
        let card = Card { card_type, desc, image, name };
        assert(card_from_lines_spec(lines@, cards.len() as int, card_type, card));
        cards.push(card);
        i = i + 2;
    }
    cards
}


/// What one character of a card name becomes in its drawable resource
/// name: spaces and hyphens become underscores, apostrophes are dropped,
/// ASCII capitals become lower case, everything else stays.
pub open spec fn drawable_chars(c: char) -> Seq<char> {
    if c == ' ' || c == '-' {
        seq!['_']
    } else if c == '\'' {
        seq![]
    } else if 'A' <= c <= 'Z' {
        seq![((c as u32) + 32) as char]
    } else {
        seq![c]
    }
}

/// The drawable resource name of a card name, character by character.
pub open spec fn drawable_name(name: Seq<char>) -> Seq<char>
    decreases name.len(),
{
    if name.len() == 0 {
        seq![]
    } else {
        drawable_name(name.drop_last()) + drawable_chars(name.last())
    }
}

/// A drawable resource name holds no ASCII capital, no space, no hyphen
/// and no apostrophe.
pub proof fn lemma_drawable_name_clean(name: Seq<char>)
    ensures
        forall|i: int|
            0 <= i < drawable_name(name).len() ==> {
                &&& !('A' <= #[trigger] drawable_name(name)[i] <= 'Z')
                &&& drawable_name(name)[i] != ' '
                &&& drawable_name(name)[i] != '-'
                &&& drawable_name(name)[i] != '\''
            },
    decreases name.len(),
{
    if name.len() > 0 {
        lemma_drawable_name_clean(name.drop_last());
        let c = name.last();
        if 'A' <= c <= 'Z' {
            let l = ((c as u32) + 32) as char;
            assert('a' <= l <= 'z');
        }
        let d = drawable_name(name);
        let front = drawable_name(name.drop_last());
        assert forall|i: int| 0 <= i < d.len() implies {
            &&& !('A' <= #[trigger] d[i] <= 'Z')
            &&& d[i] != ' '
            &&& d[i] != '-'
            &&& d[i] != '\''
        } by {
            if i < front.len() {
                assert(d[i] == front[i]);
            } else {
                assert(d[i] == drawable_chars(c)[i - front.len()]);
            }
        }
    }
}

/// For a name without apostrophes, the drawable name has one character per
/// character of the name: spaces and hyphens become underscores, ASCII
/// capitals their lower case, every other character stays.
pub proof fn lemma_drawable_name_per_char(name: Seq<char>)
    requires
        !name.contains('\''),
    ensures
        drawable_name(name).len() == name.len(),
        forall|i: int|
            0 <= i < name.len() ==> drawable_name(name)[i] == (if #[trigger] name[i] == ' ' || name[i]
                == '-' {
                '_'
            } else if 'A' <= name[i] <= 'Z' {
                ((name[i] as u32) + 32) as char
            } else {
                name[i]
            }),
    decreases name.len(),
{
    if name.len() > 0 {
        let front = name.drop_last();
        assert(!front.contains('\'')) by {
            if front.contains('\'') {
                let j = choose|j: int| 0 <= j < front.len() && front[j] == '\'';
                assert(name[j] == '\'');
            }
        }
        assert(name.last() != '\'') by {
            assert(name[name.len() - 1] == name.last());
        }
        lemma_drawable_name_per_char(front);
        assert forall|i: int| 0 <= i < name.len() implies drawable_name(name)[i] == (if #[trigger] name[i]
            == ' ' || name[i] == '-' {
            '_'
        } else if 'A' <= name[i] <= 'Z' {
            ((name[i] as u32) + 32) as char
        } else {
            name[i]
        }) by {
            if i < front.len() {
                assert(name[i] == front[i]);
            }
        }
    }
}

/// Computes the drawable resource name of a card name.
pub fn drawable_name_of(name: &str) -> (res: String)
    ensures
        res@ == drawable_name(name@),
        forall|i: int|
            0 <= i < res@.len() ==> {
                &&& !('A' <= #[trigger] res@[i] <= 'Z')
                &&& res@[i] != ' '
                &&& res@[i] != '-'
                &&& res@[i] != '\''
            },
        !name@.contains('\'') ==> res@.len() == name@.len(),
        !name@.contains('\'') ==> forall|i: int|
            0 <= i < name@.len() ==> res@[i] == (if #[trigger] name@[i] == ' ' || name@[i] == '-' {
                '_'
            } else if 'A' <= name@[i] <= 'Z' {
                ((name@[i] as u32) + 32) as char
            } else {
                name@[i]
            }),
{
    proof {
        lemma_drawable_name_clean(name@);
        if !name@.contains('\'') {
            lemma_drawable_name_per_char(name@);
        }
    }
    let mut res = String::new();
    let n = name.unicode_len();
    let mut i: usize = 0;
    while i < n
        invariant
            n == name@.len(),
            i <= n,
            res@ == drawable_name(name@.take(i as int)),
        decreases n - i,
    {
        let c = name.get_char(i);
        assert(name@.take(i + 1).drop_last() =~= name@.take(i as int));
        if c == ' ' || c == '-' {
            push_char(&mut res, '_');
        } else if c == '\'' {
        } else if 'A' <= c && c <= 'Z' {
            let lower = ((c as u8) + 32) as char;
            assert(lower == ((c as u32) + 32) as char);
            push_char(&mut res, lower);
        } else {
            push_char(&mut res, c);
        }
        assert(res@ =~= drawable_name(name@.take(i + 1)));
        i = i + 1;
    }
    assert(name@.take(n as int) =~= name@);
    res
}

/// The line of the Android resource map for a card: it maps the card's
/// name to its drawable resource.
pub open spec fn resource_map_entry(name: Seq<char>) -> Seq<char> {
    "resourceMap[\""@ + name + "\"] = R.drawable."@ + drawable_name(name)
}

/// Computes the resource map line for the card named `name`.
pub fn resource_map_entry_of(name: &str) -> (line: String)
    ensures
        line@ == resource_map_entry(name@),
{
    let mut line = String::from_str("resourceMap[\"");
    line.append(name);
    line.append("\"] = R.drawable.");
    let drawable = drawable_name_of(name);
    line.append(drawable.as_str());
    line
}

} // verus!
