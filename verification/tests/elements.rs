use anitomy_pure::elements::{Category, Element, Elements};

#[test]
fn push_then_read() {
    let mut e = Elements::new();
    assert!(e.is_empty());
    e.push(Category::AnimeTitle, "Title");
    assert!(e.contains(Category::AnimeTitle, "Title"));
    assert!(!e.contains(Category::AnimeTitle, "Other"));
    assert_eq!(e.size(), 1);
    assert_eq!(e.find(Category::AnimeTitle), Some(Element::new(Category::AnimeTitle, "Title")));
    assert_eq!(e.count(Category::AnimeTitle), 1);
    assert_eq!(e.count(Category::EpisodeNumber), 0);
}

#[test]
fn find_gives_the_first() {
    let e = Elements::new()
        .add(Category::EpisodeNumber, "01")
        .add(Category::AnimeTitle, "T")
        .add(Category::EpisodeNumber, "02");
    assert_eq!(e.find(Category::EpisodeNumber).unwrap().value, "01");
    let all = e.find_all(Category::EpisodeNumber).unwrap();
    assert_eq!(all, vec![
        Element::new(Category::EpisodeNumber, "01"),
        Element::new(Category::EpisodeNumber, "02"),
    ]);
    assert!(e.find_all(Category::Language).is_none());
    assert!(e.find(Category::Language).is_none());
    assert_eq!(e.count(Category::EpisodeNumber), 2);
}

#[test]
fn remove_first_undoes_push() {
    let before = Elements::new().add(Category::AnimeTitle, "T");
    let mut e = before.clone();
    e.push(Category::EpisodeNumber, "05");
    assert_eq!(e.remove_first(Category::EpisodeNumber), Some("05".to_string()));
    assert_eq!(e, before);
    assert_eq!(e.remove_first(Category::EpisodeNumber), None);
    assert_eq!(e, before);
}

#[test]
fn remove_first_takes_one() {
    let mut e = Elements::new()
        .add(Category::EpisodeNumber, "01")
        .add(Category::AnimeTitle, "T")
        .add(Category::EpisodeNumber, "02");
    assert_eq!(e.remove_first(Category::EpisodeNumber), Some("01".to_string()));
    assert_eq!(e.count(Category::EpisodeNumber), 1);
    assert_eq!(e.count(Category::AnimeTitle), 1);
}

#[test]
fn category_empty_matches_count() {
    let e = Elements::new().add(Category::Language, "ENG");
    assert!(!e.is_category_empty(Category::Language));
    assert!(e.is_category_empty(Category::Subtitles));
    assert_eq!(e.count(Category::Subtitles), 0);
}

#[test]
fn equality_ignores_order() {
    let a = Elements::new().add(Category::AnimeTitle, "T").add(Category::EpisodeNumber, "1");
    let b = Elements::new().add(Category::EpisodeNumber, "1").add(Category::AnimeTitle, "T");
    assert_eq!(a, a);
    assert_eq!(a, b);
    assert_eq!(b, a);
    assert_ne!(a, Elements::new());
}

#[test]
fn equality_with_a_repeated_element_is_one_sided() {
    let twice = Elements::new().add(Category::Language, "ENG").add(Category::Language, "ENG");
    let two = Elements::new().add(Category::Language, "ENG").add(Category::Language, "JPN");
    assert!(twice == two);
    assert!(two != twice);
}

#[test]
fn categories() {
    assert!(Category::AnimeTitle.is_singular());
    assert!(Category::EpisodeNumber.is_singular());
    assert!(!Category::AudioTerm.is_singular());
    assert!(!Category::Language.is_singular());
    assert!(Category::Language.is_searchable());
    assert!(!Category::AnimeTitle.is_searchable());
    assert!(Category::VideoResolution.is_searchable());
}

#[test]
fn default_is_empty() {
    let e: Elements = Default::default();
    assert!(e.is_empty());
    assert_eq!(e, Elements::new());
}
