use anitomy_pure::elements::{Category, Element, Elements};
use anitomy_pure::errors::ParsingError;
use anitomy_pure::keyword::Manager;
use anitomy_pure::parsing::episode_number::{detect_episode_number_alt, parse_episode_number};
use anitomy_pure::parsing::extensions::{get_extension, remove_extension};
use anitomy_pure::parsing::number::is_digit;
use anitomy_pure::parsing::parsing_keywords;
use anitomy_pure::parsing::string::{parse_anime_title, parse_episode_title, parse_multiple_keyword};
use anitomy_pure::split::{split_raw_data, split_token, split_type_and_ep};
use anitomy_pure::token::main_token::Token;
use anitomy_pure::token::subtoken::SubTokenCategory;
use anitomy_pure::Parser;

fn value_of(e: &Elements, c: Category) -> Option<String> {
    e.find(c).map(|x| x.value)
}

fn default_delimiters() -> Vec<char> {
    vec![' ', '_', '.', '-', '&', '+', ',', '|']
}

#[test]
fn readme_example() {
    let result = Parser::new("[HorribleSubs] Boku no Hero Academia - 73 [1080p].mkv").parse().unwrap();
    assert_eq!(value_of(&result, Category::AnimeTitle).unwrap(), "Boku no Hero Academia");
    assert_eq!(value_of(&result, Category::EpisodeNumber).unwrap(), "73");
    assert_eq!(value_of(&result, Category::ReleaseGroup).unwrap(), "HorribleSubs");
    assert_eq!(value_of(&result, Category::VideoResolution).unwrap(), "1080p");
    assert_eq!(value_of(&result, Category::FileExtension).unwrap(), "mkv");
    assert_eq!(
        value_of(&result, Category::FileName).unwrap(),
        "[HorribleSubs] Boku no Hero Academia - 73 [1080p].mkv"
    );
}

#[test]
fn parse_starts_with_file_name_and_extension() {
    let name = "[SubsPlease] Dungeon Meshi - 01 [1080p].mkv";
    let result = Parser::new(name).parse().unwrap();
    let all = result.find_all(Category::FileName).unwrap();
    assert_eq!(all.len(), 1);
    assert_eq!(all[0], Element::new(Category::FileName, name));
    assert_eq!(value_of(&result, Category::FileExtension).unwrap(), "mkv");
}

#[test]
fn parse_empty_name_fails() {
    assert_eq!(Parser::new("").parse(), Err(ParsingError::StringIsEmpty));
    assert_eq!(Parser::new(".mkv").parse(), Err(ParsingError::StringIsEmpty));
    assert!(Parser::new("a.mkv").parse().is_ok());
    assert!(Parser::new(".unknown").parse().is_ok());
}

#[test]
fn error_messages() {
    assert_eq!(ParsingError::StringIsEmpty.to_string(), "Parsing Error : nothing to parse");
    assert_eq!(ParsingError::NoExtension.to_string(), "Parsing Error : no extension");
}

#[test]
fn unclosed_bracket_keeps_only_name_and_extension() {
    let name = "[Group Some Title - 01.mkv";
    let result = Parser::new(name).parse().unwrap();
    let expected = Elements::new().add(Category::FileName, name).add(Category::FileExtension, "mkv");
    assert_eq!(result, expected);
    assert_eq!(result.size(), 2);
}

#[test]
fn no_extension_keeps_only_name_first() {
    let name = "[Group] Title - 05";
    let result = Parser::new(name).parse().unwrap();
    assert!(result.is_category_empty(Category::FileExtension));
    assert_eq!(value_of(&result, Category::FileName).unwrap(), name);
}

#[test]
fn switches_turn_passes_off() {
    let name = "[HorribleSubs] Boku no Hero Academia - 73 [1080p].mkv";
    let no_group = Parser::new(name).release_group(false).parse().unwrap();
    assert!(no_group.is_category_empty(Category::ReleaseGroup));
    let no_episode = Parser::new(name).ep_number(false).parse().unwrap();
    assert!(no_episode.is_category_empty(Category::EpisodeNumber));
}

#[test]
fn builder_setters() {
    let p = Parser::new("a.mkv")
        .ep_number(false)
        .ep_title(false)
        .file_extension(false)
        .release_group(false)
        .file_name("b.mkv")
        .ignored_string(vec!["[BD]"])
        .allowed_delimiters(vec![' ']);
    let q = Parser::new("b.mkv")
        .allowed_delimiters(vec![' '])
        .ignored_string(vec!["[BD]"])
        .release_group(false)
        .file_extension(false)
        .ep_title(false)
        .ep_number(false);
    assert_eq!(p, q);
    assert_ne!(p, Parser::new("b.mkv"));
}

#[test]
fn ignored_string_is_stripped() {
    let result = Parser::new("[Commie][BD] Steins;Gate - 01 [1080p].mkv")
        .ignored_string(vec!["[BD]"])
        .parse()
        .unwrap();
    assert_eq!(value_of(&result, Category::EpisodeNumber).unwrap(), "01");
    assert_eq!(value_of(&result, Category::VideoResolution).unwrap(), "1080p");
}

#[test]
fn extension_helpers() {
    assert_eq!(get_extension("Title - 01.mkv"), Some("mkv".to_string()));
    assert_eq!(get_extension("Title - 01.MP4"), Some("MP4".to_string()));
    assert_eq!(get_extension("Title - 01.txt"), None);
    assert_eq!(get_extension("Title - 01"), None);
    assert_eq!(remove_extension("Title - 01.mkv"), "Title - 01");
    assert_eq!(remove_extension("Title - 01.txt"), "Title - 01.txt");
}

#[test]
fn keyword_lookup_ignores_case() {
    let m = Manager::new();
    let upper = m.find("EP").unwrap();
    let lower = m.find("ep").unwrap();
    assert_eq!(upper.get_category(), Category::EpisodePrefix);
    assert_eq!(lower.get_category(), Category::EpisodePrefix);
    assert!(m.find("notakeyword").is_none());
}

#[test]
fn release_version_is_lowered() {
    let d = default_delimiters();
    let mut tokens = split_raw_data("[V2]", &d);
    let mut e = Elements::new();
    parsing_keywords(&mut e, &mut tokens);
    assert_eq!(value_of(&e, Category::ReleaseVersion).unwrap(), "2");
}

#[test]
fn bare_number_after_dash_is_the_episode() {
    let d = default_delimiters();
    let mut tokens = split_raw_data("Title - 05", &d);
    let mut e = Elements::new();
    parse_episode_number(&d, &mut tokens, &mut e);
    assert_eq!(e, Elements::new().add(Category::EpisodeNumber, "05"));
}

#[test]
fn bracketed_number_after_a_word_is_not_the_episode() {
    let d = default_delimiters();
    let mut tokens = split_raw_data("[Title 05]", &d);
    let mut e = Elements::new();
    parse_episode_number(&d, &mut tokens, &mut e);
    assert!(e.is_category_empty(Category::EpisodeNumber));
}

#[test]
fn episode_range_of_two_numbers() {
    let d = default_delimiters();
    let mut tokens = split_raw_data("Title 01 03", &d);
    let mut e = Elements::new();
    parse_episode_number(&d, &mut tokens, &mut e);
    let eps = e.find_all(Category::EpisodeNumber).unwrap();
    assert_eq!(eps.len(), 2);
    assert_eq!(eps[0].value, "01");
    assert_eq!(eps[1].value, "03");
}

#[test]
fn equal_episode_numbers_keep_the_shorter() {
    let mut e = Elements::new()
        .add(Category::EpisodePrefix, "EP")
        .add(Category::EpisodeNumber, "01")
        .add(Category::EpisodeNumber, "1");
    let mut tokens = Vec::new();
    detect_episode_number_alt(&mut tokens, &mut e);
    assert_eq!(e, Elements::new().add(Category::EpisodeNumber, "1"));
}

#[test]
fn with_a_season_the_larger_number_is_the_alternative() {
    let mut e = Elements::new()
        .add(Category::AnimeSeason, "2")
        .add(Category::EpisodeNumber, "25")
        .add(Category::EpisodeNumber, "01");
    let mut tokens = Vec::new();
    detect_episode_number_alt(&mut tokens, &mut e);
    let expected = Elements::new()
        .add(Category::AnimeSeason, "2")
        .add(Category::EpisodeNumber, "01")
        .add(Category::EpisodeNumberAlt, "25");
    assert_eq!(e, expected);
}

#[test]
fn parenthesised_number_is_the_alternative() {
    let d = default_delimiters();
    let mut tokens = split_raw_data("Title - 01 (13)", &d);
    let mut e = Elements::new().add(Category::EpisodeNumber, "01");
    detect_episode_number_alt(&mut tokens, &mut e);
    let expected = Elements::new()
        .add(Category::EpisodeNumber, "01")
        .add(Category::EpisodeNumberAlt, "13");
    assert_eq!(e, expected);
}

#[test]
fn split_type_and_ep_parts_give_back_the_input() {
    assert_eq!(split_type_and_ep("OVA3"), ("OVA", "3"));
    assert_eq!(split_type_and_ep("EP07.5"), ("EP", "07.5"));
    assert_eq!(split_type_and_ep("Title"), ("Title", ""));
    assert_eq!(split_type_and_ep("12"), ("", "12"));
}

#[test]
fn split_token_on_delimiters() {
    let d = default_delimiters();
    assert_eq!(split_token(" Uchuu no Stellvia ", &d), vec!["Uchuu", "no", "Stellvia"]);
    assert_eq!(split_token("Title - 05", &d), vec!["Title", "-", "05"]);
    assert!(split_token("   ", &d).is_empty());
}

#[test]
fn split_raw_data_on_brackets() {
    let d = default_delimiters();
    let tokens = split_raw_data("[Group] Title (2020)", &d);
    assert_eq!(tokens.len(), 3);
    assert_eq!(tokens[0].raw_token(), "Group");
    assert!(tokens[0].is_inside_delimiter());
    assert_eq!(tokens[1].raw_token(), " Title ");
    assert!(!tokens[1].is_inside_delimiter());
    assert_eq!(tokens[2].raw_token(), "2020");
    assert!(tokens[2].is_paren());
}

#[test]
fn keywords_in_brackets() {
    let d = default_delimiters();
    let mut tokens = split_raw_data("[1080p][AAC][x264]", &d);
    let mut e = Elements::new();
    parsing_keywords(&mut e, &mut tokens);
    let expected = Elements::new()
        .add(Category::VideoResolution, "1080p")
        .add(Category::AudioTerm, "AAC")
        .add(Category::VideoTerm, "x264");
    assert_eq!(e, expected);
    assert!(tokens.iter().all(|t| !t.contains_unknow()));
}

#[test]
fn only_the_first_checksum_is_kept() {
    let d = default_delimiters();
    let mut tokens = split_raw_data("[C09462E2][8F59F2BA]", &d);
    let mut e = Elements::new();
    parsing_keywords(&mut e, &mut tokens);
    assert_eq!(e, Elements::new().add(Category::FileChecksum, "C09462E2"));
    assert!(tokens[1].contains_unknow());
}

#[test]
fn prefixed_episode_number() {
    let d = default_delimiters();
    let mut tokens = split_raw_data("Title EP07", &d);
    let mut e = Elements::new();
    parse_episode_number(&d, &mut tokens, &mut e);
    let expected = Elements::new()
        .add(Category::EpisodePrefix, "EP")
        .add(Category::EpisodeNumber, "07");
    assert_eq!(e, expected);
}

#[test]
fn a_number_can_be_an_episode_title() {
    let d = default_delimiters();
    let mut tokens = vec![Token::new(" 05 ", &d, false, false, false)];
    let mut e = Elements::new();
    parse_episode_title(&mut tokens, &mut e, &d);
    assert_eq!(e, Elements::new().add(Category::EpisodeTitle, "05"));
    assert!(!tokens[0].contains_unknow());
}

#[test]
fn capitalised_words_joined_by_a_dash_stay_joined() {
    let d = default_delimiters();
    let mut token = Token::new("Kara-Kyoukai 01", &d, false, false, false);
    token.sub_tokens()[2].category(SubTokenCategory::Found);
    let mut tokens = vec![token];
    let mut e = Elements::new();
    parse_anime_title(&mut tokens, &mut e, &d);
    assert_eq!(e, Elements::new().add(Category::AnimeTitle, "Kara-Kyoukai"));
}

#[test]
fn joined_keyword_is_trimmed() {
    let m = Manager::new();
    let mut e = Elements::new();
    assert!(parse_multiple_keyword(&mut e, &m, "", "AAC"));
    assert_eq!(e, Elements::new().add(Category::AudioTerm, "AAC"));
    let mut f = Elements::new();
    assert!(parse_multiple_keyword(&mut f, &m, "DUAL", "AUDIO"));
    assert_eq!(f.count(Category::Subtitles), 1);
}

#[test]
fn extension_switched_off() {
    let name = "[HorribleSubs] Boku no Hero Academia - 73 [1080p].mkv";
    let result = Parser::new(name).file_extension(false).parse().unwrap();
    assert!(result.is_category_empty(Category::FileExtension));
    assert_eq!(value_of(&result, Category::FileName).unwrap(), name);
    assert_eq!(value_of(&result, Category::AnimeTitle).unwrap(), "Boku no Hero Academia");
    let unclosed = Parser::new("[Group Title - 01.mkv").file_extension(false).parse().unwrap();
    assert_eq!(unclosed, Elements::new().add(Category::FileName, "[Group Title - 01.mkv"));
}

#[test]
fn digit_strings_take_one_sign() {
    assert!(is_digit("+7"));
    assert!(is_digit("-120"));
    assert!(!is_digit("--5"));
    assert!(!is_digit("+-5"));
    assert!(!is_digit("-"));
    assert!(!is_digit(""));
}

#[test]
fn one_file_name_element() {
    let names = [
        "[Group] Show - 05v2 [720p][ABCD1234].mkv",
        "Show S01E02 Episode Title.mp4",
        "[Unclosed Show 01.mkv",
        "Movie (2019) 1080p",
        "Show - 01 (03) [BD].avi",
    ];
    for name in names {
        for ext in [true, false] {
            let result = Parser::new(name).file_extension(ext).parse().unwrap();
            assert_eq!(result.count(Category::FileName), 1);
            assert_eq!(value_of(&result, Category::FileName).unwrap(), name);
        }
    }
}

#[test]
fn lookup_by_upper_case_key() {
    let m = Manager::new();
    assert_eq!(m.find_upper("ONA").map(|k| k.get_category()), Some(Category::AnimeType));
    assert_eq!(m.find_upper("ona"), None);
    assert_eq!(m.find("ona").map(|k| k.get_category()), Some(Category::AnimeType));
    assert_eq!(m.find_upper("NOT A KEYWORD"), None);
}

#[test]
fn whitespace_matches_std() {
    for code in 0u32..0x3100 {
        if let Some(c) = char::from_u32(code) {
            assert_eq!(anitomy_pure::text::is_whitespace(c), c.is_whitespace(), "{:?}", c);
        }
    }
    assert!(!anitomy_pure::text::is_whitespace('\u{180e}'));
    assert!(!anitomy_pure::text::is_whitespace('\u{feff}'));
}

#[test]
fn split_token_without_lone_delimiters() {
    let d = default_delimiters();
    let pieces = split_token("a---b", &d);
    assert_eq!(pieces, vec!["a".to_string(), "-".to_string(), "b".to_string()]);
    let plain: Vec<String> = pieces.into_iter().filter(|p| !(p.chars().count() == 1 && d.contains(&p.chars().next().unwrap()))).collect();
    assert_eq!(plain, vec!["a".to_string(), "b".to_string()]);
    let plain2: Vec<String> = split_token("_Show.Name_", &d)
        .into_iter()
        .filter(|p| !(p.chars().count() == 1 && d.contains(&p.chars().next().unwrap())))
        .collect();
    assert_eq!(plain2, vec!["Show".to_string(), "Name".to_string()]);
}

#[test]
fn split_raw_data_flags() {
    let d = default_delimiters();
    let tokens = split_raw_data("[A] (B) \u{300C}C\u{300D} D", &d);
    let flags: Vec<(String, bool, bool, bool)> = tokens
        .iter()
        .map(|t| (t.raw_token().to_string(), t.is_inside_delimiter(), t.is_paren(), t.is_japanese_corner()))
        .collect();
    assert_eq!(
        flags,
        vec![
            ("A".to_string(), true, false, false),
            (" ".to_string(), false, false, false),
            ("B".to_string(), true, true, false),
            (" ".to_string(), false, false, false),
            ("C".to_string(), true, false, true),
            (" D".to_string(), false, false, false),
        ]
    );
}

#[test]
fn episode_number_idle_without_unknown() {
    let d = default_delimiters();
    let mut tokens = split_raw_data("[1080p][x264]", &d);
    let mut elements = Elements::new();
    parsing_keywords(&mut elements, &mut tokens);
    assert!(tokens.iter().all(|t| !t.contains_unknow()));
    let before_elements = elements.clone();
    let before_tokens: Vec<(String, usize)> = tokens.iter().map(|t| (t.raw_token().to_string(), t.len())).collect();
    parse_episode_number(&d, &mut tokens, &mut elements);
    assert!(elements == before_elements && before_elements == elements);
    assert_eq!(elements.size(), before_elements.size());
    let after_tokens: Vec<(String, usize)> = tokens.iter().map(|t| (t.raw_token().to_string(), t.len())).collect();
    assert_eq!(after_tokens, before_tokens);
    assert!(tokens.iter().all(|t| !t.contains_unknow()));
}

#[test]
fn ascii_classes_and_case() {
    for code in 0u32..0x80 {
        let c = char::from_u32(code).unwrap();
        assert_eq!(anitomy_pure::text::is_alphanumeric(c), c.is_ascii_alphanumeric(), "{:?}", c);
    }
    let m = Manager::new();
    assert_eq!(m.find("hevc").map(|k| k.get_category()), Some(Category::VideoTerm));
}
