//! The keyword table: words that identify an element category in a filename.
use vstd::prelude::*;

use crate::elements::Category;
use crate::text::{seq_eq, chars_of, to_upper, upper_of};

verus! {

/// A keyword's category and how the parsing passes may use it.
#[derive(Debug, Clone, Copy, PartialEq, Eq, Structural)]
pub struct Keyword {
    /// The category the keyword stands for.
    pub category: Category,
    /// Whether the keyword alone identifies its category (a bare word is enough).
    pub identifiable: bool,
    /// Whether the keyword is looked for by the keyword pass.
    pub searchable: bool,
    /// Whether the keyword itself is recorded as an element.
    pub valid: bool,
}

impl Keyword {
    /// The category the keyword stands for.
    pub fn get_category(&self) -> (r: Category)
        ensures
            r == self.category,
    {
        self.category
    }

    /// Whether the keyword alone identifies its category.
    pub fn is_identifiable(&self) -> (r: bool)
        ensures
            r == self.identifiable,
    {
        self.identifiable
    }

    /// Whether the keyword is looked for by the keyword pass.
    pub fn is_searchable(&self) -> (r: bool)
        ensures
            r == self.searchable,
    {
        self.searchable
    }

    /// Whether the keyword itself is recorded as an element.
    pub fn is_valid(&self) -> (r: bool)
        ensures
            r == self.valid,
    {
        self.valid
    }
}

/// A keyword with the given properties.
pub open spec fn kw(category: Category, identifiable: bool, searchable: bool, valid: bool) -> Keyword {
    Keyword { category, identifiable, searchable, valid }
}

/// Part 0 of the keyword table, appended to `t`.
pub open spec fn table_part_0(t: Seq<(Seq<char>, Keyword)>) -> Seq<(Seq<char>, Keyword)> {
    t
        .push(("S"@, kw(Category::AnimeSeasonPrefix, false, true, true)))
        .push(("SAISON"@, kw(Category::AnimeSeasonPrefix, false, true, true)))
        .push(("SEASON"@, kw(Category::AnimeSeasonPrefix, false, true, true)))
        .push(("GEKIJOUBAN"@, kw(Category::AnimeType, false, true, true)))
        .push(("MOVIE"@, kw(Category::AnimeType, false, true, true)))
        .push(("OAD"@, kw(Category::AnimeType, false, true, true)))
        .push(("OAV"@, kw(Category::AnimeType, false, true, true)))
        .push(("ONA"@, kw(Category::AnimeType, false, true, true)))
        .push(("OVA"@, kw(Category::AnimeType, false, true, true)))
        .push(("SPECIAL"@, kw(Category::AnimeType, false, true, true)))
}
/// Part 1 of the keyword table, appended to `t`.
pub open spec fn table_part_1(t: Seq<(Seq<char>, Keyword)>) -> Seq<(Seq<char>, Keyword)> {
    t
        .push(("SPECIALS"@, kw(Category::AnimeType, false, true, true)))
        .push(("TV"@, kw(Category::AnimeType, false, true, true)))
        .push(("SP"@, kw(Category::AnimeType, false, false, true)))
        .push(("ED"@, kw(Category::AnimeType, false, true, false)))
        .push(("ENDING"@, kw(Category::AnimeType, false, true, false)))
        .push(("NCED"@, kw(Category::AnimeType, false, true, false)))
        .push(("NCOP"@, kw(Category::AnimeType, false, true, false)))
        .push(("OP"@, kw(Category::AnimeType, false, true, false)))
        .push(("OPENING"@, kw(Category::AnimeType, false, true, false)))
        .push(("PREVIEW"@, kw(Category::AnimeType, false, true, false)))
}
/// Part 2 of the keyword table, appended to `t`.
pub open spec fn table_part_2(t: Seq<(Seq<char>, Keyword)>) -> Seq<(Seq<char>, Keyword)> {
    t
        .push(("PV"@, kw(Category::AnimeType, false, true, false)))
        .push(("2.0CH"@, kw(Category::AudioTerm, true, true, true)))
        .push(("2CH"@, kw(Category::AudioTerm, true, true, true)))
        .push(("5.1"@, kw(Category::AudioTerm, true, true, true)))
        .push(("5.1CH"@, kw(Category::AudioTerm, true, true, true)))
        .push(("DTS"@, kw(Category::AudioTerm, true, true, true)))
        .push(("DTS-ES"@, kw(Category::AudioTerm, true, true, true)))
        .push(("DTS5.1"@, kw(Category::AudioTerm, true, true, true)))
        .push(("TRUEHD5.1"@, kw(Category::AudioTerm, true, true, true)))
        .push(("AAC"@, kw(Category::AudioTerm, true, true, true)))
}
/// Part 3 of the keyword table, appended to `t`.
pub open spec fn table_part_3(t: Seq<(Seq<char>, Keyword)>) -> Seq<(Seq<char>, Keyword)> {
    t
        .push(("AACX2"@, kw(Category::AudioTerm, true, true, true)))
        .push(("AACX3"@, kw(Category::AudioTerm, true, true, true)))
        .push(("AACX4"@, kw(Category::AudioTerm, true, true, true)))
        .push(("AC3"@, kw(Category::AudioTerm, true, true, true)))
        .push(("EAC3"@, kw(Category::AudioTerm, true, true, true)))
        .push(("E-AC-3"@, kw(Category::AudioTerm, true, true, true)))
        .push(("FLAC"@, kw(Category::AudioTerm, true, true, true)))
        .push(("FLACX2"@, kw(Category::AudioTerm, true, true, true)))
        .push(("FLACX3"@, kw(Category::AudioTerm, true, true, true)))
        .push(("FLACX4"@, kw(Category::AudioTerm, true, true, true)))
}
/// Part 4 of the keyword table, appended to `t`.
pub open spec fn table_part_4(t: Seq<(Seq<char>, Keyword)>) -> Seq<(Seq<char>, Keyword)> {
    t
        .push(("LOSSLESS"@, kw(Category::AudioTerm, true, true, true)))
        .push(("MP3"@, kw(Category::AudioTerm, true, true, true)))
        .push(("OGG"@, kw(Category::AudioTerm, true, true, true)))
        .push(("VORBIS"@, kw(Category::AudioTerm, true, true, true)))
        .push(("IPAD3"@, kw(Category::DeviceCompatibility, true, true, true)))
        .push(("IPHONE5"@, kw(Category::DeviceCompatibility, true, true, true)))
        .push(("IPOD"@, kw(Category::DeviceCompatibility, true, true, true)))
        .push(("PS3"@, kw(Category::DeviceCompatibility, true, true, true)))
        .push(("XBOX"@, kw(Category::DeviceCompatibility, true, true, true)))
        .push(("XBOX360"@, kw(Category::DeviceCompatibility, true, true, true)))
}
/// Part 5 of the keyword table, appended to `t`.
pub open spec fn table_part_5(t: Seq<(Seq<char>, Keyword)>) -> Seq<(Seq<char>, Keyword)> {
    t
        .push(("ANDROID"@, kw(Category::DeviceCompatibility, false, true, true)))
        .push(("EP"@, kw(Category::EpisodePrefix, true, true, true)))
        .push(("EP."@, kw(Category::EpisodePrefix, true, true, true)))
        .push(("EPS"@, kw(Category::EpisodePrefix, true, true, true)))
        .push(("EPS."@, kw(Category::EpisodePrefix, true, true, true)))
        .push(("EPISODE"@, kw(Category::EpisodePrefix, true, true, true)))
        .push(("EPISODE."@, kw(Category::EpisodePrefix, true, true, true)))
        .push(("EPISODES"@, kw(Category::EpisodePrefix, true, true, true)))
        .push(("CAPITULO"@, kw(Category::EpisodePrefix, true, true, true)))
        .push(("EPISODIO"@, kw(Category::EpisodePrefix, true, true, true)))
}
/// Part 6 of the keyword table, appended to `t`.
pub open spec fn table_part_6(t: Seq<(Seq<char>, Keyword)>) -> Seq<(Seq<char>, Keyword)> {
    t
        .push(("FOLGE"@, kw(Category::EpisodePrefix, true, true, true)))
        .push(("E"@, kw(Category::EpisodePrefix, true, true, false)))
        .push(("\u{7B2C}"@, kw(Category::EpisodePrefix, true, true, false)))
        .push(("EX"@, kw(Category::EpisodePrefix, true, true, false)))
        .push(("ENG"@, kw(Category::Language, true, true, true)))
        .push(("ENGLISH"@, kw(Category::Language, true, true, true)))
        .push(("ESPANOL"@, kw(Category::Language, true, true, true)))
        .push(("JAP"@, kw(Category::Language, true, true, true)))
        .push(("JPN"@, kw(Category::Language, true, true, true)))
        .push(("PT-BR"@, kw(Category::Language, true, true, true)))
}
/// Part 7 of the keyword table, appended to `t`.
pub open spec fn table_part_7(t: Seq<(Seq<char>, Keyword)>) -> Seq<(Seq<char>, Keyword)> {
    t
        .push(("SPANISH"@, kw(Category::Language, true, true, true)))
        .push(("ESP"@, kw(Category::Language, false, true, true)))
        .push(("ITA"@, kw(Category::Language, false, true, true)))
        .push(("REMASTER"@, kw(Category::Other, true, true, true)))
        .push(("REMASTERED"@, kw(Category::Other, true, true, true)))
        .push(("UNCENSORED"@, kw(Category::Other, true, true, true)))
        .push(("UNCUT"@, kw(Category::Other, true, true, true)))
        .push(("TS"@, kw(Category::Other, true, true, true)))
        .push(("VFR"@, kw(Category::Other, true, true, true)))
        .push(("WIDESCREEN"@, kw(Category::Other, true, true, true)))
}
/// Part 8 of the keyword table, appended to `t`.
pub open spec fn table_part_8(t: Seq<(Seq<char>, Keyword)>) -> Seq<(Seq<char>, Keyword)> {
    t
        .push(("WS"@, kw(Category::Other, true, true, true)))
        .push(("THORA"@, kw(Category::ReleaseGroup, true, true, true)))
        .push(("BATCH"@, kw(Category::ReleaseInformation, true, true, true)))
        .push(("COMPLETE"@, kw(Category::ReleaseInformation, true, true, true)))
        .push(("PATCH"@, kw(Category::ReleaseInformation, true, true, true)))
        .push(("PROPER"@, kw(Category::ReleaseInformation, true, true, true)))
        .push(("REMUX"@, kw(Category::ReleaseInformation, true, true, true)))
        .push(("REPACK"@, kw(Category::ReleaseInformation, true, true, true)))
        .push(("END"@, kw(Category::ReleaseInformation, false, true, true)))
        .push(("FINAL"@, kw(Category::ReleaseInformation, false, true, true)))
}
/// Part 9 of the keyword table, appended to `t`.
pub open spec fn table_part_9(t: Seq<(Seq<char>, Keyword)>) -> Seq<(Seq<char>, Keyword)> {
    t
        .push(("V0"@, kw(Category::ReleaseVersion, true, true, true)))
        .push(("V1"@, kw(Category::ReleaseVersion, true, true, true)))
        .push(("V2"@, kw(Category::ReleaseVersion, true, true, true)))
        .push(("V3"@, kw(Category::ReleaseVersion, true, true, true)))
        .push(("V4"@, kw(Category::ReleaseVersion, true, true, true)))
        .push(("BD"@, kw(Category::Source, true, true, true)))
        .push(("BDRIP"@, kw(Category::Source, true, true, true)))
        .push(("BLURAY"@, kw(Category::Source, true, true, true)))
        .push(("BLU-RAY"@, kw(Category::Source, true, true, true)))
        .push(("DVD"@, kw(Category::Source, true, true, true)))
}
/// Part 10 of the keyword table, appended to `t`.
pub open spec fn table_part_10(t: Seq<(Seq<char>, Keyword)>) -> Seq<(Seq<char>, Keyword)> {
    t
        .push(("DVD5"@, kw(Category::Source, true, true, true)))
        .push(("DVD9"@, kw(Category::Source, true, true, true)))
        .push(("DVD-R2J"@, kw(Category::Source, true, true, true)))
        .push(("DVDRIP"@, kw(Category::Source, true, true, true)))
        .push(("DVD-RIP"@, kw(Category::Source, true, true, true)))
        .push(("R2DVD"@, kw(Category::Source, true, true, true)))
        .push(("R2J"@, kw(Category::Source, true, true, true)))
        .push(("R2JDVD"@, kw(Category::Source, true, true, true)))
        .push(("R2JDVDRIP"@, kw(Category::Source, true, true, true)))
        .push(("HDTV"@, kw(Category::Source, true, true, true)))
}
/// Part 11 of the keyword table, appended to `t`.
pub open spec fn table_part_11(t: Seq<(Seq<char>, Keyword)>) -> Seq<(Seq<char>, Keyword)> {
    t
        .push(("HDTVRIP"@, kw(Category::Source, true, true, true)))
        .push(("TVRIP"@, kw(Category::Source, true, true, true)))
        .push(("TV-RIP"@, kw(Category::Source, true, true, true)))
        .push(("WEBCAST"@, kw(Category::Source, true, true, true)))
        .push(("WEBRIP"@, kw(Category::Source, true, true, true)))
        .push(("WEB-DL"@, kw(Category::Source, true, true, true)))
        .push(("ASS"@, kw(Category::Subtitles, true, true, true)))
        .push(("BIG5"@, kw(Category::Subtitles, true, true, true)))
        .push(("DUB"@, kw(Category::Subtitles, true, true, true)))
        .push(("DUBBED"@, kw(Category::Subtitles, true, true, true)))
}
/// Part 12 of the keyword table, appended to `t`.
pub open spec fn table_part_12(t: Seq<(Seq<char>, Keyword)>) -> Seq<(Seq<char>, Keyword)> {
    t
        .push(("DUALAUDIO"@, kw(Category::Subtitles, true, true, true)))
        .push(("DUAL AUDIO"@, kw(Category::Subtitles, true, true, true)))
        .push(("HARDSUB"@, kw(Category::Subtitles, true, true, true)))
        .push(("HARDSUBS"@, kw(Category::Subtitles, true, true, true)))
        .push(("RAW"@, kw(Category::Subtitles, true, true, true)))
        .push(("SOFTSUB"@, kw(Category::Subtitles, true, true, true)))
        .push(("SOFTSUBS"@, kw(Category::Subtitles, true, true, true)))
        .push(("SUB"@, kw(Category::Subtitles, true, true, true)))
        .push(("SUBBED"@, kw(Category::Subtitles, true, true, true)))
        .push(("SUBTITLED"@, kw(Category::Subtitles, true, true, true)))
}
/// Part 13 of the keyword table, appended to `t`.
pub open spec fn table_part_13(t: Seq<(Seq<char>, Keyword)>) -> Seq<(Seq<char>, Keyword)> {
    t
        .push(("VOSTFR"@, kw(Category::Subtitles, true, true, true)))
        .push(("23.976FPS"@, kw(Category::VideoTerm, true, true, true)))
        .push(("24FPS"@, kw(Category::VideoTerm, true, true, true)))
        .push(("29.97FPS"@, kw(Category::VideoTerm, true, true, true)))
        .push(("30FPS"@, kw(Category::VideoTerm, true, true, true)))
        .push(("60FPS"@, kw(Category::VideoTerm, true, true, true)))
        .push(("120FPS"@, kw(Category::VideoTerm, true, true, true)))
        .push(("8BIT"@, kw(Category::VideoTerm, true, true, true)))
        .push(("8-BIT"@, kw(Category::VideoTerm, true, true, true)))
        .push(("10BIT"@, kw(Category::VideoTerm, true, true, true)))
}
/// Part 14 of the keyword table, appended to `t`.
pub open spec fn table_part_14(t: Seq<(Seq<char>, Keyword)>) -> Seq<(Seq<char>, Keyword)> {
    t
        .push(("10BITS"@, kw(Category::VideoTerm, true, true, true)))
        .push(("10-BIT"@, kw(Category::VideoTerm, true, true, true)))
        .push(("10-BITS"@, kw(Category::VideoTerm, true, true, true)))
        .push(("HI10"@, kw(Category::VideoTerm, true, true, true)))
        .push(("HI10P"@, kw(Category::VideoTerm, true, true, true)))
        .push(("HI444"@, kw(Category::VideoTerm, true, true, true)))
        .push(("HI444P"@, kw(Category::VideoTerm, true, true, true)))
        .push(("HI444PP"@, kw(Category::VideoTerm, true, true, true)))
        .push(("H264"@, kw(Category::VideoTerm, true, true, true)))
        .push(("H265"@, kw(Category::VideoTerm, true, true, true)))
}
/// Part 15 of the keyword table, appended to `t`.
pub open spec fn table_part_15(t: Seq<(Seq<char>, Keyword)>) -> Seq<(Seq<char>, Keyword)> {
    t
        .push(("H.264"@, kw(Category::VideoTerm, true, true, true)))
        .push(("H.265"@, kw(Category::VideoTerm, true, true, true)))
        .push(("X264"@, kw(Category::VideoTerm, true, true, true)))
        .push(("X265"@, kw(Category::VideoTerm, true, true, true)))
        .push(("X.264"@, kw(Category::VideoTerm, true, true, true)))
        .push(("AVC"@, kw(Category::VideoTerm, true, true, true)))
        .push(("HEVC"@, kw(Category::VideoTerm, true, true, true)))
        .push(("HEVC2"@, kw(Category::VideoTerm, true, true, true)))
        .push(("DIVX"@, kw(Category::VideoTerm, true, true, true)))
        .push(("DIVX5"@, kw(Category::VideoTerm, true, true, true)))
}
/// Part 16 of the keyword table, appended to `t`.
pub open spec fn table_part_16(t: Seq<(Seq<char>, Keyword)>) -> Seq<(Seq<char>, Keyword)> {
    t
        .push(("DIVX6"@, kw(Category::VideoTerm, true, true, true)))
        .push(("XVID"@, kw(Category::VideoTerm, true, true, true)))
        .push(("AVI"@, kw(Category::VideoTerm, true, true, true)))
        .push(("RMVB"@, kw(Category::VideoTerm, true, true, true)))
        .push(("WMV"@, kw(Category::VideoTerm, true, true, true)))
        .push(("WMV3"@, kw(Category::VideoTerm, true, true, true)))
        .push(("WMV9"@, kw(Category::VideoTerm, true, true, true)))
        .push(("HQ"@, kw(Category::VideoTerm, true, true, true)))
        .push(("LQ"@, kw(Category::VideoTerm, true, true, true)))
        .push(("HD"@, kw(Category::VideoTerm, true, true, true)))
}
/// Part 17 of the keyword table, appended to `t`.
pub open spec fn table_part_17(t: Seq<(Seq<char>, Keyword)>) -> Seq<(Seq<char>, Keyword)> {
    t
        .push(("SD"@, kw(Category::VideoTerm, true, true, true)))
        .push(("VOL"@, kw(Category::VolumePrefix, true, true, true)))
        .push(("VOL."@, kw(Category::VolumePrefix, true, true, true)))
        .push(("VOLUME"@, kw(Category::VolumePrefix, true, true, true)))
}
/// The keyword table, in upper case: each word with its keyword.
pub open spec fn keyword_table() -> Seq<(Seq<char>, Keyword)> {
    table_part_17(table_part_16(table_part_15(table_part_14(table_part_13(table_part_12(table_part_11(table_part_10(table_part_9(table_part_8(table_part_7(table_part_6(table_part_5(table_part_4(table_part_3(table_part_2(table_part_1(table_part_0(Seq::empty()))))))))))))))))))
}

/// The keyword of the first entry of `t` whose word is `key`.
pub open spec fn lookup(t: Seq<(Seq<char>, Keyword)>, key: Seq<char>) -> Option<Keyword>
    decreases t.len(),
{
    if t.len() == 0 {
        None
    } else if t[0].0 == key {
        Some(t[0].1)
    } else {
        lookup(t.drop_first(), key)
    }
}

/// What the keyword manager answers for a word: the keyword of its upper-case form.
pub open spec fn keyword_of(word: Seq<char>) -> Option<Keyword> {
    lookup(keyword_table(), upper_of(word))
}

/// No entry of `t` has a keyword of category `c`.
pub open spec fn no_entry_of(t: Seq<(Seq<char>, Keyword)>, c: Category) -> bool {
    forall|j: int| 0 <= j < t.len() ==> (#[trigger] t[j]).1.category != c
}

/// A table without entries of category `c` gives no keyword of it.
pub proof fn lemma_lookup_not_of(t: Seq<(Seq<char>, Keyword)>, key: Seq<char>, c: Category)
    requires
        no_entry_of(t, c),
    ensures
        lookup(t, key) matches Some(k) ==> k.category != c,
    decreases t.len(),
{
    if t.len() > 0 && t[0].0 != key {
        assert(no_entry_of(t.drop_first(), c)) by {
            assert forall|j: int| 0 <= j < t.drop_first().len() implies (#[trigger] t.drop_first()[j]).1.category != c by {
                assert(t.drop_first()[j] == t[j + 1]);
            }
        }
        lemma_lookup_not_of(t.drop_first(), key, c);
    }
}

/// Part 0 of the keyword table adds no keyword that stands for the filename.
proof fn lemma_part_0_no_file_name(t: Seq<(Seq<char>, Keyword)>)
    requires
        no_entry_of(t, Category::FileName),
    ensures
        no_entry_of(table_part_0(t), Category::FileName),
{
}

/// Part 1 of the keyword table adds no keyword that stands for the filename.
proof fn lemma_part_1_no_file_name(t: Seq<(Seq<char>, Keyword)>)
    requires
        no_entry_of(t, Category::FileName),
    ensures
        no_entry_of(table_part_1(t), Category::FileName),
{
}

/// Part 2 of the keyword table adds no keyword that stands for the filename.
proof fn lemma_part_2_no_file_name(t: Seq<(Seq<char>, Keyword)>)
    requires
        no_entry_of(t, Category::FileName),
    ensures
        no_entry_of(table_part_2(t), Category::FileName),
{
}

/// Part 3 of the keyword table adds no keyword that stands for the filename.
proof fn lemma_part_3_no_file_name(t: Seq<(Seq<char>, Keyword)>)
    requires
        no_entry_of(t, Category::FileName),
    ensures
        no_entry_of(table_part_3(t), Category::FileName),
{
}

/// Part 4 of the keyword table adds no keyword that stands for the filename.
proof fn lemma_part_4_no_file_name(t: Seq<(Seq<char>, Keyword)>)
    requires
        no_entry_of(t, Category::FileName),
    ensures
        no_entry_of(table_part_4(t), Category::FileName),
{
}

/// Part 5 of the keyword table adds no keyword that stands for the filename.
proof fn lemma_part_5_no_file_name(t: Seq<(Seq<char>, Keyword)>)
    requires
        no_entry_of(t, Category::FileName),
    ensures
        no_entry_of(table_part_5(t), Category::FileName),
{
}

/// Part 6 of the keyword table adds no keyword that stands for the filename.
proof fn lemma_part_6_no_file_name(t: Seq<(Seq<char>, Keyword)>)
    requires
        no_entry_of(t, Category::FileName),
    ensures
        no_entry_of(table_part_6(t), Category::FileName),
{
}

/// Part 7 of the keyword table adds no keyword that stands for the filename.
proof fn lemma_part_7_no_file_name(t: Seq<(Seq<char>, Keyword)>)
    requires
        no_entry_of(t, Category::FileName),
    ensures
        no_entry_of(table_part_7(t), Category::FileName),
{
}

/// Part 8 of the keyword table adds no keyword that stands for the filename.
proof fn lemma_part_8_no_file_name(t: Seq<(Seq<char>, Keyword)>)
    requires
        no_entry_of(t, Category::FileName),
    ensures
        no_entry_of(table_part_8(t), Category::FileName),
{
}

/// Part 9 of the keyword table adds no keyword that stands for the filename.
proof fn lemma_part_9_no_file_name(t: Seq<(Seq<char>, Keyword)>)
    requires
        no_entry_of(t, Category::FileName),
    ensures
        no_entry_of(table_part_9(t), Category::FileName),
{
}

/// Part 10 of the keyword table adds no keyword that stands for the filename.
proof fn lemma_part_10_no_file_name(t: Seq<(Seq<char>, Keyword)>)
    requires
        no_entry_of(t, Category::FileName),
    ensures
        no_entry_of(table_part_10(t), Category::FileName),
{
}

/// Part 11 of the keyword table adds no keyword that stands for the filename.
proof fn lemma_part_11_no_file_name(t: Seq<(Seq<char>, Keyword)>)
    requires
        no_entry_of(t, Category::FileName),
    ensures
        no_entry_of(table_part_11(t), Category::FileName),
{
}

/// Part 12 of the keyword table adds no keyword that stands for the filename.
proof fn lemma_part_12_no_file_name(t: Seq<(Seq<char>, Keyword)>)
    requires
        no_entry_of(t, Category::FileName),
    ensures
        no_entry_of(table_part_12(t), Category::FileName),
{
}

/// Part 13 of the keyword table adds no keyword that stands for the filename.
proof fn lemma_part_13_no_file_name(t: Seq<(Seq<char>, Keyword)>)
    requires
        no_entry_of(t, Category::FileName),
    ensures
        no_entry_of(table_part_13(t), Category::FileName),
{
}

/// Part 14 of the keyword table adds no keyword that stands for the filename.
proof fn lemma_part_14_no_file_name(t: Seq<(Seq<char>, Keyword)>)
    requires
        no_entry_of(t, Category::FileName),
    ensures
        no_entry_of(table_part_14(t), Category::FileName),
{
}

/// Part 15 of the keyword table adds no keyword that stands for the filename.
proof fn lemma_part_15_no_file_name(t: Seq<(Seq<char>, Keyword)>)
    requires
        no_entry_of(t, Category::FileName),
    ensures
        no_entry_of(table_part_15(t), Category::FileName),
{
}

/// Part 16 of the keyword table adds no keyword that stands for the filename.
proof fn lemma_part_16_no_file_name(t: Seq<(Seq<char>, Keyword)>)
    requires
        no_entry_of(t, Category::FileName),
    ensures
        no_entry_of(table_part_16(t), Category::FileName),
{
}

/// Part 17 of the keyword table adds no keyword that stands for the filename.
proof fn lemma_part_17_no_file_name(t: Seq<(Seq<char>, Keyword)>)
    requires
        no_entry_of(t, Category::FileName),
    ensures
        no_entry_of(table_part_17(t), Category::FileName),
{
}

/// No word of the keyword table stands for the filename.
pub proof fn lemma_no_file_name_keyword(word: Seq<char>)
    ensures
        keyword_of(word) matches Some(k) ==> k.category != Category::FileName,
{
    lemma_part_0_no_file_name(Seq::empty());
    let t = table_part_0(Seq::empty());
    lemma_part_1_no_file_name(t);
    let t = table_part_1(t);
    lemma_part_2_no_file_name(t);
    let t = table_part_2(t);
    lemma_part_3_no_file_name(t);
    let t = table_part_3(t);
    lemma_part_4_no_file_name(t);
    let t = table_part_4(t);
    lemma_part_5_no_file_name(t);
    let t = table_part_5(t);
    lemma_part_6_no_file_name(t);
    let t = table_part_6(t);
    lemma_part_7_no_file_name(t);
    let t = table_part_7(t);
    lemma_part_8_no_file_name(t);
    let t = table_part_8(t);
    lemma_part_9_no_file_name(t);
    let t = table_part_9(t);
    lemma_part_10_no_file_name(t);
    let t = table_part_10(t);
    lemma_part_11_no_file_name(t);
    let t = table_part_11(t);
    lemma_part_12_no_file_name(t);
    let t = table_part_12(t);
    lemma_part_13_no_file_name(t);
    let t = table_part_13(t);
    lemma_part_14_no_file_name(t);
    let t = table_part_14(t);
    lemma_part_15_no_file_name(t);
    let t = table_part_15(t);
    lemma_part_16_no_file_name(t);
    let t = table_part_16(t);
    lemma_part_17_no_file_name(t);
    let t = table_part_17(t);
    assert(t == keyword_table());
    lemma_lookup_not_of(keyword_table(), upper_of(word), Category::FileName);
}

/// Holds the keyword table and looks words up in it.
#[derive(Debug)]
pub struct Manager {
    entries: Vec<(String, Keyword)>,
}

/// The view of a list of table entries.
pub open spec fn entries_view(v: Seq<(String, Keyword)>) -> Seq<(Seq<char>, Keyword)> {
    v.map_values(|e: (String, Keyword)| (e.0@, e.1))
}

/// Appends one entry to the table under construction.
fn add_entry(entries: &mut Vec<(String, Keyword)>, word: &str, k: Keyword)
    ensures
        entries_view(final(entries)@) == entries_view(old(entries)@).push((word@, k)),
{
    entries.push((word.to_owned(), k));
    assert(entries_view(entries@) =~= entries_view(old(entries)@).push((word@, k)));
}

/// Appends part 0 of the keyword table.
fn fill_part_0(entries: &mut Vec<(String, Keyword)>)
    ensures
        entries_view(final(entries)@) == table_part_0(entries_view(old(entries)@)),
{
    add_entry(entries, "S", Keyword { category: Category::AnimeSeasonPrefix, identifiable: false, searchable: true, valid: true });
    add_entry(entries, "SAISON", Keyword { category: Category::AnimeSeasonPrefix, identifiable: false, searchable: true, valid: true });
    add_entry(entries, "SEASON", Keyword { category: Category::AnimeSeasonPrefix, identifiable: false, searchable: true, valid: true });
    add_entry(entries, "GEKIJOUBAN", Keyword { category: Category::AnimeType, identifiable: false, searchable: true, valid: true });
    add_entry(entries, "MOVIE", Keyword { category: Category::AnimeType, identifiable: false, searchable: true, valid: true });
    add_entry(entries, "OAD", Keyword { category: Category::AnimeType, identifiable: false, searchable: true, valid: true });
    add_entry(entries, "OAV", Keyword { category: Category::AnimeType, identifiable: false, searchable: true, valid: true });
    add_entry(entries, "ONA", Keyword { category: Category::AnimeType, identifiable: false, searchable: true, valid: true });
    add_entry(entries, "OVA", Keyword { category: Category::AnimeType, identifiable: false, searchable: true, valid: true });
    add_entry(entries, "SPECIAL", Keyword { category: Category::AnimeType, identifiable: false, searchable: true, valid: true });
}

/// Appends part 1 of the keyword table.
fn fill_part_1(entries: &mut Vec<(String, Keyword)>)
    ensures
        entries_view(final(entries)@) == table_part_1(entries_view(old(entries)@)),
{
    add_entry(entries, "SPECIALS", Keyword { category: Category::AnimeType, identifiable: false, searchable: true, valid: true });
    add_entry(entries, "TV", Keyword { category: Category::AnimeType, identifiable: false, searchable: true, valid: true });
    add_entry(entries, "SP", Keyword { category: Category::AnimeType, identifiable: false, searchable: false, valid: true });
    add_entry(entries, "ED", Keyword { category: Category::AnimeType, identifiable: false, searchable: true, valid: false });
    add_entry(entries, "ENDING", Keyword { category: Category::AnimeType, identifiable: false, searchable: true, valid: false });
    add_entry(entries, "NCED", Keyword { category: Category::AnimeType, identifiable: false, searchable: true, valid: false });
    add_entry(entries, "NCOP", Keyword { category: Category::AnimeType, identifiable: false, searchable: true, valid: false });
    add_entry(entries, "OP", Keyword { category: Category::AnimeType, identifiable: false, searchable: true, valid: false });
    add_entry(entries, "OPENING", Keyword { category: Category::AnimeType, identifiable: false, searchable: true, valid: false });
    add_entry(entries, "PREVIEW", Keyword { category: Category::AnimeType, identifiable: false, searchable: true, valid: false });
}

/// Appends part 2 of the keyword table.
fn fill_part_2(entries: &mut Vec<(String, Keyword)>)
    ensures
        entries_view(final(entries)@) == table_part_2(entries_view(old(entries)@)),
{
    add_entry(entries, "PV", Keyword { category: Category::AnimeType, identifiable: false, searchable: true, valid: false });
    add_entry(entries, "2.0CH", Keyword { category: Category::AudioTerm, identifiable: true, searchable: true, valid: true });
    add_entry(entries, "2CH", Keyword { category: Category::AudioTerm, identifiable: true, searchable: true, valid: true });
    add_entry(entries, "5.1", Keyword { category: Category::AudioTerm, identifiable: true, searchable: true, valid: true });
    add_entry(entries, "5.1CH", Keyword { category: Category::AudioTerm, identifiable: true, searchable: true, valid: true });
    add_entry(entries, "DTS", Keyword { category: Category::AudioTerm, identifiable: true, searchable: true, valid: true });
    add_entry(entries, "DTS-ES", Keyword { category: Category::AudioTerm, identifiable: true, searchable: true, valid: true });
    add_entry(entries, "DTS5.1", Keyword { category: Category::AudioTerm, identifiable: true, searchable: true, valid: true });
    add_entry(entries, "TRUEHD5.1", Keyword { category: Category::AudioTerm, identifiable: true, searchable: true, valid: true });
    add_entry(entries, "AAC", Keyword { category: Category::AudioTerm, identifiable: true, searchable: true, valid: true });
}

/// Appends part 3 of the keyword table.
fn fill_part_3(entries: &mut Vec<(String, Keyword)>)
    ensures
        entries_view(final(entries)@) == table_part_3(entries_view(old(entries)@)),
{
    add_entry(entries, "AACX2", Keyword { category: Category::AudioTerm, identifiable: true, searchable: true, valid: true });
    add_entry(entries, "AACX3", Keyword { category: Category::AudioTerm, identifiable: true, searchable: true, valid: true });
    add_entry(entries, "AACX4", Keyword { category: Category::AudioTerm, identifiable: true, searchable: true, valid: true });
    add_entry(entries, "AC3", Keyword { category: Category::AudioTerm, identifiable: true, searchable: true, valid: true });
    add_entry(entries, "EAC3", Keyword { category: Category::AudioTerm, identifiable: true, searchable: true, valid: true });
    add_entry(entries, "E-AC-3", Keyword { category: Category::AudioTerm, identifiable: true, searchable: true, valid: true });
    add_entry(entries, "FLAC", Keyword { category: Category::AudioTerm, identifiable: true, searchable: true, valid: true });
    add_entry(entries, "FLACX2", Keyword { category: Category::AudioTerm, identifiable: true, searchable: true, valid: true });
    add_entry(entries, "FLACX3", Keyword { category: Category::AudioTerm, identifiable: true, searchable: true, valid: true });
    add_entry(entries, "FLACX4", Keyword { category: Category::AudioTerm, identifiable: true, searchable: true, valid: true });
}

/// Appends part 4 of the keyword table.
fn fill_part_4(entries: &mut Vec<(String, Keyword)>)
    ensures
        entries_view(final(entries)@) == table_part_4(entries_view(old(entries)@)),
{
    add_entry(entries, "LOSSLESS", Keyword { category: Category::AudioTerm, identifiable: true, searchable: true, valid: true });
    add_entry(entries, "MP3", Keyword { category: Category::AudioTerm, identifiable: true, searchable: true, valid: true });
    add_entry(entries, "OGG", Keyword { category: Category::AudioTerm, identifiable: true, searchable: true, valid: true });
    add_entry(entries, "VORBIS", Keyword { category: Category::AudioTerm, identifiable: true, searchable: true, valid: true });
    add_entry(entries, "IPAD3", Keyword { category: Category::DeviceCompatibility, identifiable: true, searchable: true, valid: true });
    add_entry(entries, "IPHONE5", Keyword { category: Category::DeviceCompatibility, identifiable: true, searchable: true, valid: true });
    add_entry(entries, "IPOD", Keyword { category: Category::DeviceCompatibility, identifiable: true, searchable: true, valid: true });
    add_entry(entries, "PS3", Keyword { category: Category::DeviceCompatibility, identifiable: true, searchable: true, valid: true });
    add_entry(entries, "XBOX", Keyword { category: Category::DeviceCompatibility, identifiable: true, searchable: true, valid: true });
    add_entry(entries, "XBOX360", Keyword { category: Category::DeviceCompatibility, identifiable: true, searchable: true, valid: true });
}

/// Appends part 5 of the keyword table.
fn fill_part_5(entries: &mut Vec<(String, Keyword)>)
    ensures
        entries_view(final(entries)@) == table_part_5(entries_view(old(entries)@)),
{
    add_entry(entries, "ANDROID", Keyword { category: Category::DeviceCompatibility, identifiable: false, searchable: true, valid: true });
    add_entry(entries, "EP", Keyword { category: Category::EpisodePrefix, identifiable: true, searchable: true, valid: true });
    add_entry(entries, "EP.", Keyword { category: Category::EpisodePrefix, identifiable: true, searchable: true, valid: true });
    add_entry(entries, "EPS", Keyword { category: Category::EpisodePrefix, identifiable: true, searchable: true, valid: true });
    add_entry(entries, "EPS.", Keyword { category: Category::EpisodePrefix, identifiable: true, searchable: true, valid: true });
    add_entry(entries, "EPISODE", Keyword { category: Category::EpisodePrefix, identifiable: true, searchable: true, valid: true });
    add_entry(entries, "EPISODE.", Keyword { category: Category::EpisodePrefix, identifiable: true, searchable: true, valid: true });
    add_entry(entries, "EPISODES", Keyword { category: Category::EpisodePrefix, identifiable: true, searchable: true, valid: true });
    add_entry(entries, "CAPITULO", Keyword { category: Category::EpisodePrefix, identifiable: true, searchable: true, valid: true });
    add_entry(entries, "EPISODIO", Keyword { category: Category::EpisodePrefix, identifiable: true, searchable: true, valid: true });
}

/// Appends part 6 of the keyword table.
fn fill_part_6(entries: &mut Vec<(String, Keyword)>)
    ensures
        entries_view(final(entries)@) == table_part_6(entries_view(old(entries)@)),
{
    add_entry(entries, "FOLGE", Keyword { category: Category::EpisodePrefix, identifiable: true, searchable: true, valid: true });
    add_entry(entries, "E", Keyword { category: Category::EpisodePrefix, identifiable: true, searchable: true, valid: false });
    add_entry(entries, "\u{7B2C}", Keyword { category: Category::EpisodePrefix, identifiable: true, searchable: true, valid: false });
    add_entry(entries, "EX", Keyword { category: Category::EpisodePrefix, identifiable: true, searchable: true, valid: false });
    add_entry(entries, "ENG", Keyword { category: Category::Language, identifiable: true, searchable: true, valid: true });
    add_entry(entries, "ENGLISH", Keyword { category: Category::Language, identifiable: true, searchable: true, valid: true });
    add_entry(entries, "ESPANOL", Keyword { category: Category::Language, identifiable: true, searchable: true, valid: true });
    add_entry(entries, "JAP", Keyword { category: Category::Language, identifiable: true, searchable: true, valid: true });
    add_entry(entries, "JPN", Keyword { category: Category::Language, identifiable: true, searchable: true, valid: true });
    add_entry(entries, "PT-BR", Keyword { category: Category::Language, identifiable: true, searchable: true, valid: true });
}

/// Appends part 7 of the keyword table.
fn fill_part_7(entries: &mut Vec<(String, Keyword)>)
    ensures
        entries_view(final(entries)@) == table_part_7(entries_view(old(entries)@)),
{
    add_entry(entries, "SPANISH", Keyword { category: Category::Language, identifiable: true, searchable: true, valid: true });
    add_entry(entries, "ESP", Keyword { category: Category::Language, identifiable: false, searchable: true, valid: true });
    add_entry(entries, "ITA", Keyword { category: Category::Language, identifiable: false, searchable: true, valid: true });
    add_entry(entries, "REMASTER", Keyword { category: Category::Other, identifiable: true, searchable: true, valid: true });
    add_entry(entries, "REMASTERED", Keyword { category: Category::Other, identifiable: true, searchable: true, valid: true });
    add_entry(entries, "UNCENSORED", Keyword { category: Category::Other, identifiable: true, searchable: true, valid: true });
    add_entry(entries, "UNCUT", Keyword { category: Category::Other, identifiable: true, searchable: true, valid: true });
    add_entry(entries, "TS", Keyword { category: Category::Other, identifiable: true, searchable: true, valid: true });
    add_entry(entries, "VFR", Keyword { category: Category::Other, identifiable: true, searchable: true, valid: true });
    add_entry(entries, "WIDESCREEN", Keyword { category: Category::Other, identifiable: true, searchable: true, valid: true });
}

/// Appends part 8 of the keyword table.
fn fill_part_8(entries: &mut Vec<(String, Keyword)>)
    ensures
        entries_view(final(entries)@) == table_part_8(entries_view(old(entries)@)),
{
    add_entry(entries, "WS", Keyword { category: Category::Other, identifiable: true, searchable: true, valid: true });
    add_entry(entries, "THORA", Keyword { category: Category::ReleaseGroup, identifiable: true, searchable: true, valid: true });
    add_entry(entries, "BATCH", Keyword { category: Category::ReleaseInformation, identifiable: true, searchable: true, valid: true });
    add_entry(entries, "COMPLETE", Keyword { category: Category::ReleaseInformation, identifiable: true, searchable: true, valid: true });
    add_entry(entries, "PATCH", Keyword { category: Category::ReleaseInformation, identifiable: true, searchable: true, valid: true });
    add_entry(entries, "PROPER", Keyword { category: Category::ReleaseInformation, identifiable: true, searchable: true, valid: true });
    add_entry(entries, "REMUX", Keyword { category: Category::ReleaseInformation, identifiable: true, searchable: true, valid: true });
    add_entry(entries, "REPACK", Keyword { category: Category::ReleaseInformation, identifiable: true, searchable: true, valid: true });
    add_entry(entries, "END", Keyword { category: Category::ReleaseInformation, identifiable: false, searchable: true, valid: true });
    add_entry(entries, "FINAL", Keyword { category: Category::ReleaseInformation, identifiable: false, searchable: true, valid: true });
}

/// Appends part 9 of the keyword table.
fn fill_part_9(entries: &mut Vec<(String, Keyword)>)
    ensures
        entries_view(final(entries)@) == table_part_9(entries_view(old(entries)@)),
{
    add_entry(entries, "V0", Keyword { category: Category::ReleaseVersion, identifiable: true, searchable: true, valid: true });
    add_entry(entries, "V1", Keyword { category: Category::ReleaseVersion, identifiable: true, searchable: true, valid: true });
    add_entry(entries, "V2", Keyword { category: Category::ReleaseVersion, identifiable: true, searchable: true, valid: true });
    add_entry(entries, "V3", Keyword { category: Category::ReleaseVersion, identifiable: true, searchable: true, valid: true });
    add_entry(entries, "V4", Keyword { category: Category::ReleaseVersion, identifiable: true, searchable: true, valid: true });
    add_entry(entries, "BD", Keyword { category: Category::Source, identifiable: true, searchable: true, valid: true });
    add_entry(entries, "BDRIP", Keyword { category: Category::Source, identifiable: true, searchable: true, valid: true });
    add_entry(entries, "BLURAY", Keyword { category: Category::Source, identifiable: true, searchable: true, valid: true });
    add_entry(entries, "BLU-RAY", Keyword { category: Category::Source, identifiable: true, searchable: true, valid: true });
    add_entry(entries, "DVD", Keyword { category: Category::Source, identifiable: true, searchable: true, valid: true });
}

/// Appends part 10 of the keyword table.
fn fill_part_10(entries: &mut Vec<(String, Keyword)>)
    ensures
        entries_view(final(entries)@) == table_part_10(entries_view(old(entries)@)),
{
    add_entry(entries, "DVD5", Keyword { category: Category::Source, identifiable: true, searchable: true, valid: true });
    add_entry(entries, "DVD9", Keyword { category: Category::Source, identifiable: true, searchable: true, valid: true });
    add_entry(entries, "DVD-R2J", Keyword { category: Category::Source, identifiable: true, searchable: true, valid: true });
    add_entry(entries, "DVDRIP", Keyword { category: Category::Source, identifiable: true, searchable: true, valid: true });
    add_entry(entries, "DVD-RIP", Keyword { category: Category::Source, identifiable: true, searchable: true, valid: true });
    add_entry(entries, "R2DVD", Keyword { category: Category::Source, identifiable: true, searchable: true, valid: true });
    add_entry(entries, "R2J", Keyword { category: Category::Source, identifiable: true, searchable: true, valid: true });
    add_entry(entries, "R2JDVD", Keyword { category: Category::Source, identifiable: true, searchable: true, valid: true });
    add_entry(entries, "R2JDVDRIP", Keyword { category: Category::Source, identifiable: true, searchable: true, valid: true });
    add_entry(entries, "HDTV", Keyword { category: Category::Source, identifiable: true, searchable: true, valid: true });
}

/// Appends part 11 of the keyword table.
fn fill_part_11(entries: &mut Vec<(String, Keyword)>)
    ensures
        entries_view(final(entries)@) == table_part_11(entries_view(old(entries)@)),
{
    add_entry(entries, "HDTVRIP", Keyword { category: Category::Source, identifiable: true, searchable: true, valid: true });
    add_entry(entries, "TVRIP", Keyword { category: Category::Source, identifiable: true, searchable: true, valid: true });
    add_entry(entries, "TV-RIP", Keyword { category: Category::Source, identifiable: true, searchable: true, valid: true });
    add_entry(entries, "WEBCAST", Keyword { category: Category::Source, identifiable: true, searchable: true, valid: true });
    add_entry(entries, "WEBRIP", Keyword { category: Category::Source, identifiable: true, searchable: true, valid: true });
    add_entry(entries, "WEB-DL", Keyword { category: Category::Source, identifiable: true, searchable: true, valid: true });
    add_entry(entries, "ASS", Keyword { category: Category::Subtitles, identifiable: true, searchable: true, valid: true });
    add_entry(entries, "BIG5", Keyword { category: Category::Subtitles, identifiable: true, searchable: true, valid: true });
    add_entry(entries, "DUB", Keyword { category: Category::Subtitles, identifiable: true, searchable: true, valid: true });
    add_entry(entries, "DUBBED", Keyword { category: Category::Subtitles, identifiable: true, searchable: true, valid: true });
}

/// Appends part 12 of the keyword table.
fn fill_part_12(entries: &mut Vec<(String, Keyword)>)
    ensures
        entries_view(final(entries)@) == table_part_12(entries_view(old(entries)@)),
{
    add_entry(entries, "DUALAUDIO", Keyword { category: Category::Subtitles, identifiable: true, searchable: true, valid: true });
    add_entry(entries, "DUAL AUDIO", Keyword { category: Category::Subtitles, identifiable: true, searchable: true, valid: true });
    add_entry(entries, "HARDSUB", Keyword { category: Category::Subtitles, identifiable: true, searchable: true, valid: true });
    add_entry(entries, "HARDSUBS", Keyword { category: Category::Subtitles, identifiable: true, searchable: true, valid: true });
    add_entry(entries, "RAW", Keyword { category: Category::Subtitles, identifiable: true, searchable: true, valid: true });
    add_entry(entries, "SOFTSUB", Keyword { category: Category::Subtitles, identifiable: true, searchable: true, valid: true });
    add_entry(entries, "SOFTSUBS", Keyword { category: Category::Subtitles, identifiable: true, searchable: true, valid: true });
    add_entry(entries, "SUB", Keyword { category: Category::Subtitles, identifiable: true, searchable: true, valid: true });
    add_entry(entries, "SUBBED", Keyword { category: Category::Subtitles, identifiable: true, searchable: true, valid: true });
    add_entry(entries, "SUBTITLED", Keyword { category: Category::Subtitles, identifiable: true, searchable: true, valid: true });
}

/// Appends part 13 of the keyword table.
fn fill_part_13(entries: &mut Vec<(String, Keyword)>)
    ensures
        entries_view(final(entries)@) == table_part_13(entries_view(old(entries)@)),
{
    add_entry(entries, "VOSTFR", Keyword { category: Category::Subtitles, identifiable: true, searchable: true, valid: true });
    add_entry(entries, "23.976FPS", Keyword { category: Category::VideoTerm, identifiable: true, searchable: true, valid: true });
    add_entry(entries, "24FPS", Keyword { category: Category::VideoTerm, identifiable: true, searchable: true, valid: true });
    add_entry(entries, "29.97FPS", Keyword { category: Category::VideoTerm, identifiable: true, searchable: true, valid: true });
    add_entry(entries, "30FPS", Keyword { category: Category::VideoTerm, identifiable: true, searchable: true, valid: true });
    add_entry(entries, "60FPS", Keyword { category: Category::VideoTerm, identifiable: true, searchable: true, valid: true });
    add_entry(entries, "120FPS", Keyword { category: Category::VideoTerm, identifiable: true, searchable: true, valid: true });
    add_entry(entries, "8BIT", Keyword { category: Category::VideoTerm, identifiable: true, searchable: true, valid: true });
    add_entry(entries, "8-BIT", Keyword { category: Category::VideoTerm, identifiable: true, searchable: true, valid: true });
    add_entry(entries, "10BIT", Keyword { category: Category::VideoTerm, identifiable: true, searchable: true, valid: true });
}

/// Appends part 14 of the keyword table.
fn fill_part_14(entries: &mut Vec<(String, Keyword)>)
    ensures
        entries_view(final(entries)@) == table_part_14(entries_view(old(entries)@)),
{
    add_entry(entries, "10BITS", Keyword { category: Category::VideoTerm, identifiable: true, searchable: true, valid: true });
    add_entry(entries, "10-BIT", Keyword { category: Category::VideoTerm, identifiable: true, searchable: true, valid: true });
    add_entry(entries, "10-BITS", Keyword { category: Category::VideoTerm, identifiable: true, searchable: true, valid: true });
    add_entry(entries, "HI10", Keyword { category: Category::VideoTerm, identifiable: true, searchable: true, valid: true });
    add_entry(entries, "HI10P", Keyword { category: Category::VideoTerm, identifiable: true, searchable: true, valid: true });
    add_entry(entries, "HI444", Keyword { category: Category::VideoTerm, identifiable: true, searchable: true, valid: true });
    add_entry(entries, "HI444P", Keyword { category: Category::VideoTerm, identifiable: true, searchable: true, valid: true });
    add_entry(entries, "HI444PP", Keyword { category: Category::VideoTerm, identifiable: true, searchable: true, valid: true });
    add_entry(entries, "H264", Keyword { category: Category::VideoTerm, identifiable: true, searchable: true, valid: true });
    add_entry(entries, "H265", Keyword { category: Category::VideoTerm, identifiable: true, searchable: true, valid: true });
}

/// Appends part 15 of the keyword table.
fn fill_part_15(entries: &mut Vec<(String, Keyword)>)
    ensures
        entries_view(final(entries)@) == table_part_15(entries_view(old(entries)@)),
{
    add_entry(entries, "H.264", Keyword { category: Category::VideoTerm, identifiable: true, searchable: true, valid: true });
    add_entry(entries, "H.265", Keyword { category: Category::VideoTerm, identifiable: true, searchable: true, valid: true });
    add_entry(entries, "X264", Keyword { category: Category::VideoTerm, identifiable: true, searchable: true, valid: true });
    add_entry(entries, "X265", Keyword { category: Category::VideoTerm, identifiable: true, searchable: true, valid: true });
    add_entry(entries, "X.264", Keyword { category: Category::VideoTerm, identifiable: true, searchable: true, valid: true });
    add_entry(entries, "AVC", Keyword { category: Category::VideoTerm, identifiable: true, searchable: true, valid: true });
    add_entry(entries, "HEVC", Keyword { category: Category::VideoTerm, identifiable: true, searchable: true, valid: true });
    add_entry(entries, "HEVC2", Keyword { category: Category::VideoTerm, identifiable: true, searchable: true, valid: true });
    add_entry(entries, "DIVX", Keyword { category: Category::VideoTerm, identifiable: true, searchable: true, valid: true });
    add_entry(entries, "DIVX5", Keyword { category: Category::VideoTerm, identifiable: true, searchable: true, valid: true });
}

/// Appends part 16 of the keyword table.
fn fill_part_16(entries: &mut Vec<(String, Keyword)>)
    ensures
        entries_view(final(entries)@) == table_part_16(entries_view(old(entries)@)),
{
    add_entry(entries, "DIVX6", Keyword { category: Category::VideoTerm, identifiable: true, searchable: true, valid: true });
    add_entry(entries, "XVID", Keyword { category: Category::VideoTerm, identifiable: true, searchable: true, valid: true });
    add_entry(entries, "AVI", Keyword { category: Category::VideoTerm, identifiable: true, searchable: true, valid: true });
    add_entry(entries, "RMVB", Keyword { category: Category::VideoTerm, identifiable: true, searchable: true, valid: true });
    add_entry(entries, "WMV", Keyword { category: Category::VideoTerm, identifiable: true, searchable: true, valid: true });
    add_entry(entries, "WMV3", Keyword { category: Category::VideoTerm, identifiable: true, searchable: true, valid: true });
    add_entry(entries, "WMV9", Keyword { category: Category::VideoTerm, identifiable: true, searchable: true, valid: true });
    add_entry(entries, "HQ", Keyword { category: Category::VideoTerm, identifiable: true, searchable: true, valid: true });
    add_entry(entries, "LQ", Keyword { category: Category::VideoTerm, identifiable: true, searchable: true, valid: true });
    add_entry(entries, "HD", Keyword { category: Category::VideoTerm, identifiable: true, searchable: true, valid: true });
}

/// Appends part 17 of the keyword table.
fn fill_part_17(entries: &mut Vec<(String, Keyword)>)
    ensures
        entries_view(final(entries)@) == table_part_17(entries_view(old(entries)@)),
{
    add_entry(entries, "SD", Keyword { category: Category::VideoTerm, identifiable: true, searchable: true, valid: true });
    add_entry(entries, "VOL", Keyword { category: Category::VolumePrefix, identifiable: true, searchable: true, valid: true });
    add_entry(entries, "VOL.", Keyword { category: Category::VolumePrefix, identifiable: true, searchable: true, valid: true });
    add_entry(entries, "VOLUME", Keyword { category: Category::VolumePrefix, identifiable: true, searchable: true, valid: true });
}

impl View for Manager {
    type V = Seq<(Seq<char>, Keyword)>;

    closed spec fn view(&self) -> Seq<(Seq<char>, Keyword)> {
        entries_view(self.entries@)
    }
}

impl Manager {
    /// Every manager holds the keyword table.
    #[verifier::type_invariant]
    pub open spec fn holds_table(self) -> bool {
        self@ == keyword_table()
    }

    /// The manager holding the keyword table.
    pub fn new() -> (r: Manager)
        ensures
            r@ == keyword_table(),
    {
        let mut entries: Vec<(String, Keyword)> = Vec::new();
        assert(entries_view(entries@) =~= Seq::<(Seq<char>, Keyword)>::empty());
        fill_part_0(&mut entries);
        fill_part_1(&mut entries);
        fill_part_2(&mut entries);
        fill_part_3(&mut entries);
        fill_part_4(&mut entries);
        fill_part_5(&mut entries);
        fill_part_6(&mut entries);
        fill_part_7(&mut entries);
        fill_part_8(&mut entries);
        fill_part_9(&mut entries);
        fill_part_10(&mut entries);
        fill_part_11(&mut entries);
        fill_part_12(&mut entries);
        fill_part_13(&mut entries);
        fill_part_14(&mut entries);
        fill_part_15(&mut entries);
        fill_part_16(&mut entries);
        fill_part_17(&mut entries);
        Manager { entries }
    }

    /// The keyword for `word`, compared in upper case, if there is one.
    pub fn find(&self, word: &str) -> (r: Option<Keyword>)
        ensures
            r == lookup(self@, upper_of(word@)),
    {
        let upper = to_upper(word);
        self.find_upper(upper.as_str())
    }

    /// The keyword of the first entry whose word is `key` itself (the table's words are in upper
    /// case, so `key` is expected in upper case too).
    pub fn find_upper(&self, key: &str) -> (r: Option<Keyword>)
        ensures
            r == lookup(self@, key@),
    {
        let wanted = chars_of(key);
        let ghost t = self@;
        let n = self.entries.len();
        let mut i: usize = 0;
        assert(t.subrange(0, n as int) =~= t);
        while i < n
            invariant
                n == t.len(),
                t == self@,
                0 <= i <= n,
                wanted@ == key@,
                lookup(t.subrange(i as int, n as int), key@) == lookup(t, key@),
            decreases n - i,
        {
            let entry_key = chars_of(self.entries[i].0.as_str());
            assert(t[i as int] == (self.entries@[i as int].0@, self.entries@[i as int].1));
            assert(t.subrange(i as int, n as int)[0] == t[i as int]);
            if seq_eq(&entry_key, &wanted) {
                return Some(self.entries[i].1);
            }
            assert(t.subrange(i as int, n as int).drop_first() =~= t.subrange(i + 1, n as int));
            i = i + 1;
        }
        assert(t.subrange(n as int, n as int) =~= Seq::<(Seq<char>, Keyword)>::empty());
        None
    }
}

} // verus!
