# anitomy_pure

A library that parses anime video filenames such as
`[HorribleSubs] Boku no Hero Academia - 73 [1080p].mkv` into categorised elements (release
group, title, episode number, resolution, extension, …), written in Verus with its behaviour
stated in contracts and proved.

Layout:

- `src/lib.rs` — `Parser`, its settings and `parse`, specified exactly by `parse_spec`.
- `src/elements.rs` — `Category`, `Element`, `Elements` (modelled as a sequence of
  category/text pairs) and the laws of the collection.
- `src/split.rs` — splitting a filename into tokens and tokens into subtokens, with the laws
  that splitting keeps the text.
- `src/token/` — tokens and subtokens; every pass only ever classifies subtokens as found.
- `src/keyword.rs` — the keyword table and its lookup.
- `src/parsing/` — the passes: keywords (`mod.rs`), episode patterns (`episode.rs`), the
  episode-number passes (`episode_number.rs`), title, release group and episode title
  (`string.rs`), numbers (`number.rs`) and extensions (`extensions.rs`).
- `src/text.rs` — character and text helpers; its calls into the `char` classes
  `is_alphabetic`, `is_numeric` and `is_uppercase`, `str` case mapping and `String::push` are
  the only trusted items (whitespace is written out from the Unicode `White_Space` list and
  proved).
- `app/` — the error type with `Display` and `std::error::Error`.
