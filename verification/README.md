# sudachi (verified dictionary core)

The dictionary side of the Sudachi Japanese morphological analyzer, written in
Verus. The functions in `src/` carry contracts that Verus proves; the few calls
into other crates (`csv` to split CSV text into records, `indexmap` for the
part-of-speech table, and some `std` conversions of chars and strings) go through
small trusted wrappers whose contracts are stated next to them and not proved.

- `src/dic/read/` — little-endian primitives, variable-length integers and
  UTF-16 strings of the binary format.
- `src/dic/word_info/` — the layout of lexicon entries, and parsing and writing
  their fixed and variable parts.
- `src/dic/lexicon/`, `src/dic/lexicon.rs`, `src/dic/lexicon_set.rs` — word id
  lists, word parameters, the string block, lookups across the system and user
  lexicons.
- `src/dic/build/` — building a lexicon: reading lexicon sources and the
  part-of-speech table, from CSV text or from rows already split into fields
  (legacy rows or rows under a header row), reference resolution between
  entries, the string store and the writer of the entries block.
- `src/analysis/` — owned morphemes and the lazily read strings of a word.
- `app/` — file access around the library (memory-mapped source files).

The laws of the library (what a reader gives back of what a writer wrote, that
reading a part-of-speech table keeps its rows distinct, that resolution leaves
no reference pending, and others) are public proof functions next to the
functions they speak of.
