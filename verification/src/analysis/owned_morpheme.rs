//! A morpheme that owns its strings, packed into one arena.
use vstd::prelude::*;
use vstd::string::{StrSliceExecFns, StringExecFns};
use crate::util::string_with_capacity;

verus! {

/// A range of chars in the arena: from `start` up to, not including, `end`.
#[derive(Debug, Clone, Copy, PartialEq, Eq)]
pub struct Range {
    pub start: u32,
    pub end: u32,
}

/// An owned snapshot of a morpheme.
///
/// All string fields share one backing string; each is found by its range of chars
/// in it. The part-of-speech fields are ranges in the same string.
#[derive(Debug)]
pub struct OwnedMorpheme {
    arena: String,
    surface: Range,
    dictionary_form: Range,
    normalized_form: Range,
    reading_form: Range,
    pos: Vec<Range>,
    pos_id: u16,
    word_id: u32,
    is_oov: bool,
    begin_bytes: usize,
    end_bytes: usize,
    begin_chars: usize,
    end_chars: usize,
}

/// Whether a range lies inside a string of `len` chars.
pub open spec fn range_in(r: Range, len: nat) -> bool {
    r.start <= r.end && r.end <= len
}

/// The chars of `s` in range `r`.
pub open spec fn chars_in(s: Seq<char>, r: Range) -> Seq<char> {
    s.subrange(r.start as int, r.end as int)
}

impl OwnedMorpheme {
    #[verifier::type_invariant]
    closed spec fn ranges_inside(self) -> bool {
        &&& range_in(self.surface, self.arena@.len())
        &&& range_in(self.dictionary_form, self.arena@.len())
        &&& range_in(self.normalized_form, self.arena@.len())
        &&& range_in(self.reading_form, self.arena@.len())
        &&& forall|i: int| 0 <= i < self.pos@.len() ==> range_in(#[trigger] self.pos@[i], self.arena@.len())
    }

    pub closed spec fn spec_surface(&self) -> Seq<char> {
        chars_in(self.arena@, self.surface)
    }

    pub closed spec fn spec_dictionary_form(&self) -> Seq<char> {
        chars_in(self.arena@, self.dictionary_form)
    }

    pub closed spec fn spec_normalized_form(&self) -> Seq<char> {
        chars_in(self.arena@, self.normalized_form)
    }

    pub closed spec fn spec_reading_form(&self) -> Seq<char> {
        chars_in(self.arena@, self.reading_form)
    }

    pub closed spec fn spec_part_of_speech(&self) -> Seq<Seq<char>> {
        self.pos@.map_values(|r: Range| chars_in(self.arena@, r))
    }

    /// The backing string of all the string fields.
    pub closed spec fn spec_arena(&self) -> Seq<char> {
        self.arena@
    }

    /// The ranges of the surface, dictionary form, normalized form and reading form,
    /// then of each part-of-speech field, in the arena.
    pub closed spec fn spec_ranges(&self) -> Seq<Range> {
        seq![self.surface, self.dictionary_form, self.normalized_form, self.reading_form] + self.pos@
    }

    pub closed spec fn spec_pos_id(&self) -> u16 {
        self.pos_id
    }

    pub closed spec fn spec_word_id(&self) -> u32 {
        self.word_id
    }

    pub closed spec fn spec_is_oov(&self) -> bool {
        self.is_oov
    }

    /// Byte and char offsets of the begin and end in the original text.
    pub closed spec fn spec_offsets(&self) -> (usize, usize, usize, usize) {
        (self.begin_bytes, self.end_bytes, self.begin_chars, self.end_chars)
    }

    /// Packs the strings of a morpheme into one arena, whose room for all of them is
    /// reserved at once: surface, dictionary form, normalized form, reading form, then
    /// each part-of-speech field, back to back.
    pub fn from_parts(
        surface: &str,
        dictionary_form: &str,
        normalized_form: &str,
        reading_form: &str,
        pos: &[String],
        pos_id: u16,
        word_id: u32,
        is_oov: bool,
        offsets: (usize, usize, usize, usize),
    ) -> (r: Self)
        requires
            surface@.len() + dictionary_form@.len() + normalized_form@.len() + reading_form@.len()
                + pos_chars(pos@, pos@.len()) <= u32::MAX,
        ensures
            r.spec_surface() == surface@,
            r.spec_dictionary_form() == dictionary_form@,
            r.spec_normalized_form() == normalized_form@,
            r.spec_reading_form() == reading_form@,
            r.spec_part_of_speech() == pos@.map_values(|p: String| p@),
            r.spec_pos_id() == pos_id,
            r.spec_word_id() == word_id,
            r.spec_is_oov() == is_oov,
            r.spec_offsets() == offsets,
            r.spec_arena() == surface@ + dictionary_form@ + normalized_form@ + reading_form@
                + pos_text(pos@, pos@.len()),
            r.spec_ranges().len() == 4 + pos@.len(),
            back_to_back(r.spec_ranges(), r.spec_arena().len()),
            forall|k: int|
                0 <= k < r.spec_ranges().len() ==> chars_in(r.spec_arena(), #[trigger] r.spec_ranges()[k])
                    == (seq![surface@, dictionary_form@, normalized_form@, reading_form@] + pos@.map_values(
                    |p: String| p@,
                ))[k],
    {
        let mut capacity: usize = surface.len();
        capacity = capacity.saturating_add(dictionary_form.len());
        capacity = capacity.saturating_add(normalized_form.len());
        capacity = capacity.saturating_add(reading_form.len());
        let mut j: usize = 0;
        while j < pos.len()
            invariant
                0 <= j <= pos@.len(),
            decreases pos@.len() - j,
        {
            capacity = capacity.saturating_add(pos[j].as_str().len());
            j = j + 1;
        }
        let mut arena = string_with_capacity(capacity);
        let surface_r = push(&mut arena, surface);
        let dict_r = push(&mut arena, dictionary_form);
        let norm_r = push(&mut arena, normalized_form);
        let reading_r = push(&mut arena, reading_form);
        let ghost fixed = arena@;
        proof {
            assert(fixed =~= surface@ + dictionary_form@ + normalized_form@ + reading_form@);
            assert(chars_in(fixed, surface_r) =~= surface@);
            assert(chars_in(fixed, dict_r) =~= dictionary_form@);
            assert(chars_in(fixed, norm_r) =~= normalized_form@);
            assert(chars_in(fixed, reading_r) =~= reading_form@);
        }
        let mut pos_ranges: Vec<Range> = Vec::new();
        let mut i: usize = 0;
        while i < pos.len()
            invariant
                0 <= i <= pos@.len(),
                pos_ranges@.len() == i,
                arena@.len() == fixed.len() + pos_chars(pos@, i as nat),
                arena@ == fixed + pos_text(pos@, i as nat),
                fixed.len() + pos_chars(pos@, pos@.len()) <= u32::MAX,
                fixed.len() == reading_r.end,
                forall|j: int|
                    0 <= j < i ==> (#[trigger] pos_ranges@[j]).start == (if j == 0 {
                        fixed.len() as u32
                    } else {
                        pos_ranges@[j - 1].end
                    }),
                i > 0 ==> pos_ranges@[i - 1].end == arena@.len(),
                arena@.subrange(0, fixed.len() as int) == fixed,
                forall|j: int|
                    0 <= j < i ==> range_in(#[trigger] pos_ranges@[j], arena@.len()) && chars_in(
                        arena@,
                        pos_ranges@[j],
                    ) == pos@[j]@,
            decreases pos@.len() - i,
        {
            proof {
                lemma_pos_chars_monotone(pos@, (i + 1) as nat, pos@.len());
            }
            let ghost before = arena@;
            let r = push(&mut arena, pos[i].as_str());
            proof {
                assert(arena@.subrange(0, fixed.len() as int) =~= before.subrange(0, fixed.len() as int));
                assert forall|j: int| 0 <= j < i implies range_in(#[trigger] pos_ranges@[j], arena@.len())
                    && chars_in(arena@, pos_ranges@[j]) == pos@[j]@ by {
                    assert(chars_in(arena@, pos_ranges@[j]) =~= chars_in(before, pos_ranges@[j]));
                }
                assert(arena@ =~= fixed + pos_text(pos@, (i + 1) as nat));
            }
            pos_ranges.push(r);
            i = i + 1;
        }
        let m = OwnedMorpheme {
            arena,
            surface: surface_r,
            dictionary_form: dict_r,
            normalized_form: norm_r,
            reading_form: reading_r,
            pos: pos_ranges,
            pos_id,
            word_id,
            is_oov,
            begin_bytes: offsets.0,
            end_bytes: offsets.1,
            begin_chars: offsets.2,
            end_chars: offsets.3,
        };
        proof {
            assert(m.spec_surface() =~= chars_in(fixed, surface_r));
            assert(m.spec_dictionary_form() =~= chars_in(fixed, dict_r));
            assert(m.spec_normalized_form() =~= chars_in(fixed, norm_r));
            assert(m.spec_reading_form() =~= chars_in(fixed, reading_r));
            assert(m.spec_part_of_speech() =~= pos@.map_values(|p: String| p@));
            let rs = m.spec_ranges();
            assert forall|k: int| 0 <= k < rs.len() implies (#[trigger] rs[k]).start == (if k == 0 {
                0u32
            } else {
                rs[k - 1].end
            }) by {
                if k >= 4 {
                    assert(rs[k] == pos_ranges@[k - 4]);
                }
                if k >= 5 {
                    assert(rs[k - 1] == pos_ranges@[k - 5]);
                }
            }
            if pos@.len() > 0 {
                assert(rs.last() == pos_ranges@[pos@.len() - 1]);
            }
            let fields = seq![surface@, dictionary_form@, normalized_form@, reading_form@] + pos@.map_values(
                |p: String| p@,
            );
            assert forall|k: int| 0 <= k < rs.len() implies chars_in(m.spec_arena(), #[trigger] rs[k]) == fields[k] by {
                if k >= 4 {
                    assert(rs[k] == pos_ranges@[k - 4]);
                    assert(fields[k] == pos@[k - 4]@);
                } else if k == 0 {
                    assert(chars_in(m.spec_arena(), rs[k]) == m.spec_surface());
                } else if k == 1 {
                    assert(chars_in(m.spec_arena(), rs[k]) == m.spec_dictionary_form());
                } else if k == 2 {
                    assert(chars_in(m.spec_arena(), rs[k]) == m.spec_normalized_form());
                } else {
                    assert(chars_in(m.spec_arena(), rs[k]) == m.spec_reading_form());
                }
            }
        }
        m
    }

    /// The surface form (the substring of the original input).
    pub fn surface(&self) -> (r: &str)
        ensures
            r@ == self.spec_surface(),
    {
        proof {
            use_type_invariant(self);
        }
        self.slice(&self.surface)
    }

    /// The dictionary form (lemma).
    pub fn dictionary_form(&self) -> (r: &str)
        ensures
            r@ == self.spec_dictionary_form(),
    {
        proof {
            use_type_invariant(self);
        }
        self.slice(&self.dictionary_form)
    }

    /// The normalized form.
    pub fn normalized_form(&self) -> (r: &str)
        ensures
            r@ == self.spec_normalized_form(),
    {
        proof {
            use_type_invariant(self);
        }
        self.slice(&self.normalized_form)
    }

    /// The reading form.
    pub fn reading_form(&self) -> (r: &str)
        ensures
            r@ == self.spec_reading_form(),
    {
        proof {
            use_type_invariant(self);
        }
        self.slice(&self.reading_form)
    }

    /// The part-of-speech fields.
    pub fn part_of_speech(&self) -> (r: Vec<&str>)
        ensures
            r@.map_values(|s: &str| s@) == self.spec_part_of_speech(),
    {
        proof {
            use_type_invariant(self);
        }
        let mut out: Vec<&str> = Vec::new();
        let mut i: usize = 0;
        while i < self.pos.len()
            invariant
                0 <= i <= self.pos@.len(),
                out@.len() == i,
                forall|j: int| 0 <= j < self.pos@.len() ==> range_in(#[trigger] self.pos@[j], self.arena@.len()),
                forall|j: int| 0 <= j < i ==> (#[trigger] out@[j])@ == chars_in(self.arena@, self.pos@[j]),
            decreases self.pos@.len() - i,
        {
            let r = &self.pos[i];
            out.push(self.arena.as_str().substring_char(r.start as usize, r.end as usize));
            i = i + 1;
        }
        proof {
            assert(out@.map_values(|s: &str| s@) =~= self.spec_part_of_speech());
        }
        out
    }

    /// The numeric part-of-speech id.
    pub fn part_of_speech_id(&self) -> (r: u16)
        ensures
            r == self.spec_pos_id(),
    {
        self.pos_id
    }

    /// Whether the morpheme is out of vocabulary.
    pub fn is_oov(&self) -> (r: bool)
        ensures
            r == self.spec_is_oov(),
    {
        self.is_oov
    }

    /// The raw word id.
    pub fn word_id(&self) -> (r: u32)
        ensures
            r == self.spec_word_id(),
    {
        self.word_id
    }

    /// The begin byte offset in the original text.
    pub fn begin(&self) -> (r: usize)
        ensures
            r == self.spec_offsets().0,
    {
        self.begin_bytes
    }

    /// The end byte offset in the original text.
    pub fn end(&self) -> (r: usize)
        ensures
            r == self.spec_offsets().1,
    {
        self.end_bytes
    }

    /// The begin char offset in the original text.
    pub fn begin_c(&self) -> (r: usize)
        ensures
            r == self.spec_offsets().2,
    {
        self.begin_chars
    }

    /// The end char offset in the original text.
    pub fn end_c(&self) -> (r: usize)
        ensures
            r == self.spec_offsets().3,
    {
        self.end_chars
    }

    fn slice(&self, r: &Range) -> (s: &str)
        requires
            range_in(*r, self.arena@.len()),
        ensures
            s@ == chars_in(self.arena@, *r),
    {
        self.arena.as_str().substring_char(r.start as usize, r.end as usize)
    }
}

impl Clone for OwnedMorpheme {
    fn clone(&self) -> (r: Self)
        ensures
            r.spec_surface() == self.spec_surface(),
            r.spec_dictionary_form() == self.spec_dictionary_form(),
            r.spec_normalized_form() == self.spec_normalized_form(),
            r.spec_reading_form() == self.spec_reading_form(),
            r.spec_part_of_speech() == self.spec_part_of_speech(),
            r.spec_pos_id() == self.spec_pos_id(),
            r.spec_word_id() == self.spec_word_id(),
            r.spec_is_oov() == self.spec_is_oov(),
            r.spec_offsets() == self.spec_offsets(),
    {
        proof {
            use_type_invariant(self);
        }
        let mut pos: Vec<Range> = Vec::new();
        let mut i: usize = 0;
        while i < self.pos.len()
            invariant
                0 <= i <= self.pos@.len(),
                pos@ == self.pos@.take(i as int),
            decreases self.pos@.len() - i,
        {
            pos.push(self.pos[i]);
            i = i + 1;
            proof {
                assert(pos@ =~= self.pos@.take(i as int));
            }
        }
        proof {
            assert(pos@ =~= self.pos@);
        }
        OwnedMorpheme {
            arena: self.arena.clone(),
            surface: self.surface,
            dictionary_form: self.dictionary_form,
            normalized_form: self.normalized_form,
            reading_form: self.reading_form,
            pos,
            pos_id: self.pos_id,
            word_id: self.word_id,
            is_oov: self.is_oov,
            begin_bytes: self.begin_bytes,
            end_bytes: self.end_bytes,
            begin_chars: self.begin_chars,
            end_chars: self.end_chars,
        }
    }
}

/// The number of chars of the first `n` part-of-speech fields.
pub open spec fn pos_chars(pos: Seq<String>, n: nat) -> nat
    decreases n,
{
    if n == 0 || n > pos.len() {
        0
    } else {
        pos_chars(pos, (n - 1) as nat) + pos[n - 1]@.len()
    }
}

proof fn lemma_pos_chars_monotone(pos: Seq<String>, i: nat, j: nat)
    requires
        i <= j <= pos.len(),
    ensures
        pos_chars(pos, i) <= pos_chars(pos, j),
    decreases j - i,
{
    if i < j {
        lemma_pos_chars_monotone(pos, i, (j - 1) as nat);
    }
}

/// The part-of-speech fields `0..n`, one after another.
pub open spec fn pos_text(pos: Seq<String>, n: nat) -> Seq<char>
    decreases n,
{
    if n == 0 || n > pos.len() {
        Seq::empty()
    } else {
        pos_text(pos, (n - 1) as nat) + pos[n - 1]@
    }
}

/// Whether ranges follow one another with nothing between them, from the start of a
/// string of `len` chars to its end.
pub open spec fn back_to_back(ranges: Seq<Range>, len: nat) -> bool {
    &&& ranges.len() > 0
    &&& forall|k: int|
        0 <= k < ranges.len() ==> (#[trigger] ranges[k]).start == (if k == 0 {
            0u32
        } else {
            ranges[k - 1].end
        })
    &&& ranges.last().end == len
}

/// Appends `s` to the arena and returns the range of chars it takes there.
fn push(arena: &mut String, s: &str) -> (r: Range)
    requires
        old(arena)@.len() + s@.len() <= u32::MAX,
    ensures
        final(arena)@ == old(arena)@ + s@,
        r.start == old(arena)@.len(),
        r.end == final(arena)@.len(),
        chars_in(final(arena)@, r) == s@,
{
    let start = arena.as_str().unicode_len() as u32;
    arena.append(s);
    let end = arena.as_str().unicode_len() as u32;
    proof {
        assert(chars_in(arena@, Range { start, end }) =~= s@);
    }
    Range { start, end }
}

} // verus!
