use sudachi::analysis::owned_morpheme::OwnedMorpheme;
use sudachi::dic::build::error::BuildFailure;
use sudachi::dic::build::lexicon::write_short_utf16;
use sudachi::dic::lexicon::strings::{CompactedStrings, StringPointer};
use sudachi::dic::lexicon::word_id_table::{DeltaCompressedWordIdIter, WordIdTable};
use sudachi::dic::lexicon::word_params::{WordParameter, WordParams};
use sudachi::dic::read::primitives::{
    count_le_u32, le_i16, le_i8, le_u16, le_u32, le_u64, take, write_i16, write_u32,
};
use sudachi::dic::read::utf16_string::{decode_utf16, encode_utf16, utf16_string};
use sudachi::dic::read::varint::varint32;
use sudachi::dic::read::word_id::le_u32_word_id;
use sudachi::dic::read::word_info::{le_u32_string_pointer, le_u32_word_ref};
use sudachi::dic::subset::InfoSubset;
use sudachi::dic::word_id::{WordId, WordRef};
use sudachi::dic::word_info::layout;
use sudachi::error::SudachiError;

#[test]
fn varint_reads_seven_bits_per_byte() {
    assert_eq!(varint32(&[0x05, 0xff]).unwrap(), (&[0xffu8][..], 5));
    assert_eq!(varint32(&[0x80, 0x01]).unwrap(), (&[][..], 128));
    assert_eq!(varint32(&[0xff, 0xff, 0xff, 0xff, 0x0f]).unwrap().1, u32::MAX);
    assert_eq!(varint32(&[0x80]), Err(SudachiError::InvalidVarint));
    assert_eq!(varint32(&[]), Err(SudachiError::InvalidVarint));
}

#[test]
fn little_endian_primitives() {
    let data = [0x01u8, 0x02, 0x03, 0x04, 0x05, 0x06, 0x07, 0x08, 0x09];
    assert_eq!(le_u16(&data).unwrap().1, 0x0201);
    assert_eq!(le_u32(&data).unwrap().1, 0x0403_0201);
    assert_eq!(le_u64(&data).unwrap(), (&data[8..], 0x0807_0605_0403_0201));
    assert_eq!(le_i8(&[0xff]).unwrap().1, -1);
    assert_eq!(le_i16(&[0xfe, 0xff]).unwrap().1, -2);
    assert_eq!(le_u32(&data[..3]), Err(SudachiError::UnexpectedEndOfInput));
    assert_eq!(take(&data, 2).unwrap(), (&data[2..], &data[..2]));
    assert_eq!(
        count_le_u32(&[1, 0, 0, 0, 2, 0, 0, 0], 2).unwrap().1,
        vec![1, 2]
    );
    let mut w = Vec::new();
    write_i16(&mut w, -2);
    write_u32(&mut w, 0x0403_0201);
    assert_eq!(w, vec![0xfe, 0xff, 1, 2, 3, 4]);
}

#[test]
fn utf16_round_trip() {
    let units = encode_utf16("a東\u{1F600}");
    assert_eq!(units, vec![0x61, 0x6771, 0xD83D, 0xDE00]);
    assert_eq!(decode_utf16(&units).unwrap().into_iter().collect::<String>(), "a東\u{1F600}");
    assert!(decode_utf16(&[0xD83D]).is_none());

    let mut w = Vec::new();
    assert_eq!(write_short_utf16(&mut w, "東京"), Ok(6));
    assert_eq!(w, vec![2, 0, 0x71, 0x67, 0xAC, 0x4E]);
    let (rest, s) = utf16_string(&w).unwrap();
    assert_eq!(s, "東京");
    assert!(rest.is_empty());
}

#[test]
fn short_utf16_refuses_long_strings() {
    let long = "a".repeat(0x8000);
    let mut w = Vec::new();
    assert!(matches!(
        write_short_utf16(&mut w, &long),
        Err(BuildFailure::InvalidSize { actual: 0x8000, expected: 0x7fff })
    ));
}

#[test]
fn string_pointers_encode_and_decode() {
    let p = StringPointer::checked(3, 10).unwrap();
    assert_eq!(StringPointer::decode(p.encode()), p);
    assert_eq!(StringPointer::checked(300, 0), Err(SudachiError::InvalidStringPointer));
    let data = [0x61u8, 0, 0x62, 0, 0x63, 0];
    let strings = CompactedStrings::from_bytes(&data);
    assert_eq!(strings.get(StringPointer::unchecked(2, 1)).unwrap(), "bc");
    assert!(strings.get(StringPointer::unchecked(3, 1)).is_err());
}

#[test]
fn word_parameters_pack_ids_and_cost() {
    let p = WordParameter::from_raw(0x0003_0002_0001);
    assert_eq!((p.left_id(), p.right_id(), p.cost()), (1, 2, 3));
    let q = p.with_cost(-5);
    assert_eq!((q.left_id(), q.right_id(), q.cost()), (1, 2, -5));

    let bytes = [1u8, 0, 2, 0, 3, 0, 0, 0, 4, 0, 5, 0, 6, 0, 0, 0];
    let mut params = WordParams::from_bytes(&bytes);
    assert_eq!(params.len(), 2);
    assert_eq!(params.get_cost(1), 6);
    params.set_cost(1, i16::MIN);
    assert_eq!(params.get_cost(1), i16::MIN);
    assert_eq!(params.get_params(1).left_id(), 4);
    assert_eq!(params.get_params(0).cost(), 3);
}

#[test]
fn word_id_lists_are_delta_compressed() {
    let bytes = [3u8, 4, 2, 0x80, 0x01, 1, 9];
    let table = WordIdTable::from_bytes(&bytes);
    assert_eq!(table.entries(0).collect_all(), vec![4, 6, 134]);
    assert_eq!(table.entries(5).collect_all(), vec![9]);
    let mut it = DeltaCompressedWordIdIter::new(&bytes[5..]);
    assert_eq!(it.next(), Some(9));
    assert_eq!(it.next(), None);
}

#[test]
fn word_ids_and_refs() {
    let w = WordId::new(3, 77);
    assert_eq!(w.dic(), 3);
    assert_eq!(w.entry().as_raw(), 77);
    assert!(w.is_user());
    assert!(!WordId::new(0, 1).is_user());
    assert_eq!(WordId::from_raw(w.as_raw()), w);
    assert!(WordId::oov(2).is_oov());
    let r = WordRef::new(false, 12);
    assert!(!r.is_system());
    assert_eq!(r.entry().as_raw(), 12);
    assert_eq!(WordRef::from_raw(r.as_raw()), r);
}

#[test]
fn info_subsets() {
    let s = InfoSubset::headword().union(InfoSubset::reading_form());
    assert!(s.contains(InfoSubset::headword()));
    assert!(!s.contains(InfoSubset::split_a()));
    assert!(InfoSubset::all().contains(s));
    assert!(s.difference(InfoSubset::headword()).contains(InfoSubset::reading_form()));
    assert!(!s.difference(InfoSubset::headword()).contains(InfoSubset::headword()));
    assert!(InfoSubset::empty().is_empty());
}

#[test]
fn entry_layout_sizes() {
    assert_eq!(layout::aligned_size(33), 40);
    assert_eq!(layout::aligned_size(32), 32);
    assert_eq!(layout::embedded_len(-1), 0);
    assert_eq!(layout::embedded_len(3), 3);
    assert!(layout::is_valid_user_data_flag(1));
    assert!(!layout::is_valid_user_data_flag(2));
}

#[test]
fn owned_morpheme_gives_its_parts_back() {
    let pos = vec!["名詞".to_string(), "固有名詞".to_string(), "*".to_string()];
    let m = OwnedMorpheme::from_parts(
        "東京", "東京", "東京都", "トウキョウ", &pos, 7, 0x1234, false, (3, 9, 1, 3),
    );
    assert_eq!(m.surface(), "東京");
    assert_eq!(m.dictionary_form(), "東京");
    assert_eq!(m.normalized_form(), "東京都");
    assert_eq!(m.reading_form(), "トウキョウ");
    assert_eq!(m.part_of_speech(), vec!["名詞", "固有名詞", "*"]);
    assert_eq!(m.part_of_speech_id(), 7);
    assert_eq!(m.word_id(), 0x1234);
    assert!(!m.is_oov());
    assert_eq!((m.begin(), m.end(), m.begin_c(), m.end_c()), (3, 9, 1, 3));
    let c = m.clone();
    assert_eq!(c.normalized_form(), "東京都");
}

#[test]
fn word_ids_refs_and_pointers_are_read_as_u32() {
    let data = [0x05u8, 0x00, 0x00, 0x10, 0xaa];
    let (rest, w) = le_u32_word_id(&data).unwrap();
    assert_eq!(rest, &[0xaa]);
    assert_eq!(w.dic(), 1);
    assert_eq!(w.entry().as_raw(), 5);
    let (_, r) = le_u32_word_ref(&data).unwrap();
    assert_eq!(r.as_raw(), 0x1000_0005);
    let (_, p) = le_u32_string_pointer(&[0x03, 0x00, 0x00, 0x02]).unwrap();
    assert_eq!((p.length, p.offset), (2, 3));
    assert!(le_u32_word_id(&data[..3]).is_err());
}
