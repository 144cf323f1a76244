//! The part-of-speech table of a lexicon being built: an `IndexMap` from rows to
//! their ids, which keeps the order in which rows came.
use vstd::prelude::*;

use indexmap::IndexMap;

use crate::dic::build::lexicon::{pos_index, StrPosEntry};

verus! {

#[verifier::external_type_specification]
#[verifier::external_body]
#[verifier::reject_recursive_types(K)]
#[verifier::reject_recursive_types(V)]
#[verifier::reject_recursive_types(S)]
pub struct ExIndexMap<K, V, S>(IndexMap<K, V, S>);

/// What a part-of-speech map holds: its rows (by their six fields) in insertion
/// order, each with its value.
pub uninterp spec fn pos_map_rows(m: IndexMap<StrPosEntry, u16>) -> Seq<(Seq<Seq<char>>, u16)>;

/// The rows of a map without their values.
pub open spec fn row_keys(rows: Seq<(Seq<Seq<char>>, u16)>) -> Seq<Seq<Seq<char>>> {
    rows.map_values(|r: (Seq<Seq<char>>, u16)| r.0)
}

/// The rows after `IndexMap::insert` of `key` with `value`: an equal row keeps its
/// place and takes the value, a new row goes last.
pub open spec fn rows_after_insert(
    rows: Seq<(Seq<Seq<char>>, u16)>,
    key: Seq<Seq<char>>,
    value: u16,
) -> Seq<(Seq<Seq<char>>, u16)> {
    match pos_index(row_keys(rows), key, 0) {
        Some(i) => rows.update(i as int, (rows[i as int].0, value)),
        None => rows.push((key, value)),
    }
}

/// `IndexMap::new`: a map with no rows.
#[verifier::external_body]
pub(crate) fn pos_map_new() -> (r: IndexMap<StrPosEntry, u16>)
    ensures
        pos_map_rows(r) == Seq::<(Seq<Seq<char>>, u16)>::empty(),
{
    IndexMap::new()
}

/// `IndexMap::len`: the number of rows.
#[verifier::external_body]
pub(crate) fn pos_map_len(m: &IndexMap<StrPosEntry, u16>) -> (r: usize)
    ensures
        r == pos_map_rows(*m).len(),
{
    m.len()
}

/// `IndexMap::get`: the value of the row equal to `key` (rows are equal when their
/// fields are), if the map has one.
#[verifier::external_body]
pub(crate) fn pos_map_get(m: &IndexMap<StrPosEntry, u16>, key: &StrPosEntry) -> (r: Option<u16>)
    ensures
        r == match pos_index(row_keys(pos_map_rows(*m)), key@, 0) {
            Some(i) => Some(pos_map_rows(*m)[i as int].1),
            None => None::<u16>,
        },
{
    m.get(key).copied()
}

/// `IndexMap::insert`: sets the value of the row equal to `key`, which keeps its
/// place, or adds the row last; gives the value it had.
#[verifier::external_body]
pub(crate) fn pos_map_insert(m: &mut IndexMap<StrPosEntry, u16>, key: StrPosEntry, value: u16) -> (r: Option<u16>)
    ensures
        pos_map_rows(*final(m)) == rows_after_insert(pos_map_rows(*old(m)), key@, value),
        r == match pos_index(row_keys(pos_map_rows(*old(m))), key@, 0) {
            Some(i) => Some(pos_map_rows(*old(m))[i as int].1),
            None => None::<u16>,
        },
{
    m.insert(key, value)
}

/// `IndexMap::get_index`: the row at place `i` and its value, if there is one.
#[verifier::external_body]
pub(crate) fn pos_map_row_at(m: &IndexMap<StrPosEntry, u16>, i: usize) -> (r: Option<(&StrPosEntry, u16)>)
    ensures
        r is Some <==> i < pos_map_rows(*m).len(),
        r matches Some(p) ==> p.0@ == pos_map_rows(*m)[i as int].0 && p.1 == pos_map_rows(*m)[i as int].1,
{
    m.get_index(i).map(|(k, v)| (k, *v))
}

} // verus!
