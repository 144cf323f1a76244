//! Resolution of the references between lexicon entries.
use vstd::prelude::*;

use crate::dic::build::lexicon::entry::{same_entry, RawLexiconEntry};
use crate::dic::build::lexicon::refs::{
    opt_norm_view, pending_count, refs_view, resolve_target, resolved_ref, NormFormValue,
    NormFormView, WordRef, WordRefResolver, WordRefView,
};
use crate::dic::build::lexicon::{pending_refs, LexiconReader};
use crate::util::str_eq;

verus! {

/// Whether a normalized form after resolution agrees with the one before: a
/// headword reference becomes that headword; another reference becomes the
/// headword the resolver gives for the word it denotes (nothing when that is the
/// entry's own headword); any other value stays.
pub open spec fn norm_resolves<R: WordRefResolver>(
    r: &R,
    before: Option<NormFormView>,
    after: Option<NormFormView>,
    headword: Seq<char>,
) -> bool {
    match before {
        Some(NormFormView::Ref(WordRefView::Headword(h))) => after == Some(NormFormView::Value(h)),
        Some(NormFormView::Ref(u)) => match resolved_ref(r, u) {
            Some(WordRefView::Ref(w)) => match r.headword_answer(w) {
                Some(h) => after == if h == headword {
                    None
                } else {
                    Some(NormFormView::Value(h))
                },
                None => false,
            },
            _ => false,
        },
        _ => after == before,
    }
}

/// Whether every reference of a list resolves, to the references of `after`.
pub open spec fn refs_resolve<R: WordRefResolver>(r: &R, before: Seq<WordRef>, after: Seq<WordRef>) -> bool {
    &&& after.len() == before.len()
    &&& forall|j: int| 0 <= j < before.len() ==> resolved_ref(r, before[j]@) == Some(after[j]@)
}

/// Whether `after` is entry `before` with all its references resolved.
pub open spec fn line_resolved<R: WordRefResolver>(
    r: &R,
    before: RawLexiconEntry,
    after: RawLexiconEntry,
) -> bool {
    &&& after.left_id == before.left_id
    &&& after.right_id == before.right_id
    &&& after.cost == before.cost
    &&& after.surface == before.surface
    &&& after.headword == before.headword
    &&& after.pos == before.pos
    &&& after.reading == before.reading
    &&& after.splitting == before.splitting
    &&& after.synonym_groups == before.synonym_groups
    &&& after.user_data == before.user_data
    &&& resolved_ref(r, before.dic_form@) == Some(after.dic_form@)
    &&& refs_resolve(r, before.splits_a@, after.splits_a@)
    &&& refs_resolve(r, before.splits_b@, after.splits_b@)
    &&& refs_resolve(r, before.splits_c@, after.splits_c@)
    &&& refs_resolve(r, before.word_structure@, after.word_structure@)
    &&& norm_resolves(
        r,
        opt_norm_view(before.norm_form),
        opt_norm_view(after.norm_form),
        before.headword_view(),
    )
}

/// The number of references of an entry that resolution resolves.
pub open spec fn line_count(e: RawLexiconEntry) -> nat {
    (match e.norm_form {
        Some(NormFormValue::Ref(WordRef::Headword(_))) => 1,
        Some(NormFormValue::Ref(u)) => pending_count(u@),
        _ => 0,
    }) + pending_count(e.dic_form@) + pending_refs(e.splits_a@) + pending_refs(e.splits_b@)
        + pending_refs(e.splits_c@) + pending_refs(e.word_structure@)
}

/// The number of references that resolution resolves in the first `n` entries.
pub open spec fn total_count(entries: Seq<RawLexiconEntry>, n: nat) -> nat
    decreases n,
{
    if n == 0 || n > entries.len() {
        0
    } else {
        total_count(entries, (n - 1) as nat) + line_count(entries[n - 1])
    }
}

/// The first reference of a list, from index `i` on, that denotes no word.
pub open spec fn first_unresolvable<R: WordRefResolver>(r: &R, refs: Seq<WordRef>, i: nat) -> Option<
    WordRefView,
>
    decreases refs.len() - i,
{
    if i >= refs.len() {
        None
    } else if resolved_ref(r, refs[i as int]@) is None {
        Some(refs[i as int]@)
    } else {
        first_unresolvable(r, refs, i + 1)
    }
}

/// The first reference of an entry that denotes no word, in the order resolution
/// goes: the normalized form (unless it is a headword), the dictionary form, the A,
/// B and C splits and the word structure.
pub open spec fn line_failure<R: WordRefResolver>(r: &R, e: RawLexiconEntry) -> Option<WordRefView> {
    let norm_failure = match e.norm_form {
        Some(NormFormValue::Ref(u)) => if !(u is Headword) && resolved_ref(r, u@) is None {
            Some(u@)
        } else {
            None
        },
        _ => None,
    };
    if norm_failure is Some {
        norm_failure
    } else if resolved_ref(r, e.dic_form@) is None {
        Some(e.dic_form@)
    } else if first_unresolvable(r, e.splits_a@, 0) is Some {
        first_unresolvable(r, e.splits_a@, 0)
    } else if first_unresolvable(r, e.splits_b@, 0) is Some {
        first_unresolvable(r, e.splits_b@, 0)
    } else if first_unresolvable(r, e.splits_c@, 0) is Some {
        first_unresolvable(r, e.splits_c@, 0)
    } else {
        first_unresolvable(r, e.word_structure@, 0)
    }
}

/// Whether some entry has headword `h`.
pub open spec fn has_headword_in(entries: Seq<RawLexiconEntry>, h: Seq<char>) -> bool {
    exists|k: int| 0 <= k < entries.len() && (#[trigger] entries[k]).headword_view() == h
}

/// The headword of the entry that entry `i` asks to be added: its normalized form is
/// a headword that neither the resolver nor any entry knows.
pub open spec fn wanted_phantom<R: WordRefResolver>(
    r: &R,
    entries: Seq<RawLexiconEntry>,
    i: nat,
) -> Option<Seq<char>> {
    match entries[i as int].norm_form {
        Some(NormFormValue::Ref(WordRef::Headword(h))) => if resolve_target(
            r,
            WordRefView::Headword(h@),
        ) is None && !has_headword_in(entries, h@) {
            Some(h@)
        } else {
            None
        },
        _ => None,
    }
}

/// The entries added for the first `n` entries, each as the line it is made from and
/// its headword; a headword is added once.
pub open spec fn phantom_list<R: WordRefResolver>(
    r: &R,
    entries: Seq<RawLexiconEntry>,
    n: nat,
) -> Seq<(nat, Seq<char>)>
    decreases n,
{
    if n == 0 || n > entries.len() {
        Seq::empty()
    } else {
        let prev = phantom_list(r, entries, (n - 1) as nat);
        match wanted_phantom(r, entries, (n - 1) as nat) {
            Some(h) => if exists|k: int| 0 <= k < prev.len() && (#[trigger] prev[k]).1 == h {
                prev
            } else {
                prev.push(((n - 1) as nat, h))
            },
            None => prev,
        }
    }
}

/// Whether `p` is the entry made for headword `h` from `base`.
pub open spec fn is_phantom_of(p: RawLexiconEntry, base: RawLexiconEntry, h: Seq<char>) -> bool {
    &&& p.surface@.len() == 0
    &&& p.headword_view() == h
    &&& p.left_id == -1 && p.right_id == -1 && p.cost == i16::MAX
    &&& p.pos == base.pos
    &&& p.reading == base.reading
    &&& p.dic_form@ == base.dic_form@
    &&& p.norm_form is None
    &&& p.splitting == base.splitting
    &&& refs_view(p.splits_a@) == refs_view(base.splits_a@)
    &&& refs_view(p.splits_b@) == refs_view(base.splits_b@)
    &&& refs_view(p.splits_c@) == refs_view(base.splits_c@)
    &&& refs_view(p.word_structure@) == refs_view(base.word_structure@)
    &&& p.synonym_groups@ == base.synonym_groups@
    &&& p.user_data@ == base.user_data@
}

/// Whether the added entries are those that the first `n` entries ask for.
pub open spec fn phantoms_for<R: WordRefResolver>(
    r: &R,
    entries: Seq<RawLexiconEntry>,
    n: nat,
    phantoms: Seq<RawLexiconEntry>,
) -> bool {
    &&& phantoms.len() == phantom_list(r, entries, n).len()
    &&& forall|k: int|
        0 <= k < phantoms.len() ==> is_phantom_of(
            #[trigger] phantoms[k],
            entries[phantom_list(r, entries, n)[k].0 as int],
            phantom_list(r, entries, n)[k].1,
        )
}

/// A copy of a list of entries.
fn duplicate_entries(entries: &Vec<RawLexiconEntry>) -> (r: Vec<RawLexiconEntry>)
    ensures
        r@.len() == entries@.len(),
        forall|k: int| 0 <= k < entries@.len() ==> same_entry(#[trigger] r@[k], entries@[k]),
{
    let mut out: Vec<RawLexiconEntry> = Vec::new();
    let mut i: usize = 0;
    while i < entries.len()
        invariant
            0 <= i <= entries@.len(),
            out@.len() == i,
            forall|k: int| 0 <= k < i ==> same_entry(#[trigger] out@[k], entries@[k]),
        decreases entries@.len() - i,
    {
        out.push(entries[i].duplicate());
        i = i + 1;
    }
    out
}

impl LexiconReader {
    /// Resolves every reference of every entry with `resolver`, entry by entry, and
    /// adds an entry for each headword that a normalized form names and nothing
    /// else knows. Returns the number of references resolved, or the first reference
    /// that could not be resolved and its line.
    pub fn resolve_splits<R: WordRefResolver>(&mut self, resolver: &R) -> (r: Result<
        usize,
        (WordRef, usize),
    >)
        requires
            total_count(old(self).spec_entries(), old(self).spec_entries().len()) <= usize::MAX,
        ensures
            final(self).spec_pos_rows() == old(self).spec_pos_rows(),
            final(self).spec_start_pos() == old(self).spec_start_pos(),
            final(self).spec_unresolved() == (if r is Ok {
                0
            } else {
                old(self).spec_unresolved()
            }),
            final(self).spec_max_conn() == old(self).spec_max_conn(),
            final(self).spec_num_system() == old(self).spec_num_system(),
            r matches Ok(total) ==> {
                let before = old(self).spec_entries();
                let pl = phantom_list(resolver, before, before.len());
                &&& final(self).spec_entries().len() == before.len() + pl.len()
                &&& forall|i: int|
                    0 <= i < before.len() ==> line_resolved(
                        resolver,
                        before[i],
                        #[trigger] final(self).spec_entries()[i],
                    )
                &&& phantoms_for(
                    resolver,
                    before,
                    before.len(),
                    final(self).spec_entries().skip(before.len() as int),
                )
                &&& total == total_count(before, before.len())
                &&& forall|i: int| 0 <= i < before.len() ==> line_failure(resolver, #[trigger] before[i]) is None
            },
            r matches Err((u, line)) ==> {
                let before = old(self).spec_entries();
                &&& line < before.len()
                &&& final(self).spec_entries().len() == before.len()
                &&& forall|i: int|
                    0 <= i < before.len() ==> same_entry(#[trigger] final(self).spec_entries()[i], before[i])
                &&& forall|i: int| 0 <= i < line ==> line_failure(resolver, #[trigger] before[i]) is None
                &&& (line_failure(resolver, before[line as int]) == Some(u@) || (
                before[line as int].norm_form matches Some(NormFormValue::Ref(v)) && !(v is Headword)
                    && resolved_ref(resolver, v@) == Some(u@)))
            },
    {
        let ghost orig = self.entries@;
        let saved = duplicate_entries(&self.entries);
        let mut total: usize = 0;
        let mut phantoms: Vec<RawLexiconEntry> = Vec::new();
        let mut line: usize = 0;
        while line < self.entries.len()
            invariant
                orig == old(self).spec_entries(),
                total_count(orig, orig.len()) <= usize::MAX,
                0 <= line <= orig.len(),
                self.entries@.len() == orig.len(),
                forall|k: int| line <= k < orig.len() ==> self.entries@[k] == orig[k],
                forall|k: int| 0 <= k < line ==> line_resolved(resolver, orig[k], #[trigger] self.entries@[k]),
                forall|k: int| 0 <= k < line ==> line_failure(resolver, #[trigger] orig[k]) is None,
                phantoms_for(resolver, orig, line as nat, phantoms@),
                total == total_count(orig, line as nat),
                self.pos == old(self).pos,
                self.start_pos == old(self).start_pos,
                self.unresolved == old(self).unresolved,
                self.max_left == old(self).max_left,
                self.max_right == old(self).max_right,
                self.num_system == old(self).num_system,
                saved@.len() == orig.len(),
                forall|k: int| 0 <= k < orig.len() ==> same_entry(#[trigger] saved@[k], orig[k]),
            decreases orig.len() - line,
        {
            proof {
                lemma_total_count_monotone(orig, (line + 1) as nat, orig.len());
            }
            match self.resolve_line(line, resolver, &mut phantoms, Ghost(orig)) {
                Ok(n) => {
                    total = total + n;
                },
                Err(u) => {
                    self.entries = saved;
                    return Err((u, line));
                },
            }
            line = line + 1;
        }
        let ghost resolved = self.entries@;
        let ghost added = phantoms@;
        self.entries.append(&mut phantoms);
        self.unresolved = 0;
        proof {
            assert(self.entries@.skip(orig.len() as int) =~= added);
            assert forall|i: int| 0 <= i < orig.len() implies line_resolved(
                resolver,
                orig[i],
                #[trigger] self.spec_entries()[i],
            ) by {
                assert(self.entries@[i] == resolved[i]);
            }
        }
        Ok(total)
    }
}

impl LexiconReader {
    /// Resolves the references of entry `line`, adding to `phantoms` the entry its
    /// normalized form asks for, and returns how many references it resolved.
    fn resolve_line<R: WordRefResolver>(
        &mut self,
        line: usize,
        resolver: &R,
        phantoms: &mut Vec<RawLexiconEntry>,
        Ghost(orig): Ghost<Seq<RawLexiconEntry>>,
    ) -> (r: Result<usize, WordRef>)
        requires
            line < orig.len(),
            old(self).entries@.len() == orig.len(),
            old(self).entries@[line as int] == orig[line as int],
            forall|k: int|
                0 <= k < orig.len() ==> (#[trigger] old(self).entries@[k]).headword_view()
                    == orig[k].headword_view(),
            phantoms_for(resolver, orig, line as nat, old(phantoms)@),
            line_count(orig[line as int]) <= usize::MAX,
        ensures
            final(self).entries@.len() == orig.len(),
            forall|k: int|
                0 <= k < orig.len() && k != line ==> final(self).entries@[k] == old(
                    self,
                ).entries@[k],
            final(self).pos == old(self).pos,
            final(self).start_pos == old(self).start_pos,
            final(self).unresolved == old(self).unresolved,
            final(self).max_left == old(self).max_left,
            final(self).max_right == old(self).max_right,
            final(self).num_system == old(self).num_system,
            r matches Ok(n) ==> line_resolved(resolver, orig[line as int], final(self).entries@[line as int])
                && n == line_count(orig[line as int]) && line_failure(resolver, orig[line as int])
                is None && phantoms_for(resolver, orig, (line + 1) as nat, final(phantoms)@),
            r matches Err(u) ==> line_failure(resolver, orig[line as int]) == Some(u@) || (
            orig[line as int].norm_form matches Some(NormFormValue::Ref(v)) && !(v is Headword)
                && resolved_ref(resolver, v@) == Some(u@)),
    {
        let ghost e0 = orig[line as int];
        let current = self.entries[line].norm_form.take();
        let mut count: usize = 0;
        match current {
            Some(NormFormValue::Ref(norm_ref)) => {
                let mut norm_ref = norm_ref;
                if let WordRef::Headword(headword) = &norm_ref {
                    let ghost h = headword@;
                    let ghost pl = phantom_list(resolver, orig, line as nat);
                    proof {
                        assert forall|k: int| 0 <= k < orig.len() implies (
                        #[trigger] self.entries@[k]).headword_view() == orig[k].headword_view() by {
                            assert(old(self).entries@[k].headword_view() == orig[k].headword_view());
                        }
                    }
                    let resolved_none = resolver.resolve(&norm_ref).is_none();
                    let known_here = self.has_headword(headword.as_str());
                    let known_phantom = Self::has_phantom(phantoms, headword.as_str());
                    proof {
                        if known_here {
                            let k = choose|k: int|
                                0 <= k < self.entries@.len() && (
                                #[trigger] self.entries@[k]).headword_view() == h;
                            assert(orig[k].headword_view() == h);
                            assert(has_headword_in(orig, h));
                        }
                        if has_headword_in(orig, h) {
                            let k = choose|k: int|
                                0 <= k < orig.len() && (#[trigger] orig[k]).headword_view() == h;
                            assert(self.entries@[k].headword_view() == h);
                        }
                        assert(known_here == has_headword_in(orig, h));
                        if known_phantom {
                            let k = choose|k: int|
                                0 <= k < phantoms@.len() && (
                                #[trigger] phantoms@[k]).headword_view() == h;
                            assert(is_phantom_of(phantoms@[k], orig[pl[k].0 as int], pl[k].1));
                            assert(pl[k].1 == h);
                        }
                        if exists|k: int| 0 <= k < pl.len() && (#[trigger] pl[k]).1 == h {
                            let k = choose|k: int| 0 <= k < pl.len() && (#[trigger] pl[k]).1 == h;
                            assert(is_phantom_of(phantoms@[k], orig[pl[k].0 as int], pl[k].1));
                        }
                        assert(known_phantom == exists|k: int|
                            0 <= k < pl.len() && (#[trigger] pl[k]).1 == h);
                        assert(wanted_phantom(resolver, orig, line as nat) == if resolved_none
                            && !known_here {
                            Some(h)
                        } else {
                            None
                        });
                    }
                    let unknown = resolved_none && !known_here && !known_phantom;
                    if unknown {
                        let phantom = RawLexiconEntry::make_phantom(
                            &self.entries[line],
                            headword.clone(),
                        );
                        proof {
                            assert(is_phantom_of(phantom, orig[line as int], h));
                        }
                        phantoms.push(phantom);
                        proof {
                            let pl1 = phantom_list(resolver, orig, (line + 1) as nat);
                            assert(pl1 == pl.push((line as nat, h)));
                            assert forall|k: int| 0 <= k < pl1.len() implies is_phantom_of(
                                #[trigger] phantoms@[k],
                                orig[pl1[k].0 as int],
                                pl1[k].1,
                            ) by {
                                if k < pl.len() {
                                    assert(pl1[k] == pl[k]);
                                    assert(phantoms@[k] == old(phantoms)@[k]);
                                    assert(is_phantom_of(old(phantoms)@[k], orig[pl[k].0 as int], pl[k].1));
                                }
                            }
                        }
                    } else {
                        proof {
                            assert(phantom_list(resolver, orig, (line + 1) as nat) == pl);
                            lemma_phantoms_for_same(resolver, orig, line as nat, (line + 1) as nat, phantoms@);
                        }
                    }
                    self.entries[line].norm_form = Some(NormFormValue::Value(headword.clone()));
                    count = 1;
                } else {
                    proof {
                        assert(wanted_phantom(resolver, orig, line as nat) is None);
                        assert(phantom_list(resolver, orig, (line + 1) as nat) == phantom_list(
                            resolver,
                            orig,
                            line as nat,
                        ));
                    }
                    match Self::resolve_split(&mut norm_ref, resolver) {
                        Some(val) => {
                            count = val;
                            let wid = match &norm_ref {
                                WordRef::Ref(w) => *w,
                                _ => {
                                    return Err(norm_ref);
                                },
                            };
                            match resolver.resolve_headword(wid) {
                                Some(h) => {
                                    let same = str_eq(h.as_str(), self.entries[line].headword());
                                    self.entries[line].norm_form = if same {
                                        None
                                    } else {
                                        Some(NormFormValue::Value(h))
                                    };
                                },
                                None => {
                                    return Err(norm_ref);
                                },
                            }
                        },
                        None => {
                            return Err(norm_ref);
                        },
                    }
                }
            },
            other => {
                proof {
                    assert(wanted_phantom(resolver, orig, line as nat) is None);
                    assert(phantom_list(resolver, orig, (line + 1) as nat) == phantom_list(
                        resolver,
                        orig,
                        line as nat,
                    ));
                }
                self.entries[line].norm_form = other;
            },
        }
        match Self::resolve_split(&mut self.entries[line].dic_form, resolver) {
            Some(v) => {
                count = count + v;
            },
            None => {
                return Err(self.entries[line].dic_form.duplicate());
            },
        }
        match Self::resolve_list(&mut self.entries[line].splits_a, resolver) {
            Ok(v) => {
                count = count + v;
            },
            Err(u) => {
                return Err(u);
            },
        }
        match Self::resolve_list(&mut self.entries[line].splits_b, resolver) {
            Ok(v) => {
                count = count + v;
            },
            Err(u) => {
                return Err(u);
            },
        }
        match Self::resolve_list(&mut self.entries[line].splits_c, resolver) {
            Ok(v) => {
                count = count + v;
            },
            Err(u) => {
                return Err(u);
            },
        }
        match Self::resolve_list(&mut self.entries[line].word_structure, resolver) {
            Ok(v) => {
                count = count + v;
            },
            Err(u) => {
                return Err(u);
            },
        }
        proof {
            let e1 = self.entries@[line as int];
            assert(e1.left_id == e0.left_id);
            assert(e1.surface == e0.surface);
            assert(resolved_ref(resolver, e0.dic_form@) == Some(e1.dic_form@));
            assert(refs_resolve(resolver, e0.splits_a@, e1.splits_a@));
            assert(norm_resolves(resolver, opt_norm_view(e0.norm_form), opt_norm_view(e1.norm_form), e0.headword_view()));
            assert(line_resolved(resolver, e0, e1));
            assert(count == line_count(e0));
            assert(line_failure(resolver, e0) is None);
            assert(phantoms_for(resolver, orig, (line + 1) as nat, phantoms@));
        }
        Ok(count)
    }

    /// Whether some entry has headword `h`.
    fn has_headword(&self, h: &str) -> (r: bool)
        ensures
            r == has_headword_in(self.entries@, h@),
    {
        let mut i: usize = 0;
        while i < self.entries.len()
            invariant
                0 <= i <= self.entries@.len(),
                forall|k: int| 0 <= k < i ==> (#[trigger] self.entries@[k]).headword_view() != h@,
            decreases self.entries@.len() - i,
        {
            if str_eq(self.entries[i].headword(), h) {
                return true;
            }
            i = i + 1;
        }
        false
    }

    /// Whether an added entry has headword `h`.
    fn has_phantom(phantoms: &Vec<RawLexiconEntry>, h: &str) -> (r: bool)
        ensures
            r == exists|k: int| 0 <= k < phantoms@.len() && (#[trigger] phantoms@[k]).headword_view() == h@,
    {
        let mut i: usize = 0;
        while i < phantoms.len()
            invariant
                0 <= i <= phantoms@.len(),
                forall|k: int| 0 <= k < i ==> (#[trigger] phantoms@[k]).headword_view() != h@,
            decreases phantoms@.len() - i,
        {
            if str_eq(phantoms[i].headword(), h) {
                return true;
            }
            i = i + 1;
        }
        false
    }

    /// Resolves one reference in place; a resolved or self reference counts 0, any
    /// other 1 once it denotes a word.
    fn resolve_split<R: WordRefResolver>(unit: &mut WordRef, resolver: &R) -> (r: Option<usize>)
        ensures
            match resolved_ref(resolver, old(unit)@) {
                Some(v) => r == Some(pending_count(old(unit)@) as usize) && final(unit)@ == v,
                None => r is None && final(unit)@ == old(unit)@,
            },
    {
        let done = match &*unit {
            WordRef::Ref(_) => true,
            WordRef::SelfRef => true,
            _ => false,
        };
        if done {
            return Some(0);
        }
        match resolver.resolve(&*unit) {
            Some(wid) => {
                *unit = WordRef::Ref(wid);
                Some(1)
            },
            None => None,
        }
    }

    /// Resolves a list of references in place, or gives the first that denotes no word.
    fn resolve_list<R: WordRefResolver>(list: &mut Vec<WordRef>, resolver: &R) -> (r: Result<
        usize,
        WordRef,
    >)
        ensures
            r matches Ok(n) ==> refs_resolve(resolver, old(list)@, final(list)@) && n
                == pending_refs(old(list)@) && first_unresolvable(resolver, old(list)@, 0) is None,
            r matches Err(u) ==> first_unresolvable(resolver, old(list)@, 0) == Some(u@),
    {
        let ghost before = list@;
        let mut n: usize = 0;
        let mut i: usize = 0;
        while i < list.len()
            invariant
                before == old(list)@,
                0 <= i <= list@.len(),
                list@.len() == before.len(),
                forall|j: int| 0 <= j < i ==> resolved_ref(resolver, before[j]@) == Some((#[trigger] list@[j])@),
                forall|j: int| i <= j < before.len() ==> #[trigger] list@[j] == before[j],
                n == pending_refs(before.take(i as int)),
                n <= i,
                first_unresolvable(resolver, before, 0) == first_unresolvable(resolver, before, i as nat),
            decreases before.len() - i,
        {
            proof {
                assert(before.take(i + 1).drop_last() =~= before.take(i as int));
            }
            let pending = match &list[i] {
                WordRef::Ref(_) => false,
                WordRef::SelfRef => false,
                _ => true,
            };
            if pending {
                match resolver.resolve(&list[i]) {
                    Some(wid) => {
                        list[i] = WordRef::Ref(wid);
                    },
                    None => {
                        assert(list@[i as int] == before[i as int]);
                        assert(resolved_ref(resolver, before[i as int]@) is None);
                        assert(first_unresolvable(resolver, before, i as nat) == Some(
                            before[i as int]@,
                        ));
                        let u = list[i].duplicate();
                        assert(u@ == before[i as int]@);
                        assert(first_unresolvable(resolver, before, 0) == Some(u@));
                        assert(old(list)@ == before);
                        return Err(u);
                    },
                }
                n = n + 1;
            }
            i = i + 1;
        }
        proof {
            assert(before.take(i as int) =~= before);
        }
        Ok(n)
    }
}

/// A list whose references all resolved has none left waiting.
proof fn lemma_resolved_list_not_pending<R: WordRefResolver>(r: &R, before: Seq<WordRef>, after: Seq<WordRef>)
    requires
        refs_resolve(r, before, after),
    ensures
        pending_refs(after) == 0,
    decreases after.len(),
{
    if after.len() > 0 {
        let n = (after.len() - 1) as int;
        assert(resolved_ref(r, before[n]@) == Some(after[n]@));
        lemma_resolved_list_not_pending(r, before.drop_last(), after.drop_last());
    }
}

/// After a line is resolved, none of its references waits for resolution and its
/// normalized form is no longer a reference.
pub proof fn resolution_leaves_nothing_pending<R: WordRefResolver>(
    r: &R,
    before: RawLexiconEntry,
    after: RawLexiconEntry,
)
    requires
        line_resolved(r, before, after),
    ensures
        crate::dic::build::lexicon::entry_pending(after) == 0,
        !(after.norm_form matches Some(NormFormValue::Ref(_))),
{
    lemma_resolved_list_not_pending(r, before.splits_a@, after.splits_a@);
    lemma_resolved_list_not_pending(r, before.splits_b@, after.splits_b@);
    lemma_resolved_list_not_pending(r, before.splits_c@, after.splits_c@);
    lemma_resolved_list_not_pending(r, before.word_structure@, after.word_structure@);
}

proof fn lemma_phantoms_for_same<R: WordRefResolver>(
    r: &R,
    entries: Seq<RawLexiconEntry>,
    n: nat,
    m: nat,
    phantoms: Seq<RawLexiconEntry>,
)
    requires
        phantoms_for(r, entries, n, phantoms),
        phantom_list(r, entries, n) == phantom_list(r, entries, m),
    ensures
        phantoms_for(r, entries, m, phantoms),
{
}

proof fn lemma_total_count_monotone(entries: Seq<RawLexiconEntry>, i: nat, j: nat)
    requires
        i <= j <= entries.len(),
    ensures
        total_count(entries, i) <= total_count(entries, j),
    decreases j - i,
{
    if i < j {
        lemma_total_count_monotone(entries, i, (j - 1) as nat);
    }
}

} // verus!
