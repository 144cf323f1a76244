//! References from one lexicon entry to another, and their resolution to word ids.
use vstd::prelude::*;

use crate::dic::word_id::{word_ref_view_injective, WordRef as DicWordRef};

verus! {

/// A reference to a word, as written in a lexicon source, before or after resolution.
#[derive(Clone, PartialEq, Eq, Debug)]
pub enum WordRef {
    /// A resolved reference.
    Ref(DicWordRef),
    /// An explicit reference to the entry itself (used when the dictionary form is omitted).
    SelfRef,
    /// A reference by line number; the flag of the reference tells system from user lines.
    LineRef(DicWordRef),
    /// A reference by headword alone.
    Headword(String),
    /// A reference by headword, part of speech and reading.
    Inline { headword: String, pos: u16, reading: Option<String> },
}

/// The mathematical value of a [`WordRef`].
pub enum WordRefView {
    Ref(DicWordRef),
    SelfRef,
    LineRef(DicWordRef),
    Headword(Seq<char>),
    Inline(Seq<char>, u16, Option<Seq<char>>),
}

/// The chars of an optional string.
pub open spec fn opt_string_view(s: Option<String>) -> Option<Seq<char>> {
    match s {
        Some(v) => Some(v@),
        None => None,
    }
}

/// The chars of an optional string slice.
pub open spec fn opt_str_view(s: Option<&str>) -> Option<Seq<char>> {
    match s {
        Some(v) => Some(v@),
        None => None,
    }
}

impl WordRef {
    pub open spec fn view(&self) -> WordRefView {
        match self {
            WordRef::Ref(w) => WordRefView::Ref(*w),
            WordRef::SelfRef => WordRefView::SelfRef,
            WordRef::LineRef(w) => WordRefView::LineRef(*w),
            WordRef::Headword(h) => WordRefView::Headword(h@),
            WordRef::Inline { headword, pos, reading } => WordRefView::Inline(
                headword@,
                *pos,
                opt_string_view(*reading),
            ),
        }
    }

    /// A copy of the reference.
    pub fn duplicate(&self) -> (r: WordRef)
        ensures
            r == *self,
            r@ == self@,
    {
        match self {
            WordRef::Ref(w) => WordRef::Ref(*w),
            WordRef::SelfRef => WordRef::SelfRef,
            WordRef::LineRef(w) => WordRef::LineRef(*w),
            WordRef::Headword(h) => WordRef::Headword(h.clone()),
            WordRef::Inline { headword, pos, reading } => WordRef::Inline {
                headword: headword.clone(),
                pos: *pos,
                reading: match reading {
                    Some(r) => Some(r.clone()),
                    None => None,
                },
            },
        }
    }

    /// Whether two references are the same.
    pub fn same_as(&self, other: &WordRef) -> (r: bool)
        ensures
            r == (self@ == other@),
    {
        match self {
            WordRef::Ref(a) => match other {
                WordRef::Ref(b) => {
                    proof {
                        word_ref_view_injective(*a, *b);
                    }
                    a.as_raw() == b.as_raw()
                },
                _ => false,
            },
            WordRef::SelfRef => match other {
                WordRef::SelfRef => true,
                _ => false,
            },
            WordRef::LineRef(a) => match other {
                WordRef::LineRef(b) => {
                    proof {
                        word_ref_view_injective(*a, *b);
                    }
                    a.as_raw() == b.as_raw()
                },
                _ => false,
            },
            WordRef::Headword(a) => match other {
                WordRef::Headword(b) => *a == *b,
                _ => false,
            },
            WordRef::Inline { headword: h1, pos: p1, reading: r1 } => match other {
                WordRef::Inline { headword: h2, pos: p2, reading: r2 } => {
                    let same_reading = match r1 {
                        Some(a) => match r2 {
                            Some(b) => *a == *b,
                            None => false,
                        },
                        None => r2.is_none(),
                    };
                    *h1 == *h2 && *p1 == *p2 && same_reading
                },
                _ => false,
            },
        }
    }
}

/// The views of a sequence of references.
pub open spec fn refs_view(refs: Seq<WordRef>) -> Seq<WordRefView> {
    refs.map_values(|r: WordRef| r@)
}

/// Whether two lists of references are the same.
pub fn same_refs(a: &[WordRef], b: &[WordRef]) -> (r: bool)
    ensures
        r == (refs_view(a@) == refs_view(b@)),
{
    if a.len() != b.len() {
        proof {
            assert(refs_view(a@).len() != refs_view(b@).len());
        }
        return false;
    }
    let mut i: usize = 0;
    while i < a.len()
        invariant
            a@.len() == b@.len(),
            0 <= i <= a@.len(),
            forall|j: int| 0 <= j < i ==> a@[j]@ == b@[j]@,
        decreases a@.len() - i,
    {
        if !a[i].same_as(&b[i]) {
            proof {
                assert(refs_view(a@)[i as int] != refs_view(b@)[i as int]);
            }
            return false;
        }
        i = i + 1;
    }
    proof {
        assert(refs_view(a@) =~= refs_view(b@));
    }
    true
}

/// A copy of a list of references.
pub fn duplicate_refs(refs: &Vec<WordRef>) -> (r: Vec<WordRef>)
    ensures
        r@ == refs@,
        refs_view(r@) == refs_view(refs@),
{
    let mut out: Vec<WordRef> = Vec::new();
    let mut i: usize = 0;
    while i < refs.len()
        invariant
            0 <= i <= refs@.len(),
            out@.len() == i,
            forall|j: int| 0 <= j < i ==> out@[j] == refs@[j],
        decreases refs@.len() - i,
    {
        out.push(refs[i].duplicate());
        i = i + 1;
    }
    proof {
        assert(out@ =~= refs@);
    }
    out
}

/// The normalized form of an entry: a plain string, or a reference still to resolve.
#[derive(Clone, PartialEq, Eq, Debug)]
pub enum NormFormValue {
    Value(String),
    Ref(WordRef),
}

/// The word that a reference denotes for a resolver: itself when resolved, nothing
/// for a self reference, and otherwise what the matching method answers.
pub open spec fn resolve_target<R: WordRefResolver + ?Sized>(r: &R, unit: WordRefView) -> Option<DicWordRef> {
    match unit {
        WordRefView::Ref(w) => Some(w),
        WordRefView::SelfRef => None,
        WordRefView::LineRef(l) => r.line_ref_target(l),
        WordRefView::Headword(h) => r.headword_target(h),
        WordRefView::Inline(h, p, rd) => r.inline_target(h, p, rd),
    }
}

/// The mathematical value of a [`NormFormValue`].
pub enum NormFormView {
    Value(Seq<char>),
    Ref(WordRefView),
}

impl NormFormValue {
    pub open spec fn view(&self) -> NormFormView {
        match self {
            NormFormValue::Value(s) => NormFormView::Value(s@),
            NormFormValue::Ref(r) => NormFormView::Ref(r@),
        }
    }
}

/// The view of an optional normalized form.
pub open spec fn opt_norm_view(n: Option<NormFormValue>) -> Option<NormFormView> {
    match n {
        Some(v) => Some(v@),
        None => None,
    }
}

/// A reference once resolution succeeded: a resolved or self reference stays as it
/// is, any other becomes the word it denotes; `None` when it denotes no word.
pub open spec fn resolved_ref<R: WordRefResolver>(r: &R, unit: WordRefView) -> Option<WordRefView> {
    match unit {
        WordRefView::Ref(_) => Some(unit),
        WordRefView::SelfRef => Some(unit),
        _ => match resolve_target(r, unit) {
            Some(w) => Some(WordRefView::Ref(w)),
            None => None,
        },
    }
}

/// Whether a reference counts as one still to resolve.
pub open spec fn pending_count(unit: WordRefView) -> nat {
    match unit {
        WordRefView::Ref(_) => 0,
        WordRefView::SelfRef => 0,
        _ => 1,
    }
}

/// Resolves references by line, by headword or inline to word references.
///
/// The spec functions say what each method answers; their default bodies answer
/// nothing, and an implementation overrides those that its methods answer.
pub trait WordRefResolver {
    /// The word that a line reference denotes.
    open spec fn line_ref_target(&self, line_ref: DicWordRef) -> Option<DicWordRef> {
        None
    }

    /// The word that a headword denotes.
    open spec fn headword_target(&self, headword: Seq<char>) -> Option<DicWordRef> {
        None
    }

    /// The word that a headword, part of speech and reading denote.
    open spec fn inline_target(
        &self,
        headword: Seq<char>,
        pos: u16,
        reading: Option<Seq<char>>,
    ) -> Option<DicWordRef> {
        None
    }

    /// Whether `headword` is a headword of the word that the resolver may answer.
    open spec fn has_headword(&self, wref: DicWordRef, headword: Seq<char>) -> bool {
        false
    }

    /// The headword that [`Self::resolve_headword`] gives for a word, if any.
    open spec fn headword_answer(&self, wref: DicWordRef) -> Option<Seq<char>> {
        None
    }

    fn resolve(&self, unit: &WordRef) -> (r: Option<DicWordRef>)
        ensures
            r == match unit@ {
                WordRefView::Ref(w) => Some(w),
                WordRefView::SelfRef => None,
                WordRefView::LineRef(l) => self.line_ref_target(l),
                WordRefView::Headword(h) => self.headword_target(h),
                WordRefView::Inline(h, p, rd) => self.inline_target(h, p, rd),
            },
    {
        match unit {
            WordRef::Ref(wid) => Some(*wid),
            WordRef::SelfRef => None,
            WordRef::LineRef(line_ref) => self.resolve_by_line_ref(*line_ref),
            WordRef::Headword(headword) => self.resolve_by_headword(headword.as_str()),
            WordRef::Inline { headword, pos, reading } => match reading {
                Some(rd) => self.resolve_inline(headword.as_str(), *pos, Some(rd.as_str())),
                None => self.resolve_inline(headword.as_str(), *pos, None),
            },
        }
    }

    fn resolve_by_line_ref(&self, line_ref: DicWordRef) -> (r: Option<DicWordRef>)
        ensures
            r == self.line_ref_target(line_ref),
    ;

    fn resolve_by_headword(&self, headword: &str) -> (r: Option<DicWordRef>)
        ensures
            r == self.headword_target(headword@),
    ;

    fn resolve_inline(&self, headword: &str, pos: u16, reading: Option<&str>) -> (r: Option<
        DicWordRef,
    >)
        ensures
            r == self.inline_target(headword@, pos, opt_str_view(reading)),
    ;

    /// The headword of a word, where the resolver knows it: what
    /// [`Self::headword_answer`] says. A resolver that knows no headword answers `None`
    /// (the default answer).
    fn resolve_headword(&self, wref: DicWordRef) -> (r: Option<String>)
        ensures
            opt_string_view(r) == self.headword_answer(wref),
            r matches Some(h) ==> self.has_headword(wref, h@),
    ;
}

} // verus!
