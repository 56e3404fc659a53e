//! The mathematical model of a name/value list.
//!
//! Every exec-level list, entry and value has a view in terms of the ghost
//! datatypes here, and every public contract speaks of these views. The spec
//! functions in this module define name matching under the case policy, first
//! match lookup and removal, and the exact effect of an insertion, including
//! the sticky-error and duplicate-name rules.

use vstd::prelude::*;
use vstd::utf8::encode_utf8;

use crate::common::NvType;
use crate::common::ERROR_NAME_EXISTS;
use crate::common::ERROR_NAME_TOO_LONG;
use crate::common::NV_NAME_MAX;
use crate::nvlist::NvFlag;

verus! {

/// Model of one stored value: the payload of an entry.
pub enum NvValueView {
    /// Presence marker without payload.
    Null,
    /// A boolean.
    Bool(bool),
    /// A 64-bit unsigned number.
    Number(u64),
    /// A string, as its sequence of characters.
    Str(Seq<char>),
    /// A nested list.
    List(NvListView),
    /// An opaque descriptor handle.
    Descriptor(u64),
    /// A binary buffer.
    Binary(Seq<u8>),
    /// An array of booleans.
    BoolArray(Seq<bool>),
    /// An array of 64-bit unsigned numbers.
    NumberArray(Seq<u64>),
    /// An array of strings.
    StrArray(Seq<Seq<char>>),
    /// An array of nested lists.
    ListArray(Seq<NvListView>),
    /// An array of opaque descriptor handles.
    DescriptorArray(Seq<u64>),
}

/// Model of one entry: a name paired with a value.
pub struct NvEntryView {
    /// The entry's name, as its sequence of characters.
    pub name: Seq<char>,
    /// The entry's value.
    pub value: NvValueView,
}

/// Model of a whole list.
pub struct NvListView {
    /// Whether this is a really constructed list, as opposed to the invalid
    /// sentinel on which every mutation is a no-op.
    pub valid: bool,
    /// The flags fixed at construction.
    pub flags: NvFlag,
    /// The sticky error code; zero means no error.
    pub error: i32,
    /// The entries, in insertion order.
    pub entries: Seq<NvEntryView>,
}

impl NvValueView {
    /// The tag of this value.
    pub open spec fn tag(self) -> NvType {
        match self {
            NvValueView::Null => NvType::Null,
            NvValueView::Bool(_) => NvType::Bool,
            NvValueView::Number(_) => NvType::Number,
            NvValueView::Str(_) => NvType::String,
            NvValueView::List(_) => NvType::NvList,
            NvValueView::Descriptor(_) => NvType::Descriptor,
            NvValueView::Binary(_) => NvType::Binary,
            NvValueView::BoolArray(_) => NvType::BoolArray,
            NvValueView::NumberArray(_) => NvType::NumberArray,
            NvValueView::StrArray(_) => NvType::StringArray,
            NvValueView::ListArray(_) => NvType::NvListArray,
            NvValueView::DescriptorArray(_) => NvType::DescriptorArray,
        }
    }

    /// Well-formedness: every name in reach is within the length bound and
    /// every nested list in reach is a validly constructed one.
    pub open spec fn wf(self) -> bool
        decreases self,
    {
        match self {
            NvValueView::List(l) => l.valid && l.wf(),
            NvValueView::ListArray(ls) => forall|i: int|
                0 <= i < ls.len() ==> (#[trigger] ls[i]).valid && ls[i].wf(),
            _ => true,
        }
    }
}

impl NvEntryView {
    /// Well-formedness of one entry.
    pub open spec fn wf(self) -> bool
        decreases self,
    {
        name_byte_len(self.name) <= NV_NAME_MAX && self.value.wf()
    }
}

impl NvListView {
    /// Well-formedness of a list: bounded names and valid nested lists
    /// throughout, and no entries on the invalid sentinel.
    pub open spec fn wf(self) -> bool
        decreases self,
    {
        &&& forall|i: int| 0 <= i < self.entries.len() ==> (#[trigger] self.entries[i]).wf()
        &&& (!self.valid ==> self.entries.len() == 0)
    }

    /// The same list with a sticky error code recorded.
    pub open spec fn with_error(self, code: i32) -> NvListView {
        NvListView { error: code, ..self }
    }

    /// The error code an observer reads: the out-of-memory-equivalent code on
    /// the invalid sentinel, the sticky code otherwise.
    pub open spec fn observed_error(self) -> i32 {
        if self.valid {
            self.error
        } else {
            crate::common::ERROR_NO_MEMORY
        }
    }

    /// Whether lookups on this list fold character case.
    pub open spec fn folds_case(self) -> bool {
        ignores_case(self.flags)
    }

    /// Whether this list accepts several entries under one name.
    pub open spec fn dups_allowed(self) -> bool {
        allows_duplicates(self.flags)
    }

    /// Whether this list accepts mutation: a validly constructed list with no
    /// sticky error recorded.
    pub open spec fn mutable(self) -> bool {
        self.valid && self.error == 0
    }

    /// The model of a freshly constructed empty list.
    pub open spec fn empty(flags: NvFlag) -> NvListView {
        NvListView { valid: true, flags, error: 0, entries: Seq::empty() }
    }

    /// The model of the invalid sentinel.
    pub open spec fn sentinel() -> NvListView {
        NvListView { valid: false, flags: NvFlag::NoFlags, error: 0, entries: Seq::empty() }
    }
}

/// Whether the given flags fold character case on name comparisons.
pub open spec fn ignores_case(f: NvFlag) -> bool {
    f == NvFlag::IgnoreCase || f == NvFlag::All
}

/// Whether the given flags accept several entries under one name.
pub open spec fn allows_duplicates(f: NvFlag) -> bool {
    f == NvFlag::NoUnique || f == NvFlag::All
}

/// The length of a name in bytes of its UTF-8 encoding.
pub open spec fn name_byte_len(name: Seq<char>) -> nat {
    encode_utf8(name).len()
}

/// A character's comparison key under case folding: ASCII capital letters
/// compare equal to their lower-case counterparts, as the scalar value of the
/// latter; every other character compares as its own scalar value.
pub open spec fn fold_char(c: char) -> u32 {
    if 65 <= c as u32 && c as u32 <= 90 {
        (c as u32 + 32) as u32
    } else {
        c as u32
    }
}

/// A name's comparison key under case folding.
pub open spec fn fold_name(name: Seq<char>) -> Seq<u32> {
    name.map_values(|c: char| fold_char(c))
}

/// Whether two names match under the given case policy.
pub open spec fn name_matches(stored: Seq<char>, sought: Seq<char>, ci: bool) -> bool {
    if ci {
        fold_name(stored) == fold_name(sought)
    } else {
        stored == sought
    }
}

/// Whether an entry answers to the given name, and to the given tag when one
/// is asked for, under the given case policy.
pub open spec fn entry_matches(
    e: NvEntryView,
    name: Seq<char>,
    t: Option<NvType>,
    ci: bool,
) -> bool {
    name_matches(e.name, name, ci) && match t {
        Some(ty) => e.value.tag() == ty,
        None => true,
    }
}

/// The first entry answering to the name (and tag, when one is given), in
/// insertion order, if any.
pub open spec fn lookup(
    es: Seq<NvEntryView>,
    name: Seq<char>,
    t: Option<NvType>,
    ci: bool,
) -> Option<NvEntryView>
    decreases es.len(),
{
    if es.len() == 0 {
        None
    } else if entry_matches(es[0], name, t, ci) {
        Some(es[0])
    } else {
        lookup(es.drop_first(), name, t, ci)
    }
}

/// The entries with the first match removed; unchanged when nothing matches.
pub open spec fn remove_first(
    es: Seq<NvEntryView>,
    name: Seq<char>,
    t: Option<NvType>,
    ci: bool,
) -> Seq<NvEntryView>
    decreases es.len(),
{
    if es.len() == 0 {
        es
    } else if entry_matches(es[0], name, t, ci) {
        es.drop_first()
    } else {
        seq![es[0]] + remove_first(es.drop_first(), name, t, ci)
    }
}

/// The value a typed getter yields: the payload of the first entry answering
/// to the name with the given tag; nothing on the invalid sentinel.
pub open spec fn fetched(l: NvListView, name: Seq<char>, t: NvType) -> Option<NvValueView> {
    if !l.valid {
        None
    } else {
        match lookup(l.entries, name, Some(t), l.folds_case()) {
            Some(e) => Some(e.value),
            None => None,
        }
    }
}

/// The exact effect of inserting `name`/`value` into a list: a no-op on the
/// invalid sentinel and on a list with a sticky error; the name-too-long error
/// when the name exceeds `NV_NAME_MAX` bytes; the duplicate-name error when
/// duplicates are disallowed and the name is already present under the case
/// policy; otherwise the entry is appended, preserving insertion order.
pub open spec fn add_effect(l: NvListView, name: Seq<char>, value: NvValueView) -> NvListView {
    if !l.mutable() {
        l
    } else if name_byte_len(name) > NV_NAME_MAX {
        l.with_error(ERROR_NAME_TOO_LONG)
    } else if !l.dups_allowed() && lookup(l.entries, name, None, l.folds_case()) is Some {
        l.with_error(ERROR_NAME_EXISTS)
    } else {
        NvListView { entries: l.entries.push(NvEntryView { name, value }), ..l }
    }
}

/// The exact effect of removing the first entry answering to `name` (and `t`,
/// when given): a no-op on the invalid sentinel, on a list with a sticky
/// error, and when nothing matches.
pub open spec fn free_effect(l: NvListView, name: Seq<char>, t: Option<NvType>) -> NvListView {
    if !l.mutable() {
        l
    } else {
        NvListView { entries: remove_first(l.entries, name, t, l.folds_case()), ..l }
    }
}

/// The value stored by a nested-list insertion: a deep copy of the nested
/// list itself when it is validly constructed, and a fresh empty list sharing
/// the parent's flags in place of the invalid sentinel, so that children only
/// ever hold valid lists.
pub open spec fn nested_value(parent: NvListView, child: NvListView) -> NvValueView {
    NvValueView::List(
        if child.valid {
            child
        } else {
            NvListView::empty(parent.flags)
        },
    )
}

/// Lookup skips any prefix without a match.
pub proof fn lemma_lookup_from(
    es: Seq<NvEntryView>,
    name: Seq<char>,
    t: Option<NvType>,
    ci: bool,
    i: int,
)
    requires
        0 <= i <= es.len(),
        forall|j: int| 0 <= j < i ==> !entry_matches(#[trigger] es[j], name, t, ci),
    ensures
        lookup(es, name, t, ci) == lookup(es.skip(i), name, t, ci),
    decreases i,
{
    if i == 0 {
        assert(es.skip(0) =~= es);
    } else {
        let tail = es.drop_first();
        assert(!entry_matches(es[0], name, t, ci));
        assert(forall|j: int| 0 <= j < i - 1 ==> !entry_matches(#[trigger] tail[j], name, t, ci))
            by {
            assert(forall|j: int| 0 <= j < i - 1 ==> tail[j] == es[j + 1]);
        }
        lemma_lookup_from(tail, name, t, ci, i - 1);
        assert(tail.skip(i - 1) =~= es.skip(i));
    }
}

/// Lookup yields the entry at the first matching position.
pub proof fn lemma_lookup_at(
    es: Seq<NvEntryView>,
    name: Seq<char>,
    t: Option<NvType>,
    ci: bool,
    i: int,
)
    requires
        0 <= i < es.len(),
        forall|j: int| 0 <= j < i ==> !entry_matches(#[trigger] es[j], name, t, ci),
        entry_matches(es[i], name, t, ci),
    ensures
        lookup(es, name, t, ci) == Some(es[i]),
{
    lemma_lookup_from(es, name, t, ci, i);
    assert(es.skip(i)[0] == es[i]);
}

/// Lookup yields nothing when no entry matches.
pub proof fn lemma_lookup_none(es: Seq<NvEntryView>, name: Seq<char>, t: Option<NvType>, ci: bool)
    requires
        forall|j: int| 0 <= j < es.len() ==> !entry_matches(#[trigger] es[j], name, t, ci),
    ensures
        lookup(es, name, t, ci) is None,
{
    lemma_lookup_from(es, name, t, ci, es.len() as int);
    assert(es.skip(es.len() as int) =~= Seq::<NvEntryView>::empty());
}

/// Removal takes out exactly the entry at the first matching position.
pub proof fn lemma_remove_at(
    es: Seq<NvEntryView>,
    name: Seq<char>,
    t: Option<NvType>,
    ci: bool,
    i: int,
)
    requires
        0 <= i < es.len(),
        forall|j: int| 0 <= j < i ==> !entry_matches(#[trigger] es[j], name, t, ci),
        entry_matches(es[i], name, t, ci),
    ensures
        remove_first(es, name, t, ci) =~= es.remove(i),
    decreases i,
{
    if i == 0 {
        assert(remove_first(es, name, t, ci) == es.drop_first());
        assert(es.drop_first() =~= es.remove(0));
    } else {
        let tail = es.drop_first();
        assert(forall|j: int| 0 <= j < i - 1 ==> !entry_matches(#[trigger] tail[j], name, t, ci))
            by {
            assert(forall|j: int| 0 <= j < i - 1 ==> tail[j] == es[j + 1]);
        }
        assert(tail[i - 1] == es[i]);
        lemma_remove_at(tail, name, t, ci, i - 1);
        assert(seq![es[0]] + tail.remove(i - 1) =~= es.remove(i));
    }
}

/// Removal changes nothing when no entry matches.
pub proof fn lemma_remove_none(es: Seq<NvEntryView>, name: Seq<char>, t: Option<NvType>, ci: bool)
    requires
        forall|j: int| 0 <= j < es.len() ==> !entry_matches(#[trigger] es[j], name, t, ci),
    ensures
        remove_first(es, name, t, ci) =~= es,
    decreases es.len(),
{
    if es.len() > 0 {
        let tail = es.drop_first();
        assert(forall|j: int| 0 <= j < tail.len() ==> !entry_matches(
            #[trigger] tail[j],
            name,
            t,
            ci,
        )) by {
            assert(forall|j: int| 0 <= j < tail.len() ==> tail[j] == es[j + 1]);
        }
        lemma_remove_none(tail, name, t, ci);
        assert(seq![es[0]] + tail =~= es);
    }
}

/// A looked-up entry inherits well-formedness from the entries it came from.
pub proof fn lemma_lookup_wf(es: Seq<NvEntryView>, name: Seq<char>, t: Option<NvType>, ci: bool)
    requires
        forall|i: int| 0 <= i < es.len() ==> (#[trigger] es[i]).wf(),
    ensures
        lookup(es, name, t, ci) matches Some(e) ==> e.wf(),
    decreases es.len(),
{
    if es.len() > 0 && !entry_matches(es[0], name, t, ci) {
        let tail = es.drop_first();
        assert(forall|i: int| 0 <= i < tail.len() ==> (#[trigger] tail[i]).wf()) by {
            assert(forall|i: int| 0 <= i < tail.len() ==> tail[i] == es[i + 1]);
        }
        lemma_lookup_wf(tail, name, t, ci);
    }
}

/// Insertion preserves well-formedness when the inserted value is well
/// formed.
pub proof fn lemma_add_effect_wf(l: NvListView, name: Seq<char>, value: NvValueView)
    requires
        l.wf(),
        value.wf(),
    ensures
        add_effect(l, name, value).wf(),
{
    let r = add_effect(l, name, value);
    if l.mutable() && name_byte_len(name) <= NV_NAME_MAX && (l.dups_allowed() || lookup(
        l.entries,
        name,
        None,
        l.folds_case(),
    ) is None) {
        assert(forall|i: int| 0 <= i < r.entries.len() ==> (#[trigger] r.entries[i]).wf()) by {
            assert(forall|i: int| 0 <= i < l.entries.len() ==> r.entries[i] == l.entries[i]);
            assert(r.entries[l.entries.len() as int] == NvEntryView { name, value });
        }
    }
}

/// Removal preserves well-formedness.
pub proof fn lemma_free_effect_wf(l: NvListView, name: Seq<char>, t: Option<NvType>)
    requires
        l.wf(),
    ensures
        free_effect(l, name, t).wf(),
{
    if l.mutable() {
        lemma_remove_first_wf(l.entries, name, t, l.folds_case());
    }
}

/// Every entry left by a removal was an entry before it.
pub proof fn lemma_remove_first_wf(
    es: Seq<NvEntryView>,
    name: Seq<char>,
    t: Option<NvType>,
    ci: bool,
)
    requires
        forall|i: int| 0 <= i < es.len() ==> (#[trigger] es[i]).wf(),
    ensures
        forall|i: int|
            0 <= i < remove_first(es, name, t, ci).len() ==> (#[trigger] remove_first(
                es,
                name,
                t,
                ci,
            )[i]).wf(),
        remove_first(es, name, t, ci).len() <= es.len(),
    decreases es.len(),
{
    if es.len() > 0 {
        let tail = es.drop_first();
        assert(forall|i: int| 0 <= i < tail.len() ==> (#[trigger] tail[i]).wf()) by {
            assert(forall|i: int| 0 <= i < tail.len() ==> tail[i] == es[i + 1]);
        }
        lemma_remove_first_wf(tail, name, t, ci);
        if !entry_matches(es[0], name, t, ci) {
            let r = seq![es[0]] + remove_first(tail, name, t, ci);
            assert(forall|i: int| 0 < i < r.len() ==> r[i] == remove_first(tail, name, t, ci)[i
                - 1]);
            assert(r[0] == es[0]);
        }
    }
}


/// The views of the validly constructed lists among a sequence, in order;
/// the invalid sentinels are left out.
pub open spec fn valid_only(ls: Seq<NvListView>) -> Seq<NvListView>
    decreases ls.len(),
{
    if ls.len() == 0 {
        Seq::empty()
    } else if ls[0].valid {
        seq![ls[0]] + valid_only(ls.drop_first())
    } else {
        valid_only(ls.drop_first())
    }
}

/// Keeping only the valid lists commutes with appending one list.
pub proof fn lemma_valid_only_push(ls: Seq<NvListView>, l: NvListView)
    ensures
        valid_only(ls.push(l)) == (if l.valid {
            valid_only(ls).push(l)
        } else {
            valid_only(ls)
        }),
    decreases ls.len(),
{
    let pushed = ls.push(l);
    if ls.len() == 0 {
        assert(pushed[0] == l);
        assert(pushed.drop_first() =~= Seq::<NvListView>::empty());
        assert(valid_only(Seq::<NvListView>::empty()) == Seq::<NvListView>::empty());
        if l.valid {
            assert(valid_only(pushed) == seq![l] + Seq::<NvListView>::empty());
            assert(seq![l] + Seq::<NvListView>::empty() =~= valid_only(ls).push(l));
        } else {
            assert(valid_only(pushed) =~= valid_only(ls));
        }
    } else {
        assert(pushed[0] == ls[0]);
        assert(pushed.drop_first() =~= ls.drop_first().push(l));
        lemma_valid_only_push(ls.drop_first(), l);
        if ls[0].valid {
            if l.valid {
                assert(seq![ls[0]] + valid_only(ls.drop_first()).push(l) =~= (seq![ls[0]]
                    + valid_only(ls.drop_first())).push(l));
            }
        }
    }
}

/// Every list kept by `valid_only` is valid, and well formed when the lists
/// it was drawn from are.
pub proof fn lemma_valid_only_wf(ls: Seq<NvListView>)
    requires
        forall|i: int| 0 <= i < ls.len() ==> (#[trigger] ls[i]).wf(),
    ensures
        forall|k: int|
            0 <= k < valid_only(ls).len() ==> (#[trigger] valid_only(ls)[k]).valid && valid_only(
                ls,
            )[k].wf(),
    decreases ls.len(),
{
    if ls.len() > 0 {
        let tail = ls.drop_first();
        assert(forall|i: int| 0 <= i < tail.len() ==> (#[trigger] tail[i]).wf()) by {
            assert(forall|i: int| 0 <= i < tail.len() ==> tail[i] == ls[i + 1]);
        }
        lemma_valid_only_wf(tail);
        if ls[0].valid {
            let r = seq![ls[0]] + valid_only(tail);
            assert(forall|k: int| 0 < k < r.len() ==> r[k] == valid_only(tail)[k - 1]);
            assert(r[0] == ls[0]);
        }
    }
}


/// Lookup in entries extended by one entry at the end: an earlier match
/// still wins, and otherwise the new entry is found exactly when it
/// matches.
pub proof fn lemma_lookup_push(
    es: Seq<NvEntryView>,
    name: Seq<char>,
    t: Option<NvType>,
    ci: bool,
    e: NvEntryView,
)
    ensures
        lookup(es.push(e), name, t, ci) == (match lookup(es, name, t, ci) {
            Some(x) => Some(x),
            None => if entry_matches(e, name, t, ci) {
                Some(e)
            } else {
                None::<NvEntryView>
            },
        }),
    decreases es.len(),
{
    reveal_with_fuel(lookup, 3);
    let pushed = es.push(e);
    if es.len() == 0 {
        assert(pushed[0] == e);
        assert(pushed.drop_first() =~= Seq::<NvEntryView>::empty());
    } else {
        assert(pushed[0] == es[0]);
        assert(pushed.drop_first() =~= es.drop_first().push(e));
        lemma_lookup_push(es.drop_first(), name, t, ci, e);
    }
}

} // verus!
