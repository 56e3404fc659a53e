//! The views of the exec-level list types: the spec functions taking each
//! list, entry and value to its model, with the element-by-element lemmas
//! about them.

use vstd::prelude::*;

use crate::model::NvEntryView;
use crate::model::NvListView;
use crate::model::NvValueView;
use crate::nvlist::NvList;
use crate::nvlist::NvPair;
use crate::nvlist::NvValue;

verus! {

broadcast use vstd::std_specs::vec::group_vec_axioms;

/// The model of a sequence of strings.
pub(crate) open spec fn strings_view(s: Seq<String>) -> Seq<Seq<char>>
    decreases s,
{
    if s.len() == 0 {
        Seq::empty()
    } else {
        seq![s[0]@] + strings_view(s.drop_first())
    }
}

/// The model of a stored value.
pub(crate) open spec fn value_view(v: NvValue) -> NvValueView
    decreases v,
{
    match v {
        NvValue::Null => NvValueView::Null,
        NvValue::Bool(b) => NvValueView::Bool(b),
        NvValue::Number(n) => NvValueView::Number(n),
        NvValue::Str(s) => NvValueView::Str(s@),
        NvValue::List(l) => NvValueView::List(list_view(l)),
        NvValue::Descriptor(d) => NvValueView::Descriptor(d),
        NvValue::Binary(b) => NvValueView::Binary(b@),
        NvValue::BoolArray(a) => NvValueView::BoolArray(a@),
        NvValue::NumberArray(a) => NvValueView::NumberArray(a@),
        NvValue::StrArray(a) => NvValueView::StrArray(strings_view(a@)),
        NvValue::ListArray(a) => NvValueView::ListArray(lists_view(a@)),
        NvValue::DescriptorArray(a) => NvValueView::DescriptorArray(a@),
    }
}

/// The model of a sequence of nested lists.
pub(crate) open spec fn lists_view(s: Seq<NvList>) -> Seq<NvListView>
    decreases s,
{
    if s.len() == 0 {
        Seq::empty()
    } else {
        seq![list_view(s[0])] + lists_view(s.drop_first())
    }
}

/// The model of one entry.
pub(crate) open spec fn pair_view(p: NvPair) -> NvEntryView
    decreases p,
{
    NvEntryView { name: p.name@, value: value_view(p.value) }
}

/// The model of a sequence of entries.
pub(crate) open spec fn pairs_view(s: Seq<NvPair>) -> Seq<NvEntryView>
    decreases s,
{
    if s.len() == 0 {
        Seq::empty()
    } else {
        seq![pair_view(s[0])] + pairs_view(s.drop_first())
    }
}

/// The model of a whole list.
pub(crate) open spec fn list_view(l: NvList) -> NvListView
    decreases l,
{
    NvListView {
        valid: l.valid,
        flags: l.flags,
        error: l.error,
        entries: pairs_view(l.entries@),
    }
}

/// Length and contents of the model of an entry sequence, element by element.
proof fn lemma_pairs_view_props_rec(s: Seq<NvPair>)
    ensures
        pairs_view(s).len() == s.len(),
        forall|i: int| 0 <= i < s.len() ==> pairs_view(s)[i] == pair_view(s[i]),
    decreases s.len(),
{
    if s.len() > 0 {
        lemma_pairs_view_props_rec(s.drop_first());
    }
}

/// Length and contents of the model of an entry sequence, element by element.
pub(crate) broadcast proof fn lemma_pairs_view_props(s: Seq<NvPair>)
    ensures
        (#[trigger] pairs_view(s)).len() == s.len(),
        forall|i: int| 0 <= i < s.len() ==> pairs_view(s)[i] == pair_view(s[i]),
{
    lemma_pairs_view_props_rec(s);
}

/// Length and contents of the model of a string sequence, element by element.
proof fn lemma_strings_view_props_rec(s: Seq<String>)
    ensures
        strings_view(s).len() == s.len(),
        forall|i: int| 0 <= i < s.len() ==> strings_view(s)[i] == s[i]@,
    decreases s.len(),
{
    if s.len() > 0 {
        lemma_strings_view_props_rec(s.drop_first());
    }
}

/// Length and contents of the model of a string sequence, element by element.
pub(crate) broadcast proof fn lemma_strings_view_props(s: Seq<String>)
    ensures
        (#[trigger] strings_view(s)).len() == s.len(),
        forall|i: int| 0 <= i < s.len() ==> strings_view(s)[i] == s[i]@,
{
    lemma_strings_view_props_rec(s);
}

/// Length and contents of the model of a list sequence, element by element.
proof fn lemma_lists_view_props_rec(s: Seq<NvList>)
    ensures
        lists_view(s).len() == s.len(),
        forall|i: int| 0 <= i < s.len() ==> lists_view(s)[i] == list_view(s[i]),
    decreases s.len(),
{
    if s.len() > 0 {
        lemma_lists_view_props_rec(s.drop_first());
    }
}

/// Length and contents of the model of a list sequence, element by element.
pub(crate) broadcast proof fn lemma_lists_view_props(s: Seq<NvList>)
    ensures
        (#[trigger] lists_view(s)).len() == s.len(),
        forall|i: int| 0 <= i < s.len() ==> lists_view(s)[i] == list_view(s[i]),
{
    lemma_lists_view_props_rec(s);
}

impl View for NvList {
    type V = NvListView;

    closed spec fn view(&self) -> NvListView {
        list_view(*self)
    }
}

/// The view of a list is [`list_view`]; stated here once so that the other
/// modules of the crate can unfold it.
pub(crate) broadcast proof fn lemma_view_is_list_view(l: &NvList)
    ensures
        #[trigger] l@ == list_view(*l),
{
}

} // verus!
