//! A free-standing insertion trait mirroring [`crate::nvops::NvListOps`],
//! for callers that add values through the value itself rather than through
//! the list's generic entry point.

use vstd::prelude::*;

use crate::model::add_effect;
use crate::model::lemma_add_effect_wf;
use crate::model::nested_value;
use crate::model::NvListView;
use crate::model::NvValueView;
use crate::nvlist::NvList;

verus! {

/// Trait implemented for the types that can be added to an [`NvList`]
/// through the value itself.
///
/// Each implementation states, through [`NvListAdd::nv_value`], which tagged
/// value the insertion stores, so that every dispatching insertion carries
/// the same exact contract as the per-type insertions.
pub trait NvListAdd {
    /// The model of the value this insertion stores, given the model of the
    /// list inserted into.
    spec fn nv_value(&self, parent: NvListView) -> NvValueView;

    /// Adds the value to the list under `name`.
    fn nv_add(&self, nvlist: &mut NvList, name: &str)
        ensures
            final(nvlist)@ == add_effect(old(nvlist)@, name@, self.nv_value(old(nvlist)@)),
            old(nvlist)@.wf() && self.nv_value(old(nvlist)@).wf() ==> final(nvlist)@.wf(),
    ;
}

impl NvListAdd for bool {
    open spec fn nv_value(&self, parent: NvListView) -> NvValueView {
        NvValueView::Bool(*self)
    }

    /// Adds a boolean to the list.
    fn nv_add(&self, nvlist: &mut NvList, name: &str) {
        nvlist.add_bool(name, *self);
    }
}

impl NvListAdd for u64 {
    open spec fn nv_value(&self, parent: NvListView) -> NvValueView {
        NvValueView::Number(*self)
    }

    /// Adds a 64-bit unsigned number to the list.
    fn nv_add(&self, nvlist: &mut NvList, name: &str) {
        nvlist.add_number(name, *self);
    }
}

impl NvListAdd for str {
    open spec fn nv_value(&self, parent: NvListView) -> NvValueView {
        NvValueView::Str(self@)
    }

    /// Adds a string to the list.
    fn nv_add(&self, nvlist: &mut NvList, name: &str) {
        nvlist.add_string(name, self);
    }
}

impl NvListAdd for NvList {
    open spec fn nv_value(&self, parent: NvListView) -> NvValueView {
        nested_value(parent, self@)
    }

    /// Adds a nested list to the list.
    fn nv_add(&self, nvlist: &mut NvList, name: &str) {
        let ghost stored = nested_value(nvlist@, self@);
        proof {
            if nvlist@.wf() && stored.wf() {
                lemma_add_effect_wf(nvlist@, name@, stored);
            }
        }
        nvlist.add_nvlist(name, self);
    }
}

impl<T: NvListAdd> NvListAdd for Option<T> {
    open spec fn nv_value(&self, parent: NvListView) -> NvValueView {
        match self {
            Some(v) => v.nv_value(parent),
            None => NvValueView::Null,
        }
    }

    /// Adds the wrapped value when present, and a presence marker otherwise.
    fn nv_add(&self, nvlist: &mut NvList, name: &str) {
        match self {
            Some(v) => v.nv_add(nvlist, name),
            None => nvlist.add_null(name),
        }
    }
}

} // verus!
