//! The library's laws: properties that hold across several operations,
//! stated over the same spec functions the operations' contracts use.

use vstd::prelude::*;

use crate::codec::dec_list;
use crate::codec::enc_list;
use crate::codec::list_sizes_ok;
use crate::codec::scrub_entries;
use crate::codec::scrub_entry;
use crate::codec::scrub_list;
use crate::codec::scrub_lists;
use crate::codec::scrub_value;
use crate::codec::Decoded;
use crate::common::NvType;
use crate::common::ERROR_NAME_EXISTS;
use crate::common::ERROR_NO_MEMORY;
use crate::common::NV_NAME_MAX;
use crate::model::add_effect;
use crate::model::entry_matches;
use crate::model::fetched;
use crate::model::fold_name;
use crate::model::free_effect;
use crate::model::lemma_lookup_none;
use crate::model::lemma_lookup_push;
use crate::model::lookup;
use crate::model::name_byte_len;
use crate::model::name_matches;
use crate::model::NvEntryView;
use crate::model::NvListView;
use crate::model::NvValueView;

verus! {

/// Whether no sticky error is recorded anywhere in reach of this value.
pub open spec fn value_error_free(v: NvValueView) -> bool
    decreases v,
{
    match v {
        NvValueView::List(l) => list_error_free(l),
        NvValueView::ListArray(ls) => forall|i: int|
            0 <= i < ls.len() ==> list_error_free(#[trigger] ls[i]),
        _ => true,
    }
}

/// Whether no sticky error is recorded on this list or any nested one.
pub open spec fn list_error_free(l: NvListView) -> bool
    decreases l,
{
    l.error == 0 && forall|i: int|
        0 <= i < l.entries.len() ==> value_error_free((#[trigger] l.entries[i]).value)
}

proof fn lemma_scrub_value_clean(v: NvValueView)
    requires
        v.wf(),
        value_error_free(v),
    ensures
        scrub_value(v) == v,
    decreases v,
{
    match v {
        NvValueView::List(l) => {
            lemma_scrub_clean(l);
        },
        NvValueView::ListArray(ls) => {
            lemma_scrub_lists_clean(ls);
        },
        _ => {
        },
    }
}

proof fn lemma_scrub_lists_clean(ls: Seq<NvListView>)
    requires
        forall|i: int| 0 <= i < ls.len() ==> (#[trigger] ls[i]).valid && ls[i].wf(),
        forall|i: int| 0 <= i < ls.len() ==> list_error_free(#[trigger] ls[i]),
    ensures
        scrub_lists(ls) == ls,
    decreases ls,
{
    if ls.len() > 0 {
        let tail = ls.drop_first();
        assert(forall|i: int|
            0 <= i < tail.len() ==> (#[trigger] tail[i]).valid && tail[i].wf()
                && list_error_free(tail[i])) by {
            assert(forall|i: int| 0 <= i < tail.len() ==> tail[i] == ls[i + 1]);
        }
        lemma_scrub_clean(ls[0]);
        lemma_scrub_lists_clean(tail);
        assert(seq![ls[0]] + tail =~= ls);
    }
}

proof fn lemma_scrub_entries_clean(es: Seq<NvEntryView>)
    requires
        forall|i: int| 0 <= i < es.len() ==> (#[trigger] es[i]).wf(),
        forall|i: int| 0 <= i < es.len() ==> value_error_free((#[trigger] es[i]).value),
    ensures
        scrub_entries(es) == es,
    decreases es,
{
    if es.len() > 0 {
        let tail = es.drop_first();
        assert(forall|i: int|
            0 <= i < tail.len() ==> (#[trigger] tail[i]).wf() && value_error_free(tail[i].value))
            by {
            assert(forall|i: int| 0 <= i < tail.len() ==> tail[i] == es[i + 1]);
        }
        lemma_scrub_value_clean(es[0].value);
        assert(scrub_entry(es[0]) == es[0]);
        lemma_scrub_entries_clean(tail);
        assert(seq![es[0]] + tail =~= es);
    }
}

/// A valid, well-formed list carrying no sticky error anywhere is exactly
/// its own scrubbed form.
pub proof fn lemma_scrub_clean(m: NvListView)
    requires
        m.valid,
        m.wf(),
        list_error_free(m),
    ensures
        scrub_list(m) == m,
    decreases m,
{
    lemma_scrub_entries_clean(m.entries);
}

/// Round trip: decoding the encoding of any valid, well-formed list
/// consumes it exactly and yields the same list — same entries, in the same
/// order, with the same names, types and values, and the same flags — with
/// every sticky error cleared, since error codes are not on the wire. The
/// size hypothesis only asks that every length fits its 64-bit wire field,
/// which holds of every list a machine can hold.
pub proof fn lemma_round_trip(m: NvListView)
    requires
        m.valid,
        m.wf(),
        list_sizes_ok(m),
    ensures
        dec_list(enc_list(m), 0) == Decoded::<NvListView>::Found(
            scrub_list(m),
            enc_list(m).len() as int,
        ),
        list_error_free(m) ==> dec_list(enc_list(m), 0) == Decoded::<NvListView>::Found(
            m,
            enc_list(m).len() as int,
        ),
{
    let bytes = enc_list(m);
    assert(bytes.subrange(0, enc_list(m).len() as int) =~= enc_list(m));
    crate::codec::lemma_dec_enc_list(bytes, 0, m);
    if list_error_free(m) {
        lemma_scrub_clean(m);
    }
}

/// Duplicate policy: on a list that disallows duplicates, inserting a name
/// and then inserting it again leaves the first entry intact and findable,
/// records the duplicate-name error, and leaves the entry count unchanged.
pub proof fn lemma_duplicate_rejected(
    m: NvListView,
    name: Seq<char>,
    v1: NvValueView,
    v2: NvValueView,
)
    requires
        m.mutable(),
        !m.dups_allowed(),
        name_byte_len(name) <= NV_NAME_MAX,
        lookup(m.entries, name, None::<NvType>, m.folds_case()) is None,
    ensures
        ({
            let first = NvEntryView { name, value: v1 };
            let m1 = add_effect(m, name, v1);
            let m2 = add_effect(m1, name, v2);
            &&& m1.entries == m.entries.push(first)
            &&& m1.error == 0
            &&& m2 == m1.with_error(ERROR_NAME_EXISTS)
            &&& m2.entries == m1.entries
            &&& m2.entries.len() == m.entries.len() + 1
            &&& lookup(m2.entries, name, None::<NvType>, m2.folds_case()) == Some(first)
        }),
{
    let first = NvEntryView { name, value: v1 };
    let m1 = add_effect(m, name, v1);
    lemma_lookup_push(m.entries, name, None::<NvType>, m.folds_case(), first);
    assert(name_matches(first.name, name, m.folds_case()));
    assert(lookup(m1.entries, name, None::<NvType>, m1.folds_case()) == Some(first));
}

/// Case folding: an inserted entry is found under any spelling whose
/// folded characters match the stored name exactly when the list folds
/// case; a list comparing exactly finds it only under the stored spelling.
pub proof fn lemma_case_fold_lookup(m: NvListView, stored: Seq<char>, sought: Seq<char>)
    requires
        m.mutable(),
        name_byte_len(stored) <= NV_NAME_MAX,
        m.dups_allowed() || lookup(m.entries, stored, None::<NvType>, m.folds_case()) is None,
        lookup(m.entries, sought, None::<NvType>, m.folds_case()) is None,
    ensures
        forall|v: NvValueView|
            {
                let found = lookup(
                    (#[trigger] add_effect(m, stored, v)).entries,
                    sought,
                    None::<NvType>,
                    m.folds_case(),
                );
                if m.folds_case() {
                    found == (if fold_name(stored) == fold_name(sought) {
                        Some(NvEntryView { name: stored, value: v })
                    } else {
                        None::<NvEntryView>
                    })
                } else {
                    found == (if stored == sought {
                        Some(NvEntryView { name: stored, value: v })
                    } else {
                        None::<NvEntryView>
                    })
                }
            },
{
    assert forall|v: NvValueView| {
        let found = lookup(
            (#[trigger] add_effect(m, stored, v)).entries,
            sought,
            None::<NvType>,
            m.folds_case(),
        );
        if m.folds_case() {
            found == (if fold_name(stored) == fold_name(sought) {
                Some(NvEntryView { name: stored, value: v })
            } else {
                None::<NvEntryView>
            })
        } else {
            found == (if stored == sought {
                Some(NvEntryView { name: stored, value: v })
            } else {
                None::<NvEntryView>
            })
        }
    } by {
        let e = NvEntryView { name: stored, value: v };
        let m1 = add_effect(m, stored, v);
        assert(m1.entries == m.entries.push(e));
        lemma_lookup_push(m.entries, sought, None::<NvType>, m.folds_case(), e);
    }
}

/// Type-safe retrieval: when every entry answering to a name carries a tag
/// other than the one asked for, the typed lookup finds nothing — a getter
/// of one type never reads a value of another.
pub proof fn lemma_typed_lookup_misses(
    es: Seq<NvEntryView>,
    name: Seq<char>,
    t: NvType,
    ci: bool,
)
    requires
        forall|i: int|
            0 <= i < es.len() && name_matches((#[trigger] es[i]).name, name, ci) ==> es[i].value.tag()
                != t,
    ensures
        lookup(es, name, Some(t), ci) is None,
{
    assert(forall|j: int| 0 <= j < es.len() ==> !entry_matches(#[trigger] es[j], name, Some(t), ci));
    lemma_lookup_none(es, name, Some(t), ci);
}

/// The invalid sentinel is inert: every insertion and removal leaves an
/// invalid list unchanged, every typed fetch on it finds nothing, and it
/// reports the fixed out-of-memory-equivalent error code.
pub proof fn lemma_invalid_inert(m: NvListView, name: Seq<char>, v: NvValueView, t: Option<NvType>)
    requires
        !m.valid,
    ensures
        add_effect(m, name, v) == m,
        free_effect(m, name, t) == m,
        m.observed_error() == ERROR_NO_MEMORY,
        forall|ty: NvType| fetched(m, name, ty) is None,
{
}

} // verus!
