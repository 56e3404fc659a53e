//! The name/value list itself: an ordered, owned collection of tagged
//! entries with a duplicate-name policy, a case-sensitivity policy and a
//! sticky error code.

use vstd::prelude::*;

use vstd::string::StrSliceExecFns;

use crate::common::NvErr;
use crate::common::NvResult;
use crate::common::NvType;
use crate::common::ERROR_NAME_EXISTS;
use crate::common::ERROR_NAME_TOO_LONG;
use crate::common::ERROR_NO_MEMORY;
use crate::common::NV_NAME_MAX;
use crate::model::add_effect;
use crate::model::entry_matches;
use crate::model::fold_char;
use crate::model::fold_name;
use crate::model::lemma_lookup_at;
use crate::model::lemma_lookup_none;
use crate::model::fetched;
use crate::model::free_effect;
use crate::model::lemma_add_effect_wf;
use crate::model::lemma_free_effect_wf;
use crate::model::lemma_lookup_wf;
use crate::model::lemma_remove_at;
use crate::model::lemma_remove_none;
use crate::model::lemma_valid_only_push;
use crate::model::lemma_valid_only_wf;
use crate::model::lookup;
use crate::model::name_byte_len;
use crate::model::nested_value;
use crate::model::valid_only;
use crate::model::name_matches;
use crate::model::NvEntryView;
use crate::model::NvListView;
use crate::model::NvValueView;
use crate::views::list_view;
use crate::views::lists_view;
use crate::views::pair_view;
use crate::views::pairs_view;
use crate::views::strings_view;
use crate::views::value_view;

verus! {

broadcast use
    vstd::std_specs::vec::group_vec_axioms,
    vstd::slice::group_slice_axioms,
    crate::views::lemma_view_is_list_view,
    crate::views::lemma_pairs_view_props,
    crate::views::lemma_strings_view_props,
    crate::views::lemma_lists_view_props,
;

/// Options a list can be created with, fixed for the list's lifetime.
#[derive(Copy, Clone, Debug, PartialEq, Eq, Structural)]
pub enum NvFlag {
    /// No options: names are compared exactly and must be unique.
    NoFlags,
    /// Use case-insensitive name lookups.
    IgnoreCase,
    /// There may be duplicate names in the list.
    NoUnique,
    /// Both of the previous options.
    All,
}

impl NvFlag {
    /// The flag combination denoted by an integer, if it is a defined one.
    pub open spec fn from_i32_spec(flags: i32) -> Option<NvFlag> {
        if flags == 0 {
            Some(NvFlag::NoFlags)
        } else if flags == 1 {
            Some(NvFlag::IgnoreCase)
        } else if flags == 2 {
            Some(NvFlag::NoUnique)
        } else if flags == 3 {
            Some(NvFlag::All)
        } else {
            None
        }
    }

    /// Converts an `i32` into a flag combination; exactly the values 0 to 3
    /// are defined, and any other value is a construction error.
    pub fn from_i32(flags: i32) -> (r: NvResult<NvFlag>)
        ensures
            match NvFlag::from_i32_spec(flags) {
                Some(f) => r == NvResult::<NvFlag>::Ok(f),
                None => r == NvResult::<NvFlag>::Err(NvErr::ConstructionErr),
            },
    {
        match flags {
            0 => Ok(NvFlag::NoFlags),
            1 => Ok(NvFlag::IgnoreCase),
            2 => Ok(NvFlag::NoUnique),
            3 => Ok(NvFlag::All),
            _ => Err(NvErr::ConstructionErr),
        }
    }

    /// The stable wire code of each flag combination; inverse of
    /// [`NvFlag::from_i32_spec`] on the defined values.
    pub open spec fn code_spec(self) -> u8 {
        match self {
            NvFlag::NoFlags => 0,
            NvFlag::IgnoreCase => 1,
            NvFlag::NoUnique => 2,
            NvFlag::All => 3,
        }
    }

    /// The flag combination denoted by a wire code, if it is a defined one;
    /// inverse of [`NvFlag::code_spec`].
    pub open spec fn from_code_spec(c: u8) -> Option<NvFlag> {
        if c == 0 {
            Some(NvFlag::NoFlags)
        } else if c == 1 {
            Some(NvFlag::IgnoreCase)
        } else if c == 2 {
            Some(NvFlag::NoUnique)
        } else if c == 3 {
            Some(NvFlag::All)
        } else {
            None
        }
    }

    /// Returns the flag combination denoted by a wire code, if defined.
    pub fn from_code(c: u8) -> (r: Option<NvFlag>)
        ensures
            r == NvFlag::from_code_spec(c),
    {
        match c {
            0 => Some(NvFlag::NoFlags),
            1 => Some(NvFlag::IgnoreCase),
            2 => Some(NvFlag::NoUnique),
            3 => Some(NvFlag::All),
            _ => None,
        }
    }

    /// Returns the stable wire code of this flag combination.
    pub fn code(self) -> (c: u8)
        ensures
            c == self.code_spec(),
    {
        match self {
            NvFlag::NoFlags => 0,
            NvFlag::IgnoreCase => 1,
            NvFlag::NoUnique => 2,
            NvFlag::All => 3,
        }
    }
}

/// One stored value.
pub(crate) enum NvValue {
    /// Presence marker without payload.
    Null,
    /// A boolean.
    Bool(bool),
    /// A 64-bit unsigned number.
    Number(u64),
    /// A string.
    Str(String),
    /// A nested list.
    List(NvList),
    /// An opaque descriptor handle.
    Descriptor(u64),
    /// A binary buffer.
    Binary(Vec<u8>),
    /// An array of booleans.
    BoolArray(Vec<bool>),
    /// An array of 64-bit unsigned numbers.
    NumberArray(Vec<u64>),
    /// An array of strings.
    StrArray(Vec<String>),
    /// An array of nested lists.
    ListArray(Vec<NvList>),
    /// An array of opaque descriptor handles.
    DescriptorArray(Vec<u64>),
}

/// One entry: a name paired with a value.
pub(crate) struct NvPair {
    /// The entry's name.
    pub(crate) name: String,
    /// The entry's value.
    pub(crate) value: NvValue,
}

/// A list of name/value pairs.
pub struct NvList {
    /// False on the invalid sentinel, whose every mutation is a no-op.
    pub(crate) valid: bool,
    /// The options fixed at construction.
    pub(crate) flags: NvFlag,
    /// The sticky error code; zero means no error.
    pub(crate) error: i32,
    /// The entries, in insertion order.
    pub(crate) entries: Vec<NvPair>,
}


impl NvList {
    /// Creates a new name/value pair list with the given options.
    pub fn new(flags: NvFlag) -> (r: NvResult<NvList>)
        ensures
            r matches Ok(l) && l@ == NvListView::empty(flags),
    {
        let l = NvList { valid: true, flags, error: 0, entries: Vec::new() };
        proof {
            assert(l@.entries =~= Seq::<NvEntryView>::empty());
        }
        Ok(l)
    }

    /// Whether the list has no entries; true on the invalid sentinel.
    pub fn is_empty(&self) -> (r: bool)
        ensures
            r == (self@.entries.len() == 0),
    {
        self.entries.len() == 0
    }

    /// The options the list was created with; the empty options on the
    /// invalid sentinel.
    pub fn flags(&self) -> (r: NvFlag)
        ensures
            r == (if self@.valid {
                self@.flags
            } else {
                NvFlag::NoFlags
            }),
    {
        if self.valid {
            self.flags
        } else {
            NvFlag::NoFlags
        }
    }

    /// The accumulated sticky error code: zero when no mutation has failed,
    /// and the out-of-memory-equivalent code on the invalid sentinel.
    pub fn error(&self) -> (r: i32)
        ensures
            r == self@.observed_error(),
    {
        if self.valid {
            self.error
        } else {
            ERROR_NO_MEMORY
        }
    }

    /// Forces the sticky error code. Fails, leaving the list unchanged, only
    /// on the invalid sentinel, which cannot record a code.
    pub fn set_error(&mut self, error: i32) -> (r: NvResult<()>)
        ensures
            old(self)@.valid ==> r == NvResult::<()>::Ok(())
                && final(self)@ == old(self)@.with_error(error),
            !old(self)@.valid ==> r == NvResult::<()>::Err(NvErr::ErrorNotSet(error))
                && final(self)@ == old(self)@,
    {
        if self.valid {
            self.error = error;
            assert(self@.entries =~= old(self)@.entries);
            Ok(())
        } else {
            Err(NvErr::ErrorNotSet(error))
        }
    }
}

impl Default for NvList {
    /// The invalid sentinel: it holds nothing, reports the
    /// out-of-memory-equivalent error code, and ignores every mutation.
    fn default() -> (r: NvList)
        ensures
            r@ == NvListView::sentinel(),
    {
        let r = NvList { valid: false, flags: NvFlag::NoFlags, error: 0, entries: Vec::new() };
        assert(r@.entries =~= Seq::<NvEntryView>::empty());
        r
    }
}


impl NvValue {
    /// Returns the tag of this value.
    pub(crate) fn tag(&self) -> (r: NvType)
        ensures
            r == value_view(*self).tag(),
    {
        match self {
            NvValue::Null => NvType::Null,
            NvValue::Bool(_) => NvType::Bool,
            NvValue::Number(_) => NvType::Number,
            NvValue::Str(_) => NvType::String,
            NvValue::List(_) => NvType::NvList,
            NvValue::Descriptor(_) => NvType::Descriptor,
            NvValue::Binary(_) => NvType::Binary,
            NvValue::BoolArray(_) => NvType::BoolArray,
            NvValue::NumberArray(_) => NvType::NumberArray,
            NvValue::StrArray(_) => NvType::StringArray,
            NvValue::ListArray(_) => NvType::NvListArray,
            NvValue::DescriptorArray(_) => NvType::DescriptorArray,
        }
    }
}

/// Returns a character's comparison key under case folding.
fn fold_char_code(c: char) -> (r: u32)
    ensures
        r == fold_char(c),
{
    let u = c as u32;
    if 65 <= u && u <= 90 {
        u + 32
    } else {
        u
    }
}

/// Returns whether two names match under the given case policy.
fn names_equal(a: &str, b: &str, ci: bool) -> (r: bool)
    ensures
        r == name_matches(a@, b@, ci),
{
    let alen = a.unicode_len();
    let blen = b.unicode_len();
    if alen != blen {
        return false;
    }
    let mut i: usize = 0;
    while i < alen
        invariant
            alen == a@.len(),
            alen == b@.len(),
            i <= alen,
            ci ==> forall|j: int| 0 <= j < i ==> fold_char(#[trigger] a@[j]) == fold_char(b@[j]),
            !ci ==> forall|j: int| 0 <= j < i ==> #[trigger] a@[j] == b@[j],
        decreases alen - i,
    {
        let ca = a.get_char(i);
        let cb = b.get_char(i);
        if ci {
            if fold_char_code(ca) != fold_char_code(cb) {
                proof {
                    assert(fold_name(a@)[i as int] != fold_name(b@)[i as int]);
                }
                return false;
            }
        } else {
            if ca != cb {
                return false;
            }
        }
        i += 1;
    }
    proof {
        if ci {
            assert(fold_name(a@) =~= fold_name(b@));
        } else {
            assert(a@ =~= b@);
        }
    }
    true
}

impl NvList {
    /// Returns whether lookups on this list fold character case.
    fn folds_case_exec(&self) -> (r: bool)
        ensures
            r == self@.folds_case(),
    {
        match self.flags {
            NvFlag::IgnoreCase => true,
            NvFlag::All => true,
            _ => false,
        }
    }

    /// Returns whether this list accepts several entries under one name.
    fn dups_allowed_exec(&self) -> (r: bool)
        ensures
            r == self@.dups_allowed(),
    {
        match self.flags {
            NvFlag::NoUnique => true,
            NvFlag::All => true,
            _ => false,
        }
    }

    /// Returns the position of the first entry answering to the name (and
    /// tag, when one is given), scanning in insertion order.
    fn find_entry(&self, name: &str, t: Option<NvType>) -> (r: Option<usize>)
        ensures
            match r {
                Some(i) => {
                    &&& i < self@.entries.len()
                    &&& lookup(self@.entries, name@, t, self@.folds_case()) == Some(
                        self@.entries[i as int],
                    )
                    &&& forall|j: int|
                        0 <= j < i ==> !entry_matches(
                            #[trigger] self@.entries[j],
                            name@,
                            t,
                            self@.folds_case(),
                        )
                    &&& entry_matches(self@.entries[i as int], name@, t, self@.folds_case())
                },
                None => lookup(self@.entries, name@, t, self@.folds_case()) is None
                    && forall|j: int|
                        0 <= j < self@.entries.len() ==> !entry_matches(
                            #[trigger] self@.entries[j],
                            name@,
                            t,
                            self@.folds_case(),
                        ),
            },
    {
        let ghost es = self@.entries;
        let ghost ci = self@.folds_case();
        proof {
            assert(es == pairs_view(self.entries@));
        }
        let fold = self.folds_case_exec();
        let n = self.entries.len();
        let mut i: usize = 0;
        while i < n
            invariant
                n == self.entries@.len(),
                es == self@.entries,
                ci == self@.folds_case(),
                fold == ci,
                es.len() == n,
                i <= n,
                forall|j: int| 0 <= j < i ==> !entry_matches(#[trigger] es[j], name@, t, ci),
            decreases n - i,
        {
            let p = &self.entries[i];
            let name_hit = names_equal(p.name.as_str(), name, fold);
            let tag_hit = match t {
                Some(ty) => name_hit && p.value.tag() == ty,
                None => name_hit,
            };
            proof {
                assert(pairs_view(self.entries@)[i as int] == pair_view(
                    self.entries@[i as int],
                ));
            }
            if tag_hit {
                proof {
                    lemma_lookup_at(es, name@, t, ci, i as int);
                }
                return Some(i);
            }
            proof {
                assert(!entry_matches(es[i as int], name@, t, ci));
            }
            i += 1;
        }
        proof {
            lemma_lookup_none(es, name@, t, ci);
        }
        None
    }

    /// Returns whether an entry of the given name exists; false on the
    /// invalid sentinel.
    pub fn exists_name(&self, name: &str) -> (r: bool)
        ensures
            r == (self@.valid && lookup(
                self@.entries,
                name@,
                None::<NvType>,
                self@.folds_case(),
            ) is Some),
    {
        if !self.valid {
            return false;
        }
        self.find_entry(name, None).is_some()
    }

    /// Returns whether an entry of the given name and type exists; false on
    /// the invalid sentinel.
    pub fn exists_type(&self, name: &str, ty: NvType) -> (r: bool)
        ensures
            r == (self@.valid && lookup(
                self@.entries,
                name@,
                Some(ty),
                self@.folds_case(),
            ) is Some),
    {
        if !self.valid {
            return false;
        }
        self.find_entry(name, Some(ty)).is_some()
    }
}


/// Returns a deep copy of a vector of strings.
fn clone_strings(a: &Vec<String>) -> (r: Vec<String>)
    ensures
        strings_view(r@) == strings_view(a@),
{
    let mut out: Vec<String> = Vec::new();
    let n = a.len();
    let mut i: usize = 0;
    while i < n
        invariant
            n == a@.len(),
            out@.len() == i,
            i <= n,
            forall|j: int| 0 <= j < i ==> #[trigger] out@[j]@ == a@[j]@,
        decreases n - i,
    {
        out.push(a[i].clone());
        i += 1;
    }
    proof {
        assert(strings_view(out@) =~= strings_view(a@));
    }
    out
}

/// Returns a deep copy of a vector of nested lists.
fn clone_lists(a: &Vec<NvList>) -> (r: Vec<NvList>)
    ensures
        lists_view(r@) == lists_view(a@),
    decreases a@,
{
    let mut out: Vec<NvList> = Vec::new();
    let n = a.len();
    let mut i: usize = 0;
    while i < n
        invariant
            n == a@.len(),
            out@.len() == i,
            i <= n,
            forall|j: int| 0 <= j < i ==> list_view(#[trigger] out@[j]) == list_view(a@[j]),
        decreases n - i,
    {
        proof {
            assert(decreases_to!(a@ => a@[i as int]));
        }
        out.push(clone_list(&a[i]));
        i += 1;
    }
    proof {
        assert(lists_view(out@) =~= lists_view(a@));
    }
    out
}

/// Returns a deep copy of a stored value.
fn clone_value(v: &NvValue) -> (r: NvValue)
    ensures
        value_view(r) == value_view(*v),
    decreases *v,
{
    match v {
        NvValue::Null => NvValue::Null,
        NvValue::Bool(b) => NvValue::Bool(*b),
        NvValue::Number(n) => NvValue::Number(*n),
        NvValue::Str(s) => NvValue::Str(s.clone()),
        NvValue::List(l) => NvValue::List(clone_list(l)),
        NvValue::Descriptor(d) => NvValue::Descriptor(*d),
        NvValue::Binary(b) => NvValue::Binary(vstd::slice::slice_to_vec(b.as_slice())),
        NvValue::BoolArray(a) => NvValue::BoolArray(vstd::slice::slice_to_vec(a.as_slice())),
        NvValue::NumberArray(a) => NvValue::NumberArray(vstd::slice::slice_to_vec(a.as_slice())),
        NvValue::StrArray(a) => NvValue::StrArray(clone_strings(a)),
        NvValue::ListArray(a) => NvValue::ListArray(clone_lists(a)),
        NvValue::DescriptorArray(a) => NvValue::DescriptorArray(
            vstd::slice::slice_to_vec(a.as_slice()),
        ),
    }
}

/// Returns a deep copy of one entry.
fn clone_pair(p: &NvPair) -> (r: NvPair)
    ensures
        pair_view(r) == pair_view(*p),
    decreases *p,
{
    NvPair { name: p.name.clone(), value: clone_value(&p.value) }
}

/// Returns a deep copy of a whole list.
pub(crate) fn clone_list(l: &NvList) -> (r: NvList)
    ensures
        list_view(r) == list_view(*l),
    decreases *l,
{
    let mut entries: Vec<NvPair> = Vec::new();
    let n = l.entries.len();
    let mut i: usize = 0;
    while i < n
        invariant
            n == l.entries@.len(),
            entries@.len() == i,
            i <= n,
            forall|j: int| 0 <= j < i ==> pair_view(#[trigger] entries@[j]) == pair_view(
                l.entries@[j],
            ),
        decreases n - i,
    {
        proof {
            assert(decreases_to!(*l => l.entries@[i as int]));
        }
        entries.push(clone_pair(&l.entries[i]));
        i += 1;
    }
    proof {
        assert(pairs_view(entries@) =~= pairs_view(l.entries@));
    }
    NvList { valid: l.valid, flags: l.flags, error: l.error, entries }
}

impl Clone for NvList {
    /// Returns a full deep copy: every entry is duplicated, nested lists are
    /// cloned recursively, and strings, blobs and arrays are copied, never
    /// shared, so that mutating the copy can never affect the original.
    fn clone(&self) -> (r: NvList)
        ensures
            r@ == self@,
    {
        clone_list(self)
    }
}


impl NvList {
    /// Appends `value` under `name`, enforcing the name-length bound, the
    /// duplicate-name policy and the sticky-error rule.
    fn add_value(&mut self, name: &str, value: NvValue)
        ensures
            final(self)@ == add_effect(old(self)@, name@, value_view(value)),
            old(self)@.wf() && value_view(value).wf() ==> final(self)@.wf(),
    {
        let ghost vv = value_view(value);
        proof {
            if old(self)@.wf() && vv.wf() {
                lemma_add_effect_wf(old(self)@, name@, vv);
            }
        }
        if !self.valid || self.error != 0 {
            return ;
        }
        let name_bytes_len = name.as_bytes().len();
        proof {
            assert(name_bytes_len == name_byte_len(name@));
        }
        if name_bytes_len > NV_NAME_MAX as usize {
            self.error = ERROR_NAME_TOO_LONG;
            proof {
                assert(final(self)@ == old(self)@.with_error(ERROR_NAME_TOO_LONG));
            }
            return ;
        }
        if !self.dups_allowed_exec() {
            if self.find_entry(name, None).is_some() {
                self.error = ERROR_NAME_EXISTS;
                proof {
                    assert(final(self)@ == old(self)@.with_error(ERROR_NAME_EXISTS));
                }
                return ;
            }
        }
        let ghost old_vec = self.entries@;
        proof {
            assert(old(self)@.entries == pairs_view(old_vec));
        }
        let pair = NvPair { name: name.to_owned(), value };
        proof {
            assert(pair_view(pair) == NvEntryView { name: name@, value: vv });
        }
        self.entries.push(pair);
        proof {
            assert(self.entries@ == old_vec.push(pair));
            assert(pairs_view(self.entries@) =~= pairs_view(old_vec).push(pair_view(pair)));
        }
    }

    /// Inserts a presence marker under `name`.
    pub fn add_null(&mut self, name: &str)
        ensures
            final(self)@ == add_effect(old(self)@, name@, NvValueView::Null),
            old(self)@.wf() ==> final(self)@.wf(),
    {
        self.add_value(name, NvValue::Null);
    }

    /// Inserts a boolean under `name`.
    pub fn add_bool(&mut self, name: &str, value: bool)
        ensures
            final(self)@ == add_effect(old(self)@, name@, NvValueView::Bool(value)),
            old(self)@.wf() ==> final(self)@.wf(),
    {
        self.add_value(name, NvValue::Bool(value));
    }

    /// Inserts a 64-bit unsigned number under `name`.
    pub fn add_number(&mut self, name: &str, value: u64)
        ensures
            final(self)@ == add_effect(old(self)@, name@, NvValueView::Number(value)),
            old(self)@.wf() ==> final(self)@.wf(),
    {
        self.add_value(name, NvValue::Number(value));
    }

    /// Inserts a string under `name`; the text is copied into the list.
    pub fn add_string(&mut self, name: &str, value: &str)
        ensures
            final(self)@ == add_effect(old(self)@, name@, NvValueView::Str(value@)),
            old(self)@.wf() ==> final(self)@.wf(),
    {
        self.add_value(name, NvValue::Str(value.to_owned()));
    }

    /// Inserts an opaque descriptor handle under `name`; the handle's value
    /// is recorded, never interpreted or dereferenced.
    pub fn add_descriptor(&mut self, name: &str, value: u64)
        ensures
            final(self)@ == add_effect(old(self)@, name@, NvValueView::Descriptor(value)),
            old(self)@.wf() ==> final(self)@.wf(),
    {
        self.add_value(name, NvValue::Descriptor(value));
    }

    /// Inserts a binary buffer under `name`; the bytes are copied into the
    /// list, independent of the caller's buffer.
    pub fn add_binary(&mut self, name: &str, value: &[u8])
        ensures
            final(self)@ == add_effect(old(self)@, name@, NvValueView::Binary(value@)),
            old(self)@.wf() ==> final(self)@.wf(),
    {
        self.add_value(name, NvValue::Binary(vstd::slice::slice_to_vec(value)));
    }

    /// Inserts a nested list under `name`. The nested list is deep-cloned at
    /// insertion, so later changes to the caller's list do not reach the
    /// stored copy; the invalid sentinel is replaced by a fresh empty list
    /// sharing this list's flags, so children only ever hold valid lists.
    pub fn add_nvlist(&mut self, name: &str, value: &NvList)
        ensures
            final(self)@ == add_effect(old(self)@, name@, nested_value(old(self)@, value@)),
            old(self)@.wf() && value@.wf() ==> final(self)@.wf(),
    {
        let child: NvList = if value.valid {
            clone_list(value)
        } else {
            let fresh = NvList {
                valid: true,
                flags: self.flags,
                error: 0,
                entries: Vec::new(),
            };
            proof {
                assert(list_view(fresh).entries =~= Seq::<NvEntryView>::empty());
            }
            fresh
        };
        proof {
            assert(value_view(NvValue::List(child)) == nested_value(self@, value@));
        }
        self.add_value(name, NvValue::List(child));
    }

    /// Inserts an array of booleans under `name`; the elements are copied.
    pub fn add_bool_slice(&mut self, name: &str, value: &[bool])
        ensures
            final(self)@ == add_effect(old(self)@, name@, NvValueView::BoolArray(value@)),
            old(self)@.wf() ==> final(self)@.wf(),
    {
        self.add_value(name, NvValue::BoolArray(vstd::slice::slice_to_vec(value)));
    }

    /// Inserts an array of 64-bit unsigned numbers under `name`; the elements
    /// are copied.
    pub fn add_number_slice(&mut self, name: &str, value: &[u64])
        ensures
            final(self)@ == add_effect(old(self)@, name@, NvValueView::NumberArray(value@)),
            old(self)@.wf() ==> final(self)@.wf(),
    {
        self.add_value(name, NvValue::NumberArray(vstd::slice::slice_to_vec(value)));
    }

    /// Inserts an array of opaque descriptor handles under `name`; the
    /// elements are copied.
    pub fn add_descriptor_slice(&mut self, name: &str, value: &[u64])
        ensures
            final(self)@ == add_effect(old(self)@, name@, NvValueView::DescriptorArray(value@)),
            old(self)@.wf() ==> final(self)@.wf(),
    {
        self.add_value(name, NvValue::DescriptorArray(vstd::slice::slice_to_vec(value)));
    }

    /// Inserts an array of strings under `name`; every string is copied into
    /// storage owned by the list before anything is recorded, so the stored
    /// array never refers to the caller's buffers.
    pub fn add_string_slice(&mut self, name: &str, value: &[&str])
        ensures
            final(self)@ == add_effect(
                old(self)@,
                name@,
                NvValueView::StrArray(value@.map_values(|s: &str| s@)),
            ),
            old(self)@.wf() ==> final(self)@.wf(),
    {
        let mut owned: Vec<String> = Vec::new();
        let n = value.len();
        let mut i: usize = 0;
        while i < n
            invariant
                n == value@.len(),
                owned@.len() == i,
                i <= n,
                forall|j: int| 0 <= j < i ==> #[trigger] owned@[j]@ == value@[j]@,
            decreases n - i,
        {
            owned.push(value[i].to_owned());
            i += 1;
        }
        proof {
            assert(strings_view(owned@) =~= value@.map_values(|s: &str| s@));
        }
        self.add_value(name, NvValue::StrArray(owned));
    }

    /// Inserts an array of nested lists under `name`. Each validly
    /// constructed list in the slice is deep-cloned into the stored array, in
    /// order; invalid sentinels are left out.
    pub fn add_nvlist_slice(&mut self, name: &str, value: &[NvList])
        ensures
            final(self)@ == add_effect(
                old(self)@,
                name@,
                NvValueView::ListArray(valid_only(value@.map_values(|l: NvList| l@))),
            ),
            old(self)@.wf() && (forall|i: int|
                0 <= i < value@.len() ==> (#[trigger] value@[i])@.wf()) ==> final(self)@.wf(),
    {
        proof {
            assert(lists_view(value@) =~= value@.map_values(|l: NvList| l@));
        }
        let mut kept: Vec<NvList> = Vec::new();
        let n = value.len();
        let mut i: usize = 0;
        while i < n
            invariant
                n == value@.len(),
                i <= n,
                lists_view(kept@) == valid_only(lists_view(value@.subrange(0, i as int))),
            decreases n - i,
        {
            let ghost prefix = lists_view(value@.subrange(0, i as int));
            let ghost old_kept = kept@;
            let item = &value[i];
            if item.valid {
                kept.push(clone_list(item));
                proof {
                    assert(lists_view(kept@) =~= lists_view(old_kept).push(list_view(*item)));
                }
            }
            proof {
                assert(value@.subrange(0, i + 1 as int) =~= value@.subrange(0, i as int).push(
                    value@[i as int],
                ));
                assert(lists_view(value@.subrange(0, i + 1 as int)) =~= prefix.push(
                    list_view(value@[i as int]),
                ));
                lemma_valid_only_push(prefix, list_view(value@[i as int]));
            }
            i += 1;
        }
        proof {
            assert(value@.subrange(0, n as int) =~= value@);
            if forall|j: int| 0 <= j < value@.len() ==> (#[trigger] lists_view(value@)[j]).wf() {
                lemma_valid_only_wf(lists_view(value@));
            }
        }
        self.add_value(name, NvValue::ListArray(kept));
    }
}


impl NvList {
    /// Returns the first boolean stored under the given name, if any; no
    /// entry of another type is ever read.
    pub fn get_bool(&self, name: &str) -> (r: Option<bool>)
        ensures
            match fetched(self@, name@, NvType::Bool) {
                Some(NvValueView::Bool(b)) => r == Some(b),
                _ => r is None,
            },
    {
        if !self.valid {
            return None;
        }
        match self.find_entry(name, Some(NvType::Bool)) {
            Some(i) => {
                proof {
                    assert(self@.entries == pairs_view(self.entries@));
                    assert(self@.entries[i as int] == pair_view(self.entries@[i as int]));
                }
                match &self.entries[i].value {
                    NvValue::Bool(b) => Some(*b),
                    _ => None,
                }
            },
            None => None,
        }
    }

    /// Returns the first 64-bit number stored under the given name, if any.
    pub fn get_number(&self, name: &str) -> (r: Option<u64>)
        ensures
            match fetched(self@, name@, NvType::Number) {
                Some(NvValueView::Number(n)) => r == Some(n),
                _ => r is None,
            },
    {
        if !self.valid {
            return None;
        }
        match self.find_entry(name, Some(NvType::Number)) {
            Some(i) => {
                proof {
                    assert(self@.entries == pairs_view(self.entries@));
                    assert(self@.entries[i as int] == pair_view(self.entries@[i as int]));
                }
                match &self.entries[i].value {
                    NvValue::Number(n) => Some(*n),
                    _ => None,
                }
            },
            None => None,
        }
    }

    /// Returns the first descriptor handle stored under the given name, if
    /// any.
    pub fn get_descriptor(&self, name: &str) -> (r: Option<u64>)
        ensures
            match fetched(self@, name@, NvType::Descriptor) {
                Some(NvValueView::Descriptor(d)) => r == Some(d),
                _ => r is None,
            },
    {
        if !self.valid {
            return None;
        }
        match self.find_entry(name, Some(NvType::Descriptor)) {
            Some(i) => {
                proof {
                    assert(self@.entries == pairs_view(self.entries@));
                    assert(self@.entries[i as int] == pair_view(self.entries@[i as int]));
                }
                match &self.entries[i].value {
                    NvValue::Descriptor(d) => Some(*d),
                    _ => None,
                }
            },
            None => None,
        }
    }

    /// Returns an owned copy of the first string stored under the given
    /// name, if any.
    pub fn get_string(&self, name: &str) -> (r: Option<String>)
        ensures
            match fetched(self@, name@, NvType::String) {
                Some(NvValueView::Str(sv)) => r matches Some(s) && s@ == sv,
                _ => r is None,
            },
    {
        if !self.valid {
            return None;
        }
        match self.find_entry(name, Some(NvType::String)) {
            Some(i) => {
                proof {
                    assert(self@.entries == pairs_view(self.entries@));
                    assert(self@.entries[i as int] == pair_view(self.entries@[i as int]));
                }
                match &self.entries[i].value {
                    NvValue::Str(s) => Some(s.clone()),
                    _ => None,
                }
            },
            None => None,
        }
    }

    /// Returns a deep clone of the first nested list stored under the given
    /// name, if any; never a reference into this list, so mutating the
    /// result cannot corrupt this list's storage.
    pub fn get_nvlist(&self, name: &str) -> (r: Option<NvList>)
        ensures
            match fetched(self@, name@, NvType::NvList) {
                Some(NvValueView::List(lv)) => r matches Some(x) && x@ == lv,
                _ => r is None,
            },
            self@.wf() ==> (r matches Some(x) ==> x@.wf() && x@.valid),
    {
        if !self.valid {
            return None;
        }
        proof {
            if self@.wf() {
                lemma_lookup_wf(self@.entries, name@, Some(NvType::NvList), self@.folds_case());
            }
        }
        match self.find_entry(name, Some(NvType::NvList)) {
            Some(i) => {
                proof {
                    assert(self@.entries == pairs_view(self.entries@));
                    assert(self@.entries[i as int] == pair_view(self.entries@[i as int]));
                }
                match &self.entries[i].value {
                    NvValue::List(l) => Some(clone_list(l)),
                    _ => None,
                }
            },
            None => None,
        }
    }

    /// Returns an owned copy of the first boolean array stored under the
    /// given name, if any.
    pub fn get_bool_slice(&self, name: &str) -> (r: Option<Vec<bool>>)
        ensures
            match fetched(self@, name@, NvType::BoolArray) {
                Some(NvValueView::BoolArray(av)) => r matches Some(v) && v@ == av,
                _ => r is None,
            },
    {
        if !self.valid {
            return None;
        }
        match self.find_entry(name, Some(NvType::BoolArray)) {
            Some(i) => {
                proof {
                    assert(self@.entries == pairs_view(self.entries@));
                    assert(self@.entries[i as int] == pair_view(self.entries@[i as int]));
                }
                match &self.entries[i].value {
                    NvValue::BoolArray(a) => Some(vstd::slice::slice_to_vec(a.as_slice())),
                    _ => None,
                }
            },
            None => None,
        }
    }

    /// Returns an owned copy of the first number array stored under the
    /// given name, if any.
    pub fn get_number_slice(&self, name: &str) -> (r: Option<Vec<u64>>)
        ensures
            match fetched(self@, name@, NvType::NumberArray) {
                Some(NvValueView::NumberArray(av)) => r matches Some(v) && v@ == av,
                _ => r is None,
            },
    {
        if !self.valid {
            return None;
        }
        match self.find_entry(name, Some(NvType::NumberArray)) {
            Some(i) => {
                proof {
                    assert(self@.entries == pairs_view(self.entries@));
                    assert(self@.entries[i as int] == pair_view(self.entries@[i as int]));
                }
                match &self.entries[i].value {
                    NvValue::NumberArray(a) => Some(vstd::slice::slice_to_vec(a.as_slice())),
                    _ => None,
                }
            },
            None => None,
        }
    }

    /// Returns an owned copy of the first descriptor array stored under the
    /// given name, if any.
    pub fn get_descriptor_slice(&self, name: &str) -> (r: Option<Vec<u64>>)
        ensures
            match fetched(self@, name@, NvType::DescriptorArray) {
                Some(NvValueView::DescriptorArray(av)) => r matches Some(v) && v@ == av,
                _ => r is None,
            },
    {
        if !self.valid {
            return None;
        }
        match self.find_entry(name, Some(NvType::DescriptorArray)) {
            Some(i) => {
                proof {
                    assert(self@.entries == pairs_view(self.entries@));
                    assert(self@.entries[i as int] == pair_view(self.entries@[i as int]));
                }
                match &self.entries[i].value {
                    NvValue::DescriptorArray(a) => Some(vstd::slice::slice_to_vec(a.as_slice())),
                    _ => None,
                }
            },
            None => None,
        }
    }

    /// Returns owned copies of the strings in the first string array stored
    /// under the given name, if any.
    pub fn get_string_vec(&self, name: &str) -> (r: Option<Vec<String>>)
        ensures
            match fetched(self@, name@, NvType::StringArray) {
                Some(NvValueView::StrArray(sv)) => r matches Some(v) && v@.map_values(
                    |s: String| s@,
                ) == sv,
                _ => r is None,
            },
    {
        if !self.valid {
            return None;
        }
        match self.find_entry(name, Some(NvType::StringArray)) {
            Some(i) => {
                proof {
                    assert(self@.entries == pairs_view(self.entries@));
                    assert(self@.entries[i as int] == pair_view(self.entries@[i as int]));
                }
                match &self.entries[i].value {
                    NvValue::StrArray(a) => {
                        let out = clone_strings(a);
                        proof {
                            assert(out@.map_values(|s: String| s@) =~= strings_view(out@));
                        }
                        Some(out)
                    },
                    _ => None,
                }
            },
            None => None,
        }
    }

    /// Returns deep clones of the lists in the first list array stored under
    /// the given name, if any.
    pub fn get_nvlist_vec(&self, name: &str) -> (r: Option<Vec<NvList>>)
        ensures
            match fetched(self@, name@, NvType::NvListArray) {
                Some(NvValueView::ListArray(lvs)) => r matches Some(v) && v@.map_values(
                    |l: NvList| l@,
                ) == lvs,
                _ => r is None,
            },
    {
        if !self.valid {
            return None;
        }
        match self.find_entry(name, Some(NvType::NvListArray)) {
            Some(i) => {
                proof {
                    assert(self@.entries == pairs_view(self.entries@));
                    assert(self@.entries[i as int] == pair_view(self.entries@[i as int]));
                }
                match &self.entries[i].value {
                    NvValue::ListArray(a) => {
                        let out = clone_lists(a);
                        proof {
                            assert(out@.map_values(|l: NvList| l@) =~= lists_view(out@));
                        }
                        Some(out)
                    },
                    _ => None,
                }
            },
            None => None,
        }
    }

    /// Removes the first entry of the given name, of any type; a no-op when
    /// nothing matches, on the invalid sentinel, and on a list with a sticky
    /// error.
    pub fn free(&mut self, name: &str)
        ensures
            final(self)@ == free_effect(old(self)@, name@, None::<NvType>),
            old(self)@.wf() ==> final(self)@.wf(),
    {
        self.free_where(name, None);
    }

    /// Removes the first entry of the given name and type; a no-op when
    /// nothing matches, on the invalid sentinel, and on a list with a sticky
    /// error.
    pub fn free_type(&mut self, name: &str, ty: NvType)
        ensures
            final(self)@ == free_effect(old(self)@, name@, Some(ty)),
            old(self)@.wf() ==> final(self)@.wf(),
    {
        self.free_where(name, Some(ty));
    }

    /// Removes the first entry answering to the name (and tag, when given).
    fn free_where(&mut self, name: &str, t: Option<NvType>)
        ensures
            final(self)@ == free_effect(old(self)@, name@, t),
            old(self)@.wf() ==> final(self)@.wf(),
    {
        proof {
            if old(self)@.wf() {
                lemma_free_effect_wf(old(self)@, name@, t);
            }
        }
        if !self.valid || self.error != 0 {
            return ;
        }
        let ghost es = self@.entries;
        let ghost ci = self@.folds_case();
        match self.find_entry(name, t) {
            Some(i) => {
                let ghost old_vec = self.entries@;
                proof {
                    assert(es == pairs_view(old_vec));
                    lemma_remove_at(es, name@, t, ci, i as int);
                }
                self.entries.remove(i);
                proof {
                    assert(pairs_view(self.entries@) =~= pairs_view(old_vec).remove(i as int));
                }
            },
            None => {
                proof {
                    lemma_remove_none(es, name@, t, ci);
                }
            },
        }
    }
}


impl NvList {
    /// Adds a single value of any supported kind to the list, dispatching on
    /// the value's type.
    pub fn add<T: crate::nvops::NvListOps>(&mut self, name: &str, value: T)
        ensures
            final(self)@ == add_effect(old(self)@, name@, value.nv_value(old(self)@)),
            old(self)@.wf() && value.nv_value(old(self)@).wf() ==> final(self)@.wf(),
    {
        value.nv_add(self, name);
    }
}

} // verus!
