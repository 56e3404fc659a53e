//! The wire codec: serializing a list to bytes and parsing bytes back.
//!
//! Every record carries a one-byte type tag, a length-prefixed UTF-8 name
//! bounded at [`NV_NAME_MAX`] bytes, and a payload. Multi-byte integers are
//! little-endian; strings and binary buffers are length-prefixed by a 64-bit
//! byte count; arrays carry a 64-bit element count followed by that many
//! elements; a nested list recurses with the same record format, opened by
//! its one-byte flags code and closed by a zero end-marker byte, and a whole
//! stream is one such nested-list encoding. The sticky error code is not
//! part of the wire form: parsing always yields a list with no error.

use vstd::prelude::*;
use vstd::bytes::spec_u16_to_le_bytes;
use vstd::bytes::spec_u64_to_le_bytes;
use vstd::utf8::encode_utf8;

use crate::model::name_byte_len;
use crate::model::NvEntryView;
use crate::model::NvListView;
use crate::model::NvValueView;
use crate::views::list_view;
use crate::views::pair_view;
use crate::views::pairs_view;
use crate::nvlist::NvList;
use crate::nvlist::NvPair;
use crate::nvlist::NvValue;
use crate::common::NvDecodeErr;
use crate::common::NvType;
use crate::common::NV_NAME_MAX;
use crate::nvlist::NvFlag;

verus! {

broadcast use
    vstd::std_specs::vec::group_vec_axioms,
    vstd::slice::group_slice_axioms,
    crate::views::lemma_view_is_list_view,
    crate::views::lemma_pairs_view_props,
    crate::views::lemma_strings_view_props,
    crate::views::lemma_lists_view_props,
;

/// The byte standing for a boolean on the wire.
pub open spec fn enc_bool(b: bool) -> u8 {
    if b {
        1
    } else {
        0
    }
}

/// The wire form of a sequence of booleans: one byte each.
pub open spec fn enc_bools(a: Seq<bool>) -> Seq<u8>
    decreases a.len(),
{
    if a.len() == 0 {
        Seq::empty()
    } else {
        seq![enc_bool(a[0])] + enc_bools(a.drop_first())
    }
}

/// The wire form of a sequence of 64-bit numbers: eight bytes each,
/// little-endian.
pub open spec fn enc_numbers(a: Seq<u64>) -> Seq<u8>
    decreases a.len(),
{
    if a.len() == 0 {
        Seq::empty()
    } else {
        spec_u64_to_le_bytes(a[0]) + enc_numbers(a.drop_first())
    }
}

/// The wire form of one string: its UTF-8 byte count as a 64-bit
/// little-endian prefix, then its UTF-8 bytes.
pub open spec fn enc_string(s: Seq<char>) -> Seq<u8> {
    spec_u64_to_le_bytes(encode_utf8(s).len() as u64) + encode_utf8(s)
}

/// The wire form of a sequence of strings.
pub open spec fn enc_strings(a: Seq<Seq<char>>) -> Seq<u8>
    decreases a.len(),
{
    if a.len() == 0 {
        Seq::empty()
    } else {
        enc_string(a[0]) + enc_strings(a.drop_first())
    }
}

/// The wire form of a sequence of nested lists.
pub open spec fn enc_lists(a: Seq<NvListView>) -> Seq<u8>
    decreases a,
{
    if a.len() == 0 {
        Seq::empty()
    } else {
        enc_list(a[0]) + enc_lists(a.drop_first())
    }
}

/// The wire form of one value, without its record header.
pub open spec fn enc_value(v: NvValueView) -> Seq<u8>
    decreases v,
{
    match v {
        NvValueView::Null => Seq::empty(),
        NvValueView::Bool(b) => seq![enc_bool(b)],
        NvValueView::Number(n) => spec_u64_to_le_bytes(n),
        NvValueView::Str(s) => enc_string(s),
        NvValueView::List(l) => enc_list(l),
        NvValueView::Descriptor(d) => spec_u64_to_le_bytes(d),
        NvValueView::Binary(b) => spec_u64_to_le_bytes(b.len() as u64) + b,
        NvValueView::BoolArray(a) => spec_u64_to_le_bytes(a.len() as u64) + enc_bools(a),
        NvValueView::NumberArray(a) => spec_u64_to_le_bytes(a.len() as u64) + enc_numbers(a),
        NvValueView::StrArray(a) => spec_u64_to_le_bytes(a.len() as u64) + enc_strings(a),
        NvValueView::ListArray(a) => spec_u64_to_le_bytes(a.len() as u64) + enc_lists(a),
        NvValueView::DescriptorArray(a) => spec_u64_to_le_bytes(a.len() as u64) + enc_numbers(a),
    }
}

/// The wire form of one record: type tag, name length, name bytes, payload.
pub open spec fn enc_entry(e: NvEntryView) -> Seq<u8>
    decreases e,
{
    seq![e.value.tag().code_spec()] + spec_u16_to_le_bytes(name_byte_len(e.name) as u16)
        + encode_utf8(e.name) + enc_value(e.value)
}

/// The wire form of a run of records.
pub open spec fn enc_entries(es: Seq<NvEntryView>) -> Seq<u8>
    decreases es,
{
    if es.len() == 0 {
        Seq::empty()
    } else {
        enc_entry(es[0]) + enc_entries(es.drop_first())
    }
}

/// The wire form of a whole list: its flags code, its records in insertion
/// order, and the zero end marker.
pub open spec fn enc_list(l: NvListView) -> Seq<u8>
    decreases l,
{
    seq![l.flags.code_spec()] + enc_entries(l.entries) + seq![0u8]
}

/// Appending an entry appends its record bytes.
pub proof fn lemma_enc_entries_push(es: Seq<NvEntryView>, e: NvEntryView)
    ensures
        enc_entries(es.push(e)) == enc_entries(es) + enc_entry(e),
    decreases es.len(),
{
    reveal_with_fuel(enc_entries, 3);
    let pushed = es.push(e);
    if es.len() == 0 {
        assert(pushed[0] == e);
        assert(pushed.drop_first() =~= Seq::<NvEntryView>::empty());
        assert(enc_entry(e) + Seq::<u8>::empty() =~= enc_entry(e));
        assert(Seq::<u8>::empty() + enc_entry(e) =~= enc_entry(e));
    } else {
        assert(pushed[0] == es[0]);
        assert(pushed.drop_first() =~= es.drop_first().push(e));
        lemma_enc_entries_push(es.drop_first(), e);
        assert(enc_entry(es[0]) + (enc_entries(es.drop_first()) + enc_entry(e)) =~= (enc_entry(
            es[0],
        ) + enc_entries(es.drop_first())) + enc_entry(e));
    }
    assert(enc_entries(es.push(e)) =~= enc_entries(es) + enc_entry(e));
}

/// Appending a boolean appends its byte.
pub proof fn lemma_enc_bools_push(a: Seq<bool>, b: bool)
    ensures
        enc_bools(a.push(b)) == enc_bools(a) + seq![enc_bool(b)],
    decreases a.len(),
{
    reveal_with_fuel(enc_bools, 3);
    let pushed = a.push(b);
    if a.len() == 0 {
        assert(pushed[0] == b);
        assert(pushed.drop_first() =~= Seq::<bool>::empty());
        assert(seq![enc_bool(b)] + Seq::<u8>::empty() =~= seq![enc_bool(b)]);
        assert(Seq::<u8>::empty() + seq![enc_bool(b)] =~= seq![enc_bool(b)]);
    } else {
        assert(pushed[0] == a[0]);
        assert(pushed.drop_first() =~= a.drop_first().push(b));
        lemma_enc_bools_push(a.drop_first(), b);
        assert(seq![enc_bool(a[0])] + (enc_bools(a.drop_first()) + seq![enc_bool(b)]) =~= (seq![
            enc_bool(a[0]),
        ] + enc_bools(a.drop_first())) + seq![enc_bool(b)]);
    }
    assert(enc_bools(a.push(b)) =~= enc_bools(a) + seq![enc_bool(b)]);
}

/// Appending a number appends its eight bytes.
pub proof fn lemma_enc_numbers_push(a: Seq<u64>, n: u64)
    ensures
        enc_numbers(a.push(n)) == enc_numbers(a) + spec_u64_to_le_bytes(n),
    decreases a.len(),
{
    reveal_with_fuel(enc_numbers, 3);
    let pushed = a.push(n);
    if a.len() == 0 {
        assert(pushed[0] == n);
        assert(pushed.drop_first() =~= Seq::<u64>::empty());
        assert(spec_u64_to_le_bytes(n) + Seq::<u8>::empty() =~= spec_u64_to_le_bytes(n));
        assert(Seq::<u8>::empty() + spec_u64_to_le_bytes(n) =~= spec_u64_to_le_bytes(n));
    } else {
        assert(pushed[0] == a[0]);
        assert(pushed.drop_first() =~= a.drop_first().push(n));
        lemma_enc_numbers_push(a.drop_first(), n);
        assert(spec_u64_to_le_bytes(a[0]) + (enc_numbers(a.drop_first()) + spec_u64_to_le_bytes(
            n,
        )) =~= (spec_u64_to_le_bytes(a[0]) + enc_numbers(a.drop_first())) + spec_u64_to_le_bytes(
            n,
        ));
    }
    assert(enc_numbers(a.push(n)) =~= enc_numbers(a) + spec_u64_to_le_bytes(n));
}

/// Appending a string appends its length-prefixed bytes.
pub proof fn lemma_enc_strings_push(a: Seq<Seq<char>>, s: Seq<char>)
    ensures
        enc_strings(a.push(s)) == enc_strings(a) + enc_string(s),
    decreases a.len(),
{
    reveal_with_fuel(enc_strings, 3);
    let pushed = a.push(s);
    if a.len() == 0 {
        assert(pushed[0] == s);
        assert(pushed.drop_first() =~= Seq::<Seq<char>>::empty());
        assert(enc_string(s) + Seq::<u8>::empty() =~= enc_string(s));
        assert(Seq::<u8>::empty() + enc_string(s) =~= enc_string(s));
    } else {
        assert(pushed[0] == a[0]);
        assert(pushed.drop_first() =~= a.drop_first().push(s));
        lemma_enc_strings_push(a.drop_first(), s);
        assert(enc_string(a[0]) + (enc_strings(a.drop_first()) + enc_string(s)) =~= (enc_string(
            a[0],
        ) + enc_strings(a.drop_first())) + enc_string(s));
    }
    assert(enc_strings(a.push(s)) =~= enc_strings(a) + enc_string(s));
}

/// Appending a nested list appends its encoding.
pub proof fn lemma_enc_lists_push(a: Seq<NvListView>, l: NvListView)
    ensures
        enc_lists(a.push(l)) == enc_lists(a) + enc_list(l),
    decreases a.len(),
{
    reveal_with_fuel(enc_lists, 3);
    let pushed = a.push(l);
    if a.len() == 0 {
        assert(pushed[0] == l);
        assert(pushed.drop_first() =~= Seq::<NvListView>::empty());
        assert(enc_list(l) + Seq::<u8>::empty() =~= enc_list(l));
        assert(Seq::<u8>::empty() + enc_list(l) =~= enc_list(l));
    } else {
        assert(pushed[0] == a[0]);
        assert(pushed.drop_first() =~= a.drop_first().push(l));
        lemma_enc_lists_push(a.drop_first(), l);
        assert(enc_list(a[0]) + (enc_lists(a.drop_first()) + enc_list(l)) =~= (enc_list(a[0])
            + enc_lists(a.drop_first())) + enc_list(l));
    }
    assert(enc_lists(a.push(l)) =~= enc_lists(a) + enc_list(l));
}

/// Writes a 16-bit number to the stream, little-endian.
fn write_u16(out: &mut Vec<u8>, x: u16)
    ensures
        final(out)@ == old(out)@ + spec_u16_to_le_bytes(x),
{
    let mut bytes = vstd::bytes::u16_to_le_bytes(x);
    out.append(&mut bytes);
}

/// Writes a 64-bit number to the stream, little-endian.
fn write_u64(out: &mut Vec<u8>, x: u64)
    ensures
        final(out)@ == old(out)@ + spec_u64_to_le_bytes(x),
{
    let mut bytes = vstd::bytes::u64_to_le_bytes(x);
    out.append(&mut bytes);
}

/// Writes a string's payload: its byte count, then its UTF-8 bytes.
fn write_string(out: &mut Vec<u8>, s: &str)
    ensures
        final(out)@ == old(out)@ + enc_string(s@),
        encode_utf8(s@).len() <= u64::MAX,
{
    let mut bytes = s.as_bytes_vec();
    write_u64(out, bytes.len() as u64);
    out.append(&mut bytes);
    proof {
        assert(final(out)@ == old(out)@ + enc_string(s@));
    }
}

/// Writes one value's payload to the stream.
fn write_value(out: &mut Vec<u8>, v: &NvValue)
    requires
        crate::views::value_view(*v).wf(),
    ensures
        final(out)@ == old(out)@ + enc_value(crate::views::value_view(*v)),
        value_sizes_ok(crate::views::value_view(*v)),
    decreases *v,
{
    match v {
        NvValue::Null => {
            proof {
                assert(old(out)@ + Seq::<u8>::empty() =~= old(out)@);
            }
        },
        NvValue::Bool(b) => {
            out.push(if *b {
                1
            } else {
                0
            });
            proof {
                assert(final(out)@ =~= old(out)@ + seq![enc_bool(*b)]);
            }
        },
        NvValue::Number(n) => {
            write_u64(out, *n);
        },
        NvValue::Str(s) => {
            write_string(out, s.as_str());
        },
        NvValue::List(l) => {
            write_list(out, l);
        },
        NvValue::Descriptor(d) => {
            write_u64(out, *d);
        },
        NvValue::Binary(b) => {
            write_u64(out, b.len() as u64);
            let mut bytes = vstd::slice::slice_to_vec(b.as_slice());
            out.append(&mut bytes);
        },
        NvValue::BoolArray(a) => {
            write_u64(out, a.len() as u64);
            let n = a.len();
            let mut i: usize = 0;
            while i < n
                invariant
                    n == a@.len(),
                    i <= n,
                    out@ == old(out)@ + spec_u64_to_le_bytes(n as u64) + enc_bools(
                        a@.subrange(0, i as int),
                    ),
                decreases n - i,
            {
                let ghost prefix = a@.subrange(0, i as int);
                out.push(if a[i] {
                    1
                } else {
                    0
                });
                proof {
                    assert(a@.subrange(0, i + 1 as int) =~= prefix.push(a@[i as int]));
                    lemma_enc_bools_push(prefix, a@[i as int]);
                    assert(out@ =~= old(out)@ + spec_u64_to_le_bytes(n as u64) + enc_bools(
                        a@.subrange(0, i + 1 as int),
                    ));
                }
                i += 1;
            }
            proof {
                assert(a@.subrange(0, n as int) =~= a@);
            }
        },
        NvValue::NumberArray(a) => {
            write_u64(out, a.len() as u64);
            write_numbers(out, a);
        },
        NvValue::StrArray(a) => {
            write_u64(out, a.len() as u64);
            let n = a.len();
            let mut i: usize = 0;
            while i < n
                invariant
                    n == a@.len(),
                    i <= n,
                    forall|j: int|
                        0 <= j < i ==> encode_utf8(
                            #[trigger] crate::views::strings_view(a@)[j],
                        ).len() <= u64::MAX,
                    out@ == old(out)@ + spec_u64_to_le_bytes(n as u64) + enc_strings(
                        crate::views::strings_view(a@).subrange(0, i as int),
                    ),
                decreases n - i,
            {
                let ghost prefix = crate::views::strings_view(a@).subrange(0, i as int);
                write_string(out, a[i].as_str());
                proof {
                    assert(crate::views::strings_view(a@).subrange(0, i + 1 as int) =~= prefix.push(
                        a@[i as int]@,
                    ));
                    lemma_enc_strings_push(prefix, a@[i as int]@);
                    assert(out@ =~= old(out)@ + spec_u64_to_le_bytes(n as u64) + enc_strings(
                        crate::views::strings_view(a@).subrange(0, i + 1 as int),
                    ));
                }
                i += 1;
            }
            proof {
                assert(crate::views::strings_view(a@).subrange(0, n as int)
                    =~= crate::views::strings_view(a@));
            }
        },
        NvValue::ListArray(a) => {
            write_u64(out, a.len() as u64);
            write_lists(out, a);
        },
        NvValue::DescriptorArray(a) => {
            write_u64(out, a.len() as u64);
            write_numbers(out, a);
        },
    }
}

/// Writes a run of nested-list encodings to the stream.
fn write_lists(out: &mut Vec<u8>, a: &Vec<NvList>)
    requires
        forall|i: int|
            0 <= i < a@.len() ==> (#[trigger] crate::views::lists_view(a@)[i]).wf(),
    ensures
        final(out)@ == old(out)@ + enc_lists(crate::views::lists_view(a@)),
        forall|i: int|
            0 <= i < a@.len() ==> list_sizes_ok(#[trigger] crate::views::lists_view(a@)[i]),
    decreases a@,
{
    let n = a.len();
    let mut i: usize = 0;
    while i < n
        invariant
            n == a@.len(),
            i <= n,
            forall|j: int|
                0 <= j < a@.len() ==> (#[trigger] crate::views::lists_view(a@)[j]).wf(),
            forall|j: int|
                0 <= j < i ==> list_sizes_ok(#[trigger] crate::views::lists_view(a@)[j]),
            out@ == old(out)@ + enc_lists(crate::views::lists_view(a@).subrange(0, i as int)),
        decreases n - i,
    {
        let ghost prefix = crate::views::lists_view(a@).subrange(0, i as int);
        proof {
            assert(decreases_to!(a@ => a@[i as int]));
            assert(crate::views::lists_view(a@)[i as int].wf());
        }
        write_list(out, &a[i]);
        proof {
            assert(crate::views::lists_view(a@).subrange(0, i + 1 as int) =~= prefix.push(
                list_view(a@[i as int]),
            ));
            lemma_enc_lists_push(prefix, list_view(a@[i as int]));
            assert(out@ =~= old(out)@ + enc_lists(
                crate::views::lists_view(a@).subrange(0, i + 1 as int),
            ));
        }
        i += 1;
    }
    proof {
        assert(crate::views::lists_view(a@).subrange(0, n as int) =~= crate::views::lists_view(
            a@,
        ));
    }
}

/// Writes a run of eight-byte little-endian numbers to the stream.
fn write_numbers(out: &mut Vec<u8>, a: &Vec<u64>)
    ensures
        final(out)@ == old(out)@ + enc_numbers(a@),
{
    let n = a.len();
    let mut i: usize = 0;
    while i < n
        invariant
            n == a@.len(),
            i <= n,
            out@ == old(out)@ + enc_numbers(a@.subrange(0, i as int)),
        decreases n - i,
    {
        let ghost prefix = a@.subrange(0, i as int);
        write_u64(out, a[i]);
        proof {
            assert(a@.subrange(0, i + 1 as int) =~= prefix.push(a@[i as int]));
            lemma_enc_numbers_push(prefix, a@[i as int]);
            assert(out@ =~= old(out)@ + enc_numbers(a@.subrange(0, i + 1 as int)));
        }
        i += 1;
    }
    proof {
        assert(a@.subrange(0, n as int) =~= a@);
    }
}

/// Writes one record to the stream: tag, name length, name, payload.
fn write_pair(out: &mut Vec<u8>, p: &NvPair)
    requires
        pair_view(*p).wf(),
    ensures
        final(out)@ == old(out)@ + enc_entry(pair_view(*p)),
        value_sizes_ok(pair_view(*p).value),
    decreases *p,
{
    out.push(p.value.tag().code());
    let name_bytes = p.name.as_str().as_bytes_vec();
    write_u16(out, name_bytes.len() as u16);
    let mut nb = name_bytes;
    out.append(&mut nb);
    proof {
        assert(decreases_to!(*p => p.value));
    }
    write_value(out, &p.value);
    proof {
        assert(final(out)@ =~= old(out)@ + enc_entry(pair_view(*p)));
    }
}

/// Writes a whole list to the stream: flags code, records, end marker.
fn write_list(out: &mut Vec<u8>, l: &NvList)
    requires
        list_view(*l).wf(),
    ensures
        final(out)@ == old(out)@ + enc_list(list_view(*l)),
        list_sizes_ok(list_view(*l)),
    decreases *l,
{
    out.push(l.flags.code());
    let n = l.entries.len();
    let mut i: usize = 0;
    while i < n
        invariant
            n == l.entries@.len(),
            i <= n,
            list_view(*l).wf(),
            forall|j: int|
                0 <= j < i ==> value_sizes_ok(
                    (#[trigger] pairs_view(l.entries@)[j]).value,
                ),
            out@ == old(out)@ + seq![l.flags.code_spec()] + enc_entries(
                pairs_view(l.entries@).subrange(0, i as int),
            ),
        decreases n - i,
    {
        let ghost prefix = pairs_view(l.entries@).subrange(0, i as int);
        proof {
            assert(decreases_to!(*l => l.entries@[i as int]));
            assert(list_view(*l).entries[i as int].wf());
        }
        write_pair(out, &l.entries[i]);
        proof {
            assert(pairs_view(l.entries@).subrange(0, i + 1 as int) =~= prefix.push(
                pair_view(l.entries@[i as int]),
            ));
            lemma_enc_entries_push(prefix, pair_view(l.entries@[i as int]));
            assert(out@ =~= old(out)@ + seq![l.flags.code_spec()] + enc_entries(
                pairs_view(l.entries@).subrange(0, i + 1 as int),
            ));
        }
        i += 1;
    }
    out.push(0);
    proof {
        assert(pairs_view(l.entries@).subrange(0, n as int) =~= pairs_view(l.entries@));
        assert(final(out)@ =~= old(out)@ + enc_list(list_view(*l)));
    }
}

impl NvList {
    /// Serializes the list to a byte stream: each entry in insertion order
    /// as a tagged, name-carrying record, nested lists recursively. The
    /// sticky error code is not written. The invalid sentinel serializes to
    /// nothing.
    pub fn dump(&self) -> (out: Vec<u8>)
        requires
            self@.wf(),
        ensures
            self@.valid ==> out@ == enc_list(self@) && list_sizes_ok(self@),
            !self@.valid ==> out@ == Seq::<u8>::empty(),
    {
        let mut out: Vec<u8> = Vec::new();
        if self.valid {
            write_list(&mut out, self);
            proof {
                assert(Seq::<u8>::empty() + enc_list(self@) =~= enc_list(self@));
            }
        } else {
            proof {
                assert(out@ =~= Seq::<u8>::empty());
            }
        }
        out
    }

    /// The byte size of the list's serialized form, for pre-sizing buffers;
    /// saturates at the largest `i32`, and is zero on the invalid sentinel.
    pub fn len(&self) -> (r: i32)
        requires
            self@.wf(),
        ensures
            !self@.valid ==> r == 0,
            self@.valid ==> r == (if enc_list(self@).len() > i32::MAX {
                i32::MAX as int
            } else {
                enc_list(self@).len() as int
            }),
    {
        let bytes = self.dump();
        if bytes.len() > i32::MAX as usize {
            i32::MAX
        } else {
            bytes.len() as i32
        }
    }
}


/// One step of decoding: a decoded item with the position after it, or one
/// of the two failure conditions.
pub enum Decoded<T> {
    /// The item decoded at the given position, and the position just after
    /// its bytes.
    Found(T, int),
    /// The input is truncated, carries an unrecognized code, an over-long or
    /// ill-encoded name, or an ill-encoded payload.
    Corrupt,
    /// A length or count field claims more data than the input holds.
    Oversize,
}

/// The position decoding continues from after a sub-decode that reported
/// `p`: `p` itself whenever the sub-decode made progress and stayed within
/// the input, as every decoder does. The bounds exist only so that the
/// decoders are well defined on every argument.
pub open spec fn next_pos(pos: int, p: int, len: int) -> int {
    if p <= pos {
        pos + 1
    } else if p > len {
        len
    } else {
        p
    }
}

/// Decodes a 16-bit little-endian number.
pub open spec fn dec_u16(bytes: Seq<u8>, pos: int) -> Decoded<u16> {
    if 0 <= pos && pos + 2 <= bytes.len() {
        Decoded::Found(
            vstd::bytes::spec_u16_from_le_bytes(bytes.subrange(pos, pos + 2)),
            pos + 2,
        )
    } else {
        Decoded::Corrupt
    }
}

/// Decodes a 64-bit little-endian number.
pub open spec fn dec_u64(bytes: Seq<u8>, pos: int) -> Decoded<u64> {
    if 0 <= pos && pos + 8 <= bytes.len() {
        Decoded::Found(
            vstd::bytes::spec_u64_from_le_bytes(bytes.subrange(pos, pos + 8)),
            pos + 8,
        )
    } else {
        Decoded::Corrupt
    }
}

/// Decodes a run of booleans, one byte each; any byte but zero or one is
/// ill-encoded.
pub open spec fn dec_bools(bytes: Seq<u8>, pos: int, count: nat) -> Decoded<Seq<bool>>
    decreases count,
{
    if count == 0 {
        Decoded::Found(Seq::empty(), pos)
    } else if 0 <= pos && pos < bytes.len() && bytes[pos] <= 1 {
        match dec_bools(bytes, pos + 1, (count - 1) as nat) {
            Decoded::Found(rest, p) => Decoded::Found(seq![bytes[pos] == 1] + rest, p),
            Decoded::Corrupt => Decoded::Corrupt,
            Decoded::Oversize => Decoded::Oversize,
        }
    } else {
        Decoded::Corrupt
    }
}

/// Decodes a run of 64-bit little-endian numbers.
pub open spec fn dec_numbers(bytes: Seq<u8>, pos: int, count: nat) -> Decoded<Seq<u64>>
    decreases count,
{
    if count == 0 {
        Decoded::Found(Seq::empty(), pos)
    } else {
        match dec_u64(bytes, pos) {
            Decoded::Found(n, p) => match dec_numbers(bytes, p, (count - 1) as nat) {
                Decoded::Found(rest, p2) => Decoded::Found(seq![n] + rest, p2),
                Decoded::Corrupt => Decoded::Corrupt,
                Decoded::Oversize => Decoded::Oversize,
            },
            Decoded::Corrupt => Decoded::Corrupt,
            Decoded::Oversize => Decoded::Oversize,
        }
    }
}

/// Decodes one string: its byte count, then that many UTF-8 bytes.
pub open spec fn dec_string(bytes: Seq<u8>, pos: int) -> Decoded<Seq<char>> {
    match dec_u64(bytes, pos) {
        Decoded::Found(len, p) => if p + len > bytes.len() {
            Decoded::Oversize
        } else {
            let sub = bytes.subrange(p, p + len);
            if vstd::utf8::valid_utf8(sub) {
                Decoded::Found(vstd::utf8::decode_utf8(sub), p + len)
            } else {
                Decoded::Corrupt
            }
        },
        Decoded::Corrupt => Decoded::Corrupt,
        Decoded::Oversize => Decoded::Oversize,
    }
}

/// Decodes a run of strings.
pub open spec fn dec_strings(bytes: Seq<u8>, pos: int, count: nat) -> Decoded<Seq<Seq<char>>>
    decreases count,
{
    if count == 0 {
        Decoded::Found(Seq::empty(), pos)
    } else {
        match dec_string(bytes, pos) {
            Decoded::Found(s, p) => match dec_strings(bytes, p, (count - 1) as nat) {
                Decoded::Found(rest, p2) => Decoded::Found(seq![s] + rest, p2),
                Decoded::Corrupt => Decoded::Corrupt,
                Decoded::Oversize => Decoded::Oversize,
            },
            Decoded::Corrupt => Decoded::Corrupt,
            Decoded::Oversize => Decoded::Oversize,
        }
    }
}

/// Decodes one value's payload, given its record's tag.
pub open spec fn dec_value(bytes: Seq<u8>, pos: int, t: NvType) -> Decoded<NvValueView>
    decreases bytes.len() - pos, 5int,
{
    match t {
        NvType::Empty => Decoded::Corrupt,
        NvType::Null => Decoded::Found(NvValueView::Null, pos),
        NvType::Bool => if 0 <= pos && pos < bytes.len() && bytes[pos] <= 1 {
            Decoded::Found(NvValueView::Bool(bytes[pos] == 1), pos + 1)
        } else {
            Decoded::Corrupt
        },
        NvType::Number => match dec_u64(bytes, pos) {
            Decoded::Found(n, p) => Decoded::Found(NvValueView::Number(n), p),
            _ => Decoded::Corrupt,
        },
        NvType::String => match dec_string(bytes, pos) {
            Decoded::Found(s, p) => Decoded::Found(NvValueView::Str(s), p),
            Decoded::Corrupt => Decoded::Corrupt,
            Decoded::Oversize => Decoded::Oversize,
        },
        NvType::NvList => match dec_list(bytes, pos) {
            Decoded::Found(l, p) => Decoded::Found(NvValueView::List(l), p),
            Decoded::Corrupt => Decoded::Corrupt,
            Decoded::Oversize => Decoded::Oversize,
        },
        NvType::Descriptor => match dec_u64(bytes, pos) {
            Decoded::Found(n, p) => Decoded::Found(NvValueView::Descriptor(n), p),
            _ => Decoded::Corrupt,
        },
        NvType::Binary => match dec_u64(bytes, pos) {
            Decoded::Found(len, p) => if p + len > bytes.len() {
                Decoded::Oversize
            } else {
                Decoded::Found(NvValueView::Binary(bytes.subrange(p, p + len)), p + len)
            },
            _ => Decoded::Corrupt,
        },
        NvType::BoolArray => match dec_u64(bytes, pos) {
            Decoded::Found(count, p) => if p + count > bytes.len() {
                Decoded::Oversize
            } else {
                match dec_bools(bytes, p, count as nat) {
                    Decoded::Found(a, p2) => Decoded::Found(NvValueView::BoolArray(a), p2),
                    Decoded::Corrupt => Decoded::Corrupt,
                    Decoded::Oversize => Decoded::Oversize,
                }
            },
            _ => Decoded::Corrupt,
        },
        NvType::NumberArray => match dec_u64(bytes, pos) {
            Decoded::Found(count, p) => if p + 8 * count > bytes.len() {
                Decoded::Oversize
            } else {
                match dec_numbers(bytes, p, count as nat) {
                    Decoded::Found(a, p2) => Decoded::Found(NvValueView::NumberArray(a), p2),
                    Decoded::Corrupt => Decoded::Corrupt,
                    Decoded::Oversize => Decoded::Oversize,
                }
            },
            _ => Decoded::Corrupt,
        },
        NvType::StringArray => match dec_u64(bytes, pos) {
            Decoded::Found(count, p) => if p + 8 * count > bytes.len() {
                Decoded::Oversize
            } else {
                match dec_strings(bytes, p, count as nat) {
                    Decoded::Found(a, p2) => Decoded::Found(NvValueView::StrArray(a), p2),
                    Decoded::Corrupt => Decoded::Corrupt,
                    Decoded::Oversize => Decoded::Oversize,
                }
            },
            _ => Decoded::Corrupt,
        },
        NvType::NvListArray => match dec_u64(bytes, pos) {
            Decoded::Found(count, p) => if p + 2 * count > bytes.len() {
                Decoded::Oversize
            } else {
                match dec_lists_arr(bytes, next_pos(pos, p, bytes.len() as int), count as nat) {
                    Decoded::Found(a, p2) => Decoded::Found(NvValueView::ListArray(a), p2),
                    Decoded::Corrupt => Decoded::Corrupt,
                    Decoded::Oversize => Decoded::Oversize,
                }
            },
            _ => Decoded::Corrupt,
        },
        NvType::DescriptorArray => match dec_u64(bytes, pos) {
            Decoded::Found(count, p) => if p + 8 * count > bytes.len() {
                Decoded::Oversize
            } else {
                match dec_numbers(bytes, p, count as nat) {
                    Decoded::Found(a, p2) => Decoded::Found(NvValueView::DescriptorArray(a), p2),
                    Decoded::Corrupt => Decoded::Corrupt,
                    Decoded::Oversize => Decoded::Oversize,
                }
            },
            _ => Decoded::Corrupt,
        },
    }
}

/// Decodes a run of nested-list encodings.
pub open spec fn dec_lists_arr(bytes: Seq<u8>, pos: int, count: nat) -> Decoded<Seq<NvListView>>
    decreases bytes.len() - pos, 4int, count,
{
    if count == 0 {
        Decoded::Found(Seq::empty(), pos)
    } else if pos >= bytes.len() {
        Decoded::Corrupt
    } else {
        match dec_list(bytes, pos) {
            Decoded::Found(l, p) => {
                match dec_lists_arr(
                    bytes,
                    next_pos(pos, p, bytes.len() as int),
                    (count - 1) as nat,
                ) {
                    Decoded::Found(rest, p2) => Decoded::Found(seq![l] + rest, p2),
                    Decoded::Corrupt => Decoded::Corrupt,
                    Decoded::Oversize => Decoded::Oversize,
                }
            },
            Decoded::Corrupt => Decoded::Corrupt,
            Decoded::Oversize => Decoded::Oversize,
        }
    }
}

/// Decodes a whole list: its flags code, its records, its end marker.
pub open spec fn dec_list(bytes: Seq<u8>, pos: int) -> Decoded<NvListView>
    decreases bytes.len() - pos, 3int,
{
    if pos < 0 || pos >= bytes.len() {
        Decoded::Corrupt
    } else {
        match NvFlag::from_code_spec(bytes[pos]) {
            Some(f) => match dec_entries(bytes, pos + 1) {
                Decoded::Found(es, p) => Decoded::Found(
                    NvListView { valid: true, flags: f, error: 0, entries: es },
                    p,
                ),
                Decoded::Corrupt => Decoded::Corrupt,
                Decoded::Oversize => Decoded::Oversize,
            },
            None => Decoded::Corrupt,
        }
    }
}

/// Decodes a run of records up to and including the end marker.
pub open spec fn dec_entries(bytes: Seq<u8>, pos: int) -> Decoded<Seq<NvEntryView>>
    decreases bytes.len() - pos, 2int,
{
    if pos < 0 || pos >= bytes.len() {
        Decoded::Corrupt
    } else if bytes[pos] == 0 {
        Decoded::Found(Seq::empty(), pos + 1)
    } else {
        match dec_entry(bytes, pos) {
            Decoded::Found(e, p) => {
                match dec_entries(bytes, next_pos(pos, p, bytes.len() as int)) {
                    Decoded::Found(rest, p2) => Decoded::Found(seq![e] + rest, p2),
                    Decoded::Corrupt => Decoded::Corrupt,
                    Decoded::Oversize => Decoded::Oversize,
                }
            },
            Decoded::Corrupt => Decoded::Corrupt,
            Decoded::Oversize => Decoded::Oversize,
        }
    }
}

/// Decodes one record: tag, name length, name bytes, payload.
pub open spec fn dec_entry(bytes: Seq<u8>, pos: int) -> Decoded<NvEntryView>
    decreases bytes.len() - pos, 1int,
{
    if pos < 0 || pos >= bytes.len() {
        Decoded::Corrupt
    } else {
        match NvType::from_code_spec(bytes[pos]) {
            Some(NvType::Empty) => Decoded::Corrupt,
            Some(t) => match dec_u16(bytes, pos + 1) {
                Decoded::Found(nlen, p1) => if nlen > NV_NAME_MAX {
                    Decoded::Corrupt
                } else if p1 + nlen > bytes.len() {
                    Decoded::Oversize
                } else {
                    let nb = bytes.subrange(p1, p1 + nlen);
                    if vstd::utf8::valid_utf8(nb) {
                        match dec_value(bytes, p1 + nlen, t) {
                            Decoded::Found(v, p2) => Decoded::Found(
                                NvEntryView { name: vstd::utf8::decode_utf8(nb), value: v },
                                p2,
                            ),
                            Decoded::Corrupt => Decoded::Corrupt,
                            Decoded::Oversize => Decoded::Oversize,
                        }
                    } else {
                        Decoded::Corrupt
                    }
                },
                _ => Decoded::Corrupt,
            },
            None => Decoded::Corrupt,
        }
    }
}


/// Relies on `String::from_utf8` of std: it returns a string exactly when
/// the bytes are valid UTF-8, and that string decodes those bytes; stated
/// through vstd's own UTF-8 model.
#[verifier::external_body]
fn string_from_utf8(bytes: Vec<u8>) -> (r: Option<String>)
    ensures
        r is Some <==> vstd::utf8::valid_utf8(bytes@),
        r matches Some(s) ==> s@ == vstd::utf8::decode_utf8(bytes@),
{
    String::from_utf8(bytes).ok()
}

/// Reads a 16-bit little-endian number.
fn parse_u16(bytes: &[u8], pos: usize) -> (r: Option<(u16, usize)>)
    ensures
        match r {
            Some((x, p)) => dec_u16(bytes@, pos as int) == Decoded::<u16>::Found(x, p as int)
                && pos < p <= bytes@.len(),
            None => dec_u16(bytes@, pos as int) is Corrupt,
        },
{
    if pos <= bytes.len() && bytes.len() - pos >= 2 {
        let x = vstd::bytes::u16_from_le_bytes(&bytes[pos..pos + 2]);
        Some((x, pos + 2))
    } else {
        None
    }
}

/// Reads a 64-bit little-endian number.
fn parse_u64(bytes: &[u8], pos: usize) -> (r: Option<(u64, usize)>)
    ensures
        match r {
            Some((x, p)) => dec_u64(bytes@, pos as int) == Decoded::<u64>::Found(x, p as int)
                && pos < p <= bytes@.len(),
            None => dec_u64(bytes@, pos as int) is Corrupt,
        },
{
    if pos <= bytes.len() && bytes.len() - pos >= 8 {
        let x = vstd::bytes::u64_from_le_bytes(&bytes[pos..pos + 8]);
        Some((x, pos + 8))
    } else {
        None
    }
}

/// Reads one string: its byte count, then that many UTF-8 bytes.
fn parse_string(bytes: &[u8], pos: usize) -> (r: Result<(String, usize), NvDecodeErr>)
    ensures
        match dec_string(bytes@, pos as int) {
            Decoded::Found(sv, p) => r matches Ok((s, rp)) && s@ == sv && rp == p && pos < rp
                <= bytes@.len(),
            Decoded::Corrupt => r == Err::<(String, usize), NvDecodeErr>(NvDecodeErr::Corrupt),
            Decoded::Oversize => r == Err::<(String, usize), NvDecodeErr>(
                NvDecodeErr::MalformedLength,
            ),
        },
{
    match parse_u64(bytes, pos) {
        Some((len, p)) => {
            if len > (bytes.len() - p) as u64 {
                return Err(NvDecodeErr::MalformedLength);
            }
            let end = p + len as usize;
            let sub = vstd::slice::slice_to_vec(&bytes[p..end]);
            match string_from_utf8(sub) {
                Some(s) => Ok((s, end)),
                None => Err(NvDecodeErr::Corrupt),
            }
        },
        None => Err(NvDecodeErr::Corrupt),
    }
}

/// Reads a run of booleans, one byte each.
fn parse_bools(bytes: &[u8], pos: usize, count: usize) -> (r: Result<
    (Vec<bool>, usize),
    NvDecodeErr,
>)
    requires
        pos <= bytes@.len(),
    ensures
        match dec_bools(bytes@, pos as int, count as nat) {
            Decoded::Found(av, p) => r matches Ok((v, rp)) && v@ == av && rp == p && pos <= rp
                <= bytes@.len(),
            Decoded::Corrupt => r == Err::<(Vec<bool>, usize), NvDecodeErr>(NvDecodeErr::Corrupt),
            Decoded::Oversize => r == Err::<(Vec<bool>, usize), NvDecodeErr>(
                NvDecodeErr::MalformedLength,
            ),
        },
    decreases count,
{
    if count == 0 {
        let v: Vec<bool> = Vec::new();
        proof {
            assert(v@ =~= Seq::<bool>::empty());
        }
        return Ok((v, pos));
    }
    if pos >= bytes.len() {
        return Err(NvDecodeErr::Corrupt);
    }
    let b = bytes[pos];
    if b > 1 {
        return Err(NvDecodeErr::Corrupt);
    }
    match parse_bools(bytes, pos + 1, count - 1) {
        Ok((mut rest, p)) => {
            rest.insert(0, b == 1);
            proof {
                assert(rest@ =~= seq![bytes@[pos as int] == 1] + rest@.drop_first());
            }
            Ok((rest, p))
        },
        Err(e) => Err(e),
    }
}

/// Reads a run of 64-bit little-endian numbers.
fn parse_numbers(bytes: &[u8], pos: usize, count: usize) -> (r: Result<
    (Vec<u64>, usize),
    NvDecodeErr,
>)
    requires
        pos <= bytes@.len(),
    ensures
        match dec_numbers(bytes@, pos as int, count as nat) {
            Decoded::Found(av, p) => r matches Ok((v, rp)) && v@ == av && rp == p && pos <= rp
                <= bytes@.len(),
            Decoded::Corrupt => r == Err::<(Vec<u64>, usize), NvDecodeErr>(NvDecodeErr::Corrupt),
            Decoded::Oversize => r == Err::<(Vec<u64>, usize), NvDecodeErr>(
                NvDecodeErr::MalformedLength,
            ),
        },
    decreases count,
{
    if count == 0 {
        let v: Vec<u64> = Vec::new();
        proof {
            assert(v@ =~= Seq::<u64>::empty());
        }
        return Ok((v, pos));
    }
    match parse_u64(bytes, pos) {
        Some((n, p)) => match parse_numbers(bytes, p, count - 1) {
            Ok((mut rest, p2)) => {
                rest.insert(0, n);
                proof {
                    assert(rest@ =~= seq![n] + rest@.drop_first());
                }
                Ok((rest, p2))
            },
            Err(e) => Err(e),
        },
        None => Err(NvDecodeErr::Corrupt),
    }
}

/// Reads a run of strings.
fn parse_strings(bytes: &[u8], pos: usize, count: usize) -> (r: Result<
    (Vec<String>, usize),
    NvDecodeErr,
>)
    requires
        pos <= bytes@.len(),
    ensures
        match dec_strings(bytes@, pos as int, count as nat) {
            Decoded::Found(av, p) => r matches Ok((v, rp)) && crate::views::strings_view(v@) == av
                && rp == p && pos <= rp <= bytes@.len(),
            Decoded::Corrupt => r == Err::<(Vec<String>, usize), NvDecodeErr>(
                NvDecodeErr::Corrupt,
            ),
            Decoded::Oversize => r == Err::<(Vec<String>, usize), NvDecodeErr>(
                NvDecodeErr::MalformedLength,
            ),
        },
    decreases count,
{
    if count == 0 {
        let v: Vec<String> = Vec::new();
        proof {
            assert(crate::views::strings_view(v@) =~= Seq::<Seq<char>>::empty());
        }
        return Ok((v, pos));
    }
    match parse_string(bytes, pos) {
        Ok((s, p)) => match parse_strings(bytes, p, count - 1) {
            Ok((mut rest, p2)) => {
                let ghost tail = rest@;
                let ghost sv = s@;
                rest.insert(0, s);
                proof {
                    assert(crate::views::strings_view(rest@) =~= seq![sv]
                        + crate::views::strings_view(tail));
                }
                Ok((rest, p2))
            },
            Err(e) => Err(e),
        },
        Err(e) => Err(e),
    }
}


/// The count check `k * count > rem`, phrased as the division its caller
/// computes.
proof fn lemma_count_check(k: u64, count: u64, rem: u64)
    requires
        k > 0,
    ensures
        (k * count > rem) == (count > rem / k),
{
    if count > rem / k {
        assert(k * count >= k * (rem / k + 1)) by (nonlinear_arith)
            requires k > 0 && count >= rem / k + 1;
        assert(k * (rem / k) + k > rem) by (nonlinear_arith)
            requires k > 0;
        assert(k * (rem / k + 1) == k * (rem / k) + k) by (nonlinear_arith);
    } else {
        assert(k * count <= k * (rem / k)) by (nonlinear_arith)
            requires k > 0 && count <= rem / k;
        assert(k * (rem / k) <= rem) by (nonlinear_arith)
            requires k > 0;
    }
}

/// Reads a binary payload: its byte count, then that many raw bytes.
fn parse_binary_payload(bytes: &[u8], pos: usize) -> (r: Result<(Vec<u8>, usize), NvDecodeErr>)
    requires
        pos <= bytes@.len(),
    ensures
        match dec_u64(bytes@, pos as int) {
            Decoded::Found(len, p) => if p + len > bytes@.len() {
                r == Err::<(Vec<u8>, usize), NvDecodeErr>(NvDecodeErr::MalformedLength)
            } else {
                r matches Ok((v, rp)) && v@ == bytes@.subrange(p, p + len) && rp == p + len
                    && pos <= rp <= bytes@.len()
            },
            _ => r == Err::<(Vec<u8>, usize), NvDecodeErr>(NvDecodeErr::Corrupt),
        },
{
    match parse_u64(bytes, pos) {
        Some((len, p)) => {
            if len > (bytes.len() - p) as u64 {
                return Err(NvDecodeErr::MalformedLength);
            }
            let end = p + len as usize;
            let sub = vstd::slice::slice_to_vec(&bytes[p..end]);
            Ok((sub, end))
        },
        None => Err(NvDecodeErr::Corrupt),
    }
}

/// Reads a boolean-array payload: its element count, then that many bytes.
fn parse_bools_payload(bytes: &[u8], pos: usize) -> (r: Result<(Vec<bool>, usize), NvDecodeErr>)
    requires
        pos <= bytes@.len(),
    ensures
        match dec_u64(bytes@, pos as int) {
            Decoded::Found(count, p) => if p + count > bytes@.len() {
                r == Err::<(Vec<bool>, usize), NvDecodeErr>(NvDecodeErr::MalformedLength)
            } else {
                match dec_bools(bytes@, p, count as nat) {
                    Decoded::Found(av, p2) => r matches Ok((v, rp)) && v@ == av && rp == p2
                        && pos <= rp <= bytes@.len(),
                    Decoded::Corrupt => r == Err::<(Vec<bool>, usize), NvDecodeErr>(
                        NvDecodeErr::Corrupt,
                    ),
                    Decoded::Oversize => r == Err::<(Vec<bool>, usize), NvDecodeErr>(
                        NvDecodeErr::MalformedLength,
                    ),
                }
            },
            _ => r == Err::<(Vec<bool>, usize), NvDecodeErr>(NvDecodeErr::Corrupt),
        },
{
    match parse_u64(bytes, pos) {
        Some((count, p)) => {
            if count > (bytes.len() - p) as u64 {
                return Err(NvDecodeErr::MalformedLength);
            }
            parse_bools(bytes, p, count as usize)
        },
        None => Err(NvDecodeErr::Corrupt),
    }
}

/// Reads a number-array payload: its element count, then that many
/// eight-byte numbers.
fn parse_numbers_payload(bytes: &[u8], pos: usize) -> (r: Result<(Vec<u64>, usize), NvDecodeErr>)
    requires
        pos <= bytes@.len(),
    ensures
        match dec_u64(bytes@, pos as int) {
            Decoded::Found(count, p) => if p + 8 * count > bytes@.len() {
                r == Err::<(Vec<u64>, usize), NvDecodeErr>(NvDecodeErr::MalformedLength)
            } else {
                match dec_numbers(bytes@, p, count as nat) {
                    Decoded::Found(av, p2) => r matches Ok((v, rp)) && v@ == av && rp == p2
                        && pos <= rp <= bytes@.len(),
                    Decoded::Corrupt => r == Err::<(Vec<u64>, usize), NvDecodeErr>(
                        NvDecodeErr::Corrupt,
                    ),
                    Decoded::Oversize => r == Err::<(Vec<u64>, usize), NvDecodeErr>(
                        NvDecodeErr::MalformedLength,
                    ),
                }
            },
            _ => r == Err::<(Vec<u64>, usize), NvDecodeErr>(NvDecodeErr::Corrupt),
        },
{
    match parse_u64(bytes, pos) {
        Some((count, p)) => {
            let remaining = (bytes.len() - p) as u64;
            proof {
                lemma_count_check(8, count, remaining);
            }
            if count > remaining / 8 {
                return Err(NvDecodeErr::MalformedLength);
            }
            parse_numbers(bytes, p, count as usize)
        },
        None => Err(NvDecodeErr::Corrupt),
    }
}

/// Reads a string-array payload: its element count, then that many
/// length-prefixed strings.
fn parse_strings_payload(bytes: &[u8], pos: usize) -> (r: Result<
    (Vec<String>, usize),
    NvDecodeErr,
>)
    requires
        pos <= bytes@.len(),
    ensures
        match dec_u64(bytes@, pos as int) {
            Decoded::Found(count, p) => if p + 8 * count > bytes@.len() {
                r == Err::<(Vec<String>, usize), NvDecodeErr>(NvDecodeErr::MalformedLength)
            } else {
                match dec_strings(bytes@, p, count as nat) {
                    Decoded::Found(av, p2) => r matches Ok((v, rp))
                        && crate::views::strings_view(v@) == av && rp == p2 && pos <= rp
                        <= bytes@.len(),
                    Decoded::Corrupt => r == Err::<(Vec<String>, usize), NvDecodeErr>(
                        NvDecodeErr::Corrupt,
                    ),
                    Decoded::Oversize => r == Err::<(Vec<String>, usize), NvDecodeErr>(
                        NvDecodeErr::MalformedLength,
                    ),
                }
            },
            _ => r == Err::<(Vec<String>, usize), NvDecodeErr>(NvDecodeErr::Corrupt),
        },
{
    match parse_u64(bytes, pos) {
        Some((count, p)) => {
            let remaining = (bytes.len() - p) as u64;
            proof {
                lemma_count_check(8, count, remaining);
            }
            if count > remaining / 8 {
                return Err(NvDecodeErr::MalformedLength);
            }
            parse_strings(bytes, p, count as usize)
        },
        None => Err(NvDecodeErr::Corrupt),
    }
}

/// Reads one value's payload, given its record's tag.
#[verifier::rlimit(100)]
fn parse_value(bytes: &[u8], pos: usize, t: NvType) -> (r: Result<(NvValue, usize), NvDecodeErr>)
    requires
        pos <= bytes@.len(),
    ensures
        match dec_value(bytes@, pos as int, t) {
            Decoded::Found(vv, p) => r matches Ok((v, rp)) && crate::views::value_view(v) == vv
                && rp == p && pos <= rp <= bytes@.len(),
            Decoded::Corrupt => r == Err::<(NvValue, usize), NvDecodeErr>(NvDecodeErr::Corrupt),
            Decoded::Oversize => r == Err::<(NvValue, usize), NvDecodeErr>(
                NvDecodeErr::MalformedLength,
            ),
        },
    decreases bytes@.len() - pos, 5int,
{
    match t {
        NvType::Empty => Err(NvDecodeErr::Corrupt),
        NvType::Null => Ok((NvValue::Null, pos)),
        NvType::Bool => {
            if pos < bytes.len() {
                let b = bytes[pos];
                if b <= 1 {
                    Ok((NvValue::Bool(b == 1), pos + 1))
                } else {
                    Err(NvDecodeErr::Corrupt)
                }
            } else {
                Err(NvDecodeErr::Corrupt)
            }
        },
        NvType::Number => match parse_u64(bytes, pos) {
            Some((n, p)) => Ok((NvValue::Number(n), p)),
            None => Err(NvDecodeErr::Corrupt),
        },
        NvType::String => match parse_string(bytes, pos) {
            Ok((s, p)) => Ok((NvValue::Str(s), p)),
            Err(e) => Err(e),
        },
        NvType::NvList => match parse_list(bytes, pos) {
            Ok((l, p)) => Ok((NvValue::List(l), p)),
            Err(e) => Err(e),
        },
        NvType::Descriptor => match parse_u64(bytes, pos) {
            Some((n, p)) => Ok((NvValue::Descriptor(n), p)),
            None => Err(NvDecodeErr::Corrupt),
        },
        NvType::Binary => match parse_binary_payload(bytes, pos) {
            Ok((v, p2)) => Ok((NvValue::Binary(v), p2)),
            Err(e) => Err(e),
        },
        NvType::BoolArray => match parse_bools_payload(bytes, pos) {
            Ok((v, p2)) => Ok((NvValue::BoolArray(v), p2)),
            Err(e) => Err(e),
        },
        NvType::NumberArray => match parse_numbers_payload(bytes, pos) {
            Ok((v, p2)) => Ok((NvValue::NumberArray(v), p2)),
            Err(e) => Err(e),
        },
        NvType::StringArray => match parse_strings_payload(bytes, pos) {
            Ok((v, p2)) => Ok((NvValue::StrArray(v), p2)),
            Err(e) => Err(e),
        },
        NvType::NvListArray => match parse_u64(bytes, pos) {
            Some((count, p)) => {
                let remaining = (bytes.len() - p) as u64;
                proof {
                    lemma_count_check(2, count, remaining);
                }
                if count > remaining / 2 {
                    return Err(NvDecodeErr::MalformedLength);
                }
                proof {
                    assert(next_pos(pos as int, p as int, bytes@.len() as int) == p as int);
                }
                match parse_lists_arr(bytes, p, count as usize) {
                    Ok((v, p2)) => Ok((NvValue::ListArray(v), p2)),
                    Err(e) => Err(e),
                }
            },
            None => Err(NvDecodeErr::Corrupt),
        },
        NvType::DescriptorArray => match parse_numbers_payload(bytes, pos) {
            Ok((v, p2)) => Ok((NvValue::DescriptorArray(v), p2)),
            Err(e) => Err(e),
        },
    }
}

/// Reads a run of nested-list encodings.
fn parse_lists_arr(bytes: &[u8], pos: usize, count: usize) -> (r: Result<
    (Vec<NvList>, usize),
    NvDecodeErr,
>)
    requires
        pos <= bytes@.len(),
    ensures
        match dec_lists_arr(bytes@, pos as int, count as nat) {
            Decoded::Found(av, p) => r matches Ok((v, rp)) && crate::views::lists_view(v@) == av
                && rp == p && pos <= rp <= bytes@.len(),
            Decoded::Corrupt => r == Err::<(Vec<NvList>, usize), NvDecodeErr>(
                NvDecodeErr::Corrupt,
            ),
            Decoded::Oversize => r == Err::<(Vec<NvList>, usize), NvDecodeErr>(
                NvDecodeErr::MalformedLength,
            ),
        },
    decreases bytes@.len() - pos, 4int, count,
{
    if count == 0 {
        let v: Vec<NvList> = Vec::new();
        proof {
            assert(crate::views::lists_view(v@) =~= Seq::<NvListView>::empty());
        }
        return Ok((v, pos));
    }
    if pos >= bytes.len() {
        return Err(NvDecodeErr::Corrupt);
    }
    match parse_list(bytes, pos) {
        Ok((l, p)) => {
            proof {
                assert(next_pos(pos as int, p as int, bytes@.len() as int) == p as int);
            }
            match parse_lists_arr(bytes, p, count - 1) {
                Ok((mut rest, p2)) => {
                    let ghost tail = rest@;
                    let ghost lv = crate::views::list_view(l);
                    rest.insert(0, l);
                    proof {
                        assert(crate::views::lists_view(rest@) =~= seq![lv]
                            + crate::views::lists_view(tail));
                    }
                    Ok((rest, p2))
                },
                Err(e) => Err(e),
            }
        },
        Err(e) => Err(e),
    }
}

/// Reads a whole list: its flags code, its records, its end marker.
fn parse_list(bytes: &[u8], pos: usize) -> (r: Result<(NvList, usize), NvDecodeErr>)
    ensures
        match dec_list(bytes@, pos as int) {
            Decoded::Found(lv, p) => r matches Ok((l, rp)) && crate::views::list_view(l) == lv
                && rp == p && pos < rp <= bytes@.len(),
            Decoded::Corrupt => r == Err::<(NvList, usize), NvDecodeErr>(NvDecodeErr::Corrupt),
            Decoded::Oversize => r == Err::<(NvList, usize), NvDecodeErr>(
                NvDecodeErr::MalformedLength,
            ),
        },
    decreases bytes@.len() - pos, 3int,
{
    if pos >= bytes.len() {
        return Err(NvDecodeErr::Corrupt);
    }
    match NvFlag::from_code(bytes[pos]) {
        Some(f) => match parse_entries(bytes, pos + 1) {
            Ok((entries, p)) => {
                let l = NvList { valid: true, flags: f, error: 0, entries };
                Ok((l, p))
            },
            Err(e) => Err(e),
        },
        None => Err(NvDecodeErr::Corrupt),
    }
}

/// Reads a run of records up to and including the end marker.
fn parse_entries(bytes: &[u8], pos: usize) -> (r: Result<(Vec<NvPair>, usize), NvDecodeErr>)
    ensures
        match dec_entries(bytes@, pos as int) {
            Decoded::Found(es, p) => r matches Ok((v, rp)) && pairs_view(v@) == es && rp
                == p && pos < rp <= bytes@.len(),
            Decoded::Corrupt => r == Err::<(Vec<NvPair>, usize), NvDecodeErr>(
                NvDecodeErr::Corrupt,
            ),
            Decoded::Oversize => r == Err::<(Vec<NvPair>, usize), NvDecodeErr>(
                NvDecodeErr::MalformedLength,
            ),
        },
    decreases bytes@.len() - pos, 2int,
{
    if pos >= bytes.len() {
        return Err(NvDecodeErr::Corrupt);
    }
    if bytes[pos] == 0 {
        let v: Vec<NvPair> = Vec::new();
        proof {
            assert(pairs_view(v@) =~= Seq::<NvEntryView>::empty());
        }
        return Ok((v, pos + 1));
    }
    match parse_entry(bytes, pos) {
        Ok((pair, p)) => {
            proof {
                assert(next_pos(pos as int, p as int, bytes@.len() as int) == p as int);
            }
            match parse_entries(bytes, p) {
                Ok((mut rest, p2)) => {
                    let ghost tail = rest@;
                    let ghost pv = pair_view(pair);
                    rest.insert(0, pair);
                    proof {
                        assert(pairs_view(rest@) =~= seq![pv] + pairs_view(tail));
                    }
                    Ok((rest, p2))
                },
                Err(e) => Err(e),
            }
        },
        Err(e) => Err(e),
    }
}

/// Reads one record: tag, name length, name bytes, payload.
fn parse_entry(bytes: &[u8], pos: usize) -> (r: Result<(NvPair, usize), NvDecodeErr>)
    ensures
        match dec_entry(bytes@, pos as int) {
            Decoded::Found(e, p) => r matches Ok((pair, rp)) && pair_view(pair) == e && rp == p
                && pos < rp <= bytes@.len(),
            Decoded::Corrupt => r == Err::<(NvPair, usize), NvDecodeErr>(NvDecodeErr::Corrupt),
            Decoded::Oversize => r == Err::<(NvPair, usize), NvDecodeErr>(
                NvDecodeErr::MalformedLength,
            ),
        },
    decreases bytes@.len() - pos, 1int,
{
    if pos >= bytes.len() {
        return Err(NvDecodeErr::Corrupt);
    }
    let t = match NvType::from_code(bytes[pos]) {
        Some(t) => t,
        None => {
            return Err(NvDecodeErr::Corrupt);
        },
    };
    match t {
        NvType::Empty => Err(NvDecodeErr::Corrupt),
        _ => {
            match parse_u16(bytes, pos + 1) {
                Some((nlen, p1)) => {
                    if nlen > NV_NAME_MAX as u16 {
                        return Err(NvDecodeErr::Corrupt);
                    }
                    let nlen_us = nlen as usize;
                    if nlen_us > bytes.len() - p1 {
                        return Err(NvDecodeErr::MalformedLength);
                    }
                    let end = p1 + nlen_us;
                    let name_bytes = vstd::slice::slice_to_vec(&bytes[p1..end]);
                    match string_from_utf8(name_bytes) {
                        Some(name) => match parse_value(bytes, end, t) {
                            Ok((value, p2)) => Ok((NvPair { name, value }, p2)),
                            Err(e) => Err(e),
                        },
                        None => Err(NvDecodeErr::Corrupt),
                    }
                },
                None => Err(NvDecodeErr::Corrupt),
            }
        },
    }
}

/// Parses a byte stream back into a list: the inverse of
/// [`NvList::dump`]. Fails with [`NvDecodeErr::Corrupt`] on truncated
/// input, an unrecognized tag or flags code, an over-long or ill-encoded
/// name, an ill-encoded payload, or trailing bytes after the list, and with
/// [`NvDecodeErr::MalformedLength`] when a length or count field claims
/// more data than the input holds, so that a crafted length cannot force an
/// allocation beyond the input's own size. On success the list carries the
/// decoded flags and entries, and no sticky error.
pub fn parse(bytes: &[u8]) -> (r: Result<NvList, NvDecodeErr>)
    ensures
        match dec_list(bytes@, 0) {
            Decoded::Found(lv, p) => if p == bytes@.len() {
                r matches Ok(l) && l@ == lv
            } else {
                r == Err::<NvList, NvDecodeErr>(NvDecodeErr::Corrupt)
            },
            Decoded::Corrupt => r == Err::<NvList, NvDecodeErr>(NvDecodeErr::Corrupt),
            Decoded::Oversize => r == Err::<NvList, NvDecodeErr>(NvDecodeErr::MalformedLength),
        },
        r matches Ok(l) ==> l@.valid && l@.error == 0 && l@.wf(),
{
    proof {
        lemma_dec_list_wf(bytes@, 0);
    }
    match parse_list(bytes, 0) {
        Ok((l, p)) => {
            if p == bytes.len() {
                Ok(l)
            } else {
                Err(NvDecodeErr::Corrupt)
            }
        },
        Err(e) => Err(e),
    }
}


/// A value with every sticky error in reach cleared: what decoding an
/// encoding of the value yields, since error codes are not on the wire.
pub open spec fn scrub_value(v: NvValueView) -> NvValueView
    decreases v,
{
    match v {
        NvValueView::List(l) => NvValueView::List(scrub_list(l)),
        NvValueView::ListArray(ls) => NvValueView::ListArray(scrub_lists(ls)),
        _ => v,
    }
}

/// A sequence of lists with every sticky error in reach cleared.
pub open spec fn scrub_lists(ls: Seq<NvListView>) -> Seq<NvListView>
    decreases ls,
{
    if ls.len() == 0 {
        Seq::empty()
    } else {
        seq![scrub_list(ls[0])] + scrub_lists(ls.drop_first())
    }
}

/// An entry with every sticky error in reach cleared.
pub open spec fn scrub_entry(e: NvEntryView) -> NvEntryView
    decreases e,
{
    NvEntryView { name: e.name, value: scrub_value(e.value) }
}

/// A run of entries with every sticky error in reach cleared.
pub open spec fn scrub_entries(es: Seq<NvEntryView>) -> Seq<NvEntryView>
    decreases es,
{
    if es.len() == 0 {
        Seq::empty()
    } else {
        seq![scrub_entry(es[0])] + scrub_entries(es.drop_first())
    }
}

/// A list with its own and every nested sticky error cleared.
pub open spec fn scrub_list(l: NvListView) -> NvListView
    decreases l,
{
    NvListView { valid: true, flags: l.flags, error: 0, entries: scrub_entries(l.entries) }
}

/// Whether every length the wire carries for this value fits its 64-bit
/// field. Every list actually held in memory satisfies this; the bound only
/// excludes models beyond any machine.
pub open spec fn value_sizes_ok(v: NvValueView) -> bool
    decreases v,
{
    match v {
        NvValueView::Str(s) => encode_utf8(s).len() <= u64::MAX,
        NvValueView::Binary(b) => b.len() <= u64::MAX,
        NvValueView::BoolArray(a) => a.len() <= u64::MAX,
        NvValueView::NumberArray(a) => a.len() <= u64::MAX,
        NvValueView::DescriptorArray(a) => a.len() <= u64::MAX,
        NvValueView::StrArray(a) => a.len() <= u64::MAX && (forall|i: int|
            0 <= i < a.len() ==> encode_utf8(#[trigger] a[i]).len() <= u64::MAX),
        NvValueView::List(l) => list_sizes_ok(l),
        NvValueView::ListArray(ls) => ls.len() <= u64::MAX && (forall|i: int|
            0 <= i < ls.len() ==> list_sizes_ok(#[trigger] ls[i])),
        _ => true,
    }
}

/// Whether every length the wire carries for this list fits its field.
pub open spec fn list_sizes_ok(l: NvListView) -> bool
    decreases l,
{
    forall|i: int| 0 <= i < l.entries.len() ==> value_sizes_ok((#[trigger] l.entries[i]).value)
}

/// A boolean run encodes to one byte per element.
proof fn lemma_enc_bools_len(a: Seq<bool>)
    ensures
        enc_bools(a).len() == a.len(),
    decreases a.len(),
{
    if a.len() > 0 {
        lemma_enc_bools_len(a.drop_first());
    }
}

/// A number run encodes to eight bytes per element.
proof fn lemma_enc_numbers_len(a: Seq<u64>)
    ensures
        enc_numbers(a).len() == 8 * a.len(),
    decreases a.len(),
{
    vstd::bytes::lemma_auto_spec_u64_to_from_le_bytes();
    if a.len() > 0 {
        lemma_enc_numbers_len(a.drop_first());
    }
}

/// A string run encodes to at least eight bytes per element.
proof fn lemma_enc_strings_len(a: Seq<Seq<char>>)
    ensures
        enc_strings(a).len() >= 8 * a.len(),
    decreases a.len(),
{
    vstd::bytes::lemma_auto_spec_u64_to_from_le_bytes();
    if a.len() > 0 {
        lemma_enc_strings_len(a.drop_first());
    }
}

/// A list run encodes to at least two bytes per element.
proof fn lemma_enc_lists_len(a: Seq<NvListView>)
    ensures
        enc_lists(a).len() >= 2 * a.len(),
    decreases a.len(),
{
    if a.len() > 0 {
        lemma_enc_list_len(a[0]);
        lemma_enc_lists_len(a.drop_first());
    }
}

/// A list encodes to at least two bytes: its flags code and end marker.
proof fn lemma_enc_list_len(l: NvListView)
    ensures
        enc_list(l).len() >= 2,
{
}

/// Splitting a window known to hold a concatenation.
proof fn lemma_split_concat(bytes: Seq<u8>, pos: int, a: Seq<u8>, b: Seq<u8>)
    requires
        0 <= pos,
        pos + a.len() + b.len() <= bytes.len(),
        bytes.subrange(pos, pos + a.len() + b.len()) == a + b,
    ensures
        bytes.subrange(pos, pos + a.len()) == a,
        bytes.subrange(pos + a.len(), pos + a.len() + b.len()) == b,
{
    let whole = bytes.subrange(pos, pos + a.len() + b.len());
    assert(bytes.subrange(pos, pos + a.len()) =~= a) by {
        assert forall|i: int| 0 <= i < a.len() implies bytes.subrange(pos, pos + a.len())[i]
            == a[i] by {
            assert(bytes.subrange(pos, pos + a.len())[i] == bytes[pos + i]);
            assert(whole[i] == bytes[pos + i]);
            assert((a + b)[i] == a[i]);
        }
    }
    assert(bytes.subrange(pos + a.len(), pos + a.len() + b.len()) =~= b) by {
        assert forall|i: int|
            0 <= i < b.len() implies bytes.subrange(pos + a.len(), pos + a.len() + b.len())[i]
            == b[i] by {
            assert(bytes.subrange(pos + a.len(), pos + a.len() + b.len())[i] == bytes[pos + a.len()
                + i]);
            assert(whole[a.len() + i] == bytes[pos + a.len() + i]);
            assert((a + b)[a.len() + i] == b[i]);
        }
    }
}

/// Reading back a 16-bit number written little-endian.
proof fn lemma_read_u16(bytes: Seq<u8>, pos: int, x: u16)
    requires
        0 <= pos,
        pos + 2 <= bytes.len(),
        bytes.subrange(pos, pos + 2) == spec_u16_to_le_bytes(x),
    ensures
        dec_u16(bytes, pos) == Decoded::<u16>::Found(x, pos + 2),
{
    vstd::bytes::lemma_auto_spec_u16_to_from_le_bytes();
    assert(spec_u16_to_le_bytes(x).len() == 2);
    assert(vstd::bytes::spec_u16_from_le_bytes(spec_u16_to_le_bytes(x)) == x);
    assert(vstd::bytes::spec_u16_from_le_bytes(bytes.subrange(pos, pos + 2)) == x);
}

/// Reading back a 64-bit number written little-endian.
proof fn lemma_read_u64(bytes: Seq<u8>, pos: int, x: u64)
    requires
        0 <= pos,
        pos + 8 <= bytes.len(),
        bytes.subrange(pos, pos + 8) == spec_u64_to_le_bytes(x),
    ensures
        dec_u64(bytes, pos) == Decoded::<u64>::Found(x, pos + 8),
{
    vstd::bytes::lemma_auto_spec_u64_to_from_le_bytes();
    assert(spec_u64_to_le_bytes(x).len() == 8);
    assert(vstd::bytes::spec_u64_from_le_bytes(spec_u64_to_le_bytes(x)) == x);
    assert(vstd::bytes::spec_u64_from_le_bytes(bytes.subrange(pos, pos + 8)) == x);
}

/// Decoding an encoded boolean run yields it back.
proof fn lemma_dec_enc_bools(bytes: Seq<u8>, pos: int, a: Seq<bool>)
    requires
        0 <= pos,
        pos + enc_bools(a).len() <= bytes.len(),
        bytes.subrange(pos, pos + enc_bools(a).len()) == enc_bools(a),
    ensures
        dec_bools(bytes, pos, a.len()) == Decoded::<Seq<bool>>::Found(a, pos + a.len()),
    decreases a.len(),
{
    lemma_enc_bools_len(a);
    if a.len() == 0 {
        assert(dec_bools(bytes, pos, 0) == Decoded::<Seq<bool>>::Found(Seq::<bool>::empty(), pos));
        assert(a =~= Seq::<bool>::empty());
    } else {
        let tail = a.drop_first();
        lemma_enc_bools_len(tail);
        lemma_split_concat(bytes, pos, seq![enc_bool(a[0])], enc_bools(tail));
        assert(bytes[pos] == enc_bool(a[0])) by {
            assert(bytes.subrange(pos, pos + 1)[0] == seq![enc_bool(a[0])][0]);
        }
        lemma_dec_enc_bools(bytes, pos + 1, tail);
        assert(bytes[pos] <= 1);
        assert((bytes[pos] == 1) == a[0]);
        assert(seq![a[0]] + tail =~= a);
    }
}

/// Decoding an encoded number run yields it back.
proof fn lemma_dec_enc_numbers(bytes: Seq<u8>, pos: int, a: Seq<u64>)
    requires
        0 <= pos,
        pos + enc_numbers(a).len() <= bytes.len(),
        bytes.subrange(pos, pos + enc_numbers(a).len()) == enc_numbers(a),
    ensures
        dec_numbers(bytes, pos, a.len()) == Decoded::<Seq<u64>>::Found(a, pos + 8 * a.len()),
    decreases a.len(),
{
    lemma_enc_numbers_len(a);
    if a.len() == 0 {
        assert(a =~= Seq::<u64>::empty());
    } else {
        let tail = a.drop_first();
        lemma_enc_numbers_len(tail);
        vstd::bytes::lemma_auto_spec_u64_to_from_le_bytes();
        lemma_split_concat(bytes, pos, spec_u64_to_le_bytes(a[0]), enc_numbers(tail));
        lemma_read_u64(bytes, pos, a[0]);
        lemma_dec_enc_numbers(bytes, pos + 8, tail);
        assert(seq![a[0]] + tail =~= a);
    }
}

/// Decoding an encoded string yields it back.
proof fn lemma_dec_enc_string(bytes: Seq<u8>, pos: int, s: Seq<char>)
    requires
        0 <= pos,
        encode_utf8(s).len() <= u64::MAX,
        pos + enc_string(s).len() <= bytes.len(),
        bytes.subrange(pos, pos + enc_string(s).len()) == enc_string(s),
    ensures
        dec_string(bytes, pos) == Decoded::<Seq<char>>::Found(s, pos + enc_string(s).len()),
{
    let eb = encode_utf8(s);
    vstd::bytes::lemma_auto_spec_u64_to_from_le_bytes();
    lemma_split_concat(bytes, pos, spec_u64_to_le_bytes(eb.len() as u64), eb);
    lemma_read_u64(bytes, pos, eb.len() as u64);
    assert(bytes.subrange(pos + 8, pos + 8 + eb.len()) == eb);
    vstd::utf8::encode_utf8_valid_utf8(s);
    vstd::utf8::encode_utf8_decode_utf8(s);
}

/// Decoding an encoded string run yields it back.
proof fn lemma_dec_enc_strings(bytes: Seq<u8>, pos: int, a: Seq<Seq<char>>)
    requires
        0 <= pos,
        forall|i: int| 0 <= i < a.len() ==> encode_utf8(#[trigger] a[i]).len() <= u64::MAX,
        pos + enc_strings(a).len() <= bytes.len(),
        bytes.subrange(pos, pos + enc_strings(a).len()) == enc_strings(a),
    ensures
        dec_strings(bytes, pos, a.len()) == Decoded::<Seq<Seq<char>>>::Found(
            a,
            pos + enc_strings(a).len(),
        ),
    decreases a.len(),
{
    if a.len() == 0 {
        assert(a =~= Seq::<Seq<char>>::empty());
    } else {
        let tail = a.drop_first();
        assert(forall|i: int|
            0 <= i < tail.len() ==> encode_utf8(#[trigger] tail[i]).len() <= u64::MAX) by {
            assert(forall|i: int| 0 <= i < tail.len() ==> tail[i] == a[i + 1]);
        }
        lemma_split_concat(bytes, pos, enc_string(a[0]), enc_strings(tail));
        lemma_dec_enc_string(bytes, pos, a[0]);
        lemma_dec_enc_strings(bytes, pos + enc_string(a[0]).len(), tail);
        assert(seq![a[0]] + tail =~= a);
    }
}


/// Decoding an encoded value yields it back, errors cleared.
proof fn lemma_dec_enc_value(bytes: Seq<u8>, pos: int, v: NvValueView)
    requires
        v.wf(),
        value_sizes_ok(v),
        0 <= pos,
        pos + enc_value(v).len() <= bytes.len(),
        bytes.subrange(pos, pos + enc_value(v).len()) == enc_value(v),
    ensures
        dec_value(bytes, pos, v.tag()) == Decoded::<NvValueView>::Found(
            scrub_value(v),
            pos + enc_value(v).len(),
        ),
    decreases v,
{
    match v {
        NvValueView::Null => {
        },
        NvValueView::Bool(b) => {
            assert(bytes[pos] == enc_bool(b)) by {
                assert(bytes.subrange(pos, pos + 1)[0] == enc_bool(b));
            }
        },
        NvValueView::Number(n) => {
            vstd::bytes::lemma_auto_spec_u64_to_from_le_bytes();
            assert(spec_u64_to_le_bytes(n).len() == 8);
            lemma_read_u64(bytes, pos, n);
        },
        NvValueView::Descriptor(d) => {
            vstd::bytes::lemma_auto_spec_u64_to_from_le_bytes();
            assert(spec_u64_to_le_bytes(d).len() == 8);
            lemma_read_u64(bytes, pos, d);
        },
        NvValueView::Str(s) => {
            lemma_dec_enc_string(bytes, pos, s);
        },
        NvValueView::List(l) => {
            lemma_dec_enc_list(bytes, pos, l);
        },
        NvValueView::Binary(b) => {
            vstd::bytes::lemma_auto_spec_u64_to_from_le_bytes();
            let lenb = spec_u64_to_le_bytes(b.len() as u64);
            assert(lenb.len() == 8);
            lemma_split_concat(bytes, pos, lenb, b);
            lemma_read_u64(bytes, pos, b.len() as u64);
        },
        NvValueView::BoolArray(a) => {
            vstd::bytes::lemma_auto_spec_u64_to_from_le_bytes();
            let lenb = spec_u64_to_le_bytes(a.len() as u64);
            assert(lenb.len() == 8);
            lemma_enc_bools_len(a);
            lemma_split_concat(bytes, pos, lenb, enc_bools(a));
            lemma_read_u64(bytes, pos, a.len() as u64);
            lemma_dec_enc_bools(bytes, pos + 8, a);
        },
        NvValueView::NumberArray(a) => {
            vstd::bytes::lemma_auto_spec_u64_to_from_le_bytes();
            let lenb = spec_u64_to_le_bytes(a.len() as u64);
            assert(lenb.len() == 8);
            lemma_enc_numbers_len(a);
            lemma_split_concat(bytes, pos, lenb, enc_numbers(a));
            lemma_read_u64(bytes, pos, a.len() as u64);
            lemma_dec_enc_numbers(bytes, pos + 8, a);
        },
        NvValueView::DescriptorArray(a) => {
            vstd::bytes::lemma_auto_spec_u64_to_from_le_bytes();
            let lenb = spec_u64_to_le_bytes(a.len() as u64);
            assert(lenb.len() == 8);
            lemma_enc_numbers_len(a);
            lemma_split_concat(bytes, pos, lenb, enc_numbers(a));
            lemma_read_u64(bytes, pos, a.len() as u64);
            lemma_dec_enc_numbers(bytes, pos + 8, a);
        },
        NvValueView::StrArray(a) => {
            vstd::bytes::lemma_auto_spec_u64_to_from_le_bytes();
            let lenb = spec_u64_to_le_bytes(a.len() as u64);
            assert(lenb.len() == 8);
            lemma_enc_strings_len(a);
            lemma_split_concat(bytes, pos, lenb, enc_strings(a));
            lemma_read_u64(bytes, pos, a.len() as u64);
            lemma_dec_enc_strings(bytes, pos + 8, a);
        },
        NvValueView::ListArray(ls) => {
            vstd::bytes::lemma_auto_spec_u64_to_from_le_bytes();
            let lenb = spec_u64_to_le_bytes(ls.len() as u64);
            assert(lenb.len() == 8);
            lemma_enc_lists_len(ls);
            lemma_split_concat(bytes, pos, lenb, enc_lists(ls));
            lemma_read_u64(bytes, pos, ls.len() as u64);
            assert(next_pos(pos, pos + 8, bytes.len() as int) == pos + 8);
            lemma_dec_enc_lists_arr(bytes, pos + 8, ls);
        },
    }
}

/// Decoding an encoded run of nested lists yields them back.
proof fn lemma_dec_enc_lists_arr(bytes: Seq<u8>, pos: int, ls: Seq<NvListView>)
    requires
        forall|i: int|
            0 <= i < ls.len() ==> (#[trigger] ls[i]).valid && ls[i].wf() && list_sizes_ok(ls[i]),
        0 <= pos,
        pos + enc_lists(ls).len() <= bytes.len(),
        bytes.subrange(pos, pos + enc_lists(ls).len()) == enc_lists(ls),
    ensures
        dec_lists_arr(bytes, pos, ls.len()) == Decoded::<Seq<NvListView>>::Found(
            scrub_lists(ls),
            pos + enc_lists(ls).len(),
        ),
    decreases ls,
{
    if ls.len() == 0 {
        assert(scrub_lists(ls) =~= Seq::<NvListView>::empty());
    } else {
        let tail = ls.drop_first();
        assert(forall|i: int|
            0 <= i < tail.len() ==> (#[trigger] tail[i]).valid && tail[i].wf() && list_sizes_ok(
                tail[i],
            )) by {
            assert(forall|i: int| 0 <= i < tail.len() ==> tail[i] == ls[i + 1]);
        }
        lemma_enc_list_len(ls[0]);
        lemma_split_concat(bytes, pos, enc_list(ls[0]), enc_lists(tail));
        lemma_dec_enc_list(bytes, pos, ls[0]);
        let p = pos + enc_list(ls[0]).len();
        assert(next_pos(pos, p, bytes.len() as int) == p);
        lemma_dec_enc_lists_arr(bytes, p, tail);
        assert(seq![scrub_list(ls[0])] + scrub_lists(tail) =~= scrub_lists(ls));
    }
}

/// Decoding an encoded list yields it back, errors cleared.
pub(crate) proof fn lemma_dec_enc_list(bytes: Seq<u8>, pos: int, m: NvListView)
    requires
        m.valid,
        m.wf(),
        list_sizes_ok(m),
        0 <= pos,
        pos + enc_list(m).len() <= bytes.len(),
        bytes.subrange(pos, pos + enc_list(m).len()) == enc_list(m),
    ensures
        dec_list(bytes, pos) == Decoded::<NvListView>::Found(
            scrub_list(m),
            pos + enc_list(m).len(),
        ),
    decreases m,
{
    let flag_byte = seq![m.flags.code_spec()];
    let body = enc_entries(m.entries) + seq![0u8];
    assert(enc_list(m) =~= flag_byte + body);
    lemma_split_concat(bytes, pos, flag_byte, body);
    assert(bytes[pos] == m.flags.code_spec()) by {
        assert(bytes.subrange(pos, pos + 1)[0] == flag_byte[0]);
    }
    assert(NvFlag::from_code_spec(m.flags.code_spec()) == Some(m.flags));
    assert(forall|i: int|
        0 <= i < m.entries.len() ==> (#[trigger] m.entries[i]).wf() && value_sizes_ok(
            m.entries[i].value,
        ));
    lemma_dec_enc_entries(bytes, pos + 1, m.entries);
}

/// Decoding an encoded run of records, up to and including the end marker,
/// yields them back, errors cleared.
proof fn lemma_dec_enc_entries(bytes: Seq<u8>, pos: int, es: Seq<NvEntryView>)
    requires
        forall|i: int|
            0 <= i < es.len() ==> (#[trigger] es[i]).wf() && value_sizes_ok(es[i].value),
        0 <= pos,
        pos + enc_entries(es).len() + 1 <= bytes.len(),
        bytes.subrange(pos, pos + enc_entries(es).len() + 1) == enc_entries(es) + seq![0u8],
    ensures
        dec_entries(bytes, pos) == Decoded::<Seq<NvEntryView>>::Found(
            scrub_entries(es),
            pos + enc_entries(es).len() + 1,
        ),
    decreases es,
{
    if es.len() == 0 {
        assert(bytes[pos] == 0) by {
            assert(bytes.subrange(pos, pos + 1)[0] == (enc_entries(es) + seq![0u8])[0]);
        }
        assert(scrub_entries(es) =~= Seq::<NvEntryView>::empty());
    } else {
        let tail = es.drop_first();
        assert(forall|i: int|
            0 <= i < tail.len() ==> (#[trigger] tail[i]).wf() && value_sizes_ok(tail[i].value))
            by {
            assert(forall|i: int| 0 <= i < tail.len() ==> tail[i] == es[i + 1]);
        }
        let head = enc_entry(es[0]);
        let rest = enc_entries(tail) + seq![0u8];
        assert(enc_entries(es) + seq![0u8] =~= head + rest);
        lemma_split_concat(bytes, pos, head, rest);
        assert(bytes[pos] == es[0].value.tag().code_spec()) by {
            assert(bytes.subrange(pos, pos + head.len())[0] == head[0]);
            assert(head[0] == es[0].value.tag().code_spec());
        }
        assert(bytes[pos] != 0);
        lemma_dec_enc_entry(bytes, pos, es[0]);
        let p = pos + head.len();
        assert(next_pos(pos, p, bytes.len() as int) == p);
        lemma_dec_enc_entries(bytes, p, tail);
        assert(seq![scrub_entry(es[0])] + scrub_entries(tail) =~= scrub_entries(es));
    }
}

/// Decoding an encoded record yields it back, errors cleared.
proof fn lemma_dec_enc_entry(bytes: Seq<u8>, pos: int, e: NvEntryView)
    requires
        e.wf(),
        value_sizes_ok(e.value),
        0 <= pos,
        pos + enc_entry(e).len() <= bytes.len(),
        bytes.subrange(pos, pos + enc_entry(e).len()) == enc_entry(e),
    ensures
        dec_entry(bytes, pos) == Decoded::<NvEntryView>::Found(
            scrub_entry(e),
            pos + enc_entry(e).len(),
        ),
    decreases e,
{
    let t = e.value.tag();
    let nb = encode_utf8(e.name);
    let tag_byte = seq![t.code_spec()];
    let len_bytes = spec_u16_to_le_bytes(name_byte_len(e.name) as u16);
    vstd::bytes::lemma_auto_spec_u16_to_from_le_bytes();
    assert(len_bytes.len() == 2);
    let vb = enc_value(e.value);
    assert(enc_entry(e) =~= tag_byte + (len_bytes + (nb + vb)));
    lemma_split_concat(bytes, pos, tag_byte, len_bytes + (nb + vb));
    lemma_split_concat(bytes, pos + 1, len_bytes, nb + vb);
    lemma_split_concat(bytes, pos + 3, nb, vb);
    assert(bytes[pos] == t.code_spec()) by {
        assert(bytes.subrange(pos, pos + 1)[0] == tag_byte[0]);
    }
    assert(NvType::from_code_spec(t.code_spec()) == Some(t));
    assert(!(t is Empty));
    lemma_read_u16(bytes, pos + 1, name_byte_len(e.name) as u16);
    assert(name_byte_len(e.name) as u16 as int == nb.len());
    assert(bytes.subrange(pos + 3, pos + 3 + nb.len()) == nb);
    vstd::utf8::encode_utf8_valid_utf8(e.name);
    vstd::utf8::encode_utf8_decode_utf8(e.name);
    lemma_dec_enc_value(bytes, pos + 3 + nb.len(), e.value);
}


/// Every decoded value is well formed and carries the tag it was read
/// under.
proof fn lemma_dec_value_wf(bytes: Seq<u8>, pos: int, t: NvType)
    ensures
        dec_value(bytes, pos, t) matches Decoded::Found(v, p) ==> v.wf() && v.tag() == t,
    decreases bytes.len() - pos, 5int,
{
    match t {
        NvType::NvList => {
            lemma_dec_list_wf(bytes, pos);
        },
        NvType::NvListArray => {
            match dec_u64(bytes, pos) {
                Decoded::Found(count, p) => {
                    if !(p + 2 * count > bytes.len()) {
                        lemma_dec_lists_arr_wf(
                            bytes,
                            next_pos(pos, p, bytes.len() as int),
                            count as nat,
                        );
                    }
                },
                _ => {
                },
            }
        },
        _ => {
        },
    }
}

/// Every decoded run of nested lists holds valid, well-formed lists.
proof fn lemma_dec_lists_arr_wf(bytes: Seq<u8>, pos: int, count: nat)
    ensures
        dec_lists_arr(bytes, pos, count) matches Decoded::Found(a, p) ==> a.len() == count
            && (forall|i: int| 0 <= i < a.len() ==> (#[trigger] a[i]).valid && a[i].wf()),
    decreases bytes.len() - pos, 4int, count,
{
    if count == 0 {
    } else if pos >= bytes.len() {
    } else {
        lemma_dec_list_wf(bytes, pos);
        match dec_list(bytes, pos) {
            Decoded::Found(l, p) => {
                lemma_dec_lists_arr_wf(
                    bytes,
                    next_pos(pos, p, bytes.len() as int),
                    (count - 1) as nat,
                );
                match dec_lists_arr(bytes, next_pos(pos, p, bytes.len() as int), (count - 1) as nat) {
                    Decoded::Found(rest, p2) => {
                        let a = seq![l] + rest;
                        assert(a[0] == l);
                        assert(forall|i: int| 0 < i < a.len() ==> a[i] == rest[i - 1]);
                    },
                    _ => {
                    },
                }
            },
            _ => {
            },
        }
    }
}

/// Every decoded list is valid, error-free and well formed.
proof fn lemma_dec_list_wf(bytes: Seq<u8>, pos: int)
    ensures
        dec_list(bytes, pos) matches Decoded::Found(l, p) ==> l.valid && l.error == 0 && l.wf(),
    decreases bytes.len() - pos, 3int,
{
    if 0 <= pos && pos < bytes.len() {
        lemma_dec_entries_wf(bytes, pos + 1);
    }
}

/// Every decoded run of records holds well-formed entries.
proof fn lemma_dec_entries_wf(bytes: Seq<u8>, pos: int)
    ensures
        dec_entries(bytes, pos) matches Decoded::Found(es, p) ==> forall|i: int|
            0 <= i < es.len() ==> (#[trigger] es[i]).wf(),
    decreases bytes.len() - pos, 2int,
{
    if 0 <= pos && pos < bytes.len() && bytes[pos] != 0 {
        lemma_dec_entry_wf(bytes, pos);
        match dec_entry(bytes, pos) {
            Decoded::Found(e, p) => {
                lemma_dec_entries_wf(bytes, next_pos(pos, p, bytes.len() as int));
                match dec_entries(bytes, next_pos(pos, p, bytes.len() as int)) {
                    Decoded::Found(rest, p2) => {
                        let es = seq![e] + rest;
                        assert(es[0] == e);
                        assert(forall|i: int| 0 < i < es.len() ==> es[i] == rest[i - 1]);
                    },
                    _ => {
                    },
                }
            },
            _ => {
            },
        }
    }
}

/// Every decoded record is well formed: its name is within the length
/// bound and its value is well formed.
proof fn lemma_dec_entry_wf(bytes: Seq<u8>, pos: int)
    ensures
        dec_entry(bytes, pos) matches Decoded::Found(e, p) ==> e.wf(),
    decreases bytes.len() - pos, 1int,
{
    if 0 <= pos && pos < bytes.len() {
        match NvType::from_code_spec(bytes[pos]) {
            Some(t) => {
                if !(t is Empty) {
                    match dec_u16(bytes, pos + 1) {
                        Decoded::Found(nlen, p1) => {
                            if nlen <= NV_NAME_MAX && p1 + nlen <= bytes.len() {
                                let nb = bytes.subrange(p1, p1 + nlen);
                                if vstd::utf8::valid_utf8(nb) {
                                    vstd::utf8::decode_utf8_encode_utf8(nb);
                                    lemma_dec_value_wf(bytes, p1 + nlen, t);
                                }
                            }
                        },
                        _ => {
                        },
                    }
                }
            },
            None => {
            },
        }
    }
}

} // verus!
