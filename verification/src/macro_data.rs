//! The opaque structured document attached to a world at creation, and its
//! binary codec.
//!
//! A document is a tree of scalars, arrays and maps. Its encoder is a
//! deterministic tagged binary form (this is the documented encoder variant
//! of this implementation; swapping it would break saved worlds):
//!
//! - `0` — null,
//! - `1 b` — boolean (`b` is `0` or `1`),
//! - `2` + 8 bytes — integer, two's-complement `u64` little-endian,
//! - `3` + `u64` character count + 4 bytes per character (`u32`
//!   little-endian scalar values) — text,
//! - `4` + `u64` element count + the encoded elements — array,
//! - `5` + `u64` entry count + per entry a `u64` character count, the key's
//!   characters, and the encoded value — map,
//! - `6` + 8 bytes — a non-negative integer above `i64::MAX`, as `u64`
//!   little-endian.
use vstd::prelude::*;
use vstd::bytes::{
    spec_u32_to_le_bytes, spec_u32_from_le_bytes, lemma_auto_spec_u32_to_from_le_bytes,
    spec_u64_to_le_bytes, spec_u64_from_le_bytes, lemma_auto_spec_u64_to_from_le_bytes,
};
use vstd::utf8::{is_scalar, char_is_scalar, char_u32_cast};

use crate::codec::begins_at;

verus! {

/// One node of a world-macro document.
pub enum MacroValue {
    Null,
    Bool(bool),
    Int(i64),
    UInt(u64),
    Text(String),
    Array(Vec<MacroValue>),
    Dict(Vec<MacroEntry>),
}

/// One key/value entry of a document map.
pub struct MacroEntry {
    pub key: String,
    pub value: MacroValue,
}

/// The mathematical model of a document node.
pub enum MacroView {
    Null,
    Bool(bool),
    Int(i64),
    UInt(u64),
    Text(Seq<char>),
    Array(Seq<MacroView>),
    Dict(Seq<EntryView>),
}

/// The model of one map entry.
pub struct EntryView {
    pub key: Seq<char>,
    pub value: MacroView,
}

/// The model of an exec document node.
pub open spec fn macro_view(v: MacroValue) -> MacroView
    decreases v,
{
    match v {
        MacroValue::Null => MacroView::Null,
        MacroValue::Bool(b) => MacroView::Bool(b),
        MacroValue::Int(n) => MacroView::Int(n),
        MacroValue::UInt(u) => MacroView::UInt(u),
        MacroValue::Text(s) => MacroView::Text(s@),
        MacroValue::Array(elems) => MacroView::Array(macro_views(elems@)),
        MacroValue::Dict(entries) => MacroView::Dict(entry_views(entries@)),
    }
}

/// The models of a sequence of document nodes.
pub open spec fn macro_views(s: Seq<MacroValue>) -> Seq<MacroView>
    decreases s,
{
    if s.len() == 0 {
        Seq::empty()
    } else {
        macro_views(s.drop_last()).push(macro_view(s.last()))
    }
}

/// The models of a sequence of map entries.
pub open spec fn entry_views(s: Seq<MacroEntry>) -> Seq<EntryView>
    decreases s,
{
    if s.len() == 0 {
        Seq::empty()
    } else {
        entry_views(s.drop_last()).push(
            EntryView { key: s.last().key@, value: macro_view(s.last().value) },
        )
    }
}

impl View for MacroValue {
    type V = MacroView;

    open spec fn view(&self) -> MacroView {
        macro_view(*self)
    }
}

/// Every sequence inside the model fits the `u64` counts of the encoding.
/// Models of exec values always do.
pub open spec fn view_small(m: MacroView) -> bool
    decreases m,
{
    match m {
        MacroView::Text(s) => s.len() <= u64::MAX,
        MacroView::Array(vs) => vs.len() <= u64::MAX && forall|i: int|
            0 <= i < vs.len() ==> view_small(#[trigger] vs[i]),
        MacroView::Dict(ms) => ms.len() <= u64::MAX && forall|i: int|
            0 <= i < ms.len() ==> (#[trigger] ms[i].key.len() <= u64::MAX && view_small(
                ms[i].value,
            )),
        _ => true,
    }
}

/// Concatenated `u32` little-endian encodings of the first `k` characters.
pub open spec fn spec_encode_chars(s: Seq<char>) -> Seq<u8>
    decreases s.len(),
{
    if s.len() == 0 {
        Seq::empty()
    } else {
        spec_encode_chars(s.drop_last()) + spec_u32_to_le_bytes(s.last() as u32)
    }
}

/// The encoding of one document node.
pub open spec fn spec_encode_value(m: MacroView) -> Seq<u8>
    decreases m,
{
    match m {
        MacroView::Null => seq![0u8],
        MacroView::Bool(b) => seq![1u8, if b { 1u8 } else { 0u8 }],
        MacroView::Int(n) => seq![2u8] + spec_u64_to_le_bytes(n as u64),
        MacroView::UInt(u) => seq![6u8] + spec_u64_to_le_bytes(u),
        MacroView::Text(s) => seq![3u8] + spec_u64_to_le_bytes(s.len() as u64)
            + spec_encode_chars(s),
        MacroView::Array(vs) => seq![4u8] + spec_u64_to_le_bytes(vs.len() as u64)
            + spec_encode_items(vs),
        MacroView::Dict(ms) => seq![5u8] + spec_u64_to_le_bytes(ms.len() as u64)
            + spec_encode_entries(ms),
    }
}

/// Concatenated encodings of array elements.
pub open spec fn spec_encode_items(vs: Seq<MacroView>) -> Seq<u8>
    decreases vs,
{
    if vs.len() == 0 {
        Seq::empty()
    } else {
        spec_encode_items(vs.drop_last()) + spec_encode_value(vs.last())
    }
}

/// Concatenated encodings of map entries: key length, key characters, value.
pub open spec fn spec_encode_entries(ms: Seq<EntryView>) -> Seq<u8>
    decreases ms,
{
    if ms.len() == 0 {
        Seq::empty()
    } else {
        spec_encode_entries(ms.drop_last()) + (spec_u64_to_le_bytes(ms.last().key.len() as u64)
            + spec_encode_chars(ms.last().key) + spec_encode_value(ms.last().value))
    }
}

/// Decodes `k` characters starting at `i`, returning them with the number of
/// bytes consumed.
pub open spec fn spec_decode_chars(bytes: Seq<u8>, i: int, k: nat) -> Option<(Seq<char>, nat)>
    decreases k,
{
    if k == 0 {
        Some((Seq::empty(), 0))
    } else {
        match spec_decode_chars(bytes, i, (k - 1) as nat) {
            Some((cs, n)) => if 0 <= i && i + n + 4 <= bytes.len() {
                let u = spec_u32_from_le_bytes(bytes.subrange(i + n, i + n + 4));
                if is_scalar(u) {
                    Some((cs.push(u as char), (n + 4) as nat))
                } else {
                    None
                }
            } else {
                None
            },
            None => None,
        }
    }
}

/// Decodes one node at `i`, returning it with the number of bytes consumed.
pub open spec fn spec_decode_value(bytes: Seq<u8>, i: int) -> Option<(MacroView, nat)>
    decreases bytes.len() - i, 0int, 0int,
{
    if !(0 <= i < bytes.len()) {
        None
    } else {
        let tag = bytes[i];
        if tag == 0 {
            Some((MacroView::Null, 1))
        } else if tag == 1 {
            if i + 2 <= bytes.len() {
                if bytes[i + 1] == 0 {
                    Some((MacroView::Bool(false), 2))
                } else if bytes[i + 1] == 1 {
                    Some((MacroView::Bool(true), 2))
                } else {
                    None
                }
            } else {
                None
            }
        } else if tag == 2 {
            if i + 9 <= bytes.len() {
                Some(
                    (
                        MacroView::Int(
                            spec_u64_from_le_bytes(bytes.subrange(i + 1, i + 9)) as i64,
                        ),
                        9,
                    ),
                )
            } else {
                None
            }
        } else if tag == 3 {
            if i + 9 <= bytes.len() {
                let cnt = spec_u64_from_le_bytes(bytes.subrange(i + 1, i + 9));
                match spec_decode_chars(bytes, i + 9, cnt as nat) {
                    Some((cs, n)) => Some((MacroView::Text(cs), (9 + n) as nat)),
                    None => None,
                }
            } else {
                None
            }
        } else if tag == 4 {
            if i + 9 <= bytes.len() {
                let cnt = spec_u64_from_le_bytes(bytes.subrange(i + 1, i + 9));
                match spec_decode_items(bytes, i + 9, cnt as nat) {
                    Some((vs, n)) => Some((MacroView::Array(vs), (9 + n) as nat)),
                    None => None,
                }
            } else {
                None
            }
        } else if tag == 5 {
            if i + 9 <= bytes.len() {
                let cnt = spec_u64_from_le_bytes(bytes.subrange(i + 1, i + 9));
                match spec_decode_entries(bytes, i + 9, cnt as nat) {
                    Some((ms, n)) => Some((MacroView::Dict(ms), (9 + n) as nat)),
                    None => None,
                }
            } else {
                None
            }
        } else if tag == 6 {
            if i + 9 <= bytes.len() {
                Some((MacroView::UInt(spec_u64_from_le_bytes(bytes.subrange(i + 1, i + 9))), 9))
            } else {
                None
            }
        } else {
            None
        }
    }
}

/// Decodes `k` array elements starting at `i`.
pub open spec fn spec_decode_items(bytes: Seq<u8>, i: int, k: nat) -> Option<(Seq<MacroView>, nat)>
    decreases bytes.len() - i, 1int, k,
{
    if !(0 <= i <= bytes.len()) {
        None
    } else if k == 0 {
        Some((Seq::empty(), 0))
    } else {
        match spec_decode_items(bytes, i, (k - 1) as nat) {
            Some((vs, n)) => if i + n <= bytes.len() {
                match spec_decode_value(bytes, i + n) {
                    Some((v, c)) => Some((vs.push(v), (n + c) as nat)),
                    None => None,
                }
            } else {
                None
            },
            None => None,
        }
    }
}

/// Decodes `k` map entries starting at `i`.
pub open spec fn spec_decode_entries(bytes: Seq<u8>, i: int, k: nat) -> Option<
    (Seq<EntryView>, nat),
>
    decreases bytes.len() - i, 1int, k,
{
    if !(0 <= i <= bytes.len()) {
        None
    } else if k == 0 {
        Some((Seq::empty(), 0))
    } else {
        match spec_decode_entries(bytes, i, (k - 1) as nat) {
            Some((ms, n)) => if i + n + 8 <= bytes.len() {
                let klen = spec_u64_from_le_bytes(bytes.subrange(i + n, i + n + 8));
                match spec_decode_chars(bytes, i + n + 8, klen as nat) {
                    Some((kcs, kn)) => if i + n + 8 + kn <= bytes.len() {
                        match spec_decode_value(bytes, i + n + 8 + kn) {
                            Some((v, c)) => Some(
                                (
                                    ms.push(EntryView { key: kcs, value: v }),
                                    (n + 8 + kn + c) as nat,
                                ),
                            ),
                            None => None,
                        }
                    } else {
                        None
                    },
                    None => None,
                }
            } else {
                None
            },
            None => None,
        }
    }
}

/// Decodes a whole document blob; the input must be consumed exactly.
pub open spec fn spec_decode_macro(bytes: Seq<u8>) -> Option<MacroView> {
    match spec_decode_value(bytes, 0) {
        Some((m, n)) => if n == bytes.len() {
            Some(m)
        } else {
            None
        },
        None => None,
    }
}

proof fn lemma_encode_chars_take_step(s: Seq<char>, k: int)
    requires
        0 <= k < s.len(),
    ensures
        spec_encode_chars(s.take(k + 1)) == spec_encode_chars(s.take(k)) + spec_u32_to_le_bytes(
            s[k] as u32,
        ),
{
    assert(s.take(k + 1).drop_last() =~= s.take(k));
    assert(s.take(k + 1).last() == s[k]);
}

proof fn lemma_decode_encode_chars(bytes: Seq<u8>, i: int, s: Seq<char>, k: nat)
    requires
        k <= s.len(),
        begins_at(bytes, i, spec_encode_chars(s.take(k as int))),
    ensures
        spec_decode_chars(bytes, i, k) == Some(
            (s.take(k as int), spec_encode_chars(s.take(k as int)).len() as nat),
        ),
    decreases k,
{
    lemma_auto_spec_u32_to_from_le_bytes();
    if k == 0 {
        assert(s.take(0) =~= Seq::<char>::empty());
    } else {
        let prev = s.take(k as int - 1);
        lemma_encode_chars_take_step(s, k as int - 1);
        crate::codec::lemma_begins_at_split(
            bytes,
            i,
            spec_encode_chars(prev),
            spec_u32_to_le_bytes(s[k - 1] as u32),
        );
        lemma_decode_encode_chars(bytes, i, s, (k - 1) as nat);
        let n = spec_encode_chars(prev).len();
        assert(bytes.subrange(i + n, i + n + 4) =~= spec_u32_to_le_bytes(s[k - 1] as u32));
        char_is_scalar(s[k - 1]);
        char_u32_cast(s[k - 1], s[k - 1] as u32);
        assert(prev.push(s[k - 1]) =~= s.take(k as int));
    }
}

/// Round trip of one encoded node at the specification level.
pub proof fn lemma_decode_encode_value(bytes: Seq<u8>, i: int, m: MacroView)
    requires
        view_small(m),
        begins_at(bytes, i, spec_encode_value(m)),
    ensures
        spec_decode_value(bytes, i) == Some((m, spec_encode_value(m).len() as nat)),
    decreases m, 0int, 0int,
{
    lemma_auto_spec_u64_to_from_le_bytes();
    let enc = spec_encode_value(m);
    crate::codec::lemma_begins_at_index(bytes, i, enc, 0);
    match m {
        MacroView::Null => {
        },
        MacroView::Bool(b) => {
            crate::codec::lemma_begins_at_index(bytes, i, enc, 1);
        },
        MacroView::Int(n) => {
            crate::codec::lemma_begins_at_split(
                bytes,
                i,
                seq![2u8],
                spec_u64_to_le_bytes(n as u64),
            );
            assert(bytes.subrange(i + 1, i + 9) =~= spec_u64_to_le_bytes(n as u64));
            assert(((n as u64) as i64) == n) by (bit_vector);
        },
        MacroView::UInt(u) => {
            crate::codec::lemma_begins_at_split(bytes, i, seq![6u8], spec_u64_to_le_bytes(u));
            assert(bytes.subrange(i + 1, i + 9) =~= spec_u64_to_le_bytes(u));
        },
        MacroView::Text(s) => {
            crate::codec::lemma_begins_at_split(
                bytes,
                i,
                seq![3u8] + spec_u64_to_le_bytes(s.len() as u64),
                spec_encode_chars(s),
            );
            crate::codec::lemma_begins_at_split(
                bytes,
                i,
                seq![3u8],
                spec_u64_to_le_bytes(s.len() as u64),
            );
            assert(bytes.subrange(i + 1, i + 9) =~= spec_u64_to_le_bytes(s.len() as u64));
            assert(s.take(s.len() as int) =~= s);
            lemma_decode_encode_chars(bytes, i + 9, s, s.len());
        },
        MacroView::Array(vs) => {
            crate::codec::lemma_begins_at_split(
                bytes,
                i,
                seq![4u8] + spec_u64_to_le_bytes(vs.len() as u64),
                spec_encode_items(vs),
            );
            crate::codec::lemma_begins_at_split(
                bytes,
                i,
                seq![4u8],
                spec_u64_to_le_bytes(vs.len() as u64),
            );
            assert(bytes.subrange(i + 1, i + 9) =~= spec_u64_to_le_bytes(vs.len() as u64));
            assert(vs.take(vs.len() as int) =~= vs);
            lemma_decode_encode_items(bytes, i + 9, vs, vs.len());
        },
        MacroView::Dict(ms) => {
            crate::codec::lemma_begins_at_split(
                bytes,
                i,
                seq![5u8] + spec_u64_to_le_bytes(ms.len() as u64),
                spec_encode_entries(ms),
            );
            crate::codec::lemma_begins_at_split(
                bytes,
                i,
                seq![5u8],
                spec_u64_to_le_bytes(ms.len() as u64),
            );
            assert(bytes.subrange(i + 1, i + 9) =~= spec_u64_to_le_bytes(ms.len() as u64));
            assert(ms.take(ms.len() as int) =~= ms);
            lemma_decode_encode_entries(bytes, i + 9, ms, ms.len());
        },
    }
}

proof fn lemma_encode_items_take_step(vs: Seq<MacroView>, k: int)
    requires
        0 <= k < vs.len(),
    ensures
        spec_encode_items(vs.take(k + 1)) == spec_encode_items(vs.take(k)) + spec_encode_value(
            vs[k],
        ),
{
    assert(vs.take(k + 1).drop_last() =~= vs.take(k));
    assert(vs.take(k + 1).last() == vs[k]);
}

proof fn lemma_decode_encode_items(bytes: Seq<u8>, i: int, vs: Seq<MacroView>, k: nat)
    requires
        k <= vs.len(),
        forall|t: int| 0 <= t < vs.len() ==> view_small(#[trigger] vs[t]),
        begins_at(bytes, i, spec_encode_items(vs.take(k as int))),
    ensures
        spec_decode_items(bytes, i, k) == Some(
            (vs.take(k as int), spec_encode_items(vs.take(k as int)).len() as nat),
        ),
    decreases vs, 1int, k,
{
    if k == 0 {
        assert(vs.take(0) =~= Seq::<MacroView>::empty());
    } else {
        let prev = vs.take(k as int - 1);
        lemma_encode_items_take_step(vs, k as int - 1);
        crate::codec::lemma_begins_at_split(
            bytes,
            i,
            spec_encode_items(prev),
            spec_encode_value(vs[k - 1]),
        );
        lemma_decode_encode_items(bytes, i, vs, (k - 1) as nat);
        let n = spec_encode_items(prev).len();
        assert(decreases_to!(vs => vs[k as int - 1]));
        lemma_decode_encode_value(bytes, i + n, vs[k - 1]);
        assert(prev.push(vs[k - 1]) =~= vs.take(k as int));
    }
}

proof fn lemma_encode_entries_take_step(ms: Seq<EntryView>, k: int)
    requires
        0 <= k < ms.len(),
    ensures
        spec_encode_entries(ms.take(k + 1)) == spec_encode_entries(ms.take(k)) + (
        spec_u64_to_le_bytes(ms[k].key.len() as u64) + spec_encode_chars(ms[k].key)
            + spec_encode_value(ms[k].value)),
{
    assert(ms.take(k + 1).drop_last() =~= ms.take(k));
    assert(ms.take(k + 1).last() == ms[k]);
}

proof fn lemma_decode_encode_entries(bytes: Seq<u8>, i: int, ms: Seq<EntryView>, k: nat)
    requires
        k <= ms.len(),
        forall|t: int|
            0 <= t < ms.len() ==> (#[trigger] ms[t].key.len() <= u64::MAX && view_small(
                ms[t].value,
            )),
        begins_at(bytes, i, spec_encode_entries(ms.take(k as int))),
    ensures
        spec_decode_entries(bytes, i, k) == Some(
            (ms.take(k as int), spec_encode_entries(ms.take(k as int)).len() as nat),
        ),
    decreases ms, 1int, k,
{
    lemma_auto_spec_u64_to_from_le_bytes();
    if k == 0 {
        assert(ms.take(0) =~= Seq::<EntryView>::empty());
    } else {
        let prev = ms.take(k as int - 1);
        let entry = ms[k as int - 1];
        let entry_enc = spec_u64_to_le_bytes(entry.key.len() as u64) + spec_encode_chars(entry.key)
            + spec_encode_value(entry.value);
        lemma_encode_entries_take_step(ms, k as int - 1);
        crate::codec::lemma_begins_at_split(bytes, i, spec_encode_entries(prev), entry_enc);
        lemma_decode_encode_entries(bytes, i, ms, (k - 1) as nat);
        let n = spec_encode_entries(prev).len();
        crate::codec::lemma_begins_at_split(
            bytes,
            i + n,
            spec_u64_to_le_bytes(entry.key.len() as u64) + spec_encode_chars(entry.key),
            spec_encode_value(entry.value),
        );
        crate::codec::lemma_begins_at_split(
            bytes,
            i + n,
            spec_u64_to_le_bytes(entry.key.len() as u64),
            spec_encode_chars(entry.key),
        );
        assert(bytes.subrange(i + n, i + n + 8) =~= spec_u64_to_le_bytes(entry.key.len() as u64));
        assert(entry.key.take(entry.key.len() as int) =~= entry.key);
        lemma_decode_encode_chars(bytes, i + n + 8, entry.key, entry.key.len());
        assert(decreases_to!(ms => ms[k as int - 1]));
        assert(decreases_to!(ms[k as int - 1] => ms[k as int - 1].value));
        lemma_decode_encode_value(
            bytes,
            i + n + 8 + spec_encode_chars(entry.key).len(),
            entry.value,
        );
        assert(prev.push(entry) =~= ms.take(k as int));
    }
}

pub proof fn lemma_macro_views_len(s: Seq<MacroValue>)
    ensures
        macro_views(s).len() == s.len(),
    decreases s,
{
    if s.len() > 0 {
        lemma_macro_views_len(s.drop_last());
    }
}

pub proof fn lemma_macro_views_index(s: Seq<MacroValue>, i: int)
    requires
        0 <= i < s.len(),
    ensures
        macro_views(s).len() == s.len(),
        macro_views(s)[i] == macro_view(s[i]),
    decreases s,
{
    lemma_macro_views_len(s);
    if i < s.len() - 1 {
        lemma_macro_views_index(s.drop_last(), i);
    }
}

pub proof fn lemma_entry_views_len(s: Seq<MacroEntry>)
    ensures
        entry_views(s).len() == s.len(),
    decreases s,
{
    if s.len() > 0 {
        lemma_entry_views_len(s.drop_last());
    }
}

pub proof fn lemma_entry_views_index(s: Seq<MacroEntry>, i: int)
    requires
        0 <= i < s.len(),
    ensures
        entry_views(s).len() == s.len(),
        entry_views(s)[i] == (EntryView { key: s[i].key@, value: macro_view(s[i].value) }),
    decreases s,
{
    lemma_entry_views_len(s);
    if i < s.len() - 1 {
        lemma_entry_views_index(s.drop_last(), i);
    }
}

/// Round trip of the document codec at the specification level: decoding an
/// encoded document gives back exactly the document.
pub proof fn lemma_decode_encode_macro(m: MacroView)
    requires
        view_small(m),
    ensures
        spec_decode_macro(spec_encode_value(m)) == Some(m),
{
    let bytes = spec_encode_value(m);
    assert(bytes.subrange(0, bytes.len() as int) =~= bytes);
    lemma_decode_encode_value(bytes, 0, m);
}

impl MacroValue {
    /// Serializes this node in its tagged binary form, appended to `out`.
    #[verifier::spinoff_prover]
    pub fn encode_into(&self, out: &mut Vec<u8>)
        ensures
            final(out)@ == old(out)@ + spec_encode_value(self@),
            view_small(self@),
        decreases *self,
    {
        let ghost base = out@;
        match self {
            MacroValue::Null => {
                out.push(0u8);
                proof {
                    assert(out@ =~= base + spec_encode_value(self@));
                }
            },
            MacroValue::Bool(b) => {
                out.push(1u8);
                out.push(if *b {
                    1u8
                } else {
                    0u8
                });
                proof {
                    assert(out@ =~= base + spec_encode_value(self@));
                }
            },
            MacroValue::Int(n) => {
                out.push(2u8);
                let mut body = vstd::bytes::u64_to_le_bytes(*n as u64);
                out.append(&mut body);
                proof {
                    assert(out@ =~= base + spec_encode_value(self@));
                }
            },
            MacroValue::UInt(u) => {
                out.push(6u8);
                let mut body = vstd::bytes::u64_to_le_bytes(*u);
                out.append(&mut body);
                proof {
                    assert(out@ =~= base + spec_encode_value(self@));
                }
            },
            MacroValue::Text(s) => {
                out.push(3u8);
                let char_count = s.as_str().unicode_len();
                let mut header = vstd::bytes::u64_to_le_bytes(char_count as u64);
                out.append(&mut header);
                let ghost text_base = out@;
                let mut i: usize = 0;
                while i < char_count
                    invariant
                        char_count == s@.len(),
                        i <= char_count,
                        out@ == text_base + spec_encode_chars(s@.take(i as int)),
                    decreases char_count - i,
                {
                    let c = s.as_str().get_char(i);
                    let mut cb = vstd::bytes::u32_to_le_bytes(c as u32);
                    out.append(&mut cb);
                    proof {
                        assert(s@.take(i + 1).drop_last() =~= s@.take(i as int));
                        assert(s@.take(i + 1).last() == s@[i as int]);
                    }
                    i = i + 1;
                }
                proof {
                    assert(s@.take(char_count as int) =~= s@);
                    assert(out@ =~= base + spec_encode_value(self@));
                }
            },
            MacroValue::Array(elems) => {
                out.push(4u8);
                let n = elems.len();
                let mut header = vstd::bytes::u64_to_le_bytes(n as u64);
                out.append(&mut header);
                let ghost items_base = out@;
                let mut i: usize = 0;
                while i < n
                    invariant
                        *self == MacroValue::Array(*elems),
                        n == elems@.len(),
                        i <= n,
                        out@ == items_base + spec_encode_items(macro_views(elems@.take(i as int))),
                        forall|t: int| 0 <= t < i ==> view_small(#[trigger] macro_view(elems@[t])),
                    decreases n - i,
                {
                    proof {
                        assert(decreases_to!(*self => self->Array_0));
                        assert(decreases_to!(*elems => elems@));
                        assert(decreases_to!(elems@ => elems@[i as int]));
                    }
                    let element = &elems[i];
                    element.encode_into(out);
                    proof {
                        assert(elems@.take(i + 1).drop_last() =~= elems@.take(i as int));
                        let views = macro_views(elems@.take(i + 1));
                        assert(views == macro_views(elems@.take(i as int)).push(
                            macro_view(elems@[i as int]),
                        ));
                        assert(views.drop_last() =~= macro_views(elems@.take(i as int)));
                        assert(out@ =~= items_base + spec_encode_items(views));
                    }
                    i = i + 1;
                }
                proof {
                    assert(elems@.take(n as int) =~= elems@);
                    lemma_macro_views_len(elems@);
                    assert forall|t: int|
                        0 <= t < macro_views(elems@).len() implies view_small(
                        #[trigger] macro_views(elems@)[t],
                    ) by {
                        lemma_macro_views_index(elems@, t);
                    };
                    assert(out@ =~= base + spec_encode_value(self@));
                }
            },
            MacroValue::Dict(entries) => {
                out.push(5u8);
                let n = entries.len();
                let mut header = vstd::bytes::u64_to_le_bytes(n as u64);
                out.append(&mut header);
                let ghost entries_base = out@;
                let mut i: usize = 0;
                while i < n
                    invariant
                        *self == MacroValue::Dict(*entries),
                        n == entries@.len(),
                        i <= n,
                        out@ == entries_base + spec_encode_entries(
                            entry_views(entries@.take(i as int)),
                        ),
                        forall|t: int|
                            0 <= t < i ==> (#[trigger] entries@[t].key@.len() <= u64::MAX
                                && view_small(macro_view(entries@[t].value))),
                    decreases n - i,
                {
                    let ghost entry_base = out@;
                    let entry = &entries[i];
                    let key_count = entry.key.as_str().unicode_len();
                    let mut klen = vstd::bytes::u64_to_le_bytes(key_count as u64);
                    out.append(&mut klen);
                    let ghost key_base = out@;
                    let mut j: usize = 0;
                    while j < key_count
                        invariant
                            key_count == entry.key@.len(),
                            j <= key_count,
                            out@ == key_base + spec_encode_chars(entry.key@.take(j as int)),
                        decreases key_count - j,
                    {
                        let c = entry.key.as_str().get_char(j);
                        let mut cb = vstd::bytes::u32_to_le_bytes(c as u32);
                        out.append(&mut cb);
                        proof {
                            assert(entry.key@.take(j + 1).drop_last() =~= entry.key@.take(
                                j as int,
                            ));
                            assert(entry.key@.take(j + 1).last() == entry.key@[j as int]);
                        }
                        j = j + 1;
                    }
                    proof {
                        assert(entry.key@.take(key_count as int) =~= entry.key@);
                        assert(decreases_to!(*self => self->Dict_0));
                        assert(decreases_to!(*entries => entries@));
                        assert(decreases_to!(entries@ => entries@[i as int]));
                        assert(decreases_to!(entries@[i as int] => entries@[i as int].value));
                    }
                    let value = &entry.value;
                    value.encode_into(out);
                    proof {
                        assert(entries@.take(i + 1).drop_last() =~= entries@.take(i as int));
                        let views = entry_views(entries@.take(i + 1));
                        assert(views == entry_views(entries@.take(i as int)).push(
                            EntryView {
                                key: entries@[i as int].key@,
                                value: macro_view(entries@[i as int].value),
                            },
                        ));
                        assert(views.drop_last() =~= entry_views(entries@.take(i as int)));
                        assert(out@ =~= entries_base + spec_encode_entries(views));
                    }
                    i = i + 1;
                }
                proof {
                    assert(entries@.take(n as int) =~= entries@);
                    lemma_entry_views_len(entries@);
                    assert forall|t: int|
                        0 <= t < entry_views(entries@).len() implies (#[trigger] entry_views(
                        entries@,
                    )[t].key.len() <= u64::MAX && view_small(entry_views(entries@)[t].value)) by {
                        lemma_entry_views_index(entries@, t);
                    };
                    assert(out@ =~= base + spec_encode_value(self@));
                }
            },
        }
    }
}

proof fn lemma_chars_none_mono(bytes: Seq<u8>, i: int, k: nat, n: nat)
    requires
        k <= n,
        spec_decode_chars(bytes, i, k) is None,
    ensures
        spec_decode_chars(bytes, i, n) is None,
    decreases n,
{
    if n > k {
        lemma_chars_none_mono(bytes, i, k, (n - 1) as nat);
    }
}

proof fn lemma_items_none_mono(bytes: Seq<u8>, i: int, k: nat, n: nat)
    requires
        k <= n,
        spec_decode_items(bytes, i, k) is None,
    ensures
        spec_decode_items(bytes, i, n) is None,
    decreases n,
{
    if n > k {
        lemma_items_none_mono(bytes, i, k, (n - 1) as nat);
    }
}

proof fn lemma_entries_none_mono(bytes: Seq<u8>, i: int, k: nat, n: nat)
    requires
        k <= n,
        spec_decode_entries(bytes, i, k) is None,
    ensures
        spec_decode_entries(bytes, i, n) is None,
    decreases n,
{
    if n > k {
        lemma_entries_none_mono(bytes, i, k, (n - 1) as nat);
    }
}

/// Decodes `cnt` characters starting at `start`, exactly as
/// [`spec_decode_chars`] describes.
fn decode_chars_at(bytes: &Vec<u8>, start: usize, cnt: u64) -> (r: Result<(String, usize), ()>)
    requires
        start <= bytes@.len(),
    ensures
        r matches Ok(p) ==> spec_decode_chars(bytes@, start as int, cnt as nat) == Some(
            (p.0@, (p.1 - start) as nat),
        ) && start <= p.1 <= bytes@.len(),
        r is Err ==> spec_decode_chars(bytes@, start as int, cnt as nat) is None,
{
    let mut text = String::new();
    let mut cur: usize = start;
    let mut k: u64 = 0;
    while k < cnt
        invariant
            start <= cur <= bytes@.len(),
            k <= cnt,
            spec_decode_chars(bytes@, start as int, k as nat) == Some(
                (text@, (cur - start) as nat),
            ),
        decreases cnt - k,
    {
        if bytes.len() - cur < 4 {
            proof {
                lemma_chars_none_mono(bytes@, start as int, (k + 1) as nat, cnt as nat);
            }
            return Err(());
        }
        let u = vstd::bytes::u32_from_le_bytes(
            vstd::slice::slice_subrange(bytes.as_slice(), cur, cur + 4),
        );
        match crate::strutil::char_from_u32(u) {
            Some(c) => {
                crate::strutil::push_char(&mut text, c);
                cur = cur + 4;
            },
            None => {
                proof {
                    lemma_chars_none_mono(bytes@, start as int, (k + 1) as nat, cnt as nat);
                }
                return Err(());
            },
        }
        k = k + 1;
    }
    Ok((text, cur))
}

impl MacroValue {
    /// Decodes one node at `pos`, exactly as [`spec_decode_value`] describes.
    #[verifier::spinoff_prover]
    fn decode_at(bytes: &Vec<u8>, pos: usize) -> (r: Result<(MacroValue, usize), ()>)
        ensures
            r matches Ok(p) ==> spec_decode_value(bytes@, pos as int) == Some(
                (p.0@, (p.1 - pos) as nat),
            ) && pos < p.1 <= bytes@.len(),
            r is Err ==> spec_decode_value(bytes@, pos as int) is None,
        decreases bytes@.len() - pos,
    {
        if pos >= bytes.len() {
            return Err(());
        }
        let tag = bytes[pos];
        if tag == 0 {
            Ok((MacroValue::Null, pos + 1))
        } else if tag == 1 {
            if bytes.len() - pos < 2 {
                return Err(());
            }
            let b = bytes[pos + 1];
            if b == 0 {
                Ok((MacroValue::Bool(false), pos + 2))
            } else if b == 1 {
                Ok((MacroValue::Bool(true), pos + 2))
            } else {
                Err(())
            }
        } else if tag == 2 {
            if bytes.len() - pos < 9 {
                return Err(());
            }
            let u = vstd::bytes::u64_from_le_bytes(
                vstd::slice::slice_subrange(bytes.as_slice(), pos + 1, pos + 9),
            );
            Ok((MacroValue::Int(#[verifier::truncate] (u as i64)), pos + 9))
        } else if tag == 6 {
            if bytes.len() - pos < 9 {
                return Err(());
            }
            let u = vstd::bytes::u64_from_le_bytes(
                vstd::slice::slice_subrange(bytes.as_slice(), pos + 1, pos + 9),
            );
            Ok((MacroValue::UInt(u), pos + 9))
        } else if tag == 3 {
            if bytes.len() - pos < 9 {
                return Err(());
            }
            let cnt = vstd::bytes::u64_from_le_bytes(
                vstd::slice::slice_subrange(bytes.as_slice(), pos + 1, pos + 9),
            );
            match decode_chars_at(bytes, pos + 9, cnt) {
                Ok((text, end)) => Ok((MacroValue::Text(text), end)),
                Err(()) => Err(()),
            }
        } else if tag == 4 {
            if bytes.len() - pos < 9 {
                return Err(());
            }
            let cnt = vstd::bytes::u64_from_le_bytes(
                vstd::slice::slice_subrange(bytes.as_slice(), pos + 1, pos + 9),
            );
            let start = pos + 9;
            let mut elems: Vec<MacroValue> = Vec::new();
            let mut cur: usize = start;
            let mut k: u64 = 0;
            while k < cnt
                invariant
                    pos < start <= cur <= bytes@.len(),
                    start == pos + 9,
                    k <= cnt,
                    bytes@[pos as int] == 4,
                    cnt == spec_u64_from_le_bytes(bytes@.subrange(pos as int + 1, pos as int + 9)),
                    spec_decode_items(bytes@, start as int, k as nat) == Some(
                        (macro_views(elems@), (cur - start) as nat),
                    ),
                decreases cnt - k,
            {
                match Self::decode_at(bytes, cur) {
                    Ok((v, next)) => {
                        let ghost elems0 = elems@;
                        elems.push(v);
                        proof {
                            assert(elems@.drop_last() =~= elems0);
                            assert(elems@.last() == v);
                            assert(macro_views(elems@) == macro_views(elems0).push(v@));
                        }
                        cur = next;
                    },
                    Err(()) => {
                        proof {
                            lemma_items_none_mono(
                                bytes@,
                                start as int,
                                (k + 1) as nat,
                                cnt as nat,
                            );
                        }
                        return Err(());
                    },
                }
                k = k + 1;
            }
            Ok((MacroValue::Array(elems), cur))
        } else if tag == 5 {
            if bytes.len() - pos < 9 {
                return Err(());
            }
            let cnt = vstd::bytes::u64_from_le_bytes(
                vstd::slice::slice_subrange(bytes.as_slice(), pos + 1, pos + 9),
            );
            let start = pos + 9;
            let mut entries: Vec<MacroEntry> = Vec::new();
            let mut cur: usize = start;
            let mut k: u64 = 0;
            while k < cnt
                invariant
                    pos < start <= cur <= bytes@.len(),
                    start == pos + 9,
                    k <= cnt,
                    bytes@[pos as int] == 5,
                    cnt == spec_u64_from_le_bytes(bytes@.subrange(pos as int + 1, pos as int + 9)),
                    spec_decode_entries(bytes@, start as int, k as nat) == Some(
                        (entry_views(entries@), (cur - start) as nat),
                    ),
                decreases cnt - k,
            {
                if bytes.len() - cur < 8 {
                    proof {
                        lemma_entries_none_mono(bytes@, start as int, (k + 1) as nat, cnt as nat);
                    }
                    return Err(());
                }
                let klen = vstd::bytes::u64_from_le_bytes(
                    vstd::slice::slice_subrange(bytes.as_slice(), cur, cur + 8),
                );
                match decode_chars_at(bytes, cur + 8, klen) {
                    Ok((key, kend)) => {
                        match Self::decode_at(bytes, kend) {
                            Ok((v, next)) => {
                                let ghost entries0 = entries@;
                                let ghost key_view = key@;
                                entries.push(MacroEntry { key, value: v });
                                proof {
                                    assert(entries@.drop_last() =~= entries0);
                                    assert(entries@.last() == (MacroEntry {
                                        key: entries@.last().key,
                                        value: entries@.last().value,
                                    }));
                                    assert(entry_views(entries@) == entry_views(entries0).push(
                                        EntryView { key: key_view, value: v@ },
                                    ));
                                }
                                cur = next;
                            },
                            Err(()) => {
                                proof {
                                    lemma_entries_none_mono(
                                        bytes@,
                                        start as int,
                                        (k + 1) as nat,
                                        cnt as nat,
                                    );
                                }
                                return Err(());
                            },
                        }
                    },
                    Err(()) => {
                        proof {
                            lemma_entries_none_mono(
                                bytes@,
                                start as int,
                                (k + 1) as nat,
                                cnt as nat,
                            );
                        }
                        return Err(());
                    },
                }
                k = k + 1;
            }
            Ok((MacroValue::Dict(entries), cur))
        } else {
            Err(())
        }
    }
}

impl MacroValue {
    /// A deep copy with the same model.
    pub fn duplicate(&self) -> (r: Self)
        ensures
            r@ == self@,
        decreases *self,
    {
        match self {
            MacroValue::Null => MacroValue::Null,
            MacroValue::Bool(b) => MacroValue::Bool(*b),
            MacroValue::Int(n) => MacroValue::Int(*n),
            MacroValue::UInt(u) => MacroValue::UInt(*u),
            MacroValue::Text(s) => MacroValue::Text(s.clone()),
            MacroValue::Array(elems) => {
                let mut copies: Vec<MacroValue> = Vec::new();
                let mut i: usize = 0;
                while i < elems.len()
                    invariant
                        *self == MacroValue::Array(*elems),
                        i <= elems@.len(),
                        copies@.len() == i,
                        macro_views(copies@) == macro_views(elems@.take(i as int)),
                    decreases elems@.len() - i,
                {
                    proof {
                        assert(decreases_to!(*self => self->Array_0));
                        assert(decreases_to!(*elems => elems@));
                        assert(decreases_to!(elems@ => elems@[i as int]));
                    }
                    let element = &elems[i];
                    let copy = element.duplicate();
                    let ghost copies0 = copies@;
                    copies.push(copy);
                    proof {
                        assert(copies@.drop_last() =~= copies0);
                        assert(elems@.take(i + 1).drop_last() =~= elems@.take(i as int));
                        assert(macro_views(copies@) == macro_views(copies0).push(copy@));
                        assert(macro_views(elems@.take(i + 1)) == macro_views(
                            elems@.take(i as int),
                        ).push(macro_view(elems@[i as int])));
                    }
                    i = i + 1;
                }
                proof {
                    assert(elems@.take(elems@.len() as int) =~= elems@);
                }
                MacroValue::Array(copies)
            },
            MacroValue::Dict(entries) => {
                let mut copies: Vec<MacroEntry> = Vec::new();
                let mut i: usize = 0;
                while i < entries.len()
                    invariant
                        *self == MacroValue::Dict(*entries),
                        i <= entries@.len(),
                        copies@.len() == i,
                        entry_views(copies@) == entry_views(entries@.take(i as int)),
                    decreases entries@.len() - i,
                {
                    proof {
                        assert(decreases_to!(*self => self->Dict_0));
                        assert(decreases_to!(*entries => entries@));
                        assert(decreases_to!(entries@ => entries@[i as int]));
                        assert(decreases_to!(entries@[i as int] => entries@[i as int].value));
                    }
                    let entry = &entries[i];
                    let value_copy = entry.value.duplicate();
                    let ghost copies0 = copies@;
                    copies.push(MacroEntry { key: entry.key.clone(), value: value_copy });
                    proof {
                        assert(copies@.drop_last() =~= copies0);
                        assert(entries@.take(i + 1).drop_last() =~= entries@.take(i as int));
                        assert(entry_views(copies@) == entry_views(copies0).push(
                            EntryView { key: entries@[i as int].key@, value: value_copy@ },
                        ));
                        assert(entry_views(entries@.take(i + 1)) == entry_views(
                            entries@.take(i as int),
                        ).push(
                            EntryView {
                                key: entries@[i as int].key@,
                                value: macro_view(entries@[i as int].value),
                            },
                        ));
                    }
                    i = i + 1;
                }
                proof {
                    assert(entries@.take(entries@.len() as int) =~= entries@);
                }
                MacroValue::Dict(copies)
            },
        }
    }
}

/// The opaque structured document associated with a world at creation.
pub struct WorldMacroData {
    pub data: MacroValue,
}

impl WorldMacroData {
    pub fn create(data: MacroValue) -> (r: Self)
        ensures
            r.data == data,
    {
        WorldMacroData { data }
    }

    pub fn get_data(&self) -> (r: &MacroValue)
        ensures
            r == &self.data,
    {
        &self.data
    }

    /// Serializes the document into its deterministic binary form.
    pub fn encode(&self) -> (r: Vec<u8>)
        ensures
            r@ == spec_encode_value(self.data@),
            view_small(self.data@),
    {
        let mut out: Vec<u8> = Vec::new();
        self.data.encode_into(&mut out);
        out
    }

    /// Decodes a document from its binary form; fails on malformed input.
    pub fn decode(encoded: Vec<u8>) -> (r: Result<Self, String>)
        ensures
            (r is Ok) == (spec_decode_macro(encoded@) is Some),
            r matches Ok(w) ==> spec_decode_macro(encoded@) == Some(w.data@),
    {
        match MacroValue::decode_at(&encoded, 0) {
            Ok((value, end)) => {
                if end == encoded.len() {
                    Ok(WorldMacroData { data: value })
                } else {
                    Err(String::from_str("macro decode error: trailing bytes"))
                }
            },
            Err(()) => Err(String::from_str("macro decode error: malformed input")),
        }
    }

    /// Encodes the document, then compresses the encoding at the fixed
    /// level, as the chunk pipeline does.
    pub fn compress(&self) -> (r: Vec<u8>)
        ensures
            r@ == crate::compress::zstd_frame(
                spec_encode_value(self.data@),
                crate::compress::COMPRESSION_LEVEL as int,
            ),
            view_small(self.data@),
    {
        let encoded = self.encode();
        crate::compress::zstd_compress(&encoded, crate::compress::COMPRESSION_LEVEL)
    }

    /// Decompresses, then decodes. Round-trip law: whenever `data` is the
    /// compressed form of a document, the result is `Ok` and holds exactly
    /// that document.
    pub fn decompress(data: Vec<u8>) -> (r: Result<Self, String>)
        ensures
            forall|m: MacroView|
                view_small(m) && data@ == crate::compress::zstd_frame(
                    spec_encode_value(m),
                    crate::compress::COMPRESSION_LEVEL as int,
                ) ==> r is Ok && r->Ok_0.data@ == m,
    {
        let raw = match crate::compress::zstd_decompress(&data) {
            Ok(v) => v,
            Err(e) => {
                return Err(e);
            },
        };
        match Self::decode(raw) {
            Ok(doc) => {
                proof {
                    assert forall|m: MacroView|
                        view_small(m) && data@ == crate::compress::zstd_frame(
                            spec_encode_value(m),
                            crate::compress::COMPRESSION_LEVEL as int,
                        ) implies doc.data@ == m by {
                        lemma_decode_encode_macro(m);
                    };
                }
                Ok(doc)
            },
            Err(e) => {
                proof {
                    assert forall|m: MacroView|
                        view_small(m) && data@ == crate::compress::zstd_frame(
                            spec_encode_value(m),
                            crate::compress::COMPRESSION_LEVEL as int,
                        ) implies false by {
                        lemma_decode_encode_macro(m);
                    };
                }
                Err(e)
            },
        }
    }
}

impl WorldMacroData {
    /// A deep copy with the same model.
    pub fn duplicate(&self) -> (r: Self)
        ensures
            r.data@ == self.data@,
    {
        WorldMacroData { data: self.data.duplicate() }
    }
}

impl Default for WorldMacroData {
    /// An empty document: the null node.
    fn default() -> (r: Self)
        ensures
            r.data == MacroValue::Null,
    {
        WorldMacroData { data: MacroValue::Null }
    }
}

} // verus!
