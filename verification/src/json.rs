//! JSON rendering of document values, for the plugin event envelope. The
//! output is standard JSON text: strings escape the quote, the backslash and
//! control characters, and all other characters stay as they are.
use vstd::prelude::*;

use crate::macro_data::{entry_views, macro_view, macro_views, EntryView, MacroValue, MacroView};
use crate::strutil::{push_char, spec_digit_char, spec_u64_digits, u64_to_string};
use vstd::utf8::is_scalar;

verus! {

/// The hexadecimal digit character for `d`.
pub open spec fn spec_hex_char(d: int) -> char {
    if d < 10 {
        spec_digit_char(d)
    } else if d == 10 {
        'a'
    } else if d == 11 {
        'b'
    } else if d == 12 {
        'c'
    } else if d == 13 {
        'd'
    } else if d == 14 {
        'e'
    } else {
        'f'
    }
}

/// The JSON escape of one character.
pub open spec fn spec_escape_char(c: char) -> Seq<char> {
    if c == '"' {
        seq!['\\', '"']
    } else if c == '\\' {
        seq!['\\', '\\']
    } else if c == '\n' {
        seq!['\\', 'n']
    } else if c == '\r' {
        seq!['\\', 'r']
    } else if c == '\t' {
        seq!['\\', 't']
    } else if (c as u32) < 32 {
        seq!['\\', 'u', '0', '0', spec_hex_char(c as u32 as int / 16), spec_hex_char(
            c as u32 as int % 16,
        )]
    } else {
        seq![c]
    }
}

/// The escaped form of a string's characters.
pub open spec fn spec_escape_text(s: Seq<char>) -> Seq<char>
    decreases s.len(),
{
    if s.len() == 0 {
        Seq::empty()
    } else {
        spec_escape_text(s.drop_last()) + spec_escape_char(s.last())
    }
}

/// Escaping leaves a string of plain characters — no quote, no backslash,
/// no control character — unchanged.
pub proof fn lemma_escape_plain(s: Seq<char>)
    requires
        forall|t: int|
            0 <= t < s.len() ==> (#[trigger] s[t]) != '"' && s[t] != '\\' && (s[t] as u32) >= 32,
    ensures
        spec_escape_text(s) == s,
    decreases s.len(),
{
    if s.len() == 0 {
        assert(spec_escape_text(s) =~= s);
    } else {
        assert forall|t: int|
            0 <= t < s.drop_last().len() implies (#[trigger] s.drop_last()[t]) != '"'
            && s.drop_last()[t] != '\\' && (s.drop_last()[t] as u32) >= 32 by {
            assert(s.drop_last()[t] == s[t]);
        };
        lemma_escape_plain(s.drop_last());
        assert(s.last() == s[s.len() - 1]);
        assert(spec_escape_char(s.last()) =~= seq![s.last()]);
        assert(spec_escape_text(s) =~= s);
    }
}

/// The decimal form of a signed integer.
pub open spec fn spec_i64_digits(n: int) -> Seq<char> {
    if n >= 0 {
        spec_u64_digits(n as nat)
    } else {
        seq!['-'] + spec_u64_digits((-n) as nat)
    }
}

/// The JSON text of a document node.
pub open spec fn spec_json_of(m: MacroView) -> Seq<char>
    decreases m,
{
    match m {
        MacroView::Null => "null"@,
        MacroView::Bool(b) => if b {
            "true"@
        } else {
            "false"@
        },
        MacroView::Int(n) => spec_i64_digits(n as int),
        MacroView::UInt(u) => spec_u64_digits(u as nat),
        MacroView::Text(s) => seq!['"'] + spec_escape_text(s) + seq!['"'],
        MacroView::Array(vs) => seq!['['] + spec_json_of_items(vs) + seq![']'],
        MacroView::Dict(ms) => seq!['{'] + spec_json_of_entries(ms) + seq!['}'],
    }
}

/// Comma-separated JSON texts of array elements.
pub open spec fn spec_json_of_items(vs: Seq<MacroView>) -> Seq<char>
    decreases vs,
{
    if vs.len() == 0 {
        Seq::empty()
    } else if vs.len() == 1 {
        spec_json_of(vs.last())
    } else {
        spec_json_of_items(vs.drop_last()) + seq![','] + spec_json_of(vs.last())
    }
}

/// Comma-separated `"key":value` members of a map.
pub open spec fn spec_json_of_entries(ms: Seq<EntryView>) -> Seq<char>
    decreases ms,
{
    if ms.len() == 0 {
        Seq::empty()
    } else if ms.len() == 1 {
        spec_json_of_entry(ms.last())
    } else {
        spec_json_of_entries(ms.drop_last()) + seq![','] + spec_json_of_entry(ms.last())
    }
}

pub open spec fn spec_json_of_entry(e: EntryView) -> Seq<char>
    decreases e,
{
    seq!['"'] + spec_escape_text(e.key) + seq!['"', ':'] + spec_json_of(e.value)
}

fn hex_char(d: u32) -> (c: char)
    requires
        d < 16,
    ensures
        c == spec_hex_char(d as int),
{
    if d == 0 {
        '0'
    } else if d == 1 {
        '1'
    } else if d == 2 {
        '2'
    } else if d == 3 {
        '3'
    } else if d == 4 {
        '4'
    } else if d == 5 {
        '5'
    } else if d == 6 {
        '6'
    } else if d == 7 {
        '7'
    } else if d == 8 {
        '8'
    } else if d == 9 {
        '9'
    } else if d == 10 {
        'a'
    } else if d == 11 {
        'b'
    } else if d == 12 {
        'c'
    } else if d == 13 {
        'd'
    } else if d == 14 {
        'e'
    } else {
        'f'
    }
}

/// Appends the escaped characters of `s` to `out`.
pub(crate) fn escape_text_into(s: &str, out: &mut String)
    ensures
        final(out)@ == old(out)@ + spec_escape_text(s@),
{
    let len = s.unicode_len();
    let ghost base = out@;
    let mut i: usize = 0;
    while i < len
        invariant
            len == s@.len(),
            i <= len,
            out@ == base + spec_escape_text(s@.take(i as int)),
        decreases len - i,
    {
        let ghost before = out@;
        let c = s.get_char(i);
        if c == '"' {
            push_char(out, '\\');
            push_char(out, '"');
        } else if c == '\\' {
            push_char(out, '\\');
            push_char(out, '\\');
        } else if c == '\n' {
            push_char(out, '\\');
            push_char(out, 'n');
        } else if c == '\r' {
            push_char(out, '\\');
            push_char(out, 'r');
        } else if c == '\t' {
            push_char(out, '\\');
            push_char(out, 't');
        } else if (c as u32) < 32 {
            push_char(out, '\\');
            push_char(out, 'u');
            push_char(out, '0');
            push_char(out, '0');
            push_char(out, hex_char(c as u32 / 16));
            push_char(out, hex_char(c as u32 % 16));
        } else {
            push_char(out, c);
        }
        proof {
            assert(s@.take(i + 1).drop_last() =~= s@.take(i as int));
            assert(s@.take(i + 1).last() == s@[i as int]);
            assert(out@ =~= before + spec_escape_char(s@[i as int]));
        }
        i = i + 1;
    }
    proof {
        assert(s@.take(len as int) =~= s@);
    }
}

/// The decimal form of a signed integer.
pub fn i64_to_string(n: i64) -> (r: String)
    ensures
        r@ == spec_i64_digits(n as int),
{
    if n >= 0 {
        u64_to_string(n as u64)
    } else {
        let magnitude_wide: i128 = -(n as i128);
        let magnitude: u64 = magnitude_wide as u64;
        let mut r = String::new();
        push_char(&mut r, '-');
        let digits = u64_to_string(magnitude);
        r.append(digits.as_str());
        proof {
            assert(r@ =~= seq!['-'] + spec_u64_digits(magnitude as nat));
        }
        r
    }
}

impl MacroValue {
    /// Appends this node's JSON text to `out`.
    #[verifier::spinoff_prover]
    pub fn json_into(&self, out: &mut String)
        ensures
            final(out)@ == old(out)@ + spec_json_of(self@),
        decreases *self,
    {
        let ghost base = out@;
        match self {
            MacroValue::Null => {
                out.append("null");
            },
            MacroValue::Bool(b) => {
                if *b {
                    out.append("true");
                } else {
                    out.append("false");
                }
            },
            MacroValue::Int(n) => {
                let digits = i64_to_string(*n);
                out.append(digits.as_str());
            },
            MacroValue::UInt(u) => {
                let digits = u64_to_string(*u);
                out.append(digits.as_str());
            },
            MacroValue::Text(s) => {
                push_char(out, '"');
                escape_text_into(s.as_str(), out);
                push_char(out, '"');
                proof {
                    assert(out@ =~= base + spec_json_of(self@));
                }
            },
            MacroValue::Array(elems) => {
                push_char(out, '[');
                let n = elems.len();
                let mut i: usize = 0;
                while i < n
                    invariant
                        *self == MacroValue::Array(*elems),
                        n == elems@.len(),
                        i <= n,
                        out@ == base + seq!['['] + spec_json_of_items(
                            macro_views(elems@.take(i as int)),
                        ),
                    decreases n - i,
                {
                    proof {
                        assert(decreases_to!(*self => self->Array_0));
                        assert(decreases_to!(*elems => elems@));
                        assert(decreases_to!(elems@ => elems@[i as int]));
                    }
                    if i > 0 {
                        push_char(out, ',');
                    }
                    let ghost mid = out@;
                    let element = &elems[i];
                    element.json_into(out);
                    proof {
                        let views = macro_views(elems@.take(i + 1));
                        assert(elems@.take(i + 1).drop_last() =~= elems@.take(i as int));
                        assert(views == macro_views(elems@.take(i as int)).push(
                            macro_view(elems@[i as int]),
                        ));
                        assert(views.drop_last() =~= macro_views(elems@.take(i as int)));
                        assert(views.last() == macro_view(elems@[i as int]));
                        crate::macro_data::lemma_macro_views_len(elems@.take(i as int));
                        if i == 0 {
                            assert(out@ =~= base + seq!['['] + spec_json_of_items(views));
                        } else {
                            assert(out@ =~= base + seq!['['] + spec_json_of_items(views));
                        }
                    }
                    i = i + 1;
                }
                push_char(out, ']');
                proof {
                    assert(elems@.take(n as int) =~= elems@);
                    assert(out@ =~= base + spec_json_of(self@));
                }
            },
            MacroValue::Dict(entries) => {
                push_char(out, '{');
                let n = entries.len();
                let mut i: usize = 0;
                while i < n
                    invariant
                        *self == MacroValue::Dict(*entries),
                        n == entries@.len(),
                        i <= n,
                        out@ == base + seq!['{'] + spec_json_of_entries(
                            entry_views(entries@.take(i as int)),
                        ),
                    decreases n - i,
                {
                    proof {
                        assert(decreases_to!(*self => self->Dict_0));
                        assert(decreases_to!(*entries => entries@));
                        assert(decreases_to!(entries@ => entries@[i as int]));
                        assert(decreases_to!(entries@[i as int] => entries@[i as int].value));
                    }
                    if i > 0 {
                        push_char(out, ',');
                    }
                    let ghost mid = out@;
                    let entry = &entries[i];
                    push_char(out, '"');
                    escape_text_into(entry.key.as_str(), out);
                    push_char(out, '"');
                    push_char(out, ':');
                    let value = &entry.value;
                    value.json_into(out);
                    proof {
                        let views = entry_views(entries@.take(i + 1));
                        let entry_view = EntryView {
                            key: entries@[i as int].key@,
                            value: macro_view(entries@[i as int].value),
                        };
                        assert(entries@.take(i + 1).drop_last() =~= entries@.take(i as int));
                        assert(views == entry_views(entries@.take(i as int)).push(entry_view));
                        assert(views.drop_last() =~= entry_views(entries@.take(i as int)));
                        assert(views.last() == entry_view);
                        crate::macro_data::lemma_entry_views_len(entries@.take(i as int));
                        assert(out@ =~= mid + spec_json_of_entry(entry_view));
                        assert(out@ =~= base + seq!['{'] + spec_json_of_entries(views));
                    }
                    i = i + 1;
                }
                push_char(out, '}');
                proof {
                    assert(entries@.take(n as int) =~= entries@);
                    assert(out@ =~= base + spec_json_of(self@));
                }
            },
        }
    }

    /// This node's JSON text.
    pub fn to_json(&self) -> (r: String)
        ensures
            r@ == spec_json_of(self@),
    {
        let mut out = String::new();
        self.json_into(&mut out);
        out
    }
}

/// The value of a hexadecimal digit character, if it is one.
pub open spec fn spec_hex_val(c: char) -> Option<int> {
    if '0' <= c && c <= '9' {
        Some(c as int - 48)
    } else if 'a' <= c && c <= 'f' {
        Some(c as int - 87)
    } else if 'A' <= c && c <= 'F' {
        Some(c as int - 55)
    } else {
        None
    }
}

/// The character of a simple escape (the letter after the backslash).
pub open spec fn spec_unescape(e: char) -> Option<char> {
    if e == '"' {
        Some('"')
    } else if e == '\\' {
        Some('\\')
    } else if e == '/' {
        Some('/')
    } else if e == 'n' {
        Some('\n')
    } else if e == 'r' {
        Some('\r')
    } else if e == 't' {
        Some('\t')
    } else if e == 'b' {
        Some('\u{8}')
    } else if e == 'f' {
        Some('\u{c}')
    } else {
        None
    }
}

/// The code point of a four-digit hexadecimal escape starting at `i`.
pub open spec fn spec_hex4(s: Seq<char>, i: int) -> Option<int> {
    if 0 <= i && i + 4 <= s.len() {
        match (spec_hex_val(s[i]), spec_hex_val(s[i + 1]), spec_hex_val(s[i + 2]), spec_hex_val(
            s[i + 3],
        )) {
            (Some(a), Some(b), Some(c), Some(d)) => Some(a * 4096 + b * 256 + c * 16 + d),
            _ => None,
        }
    } else {
        None
    }
}

/// Parses string contents from `i` up to and including the closing quote,
/// returning the characters and the number of input characters consumed.
pub open spec fn spec_parse_text(s: Seq<char>, i: int) -> Option<(Seq<char>, nat)>
    decreases s.len() - i,
{
    if !(0 <= i < s.len()) {
        None
    } else if s[i] == '"' {
        Some((Seq::empty(), 1))
    } else if s[i] == '\\' {
        if i + 1 < s.len() {
            if s[i + 1] == 'u' {
                match spec_hex4(s, i + 2) {
                    Some(v) => if is_scalar(v as u32) && i + 6 <= s.len() {
                        match spec_parse_text(s, i + 6) {
                            Some((cs, n)) => Some((seq![(v as u32) as char] + cs, (6 + n) as nat)),
                            None => None,
                        }
                    } else {
                        None
                    },
                    None => None,
                }
            } else {
                match spec_unescape(s[i + 1]) {
                    Some(c) => match spec_parse_text(s, i + 2) {
                        Some((cs, n)) => Some((seq![c] + cs, (2 + n) as nat)),
                        None => None,
                    },
                    None => None,
                }
            }
        } else {
            None
        }
    } else {
        match spec_parse_text(s, i + 1) {
            Some((cs, n)) => Some((seq![s[i]] + cs, (1 + n) as nat)),
            None => None,
        }
    }
}

/// The number of consecutive decimal digits starting at `i`.
pub open spec fn spec_digit_run(s: Seq<char>, i: int) -> nat
    decreases s.len() - i,
{
    if 0 <= i < s.len() && '0' <= s[i] && s[i] <= '9' {
        (1 + spec_digit_run(s, i + 1)) as nat
    } else {
        0
    }
}

/// Parses a JSON integer at `i`: an optional minus sign and a non-empty
/// digit run. Values in the `i64` range become `Int`; larger non-negative
/// values up to `u64::MAX` become `UInt`.
pub open spec fn spec_parse_number(s: Seq<char>, i: int) -> Option<(MacroView, nat)> {
    if !(0 <= i < s.len()) {
        None
    } else {
        let neg = s[i] == '-';
        let d0 = if neg {
            i + 1
        } else {
            i
        };
        let k = spec_digit_run(s, d0);
        if k == 0 {
            None
        } else {
            let v = crate::strutil::spec_digits_value(s.subrange(d0, d0 + k));
            if neg {
                if -v >= i64::MIN {
                    Some((MacroView::Int((-v) as i64), (1 + k) as nat))
                } else {
                    None
                }
            } else {
                if v <= i64::MAX {
                    Some((MacroView::Int(v as i64), k))
                } else if v <= u64::MAX {
                    Some((MacroView::UInt(v as u64), k))
                } else {
                    None
                }
            }
        }
    }
}

/// Parses one JSON value at `i`, returning it with the number of input
/// characters consumed. The grammar is the compact form this module prints:
/// no whitespace between tokens.
pub open spec fn spec_parse_value(s: Seq<char>, i: int) -> Option<(MacroView, nat)>
    decreases s.len() - i, 0int,
{
    if !(0 <= i < s.len()) {
        None
    } else {
        let c = s[i];
        if c == 'n' {
            if i + 4 <= s.len() && s[i + 1] == 'u' && s[i + 2] == 'l' && s[i + 3] == 'l' {
                Some((MacroView::Null, 4))
            } else {
                None
            }
        } else if c == 't' {
            if i + 4 <= s.len() && s[i + 1] == 'r' && s[i + 2] == 'u' && s[i + 3] == 'e' {
                Some((MacroView::Bool(true), 4))
            } else {
                None
            }
        } else if c == 'f' {
            if i + 5 <= s.len() && s[i + 1] == 'a' && s[i + 2] == 'l' && s[i + 3] == 's' && s[i + 4]
                == 'e' {
                Some((MacroView::Bool(false), 5))
            } else {
                None
            }
        } else if c == '"' {
            match spec_parse_text(s, i + 1) {
                Some((cs, n)) => Some((MacroView::Text(cs), (1 + n) as nat)),
                None => None,
            }
        } else if c == '[' {
            if i + 1 < s.len() && s[i + 1] == ']' {
                Some((MacroView::Array(Seq::empty()), 2))
            } else {
                match spec_parse_items(s, i + 1) {
                    Some((vs, n)) => Some((MacroView::Array(vs), (1 + n) as nat)),
                    None => None,
                }
            }
        } else if c == '{' {
            if i + 1 < s.len() && s[i + 1] == '}' {
                Some((MacroView::Dict(Seq::empty()), 2))
            } else {
                match spec_parse_entries(s, i + 1) {
                    Some((ms, n)) => Some((MacroView::Dict(ms), (1 + n) as nat)),
                    None => None,
                }
            }
        } else if c == '-' || ('0' <= c && c <= '9') {
            spec_parse_number(s, i)
        } else {
            None
        }
    }
}

/// Parses the elements of a non-empty array from the first element at `i`,
/// consuming through the closing bracket.
pub open spec fn spec_parse_items(s: Seq<char>, i: int) -> Option<(Seq<MacroView>, nat)>
    decreases s.len() - i, 1int,
{
    if !(0 <= i <= s.len()) {
        None
    } else {
        match spec_parse_value(s, i) {
            Some((v, n)) => if i + n < s.len() {
                if s[i + n] == ']' {
                    Some((seq![v], (n + 1) as nat))
                } else if s[i + n] == ',' {
                    match spec_parse_items(s, i + n + 1) {
                        Some((vs, m)) => Some((seq![v] + vs, (n + 1 + m) as nat)),
                        None => None,
                    }
                } else {
                    None
                }
            } else {
                None
            },
            None => None,
        }
    }
}

/// Parses the entries of a non-empty map from the first key's quote at `i`,
/// consuming through the closing brace.
pub open spec fn spec_parse_entries(s: Seq<char>, i: int) -> Option<(Seq<EntryView>, nat)>
    decreases s.len() - i, 1int,
{
    if !(0 <= i < s.len()) {
        None
    } else if s[i] != '"' {
        None
    } else {
        match spec_parse_text(s, i + 1) {
            Some((key, kn)) => {
                let j = i + 1 + kn;
                if j < s.len() && s[j] == ':' {
                    match spec_parse_value(s, j + 1) {
                        Some((v, vn)) => {
                            let end = j + 1 + vn;
                            if end < s.len() {
                                if s[end] == '}' {
                                    Some(
                                        (
                                            seq![EntryView { key, value: v }],
                                            (end + 1 - i) as nat,
                                        ),
                                    )
                                } else if s[end] == ',' {
                                    match spec_parse_entries(s, end + 1) {
                                        Some((ms, m)) => Some(
                                            (
                                                seq![EntryView { key, value: v }] + ms,
                                                (end + 1 - i + m) as nat,
                                            ),
                                        ),
                                        None => None,
                                    }
                                } else {
                                    None
                                }
                            } else {
                                None
                            }
                        },
                        None => None,
                    }
                } else {
                    None
                }
            },
            None => None,
        }
    }
}

/// Parses a whole JSON document; the input must be consumed exactly.
pub open spec fn spec_parse_json(s: Seq<char>) -> Option<MacroView> {
    match spec_parse_value(s, 0) {
        Some((m, n)) => if n == s.len() {
            Some(m)
        } else {
            None
        },
        None => None,
    }
}

/// `s` holds the characters `sub` starting at position `i`.
pub open spec fn text_at(s: Seq<char>, i: int, sub: Seq<char>) -> bool {
    0 <= i && i + sub.len() <= s.len() && s.subrange(i, i + sub.len()) == sub
}

proof fn lemma_text_at_split(s: Seq<char>, i: int, a: Seq<char>, b: Seq<char>)
    requires
        text_at(s, i, a + b),
    ensures
        text_at(s, i, a),
        text_at(s, i + a.len(), b),
{
    let ab = a + b;
    assert forall|t: int| 0 <= t < a.len() implies s[i + t] == a[t] by {
        assert(s.subrange(i, i + ab.len())[t] == ab[t]);
    };
    assert forall|t: int| 0 <= t < b.len() implies s[i + a.len() + t] == b[t] by {
        assert(s.subrange(i, i + ab.len())[a.len() + t] == ab[a.len() + t]);
    };
    assert(s.subrange(i, i + a.len()) =~= a);
    assert(s.subrange(i + a.len(), i + a.len() + b.len()) =~= b);
}

proof fn lemma_text_at_index(s: Seq<char>, i: int, sub: Seq<char>, t: int)
    requires
        text_at(s, i, sub),
        0 <= t < sub.len(),
    ensures
        s[i + t] == sub[t],
{
    assert(s.subrange(i, i + sub.len())[t] == sub[t]);
}

proof fn lemma_hex_char_val(d: int)
    requires
        0 <= d < 16,
    ensures
        spec_hex_val(spec_hex_char(d)) == Some(d),
{
}

/// Front unfolding of the back-recursive escape concatenation.
proof fn lemma_escape_text_front(s: Seq<char>)
    requires
        s.len() > 0,
    ensures
        spec_escape_text(s) == spec_escape_char(s[0]) + spec_escape_text(s.drop_first()),
    decreases s.len(),
{
    if s.len() == 1 {
        assert(s.drop_last() =~= Seq::<char>::empty());
        assert(s.drop_first() =~= Seq::<char>::empty());
        assert(s.last() == s[0]);
        assert(spec_escape_text(s) =~= spec_escape_char(s[0]) + spec_escape_text(s.drop_first()));
    } else {
        lemma_escape_text_front(s.drop_last());
        assert(s.drop_last()[0] == s[0]);
        assert(s.drop_last().drop_first() =~= s.drop_first().drop_last());
        assert(s.drop_first().last() == s.last());
        assert(spec_escape_text(s) == (spec_escape_char(s[0]) + spec_escape_text(
            s.drop_first().drop_last(),
        )) + spec_escape_char(s.last()));
        assert(spec_escape_text(s.drop_first()) == spec_escape_text(s.drop_first().drop_last())
            + spec_escape_char(s.drop_first().last()));
        assert(spec_escape_text(s) =~= spec_escape_char(s[0]) + spec_escape_text(s.drop_first()));
    }
}

/// Parsing string contents inverts escaping: at the escaped characters of
/// `content` followed by a closing quote, the parser returns `content`.
proof fn lemma_parse_print_text(s: Seq<char>, i: int, content: Seq<char>)
    requires
        text_at(s, i, spec_escape_text(content) + seq!['"']),
    ensures
        spec_parse_text(s, i) == Some(
            (content, (spec_escape_text(content).len() + 1) as nat),
        ),
    decreases content.len(),
{
    vstd::utf8::char_is_scalar(if content.len() > 0 {
        content[0]
    } else {
        'x'
    });
    if content.len() == 0 {
        assert(spec_escape_text(content) + seq!['"'] =~= seq!['"']);
        lemma_text_at_index(s, i, seq!['"'], 0);
    } else {
        let c0 = content[0];
        let rest = content.drop_first();
        lemma_escape_text_front(content);
        let e0 = spec_escape_char(c0);
        assert((e0 + spec_escape_text(rest)) + seq!['"'] =~= e0 + (spec_escape_text(rest)
            + seq!['"']));
        lemma_text_at_split(s, i, e0, spec_escape_text(rest) + seq!['"']);
        lemma_parse_print_text(s, i + e0.len(), rest);
        if c0 == '"' || c0 == '\\' || c0 == '\n' || c0 == '\r' || c0 == '\t' {
            lemma_text_at_index(s, i, e0, 0);
            lemma_text_at_index(s, i, e0, 1);
            assert(seq![c0] + rest =~= content);
        } else if (c0 as u32) < 32 {
            lemma_text_at_index(s, i, e0, 0);
            lemma_text_at_index(s, i, e0, 1);
            lemma_text_at_index(s, i, e0, 2);
            lemma_text_at_index(s, i, e0, 3);
            lemma_text_at_index(s, i, e0, 4);
            lemma_text_at_index(s, i, e0, 5);
            let hi = c0 as u32 as int / 16;
            let lo = c0 as u32 as int % 16;
            lemma_hex_char_val(hi);
            lemma_hex_char_val(lo);
            assert(spec_hex4(s, i + 2) == Some(hi * 16 + lo)) by {
                assert(s[i + 2] == '0' && s[i + 3] == '0');
                assert(spec_hex_val('0') == Some(0int));
                assert(s[i + 4] == spec_hex_char(hi));
                assert(s[i + 5] == spec_hex_char(lo));
            };
            assert(hi * 16 + lo == c0 as u32);
            vstd::utf8::char_is_scalar(c0);
            vstd::utf8::char_u32_cast(c0, c0 as u32);
            assert(seq![c0] + rest =~= content);
        } else {
            lemma_text_at_index(s, i, e0, 0);
            assert(s[i] == c0);
            assert(c0 != '"' && c0 != '\\');
            assert(seq![c0] + rest =~= content);
        }
    }
}

/// Exec test for a decimal digit character.
fn is_ascii_digit(c: char) -> (r: bool)
    ensures
        r == ('0' <= c && c <= '9'),
{
    let u = c as u32;
    48 <= u && u <= 57
}

/// Exec mirror of [`spec_hex_val`].
fn hex_val(c: char) -> (r: Option<u32>)
    ensures
        r is Some <==> spec_hex_val(c) is Some,
        r matches Some(v) ==> spec_hex_val(c) == Some(v as int) && v < 16,
{
    let u = c as u32;
    if 48 <= u && u <= 57 {
        Some(u - 48)
    } else if 97 <= u && u <= 102 {
        Some(u - 87)
    } else if 65 <= u && u <= 70 {
        Some(u - 55)
    } else {
        None
    }
}

/// Parses string contents at `i`, exactly as [`spec_parse_text`] describes.
fn parse_text_at(s: &str, i: usize) -> (r: Result<(String, usize), ()>)
    requires
        i <= s@.len(),
    ensures
        r matches Ok(p) ==> spec_parse_text(s@, i as int) == Some((p.0@, (p.1 - i) as nat)) && i
            < p.1 <= s@.len(),
        r is Err ==> spec_parse_text(s@, i as int) is None,
{
    let len = s.unicode_len();
    let mut out = String::new();
    let mut cur: usize = i;
    loop
        invariant
            len == s@.len(),
            i <= cur <= len,
            spec_parse_text(s@, i as int) == (match spec_parse_text(s@, cur as int) {
                Some((cs, n)) => Some((out@ + cs, ((cur - i) + n) as nat)),
                None => None,
            }),
        decreases len - cur,
    {
        if cur >= len {
            return Err(());
        }
        let c = s.get_char(cur);
        if c == '"' {
            proof {
                assert(out@ + Seq::<char>::empty() =~= out@);
            }
            return Ok((out, cur + 1));
        }
        if c == '\\' {
            if len - cur < 2 {
                return Err(());
            }
            let e = s.get_char(cur + 1);
            if e == 'u' {
                if len - cur < 6 {
                    return Err(());
                }
                let h0 = hex_val(s.get_char(cur + 2));
                let h1 = hex_val(s.get_char(cur + 3));
                let h2 = hex_val(s.get_char(cur + 4));
                let h3 = hex_val(s.get_char(cur + 5));
                let code: u32 = match (h0, h1, h2, h3) {
                    (Some(a), Some(b), Some(c2), Some(d)) => a * 4096 + b * 256 + c2 * 16 + d,
                    _ => {
                        return Err(());
                    },
                };
                proof {
                    assert(spec_hex4(s@, cur + 2) == Some(code as int));
                }
                let ghost out0 = out@;
                match crate::strutil::char_from_u32(code) {
                    Some(ch) => {
                        push_char(&mut out, ch);
                        proof {
                            assert(out@ =~= out0 + seq![ch]);
                        }
                        cur = cur + 6;
                    },
                    None => {
                        return Err(());
                    },
                }
            } else {
                let unescaped: char = if e == '"' {
                    '"'
                } else if e == '\\' {
                    '\\'
                } else if e == '/' {
                    '/'
                } else if e == 'n' {
                    '\n'
                } else if e == 'r' {
                    '\r'
                } else if e == 't' {
                    '\t'
                } else if e == 'b' {
                    '\u{8}'
                } else if e == 'f' {
                    '\u{c}'
                } else {
                    return Err(());
                };
                let ghost out0 = out@;
                push_char(&mut out, unescaped);
                proof {
                    assert(out@ =~= out0 + seq![unescaped]);
                }
                cur = cur + 2;
            }
        } else {
            let ghost out0 = out@;
            push_char(&mut out, c);
            proof {
                assert(out@ =~= out0 + seq![c]);
            }
            cur = cur + 1;
        }
    }
}

proof fn lemma_digit_run_is(s: Seq<char>, i: int, k: nat)
    requires
        0 <= i,
        i + k <= s.len(),
        forall|t: int| i <= t < i + k ==> '0' <= #[trigger] s[t] && s[t] <= '9',
        i + k == s.len() || !('0' <= s[i + k] && s[i + k] <= '9'),
    ensures
        spec_digit_run(s, i) == k,
    decreases k,
{
    if k > 0 {
        assert('0' <= s[i] && s[i] <= '9');
        lemma_digit_run_is(s, i + 1, (k - 1) as nat);
    }
}

/// Parses an integer at `i`, exactly as [`spec_parse_number`] describes.
fn parse_number_at(s: &str, i: usize) -> (r: Result<(MacroValue, usize), ()>)
    requires
        i < s@.len(),
    ensures
        r matches Ok(p) ==> spec_parse_number(s@, i as int) == Some(
            (p.0@, (p.1 - i) as nat),
        ) && i < p.1 <= s@.len(),
        r is Err ==> spec_parse_number(s@, i as int) is None,
{
    let len = s.unicode_len();
    let negative = s.get_char(i) == '-';
    let digits_start: usize = if negative {
        i + 1
    } else {
        i
    };
    let mut cur: usize = digits_start;
    while cur < len && is_ascii_digit(s.get_char(cur))
        invariant
            len == s@.len(),
            digits_start <= cur <= len,
            forall|t: int|
                digits_start <= t < cur ==> '0' <= #[trigger] s@[t] && s@[t] <= '9',
        decreases len - cur,
    {
        cur = cur + 1;
    }
    proof {
        lemma_digit_run_is(s@, digits_start as int, (cur - digits_start) as nat);
    }
    if cur == digits_start {
        return Err(());
    }
    let run = s.substring_char(digits_start, cur);
    proof {
        assert(run@ == s@.subrange(digits_start as int, cur as int));
        assert(s@.subrange(digits_start as int, digits_start + spec_digit_run(s@, digits_start as int))
            =~= run@);
        assert forall|t: int| 0 <= t < run@.len() implies 48 <= #[trigger] run@[t] as int <= 57 by {
            assert(run@[t] == s@[digits_start + t]);
        };
    }
    let parsed = crate::strutil::parse_u64(run);
    let magnitude: u64 = match parsed {
        Some(v) => v,
        None => {
            proof {
                crate::strutil::lemma_digits_value_nonneg(run@);
            }
            return Err(());
        },
    };
    if negative {
        if magnitude > 9223372036854775808u64 {
            return Err(());
        }
        let value: i64 = if magnitude == 9223372036854775808u64 {
            i64::MIN
        } else {
            -(magnitude as i64)
        };
        Ok((MacroValue::Int(value), cur))
    } else {
        if magnitude > i64::MAX as u64 {
            Ok((MacroValue::UInt(magnitude), cur))
        } else {
            Ok((MacroValue::Int(magnitude as i64), cur))
        }
    }
}

/// Parses one JSON value at `pos`, exactly as [`spec_parse_value`]
/// describes.
#[verifier::spinoff_prover]
fn parse_value_at(s: &str, pos: usize) -> (r: Result<(MacroValue, usize), ()>)
    requires
        pos <= s@.len(),
    ensures
        r matches Ok(p) ==> spec_parse_value(s@, pos as int) == Some(
            (p.0@, (p.1 - pos) as nat),
        ) && pos < p.1 <= s@.len(),
        r is Err ==> spec_parse_value(s@, pos as int) is None,
    decreases s@.len() - pos,
{
    let len = s.unicode_len();
    if pos >= len {
        return Err(());
    }
    let c = s.get_char(pos);
    if c == 'n' {
        if len - pos >= 4 && s.get_char(pos + 1) == 'u' && s.get_char(pos + 2) == 'l'
            && s.get_char(pos + 3) == 'l' {
            Ok((MacroValue::Null, pos + 4))
        } else {
            Err(())
        }
    } else if c == 't' {
        if len - pos >= 4 && s.get_char(pos + 1) == 'r' && s.get_char(pos + 2) == 'u'
            && s.get_char(pos + 3) == 'e' {
            Ok((MacroValue::Bool(true), pos + 4))
        } else {
            Err(())
        }
    } else if c == 'f' {
        if len - pos >= 5 && s.get_char(pos + 1) == 'a' && s.get_char(pos + 2) == 'l'
            && s.get_char(pos + 3) == 's' && s.get_char(pos + 4) == 'e' {
            Ok((MacroValue::Bool(false), pos + 5))
        } else {
            Err(())
        }
    } else if c == '"' {
        match parse_text_at(s, pos + 1) {
            Ok((text, next)) => Ok((MacroValue::Text(text), next)),
            Err(()) => Err(()),
        }
    } else if c == '[' {
        if len - pos >= 2 && s.get_char(pos + 1) == ']' {
            let empty_elems: Vec<MacroValue> = Vec::new();
            let out = MacroValue::Array(empty_elems);
            proof {
                assert(out@ == MacroView::Array(Seq::empty()));
            }
            return Ok((out, pos + 2));
        }
        let start = pos + 1;
        let mut elems: Vec<MacroValue> = Vec::new();
        let mut cur: usize = start;
        loop
            invariant
                len == s@.len(),
                pos < start <= cur <= len,
                start == pos + 1,
                s@[pos as int] == '[',
                !(pos + 1 < s@.len() && s@[pos + 1] == ']'),
                spec_parse_items(s@, start as int) == (match spec_parse_items(s@, cur as int) {
                    Some((vs, m)) => Some(
                        (macro_views(elems@) + vs, ((cur - start) + m) as nat),
                    ),
                    None => None,
                }),
            decreases s@.len() - cur,
        {
            let (element, vnext) = match parse_value_at(s, cur) {
                Ok(p) => p,
                Err(()) => {
                    return Err(());
                },
            };
            if vnext >= len {
                return Err(());
            }
            let sep = s.get_char(vnext);
            let ghost elems0 = elems@;
            elems.push(element);
            proof {
                assert(elems@.drop_last() =~= elems0);
                assert(macro_views(elems@) == macro_views(elems0).push(element@));
                assert(macro_views(elems0) + (seq![element@]) =~= macro_views(elems@));
            }
            if sep == ']' {
                proof {
                    assert(macro_views(elems0) + (seq![element@] + Seq::<MacroView>::empty())
                        =~= macro_views(elems@));
                    assert(spec_parse_items(s@, cur as int) == Some(
                        (seq![element@], ((vnext - cur) + 1) as nat),
                    ));
                    assert(seq![element@] =~= seq![element@] + Seq::<MacroView>::empty());
                    assert(spec_parse_items(s@, start as int) == Some(
                        (macro_views(elems@), ((vnext + 1) - start) as nat),
                    ));
                }
                return Ok((MacroValue::Array(elems), vnext + 1));
            }
            if sep != ',' {
                return Err(());
            }
            proof {
                assert forall|vs2: Seq<MacroView>, m2: nat|
                    spec_parse_items(s@, vnext + 1) == Some((vs2, m2)) implies macro_views(elems0)
                    + (seq![element@] + vs2) =~= macro_views(elems@) + vs2 by {}
            }
            cur = vnext + 1;
        }
    } else if c == '{' {
        if len - pos >= 2 && s.get_char(pos + 1) == '}' {
            let empty_entries: Vec<crate::macro_data::MacroEntry> = Vec::new();
            let out = MacroValue::Dict(empty_entries);
            proof {
                assert(out@ == MacroView::Dict(Seq::empty()));
            }
            return Ok((out, pos + 2));
        }
        let start = pos + 1;
        let mut entries: Vec<crate::macro_data::MacroEntry> = Vec::new();
        let mut cur: usize = start;
        loop
            invariant
                len == s@.len(),
                pos < start <= cur <= len,
                start == pos + 1,
                s@[pos as int] == '{',
                !(pos + 1 < s@.len() && s@[pos + 1] == '}'),
                spec_parse_entries(s@, start as int) == (match spec_parse_entries(
                    s@,
                    cur as int,
                ) {
                    Some((ms, m)) => Some(
                        (entry_views(entries@) + ms, ((cur - start) + m) as nat),
                    ),
                    None => None,
                }),
            decreases s@.len() - cur,
        {
            if cur >= len || s.get_char(cur) != '"' {
                return Err(());
            }
            let (key, knext) = match parse_text_at(s, cur + 1) {
                Ok(p) => p,
                Err(()) => {
                    return Err(());
                },
            };
            if knext >= len || s.get_char(knext) != ':' {
                return Err(());
            }
            let (value, vnext) = match parse_value_at(s, knext + 1) {
                Ok(p) => p,
                Err(()) => {
                    return Err(());
                },
            };
            if vnext >= len {
                return Err(());
            }
            let sep = s.get_char(vnext);
            let ghost key_view = key@;
            let ghost entries0 = entries@;
            entries.push(crate::macro_data::MacroEntry { key, value });
            proof {
                assert(entries@.drop_last() =~= entries0);
                assert(entry_views(entries@) == entry_views(entries0).push(
                    entry_views(entries@).last(),
                ));
                assert(entry_views(entries@).last() == (EntryView {
                    key: key_view,
                    value: entries@.last().value@,
                }));
            }
            let ghost pushed = EntryView { key: key_view, value: entries@.last().value@ };
            if sep == '}' {
                proof {
                    assert(entry_views(entries0) + (seq![pushed] + Seq::<EntryView>::empty())
                        =~= entry_views(entries@));
                    assert(seq![pushed] =~= seq![pushed] + Seq::<EntryView>::empty());
                    assert(entry_views(entries0) + seq![pushed] =~= entry_views(entries@));
                }
                return Ok((MacroValue::Dict(entries), vnext + 1));
            }
            if sep != ',' {
                return Err(());
            }
            proof {
                assert forall|ms2: Seq<EntryView>, m2: nat|
                    spec_parse_entries(s@, vnext + 1) == Some((ms2, m2)) implies entry_views(
                    entries0,
                ) + (seq![pushed] + ms2) =~= entry_views(entries@) + ms2 by {}
            }
            cur = vnext + 1;
        }
    } else if c == '-' || is_ascii_digit(c) {
        match parse_number_at(s, pos) {
            Ok((value, next)) => Ok((value, next)),
            Err(()) => Err(()),
        }
    } else {
        Err(())
    }
}

pub open spec fn is_digit_char(c: char) -> bool {
    '0' <= c && c <= '9'
}

/// The printed form of a value is never empty, and its first character
/// identifies the value's kind to the parser.
proof fn lemma_json_first(m: MacroView)
    ensures
        spec_json_of(m).len() > 0,
        ({
            let c = spec_json_of(m)[0];
            c == 'n' || c == 't' || c == 'f' || c == '"' || c == '[' || c == '{' || c == '-'
                || is_digit_char(c)
        }),
{
    reveal_strlit("null");
    reveal_strlit("true");
    reveal_strlit("false");
    match m {
        MacroView::Int(n) => {
            if n >= 0 {
                crate::strutil::lemma_digits_value_of_u64_digits(n as nat);
                assert(spec_json_of(m)[0] == spec_u64_digits(n as nat)[0]);
            }
        },
        MacroView::UInt(u) => {
            crate::strutil::lemma_digits_value_of_u64_digits(u as nat);
            assert(spec_json_of(m)[0] == spec_u64_digits(u as nat)[0]);
        },
        _ => {
        },
    }
}

proof fn lemma_parse_print_number(s: Seq<char>, i: int, n: i64)
    requires
        text_at(s, i, spec_i64_digits(n as int)),
        i + spec_i64_digits(n as int).len() == s.len() || !is_digit_char(
            s[i + spec_i64_digits(n as int).len()],
        ),
    ensures
        spec_parse_number(s, i) == Some(
            (MacroView::Int(n), spec_i64_digits(n as int).len() as nat),
        ),
{
    let enc = spec_i64_digits(n as int);
    if n >= 0 {
        let digits = spec_u64_digits(n as nat);
        crate::strutil::lemma_digits_value_of_u64_digits(n as nat);
        lemma_text_at_index(s, i, enc, 0);
        assert(is_digit_char(s[i]));
        assert(s[i] != '-');
        assert forall|t: int| i <= t < i + digits.len() implies is_digit_char(
            #[trigger] s[t],
        ) && '0' <= s[t] && s[t] <= '9' by {
            lemma_text_at_index(s, i, enc, t - i);
        };
        lemma_digit_run_is(s, i, digits.len());
        assert forall|t: int| 0 <= t < digits.len() implies s[i + t] == digits[t] by {
            lemma_text_at_index(s, i, enc, t);
        };
        assert(s.subrange(i, i + digits.len()) =~= digits);
    } else {
        let magnitude = -(n as int);
        let digits = spec_u64_digits(magnitude as nat);
        crate::strutil::lemma_digits_value_of_u64_digits(magnitude as nat);
        lemma_text_at_index(s, i, enc, 0);
        assert(s[i] == '-');
        assert forall|t: int| i + 1 <= t < i + 1 + digits.len() implies is_digit_char(
            #[trigger] s[t],
        ) && '0' <= s[t] && s[t] <= '9' by {
            lemma_text_at_index(s, i, enc, t - i);
            assert(enc[t - i] == digits[t - i - 1]);
        };
        lemma_digit_run_is(s, i + 1, digits.len());
        assert forall|t: int| 0 <= t < digits.len() implies s[i + 1 + t] == digits[t] by {
            lemma_text_at_index(s, i, enc, t + 1);
            assert(enc[t + 1] == digits[t]);
        };
        assert(s.subrange(i + 1, i + 1 + digits.len()) =~= digits);
    }
}

/// The document uses `UInt` nodes only for values above `i64::MAX`, the
/// form the parser itself produces. Printing maps smaller `UInt` values to
/// the same digits as `Int`, so only canonical documents parse back
/// unchanged.
pub open spec fn ints_canonical(m: MacroView) -> bool
    decreases m,
{
    match m {
        MacroView::UInt(u) => u > i64::MAX,
        MacroView::Array(vs) => forall|t: int|
            0 <= t < vs.len() ==> ints_canonical(#[trigger] vs[t]),
        MacroView::Dict(ms) => forall|t: int|
            0 <= t < ms.len() ==> ints_canonical(#[trigger] ms[t].value),
        _ => true,
    }
}

proof fn lemma_parse_print_unumber(s: Seq<char>, i: int, u: u64)
    requires
        u > i64::MAX,
        text_at(s, i, spec_u64_digits(u as nat)),
        i + spec_u64_digits(u as nat).len() == s.len() || !is_digit_char(
            s[i + spec_u64_digits(u as nat).len()],
        ),
    ensures
        spec_parse_number(s, i) == Some(
            (MacroView::UInt(u), spec_u64_digits(u as nat).len() as nat),
        ),
{
    let digits = spec_u64_digits(u as nat);
    crate::strutil::lemma_digits_value_of_u64_digits(u as nat);
    lemma_text_at_index(s, i, digits, 0);
    assert(is_digit_char(s[i]));
    assert(s[i] != '-');
    assert forall|t: int| i <= t < i + digits.len() implies is_digit_char(#[trigger] s[t]) && '0'
        <= s[t] && s[t] <= '9' by {
        lemma_text_at_index(s, i, digits, t - i);
    };
    lemma_digit_run_is(s, i, digits.len());
    assert forall|t: int| 0 <= t < digits.len() implies s[i + t] == digits[t] by {
        lemma_text_at_index(s, i, digits, t);
    };
    assert(s.subrange(i, i + digits.len()) =~= digits);
}

/// Parsing inverts printing: at the printed form of a canonical value
/// (followed by anything that cannot extend a number), the parser returns
/// that value.
proof fn lemma_parse_print_value(s: Seq<char>, i: int, m: MacroView)
    requires
        ints_canonical(m),
        text_at(s, i, spec_json_of(m)),
        i + spec_json_of(m).len() == s.len() || !is_digit_char(s[i + spec_json_of(m).len()]),
    ensures
        spec_parse_value(s, i) == Some((m, spec_json_of(m).len() as nat)),
    decreases m, 0int,
{
    reveal_strlit("null");
    reveal_strlit("true");
    reveal_strlit("false");
    let enc = spec_json_of(m);
    lemma_json_first(m);
    lemma_text_at_index(s, i, enc, 0);
    match m {
        MacroView::Null => {
            lemma_text_at_index(s, i, enc, 1);
            lemma_text_at_index(s, i, enc, 2);
            lemma_text_at_index(s, i, enc, 3);
        },
        MacroView::Bool(b) => {
            lemma_text_at_index(s, i, enc, 1);
            lemma_text_at_index(s, i, enc, 2);
            lemma_text_at_index(s, i, enc, 3);
            if !b {
                lemma_text_at_index(s, i, enc, 4);
            }
        },
        MacroView::Int(n) => {
            lemma_parse_print_number(s, i, n);
        },
        MacroView::UInt(u) => {
            lemma_parse_print_unumber(s, i, u);
        },
        MacroView::Text(content) => {
            assert(enc =~= seq!['"'] + (spec_escape_text(content) + seq!['"']));
            lemma_text_at_split(s, i, seq!['"'], spec_escape_text(content) + seq!['"']);
            lemma_parse_print_text(s, i + 1, content);
        },
        MacroView::Array(vs) => {
            if vs.len() == 0 {
                assert(enc =~= seq!['[', ']']);
                lemma_text_at_index(s, i, enc, 1);
                assert(vs =~= Seq::<MacroView>::empty());
            } else {
                assert(enc =~= seq!['['] + (spec_json_of_items(vs) + seq![']']));
                lemma_text_at_split(s, i, seq!['['], spec_json_of_items(vs) + seq![']']);
                lemma_json_items_first(vs);
                lemma_text_at_index(s, i + 1, spec_json_of_items(vs) + seq![']'], 0);
                assert(s[i + 1] != ']');
                lemma_parse_print_items(s, i + 1, vs);
            }
        },
        MacroView::Dict(ms) => {
            if ms.len() == 0 {
                assert(enc =~= seq!['{', '}']);
                lemma_text_at_index(s, i, enc, 1);
                assert(ms =~= Seq::<EntryView>::empty());
            } else {
                assert(enc =~= seq!['{'] + (spec_json_of_entries(ms) + seq!['}']));
                lemma_text_at_split(s, i, seq!['{'], spec_json_of_entries(ms) + seq!['}']);
                lemma_json_entries_first(ms);
                lemma_text_at_index(s, i + 1, spec_json_of_entries(ms) + seq!['}'], 0);
                assert(s[i + 1] != '}');
                lemma_parse_print_entries(s, i + 1, ms);
            }
        },
    }
}

/// The printed form of a non-empty element list starts with its first
/// element's first character.
proof fn lemma_json_items_first(vs: Seq<MacroView>)
    requires
        vs.len() > 0,
    ensures
        spec_json_of_items(vs).len() > 0,
        spec_json_of_items(vs)[0] == spec_json_of(vs[0])[0],
        spec_json_of_items(vs)[0] != ']' && spec_json_of_items(vs)[0] != '}',
    decreases vs,
{
    lemma_json_first(vs[0]);
    if vs.len() > 1 {
        lemma_json_items_first(vs.drop_last());
        assert(vs.drop_last()[0] == vs[0]);
    }
}

proof fn lemma_json_entries_first(ms: Seq<EntryView>)
    requires
        ms.len() > 0,
    ensures
        spec_json_of_entries(ms).len() > 0,
        spec_json_of_entries(ms)[0] == '"',
    decreases ms,
{
    if ms.len() == 1 {
        assert(spec_json_of_entries(ms) == spec_json_of_entry(ms.last()));
        assert(spec_json_of_entry(ms.last())[0] == '"');
    } else {
        lemma_json_entries_first(ms.drop_last());
        assert(spec_json_of_entries(ms)[0] == spec_json_of_entries(ms.drop_last())[0]);
    }
}

/// Front unfolding of the back-recursive element list printing.
proof fn lemma_json_items_front(vs: Seq<MacroView>)
    requires
        vs.len() > 1,
    ensures
        spec_json_of_items(vs) == spec_json_of(vs[0]) + seq![','] + spec_json_of_items(
            vs.drop_first(),
        ),
    decreases vs,
{
    if vs.len() == 2 {
        assert(vs.drop_last()[0] == vs[0]);
        assert(vs.drop_last().last() == vs[0]);
        assert(vs.drop_first().len() == 1);
        assert(vs.drop_first().last() == vs.last());
        assert(spec_json_of_items(vs.drop_last()) == spec_json_of(vs[0]));
        assert(spec_json_of_items(vs.drop_first()) == spec_json_of(vs.last()));
        assert(spec_json_of_items(vs) =~= spec_json_of(vs[0]) + seq![','] + spec_json_of_items(
            vs.drop_first(),
        ));
    } else {
        lemma_json_items_front(vs.drop_last());
        assert(vs.drop_last()[0] == vs[0]);
        assert(vs.drop_last().drop_first() =~= vs.drop_first().drop_last());
        assert(vs.drop_first().last() == vs.last());
        assert(vs.drop_first().len() > 1);
        assert(spec_json_of_items(vs) == ((spec_json_of(vs[0]) + seq![','] + spec_json_of_items(
            vs.drop_first().drop_last(),
        )) + seq![','] + spec_json_of(vs.last())));
        assert(spec_json_of_items(vs.drop_first()) == spec_json_of_items(
            vs.drop_first().drop_last(),
        ) + seq![','] + spec_json_of(vs.drop_first().last()));
        assert(spec_json_of_items(vs) =~= spec_json_of(vs[0]) + seq![','] + spec_json_of_items(
            vs.drop_first(),
        ));
    }
}

proof fn lemma_json_entries_front(ms: Seq<EntryView>)
    requires
        ms.len() > 1,
    ensures
        spec_json_of_entries(ms) == spec_json_of_entry(ms[0]) + seq![','] + spec_json_of_entries(
            ms.drop_first(),
        ),
    decreases ms,
{
    if ms.len() == 2 {
        assert(ms.drop_last()[0] == ms[0]);
        assert(ms.drop_last().last() == ms[0]);
        assert(ms.drop_first().len() == 1);
        assert(ms.drop_first().last() == ms.last());
        assert(spec_json_of_entries(ms.drop_last()) == spec_json_of_entry(ms[0]));
        assert(spec_json_of_entries(ms.drop_first()) == spec_json_of_entry(ms.last()));
        assert(spec_json_of_entries(ms) =~= spec_json_of_entry(ms[0]) + seq![',']
            + spec_json_of_entries(ms.drop_first()));
    } else {
        lemma_json_entries_front(ms.drop_last());
        assert(ms.drop_last()[0] == ms[0]);
        assert(ms.drop_last().drop_first() =~= ms.drop_first().drop_last());
        assert(ms.drop_first().last() == ms.last());
        assert(ms.drop_first().len() > 1);
        assert(spec_json_of_entries(ms) == ((spec_json_of_entry(ms[0]) + seq![',']
            + spec_json_of_entries(ms.drop_first().drop_last())) + seq![','] + spec_json_of_entry(
            ms.last(),
        )));
        assert(spec_json_of_entries(ms.drop_first()) == spec_json_of_entries(
            ms.drop_first().drop_last(),
        ) + seq![','] + spec_json_of_entry(ms.drop_first().last()));
        assert(spec_json_of_entries(ms) =~= spec_json_of_entry(ms[0]) + seq![',']
            + spec_json_of_entries(ms.drop_first()));
    }
}

proof fn lemma_parse_print_items(s: Seq<char>, i: int, vs: Seq<MacroView>)
    requires
        vs.len() >= 1,
        forall|t: int| 0 <= t < vs.len() ==> ints_canonical(#[trigger] vs[t]),
        text_at(s, i, spec_json_of_items(vs) + seq![']']),
    ensures
        spec_parse_items(s, i) == Some((vs, (spec_json_of_items(vs).len() + 1) as nat)),
    decreases vs, 1int,
{
    let first = spec_json_of(vs[0]);
    if vs.len() == 1 {
        assert(spec_json_of_items(vs) == first);
        assert(first + seq![']'] =~= spec_json_of_items(vs) + seq![']']);
        lemma_text_at_split(s, i, first, seq![']']);
        lemma_text_at_index(s, i + first.len(), seq![']'], 0);
        assert(decreases_to!(vs => vs[0]));
        lemma_parse_print_value(s, i, vs[0]);
        assert(seq![vs[0]] =~= vs);
    } else {
        lemma_json_items_front(vs);
        let rest = vs.drop_first();
        assert((first + seq![','] + spec_json_of_items(rest)) + seq![']'] =~= first + (seq![',']
            + (spec_json_of_items(rest) + seq![']'])));
        lemma_text_at_split(s, i, first, seq![','] + (spec_json_of_items(rest) + seq![']']));
        lemma_text_at_split(
            s,
            i + first.len(),
            seq![','],
            spec_json_of_items(rest) + seq![']'],
        );
        lemma_text_at_index(s, i + first.len(), seq![','], 0);
        assert(decreases_to!(vs => vs[0]));
        lemma_parse_print_value(s, i, vs[0]);
        assert(decreases_to!(vs => rest)) by {
            assert(rest =~= vs.subrange(1, vs.len() as int));
        };
        assert forall|t: int| 0 <= t < rest.len() implies ints_canonical(#[trigger] rest[t]) by {
            assert(rest[t] == vs[t + 1]);
        };
        lemma_parse_print_items(s, i + first.len() + 1, rest);
        assert(seq![vs[0]] + rest =~= vs);
    }
}

proof fn lemma_parse_print_entries(s: Seq<char>, i: int, ms: Seq<EntryView>)
    requires
        ms.len() >= 1,
        forall|t: int| 0 <= t < ms.len() ==> ints_canonical(#[trigger] ms[t].value),
        text_at(s, i, spec_json_of_entries(ms) + seq!['}']),
    ensures
        spec_parse_entries(s, i) == Some((ms, (spec_json_of_entries(ms).len() + 1) as nat)),
    decreases ms, 1int,
{
    let entry = ms[0];
    let first = spec_json_of_entry(entry);
    let key_part = seq!['"'] + spec_escape_text(entry.key) + seq!['"', ':'];
    let value_part = spec_json_of(entry.value);
    assert(first =~= key_part + value_part);
    if ms.len() == 1 {
        assert(spec_json_of_entries(ms) == first);
        assert(first + seq!['}'] =~= key_part + (value_part + seq!['}']));
        lemma_text_at_split(s, i, key_part, value_part + seq!['}']);
        lemma_entry_key_parses(s, i, entry, key_part);
        lemma_text_at_split(s, i + key_part.len(), value_part, seq!['}']);
        lemma_text_at_index(s, i + key_part.len() + value_part.len(), seq!['}'], 0);
        assert(decreases_to!(ms => ms[0]));
        assert(decreases_to!(ms[0] => ms[0].value));
        lemma_parse_print_value(s, i + key_part.len(), entry.value);
        assert(seq![entry] =~= ms);
    } else {
        lemma_json_entries_front(ms);
        let rest = ms.drop_first();
        assert((first + seq![','] + spec_json_of_entries(rest)) + seq!['}'] =~= key_part + (
        value_part + (seq![','] + (spec_json_of_entries(rest) + seq!['}']))));
        lemma_text_at_split(
            s,
            i,
            key_part,
            value_part + (seq![','] + (spec_json_of_entries(rest) + seq!['}'])),
        );
        lemma_entry_key_parses(s, i, entry, key_part);
        lemma_text_at_split(
            s,
            i + key_part.len(),
            value_part,
            seq![','] + (spec_json_of_entries(rest) + seq!['}']),
        );
        lemma_text_at_split(
            s,
            i + key_part.len() + value_part.len(),
            seq![','],
            spec_json_of_entries(rest) + seq!['}'],
        );
        lemma_text_at_index(s, i + key_part.len() + value_part.len(), seq![','], 0);
        assert(decreases_to!(ms => ms[0]));
        assert(decreases_to!(ms[0] => ms[0].value));
        lemma_parse_print_value(s, i + key_part.len(), entry.value);
        assert(decreases_to!(ms => rest)) by {
            assert(rest =~= ms.subrange(1, ms.len() as int));
        };
        assert forall|t: int| 0 <= t < rest.len() implies ints_canonical(
            #[trigger] rest[t].value,
        ) by {
            assert(rest[t] == ms[t + 1]);
        };
        lemma_parse_print_entries(s, i + key_part.len() + value_part.len() + 1, rest);
        assert(seq![entry] + rest =~= ms);
    }
}

/// The quoted, escaped key of an entry parses back to the key.
proof fn lemma_entry_key_parses(s: Seq<char>, i: int, entry: EntryView, key_part: Seq<char>)
    requires
        key_part == seq!['"'] + spec_escape_text(entry.key) + seq!['"', ':'],
        text_at(s, i, key_part),
    ensures
        s[i] == '"',
        spec_parse_text(s, i + 1) == Some((entry.key, (spec_escape_text(entry.key).len() + 1) as nat)),
        s[i + 1 + spec_escape_text(entry.key).len() + 1] == ':',
{
    lemma_text_at_index(s, i, key_part, 0);
    assert(key_part =~= seq!['"'] + (spec_escape_text(entry.key) + seq!['"']) + seq![':']);
    let quoted = spec_escape_text(entry.key) + seq!['"'];
    assert(key_part =~= (seq!['"'] + quoted) + seq![':']);
    lemma_text_at_split(s, i, seq!['"'] + quoted, seq![':']);
    lemma_text_at_split(s, i, seq!['"'], quoted);
    lemma_parse_print_text(s, i + 1, entry.key);
    lemma_text_at_index(s, i + 1 + quoted.len(), seq![':'], 0);
}

/// Round trip of the JSON codec at the specification level: parsing the
/// printed form of a canonical document gives back exactly the document.
pub proof fn lemma_parse_print_json(m: MacroView)
    requires
        ints_canonical(m),
    ensures
        spec_parse_json(spec_json_of(m)) == Some(m),
{
    let s = spec_json_of(m);
    assert(s.subrange(0, s.len() as int) =~= s);
    lemma_parse_print_value(s, 0, m);
}

/// The value of the first entry carrying `key`, if any.
pub open spec fn spec_dict_get(ms: Seq<EntryView>, key: Seq<char>) -> Option<MacroView>
    decreases ms.len(),
{
    if ms.len() == 0 {
        None
    } else if ms[0].key == key {
        Some(ms[0].value)
    } else {
        spec_dict_get(ms.drop_first(), key)
    }
}

proof fn lemma_dict_get_found(ms: Seq<EntryView>, key: Seq<char>, t: int)
    requires
        0 <= t < ms.len(),
        ms[t].key == key,
        forall|t2: int| 0 <= t2 < t ==> #[trigger] ms[t2].key != key,
    ensures
        spec_dict_get(ms, key) == Some(ms[t].value),
    decreases t,
{
    if t > 0 {
        assert(ms[0].key != key);
        assert(ms.drop_first()[t - 1] == ms[t]);
        assert forall|t2: int| 0 <= t2 < t - 1 implies #[trigger] ms.drop_first()[t2].key
            != key by {
            assert(ms.drop_first()[t2] == ms[t2 + 1]);
        };
        lemma_dict_get_found(ms.drop_first(), key, t - 1);
    }
}

proof fn lemma_dict_get_missing(ms: Seq<EntryView>, key: Seq<char>)
    requires
        forall|t: int| 0 <= t < ms.len() ==> #[trigger] ms[t].key != key,
    ensures
        spec_dict_get(ms, key) is None,
    decreases ms.len(),
{
    if ms.len() > 0 {
        assert forall|t: int| 0 <= t < ms.drop_first().len() implies #[trigger] ms.drop_first()[
            t
        ].key != key by {
            assert(ms.drop_first()[t] == ms[t + 1]);
        };
        lemma_dict_get_missing(ms.drop_first(), key);
    }
}

/// Looks up the first entry carrying `key` among a map's entries.
pub fn dict_get<'a>(entries: &'a Vec<crate::macro_data::MacroEntry>, key: &str) -> (r: Option<
    &'a MacroValue,
>)
    ensures
        (r is Some) == (spec_dict_get(entry_views(entries@), key@) is Some),
        r matches Some(v) ==> spec_dict_get(entry_views(entries@), key@) == Some(v@),
{
    let ghost views = entry_views(entries@);
    let mut t: usize = 0;
    while t < entries.len()
        invariant
            views == entry_views(entries@),
            t <= entries@.len(),
            forall|t2: int| 0 <= t2 < t ==> #[trigger] views[t2].key != key@,
        decreases entries@.len() - t,
    {
        proof {
            crate::macro_data::lemma_entry_views_index(entries@, t as int);
        }
        if crate::strutil::str_eq(entries[t].key.as_str(), key) {
            proof {
                lemma_dict_get_found(views, key@, t as int);
            }
            return Some(&entries[t].value);
        }
        t = t + 1;
    }
    proof {
        crate::macro_data::lemma_entry_views_len(entries@);
        lemma_dict_get_missing(views, key@);
    }
    None
}

/// Parses a whole JSON document; fails on any input that is not exactly the
/// compact JSON this module prints.
pub fn parse_json(s: &str) -> (r: Result<MacroValue, String>)
    ensures
        (r is Ok) == (spec_parse_json(s@) is Some),
        r matches Ok(v) ==> spec_parse_json(s@) == Some(v@),
{
    match parse_value_at(s, 0) {
        Ok((value, next)) => {
            if next == s.unicode_len() {
                Ok(value)
            } else {
                Err(String::from_str("json parse error: trailing characters"))
            }
        },
        Err(()) => Err(String::from_str("json parse error: malformed document")),
    }
}

} // verus!
