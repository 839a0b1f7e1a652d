//! Small string-building helpers over std functions that vstd leaves
//! unspecified.
use vstd::prelude::*;

verus! {

/// Relies on `String::push`: appends the given character to the end of the
/// string.
#[verifier::external_body]
pub fn push_char(s: &mut String, c: char)
    ensures
        final(s)@ == old(s)@.push(c),
{
    s.push(c);
}

/// Relies on `char::from_u32`: converts a `u32` to a `char`, returning
/// `None` exactly for surrogate code points and values above the Unicode
/// maximum.
#[verifier::external_body]
pub fn char_from_u32(u: u32) -> (r: Option<char>)
    ensures
        vstd::utf8::is_scalar(u) ==> r == Some(u as char),
        !vstd::utf8::is_scalar(u) ==> r is None,
{
    char::from_u32(u)
}

/// The decimal digit character for `d`.
pub open spec fn spec_digit_char(d: int) -> char {
    if d == 0 {
        '0'
    } else if d == 1 {
        '1'
    } else if d == 2 {
        '2'
    } else if d == 3 {
        '3'
    } else if d == 4 {
        '4'
    } else if d == 5 {
        '5'
    } else if d == 6 {
        '6'
    } else if d == 7 {
        '7'
    } else if d == 8 {
        '8'
    } else {
        '9'
    }
}

/// The decimal representation of `n`, most significant digit first, no sign
/// and no leading zeros.
pub open spec fn spec_u64_digits(n: nat) -> Seq<char>
    decreases n,
{
    if n < 10 {
        seq![spec_digit_char(n as int)]
    } else {
        spec_u64_digits(n / 10).push(spec_digit_char((n % 10) as int))
    }
}

/// The numeric value of a digit string (most significant first).
pub open spec fn spec_digits_value(s: Seq<char>) -> int
    decreases s.len(),
{
    if s.len() == 0 {
        0
    } else {
        spec_digits_value(s.drop_last()) * 10 + (s.last() as int - 48)
    }
}

pub open spec fn spec_all_digits(s: Seq<char>) -> bool {
    forall|i: int| 0 <= i < s.len() ==> 48 <= #[trigger] s[i] as int <= 57
}

/// Parsing inverts printing: the digit string of `n` has value `n`.
pub proof fn lemma_digits_value_of_u64_digits(n: nat)
    ensures
        spec_digits_value(spec_u64_digits(n)) == n,
        spec_all_digits(spec_u64_digits(n)),
        spec_u64_digits(n).len() >= 1,
    decreases n,
{
    if n < 10 {
        let s = spec_u64_digits(n);
        assert(s[0] == spec_digit_char(n as int));
        assert(s[0] as int == 48 + n);
        assert(s.drop_last() =~= Seq::<char>::empty());
        assert(s.last() == s[0]);
        assert(spec_digits_value(s) == spec_digits_value(s.drop_last()) * 10 + (s.last() as int
            - 48));
        assert(spec_digits_value(Seq::<char>::empty()) == 0);
        assert(spec_digits_value(s) == n);
    } else {
        lemma_digits_value_of_u64_digits(n / 10);
        let s = spec_u64_digits(n);
        let prefix = spec_u64_digits(n / 10);
        assert(s.drop_last() =~= prefix);
        assert(s.last() == spec_digit_char((n % 10) as int));
        assert(s.last() as int == 48 + n % 10);
        vstd::arithmetic::div_mod::lemma_fundamental_div_mod(n as int, 10);
        assert(spec_digits_value(s) == spec_digits_value(s.drop_last()) * 10 + (s.last() as int
            - 48));
        assert(spec_digits_value(s.drop_last()) == spec_digits_value(prefix));
        assert(spec_digits_value(s) == (n / 10) * 10 + (n % 10));
        assert(spec_digits_value(s) == n);
        assert forall|i: int| 0 <= i < s.len() implies 48 <= #[trigger] s[i] as int <= 57 by {
            if i < s.len() - 1 {
                assert(s[i] == prefix[i]);
            } else {
                assert(s[i] == s.last());
            }
        };
    }
}

fn digit_char(d: u64) -> (c: char)
    requires
        d < 10,
    ensures
        c == spec_digit_char(d as int),
        48 <= c as int <= 57,
{
    if d == 0 {
        '0'
    } else if d == 1 {
        '1'
    } else if d == 2 {
        '2'
    } else if d == 3 {
        '3'
    } else if d == 4 {
        '4'
    } else if d == 5 {
        '5'
    } else if d == 6 {
        '6'
    } else if d == 7 {
        '7'
    } else if d == 8 {
        '8'
    } else {
        '9'
    }
}

/// The decimal form of `n`, without sign or leading zeros.
pub fn u64_to_string(n: u64) -> (r: String)
    ensures
        r@ == spec_u64_digits(n as nat),
    decreases n,
{
    if n < 10 {
        let mut s = String::new();
        push_char(&mut s, digit_char(n));
        proof {
            assert(s@ =~= spec_u64_digits(n as nat));
        }
        s
    } else {
        let mut s = u64_to_string(n / 10);
        push_char(&mut s, digit_char(n % 10));
        s
    }
}

pub proof fn lemma_digits_value_nonneg(s: Seq<char>)
    requires
        spec_all_digits(s),
    ensures
        spec_digits_value(s) >= 0,
    decreases s.len(),
{
    if s.len() > 0 {
        assert(spec_all_digits(s.drop_last()));
        lemma_digits_value_nonneg(s.drop_last());
    }
}

proof fn lemma_digits_value_grows(s: Seq<char>, i: int)
    requires
        spec_all_digits(s),
        0 <= i <= s.len(),
    ensures
        spec_digits_value(s) >= spec_digits_value(s.take(i)),
    decreases s.len() - i,
{
    if i < s.len() {
        assert(s.take(i + 1).drop_last() =~= s.take(i));
        assert(spec_all_digits(s.take(i + 1)));
        assert(spec_all_digits(s.take(i)));
        lemma_digits_value_nonneg(s.take(i));
        assert(spec_digits_value(s.take(i + 1)) == spec_digits_value(s.take(i)) * 10 + (s[i] as int
            - 48));
        lemma_digits_value_grows(s, i + 1);
    } else {
        assert(s.take(i) =~= s);
    }
}

/// Parses an unsigned decimal integer. Succeeds exactly on non-empty strings
/// of decimal digits whose value fits in a `u64`.
pub fn parse_u64(s: &str) -> (r: Option<u64>)
    ensures
        (r is Some) <==> (s@.len() > 0 && spec_all_digits(s@) && spec_digits_value(s@)
            <= u64::MAX),
        r matches Some(n) ==> n == spec_digits_value(s@),
{
    let len = s.unicode_len();
    if len == 0 {
        return None;
    }
    let mut acc: u64 = 0;
    let mut i: usize = 0;
    while i < len
        invariant
            len == s@.len(),
            0 < len,
            i <= len,
            spec_all_digits(s@.take(i as int)),
            acc == spec_digits_value(s@.take(i as int)),
        decreases len - i,
    {
        let c = s.get_char(i);
        let u = c as u32;
        if u < 48 || u > 57 {
            proof {
                assert(!spec_all_digits(s@));
            }
            return None;
        }
        let d: u64 = (u - 48) as u64;
        proof {
            assert(s@.take(i + 1).drop_last() =~= s@.take(i as int));
            assert(s@.take(i + 1).last() == s@[i as int]);
        }
        if acc > (u64::MAX - d) / 10 {
            proof {
                lemma_digits_value_nonneg(s@.take(i as int));
                assert(spec_digits_value(s@.take(i + 1)) > u64::MAX) by (nonlinear_arith)
                    requires
                        acc > (u64::MAX - d) / 10,
                        d < 10,
                        acc == spec_digits_value(s@.take(i as int)),
                        spec_digits_value(s@.take(i + 1)) == acc * 10 + d,
                ;
                if spec_all_digits(s@) {
                    lemma_digits_value_grows(s@, i + 1);
                }
            }
            return None;
        }
        proof {
            assert(acc * 10 + d <= u64::MAX) by (nonlinear_arith)
                requires
                    acc <= (u64::MAX - d) / 10,
                    d < 10,
            ;
        }
        acc = acc * 10 + d;
        i = i + 1;
    }
    proof {
        assert(s@.take(len as int) =~= s@);
    }
    Some(acc)
}

/// Character-wise string equality.
pub fn str_eq(a: &str, b: &str) -> (r: bool)
    ensures
        r == (a@ == b@),
{
    let a_len = a.unicode_len();
    let b_len = b.unicode_len();
    if a_len != b_len {
        return false;
    }
    let mut i: usize = 0;
    while i < a_len
        invariant
            a_len == a@.len(),
            a_len == b@.len(),
            i <= a_len,
            forall|t: int| 0 <= t < i ==> a@[t] == b@[t],
        decreases a_len - i,
    {
        if a.get_char(i) != b.get_char(i) {
            return false;
        }
        i = i + 1;
    }
    proof {
        assert(a@ =~= b@);
    }
    true
}

/// The first `max` characters of `s` (all of `s` if it is shorter).
pub fn cut(s: &str, max: usize) -> (r: String)
    ensures
        r@ == if s@.len() <= max {
            s@
        } else {
            s@.take(max as int)
        },
{
    let len = s.unicode_len();
    if len <= max {
        let r = String::from_str(s);
        r
    } else {
        let prefix = s.substring_char(0, max);
        String::from_str(prefix)
    }
}

/// `s` padded on the right with spaces to `width` characters; a longer
/// string is returned unchanged.
pub fn pad_right(s: String, width: usize) -> (r: String)
    ensures
        s@.len() >= width ==> r@ == s@,
        s@.len() < width ==> r@.len() == width && r@.take(s@.len() as int) == s@ && (forall|i: int|
            s@.len() <= i < width ==> r@[i] == ' '),
{
    let mut r = s;
    let mut n = r.as_str().unicode_len();
    if n >= width {
        return r;
    }
    proof {
        assert(r@.take(r@.len() as int) =~= r@);
    }
    while n < width
        invariant
            n == r@.len(),
            s@.len() <= n <= width,
            r@.take(s@.len() as int) == s@,
            forall|i: int| s@.len() <= i < n ==> r@[i] == ' ',
        decreases width - n,
    {
        let ghost before = r@;
        push_char(&mut r, ' ');
        proof {
            assert(r@.take(s@.len() as int) =~= before.take(s@.len() as int));
        }
        n = n + 1;
    }
    r
}

/// `s` padded on the left with spaces to `width` characters; a longer
/// string is returned unchanged.
pub fn pad_left(s: &str, width: usize) -> (r: String)
    ensures
        s@.len() >= width ==> r@ == s@,
        s@.len() < width ==> r@.len() == width && r@.subrange(
            width - s@.len(),
            width as int,
        ) == s@ && (forall|i: int| 0 <= i < width - s@.len() ==> r@[i] == ' '),
{
    let len = s.unicode_len();
    let mut r = String::new();
    if len >= width {
        r.append(s);
        return r;
    }
    let mut n: usize = 0;
    while n < width - len
        invariant
            len < width,
            n <= width - len,
            r@.len() == n,
            forall|i: int| 0 <= i < n ==> r@[i] == ' ',
        decreases width - len - n,
    {
        push_char(&mut r, ' ');
        n = n + 1;
    }
    r.append(s);
    proof {
        assert(r@.subrange(width - s@.len(), width as int) =~= s@);
    }
    r
}

/// `pat` occurs in `s` as a contiguous substring.
pub open spec fn spec_contains_seq(s: Seq<char>, pat: Seq<char>) -> bool {
    exists|i: int| 0 <= i <= s.len() - pat.len() && #[trigger] s.subrange(i, i + pat.len()) == pat
}

/// Substring search by characters.
pub fn str_contains(s: &str, pat: &str) -> (r: bool)
    ensures
        r == spec_contains_seq(s@, pat@),
{
    let s_len = s.unicode_len();
    let pat_len = pat.unicode_len();
    if pat_len > s_len {
        proof {
            assert(!spec_contains_seq(s@, pat@));
        }
        return false;
    }
    let mut i: usize = 0;
    while i <= s_len - pat_len
        invariant
            s_len == s@.len(),
            pat_len == pat@.len(),
            pat_len <= s_len,
            i <= s_len - pat_len + 1,
            forall|t: int| 0 <= t < i ==> #[trigger] s@.subrange(t, t + pat@.len()) != pat@,
        decreases s_len + 1 - pat_len - i,
    {
        let mut j: usize = 0;
        let mut all_match = true;
        while j < pat_len
            invariant
                s_len == s@.len(),
                pat_len == pat@.len(),
                i + pat_len <= s_len,
                j <= pat_len,
                all_match == (forall|t: int| 0 <= t < j ==> s@[i + t] == pat@[t]),
            decreases pat_len - j,
        {
            let ghost all_before = all_match;
            if s.get_char(i + j) != pat.get_char(j) {
                all_match = false;
            }
            proof {
                if all_match {
                    assert(forall|t: int| 0 <= t < j + 1 ==> s@[i + t] == pat@[t]);
                } else {
                    if all_before && s@[i + j as int] == pat@[j as int] {
                        assert(forall|t: int| 0 <= t < j + 1 ==> s@[i + t] == pat@[t]);
                        assert(false);
                    }
                }
            }
            j = j + 1;
        }
        if all_match {
            proof {
                assert(s@.subrange(i as int, i + pat@.len()) =~= pat@);
            }
            return true;
        }
        proof {
            if s@.subrange(i as int, i + pat@.len()) == pat@ {
                assert(forall|t: int|
                    0 <= t < pat@.len() ==> s@.subrange(i as int, i + pat@.len())[t] == pat@[t]);
                let w = choose|t: int| 0 <= t < pat@.len() && s@[i + t] != pat@[t];
                assert(s@.subrange(i as int, i + pat@.len())[w] == s@[i + w]);
                assert(false);
            }
        }
        i = i + 1;
    }
    proof {
        assert forall|t: int|
            0 <= t <= s@.len() - pat@.len() implies #[trigger] s@.subrange(t, t + pat@.len())
            != pat@ by {
            assert(t < i);
        };
    }
    false
}

} // verus!
