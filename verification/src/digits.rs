//! Decimal numerals on character sequences.
//!
//! Dates and versions are printed and parsed through plain base-10 numerals.
//! [`dec_value`] reads a numeral, [`dec_repr`] is the canonical (no leading
//! zero) numeral of a number, and the lemmas here prove the two inverse to
//! each other, which the calendar and version round-trip laws rest on.

use vstd::prelude::*;

verus! {

/// Numeric value of a digit character; 10 marks a non-digit.
pub open spec fn digit_val(c: char) -> int {
    if c == '0' {
        0
    } else if c == '1' {
        1
    } else if c == '2' {
        2
    } else if c == '3' {
        3
    } else if c == '4' {
        4
    } else if c == '5' {
        5
    } else if c == '6' {
        6
    } else if c == '7' {
        7
    } else if c == '8' {
        8
    } else if c == '9' {
        9
    } else {
        10
    }
}

pub open spec fn is_digit(c: char) -> bool {
    digit_val(c) < 10
}

/// The digit character for a value 0 through 9.
pub open spec fn digit_char(d: int) -> char {
    if d == 0 {
        '0'
    } else if d == 1 {
        '1'
    } else if d == 2 {
        '2'
    } else if d == 3 {
        '3'
    } else if d == 4 {
        '4'
    } else if d == 5 {
        '5'
    } else if d == 6 {
        '6'
    } else if d == 7 {
        '7'
    } else if d == 8 {
        '8'
    } else {
        '9'
    }
}

pub open spec fn all_digits(s: Seq<char>) -> bool {
    forall|i: int| 0 <= i < s.len() ==> is_digit(#[trigger] s[i])
}

/// Value of a numeral, read left to right.
pub open spec fn dec_value(s: Seq<char>) -> int
    decreases s.len(),
{
    if s.len() == 0 {
        0
    } else {
        dec_value(s.drop_last()) * 10 + digit_val(s.last())
    }
}

/// The canonical numeral of a non-negative number: no leading zeros, a lone
/// "0" for zero.
pub open spec fn dec_repr(n: nat) -> Seq<char>
    decreases n,
{
    if n < 10 {
        seq![digit_char(n as int)]
    } else {
        dec_repr(n / 10).push(digit_char((n % 10) as int))
    }
}

/// The numeral left-padded with zeros to at least `width` characters, as the
/// fixed-width date fields are printed.
pub open spec fn dec_repr_pad(n: nat, width: nat) -> Seq<char> {
    if dec_repr(n).len() >= width {
        dec_repr(n)
    } else {
        Seq::new((width - dec_repr(n).len()) as nat, |i: int| '0') + dec_repr(n)
    }
}

pub proof fn lemma_dec_value_nonneg(s: Seq<char>)
    ensures
        dec_value(s) >= 0,
    decreases s.len(),
{
    if s.len() > 0 {
        lemma_dec_value_nonneg(s.drop_last());
    }
}

/// A canonical numeral consists of digits, is nonempty, and has no leading
/// zero unless it is "0" itself; and reading it back yields the number.
pub proof fn lemma_dec_repr_roundtrip(n: nat)
    ensures
        all_digits(dec_repr(n)),
        dec_repr(n).len() >= 1,
        dec_repr(n)[0] != '0' || dec_repr(n).len() == 1,
        dec_value(dec_repr(n)) == n,
        n < 10 <==> dec_repr(n).len() == 1,
    decreases n,
{
    if n < 10 {
        assert(dec_value(dec_repr(n)) == dec_value(seq![digit_char(n as int)].drop_last()) * 10
            + digit_val(seq![digit_char(n as int)].last()));
        assert(seq![digit_char(n as int)].drop_last() =~= Seq::<char>::empty());
    } else {
        lemma_dec_repr_roundtrip(n / 10);
        let s = dec_repr(n);
        let t = dec_repr(n / 10);
        assert(s == t.push(digit_char((n % 10) as int)));
        assert(s.drop_last() =~= t);
        assert(s.last() == digit_char((n % 10) as int));
        assert(dec_value(s) == dec_value(t) * 10 + digit_val(digit_char((n % 10) as int)));
        vstd::arithmetic::div_mod::lemma_fundamental_div_mod(n as int, 10);
        assert(forall|i: int|
            0 <= i < s.len() ==> is_digit(#[trigger] s[i])) by {
            assert(forall|i: int| 0 <= i < t.len() ==> s[i] == t[i]);
        }
    }
}

/// Reading a numeral with one more digit on the right.
pub proof fn lemma_dec_value_push(s: Seq<char>, c: char)
    ensures
        dec_value(s.push(c)) == dec_value(s) * 10 + digit_val(c),
{
    assert(s.push(c).drop_last() =~= s);
    assert(s.push(c).last() == c);
}

/// Zeros on the left do not change a numeral's value.
pub proof fn lemma_dec_value_prepend_zeros(k: nat, s: Seq<char>)
    ensures
        dec_value(Seq::new(k, |i: int| '0') + s) == dec_value(s),
    decreases s.len(),
{
    let z = Seq::new(k, |i: int| '0');
    if s.len() == 0 {
        assert(z + s =~= z);
        lemma_dec_value_all_zeros(k);
    } else {
        lemma_dec_value_prepend_zeros(k, s.drop_last());
        assert((z + s).drop_last() =~= z + s.drop_last());
        assert((z + s).last() == s.last());
    }
}

pub proof fn lemma_dec_value_all_zeros(k: nat)
    ensures
        dec_value(Seq::new(k, |i: int| '0')) == 0,
    decreases k,
{
    let z = Seq::new(k, |i: int| '0');
    if k > 0 {
        lemma_dec_value_all_zeros((k - 1) as nat);
        assert(z.drop_last() =~= Seq::new((k - 1) as nat, |i: int| '0'));
    }
}

/// The padded numeral still consists of digits and reads back to the number.
pub proof fn lemma_dec_repr_pad_roundtrip(n: nat, width: nat)
    ensures
        all_digits(dec_repr_pad(n, width)),
        dec_repr_pad(n, width).len() >= width,
        dec_repr_pad(n, width).len() >= 1,
        dec_value(dec_repr_pad(n, width)) == n,
{
    lemma_dec_repr_roundtrip(n);
    let r = dec_repr(n);
    if r.len() < width {
        let k = (width - r.len()) as nat;
        let z = Seq::new(k, |i: int| '0');
        lemma_dec_value_prepend_zeros(k, r);
        assert(forall|i: int|
            0 <= i < (z + r).len() ==> is_digit(#[trigger] (z + r)[i])) by {
            assert(forall|i: int| 0 <= i < k ==> (z + r)[i] == '0');
            assert(forall|i: int| k <= i < (z + r).len() ==> (z + r)[i] == r[i - k]);
        }
    }
}

/// Appending digits on the right never shrinks a numeral's value.
pub proof fn lemma_dec_value_extend_grows(s: Seq<char>, t: Seq<char>)
    requires
        s.len() <= t.len(),
        t.subrange(0, s.len() as int) =~= s,
    ensures
        dec_value(t) >= dec_value(s),
    decreases t.len() - s.len(),
{
    if t.len() > s.len() {
        let t1 = t.drop_last();
        assert(t1.subrange(0, s.len() as int) =~= s) by {
            assert(forall|i: int| 0 <= i < s.len() ==> t1[i] == t[i]);
        }
        lemma_dec_value_extend_grows(s, t1);
        lemma_dec_value_nonneg(t1);
        assert(dec_value(t) == dec_value(t1) * 10 + digit_val(t.last()));
        assert(digit_val(t.last()) >= 0);
    } else {
        assert(t =~= s);
    }
}

/// Law: a digit string without a leading zero is the canonical numeral of
/// its own value. This is the reading direction of the numeral round trip:
/// parsing a canonical numeral and printing the value reproduces the text,
/// which the calendar and version round trips refine.
pub proof fn lemma_dec_repr_unique(s: Seq<char>)
    requires
        all_digits(s),
        s.len() >= 1,
        s[0] != '0' || s.len() == 1,
    ensures
        dec_value(s) >= 0,
        dec_repr(dec_value(s) as nat) =~= s,
    decreases s.len(),
{
    lemma_dec_value_nonneg(s);
    let n = dec_value(s) as nat;
    if s.len() == 1 {
        assert(s.drop_last() =~= Seq::<char>::empty());
        assert(dec_value(Seq::<char>::empty()) == 0);
        assert(dec_value(s) == dec_value(s.drop_last()) * 10 + digit_val(s.last()));
        assert(n == digit_val(s.last()));
        assert(s =~= seq![s[0]]);
        assert(digit_char(digit_val(s[0])) == s[0]);
    } else {
        let s1 = s.drop_last();
        assert(s1[0] == s[0]);
        assert(all_digits(s1)) by {
            assert(forall|i: int| 0 <= i < s1.len() ==> s1[i] == s[i]);
        }
        lemma_dec_repr_unique(s1);
        lemma_leading_digit_value(s1);
        let v1 = dec_value(s1);
        assert(n == v1 * 10 + digit_val(s.last()));
        vstd::arithmetic::div_mod::lemma_fundamental_div_mod_converse_mod(
            n as int,
            10,
            v1,
            digit_val(s.last()),
        );
        vstd::arithmetic::div_mod::lemma_fundamental_div_mod_converse_div(
            n as int,
            10,
            v1,
            digit_val(s.last()),
        );
        assert(n >= 10);
        assert(dec_repr(n) == dec_repr(n / 10).push(digit_char((n % 10) as int)));
        assert(dec_repr(n / 10) =~= s1);
        assert(digit_char(digit_val(s.last())) == s.last());
        assert(dec_repr(n) =~= s1.push(s.last()));
        assert(s1.push(s.last()) =~= s);
    }
}

/// A digit string with a nonzero leading digit has value at least 1, and at
/// least 10 when it has two or more digits.
pub proof fn lemma_leading_digit_value(s: Seq<char>)
    requires
        all_digits(s),
        s.len() >= 1,
        s[0] != '0',
    ensures
        dec_value(s) >= 1,
        s.len() >= 2 ==> dec_value(s) >= 10,
    decreases s.len(),
{
    if s.len() == 1 {
        assert(s.drop_last() =~= Seq::<char>::empty());
        assert(dec_value(Seq::<char>::empty()) == 0);
        assert(dec_value(s) == dec_value(s.drop_last()) * 10 + digit_val(s.last()));
        assert(s.last() == s[0]);
        assert(digit_val(s[0]) >= 1);
    } else {
        let s1 = s.drop_last();
        assert(s1[0] == s[0]);
        assert(all_digits(s1)) by {
            assert(forall|i: int| 0 <= i < s1.len() ==> s1[i] == s[i]);
        }
        lemma_leading_digit_value(s1);
        assert(dec_value(s) == dec_value(s1) * 10 + digit_val(s.last()));
    }
}

/// Digit value of a character; 10 for non-digits.
pub fn char_digit_val(c: char) -> (r: u32)
    ensures
        r == digit_val(c),
{
    match c {
        '0' => 0,
        '1' => 1,
        '2' => 2,
        '3' => 3,
        '4' => 4,
        '5' => 5,
        '6' => 6,
        '7' => 7,
        '8' => 8,
        '9' => 9,
        _ => 10,
    }
}

pub fn digit_to_char(d: u32) -> (r: char)
    requires
        d <= 9,
    ensures
        r == digit_char(d as int),
{
    match d {
        0 => '0',
        1 => '1',
        2 => '2',
        3 => '3',
        4 => '4',
        5 => '5',
        6 => '6',
        7 => '7',
        8 => '8',
        _ => '9',
    }
}

/// Whether two strings read the same, character by character.
pub fn str_eq(a: &str, b: &str) -> (r: bool)
    ensures
        r == (a@ == b@),
{
    let alen = a.unicode_len();
    let blen = b.unicode_len();
    if alen != blen {
        return false;
    }
    let mut i: usize = 0;
    while i < alen
        invariant
            i <= alen,
            alen == a@.len(),
            alen == b@.len(),
            forall|j: int| 0 <= j < i ==> a@[j] == b@[j],
        decreases alen - i,
    {
        if a.get_char(i) != b.get_char(i) {
            return false;
        }
        i = i + 1;
    }
    proof {
        assert(a@ =~= b@);
    }
    true
}

/// Appends one character to a string.
///
/// Relies on `String::push`: it appends exactly the given character.
#[verifier::external_body]
pub fn push_char(s: &mut String, c: char)
    ensures
        final(s)@ == old(s)@.push(c),
{
    s.push(c);
}

/// The canonical numeral of `n`, without padding.
pub fn u32_to_dec_string(n: u32) -> (r: String)
    ensures
        r@ == dec_repr(n as nat),
    decreases n,
{
    if n < 10 {
        let mut s = String::new();
        push_char(&mut s, digit_to_char(n));
        proof {
            assert(s@ =~= dec_repr(n as nat));
        }
        s
    } else {
        let mut s = u32_to_dec_string(n / 10);
        push_char(&mut s, digit_to_char(n % 10));
        s
    }
}

/// The numeral of `n`, left-padded with zeros to at least `width` characters.
pub fn u32_to_dec_pad(n: u32, width: usize) -> (r: String)
    ensures
        r@ == dec_repr_pad(n as nat, width as nat),
{
    let digits = u32_to_dec_string(n);
    let len = digits.as_str().unicode_len();
    let mut s = String::new();
    if len < width {
        let pad = width - len;
        let mut j: usize = 0;
        while j < pad
            invariant
                j <= pad,
                s@ =~= Seq::new(j as nat, |i: int| '0'),
            decreases pad - j,
        {
            push_char(&mut s, '0');
            proof {
                assert(s@ =~= Seq::new((j + 1) as nat, |i: int| '0'));
            }
            j = j + 1;
        }
    }
    s.append(digits.as_str());
    proof {
        if len >= width {
            assert(s@ =~= digits@);
        }
    }
    s
}

/// Reads a decimal numeral. Returns the value exactly when the whole string
/// is a nonempty run of digits whose value fits in `u32`.
pub fn parse_u32(s: &str) -> (r: Option<u32>)
    ensures
        match r {
            Some(v) => s@.len() >= 1 && all_digits(s@) && v == dec_value(s@),
            None => s@.len() == 0 || !all_digits(s@) || dec_value(s@) > u32::MAX,
        },
{
    let len = s.unicode_len();
    if len == 0 {
        return None;
    }
    let mut acc: u64 = 0;
    let mut i: usize = 0;
    while i < len
        invariant
            i <= len,
            len == s@.len(),
            all_digits(s@.subrange(0, i as int)),
            acc == dec_value(s@.subrange(0, i as int)),
            acc <= u32::MAX,
        decreases len - i,
    {
        let c = s.get_char(i);
        let d = char_digit_val(c);
        if d >= 10 {
            assert(!is_digit(s@[i as int]));
            return None;
        }
        proof {
            lemma_dec_value_push(s@.subrange(0, i as int), s@[i as int]);
            assert(s@.subrange(0, (i + 1) as int) =~= s@.subrange(0, i as int).push(
                s@[i as int],
            ));
        }
        acc = acc * 10 + d as u64;
        i = i + 1;
        if acc > u32::MAX as u64 {
            proof {
                let pre = s@.subrange(0, i as int);
                if all_digits(s@) {
                    lemma_dec_value_extend_grows(pre, s@);
                    assert(s@.subrange(0, s@.len() as int) =~= s@);
                }
            }
            return None;
        }
    }
    proof {
        assert(s@.subrange(0, len as int) =~= s@);
    }
    Some(acc as u32)
}

} // verus!
