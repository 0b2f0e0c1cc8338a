//! Dotted-triple versions with a total order and a verified parser.
//!
//! A version is `major.minor.patch` with an optional pre-release tag. The
//! order compares the numeric triple first; on equal triples a version with
//! a pre-release tag sorts before one without, and two tags compare by the
//! reversed character order of the tags, exactly as the ordering this
//! library's release timelines have always used.

use vstd::prelude::*;

use crate::digits::{
    all_digits, dec_repr, dec_value, digit_val, is_digit, lemma_dec_repr_roundtrip, parse_u32,
    push_char, u32_to_dec_string,
};

verus! {

#[derive(Debug)]
pub struct Version {
    pub major: u32,
    pub minor: u32,
    pub patch: u32,
    pub pre_release: Option<String>,
}

/// The pre-release tag as a character sequence, when there is one.
pub open spec fn spec_pre_view(p: Option<String>) -> Option<Seq<char>> {
    match p {
        Option::None => Option::None,
        Option::Some(s) => Option::Some(s@),
    }
}

/// Two versions are the same when the triples match and the tags read the
/// same.
pub open spec fn spec_version_eq(a: Version, b: Version) -> bool {
    a.major == b.major && a.minor == b.minor && a.patch == b.patch && spec_pre_view(a.pre_release)
        == spec_pre_view(b.pre_release)
}

/// Lexicographic order on character sequences, by code point.
pub open spec fn spec_chars_lt(a: Seq<char>, b: Seq<char>) -> bool
    decreases a.len(),
{
    if b.len() == 0 {
        false
    } else if a.len() == 0 {
        true
    } else if a[0] != b[0] {
        (a[0] as u32) < (b[0] as u32)
    } else {
        spec_chars_lt(a.skip(1), b.skip(1))
    }
}

/// Order on optional tags: none sorts before any tag, tags sort by
/// [`spec_chars_lt`].
pub open spec fn spec_pre_lt(a: Option<Seq<char>>, b: Option<Seq<char>>) -> bool {
    match (a, b) {
        (Option::None, Option::Some(_)) => true,
        (Option::Some(x), Option::Some(y)) => spec_chars_lt(x, y),
        _ => false,
    }
}

/// The total order on versions: the numeric triple decides first; on equal
/// triples the comparison falls to the tags in reverse, so that a tagged
/// version sorts before the untagged one.
pub open spec fn spec_version_lt(a: Version, b: Version) -> bool {
    if a.major != b.major {
        a.major < b.major
    } else if a.minor != b.minor {
        a.minor < b.minor
    } else if a.patch != b.patch {
        a.patch < b.patch
    } else {
        spec_pre_lt(spec_pre_view(b.pre_release), spec_pre_view(a.pre_release))
    }
}

/// Character-sequence comparison.
pub fn chars_lt(a: &str, b: &str) -> (r: bool)
    ensures
        r == spec_chars_lt(a@, b@),
{
    let alen = a.unicode_len();
    let blen = b.unicode_len();
    let mut i: usize = 0;
    proof {
        assert(a@.skip(0) =~= a@);
        assert(b@.skip(0) =~= b@);
    }
    loop
        invariant
            i <= alen,
            i <= blen,
            alen == a@.len(),
            blen == b@.len(),
            spec_chars_lt(a@, b@) == spec_chars_lt(a@.skip(i as int), b@.skip(i as int)),
        decreases alen - i,
    {
        if i >= blen {
            return false;
        }
        if i >= alen {
            return true;
        }
        proof {
            assert(a@.skip(i as int).skip(1) =~= a@.skip(i + 1));
            assert(b@.skip(i as int).skip(1) =~= b@.skip(i + 1));
            assert(a@.skip(i as int)[0] == a@[i as int]);
            assert(b@.skip(i as int)[0] == b@[i as int]);
        }
        let ca = a.get_char(i);
        let cb = b.get_char(i);
        if ca != cb {
            return (ca as u32) < (cb as u32);
        }
        i = i + 1;
    }
}

/// Equality of optional tags by their text.
pub fn pre_eq(a: &Option<String>, b: &Option<String>) -> (r: bool)
    ensures
        r == (spec_pre_view(*a) == spec_pre_view(*b)),
{
    match (a, b) {
        (Option::None, Option::None) => true,
        (Option::Some(x), Option::Some(y)) => {
            let r = (*x).eq(y);
            proof {
                if x@ == y@ {
                    assert(spec_pre_view(*a) == spec_pre_view(*b));
                }
            }
            r
        },
        _ => {
            proof {
                assert(spec_pre_view(*a) != spec_pre_view(*b));
            }
            false
        },
    }
}

impl Version {
    pub fn new(major: u32, minor: u32, patch: u32, pre_release: Option<String>) -> (r: Version)
        ensures
            r.major == major,
            r.minor == minor,
            r.patch == patch,
            spec_pre_view(r.pre_release) == spec_pre_view(pre_release),
    {
        Version { major, minor, patch, pre_release }
    }

    /// True when `self` sorts strictly before `other`.
    pub fn earlier_than(&self, other: &Version) -> (r: bool)
        ensures
            r == spec_version_lt(*self, *other),
    {
        if self.major != other.major {
            return self.major < other.major;
        }
        if self.minor != other.minor {
            return self.minor < other.minor;
        }
        if self.patch != other.patch {
            return self.patch < other.patch;
        }
        match (&other.pre_release, &self.pre_release) {
            (Option::None, Option::Some(_)) => true,
            (Option::Some(x), Option::Some(y)) => chars_lt(x.as_str(), y.as_str()),
            _ => false,
        }
    }

    /// True when `self` sorts strictly after `other`.
    pub fn later_than(&self, other: &Version) -> (r: bool)
        ensures
            r == spec_version_lt(*other, *self),
    {
        other.earlier_than(self)
    }

    pub fn equals(&self, other: &Version) -> (r: bool)
        ensures
            r == spec_version_eq(*self, *other),
    {
        self.major == other.major && self.minor == other.minor && self.patch == other.patch
            && pre_eq(&self.pre_release, &other.pre_release)
    }

    /// The release family: lower fields zeroed, tag dropped.
    pub fn get_major(&self) -> (r: Version)
        ensures
            r.major == self.major,
            r.minor == 0,
            r.patch == 0,
            r.pre_release is None,
    {
        Version { major: self.major, minor: 0, patch: 0, pre_release: None }
    }

    pub fn get_minor(&self) -> (r: Version)
        ensures
            r.major == self.major,
            r.minor == self.minor,
            r.patch == 0,
            r.pre_release is None,
    {
        Version { major: self.major, minor: self.minor, patch: 0, pre_release: None }
    }

    pub fn get_patch(&self) -> (r: Version)
        ensures
            r.major == self.major,
            r.minor == self.minor,
            r.patch == self.patch,
            r.pre_release is None,
    {
        Version { major: self.major, minor: self.minor, patch: self.patch, pre_release: None }
    }
}

impl Clone for Version {
    fn clone(&self) -> (r: Version)
        ensures
            r.major == self.major,
            r.minor == self.minor,
            r.patch == self.patch,
            spec_pre_view(r.pre_release) == spec_pre_view(self.pre_release),
    {
        Version {
            major: self.major,
            minor: self.minor,
            patch: self.patch,
            pre_release: match &self.pre_release {
                Option::Some(s) => Option::Some(s.clone()),
                Option::None => Option::None,
            },
        }
    }
}

impl PartialEq for Version {
    fn eq(&self, other: &Version) -> (r: bool) {
        self.equals(other)
    }
}

impl vstd::std_specs::cmp::PartialEqSpecImpl for Version {
    open spec fn obeys_eq_spec() -> bool {
        true
    }

    open spec fn eq_spec(&self, other: &Version) -> bool {
        spec_version_eq(*self, *other)
    }
}

impl PartialOrd for Version {
    fn partial_cmp(&self, other: &Version) -> (r: Option<core::cmp::Ordering>) {
        if self.earlier_than(other) {
            Some(core::cmp::Ordering::Less)
        } else if self.later_than(other) {
            Some(core::cmp::Ordering::Greater)
        } else {
            Some(core::cmp::Ordering::Equal)
        }
    }
}

impl vstd::std_specs::cmp::PartialOrdSpecImpl for Version {
    open spec fn obeys_partial_cmp_spec() -> bool {
        true
    }

    open spec fn partial_cmp_spec(&self, other: &Version) -> Option<core::cmp::Ordering> {
        if spec_version_lt(*self, *other) {
            Some(core::cmp::Ordering::Less)
        } else if spec_version_lt(*other, *self) {
            Some(core::cmp::Ordering::Greater)
        } else {
            Some(core::cmp::Ordering::Equal)
        }
    }
}

impl Default for Version {
    fn default() -> (r: Version)
        ensures
            r.major == 0,
            r.minor == 0,
            r.patch == 0,
            r.pre_release is None,
    {
        Version { major: 0, minor: 0, patch: 0, pre_release: None }
    }
}

/// Length of the maximal run of digits at the front.
pub open spec fn digit_run_len(s: Seq<char>) -> nat
    decreases s.len(),
{
    if s.len() == 0 || !is_digit(s[0]) {
        0
    } else {
        1 + digit_run_len(s.skip(1))
    }
}

/// Identifier characters: ASCII letters, digits and underscore; an
/// identifier does not start with a digit.
pub open spec fn is_ident_start(c: char) -> bool {
    (('a' as u32) <= (c as u32) && (c as u32) <= ('z' as u32)) || (('A' as u32) <= (c as u32) && (
    c as u32) <= ('Z' as u32)) || c == '_'
}

pub open spec fn is_ident_char(c: char) -> bool {
    is_ident_start(c) || is_digit(c)
}

pub open spec fn spec_is_ident(s: Seq<char>) -> bool {
    s.len() >= 1 && is_ident_start(s[0]) && forall|i: int|
        0 <= i < s.len() ==> is_ident_char(#[trigger] s[i])
}

/// The trailing part of a version string: nothing, or a dash and an
/// identifier tag.
pub open spec fn spec_parse_tail(major: int, minor: int, patch: int, t: Seq<char>) -> Option<
    (int, int, int, Option<Seq<char>>),
> {
    if t.len() == 0 {
        Option::Some((major, minor, patch, Option::None))
    } else if t[0] == '-' && spec_is_ident(t.skip(1)) {
        Option::Some((major, minor, patch, Option::Some(t.skip(1))))
    } else {
        Option::None
    }
}

/// A numeral as the version grammar accepts it: the maximal digit run at the
/// front, nonempty, without a leading zero unless it is "0" itself, and
/// fitting in `u32`.
pub open spec fn numeral_ok(t: Seq<char>) -> bool {
    digit_run_len(t) >= 1 && (t[0] != '0' || digit_run_len(t) == 1) && dec_value(
        t.subrange(0, digit_run_len(t) as int),
    ) <= u32::MAX
}

/// What parsing a version string yields. The grammar is an optional `v`,
/// major and minor numerals joined by a dot, an optional dotted patch
/// numeral (0 when absent), and an optional dash-prefixed identifier tag,
/// with nothing left over. A numeral whose value does not fit in `u32`
/// yields nothing rather than a fault.
pub open spec fn spec_parse_version(s: Seq<char>) -> Option<(int, int, int, Option<Seq<char>>)> {
    let t = if s.len() > 0 && s[0] == 'v' {
        s.skip(1)
    } else {
        s
    };
    if !numeral_ok(t) {
        Option::None
    } else {
        let l1 = digit_run_len(t) as int;
        let major = dec_value(t.subrange(0, l1));
        let t2 = t.skip(l1);
        if t2.len() == 0 || t2[0] != '.' {
            Option::None
        } else {
            let t3 = t2.skip(1);
            if !numeral_ok(t3) {
                Option::None
            } else {
                let l2 = digit_run_len(t3) as int;
                let minor = dec_value(t3.subrange(0, l2));
                let t4 = t3.skip(l2);
                if t4.len() > 0 && t4[0] == '.' && digit_run_len(t4.skip(1)) >= 1 {
                    let t5 = t4.skip(1);
                    if !numeral_ok(t5) {
                        Option::None
                    } else {
                        let l3 = digit_run_len(t5) as int;
                        let patch = dec_value(t5.subrange(0, l3));
                        spec_parse_tail(major, minor, patch, t5.skip(l3))
                    }
                } else {
                    spec_parse_tail(major, minor, 0, t4)
                }
            }
        }
    }
}

/// The digit run consists of digits.
pub proof fn lemma_digit_run_digits(t: Seq<char>)
    ensures
        digit_run_len(t) <= t.len(),
        forall|i: int| 0 <= i < digit_run_len(t) ==> is_digit(#[trigger] t[i]),
    decreases t.len(),
{
    if t.len() > 0 && is_digit(t[0]) {
        lemma_digit_run_digits(t.skip(1));
        assert forall|i: int| 0 <= i < digit_run_len(t) implies is_digit(#[trigger] t[i]) by {
            if i >= 1 {
                assert(t[i] == t.skip(1)[i - 1]);
            }
        }
    }
}

/// Index just past the digit run starting at `from`.
fn digit_run_end(s: &str, from: usize) -> (end: usize)
    requires
        from <= s@.len(),
    ensures
        from <= end <= s@.len(),
        end - from == digit_run_len(s@.skip(from as int)),
{
    let len = s.unicode_len();
    let mut end = from;
    while end < len
        invariant
            from <= end <= len,
            len == s@.len(),
            digit_run_len(s@.skip(from as int)) == end - from + digit_run_len(
                s@.skip(end as int),
            ),
        decreases len - end,
    {
        proof {
            assert(s@.skip(end as int).skip(1) =~= s@.skip(end + 1));
            assert(s@.skip(end as int)[0] == s@[end as int]);
        }
        let c = s.get_char(end);
        if crate::digits::char_digit_val(c) >= 10 {
            proof {
                assert(digit_run_len(s@.skip(end as int)) == 0);
            }
            return end;
        }
        end = end + 1;
    }
    proof {
        assert(s@.skip(len as int) =~= Seq::<char>::empty());
    }
    end
}

/// Whether the characters from `from` on form an identifier.
fn check_ident(s: &str, from: usize) -> (r: bool)
    requires
        from <= s@.len(),
    ensures
        r == spec_is_ident(s@.skip(from as int)),
{
    let ghost t = s@.skip(from as int);
    let len = s.unicode_len();
    if from >= len {
        return false;
    }
    let c0 = s.get_char(from);
    proof {
        assert(t[0] == s@[from as int]);
    }
    let start_ok = ((c0 as u32) >= ('a' as u32) && (c0 as u32) <= ('z' as u32)) || ((c0 as u32)
        >= ('A' as u32) && (c0 as u32) <= ('Z' as u32)) || c0 == '_';
    if !start_ok {
        return false;
    }
    let mut i = from;
    while i < len
        invariant
            from <= i <= len,
            len == s@.len(),
            t == s@.skip(from as int),
            forall|j: int| 0 <= j < i - from ==> is_ident_char(#[trigger] t[j]),
        decreases len - i,
    {
        let c = s.get_char(i);
        proof {
            assert(t[i - from] == s@[i as int]);
        }
        let ok = ((c as u32) >= ('a' as u32) && (c as u32) <= ('z' as u32)) || ((c as u32) >= (
        'A' as u32) && (c as u32) <= ('Z' as u32)) || c == '_' || crate::digits::char_digit_val(c)
            < 10;
        if !ok {
            return false;
        }
        i = i + 1;
    }
    true
}

/// Reads the numeral at `from`: its value and the index just past it.
fn parse_numeral(s: &str, from: usize) -> (r: Option<(u32, usize)>)
    requires
        from <= s@.len(),
    ensures
        match r {
            Option::Some(pair) => {
                &&& numeral_ok(s@.skip(from as int))
                &&& pair.1 == from + digit_run_len(s@.skip(from as int))
                &&& pair.0 == dec_value(
                    s@.skip(from as int).subrange(
                        0,
                        digit_run_len(s@.skip(from as int)) as int,
                    ),
                )
                &&& from < pair.1 <= s@.len()
            },
            Option::None => !numeral_ok(s@.skip(from as int)),
        },
{
    let ghost t = s@.skip(from as int);
    let end = digit_run_end(s, from);
    if end == from {
        return None;
    }
    proof {
        assert(t[0] == s@[from as int]);
    }
    if end - from > 1 && s.get_char(from) == '0' {
        return None;
    }
    let part = s.substring_char(from, end);
    proof {
        assert(part@ =~= t.subrange(0, digit_run_len(t) as int));
    }
    match crate::digits::parse_u32(part) {
        Option::Some(v) => {
            proof {
                assert(digit_run_len(t) >= 1);
                assert(t[0] != '0' || digit_run_len(t) == 1);
                assert(v == dec_value(t.subrange(0, digit_run_len(t) as int)));
                assert(dec_value(t.subrange(0, digit_run_len(t) as int)) <= u32::MAX);
                assert(numeral_ok(t));
                assert(end == from + digit_run_len(t));
            }
            Some((v, end))
        },
        Option::None => {
            proof {
                lemma_digit_run_digits(t);
                assert(all_digits(part@)) by {
                    assert(forall|i: int|
                        0 <= i < part@.len() ==> part@[i] == t.subrange(
                            0,
                            digit_run_len(t) as int,
                        )[i]);
                }
            }
            None
        },
    }
}

impl Version {
    /// Parses a version string by the grammar of [`spec_parse_version`].
    /// Malformed input is never fatal: it yields `None`.
    #[verifier::rlimit(40)]
    pub fn parse(input: &str) -> (r: Option<Version>)
        ensures
            match r {
                Option::Some(v) => spec_parse_version(input@) == Option::Some(
                    (v.major as int, v.minor as int, v.patch as int, spec_pre_view(v.pre_release)),
                ),
                Option::None => spec_parse_version(input@) is None,
            },
    {
        let len = input.unicode_len();
        let mut pos: usize = 0;
        if len > 0 && input.get_char(0) == 'v' {
            pos = 1;
        }
        let ghost t = input@.skip(pos as int);
        proof {
            if pos == 0 {
                assert(t =~= input@);
            }
        }
        // major numeral
        let (major, e1) = match parse_numeral(input, pos) {
            Option::Some(pair) => pair,
            Option::None => {
                return None;
            },
        };
        let ghost t2 = t.skip(digit_run_len(t) as int);
        proof {
            assert(t2 =~= input@.skip(e1 as int));
        }
        // the dot before the minor numeral
        if e1 >= len || input.get_char(e1) != '.' {
            proof {
                if e1 < len {
                    assert(t2[0] == input@[e1 as int]);
                }
            }
            return None;
        }
        proof {
            assert(t2[0] == input@[e1 as int]);
        }
        let p2 = e1 + 1;
        let ghost t3 = t2.skip(1);
        proof {
            assert(t3 =~= input@.skip(p2 as int));
        }
        // minor numeral
        let (minor, e2) = match parse_numeral(input, p2) {
            Option::Some(pair) => pair,
            Option::None => {
                return None;
            },
        };
        let ghost t4 = t3.skip(digit_run_len(t3) as int);
        proof {
            assert(t4 =~= input@.skip(e2 as int));
        }
        // optional patch numeral
        let mut patch: u32 = 0;
        let mut tail_pos = e2;
        let ghost mut ttail = t4;
        if e2 < len && input.get_char(e2) == '.' {
            let p3 = e2 + 1;
            let ghost t5 = t4.skip(1);
            proof {
                assert(t4[0] == input@[e2 as int]);
                assert(t5 =~= input@.skip(p3 as int));
            }
            let run = digit_run_end(input, p3);
            if run > p3 {
                let (pat, e3) = match parse_numeral(input, p3) {
                    Option::Some(pair) => pair,
                    Option::None => {
                        return None;
                    },
                };
                patch = pat;
                tail_pos = e3;
                proof {
                    ttail = t5.skip(digit_run_len(t5) as int);
                    assert(ttail =~= input@.skip(e3 as int));
                }
            }
        } else {
            proof {
                if t4.len() > 0 {
                    assert(t4[0] == input@[e2 as int]);
                }
            }
        }
        // optional pre-release tag, then the end of the input
        if tail_pos == len {
            proof {
                assert(ttail =~= Seq::<char>::empty());
            }
            return Some(Version { major, minor, patch, pre_release: None });
        }
        let c = input.get_char(tail_pos);
        proof {
            assert(ttail[0] == input@[tail_pos as int]);
        }
        if c != '-' {
            return None;
        }
        proof {
            assert(ttail.skip(1) =~= input@.skip(tail_pos + 1));
        }
        if !check_ident(input, tail_pos + 1) {
            return None;
        }
        let tag = input.substring_char(tail_pos + 1, len);
        proof {
            assert(tag@ =~= ttail.skip(1));
        }
        Some(Version { major, minor, patch, pre_release: Some(tag.to_owned()) })
    }

    /// Whether the string parses as a version.
    pub fn validate(input: &str) -> (r: bool)
        ensures
            r == (spec_parse_version(input@) is Some),
    {
        Version::parse(input).is_some()
    }
}

/// How a version prints: the dotted triple, then `-tag` when there is a tag.
pub open spec fn spec_version_string(v: Version) -> Seq<char> {
    let triple = dec_repr(v.major as nat) + seq!['.'] + dec_repr(v.minor as nat) + seq!['.']
        + dec_repr(v.patch as nat);
    match spec_pre_view(v.pre_release) {
        Option::Some(tag) => triple + seq!['-'] + tag,
        Option::None => triple,
    }
}

/// The digit run of a digit string followed by a non-digit covers exactly
/// the digit string.
pub proof fn lemma_digit_run_concat(a: Seq<char>, rest: Seq<char>)
    requires
        all_digits(a),
        rest.len() == 0 || !is_digit(rest[0]),
    ensures
        digit_run_len(a + rest) == a.len(),
    decreases a.len(),
{
    if a.len() == 0 {
        assert(a + rest =~= rest);
    } else {
        assert((a + rest)[0] == a[0]);
        assert((a + rest).skip(1) =~= a.skip(1) + rest);
        assert(all_digits(a.skip(1))) by {
            assert(forall|i: int| 0 <= i < a.skip(1).len() ==> a.skip(1)[i] == a[i + 1]);
        }
        lemma_digit_run_concat(a.skip(1), rest);
    }
}

/// Law: printing a version and parsing the text back yields the same
/// version, whenever the pre-release tag (if any) is an identifier — the
/// only tags the grammar can ever produce.
#[verifier::rlimit(100)]
#[verifier::spinoff_prover]
pub proof fn lemma_version_string_roundtrip(v: Version)
    requires
        match spec_pre_view(v.pre_release) {
            Option::Some(tag) => spec_is_ident(tag),
            Option::None => true,
        },
    ensures
        spec_parse_version(spec_version_string(v)) == Option::Some(
            (v.major as int, v.minor as int, v.patch as int, spec_pre_view(v.pre_release)),
        ),
{
    lemma_dec_repr_roundtrip(v.major as nat);
    lemma_dec_repr_roundtrip(v.minor as nat);
    lemma_dec_repr_roundtrip(v.patch as nat);
    let ma = dec_repr(v.major as nat);
    let mi = dec_repr(v.minor as nat);
    let pa = dec_repr(v.patch as nat);
    let tail = match spec_pre_view(v.pre_release) {
        Option::Some(tag) => seq!['-'] + tag,
        Option::None => Seq::<char>::empty(),
    };
    let s = spec_version_string(v);
    assert(s =~= ma + (seq!['.'] + mi + seq!['.'] + pa + tail));

    // no leading 'v': the first character is a digit
    assert(s[0] == ma[0]);
    assert(is_digit(s[0]));
    assert(s[0] != 'v');
    let t = s;

    // major numeral
    let rest1 = seq!['.'] + mi + seq!['.'] + pa + tail;
    lemma_digit_run_concat(ma, rest1);
    assert(digit_run_len(t) == ma.len());
    assert(t.subrange(0, ma.len() as int) =~= ma);
    assert(numeral_ok(t));
    let t2 = t.skip(ma.len() as int);
    assert(t2 =~= rest1);
    assert(t2[0] == '.');

    // minor numeral
    let t3 = t2.skip(1);
    assert(t3 =~= mi + (seq!['.'] + pa + tail));
    let rest2 = seq!['.'] + pa + tail;
    lemma_digit_run_concat(mi, rest2);
    assert(digit_run_len(t3) == mi.len());
    assert(t3.subrange(0, mi.len() as int) =~= mi);
    assert(numeral_ok(t3));
    let t4 = t3.skip(mi.len() as int);
    assert(t4 =~= rest2);
    assert(t4[0] == '.');

    // patch numeral
    let t5 = t4.skip(1);
    assert(t5 =~= pa + tail);
    assert(tail.len() == 0 || !is_digit(tail[0]));
    lemma_digit_run_concat(pa, tail);
    assert(digit_run_len(t5) == pa.len());
    assert(digit_run_len(t4.skip(1)) >= 1);
    assert(t5.subrange(0, pa.len() as int) =~= pa);
    assert(numeral_ok(t5));
    let t6 = t5.skip(pa.len() as int);
    assert(t6 =~= tail);

    // the tag, when there is one
    match spec_pre_view(v.pre_release) {
        Option::Some(tag) => {
            assert(t6[0] == '-');
            assert(t6.skip(1) =~= tag);
        },
        Option::None => {
            assert(t6.len() == 0);
        },
    }
}

/// A version string in the canonical spelling the printer produces: no `v`
/// prefix, and the patch numeral written out rather than defaulted.
pub open spec fn spec_version_canonical(s: Seq<char>) -> bool {
    &&& s.len() > 0
    &&& s[0] != 'v'
    &&& numeral_ok(s)
    &&& {
        let l1 = digit_run_len(s) as int;
        let t2 = s.skip(l1);
        &&& t2.len() > 0
        &&& t2[0] == '.'
        &&& {
            let t3 = t2.skip(1);
            &&& numeral_ok(t3)
            &&& {
                let t4 = t3.skip(digit_run_len(t3) as int);
                t4.len() > 0 && t4[0] == '.' && digit_run_len(t4.skip(1)) >= 1
            }
        }
    }
}

/// Law: parsing a canonical version string and printing the parsed value
/// reproduces the string exactly. A `v` prefix or a defaulted patch are the
/// only spellings the printer normalizes away, and the canonicality
/// premise excludes them.
#[verifier::rlimit(100)]
#[verifier::spinoff_prover]
pub proof fn lemma_version_parse_print(s: Seq<char>, v: Version)
    requires
        spec_version_canonical(s),
        spec_parse_version(s) == Option::Some(
            (v.major as int, v.minor as int, v.patch as int, spec_pre_view(v.pre_release)),
        ),
    ensures
        spec_version_string(v) == s,
{
    let l1 = digit_run_len(s) as int;
    let ma = s.subrange(0, l1);
    let t2 = s.skip(l1);
    let t3 = t2.skip(1);
    let l2 = digit_run_len(t3) as int;
    let mi = t3.subrange(0, l2);
    let t4 = t3.skip(l2);
    let t5 = t4.skip(1);
    let l3 = digit_run_len(t5) as int;
    let pa = t5.subrange(0, l3);
    let t6 = t5.skip(l3);

    lemma_digit_run_digits(s);
    lemma_digit_run_digits(t3);
    lemma_digit_run_digits(t5);
    assert(crate::digits::all_digits(ma)) by {
        assert(forall|i: int| 0 <= i < l1 ==> ma[i] == s[i]);
    }
    assert(crate::digits::all_digits(mi)) by {
        assert(forall|i: int| 0 <= i < l2 ==> mi[i] == t3[i]);
    }
    assert(crate::digits::all_digits(pa)) by {
        assert(forall|i: int| 0 <= i < l3 ==> pa[i] == t5[i]);
    }
    crate::digits::lemma_dec_repr_unique(ma);
    crate::digits::lemma_dec_repr_unique(mi);
    crate::digits::lemma_dec_repr_unique(pa);
    assert(dec_repr(v.major as nat) == ma);
    assert(dec_repr(v.minor as nat) == mi);
    assert(dec_repr(v.patch as nat) == pa);

    match spec_pre_view(v.pre_release) {
        Option::Some(tag) => {
            assert(t6.len() > 0 && t6[0] == '-');
            assert(tag == t6.skip(1));
            assert(s =~= ma + seq!['.'] + mi + seq!['.'] + pa + seq!['-'] + tag);
            assert(spec_version_string(v) =~= s);
        },
        Option::None => {
            assert(t6.len() == 0);
            assert(s =~= ma + seq!['.'] + mi + seq!['.'] + pa);
            assert(spec_version_string(v) =~= s);
        },
    }
}

impl Version {
    /// Prints the version as `major.minor.patch`, with `-tag` appended when
    /// there is a pre-release tag.
    pub fn to_fancy_string(&self) -> (r: String)
        ensures
            r@ == spec_version_string(*self),
    {
        let mut s = u32_to_dec_string(self.major);
        push_char(&mut s, '.');
        let minor = u32_to_dec_string(self.minor);
        s.append(minor.as_str());
        push_char(&mut s, '.');
        let patch = u32_to_dec_string(self.patch);
        s.append(patch.as_str());
        match &self.pre_release {
            Option::Some(tag) => {
                push_char(&mut s, '-');
                s.append(tag.as_str());
            },
            Option::None => {},
        }
        proof {
            assert(s@ =~= spec_version_string(*self));
        }
        s
    }
}

} // verus!
