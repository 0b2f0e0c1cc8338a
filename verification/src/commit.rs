//! Commits: one observed snapshot point, a (date, hash) pair.

use vstd::prelude::*;

use crate::date::{spec_parse_date, Date};

verus! {

/// One historical observation point of the registry.
#[derive(Debug)]
pub struct Commit {
    pub date: Date,
    pub hash: String,
}

/// A commit with its date already printed, for report consumers.
#[derive(Debug)]
pub struct StringCommit {
    pub date: String,
    pub hash: String,
}

impl Clone for Commit {
    fn clone(&self) -> (r: Commit)
        ensures
            r.date == self.date,
            r.hash@ == self.hash@,
    {
        Commit { date: self.date, hash: self.hash.clone() }
    }
}

impl Clone for StringCommit {
    fn clone(&self) -> (r: StringCommit)
        ensures
            r.date@ == self.date@,
            r.hash@ == self.hash@,
    {
        StringCommit { date: self.date.clone(), hash: self.hash.clone() }
    }
}

/// Index of the first occurrence of `c`, or the length when absent.
pub open spec fn find_char(s: Seq<char>, c: char) -> int
    decreases s.len(),
{
    if s.len() == 0 {
        0
    } else if s[0] == c {
        0
    } else {
        1 + find_char(s.skip(1), c)
    }
}

pub proof fn lemma_find_char(s: Seq<char>, c: char)
    ensures
        0 <= find_char(s, c) <= s.len(),
        find_char(s, c) < s.len() ==> s[find_char(s, c)] == c,
        forall|i: int| 0 <= i < find_char(s, c) ==> s[i] != c,
    decreases s.len(),
{
    if s.len() > 0 && s[0] != c {
        lemma_find_char(s.skip(1), c);
        assert forall|i: int| 0 <= i < find_char(s, c) implies s[i] != c by {
            if i >= 1 {
                assert(s.skip(1)[i - 1] == s[i]);
            }
        }
    }
}

/// What one log line yields. The surrounding quote characters are stripped,
/// the rest splits at the first space into a date-time part and the hash,
/// and the text before the first `T` of the date-time part must parse as a
/// date. A line of any other shape yields nothing; malformed input is never
/// fatal.
pub open spec fn spec_parse_log_line(line: Seq<char>) -> Option<(Date, Seq<char>)> {
    if line.len() < 2 {
        Option::None
    } else {
        let body = line.subrange(1, line.len() - 1);
        let sp = find_char(body, ' ');
        if sp >= body.len() {
            Option::None
        } else {
            let datetime = body.subrange(0, sp);
            let hash = body.subrange(sp + 1, body.len() as int);
            let t = find_char(datetime, 'T');
            match spec_parse_date(datetime.subrange(0, t)) {
                Option::Some(d) => Option::Some((d, hash)),
                Option::None => Option::None,
            }
        }
    }
}

/// Splitting on newlines, one piece per gap.
pub open spec fn split_lines(s: Seq<char>) -> Seq<Seq<char>>
    decreases s.len(),
{
    if s.len() == 0 {
        seq![Seq::<char>::empty()]
    } else if s[0] == '\n' {
        seq![Seq::<char>::empty()] + split_lines(s.skip(1))
    } else {
        let rest = split_lines(s.skip(1));
        seq![seq![s[0]] + rest[0]] + rest.skip(1)
    }
}

pub open spec fn newline_free(s: Seq<char>) -> bool {
    forall|i: int| 0 <= i < s.len() ==> s[i] != '\n'
}

pub proof fn lemma_split_lines_free(s: Seq<char>)
    requires
        newline_free(s),
    ensures
        split_lines(s) =~~= seq![s],
    decreases s.len(),
{
    if s.len() > 0 {
        assert(newline_free(s.skip(1))) by {
            assert(forall|i: int| 0 <= i < s.skip(1).len() ==> s.skip(1)[i] == s[i + 1]);
        }
        lemma_split_lines_free(s.skip(1));
        assert(seq![s[0]] + s.skip(1) =~= s);
    }
}

pub proof fn lemma_split_lines_concat(a: Seq<char>, rest: Seq<char>)
    requires
        newline_free(a),
    ensures
        split_lines(a + seq!['\n'] + rest) =~~= seq![a] + split_lines(rest),
    decreases a.len(),
{
    let s = a + seq!['\n'] + rest;
    if a.len() == 0 {
        assert(s[0] == '\n');
        assert(s.skip(1) =~= rest);
    } else {
        let a1 = a.skip(1);
        assert(newline_free(a1)) by {
            assert(forall|i: int| 0 <= i < a1.len() ==> a1[i] == a[i + 1]);
        }
        lemma_split_lines_concat(a1, rest);
        assert(s[0] == a[0]);
        assert(s.skip(1) =~= a1 + seq!['\n'] + rest);
        let r = split_lines(s.skip(1));
        assert(r[0] == a1);
        assert(seq![s[0]] + r[0] =~= a);
        assert(r.skip(1) =~~= split_lines(rest));
    }
}

/// The commits the lines of a log yield, in order, lines of any other shape
/// skipped.
pub open spec fn spec_filter_lines(ls: Seq<Seq<char>>) -> Seq<(Date, Seq<char>)>
    decreases ls.len(),
{
    if ls.len() == 0 {
        Seq::empty()
    } else {
        spec_filter_lines(ls.drop_last()) + (match spec_parse_log_line(ls.last()) {
            Option::Some(p) => seq![p],
            Option::None => Seq::<(Date, Seq<char>)>::empty(),
        })
    }
}

/// Index of the first occurrence of `c` at or past `from`.
fn find_char_from(s: &str, from: usize, c: char) -> (r: usize)
    requires
        from <= s@.len(),
    ensures
        r - from == find_char(s@.skip(from as int), c),
        from <= r <= s@.len(),
{
    let len = s.unicode_len();
    let mut i = from;
    while i < len
        invariant
            from <= i <= len,
            len == s@.len(),
            find_char(s@.skip(from as int), c) == i - from + find_char(s@.skip(i as int), c),
            forall|j: int| from <= j < i ==> s@[j] != c,
        decreases len - i,
    {
        proof {
            assert(s@.skip(i as int).skip(1) =~= s@.skip(i + 1));
            assert(s@.skip(i as int)[0] == s@[i as int]);
        }
        if s.get_char(i) == c {
            return i;
        }
        i = i + 1;
    }
    proof {
        assert(s@.skip(len as int) =~= Seq::<char>::empty());
    }
    i
}

/// Parses the slice of `log` between `start` and `end` as one log line.
fn parse_log_line(log: &str, start: usize, end: usize) -> (r: Option<Commit>)
    requires
        start <= end <= log@.len(),
    ensures
        match r {
            Option::Some(cm) => spec_parse_log_line(log@.subrange(start as int, end as int))
                == Option::Some((cm.date, cm.hash@)),
            Option::None => spec_parse_log_line(log@.subrange(start as int, end as int)) is None,
        },
{
    let ghost line = log@.subrange(start as int, end as int);
    if end - start < 2 {
        return None;
    }
    let ghost body = line.subrange(1, line.len() - 1);
    proof {
        assert(body =~= log@.subrange(start + 1, end - 1));
        assert(body =~= log@.skip(start + 1).subrange(0, end - 1 - (start + 1)));
    }
    let sp = find_char_from(log, start + 1, ' ');
    proof {
        lemma_find_char(log@.skip(start + 1), ' ');
        if sp < end - 1 {
            assert(find_char(body, ' ') == sp - (start + 1)) by {
                lemma_find_char(body, ' ');
                assert(body[sp - (start + 1)] == log@[sp as int]);
                assert(forall|i: int| 0 <= i < sp - (start + 1) ==> body[i] == log@[start + 1 + i]);
                if find_char(body, ' ') < sp - (start + 1) {
                    assert(log@[start + 1 + find_char(body, ' ')] == ' ');
                }
            }
        } else {
            // no space inside the body: its first space index runs to its end
            assert(find_char(body, ' ') >= body.len()) by {
                lemma_find_char(body, ' ');
                if find_char(body, ' ') < body.len() {
                    assert(log@[start + 1 + find_char(body, ' ')] == ' ');
                }
            }
        }
    }
    if sp >= end - 1 {
        return None;
    }
    let ghost datetime = body.subrange(0, sp - (start + 1));
    proof {
        assert(datetime =~= log@.subrange(start + 1, sp as int));
        assert(datetime =~= log@.skip(start + 1).subrange(0, sp - (start + 1)));
    }
    let t = find_char_from(log, start + 1, 'T');
    let t_end = if t < sp {
        t
    } else {
        sp
    };
    proof {
        lemma_find_char(log@.skip(start + 1), 'T');
        lemma_find_char(datetime, 'T');
        // the first `T` of the date-time part, clipped to the part itself
        assert(find_char(datetime, 'T') == t_end - (start + 1)) by {
            assert(forall|i: int| 0 <= i < datetime.len() ==> datetime[i] == log@[start + 1 + i]);
            if t < sp {
                assert(datetime[t - (start + 1)] == log@[t as int]);
                if find_char(datetime, 'T') < t - (start + 1) {
                    assert(log@[start + 1 + find_char(datetime, 'T')] == 'T');
                }
            } else {
                if find_char(datetime, 'T') < datetime.len() {
                    assert(log@[start + 1 + find_char(datetime, 'T')] == 'T');
                }
            }
        }
    }
    let date_str = log.substring_char(start + 1, t_end);
    proof {
        assert(date_str@ =~= datetime.subrange(0, find_char(datetime, 'T')));
    }
    match Date::from_string(date_str) {
        Option::Some(d) => {
            let hash = log.substring_char(sp + 1, end - 1);
            proof {
                assert(hash@ =~= body.subrange(
                    find_char(body, ' ') + 1,
                    body.len() as int,
                ));
            }
            Some(Commit { date: d, hash: hash.to_owned() })
        },
        Option::None => None,
    }
}

impl Commit {
    /// Reads the commits out of a version-control log, one line per commit,
    /// newest last. Lines of any other shape are skipped.
    pub fn from_git_log(log: String) -> (r: Vec<Commit>)
        ensures
            ({
                let expected = spec_filter_lines(split_lines(log@));
                &&& r@.len() == expected.len()
                &&& forall|i: int|
                    0 <= i < r@.len() ==> (#[trigger] r@[i]).date == expected[i].0 && r@[i].hash@
                        == expected[i].1
            }),
    {
        let s = log.as_str();
        let len = s.unicode_len();
        let mut r: Vec<Commit> = Vec::new();
        let mut start: usize = 0;
        let ghost mut done: Seq<Seq<char>> = Seq::empty();
        let mut i: usize = 0;
        proof {
            assert(s@.skip(0) =~= s@);
            assert(done + split_lines(s@.skip(0)) =~~= split_lines(s@));
        }
        while i < len
            invariant
                start <= i <= len,
                len == s@.len(),
                s@ == log@,
                done + split_lines(s@.skip(start as int)) == split_lines(s@),
                newline_free(s@.subrange(start as int, i as int)),
                r@.len() == spec_filter_lines(done).len(),
                forall|k: int|
                    0 <= k < r@.len() ==> (#[trigger] r@[k]).date == spec_filter_lines(done)[k].0
                        && r@[k].hash@ == spec_filter_lines(done)[k].1,
            decreases len - i,
        {
            let c = s.get_char(i);
            if c == '\n' {
                let ghost piece = s@.subrange(start as int, i as int);
                proof {
                    assert(s@.skip(start as int) =~= piece + seq!['\n'] + s@.skip(i + 1));
                    lemma_split_lines_concat(piece, s@.skip(i + 1));
                    assert(split_lines(s@.skip(start as int)) == seq![piece] + split_lines(
                        s@.skip(i + 1),
                    ));
                    assert(done.push(piece) + split_lines(s@.skip(i + 1)) =~~= done + (seq![piece]
                        + split_lines(s@.skip(i + 1))));
                }
                let cm = parse_log_line(s, start, i);
                proof {
                    let done2 = done.push(piece);
                    assert(done2.drop_last() =~~= done);
                    assert(done2.last() == piece);
                }
                match cm {
                    Option::Some(cm) => {
                        r.push(cm);
                    },
                    Option::None => {},
                }
                proof {
                    done = done.push(piece);
                }
                start = i + 1;
            }
            i = i + 1;
        }
        // the final piece, after the last newline
        let ghost piece = s@.subrange(start as int, len as int);
        proof {
            assert(piece =~= s@.skip(start as int));
            lemma_split_lines_free(piece);
            let done2 = done.push(piece);
            assert(done2 =~~= done + seq![piece]);
            assert(done2 == split_lines(s@));
            assert(done2.drop_last() =~~= done);
            assert(done2.last() == piece);
        }
        let cm = parse_log_line(s, start, len);
        match cm {
            Option::Some(cm) => {
                r.push(cm);
            },
            Option::None => {},
        }
        proof {
            done = done.push(piece);
        }
        r
    }

    /// The same observation with the date printed.
    pub fn to_string_commit(&self) -> (r: StringCommit)
        ensures
            r.date@ == crate::date::spec_date_string(self.date),
            r.hash@ == self.hash@,
    {
        StringCommit { date: self.date.to_fancy_string(), hash: self.hash.clone() }
    }
}

} // verus!
