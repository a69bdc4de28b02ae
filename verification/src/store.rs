//! Stored form of the delivery log: the whole log is written as one text
//! document on every append and read back on load. One line per record,
//! fields separated by `|`, with `\`-escaping so any field text round-trips;
//! a parse of the text of any log yields exactly its records, in order.

use vstd::prelude::*;
use vstd::string::StrSliceExecFns;

use crate::log::RecordView;
use crate::log::SentLog;
use crate::log::SentRecord;

verus! {

/// How one character of a field is written: the escape `\`, the field
/// separator `|` and the record terminator newline are escaped, everything
/// else stands for itself.
pub open spec fn escaped_char(c: char) -> Seq<char> {
    if c == '\\' {
        seq!['\\', '\\']
    } else if c == '|' {
        seq!['\\', 'p']
    } else if c == '\n' {
        seq!['\\', 'n']
    } else {
        seq![c]
    }
}

/// A field's text in the stored form.
pub open spec fn escaped(s: Seq<char>) -> Seq<char>
    decreases s.len(),
{
    if s.len() == 0 {
        Seq::empty()
    } else {
        escaped_char(s[0]) + escaped(s.skip(1))
    }
}

/// The character an escape pair `\x` stands for, if any.
pub open spec fn unescaped_char(c: char) -> Option<char> {
    if c == '\\' {
        Option::Some('\\')
    } else if c == 'p' {
        Option::Some('|')
    } else if c == 'n' {
        Option::Some('\n')
    } else {
        Option::None
    }
}

/// One record's line: escaped email and timestamp, the success flag as
/// `1` or `0`, then `N` for no error or `S` and the escaped description,
/// closed by a newline.
pub open spec fn record_text(r: RecordView) -> Seq<char> {
    escaped(r.email) + seq!['|'] + escaped(r.sent_at) + seq!['|'] + (if r.success {
        seq!['1']
    } else {
        seq!['0']
    }) + seq!['|'] + (match r.error {
        Option::Some(e) => seq!['S'] + escaped(e),
        Option::None => seq!['N'],
    }) + seq!['\n']
}

/// The whole document: the records' lines in order.
pub open spec fn log_text(rs: Seq<RecordView>) -> Seq<char>
    decreases rs.len(),
{
    if rs.len() == 0 {
        Seq::empty()
    } else {
        record_text(rs[0]) + log_text(rs.skip(1))
    }
}

/// Reads one field up to its terminator `end`: the field's characters and
/// how many characters of `s` were consumed, terminator included. Fails on
/// a bad escape, a bare special character, or a missing terminator.
pub open spec fn parse_field(s: Seq<char>, end: char) -> Option<(Seq<char>, nat)>
    decreases s.len(),
{
    if s.len() == 0 {
        Option::None
    } else if s[0] == end {
        Option::Some((Seq::empty(), 1nat))
    } else if s[0] == '\\' {
        if s.len() < 2 {
            Option::None
        } else {
            match unescaped_char(s[1]) {
                Option::Some(c) => match parse_field(s.skip(2), end) {
                    Option::Some(fu) => Option::Some((seq![c] + fu.0, fu.1 + 2)),
                    Option::None => Option::None,
                },
                Option::None => Option::None,
            }
        }
    } else if s[0] == '|' || s[0] == '\n' {
        Option::None
    } else {
        match parse_field(s.skip(1), end) {
            Option::Some(fu) => Option::Some((seq![s[0]] + fu.0, fu.1 + 1)),
            Option::None => Option::None,
        }
    }
}

/// Reads one record line from the front of `s`: the record and how many
/// characters it occupied.
pub open spec fn parse_record(s: Seq<char>) -> Option<(RecordView, nat)> {
    match parse_field(s, '|') {
        Option::Some((email, u1)) => {
            let s1 = s.skip(u1 as int);
            match parse_field(s1, '|') {
                Option::Some((sent_at, u2)) => {
                    let s2 = s1.skip(u2 as int);
                    if s2.len() >= 2 && (s2[0] == '1' || s2[0] == '0') && s2[1] == '|' {
                        let success = s2[0] == '1';
                        let s3 = s2.skip(2);
                        if s3.len() >= 2 && s3[0] == 'N' && s3[1] == '\n' {
                            Option::Some(
                                (
                                    RecordView { email, sent_at, success, error: Option::None },
                                    u1 + u2 + 4,
                                ),
                            )
                        } else if s3.len() >= 1 && s3[0] == 'S' {
                            match parse_field(s3.skip(1), '\n') {
                                Option::Some((err, u3)) => Option::Some(
                                    (
                                        RecordView {
                                            email,
                                            sent_at,
                                            success,
                                            error: Option::Some(err),
                                        },
                                        u1 + u2 + 3 + u3,
                                    ),
                                ),
                                Option::None => Option::None,
                            }
                        } else {
                            Option::None
                        }
                    } else {
                        Option::None
                    }
                },
                Option::None => Option::None,
            }
        },
        Option::None => Option::None,
    }
}

/// Reads a whole document: all its records, or nothing if any part of the
/// text is not a well-formed record line.
pub open spec fn parsed_log(s: Seq<char>) -> Option<Seq<RecordView>>
    decreases s.len(),
{
    if s.len() == 0 {
        Option::Some(Seq::empty())
    } else {
        match parse_record(s) {
            Option::Some((r, used)) => if 1 <= used <= s.len() {
                match parsed_log(s.skip(used as int)) {
                    Option::Some(rest) => Option::Some(seq![r] + rest),
                    Option::None => Option::None,
                }
            } else {
                Option::None
            },
            Option::None => Option::None,
        }
    }
}

proof fn lemma_parse_escaped(f: Seq<char>, end: char, rest: Seq<char>)
    requires
        end == '|' || end == '\n',
    ensures
        parse_field(escaped(f) + seq![end] + rest, end) == Option::Some(
            (f, (escaped(f).len() + 1) as nat),
        ),
    decreases f.len(),
{
    let s = escaped(f) + seq![end] + rest;
    if f.len() == 0 {
        assert(s =~= seq![end] + rest);
        assert(s[0] == end);
        assert(parse_field(s, end) == Option::Some((Seq::<char>::empty(), 1nat)));
    } else {
        let c = f[0];
        let tail = f.skip(1);
        assert(escaped(f) == escaped_char(c) + escaped(tail));
        if c == '\\' || c == '|' || c == '\n' {
            let x = if c == '\\' {
                '\\'
            } else if c == '|' {
                'p'
            } else {
                'n'
            };
            assert(escaped_char(c) =~= seq!['\\', x]);
            assert(s[0] == '\\');
            assert(s[1] == x);
            assert(s.len() >= 2);
            assert(unescaped_char(x) == Option::Some(c));
            assert(s.skip(2) =~= escaped(tail) + seq![end] + rest);
            lemma_parse_escaped(tail, end, rest);
            assert(seq![c] + tail =~= f);
        } else {
            assert(escaped_char(c) =~= seq![c]);
            assert(s[0] == c);
            assert(c != end && c != '\\' && c != '|' && c != '\n');
            assert(s.skip(1) =~= escaped(tail) + seq![end] + rest);
            lemma_parse_escaped(tail, end, rest);
            assert(seq![c] + tail =~= f);
        }
    }
}

#[verifier::rlimit(60)]
proof fn lemma_parse_record_text(r: RecordView, rest: Seq<char>)
    ensures
        parse_record(record_text(r) + rest) == Option::Some(
            (r, record_text(r).len() as nat),
        ),
{
    let s = record_text(r) + rest;
    let flag = if r.success {
        seq!['1']
    } else {
        seq!['0']
    };
    let errpart = match r.error {
        Option::Some(e) => seq!['S'] + escaped(e),
        Option::None => seq!['N'],
    };
    let rest1 = escaped(r.sent_at) + seq!['|'] + flag + seq!['|'] + errpart + seq!['\n'] + rest;
    assert(s =~= escaped(r.email) + seq!['|'] + rest1);
    lemma_parse_escaped(r.email, '|', rest1);
    let u1 = (escaped(r.email).len() + 1) as nat;
    assert(parse_field(s, '|') == Option::Some((r.email, u1)));
    let s1 = s.skip(u1 as int);
    let rest2 = flag + seq!['|'] + errpart + seq!['\n'] + rest;
    assert(s1 =~= escaped(r.sent_at) + seq!['|'] + rest2);
    lemma_parse_escaped(r.sent_at, '|', rest2);
    let u2 = (escaped(r.sent_at).len() + 1) as nat;
    assert(parse_field(s1, '|') == Option::Some((r.sent_at, u2)));
    let s2 = s1.skip(u2 as int);
    assert(s2 =~= flag + seq!['|'] + errpart + seq!['\n'] + rest);
    assert(s2[0] == flag[0]);
    assert(s2[1] == '|');
    assert(s2.len() >= 2);
    assert((s2[0] == '1' || s2[0] == '0'));
    assert((s2[0] == '1') == r.success);
    let s3 = s2.skip(2);
    assert(s3 =~= errpart + seq!['\n'] + rest);
    match r.error {
        Option::None => {
            assert(errpart =~= seq!['N']);
            assert(s3[0] == 'N');
            assert(s3[1] == '\n');
            assert(s3.len() >= 2);
            assert(parse_record(s) == Option::Some(
                (RecordView { email: r.email, sent_at: r.sent_at, success: r.success, error: Option::None },
                (u1 + u2 + 4) as nat),
            ));
            assert(RecordView {
                email: r.email,
                sent_at: r.sent_at,
                success: r.success,
                error: Option::None,
            } == r);
            assert(record_text(r).len() == u1 + u2 + 4);
        },
        Option::Some(e) => {
            assert(errpart =~= seq!['S'] + escaped(e));
            assert(s3[0] == 'S');
            assert(s3[0] != 'N' || s3.len() < 2 || s3[1] != '\n');
            assert(s3.skip(1) =~= escaped(e) + seq!['\n'] + rest);
            lemma_parse_escaped(e, '\n', rest);
            let u3 = (escaped(e).len() + 1) as nat;
            assert(parse_field(s3.skip(1), '\n') == Option::Some((e, u3)));
            assert(RecordView {
                email: r.email,
                sent_at: r.sent_at,
                success: r.success,
                error: Option::Some(e),
            } == r);
            assert(record_text(r).len() == u1 + u2 + 3 + u3);
        },
    }
}

/// Law: the stored form loses nothing — parsing the text of any record
/// sequence yields exactly that sequence, in order.
pub proof fn lemma_log_round_trip(rs: Seq<RecordView>)
    ensures
        parsed_log(log_text(rs)) == Option::Some(rs),
    decreases rs.len(),
{
    if rs.len() == 0 {
        assert(log_text(rs).len() == 0);
        assert(parsed_log(log_text(rs)) == Option::Some(Seq::<RecordView>::empty()));
        assert(rs =~= Seq::<RecordView>::empty());
    } else {
        let s = log_text(rs);
        let tail = log_text(rs.skip(1));
        assert(s == record_text(rs[0]) + tail);
        lemma_parse_record_text(rs[0], tail);
        let used = record_text(rs[0]).len() as nat;
        assert(used >= 4) by {
            assert(record_text(rs[0]).len() >= seq!['|'].len() + seq!['|'].len() + seq!['|'].len()
                + seq!['\n'].len());
        }
        assert(s.len() == used + tail.len());
        assert(s.skip(used as int) =~= tail);
        lemma_log_round_trip(rs.skip(1));
        assert(seq![rs[0]] + rs.skip(1) =~= rs);
    }
}

/// Law: starting from an empty history, appending two records and loading
/// the stored text again yields exactly those two records, in order.
pub proof fn lemma_append_two_round_trip(r1: RecordView, r2: RecordView)
    ensures
        parsed_log(log_text(Seq::empty().push(r1).push(r2))) == Option::Some(
            Seq::empty().push(r1).push(r2),
        ),
{
    lemma_log_round_trip(Seq::empty().push(r1).push(r2));
}

/// Relies on String's FromIterator over char: collecting characters yields
/// the string of exactly those characters, in order.
#[verifier::external_body]
pub(crate) fn chars_to_string(v: &Vec<char>) -> (r: String)
    ensures
        r@ == v@,
{
    v.iter().collect()
}

proof fn lemma_escaped_push(s: Seq<char>, c: char)
    ensures
        escaped(s.push(c)) == escaped(s) + escaped_char(c),
    decreases s.len(),
{
    let p = s.push(c);
    assert(escaped(p) == escaped_char(p[0]) + escaped(p.skip(1)));
    if s.len() == 0 {
        assert(p.skip(1) =~= Seq::<char>::empty());
        assert(p[0] == c);
        assert(escaped_char(c) + Seq::<char>::empty() =~= escaped_char(c));
        assert(Seq::<char>::empty() + escaped_char(c) =~= escaped_char(c));
    } else {
        assert(p.skip(1) =~= s.skip(1).push(c));
        lemma_escaped_push(s.skip(1), c);
        assert(p[0] == s[0]);
        assert(escaped_char(s[0]) + (escaped(s.skip(1)) + escaped_char(c)) =~= (escaped_char(s[0])
            + escaped(s.skip(1))) + escaped_char(c));
    }
}

fn push_escaped(out: &mut Vec<char>, s: &String)
    ensures
        final(out)@ == old(out)@ + escaped(s@),
{
    let n = s.as_str().unicode_len();
    let mut i: usize = 0;
    while i < n
        invariant
            n == s@.len(),
            i <= n,
            out@ == old(out)@ + escaped(s@.take(i as int)),
        decreases n - i,
    {
        let c = s.as_str().get_char(i);
        proof {
            assert(s@.take(i + 1) =~= s@.take(i as int).push(s@[i as int]));
            lemma_escaped_push(s@.take(i as int), s@[i as int]);
        }
        if c == '\\' {
            out.push('\\');
            out.push('\\');
        } else if c == '|' {
            out.push('\\');
            out.push('p');
        } else if c == '\n' {
            out.push('\\');
            out.push('n');
        } else {
            out.push(c);
        }
        proof {
            assert(out@ =~= old(out)@ + escaped(s@.take(i + 1)));
        }
        i += 1;
    }
    proof {
        assert(s@.take(n as int) =~= s@);
    }
}

proof fn lemma_log_text_push(rs: Seq<RecordView>, r: RecordView)
    ensures
        log_text(rs.push(r)) == log_text(rs) + record_text(r),
    decreases rs.len(),
{
    let p = rs.push(r);
    assert(log_text(p) == record_text(p[0]) + log_text(p.skip(1)));
    if rs.len() == 0 {
        assert(p.skip(1) =~= Seq::<RecordView>::empty());
        assert(p[0] == r);
        assert(record_text(r) + Seq::<char>::empty() =~= record_text(r));
        assert(Seq::<char>::empty() + record_text(r) =~= record_text(r));
    } else {
        assert(p.skip(1) =~= rs.skip(1).push(r));
        lemma_log_text_push(rs.skip(1), r);
        assert(p[0] == rs[0]);
        assert(record_text(rs[0]) + (log_text(rs.skip(1)) + record_text(r)) =~= (record_text(rs[0])
            + log_text(rs.skip(1))) + record_text(r));
    }
}

/// Writes the whole log as one document, the form `parse_stored` reads
/// back.
pub fn encode_log(log: &SentLog) -> (r: String)
    ensures
        r@ == log_text(log@),
{
    let mut out: Vec<char> = Vec::new();
    let mut i: usize = 0;
    while i < log.records.len()
        invariant
            i <= log.records.len(),
            log@.len() == log.records.len(),
            out@ == log_text(log@.take(i as int)),
        decreases log.records.len() - i,
    {
        let rec = &log.records[i];
        let ghost before = out@;
        push_escaped(&mut out, &rec.email);
        out.push('|');
        push_escaped(&mut out, &rec.sent_at);
        out.push('|');
        if rec.success {
            out.push('1');
        } else {
            out.push('0');
        }
        out.push('|');
        match &rec.error {
            Option::Some(e) => {
                out.push('S');
                push_escaped(&mut out, e);
            },
            Option::None => {
                out.push('N');
            },
        }
        out.push('\n');
        proof {
            assert(log@[i as int] == log.records[i as int]@);
            assert(out@ =~= before + record_text(log@[i as int]));
            assert(log@.take(i + 1) =~= log@.take(i as int).push(log@[i as int]));
            lemma_log_text_push(log@.take(i as int), log@[i as int]);
        }
        i += 1;
    }
    proof {
        assert(log@.take(log.records.len() as int) =~= log@);
    }
    chars_to_string(&out)
}

fn parse_field_at(s: &str, n: usize, start: usize, end: char) -> (r: Option<(Vec<char>, usize)>)
    requires
        n == s@.len(),
        start <= n,
    ensures
        match parse_field(s@.skip(start as int), end) {
            Option::Some(fu) => r matches Option::Some(p) && p.0@ == fu.0 && p.1 == start + fu.1
                && start < p.1 <= n,
            Option::None => r is None,
        },
{
    let mut j = start;
    let mut out: Vec<char> = Vec::new();
    loop
        invariant
            n == s@.len(),
            start <= j <= n,
            j - start >= out@.len(),
            match parse_field(s@.skip(j as int), end) {
                Option::Some(fu) => parse_field(s@.skip(start as int), end) == Option::Some(
                    ((out@ + fu.0), (j - start + fu.1) as nat),
                ),
                Option::None => parse_field(s@.skip(start as int), end) is None,
            },
        decreases n - j,
    {
        if j >= n {
            proof {
                assert(s@.skip(j as int).len() == 0);
            }
            return Option::None;
        }
        let c = s.get_char(j);
        proof {
            assert(s@.skip(j as int)[0] == s@[j as int]);
        }
        if c == end {
            proof {
                assert(parse_field(s@.skip(j as int), end) == Option::Some(
                    (Seq::<char>::empty(), 1nat),
                ));
                assert(out@ + Seq::<char>::empty() =~= out@);
            }
            return Option::Some((out, j + 1));
        } else if c == '\\' {
            if j + 1 >= n {
                proof {
                    assert(s@.skip(j as int).len() < 2);
                }
                return Option::None;
            }
            let c2 = s.get_char(j + 1);
            proof {
                assert(s@.skip(j as int)[1] == s@[j + 1]);
                assert(s@.skip(j as int).len() >= 2);
            }
            let u: char = if c2 == '\\' {
                '\\'
            } else if c2 == 'p' {
                '|'
            } else if c2 == 'n' {
                '\n'
            } else {
                proof {
                    assert(unescaped_char(s@[j + 1]) is None);
                }
                return Option::None;
            };
            proof {
                assert(unescaped_char(s@[j + 1]) == Option::Some(u));
                assert(s@.skip(j as int).skip(2) =~= s@.skip(j + 2));
            }
            let ghost out_before = out@;
            out.push(u);
            proof {
                if parse_field(s@.skip(j + 2), end) is Some {
                    let fu = parse_field(s@.skip(j + 2), end)->Some_0;
                    assert(parse_field(s@.skip(j as int), end) == Option::Some(
                        ((seq![u] + fu.0), (fu.1 + 2) as nat),
                    ));
                    assert(out_before + (seq![u] + fu.0) =~= out@ + fu.0);
                }
            }
            j = j + 2;
        } else if c == '|' || c == '\n' {
            proof {
                assert(parse_field(s@.skip(j as int), end) is None);
            }
            return Option::None;
        } else {
            let ghost out_before = out@;
            out.push(c);
            proof {
                assert(s@.skip(j as int).skip(1) =~= s@.skip(j + 1));
                if parse_field(s@.skip(j + 1), end) is Some {
                    let fu = parse_field(s@.skip(j + 1), end)->Some_0;
                    assert(parse_field(s@.skip(j as int), end) == Option::Some(
                        ((seq![s@[j as int]] + fu.0), (fu.1 + 1) as nat),
                    ));
                    assert(out_before + (seq![s@[j as int]] + fu.0) =~= out@ + fu.0);
                }
            }
            j = j + 1;
        }
    }
}

fn parse_record_at(s: &str, n: usize, start: usize) -> (r: Option<(SentRecord, usize)>)
    requires
        n == s@.len(),
        start <= n,
    ensures
        match parse_record(s@.skip(start as int)) {
            Option::Some(ru) => r matches Option::Some(p) && p.0@ == ru.0 && p.1 == start + ru.1
                && start < p.1 <= n,
            Option::None => r is None,
        },
{
    let ghost s0 = s@.skip(start as int);
    let (email, j1) = match parse_field_at(s, n, start, '|') {
        Option::Some(p) => p,
        Option::None => {
            return Option::None;
        },
    };
    proof {
        assert(s0.skip((j1 - start) as int) =~= s@.skip(j1 as int));
    }
    let (sent_at, j2) = match parse_field_at(s, n, j1, '|') {
        Option::Some(p) => p,
        Option::None => {
            return Option::None;
        },
    };
    proof {
        assert(s@.skip(j1 as int).skip((j2 - j1) as int) =~= s@.skip(j2 as int));
    }
    let ghost s2 = s@.skip(j2 as int);
    if n - j2 < 2 {
        proof {
            assert(s2.len() < 2);
        }
        return Option::None;
    }
    let f = s.get_char(j2);
    let b = s.get_char(j2 + 1);
    proof {
        assert(s2[0] == s@[j2 as int]);
        assert(s2[1] == s@[j2 + 1]);
    }
    if !(f == '1' || f == '0') {
        return Option::None;
    }
    if b != '|' {
        return Option::None;
    }
    let success = f == '1';
    let j3 = j2 + 2;
    proof {
        assert(s2.skip(2) =~= s@.skip(j3 as int));
    }
    let ghost s3 = s@.skip(j3 as int);
    if j3 >= n {
        proof {
            assert(s3.len() == 0);
        }
        return Option::None;
    }
    let t = s.get_char(j3);
    proof {
        assert(s3[0] == s@[j3 as int]);
    }
    if t == 'N' {
        if j3 + 1 >= n {
            proof {
                assert(s3.len() < 2);
            }
            return Option::None;
        }
        let nl = s.get_char(j3 + 1);
        proof {
            assert(s3[1] == s@[j3 + 1]);
        }
        if nl != '\n' {
            return Option::None;
        }
        let rec = SentRecord {
            email: chars_to_string(&email),
            sent_at: chars_to_string(&sent_at),
            success,
            error: Option::None,
        };
        Option::Some((rec, j3 + 2))
    } else if t == 'S' {
        proof {
            assert(s3.skip(1) =~= s@.skip(j3 + 1));
        }
        match parse_field_at(s, n, j3 + 1, '\n') {
            Option::Some((err, j4)) => {
                let rec = SentRecord {
                    email: chars_to_string(&email),
                    sent_at: chars_to_string(&sent_at),
                    success,
                    error: Option::Some(chars_to_string(&err)),
                };
                Option::Some((rec, j4))
            },
            Option::None => Option::None,
        }
    } else {
        Option::None
    }
}

/// Reads a stored document back into a log; nothing if the text is not a
/// well-formed stored log.
pub fn parse_stored(s: &str) -> (r: Option<SentLog>)
    ensures
        match parsed_log(s@) {
            Option::Some(rs) => r matches Option::Some(log) && log@ == rs,
            Option::None => r is None,
        },
{
    let n = s.unicode_len();
    let mut recs: Vec<SentRecord> = Vec::new();
    let mut i: usize = 0;
    proof {
        assert(s@.skip(0) =~= s@);
        assert(recs.deep_view() =~= Seq::<RecordView>::empty());
        if parsed_log(s@) is Some {
            let rest = parsed_log(s@)->Some_0;
            assert(Seq::<RecordView>::empty() + rest =~= rest);
        }
    }
    while i < n
        invariant
            n == s@.len(),
            i <= n,
            match parsed_log(s@.skip(i as int)) {
                Option::Some(rest) => parsed_log(s@) == Option::Some(recs.deep_view() + rest),
                Option::None => parsed_log(s@) is None,
            },
        decreases n - i,
    {
        let ghost before = recs.deep_view();
        match parse_record_at(s, n, i) {
            Option::Some((rec, j)) => {
                proof {
                    let si = s@.skip(i as int);
                    let ru = parse_record(si)->Some_0;
                    assert(1 <= ru.1 <= si.len());
                    assert(si.skip(ru.1 as int) =~= s@.skip(j as int));
                }
                recs.push(rec);
                proof {
                    assert(recs.deep_view() =~= before.push(rec@));
                    if parsed_log(s@.skip(j as int)) is Some {
                        let rest = parsed_log(s@.skip(j as int))->Some_0;
                        assert(before + (seq![rec@] + rest) =~= recs.deep_view() + rest);
                    }
                }
                i = j;
            },
            Option::None => {
                return Option::None;
            },
        }
    }
    proof {
        assert(s@.skip(n as int).len() == 0);
        assert(recs.deep_view() + Seq::<RecordView>::empty() =~= recs.deep_view());
    }
    Option::Some(SentLog { records: recs })
}

/// Loads the log from its stored text: a corrupt or missing document
/// degrades to an empty history, never to a failure.
pub fn from_stored(s: &str) -> (log: SentLog)
    ensures
        match parsed_log(s@) {
            Option::Some(rs) => log@ == rs,
            Option::None => log@ == Seq::<RecordView>::empty(),
        },
{
    match parse_stored(s) {
        Option::Some(log) => log,
        Option::None => SentLog::new(),
    }
}

} // verus!
