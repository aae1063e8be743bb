//! The serializer: encodes a document to its textual on-disk
//! representation and decodes it back.
//!
//! The format is a single header line — schema version, revision,
//! timestamp and record count as decimal numerals — followed by one line
//! per record, each field written as a character count, a space, and the
//! field's characters. Counted fields make the format unambiguous for
//! arbitrary field contents, and the decoder rejects anything it did not
//! write, including trailing bytes.

use vstd::prelude::*;
use crate::doc::{Task, TaskView, TaskData, DocView, views_of_tasks};
use crate::store::AtomicWriteError;

verus! {

// ---------------------------------------------------------------------
// Decimal numerals over character sequences.
// ---------------------------------------------------------------------

pub open spec fn is_digit_char(c: char) -> bool {
    c == '0' || c == '1' || c == '2' || c == '3' || c == '4' || c == '5' || c == '6' || c == '7'
        || c == '8' || c == '9'
}

pub open spec fn digit_val(c: char) -> nat {
    if c == '0' { 0 }
    else if c == '1' { 1 }
    else if c == '2' { 2 }
    else if c == '3' { 3 }
    else if c == '4' { 4 }
    else if c == '5' { 5 }
    else if c == '6' { 6 }
    else if c == '7' { 7 }
    else if c == '8' { 8 }
    else { 9 }
}

pub open spec fn digit_char(d: nat) -> char {
    if d == 0 { '0' }
    else if d == 1 { '1' }
    else if d == 2 { '2' }
    else if d == 3 { '3' }
    else if d == 4 { '4' }
    else if d == 5 { '5' }
    else if d == 6 { '6' }
    else if d == 7 { '7' }
    else if d == 8 { '8' }
    else { '9' }
}

/// The decimal numeral of `n`, most significant digit first.
pub open spec fn spec_dec_nat(n: nat) -> Seq<char>
    decreases n,
{
    if n < 10 {
        seq![digit_char(n)]
    } else {
        spec_dec_nat(n / 10).push(digit_char(n % 10))
    }
}

/// The numeral of a signed value: a minus sign before the magnitude.
pub open spec fn spec_dec_i64(n: i64) -> Seq<char> {
    if n < 0 {
        seq!['-'] + spec_dec_nat((-(n as int)) as nat)
    } else {
        spec_dec_nat(n as nat)
    }
}

/// Reads digits from the front of `s`, folding them onto `acc`; stops at
/// the first non-digit.
pub open spec fn spec_parse_digits(s: Seq<char>, acc: nat) -> (nat, Seq<char>)
    decreases s.len(),
{
    if s.len() == 0 || !is_digit_char(s[0]) {
        (acc, s)
    } else {
        spec_parse_digits(s.skip(1), acc * 10 + digit_val(s[0]))
    }
}

/// A numeral is at least one digit; its value is unbounded here.
pub open spec fn spec_parse_nat(s: Seq<char>) -> Option<(nat, Seq<char>)> {
    if s.len() == 0 || !is_digit_char(s[0]) {
        None
    } else {
        Some(spec_parse_digits(s, 0))
    }
}

pub open spec fn spec_parse_u64(s: Seq<char>) -> Option<(u64, Seq<char>)> {
    match spec_parse_nat(s) {
        None => None,
        Some((n, rest)) => if n <= u64::MAX { Some((n as u64, rest)) } else { None },
    }
}

pub open spec fn spec_parse_u32(s: Seq<char>) -> Option<(u32, Seq<char>)> {
    match spec_parse_nat(s) {
        None => None,
        Some((n, rest)) => if n <= u32::MAX { Some((n as u32, rest)) } else { None },
    }
}

pub open spec fn spec_parse_i64(s: Seq<char>) -> Option<(i64, Seq<char>)> {
    if s.len() > 0 && s[0] == '-' {
        match spec_parse_nat(s.skip(1)) {
            None => None,
            Some((n, rest)) => if n <= i64::MAX as nat + 1 {
                Some(((-(n as int)) as i64, rest))
            } else {
                None
            },
        }
    } else {
        match spec_parse_nat(s) {
            None => None,
            Some((n, rest)) => if n <= i64::MAX as nat { Some((n as i64, rest)) } else { None },
        }
    }
}

pub open spec fn pow10(k: nat) -> nat
    decreases k,
{
    if k == 0 { 1 } else { 10 * pow10((k - 1) as nat) }
}

/// Every character of a numeral is a digit, and there is at least one.
pub proof fn lemma_dec_nat_digits(n: nat)
    ensures
        spec_dec_nat(n).len() >= 1,
        forall|i: int| 0 <= i < spec_dec_nat(n).len() ==> is_digit_char(#[trigger] spec_dec_nat(n)[i]),
    decreases n,
{
    if n < 10 {
    } else {
        lemma_dec_nat_digits(n / 10);
    }
}

/// Folding a numeral onto an accumulator shifts the accumulator by the
/// numeral's width and adds the numeral's value.
proof fn lemma_parse_digits_of_dec(n: nat, rest: Seq<char>, acc: nat)
    ensures
        spec_parse_digits(spec_dec_nat(n) + rest, acc) == spec_parse_digits(
            rest,
            acc * pow10(spec_dec_nat(n).len()) + n,
        ),
    decreases n,
{
    lemma_dec_nat_digits(n);
    if n < 10 {
        let s = spec_dec_nat(n) + rest;
        assert(s.len() >= 1 && s[0] == digit_char(n));
        assert(s.skip(1) =~= rest);
        assert(digit_val(digit_char(n)) == n);
        assert(pow10(0) == 1);
        assert(pow10(1) == 10);
        assert(spec_parse_digits(s, acc) == spec_parse_digits(rest, acc * 10 + n));
    } else {
        let d = digit_char(n % 10);
        let hi = spec_dec_nat(n / 10);
        let k = hi.len();
        assert(spec_dec_nat(n) =~= hi + seq![d]);
        assert(spec_dec_nat(n) + rest =~= hi + (seq![d] + rest));
        lemma_parse_digits_of_dec(n / 10, seq![d] + rest, acc);
        let acc1 = acc * pow10(k) + n / 10;
        let s1 = seq![d] + rest;
        assert(s1[0] == d && s1.skip(1) =~= rest);
        assert(digit_val(d) == n % 10);
        assert(spec_parse_digits(s1, acc1) == spec_parse_digits(rest, acc1 * 10 + n % 10));
        assert(spec_dec_nat(n).len() == k + 1);
        assert(pow10(k + 1) == 10 * pow10(k));
        assert(acc1 * 10 + n % 10 == acc * pow10(k + 1) + n) by (nonlinear_arith)
            requires
                acc1 == acc * pow10(k) + n / 10,
                pow10(k + 1) == 10 * pow10(k),
                n == 10 * (n / 10) + n % 10,
        {}
        assert(n == 10 * (n / 10) + n % 10);
    }
}

/// A numeral followed by a non-digit parses back to its value exactly.
pub proof fn lemma_parse_nat_of_dec(n: nat, rest: Seq<char>)
    requires
        rest.len() == 0 || !is_digit_char(rest[0]),
    ensures
        spec_parse_nat(spec_dec_nat(n) + rest) == Some((n, rest)),
{
    lemma_dec_nat_digits(n);
    let s = spec_dec_nat(n) + rest;
    assert(s.len() >= 1 && is_digit_char(s[0]));
    lemma_parse_digits_of_dec(n, rest, 0);
    assert(0 * pow10(spec_dec_nat(n).len()) + n == n) by (nonlinear_arith) {}
    assert(spec_parse_digits(rest, n) == (n, rest));
}

/// The folded value never falls below the accumulator it started from.
proof fn lemma_parse_digits_lower(s: Seq<char>, acc: nat)
    ensures
        spec_parse_digits(s, acc).0 >= acc,
    decreases s.len(),
{
    if s.len() == 0 || !is_digit_char(s[0]) {
    } else {
        lemma_parse_digits_lower(s.skip(1), acc * 10 + digit_val(s[0]));
        assert(acc * 10 >= acc) by (nonlinear_arith) {}
    }
}

// ---------------------------------------------------------------------
// The document format.
// ---------------------------------------------------------------------

/// One record: each field as a character count, a space, and the field's
/// characters; a newline closes the record.
pub open spec fn spec_encode_task(t: TaskView) -> Seq<char> {
    spec_dec_nat(t.id.len()) + seq![' '] + t.id + spec_dec_nat(t.title.len()) + seq![' ']
        + t.title + spec_dec_nat(t.status.len()) + seq![' '] + t.status + seq!['\n']
}

pub open spec fn spec_encode_tasks(ts: Seq<TaskView>) -> Seq<char>
    decreases ts.len(),
{
    if ts.len() == 0 {
        Seq::empty()
    } else {
        spec_encode_task(ts[0]) + spec_encode_tasks(ts.skip(1))
    }
}

/// The whole document: a header line with schema version, revision,
/// timestamp and record count, then the records.
pub open spec fn spec_encode(d: DocView) -> Seq<char> {
    spec_dec_nat(d.version as nat) + seq![' '] + spec_dec_nat(d.rev as nat) + seq![' ']
        + spec_dec_i64(d.updated_at) + seq![' '] + spec_dec_nat(d.tasks.len()) + seq!['\n']
        + spec_encode_tasks(d.tasks)
}

pub open spec fn spec_expect(s: Seq<char>, c: char) -> Option<Seq<char>> {
    if s.len() > 0 && s[0] == c {
        Some(s.skip(1))
    } else {
        None
    }
}

/// A counted field: its length, a space, then exactly that many characters.
pub open spec fn spec_parse_field(s: Seq<char>) -> Option<(Seq<char>, Seq<char>)> {
    match spec_parse_u64(s) {
        None => None,
        Some((len, s1)) => match spec_expect(s1, ' ') {
            None => None,
            Some(s2) => if s2.len() >= len as nat {
                Some((s2.take(len as int), s2.skip(len as int)))
            } else {
                None
            },
        },
    }
}

pub open spec fn spec_parse_task(s: Seq<char>) -> Option<(TaskView, Seq<char>)> {
    match spec_parse_field(s) {
        None => None,
        Some((id, s1)) => match spec_parse_field(s1) {
            None => None,
            Some((title, s2)) => match spec_parse_field(s2) {
                None => None,
                Some((status, s3)) => match spec_expect(s3, '\n') {
                    None => None,
                    Some(s4) => Some((TaskView { id, title, status }, s4)),
                },
            },
        },
    }
}

pub open spec fn spec_parse_tasks(s: Seq<char>, n: nat) -> Option<(Seq<TaskView>, Seq<char>)>
    decreases n,
{
    if n == 0 {
        Some((Seq::empty(), s))
    } else {
        match spec_parse_task(s) {
            None => None,
            Some((t, s1)) => match spec_parse_tasks(s1, (n - 1) as nat) {
                None => None,
                Some((ts, s2)) => Some((seq![t] + ts, s2)),
            },
        }
    }
}

/// The decoder accepts exactly the encoder's output: any malformed
/// numeral, short field, wrong separator or trailing text yields `None`.
pub open spec fn spec_decode(s: Seq<char>) -> Option<DocView> {
    match spec_parse_u32(s) {
        None => None,
        Some((version, s1)) => match spec_expect(s1, ' ') {
            None => None,
            Some(s2) => match spec_parse_u64(s2) {
                None => None,
                Some((rev, s3)) => match spec_expect(s3, ' ') {
                    None => None,
                    Some(s4) => match spec_parse_i64(s4) {
                        None => None,
                        Some((updated_at, s5)) => match spec_expect(s5, ' ') {
                            None => None,
                            Some(s6) => match spec_parse_u64(s6) {
                                None => None,
                                Some((count, s7)) => match spec_expect(s7, '\n') {
                                    None => None,
                                    Some(s8) => match spec_parse_tasks(s8, count as nat) {
                                        None => None,
                                        Some((tasks, s9)) => if s9.len() == 0 {
                                            Some(DocView { version, rev, updated_at, tasks })
                                        } else {
                                            None
                                        },
                                    },
                                },
                            },
                        },
                    },
                },
            },
        },
    }
}

/// A record whose field lengths the format's counted numerals can carry.
pub open spec fn wf_task(t: TaskView) -> bool {
    t.id.len() <= u64::MAX && t.title.len() <= u64::MAX && t.status.len() <= u64::MAX
}

/// A document the format can carry; every document held in real memory
/// satisfies this.
pub open spec fn wf_doc(d: DocView) -> bool {
    d.tasks.len() <= u64::MAX && forall|i: int|
        0 <= i < d.tasks.len() ==> wf_task(#[trigger] d.tasks[i])
}

// ---------------------------------------------------------------------
// Round trip: decoding an encoded document gives the document back.
// ---------------------------------------------------------------------

proof fn lemma_parse_u64_of_dec(n: u64, rest: Seq<char>)
    requires
        rest.len() == 0 || !is_digit_char(rest[0]),
    ensures
        spec_parse_u64(spec_dec_nat(n as nat) + rest) == Some((n, rest)),
{
    lemma_parse_nat_of_dec(n as nat, rest);
}

proof fn lemma_parse_u32_of_dec(n: u32, rest: Seq<char>)
    requires
        rest.len() == 0 || !is_digit_char(rest[0]),
    ensures
        spec_parse_u32(spec_dec_nat(n as nat) + rest) == Some((n, rest)),
{
    lemma_parse_nat_of_dec(n as nat, rest);
}

proof fn lemma_parse_i64_of_dec(v: i64, rest: Seq<char>)
    requires
        rest.len() == 0 || !is_digit_char(rest[0]),
    ensures
        spec_parse_i64(spec_dec_i64(v) + rest) == Some((v, rest)),
{
    if v < 0 {
        let mag = (-(v as int)) as nat;
        let s = spec_dec_i64(v) + rest;
        assert(s =~= seq!['-'] + (spec_dec_nat(mag) + rest));
        assert(s[0] == '-');
        assert(s.skip(1) =~= spec_dec_nat(mag) + rest);
        lemma_parse_nat_of_dec(mag, rest);
        assert(mag <= i64::MAX as nat + 1);
        assert((-(mag as int)) as i64 == v);
    } else {
        let s = spec_dec_nat(v as nat) + rest;
        lemma_dec_nat_digits(v as nat);
        assert(s[0] == spec_dec_nat(v as nat)[0]);
        assert(!(s[0] == '-'));
        lemma_parse_nat_of_dec(v as nat, rest);
    }
}

proof fn lemma_parse_field_of_encode(f: Seq<char>, rest: Seq<char>)
    requires
        f.len() <= u64::MAX,
    ensures
        spec_parse_field(spec_dec_nat(f.len()) + seq![' '] + f + rest) == Some((f, rest)),
{
    let s = spec_dec_nat(f.len()) + seq![' '] + f + rest;
    let r1 = seq![' '] + (f + rest);
    assert(s =~= spec_dec_nat(f.len()) + r1);
    assert(r1[0] == ' ');
    lemma_parse_nat_of_dec(f.len(), r1);
    let len = f.len() as u64;
    assert(spec_parse_u64(s) == Some((len, r1)));
    assert(r1.skip(1) =~= f + rest);
    let s2 = f + rest;
    assert(s2.len() >= len as nat);
    assert(s2.take(len as int) =~= f);
    assert(s2.skip(len as int) =~= rest);
}

proof fn lemma_parse_task_of_encode(t: TaskView, rest: Seq<char>)
    requires
        wf_task(t),
    ensures
        spec_parse_task(spec_encode_task(t) + rest) == Some((t, rest)),
{
    let s = spec_encode_task(t) + rest;
    let e3 = seq!['\n'] + rest;
    let e2 = spec_dec_nat(t.status.len()) + seq![' '] + t.status + e3;
    let e1 = spec_dec_nat(t.title.len()) + seq![' '] + t.title + e2;
    assert(s =~= spec_dec_nat(t.id.len()) + seq![' '] + t.id + e1);
    lemma_parse_field_of_encode(t.id, e1);
    lemma_parse_field_of_encode(t.title, e2);
    lemma_parse_field_of_encode(t.status, e3);
    assert(e3[0] == '\n');
    assert(e3.skip(1) =~= rest);
    assert(spec_parse_task(s) == Some((TaskView { id: t.id, title: t.title, status: t.status }, rest)));
    assert(TaskView { id: t.id, title: t.title, status: t.status } =~= t);
}

proof fn lemma_parse_tasks_of_encode(ts: Seq<TaskView>, rest: Seq<char>)
    requires
        forall|i: int| 0 <= i < ts.len() ==> wf_task(#[trigger] ts[i]),
    ensures
        spec_parse_tasks(spec_encode_tasks(ts) + rest, ts.len()) == Some((ts, rest)),
    decreases ts.len(),
{
    if ts.len() == 0 {
        assert(spec_encode_tasks(ts) + rest =~= rest);
    } else {
        let s = spec_encode_tasks(ts) + rest;
        let tail = spec_encode_tasks(ts.skip(1)) + rest;
        assert(s =~= spec_encode_task(ts[0]) + tail);
        lemma_parse_task_of_encode(ts[0], tail);
        lemma_parse_tasks_of_encode(ts.skip(1), rest);
        assert(spec_parse_tasks(s, ts.len()) == Some((seq![ts[0]] + ts.skip(1), rest)));
        assert(seq![ts[0]] + ts.skip(1) =~= ts);
    }
}

/// Round trip: for every document the format can carry, decoding the
/// encoding reproduces the document exactly — payload, revision,
/// timestamp and schema version.
#[verifier::rlimit(60)]
pub proof fn lemma_decode_encode(d: DocView)
    requires
        wf_doc(d),
    ensures
        spec_decode(spec_encode(d)) == Some(d),
{
    let s = spec_encode(d);
    let e4 = spec_encode_tasks(d.tasks);
    let e3 = spec_dec_nat(d.tasks.len()) + (seq!['\n'] + e4);
    let e2 = spec_dec_i64(d.updated_at) + (seq![' '] + e3);
    let e1 = spec_dec_nat(d.rev as nat) + (seq![' '] + e2);
    assert(s =~= spec_dec_nat(d.version as nat) + (seq![' '] + e1));
    lemma_parse_u32_of_dec(d.version, seq![' '] + e1);
    assert(spec_parse_u32(s) == Some((d.version, seq![' '] + e1)));
    assert((seq![' '] + e1).skip(1) =~= e1);
    assert(spec_expect(seq![' '] + e1, ' ') == Some(e1));
    lemma_dec_nat_digits(d.rev as nat);
    lemma_parse_u64_of_dec(d.rev, seq![' '] + e2);
    assert(spec_parse_u64(e1) == Some((d.rev, seq![' '] + e2)));
    assert((seq![' '] + e2).skip(1) =~= e2);
    assert(spec_expect(seq![' '] + e2, ' ') == Some(e2));
    lemma_parse_i64_of_dec(d.updated_at, seq![' '] + e3);
    assert(spec_parse_i64(e2) == Some((d.updated_at, seq![' '] + e3)));
    assert((seq![' '] + e3).skip(1) =~= e3);
    assert(spec_expect(seq![' '] + e3, ' ') == Some(e3));
    lemma_parse_u64_of_dec(d.tasks.len() as u64, seq!['\n'] + e4);
    assert(spec_parse_u64(e3) == Some((d.tasks.len() as u64, seq!['\n'] + e4)));
    assert((seq!['\n'] + e4).skip(1) =~= e4);
    assert(spec_expect(seq!['\n'] + e4, '\n') == Some(e4));
    lemma_parse_tasks_of_encode(d.tasks, Seq::empty());
    assert(e4 + Seq::<char>::empty() =~= e4);
    assert(spec_parse_tasks(e4, d.tasks.len()) == Some((d.tasks, Seq::<char>::empty())));
    let dv = DocView { version: d.version, rev: d.rev, updated_at: d.updated_at, tasks: d.tasks };
    assert(spec_decode(s) == Some(dv));
    assert(dv =~= d);
}

// ---------------------------------------------------------------------
// The executable encoder.
// ---------------------------------------------------------------------

/// The one-character numeral of a digit value.
fn digit_str(d: u64) -> (r: &'static str)
    requires
        d < 10,
    ensures
        r@ == seq![digit_char(d as nat)],
{
    if d == 0 {
        proof { reveal_strlit("0"); assert("0"@ =~= seq![digit_char(0)]); }
        "0"
    } else if d == 1 {
        proof { reveal_strlit("1"); assert("1"@ =~= seq![digit_char(1)]); }
        "1"
    } else if d == 2 {
        proof { reveal_strlit("2"); assert("2"@ =~= seq![digit_char(2)]); }
        "2"
    } else if d == 3 {
        proof { reveal_strlit("3"); assert("3"@ =~= seq![digit_char(3)]); }
        "3"
    } else if d == 4 {
        proof { reveal_strlit("4"); assert("4"@ =~= seq![digit_char(4)]); }
        "4"
    } else if d == 5 {
        proof { reveal_strlit("5"); assert("5"@ =~= seq![digit_char(5)]); }
        "5"
    } else if d == 6 {
        proof { reveal_strlit("6"); assert("6"@ =~= seq![digit_char(6)]); }
        "6"
    } else if d == 7 {
        proof { reveal_strlit("7"); assert("7"@ =~= seq![digit_char(7)]); }
        "7"
    } else if d == 8 {
        proof { reveal_strlit("8"); assert("8"@ =~= seq![digit_char(8)]); }
        "8"
    } else {
        proof { reveal_strlit("9"); assert("9"@ =~= seq![digit_char(9)]); }
        "9"
    }
}

/// The decimal numeral of `n` as a string.
pub fn dec_u64_string(n: u64) -> (r: String)
    ensures
        r@ == spec_dec_nat(n as nat),
    decreases n,
{
    if n < 10 {
        digit_str(n).to_owned()
    } else {
        let mut s = dec_u64_string(n / 10);
        s.append(digit_str(n % 10));
        proof {
            assert(s@ =~= spec_dec_nat((n / 10) as nat).push(digit_char((n % 10) as nat)));
        }
        s
    }
}

/// The numeral of a signed value.
pub fn dec_i64_string(n: i64) -> (r: String)
    ensures
        r@ == spec_dec_i64(n),
{
    if n >= 0 {
        dec_u64_string(n as u64)
    } else {
        let mag: u64 = if n == i64::MIN { 9223372036854775808u64 } else { (-n) as u64 };
        proof { assert(mag as nat == (-(n as int)) as nat); }
        let mut s = String::new();
        proof { reveal_strlit("-"); assert("-"@ =~= seq!['-']); }
        s.append("-");
        let magstr = dec_u64_string(mag);
        s.append(magstr.as_str());
        proof { assert(s@ =~= spec_dec_i64(n)); }
        s
    }
}

/// Appends one counted field: its length, a space, its characters.
fn append_field(out: &mut String, f: &String)
    ensures
        final(out)@ == old(out)@ + spec_dec_nat(f@.len()) + seq![' '] + f@,
{
    let len = f.as_str().unicode_len();
    let lenstr = dec_u64_string(len as u64);
    out.append(lenstr.as_str());
    proof { reveal_strlit(" "); assert(" "@ =~= seq![' ']); }
    out.append(" ");
    out.append(f.as_str());
}

/// Appends one encoded record.
fn append_task(out: &mut String, t: &Task)
    ensures
        final(out)@ == old(out)@ + spec_encode_task(t@),
{
    append_field(out, &t.id);
    append_field(out, &t.title);
    append_field(out, &t.status);
    proof { reveal_strlit("\n"); assert("\n"@ =~= seq!['\n']); }
    out.append("\n");
    proof {
        assert(out@ =~= old(out)@ + spec_encode_task(t@));
    }
}

proof fn lemma_encode_tasks_snoc(ts: Seq<TaskView>, t: TaskView)
    ensures
        spec_encode_tasks(ts.push(t)) == spec_encode_tasks(ts) + spec_encode_task(t),
    decreases ts.len(),
{
    if ts.len() == 0 {
        let p = ts.push(t);
        assert(p[0] == t);
        assert(p.skip(1) =~= Seq::<TaskView>::empty());
        assert(spec_encode_tasks(p) == spec_encode_task(t) + spec_encode_tasks(p.skip(1)));
        assert(spec_encode_tasks(p.skip(1)) == Seq::<char>::empty());
        assert(spec_encode_tasks(p) =~= spec_encode_tasks(ts) + spec_encode_task(t));
    } else {
        let h = ts[0];
        let rest = ts.skip(1);
        assert(ts.push(t)[0] == h);
        assert(ts.push(t).skip(1) =~= rest.push(t));
        assert(spec_encode_tasks(ts.push(t)) == spec_encode_task(h) + spec_encode_tasks(
            rest.push(t),
        ));
        lemma_encode_tasks_snoc(rest, t);
        assert(spec_encode_task(h) + (spec_encode_tasks(rest) + spec_encode_task(t)) =~= (
        spec_encode_task(h) + spec_encode_tasks(rest)) + spec_encode_task(t));
        assert(spec_encode_tasks(ts) == spec_encode_task(h) + spec_encode_tasks(rest));
    }
}

/// Encodes a document to its on-disk text.
pub fn encode_doc(d: &TaskData) -> (r: String)
    ensures
        r@ == spec_encode(d@),
{
    let mut out = dec_u64_string(d.version as u64);
    proof { reveal_strlit(" "); assert(" "@ =~= seq![' ']); }
    proof { reveal_strlit("\n"); assert("\n"@ =~= seq!['\n']); }
    out.append(" ");
    let revstr = dec_u64_string(d.rev);
    out.append(revstr.as_str());
    out.append(" ");
    let updstr = dec_i64_string(d.updated_at);
    out.append(updstr.as_str());
    out.append(" ");
    let countstr = dec_u64_string(d.tasks.len() as u64);
    out.append(countstr.as_str());
    out.append("\n");
    let ghost header = out@;
    proof {
        assert(d@.tasks.len() == d.tasks@.len());
        assert(header =~= spec_dec_nat(d@.version as nat) + seq![' '] + spec_dec_nat(d@.rev as nat)
            + seq![' '] + spec_dec_i64(d@.updated_at) + seq![' '] + spec_dec_nat(d@.tasks.len())
            + seq!['\n']);
    }
    let mut i: usize = 0;
    while i < d.tasks.len()
        invariant
            i <= d.tasks.len(),
            out@ == header + spec_encode_tasks(d@.tasks.take(i as int)),
            header =~= spec_dec_nat(d@.version as nat) + seq![' '] + spec_dec_nat(d@.rev as nat)
                + seq![' '] + spec_dec_i64(d@.updated_at) + seq![' ']
                + spec_dec_nat(d@.tasks.len()) + seq!['\n'],
            d@.tasks.len() == d.tasks@.len(),
        decreases d.tasks.len() - i,
    {
        proof {
            assert(d@.tasks.take(i as int).push(d.tasks@[i as int]@) =~= d@.tasks.take(i + 1));
            lemma_encode_tasks_snoc(d@.tasks.take(i as int), d.tasks@[i as int]@);
        }
        append_task(&mut out, &d.tasks[i]);
        i += 1;
    }
    proof {
        assert(d@.tasks.take(d.tasks@.len() as int) =~= d@.tasks);
        assert(out@ =~= spec_encode(d@));
    }
    out
}

// ---------------------------------------------------------------------
// The executable decoder.
// ---------------------------------------------------------------------

/// The value of a digit character, or `None` for any other character.
fn digit_of(c: char) -> (r: Option<u64>)
    ensures
        r is Some <==> is_digit_char(c),
        r matches Some(d) ==> d == digit_val(c) && d < 10,
{
    match c {
        '0' => Some(0u64),
        '1' => Some(1u64),
        '2' => Some(2u64),
        '3' => Some(3u64),
        '4' => Some(4u64),
        '5' => Some(5u64),
        '6' => Some(6u64),
        '7' => Some(7u64),
        '8' => Some(8u64),
        '9' => Some(9u64),
        _ => None,
    }
}

/// Folds digits starting at position `j` onto `acc`; `None` means the
/// value does not fit in a `u64`.
fn fold_digits(s: &str, j: usize, n: usize, acc: u64) -> (r: Option<(u64, usize)>)
    requires
        n == s@.len(),
        j <= n,
    ensures
        match r {
            Some(p) => j <= p.1 <= n && spec_parse_digits(s@.skip(j as int), acc as nat) == ((
            p.0 as nat), s@.skip(p.1 as int)),
            None => spec_parse_digits(s@.skip(j as int), acc as nat).0 > u64::MAX,
        },
    decreases n - j,
{
    if j == n {
        proof {
            assert(s@.skip(j as int).len() == 0);
        }
        return Some((acc, j));
    }
    let c = s.get_char(j);
    proof {
        assert(s@.skip(j as int)[0] == s@[j as int]);
    }
    match digit_of(c) {
        None => {
            proof {
                assert(spec_parse_digits(s@.skip(j as int), acc as nat) == ((acc as nat), s@.skip(
                    j as int,
                )));
            }
            Some((acc, j))
        },
        Some(d) => {
            proof {
                assert(s@.skip(j as int).skip(1) =~= s@.skip(j as int + 1));
                assert(spec_parse_digits(s@.skip(j as int), acc as nat) == spec_parse_digits(
                    s@.skip(j as int + 1),
                    acc as nat * 10 + digit_val(c),
                ));
            }
            match acc.checked_mul(10) {
                None => {
                    proof {
                        lemma_parse_digits_lower(
                            s@.skip(j as int + 1),
                            acc as nat * 10 + digit_val(c),
                        );
                    }
                    None
                },
                Some(m) => match m.checked_add(d) {
                    None => {
                        proof {
                            lemma_parse_digits_lower(
                                s@.skip(j as int + 1),
                                acc as nat * 10 + digit_val(c),
                            );
                        }
                        None
                    },
                    Some(a2) => fold_digits(s, j + 1, n, a2),
                },
            }
        },
    }
}

/// Reads a decimal numeral from the front of `s`.
fn parse_u64_str<'a>(s: &'a str) -> (r: Option<(u64, &'a str)>)
    ensures
        match r {
            Some(p) => spec_parse_u64(s@) == Some((p.0, p.1@)),
            None => spec_parse_u64(s@) is None,
        },
{
    let n = s.unicode_len();
    if n == 0 {
        return None;
    }
    let c0 = s.get_char(0);
    if digit_of(c0).is_none() {
        return None;
    }
    proof {
        assert(s@.skip(0) =~= s@);
    }
    match fold_digits(s, 0, n, 0) {
        None => None,
        Some(p) => {
            let rest = s.substring_char(p.1, n);
            proof {
                assert(rest@ =~= s@.skip(p.1 as int));
            }
            Some((p.0, rest))
        },
    }
}

/// Reads a possibly negative numeral from the front of `s`.
fn parse_i64_str<'a>(s: &'a str) -> (r: Option<(i64, &'a str)>)
    ensures
        match r {
            Some(p) => spec_parse_i64(s@) == Some((p.0, p.1@)),
            None => spec_parse_i64(s@) is None,
        },
{
    let n = s.unicode_len();
    if n > 0 && s.get_char(0) == '-' {
        let s1 = s.substring_char(1, n);
        proof {
            assert(s1@ =~= s@.skip(1));
        }
        match parse_u64_str(s1) {
            None => None,
            Some((v, rest)) => {
                if v > 9223372036854775808u64 {
                    None
                } else {
                    let val: i64 = if v == 9223372036854775808u64 {
                        i64::MIN
                    } else {
                        -(v as i64)
                    };
                    Some((val, rest))
                }
            },
        }
    } else {
        match parse_u64_str(s) {
            None => None,
            Some((v, rest)) => {
                if v > i64::MAX as u64 {
                    None
                } else {
                    Some((v as i64, rest))
                }
            },
        }
    }
}

/// Consumes one expected character from the front of `s`.
fn expect_char<'a>(s: &'a str, c: char) -> (r: Option<&'a str>)
    ensures
        match r {
            Some(rest) => spec_expect(s@, c) == Some(rest@),
            None => spec_expect(s@, c) is None,
        },
{
    let n = s.unicode_len();
    if n == 0 {
        return None;
    }
    let c0 = s.get_char(0);
    if c0 == c {
        let rest = s.substring_char(1, n);
        proof {
            assert(rest@ =~= s@.skip(1));
        }
        Some(rest)
    } else {
        None
    }
}

/// Reads one counted field from the front of `s`.
fn parse_field<'a>(s: &'a str) -> (r: Option<(String, &'a str)>)
    ensures
        match r {
            Some(p) => spec_parse_field(s@) == Some((p.0@, p.1@)),
            None => spec_parse_field(s@) is None,
        },
{
    match parse_u64_str(s) {
        None => None,
        Some((len, s1)) => match expect_char(s1, ' ') {
            None => None,
            Some(s2) => {
                let n2 = s2.unicode_len();
                if len > n2 as u64 {
                    None
                } else {
                    let l = len as usize;
                    let fld = s2.substring_char(0, l).to_owned();
                    let rest = s2.substring_char(l, n2);
                    proof {
                        assert(fld@ =~= s2@.take(len as int));
                        assert(rest@ =~= s2@.skip(len as int));
                    }
                    Some((fld, rest))
                }
            },
        },
    }
}

/// Reads one record from the front of `s`.
fn parse_task_str<'a>(s: &'a str) -> (r: Option<(Task, &'a str)>)
    ensures
        match r {
            Some(p) => spec_parse_task(s@) == Some((p.0@, p.1@)),
            None => spec_parse_task(s@) is None,
        },
{
    match parse_field(s) {
        None => None,
        Some((id, s1)) => match parse_field(s1) {
            None => None,
            Some((title, s2)) => match parse_field(s2) {
                None => None,
                Some((status, s3)) => match expect_char(s3, '\n') {
                    None => None,
                    Some(s4) => {
                        let ghost iv = id@;
                        let ghost tv = title@;
                        let ghost sv = status@;
                        let t = Task { id, title, status };
                        proof {
                            assert(t@ =~= TaskView { id: iv, title: tv, status: sv });
                        }
                        Some((t, s4))
                    },
                },
            },
        },
    }
}

proof fn lemma_parse_u32_from_u64(s: Seq<char>)
    ensures
        match spec_parse_u64(s) {
            None => spec_parse_u32(s) is None,
            Some((v, r)) => spec_parse_u32(s) == (if v <= u32::MAX {
                Some((v as u32, r))
            } else {
                None
            }),
        },
{
}

/// Decodes on-disk text into a document. Exactly the encoder's outputs
/// are accepted; anything else is a serialization error.
pub fn decode_doc(s: &str) -> (r: Result<TaskData, AtomicWriteError>)
    ensures
        match r {
            Ok(d) => spec_decode(s@) == Some(d@),
            Err(e) => spec_decode(s@) is None && e is Serialization,
        },
{
    proof {
        lemma_parse_u32_from_u64(s@);
    }
    let (version64, s1) = match parse_u64_str(s) {
        None => { return Err(invalid_doc()); },
        Some(p) => p,
    };
    if version64 > 0xffff_ffffu64 {
        return Err(invalid_doc());
    }
    let version = version64 as u32;
    let s2 = match expect_char(s1, ' ') {
        None => { return Err(invalid_doc()); },
        Some(x) => x,
    };
    let (rev, s3) = match parse_u64_str(s2) {
        None => { return Err(invalid_doc()); },
        Some(p) => p,
    };
    let s4 = match expect_char(s3, ' ') {
        None => { return Err(invalid_doc()); },
        Some(x) => x,
    };
    let (updated_at, s5) = match parse_i64_str(s4) {
        None => { return Err(invalid_doc()); },
        Some(p) => p,
    };
    let s6 = match expect_char(s5, ' ') {
        None => { return Err(invalid_doc()); },
        Some(x) => x,
    };
    let (count, s7) = match parse_u64_str(s6) {
        None => { return Err(invalid_doc()); },
        Some(p) => p,
    };
    let s8 = match expect_char(s7, '\n') {
        None => { return Err(invalid_doc()); },
        Some(x) => x,
    };
    let mut tasks: Vec<Task> = Vec::new();
    let mut rest: &str = s8;
    let mut k: u64 = 0;
    proof {
        assert(views_of_tasks(tasks@) =~= Seq::<TaskView>::empty());
    }
    while k < count
        invariant
            k <= count,
            tasks_continuation(s8@, count as nat, views_of_tasks(tasks@), rest@, (count - k) as nat),
            spec_parse_tasks(s8@, count as nat) is None ==> spec_decode(s@) is None,
        decreases count - k,
    {
        let ghost done = views_of_tasks(tasks@);
        match parse_task_str(rest) {
            None => {
                return Err(invalid_doc());
            },
            Some((t, r1)) => {
                proof {
                    let left = (count - k) as nat;
                    assert(spec_parse_task(rest@) == Some((t@, r1@)));
                    if spec_parse_tasks(r1@, (left - 1) as nat) is Some {
                        let (ts, r2) = spec_parse_tasks(r1@, (left - 1) as nat)->0;
                        assert(spec_parse_tasks(rest@, left) == Some((seq![t@] + ts, r2)));
                        assert(done + (seq![t@] + ts) =~= (done + seq![t@]) + ts);
                        assert(views_of_tasks(tasks@.push(t)) =~= done + seq![t@]);
                    } else {
                        assert(spec_parse_tasks(rest@, left) is None);
                    }
                }
                tasks.push(t);
                rest = r1;
                k = k + 1;
            },
        }
    }
    let nrest = rest.unicode_len();
    if nrest != 0 {
        proof {
            assert(spec_parse_tasks(rest@, 0nat) == Some((Seq::<TaskView>::empty(), rest@)));
            assert(views_of_tasks(tasks@) + Seq::<TaskView>::empty() =~= views_of_tasks(tasks@));
        }
        return Err(invalid_doc());
    }
    let d = TaskData { version, rev, updated_at, tasks };
    proof {
        assert(spec_parse_tasks(rest@, 0nat) == Some((Seq::<TaskView>::empty(), rest@)));
        assert(d@.tasks + Seq::<TaskView>::empty() =~= d@.tasks);
        assert(spec_decode(s@) == Some(d@));
    }
    Ok(d)
}

/// The decoder's uniform rejection of malformed on-disk content.
fn invalid_doc() -> (e: AtomicWriteError)
    ensures
        e is Serialization,
{
    let mut detail = String::new();
    detail.append("the on-disk content does not parse as a document");
    AtomicWriteError::Serialization { detail }
}

/// The decoder's progress through the record list: what remains to be
/// parsed, prefixed by what is already parsed, gives the whole list.
pub open spec fn tasks_continuation(
    orig: Seq<char>,
    total: nat,
    done: Seq<TaskView>,
    rest: Seq<char>,
    left: nat,
) -> bool {
    spec_parse_tasks(orig, total) == (match spec_parse_tasks(rest, left) {
        None => None::<(Seq<TaskView>, Seq<char>)>,
        Some((ts, r)) => Some((done + ts, r)),
    })
}

} // verus!
