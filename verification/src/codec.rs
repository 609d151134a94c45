//! The todo.txt line codec.
//!
//! A line is, in this order: an optional completion marker `x `, an
//! optional priority token `(P) `, an optional completion date and an
//! optional creation date (each `YYYY-MM-DD `), and the description.
//! A single date is a creation date; a completion date only ever
//! appears in front of a creation date, and only on a completed task.

use vstd::prelude::*;

use crate::date::{days_in_month, Date};
use crate::task::{is_alpha, is_ws, to_upper, trim_end, Task, TaskView};

verus! {

/// Why a line is not a task.
#[derive(Clone, Copy, Debug, PartialEq, Eq, Structural)]
pub enum ParseError {
    /// A priority token whose character is not a letter.
    InvalidPriority(u8),
    /// Two leading dates without the completed marker: the first would
    /// be a completion date, which only a completed task may carry.
    CompletionDateWithoutMarker,
}

/// An ASCII decimal digit.
pub open spec fn is_digit(b: u8) -> bool {
    48 <= b && b <= 57
}

/// The line starts with the completion marker `x `.
pub open spec fn has_x_prefix(l: Seq<u8>) -> bool {
    l.len() >= 2 && l[0] == 120 && l[1] == 32
}

/// The line starts with a priority token: `(`, one byte, `) `.
pub open spec fn prio_shape(l: Seq<u8>) -> bool {
    l.len() >= 4 && l[0] == 40 && l[2] == 41 && l[3] == 32
}

/// The date written in the first ten bytes of `s`.
pub open spec fn spec_date_at(s: Seq<u8>) -> Date {
    Date {
        year: (1000 * (s[0] - 48) + 100 * (s[1] - 48) + 10 * (s[2] - 48) + (s[3] - 48)) as u16,
        month: (10 * (s[5] - 48) + (s[6] - 48)) as u8,
        day: (10 * (s[8] - 48) + (s[9] - 48)) as u8,
    }
}

/// The line starts with a date token: `YYYY-MM-DD` naming a date that
/// exists in the calendar, followed by a space.
pub open spec fn spec_date_shape(s: Seq<u8>) -> bool {
    &&& s.len() >= 11
    &&& is_digit(s[0]) && is_digit(s[1]) && is_digit(s[2]) && is_digit(s[3])
    &&& s[4] == 45
    &&& is_digit(s[5]) && is_digit(s[6])
    &&& s[7] == 45
    &&& is_digit(s[8]) && is_digit(s[9])
    &&& s[10] == 32
    &&& spec_date_at(s).wf()
}

/// What parsing a line yields: the task, or the error, decided by the
/// grammar alone.
pub open spec fn spec_parse(l: Seq<u8>) -> Result<TaskView, ParseError> {
    let completed = has_x_prefix(l);
    let l1 = if completed { l.skip(2) } else { l };
    if prio_shape(l1) && !is_alpha(l1[1]) {
        Err(ParseError::InvalidPriority(l1[1]))
    } else {
        let priority = if prio_shape(l1) { Some(to_upper(l1[1])) } else { None };
        let l2 = if prio_shape(l1) { l1.skip(4) } else { l1 };
        let first = spec_date_shape(l2);
        let d1 = if first { Some(spec_date_at(l2)) } else { None };
        let l3 = if first { l2.skip(11) } else { l2 };
        let two = first && spec_date_shape(l3);
        let d2 = if two { Some(spec_date_at(l3)) } else { None };
        let l4 = if two { l3.skip(11) } else { l3 };
        if two && !completed {
            Err(ParseError::CompletionDateWithoutMarker)
        } else {
            Ok(TaskView {
                completed,
                priority,
                completion_date: if two { d1 } else { None },
                creation_date: if two { d2 } else { d1 },
                description: trim_end(l4),
            })
        }
    }
}

/// The `x ` marker of a serialized task.
pub open spec fn x_part(t: TaskView) -> Seq<u8> {
    if t.completed {
        seq![120u8, 32u8]
    } else {
        Seq::empty()
    }
}

/// The `(P) ` token of a serialized task.
pub open spec fn prio_part(t: TaskView) -> Seq<u8> {
    match t.priority {
        Some(p) => seq![40u8, p, 41u8, 32u8],
        None => Seq::empty(),
    }
}

/// A serialized optional date, `YYYY-MM-DD ` or nothing.
pub open spec fn date_part(d: Option<Date>) -> Seq<u8> {
    match d {
        Some(d) => crate::date::spec_date_bytes(d).push(32),
        None => Seq::empty(),
    }
}

/// The line a task serializes to.
pub open spec fn spec_serialize(t: TaskView) -> Seq<u8> {
    x_part(t) + prio_part(t) + date_part(t.completion_date) + date_part(t.creation_date)
        + t.description
}

/// A task that some line parses to: its description does not begin
/// with a token that parsing would have consumed in its place.
pub open spec fn spec_canonical(t: TaskView) -> bool {
    &&& t.wf()
    &&& (t.priority is None && t.creation_date is None ==> !prio_shape(t.description))
    &&& (!t.completed && t.priority is None && t.creation_date is None ==> !has_x_prefix(
        t.description,
    ))
    &&& (t.completion_date is None ==> !spec_date_shape(t.description))
}

proof fn lemma_digits_core4(a: int, b: int, c: int, e: int)
    requires
        0 <= a <= 9,
        0 <= b <= 9,
        0 <= c <= 9,
        0 <= e <= 9,
    ensures
        (1000 * a + 100 * b + 10 * c + e) / 1000 % 10 == a,
        (1000 * a + 100 * b + 10 * c + e) / 100 % 10 == b,
        (1000 * a + 100 * b + 10 * c + e) / 10 % 10 == c,
        (1000 * a + 100 * b + 10 * c + e) % 10 == e,
{
    let y = 1000 * a + 100 * b + 10 * c + e;
    vstd::arithmetic::div_mod::lemma_fundamental_div_mod_converse(y, 1000, a, 100 * b + 10 * c + e);
    vstd::arithmetic::div_mod::lemma_fundamental_div_mod_converse(y, 100, 10 * a + b, 10 * c + e);
    vstd::arithmetic::div_mod::lemma_fundamental_div_mod_converse(y, 10, 100 * a + 10 * b + c, e);
    vstd::arithmetic::div_mod::lemma_fundamental_div_mod_converse(a, 10, 0, a);
    vstd::arithmetic::div_mod::lemma_fundamental_div_mod_converse(10 * a + b, 10, a, b);
    vstd::arithmetic::div_mod::lemma_fundamental_div_mod_converse(
        100 * a + 10 * b + c,
        10,
        10 * a + b,
        c,
    );
}

proof fn lemma_digits4(y: int)
    requires
        0 <= y <= 9999,
    ensures
        1000 * (y / 1000 % 10) + 100 * (y / 100 % 10) + 10 * (y / 10 % 10) + y % 10 == y,
{
    vstd::arithmetic::div_mod::lemma_fundamental_div_mod(y, 1000);
    let a = y / 1000;
    let r1 = y % 1000;
    vstd::arithmetic::div_mod::lemma_fundamental_div_mod(r1, 100);
    let b = r1 / 100;
    let r2 = r1 % 100;
    vstd::arithmetic::div_mod::lemma_fundamental_div_mod(r2, 10);
    let c = r2 / 10;
    let e = r2 % 10;
    assert(y == 1000 * a + 100 * b + 10 * c + e);
    lemma_digits_core4(a, b, c, e);
}

proof fn lemma_digits_core2(a: int, e: int)
    requires
        0 <= a <= 9,
        0 <= e <= 9,
    ensures
        (10 * a + e) / 10 % 10 == a,
        (10 * a + e) % 10 == e,
{
    let m = 10 * a + e;
    vstd::arithmetic::div_mod::lemma_fundamental_div_mod_converse(m, 10, a, e);
    vstd::arithmetic::div_mod::lemma_fundamental_div_mod_converse(a, 10, 0, a);
}

proof fn lemma_digits2(m: int)
    requires
        0 <= m <= 99,
    ensures
        10 * (m / 10 % 10) + m % 10 == m,
{
    vstd::arithmetic::div_mod::lemma_fundamental_div_mod(m, 10);
    lemma_digits_core2(m / 10, m % 10);
}

/// A well-formed date serializes to a token that parsing recognizes
/// and reads back as the same date.
proof fn lemma_date_bytes_shape(d: Date, rest: Seq<u8>)
    requires
        d.wf(),
    ensures
        spec_date_shape(crate::date::spec_date_bytes(d).push(32) + rest),
        spec_date_at(crate::date::spec_date_bytes(d).push(32) + rest) == d,
        (crate::date::spec_date_bytes(d).push(32) + rest).skip(11) == rest,
{
    let s = crate::date::spec_date_bytes(d).push(32) + rest;
    lemma_digits4(d.year as int);
    lemma_digits2(d.month as int);
    lemma_digits2(d.day as int);
    assert(s.skip(11) =~= rest);
    assert(spec_date_at(s) == d);
}

/// A recognized date token is exactly the serialization of the date it
/// names, followed by a space.
proof fn lemma_shape_date_bytes(s: Seq<u8>)
    requires
        spec_date_shape(s),
    ensures
        crate::date::spec_date_bytes(spec_date_at(s)).push(32) == s.take(11),
        s == s.take(11) + s.skip(11),
{
    lemma_digits_core4(s[0] - 48, s[1] - 48, s[2] - 48, s[3] - 48);
    lemma_digits_core2(s[5] - 48, s[6] - 48);
    lemma_digits_core2(s[8] - 48, s[9] - 48);
    assert(crate::date::spec_date_bytes(spec_date_at(s)).push(32) =~= s.take(11));
    assert(s =~= s.take(11) + s.skip(11));
}

/// Trimming distributes over concatenation: either the tail keeps some
/// of its bytes, or trimming continues into the front part.
proof fn lemma_trim_concat(a: Seq<u8>, b: Seq<u8>)
    ensures
        trim_end(a + b) == if trim_end(b).len() > 0 {
            a + trim_end(b)
        } else {
            trim_end(a)
        },
    decreases b.len(),
{
    if b.len() == 0 {
        assert(a + b =~= a);
    } else if is_ws(b.last()) {
        assert((a + b).drop_last() =~= a + b.drop_last());
        lemma_trim_concat(a, b.drop_last());
    } else {
        assert(!is_ws((a + b).last()));
    }
}

proof fn lemma_trim_idempotent(s: Seq<u8>)
    ensures
        trim_end(trim_end(s)) == trim_end(s),
    decreases s.len(),
{
    if s.len() > 0 && is_ws(s.last()) {
        lemma_trim_idempotent(s.drop_last());
    }
}

/// The trimmed sequence is a prefix of the sequence it trims.
proof fn lemma_trim_prefix(s: Seq<u8>)
    ensures
        trim_end(s).len() <= s.len(),
        forall|i: int| 0 <= i < trim_end(s).len() ==> trim_end(s)[i] == s[i],
    decreases s.len(),
{
    if s.len() > 0 && is_ws(s.last()) {
        lemma_trim_prefix(s.drop_last());
        assert(forall|i: int| 0 <= i < s.len() - 1 ==> s.drop_last()[i] == s[i]);
    }
}

/// Round trip, record side: parsing a serialized task yields the task
/// unchanged, for every well-formed canonical task — exactly the tasks
/// that parsing a line can produce.
#[verifier::rlimit(50)]
pub proof fn lemma_parse_serialize(t: TaskView)
    requires
        spec_canonical(t),
    ensures
        spec_parse(spec_serialize(t)) == Ok::<TaskView, ParseError>(t),
{
    let l = spec_serialize(t);
    let xp = x_part(t);
    let pp = prio_part(t);
    let cp = date_part(t.completion_date);
    let rp = date_part(t.creation_date);
    let desc = t.description;
    let l1e = pp + cp + rp + desc;
    let l2e = cp + rp + desc;
    let l3e = rp + desc;
    assert(l =~= xp + l1e);
    assert(l1e =~= pp + l2e);
    assert(l2e =~= cp + l3e);
    assert(l3e =~= rp + desc);

    // The completion marker is read back exactly when the task is completed.
    if t.completed {
        assert(l[0] == 120 && l[1] == 32);
        assert(has_x_prefix(l));
        assert(l.skip(2) =~= l1e);
    } else {
        if t.priority is Some {
            assert(l[0] == 40);
        } else if t.completion_date is Some {
            assert(l[0] == crate::date::spec_date_bytes(t.completion_date->Some_0)[0]);
        } else if t.creation_date is Some {
            assert(l[0] == crate::date::spec_date_bytes(t.creation_date->Some_0)[0]);
        } else {
            assert(l =~= desc);
        }
        assert(!has_x_prefix(l));
    }
    let l1 = if has_x_prefix(l) { l.skip(2) } else { l };
    assert(l1 == l1e);

    // The priority token is read back exactly when a priority is set.
    match t.priority {
        Some(p) => {
            assert(l1[0] == 40 && l1[1] == p && l1[2] == 41 && l1[3] == 32);
            assert(prio_shape(l1));
            assert(is_alpha(p) && to_upper(p) == p);
            assert(l1.skip(4) =~= l2e);
        },
        None => {
            if t.completion_date is Some {
                assert(l1[0] == crate::date::spec_date_bytes(t.completion_date->Some_0)[0]);
                assert(!prio_shape(l1));
            } else if t.creation_date is Some {
                assert(l1[0] == crate::date::spec_date_bytes(t.creation_date->Some_0)[0]);
                assert(!prio_shape(l1));
            } else {
                assert(l1 =~= desc);
                assert(!prio_shape(l1));
            }
        },
    }
    let l2 = if prio_shape(l1) { l1.skip(4) } else { l1 };
    assert(l2 == l2e);

    // The date tokens are read back as the dates of the task.
    match t.completion_date {
        Some(dc) => {
            let dr = t.creation_date->Some_0;
            lemma_date_bytes_shape(dc, l3e);
            assert(spec_date_shape(l2) && spec_date_at(l2) == dc);
            let l3 = l2.skip(11);
            assert(l3 == l3e);
            lemma_date_bytes_shape(dr, desc);
            assert(spec_date_shape(l3) && spec_date_at(l3) == dr);
            assert(l3.skip(11) == desc);
            assert(trim_end(desc) == desc);
        },
        None => {
            match t.creation_date {
                Some(dr) => {
                    assert(l2 =~= crate::date::spec_date_bytes(dr).push(32) + desc);
                    lemma_date_bytes_shape(dr, desc);
                    assert(spec_date_shape(l2) && spec_date_at(l2) == dr);
                    let l3 = l2.skip(11);
                    assert(l3 == desc);
                    assert(!spec_date_shape(l3));
                    assert(trim_end(desc) == desc);
                },
                None => {
                    assert(l2 =~= desc);
                    assert(!spec_date_shape(l2));
                    assert(trim_end(desc) == desc);
                },
            }
        },
    }
    assert(spec_parse(l) == Ok::<TaskView, ParseError>(t));
}

/// Round trip, line side: serializing a parsed line gives the line
/// back, up to trailing whitespace. The one exception is a lowercase
/// priority letter, which parsing uppercases; such lines are excluded.
#[verifier::rlimit(50)]
pub proof fn lemma_serialize_parse(l: Seq<u8>)
    requires
        spec_parse(l) is Ok,
        ({
            let l1 = if has_x_prefix(l) { l.skip(2) } else { l };
            !(prio_shape(l1) && 97 <= l1[1] <= 122)
        }),
    ensures
        trim_end(spec_serialize(spec_parse(l)->Ok_0)) == trim_end(l),
{
    let t = spec_parse(l)->Ok_0;
    let l1 = if has_x_prefix(l) { l.skip(2) } else { l };
    let l2 = if prio_shape(l1) { l1.skip(4) } else { l1 };
    let first = spec_date_shape(l2);
    let l3 = if first { l2.skip(11) } else { l2 };
    let two = first && spec_date_shape(l3);
    let l4 = if two { l3.skip(11) } else { l3 };

    let xp = x_part(t);
    let pp = prio_part(t);
    let cp = date_part(t.completion_date);
    let rp = date_part(t.creation_date);

    // Each consumed token re-serializes to the bytes it was read from.
    assert(l =~= xp + l1) by {
        if has_x_prefix(l) {
            assert(xp =~= l.take(2));
            assert(l =~= l.take(2) + l.skip(2));
        } else {
            assert(xp =~= Seq::<u8>::empty());
        }
    }
    assert(l1 =~= pp + l2) by {
        if prio_shape(l1) {
            assert(is_alpha(l1[1]));
            assert(to_upper(l1[1]) == l1[1]);
            assert(pp =~= l1.take(4));
            assert(l1 =~= l1.take(4) + l1.skip(4));
        } else {
            assert(pp =~= Seq::<u8>::empty());
        }
    }
    assert(l2 =~= cp + rp + l4) by {
        if two {
            lemma_shape_date_bytes(l2);
            assert(cp == l2.take(11));
            lemma_shape_date_bytes(l3);
            assert(rp == l3.take(11));
            assert(l2 =~= cp + (rp + l4));
        } else if first {
            assert(cp =~= Seq::<u8>::empty());
            lemma_shape_date_bytes(l2);
            assert(rp == l2.take(11));
            assert(l2 =~= rp + l4);
        } else {
            assert(cp =~= Seq::<u8>::empty());
            assert(rp =~= Seq::<u8>::empty());
        }
    }
    let prefix = xp + pp + cp + rp;
    assert(l =~= prefix + l4);
    assert(spec_serialize(t) =~= prefix + trim_end(l4));
    lemma_trim_concat(prefix, l4);
    lemma_trim_concat(prefix, trim_end(l4));
    lemma_trim_idempotent(l4);
}

/// A well-formed task serializes to a single line: no byte of it is a
/// line feed.
pub proof fn lemma_serialize_no_nl(t: TaskView)
    requires
        t.wf(),
    ensures
        forall|i: int| 0 <= i < spec_serialize(t).len() ==> spec_serialize(t)[i] != 10,
{
    let l = spec_serialize(t);
    if t.completion_date is Some {
        crate::date::lemma_date_bytes_no_nl(t.completion_date->Some_0);
    }
    if t.creation_date is Some {
        crate::date::lemma_date_bytes_no_nl(t.creation_date->Some_0);
    }
    assert forall|i: int| 0 <= i < l.len() implies l[i] != 10 by {
        assert(l == x_part(t) + prio_part(t) + date_part(t.completion_date) + date_part(
            t.creation_date,
        ) + t.description);
    }
}

/// Every task that parsing a newline-free line yields is well formed
/// and canonical.
pub proof fn lemma_parse_canonical(l: Seq<u8>)
    requires
        spec_parse(l) is Ok,
        forall|i: int| 0 <= i < l.len() ==> l[i] != 10,
    ensures
        spec_canonical(spec_parse(l)->Ok_0),
{
    let t = spec_parse(l)->Ok_0;
    let completed = has_x_prefix(l);
    let l1 = if completed { l.skip(2) } else { l };
    let l2 = if prio_shape(l1) { l1.skip(4) } else { l1 };
    let first = spec_date_shape(l2);
    let l3 = if first { l2.skip(11) } else { l2 };
    let two = first && spec_date_shape(l3);
    let l4 = if two { l3.skip(11) } else { l3 };
    let desc = trim_end(l4);
    lemma_trim_prefix(l4);
    lemma_trim_last_not_ws(l4);
    assert(forall|i: int| 0 <= i < l1.len() ==> l1[i] != 10);
    assert(forall|i: int| 0 <= i < l2.len() ==> l2[i] != 10);
    assert(forall|i: int| 0 <= i < l4.len() ==> l4[i] != 10);
    assert forall|i: int| 0 <= i < desc.len() implies desc[i] != 10 by {
        assert(desc[i] == l4[i]);
    }
    if t.priority is Some {
        let p = t.priority->Some_0;
        assert(is_alpha(l1[1]) && p == to_upper(l1[1]));
        assert(65 <= p <= 90);
    }
    // The guards: had the description begun with a token, parsing
    // would have consumed it there instead.
    if t.priority is None && t.creation_date is None {
        assert(!prio_shape(l1));
        assert(l4 == l1);
        if prio_shape(desc) {
            assert(l1[0] == 40 && l1[2] == 41 && l1[3] == 32);
            assert(false);
        }
        if !completed && has_x_prefix(desc) {
            assert(has_x_prefix(l));
            assert(false);
        }
    }
    if t.completion_date is None && spec_date_shape(desc) {
        assert(spec_date_shape(l4));
        assert(!two);
        if first {
            assert(l4 == l3);
            assert(false);
        } else {
            assert(l4 == l2);
            assert(false);
        }
    }
}

/// A trimmed sequence does not end in whitespace.
proof fn lemma_trim_last_not_ws(s: Seq<u8>)
    ensures
        trim_end(s).len() > 0 ==> !is_ws(trim_end(s).last()),
    decreases s.len(),
{
    if s.len() > 0 && is_ws(s.last()) {
        lemma_trim_last_not_ws(s.drop_last());
    }
}

fn is_ws_b(b: u8) -> (r: bool)
    ensures
        r == is_ws(b),
{
    b == 32 || b == 9 || b == 10 || b == 12 || b == 13
}

fn is_alpha_b(b: u8) -> (r: bool)
    ensures
        r == is_alpha(b),
{
    (65 <= b && b <= 90) || (97 <= b && b <= 122)
}

fn to_upper_b(b: u8) -> (r: u8)
    ensures
        r == to_upper(b),
{
    if 97 <= b && b <= 122 {
        b - 32
    } else {
        b
    }
}

fn is_digit_b(b: u8) -> (r: bool)
    ensures
        r == is_digit(b),
{
    48 <= b && b <= 57
}

/// Reads a date token at position `pos`, if one stands there.
fn date_token_at(line: &[u8], pos: usize) -> (r: Option<Date>)
    requires
        pos <= line@.len(),
    ensures
        r is Some <==> spec_date_shape(line@.skip(pos as int)),
        r matches Some(d) ==> d == spec_date_at(line@.skip(pos as int)),
{
    let ghost s = line@.skip(pos as int);
    proof {
        assert(s.len() == line@.len() - pos);
        assert(forall|i: int| 0 <= i < s.len() ==> s[i] == line@[pos + i]);
    }
    if line.len() - pos < 11 {
        return None;
    }
    let ok = is_digit_b(line[pos]) && is_digit_b(line[pos + 1]) && is_digit_b(line[pos + 2])
        && is_digit_b(line[pos + 3]) && line[pos + 4] == 45 && is_digit_b(line[pos + 5])
        && is_digit_b(line[pos + 6]) && line[pos + 7] == 45 && is_digit_b(line[pos + 8])
        && is_digit_b(line[pos + 9]) && line[pos + 10] == 32;
    if !ok {
        return None;
    }
    let year: u16 = 1000 * (line[pos] - 48) as u16 + 100 * (line[pos + 1] - 48) as u16
        + 10 * (line[pos + 2] - 48) as u16 + (line[pos + 3] - 48) as u16;
    let month: u8 = 10 * (line[pos + 5] - 48) + (line[pos + 6] - 48);
    let day: u8 = 10 * (line[pos + 8] - 48) + (line[pos + 9] - 48);
    if 1 <= month && month <= 12 && 1 <= day && day <= days_in_month(year, month) {
        assert(spec_date_at(s) == Date { year, month, day });
        Some(Date { year, month, day })
    } else {
        assert(!spec_date_at(s).wf());
        None
    }
}

/// Parses one line into a task.
///
/// The result is exactly what the grammar (`spec_parse`) says: the
/// same task on success, the same error on failure.
pub fn parse(line: &[u8]) -> (r: Result<Task, ParseError>)
    ensures
        r is Ok <==> spec_parse(line@) is Ok,
        r matches Ok(t) ==> spec_parse(line@) matches Ok(tv) && t@ == tv,
        r matches Err(e) ==> spec_parse(line@) matches Err(e2) && e == e2,
{
    let mut pos: usize = 0;
    let completed: bool = line.len() >= 2 && line[0] == 120 && line[1] == 32;
    if completed {
        pos = 2;
    }
    let ghost l1 = if has_x_prefix(line@) { line@.skip(2) } else { line@ };
    proof {
        assert(completed == has_x_prefix(line@));
        assert(l1 == line@.skip(pos as int));
        assert(l1.len() == line@.len() - pos);
        assert(forall|i: int| 0 <= i < l1.len() ==> l1[i] == line@[pos + i]);
    }
    let prio_here: bool = line.len() - pos >= 4 && line[pos] == 40 && line[pos + 2] == 41
        && line[pos + 3] == 32;
    proof {
        assert(prio_here == prio_shape(l1));
    }
    let mut priority: Option<u8> = None;
    if prio_here {
        let c = line[pos + 1];
        assert(c == l1[1]);
        if is_alpha_b(c) {
            priority = Some(to_upper_b(c));
            pos = pos + 4;
        } else {
            return Err(ParseError::InvalidPriority(c));
        }
    }
    let ghost l2 = if prio_shape(l1) { l1.skip(4) } else { l1 };
    proof {
        assert(l2 =~= line@.skip(pos as int));
    }
    let first = date_token_at(line, pos);
    let mut d1: Option<Date> = None;
    if let Some(d) = first {
        d1 = Some(d);
        pos = pos + 11;
    }
    let ghost l3 = if spec_date_shape(l2) { l2.skip(11) } else { l2 };
    proof {
        assert(l3 =~= line@.skip(pos as int));
    }
    let mut d2: Option<Date> = None;
    if d1.is_some() {
        if let Some(d) = date_token_at(line, pos) {
            d2 = Some(d);
            pos = pos + 11;
        }
    }
    let ghost two = spec_date_shape(l2) && spec_date_shape(l3);
    let ghost l4 = if two { l3.skip(11) } else { l3 };
    proof {
        assert(d2 is Some <==> two);
        assert(l4 =~= line@.skip(pos as int));
    }
    if d2.is_some() && !completed {
        return Err(ParseError::CompletionDateWithoutMarker);
    }
    let mut end = line.len();
    while end > pos && is_ws_b(line[end - 1])
        invariant
            pos <= end <= line@.len(),
            trim_end(line@.skip(pos as int)) == trim_end(
                line@.subrange(pos as int, end as int),
            ),
        decreases end,
    {
        proof {
            let cur = line@.subrange(pos as int, end as int);
            assert(cur.last() == line@[end - 1]);
            assert(cur.drop_last() =~= line@.subrange(pos as int, end - 1));
        }
        end = end - 1;
    }
    proof {
        let cur = line@.subrange(pos as int, end as int);
        assert(cur.len() == 0 || !is_ws(cur.last()));
        assert(trim_end(cur) == cur);
    }
    let desc = vstd::slice::slice_to_vec(vstd::slice::slice_subrange(line, pos, end));
    let completion_date: Option<Date> = if d2.is_some() { d1 } else { None };
    let creation_date: Option<Date> = if d2.is_some() { d2 } else { d1 };
    let t = Task { completed, priority, completion_date, creation_date, description: desc };
    proof {
        assert(line@.subrange(pos as int, line@.len() as int) =~= line@.skip(pos as int));
        assert(t@ == spec_parse(line@)->Ok_0);
    }
    Ok(t)
}

/// Appends the bytes of `s` to `out`.
fn push_bytes(out: &mut Vec<u8>, s: &Vec<u8>)
    ensures
        final(out)@ == old(out)@ + s@,
{
    let mut i: usize = 0;
    while i < s.len()
        invariant
            i <= s.len(),
            out@ == old(out)@ + s@.take(i as int),
        decreases s.len() - i,
    {
        out.push(s[i]);
        i = i + 1;
        proof {
            assert(old(out)@ + s@.take(i as int) =~= (old(out)@ + s@.take(i - 1)).push(
                s@[i - 1],
            ));
        }
    }
    proof {
        assert(s@.take(s@.len() as int) =~= s@);
    }
}

/// Serializes a task back into its line.
pub fn serialize(t: &Task) -> (r: Vec<u8>)
    ensures
        r@ == spec_serialize(t@),
{
    let mut out: Vec<u8> = Vec::new();
    if t.completed {
        out.push(120);
        out.push(32);
    }
    proof {
        assert(out@ =~= x_part(t@));
    }
    match t.priority {
        Some(p) => {
            out.push(40);
            out.push(p);
            out.push(41);
            out.push(32);
        },
        None => {},
    }
    proof {
        assert(out@ =~= x_part(t@) + prio_part(t@));
    }
    match &t.completion_date {
        Some(d) => {
            let db = d.render();
            push_bytes(&mut out, &db);
            out.push(32);
        },
        None => {},
    }
    proof {
        assert(out@ =~= x_part(t@) + prio_part(t@) + date_part(t@.completion_date));
    }
    match &t.creation_date {
        Some(d) => {
            let db = d.render();
            push_bytes(&mut out, &db);
            out.push(32);
        },
        None => {},
    }
    proof {
        assert(out@ =~= x_part(t@) + prio_part(t@) + date_part(t@.completion_date) + date_part(
            t@.creation_date,
        ));
    }
    push_bytes(&mut out, &t.description);
    proof {
        assert(out@ =~= spec_serialize(t@));
    }
    out
}

} // verus!
