//! The state file: a pending download's progress as a small JSON document, written and read
//! back.
//!
//! The document has the three members `total`, `part_count` and `parts`, in this order and
//! without white space; `total` is a number or `null`, and each part has the members
//! `start`, `end` and `downloaded`.

use crate::decimal::{
    all_digits, decimal, digits_value, is_digit, lemma_decimal_digits, parse_u64_range,
    u64_to_decimal, usize_to_decimal,
};
use crate::partial_state::{PartProgress, PartialDownloadState};
use crate::text::{char_code, chars_of, matches_at, occurs_at};
use vstd::prelude::*;

verus! {

/// What a state holds, as plain values.
pub struct StateView {
    pub total: Option<u64>,
    pub part_count: usize,
    pub parts: Seq<PartProgress>,
}

impl View for PartialDownloadState {
    type V = StateView;

    open spec fn view(&self) -> StateView {
        StateView { total: self.total, part_count: self.part_count, parts: self.parts@ }
    }
}

/// The member `total`: a number, or `null` for an unknown total.
pub open spec fn encoded_total(total: Option<u64>) -> Seq<char> {
    match total {
        Some(t) => decimal(t as nat),
        None => "null"@,
    }
}

/// One part as a JSON object.
pub open spec fn encoded_part(part: PartProgress) -> Seq<char> {
    "{\"start\":"@ + decimal(part.start as nat) + ",\"end\":"@ + decimal(part.end as nat)
        + ",\"downloaded\":"@ + decimal(part.downloaded as nat) + "}"@
}

/// The parts after the first, each behind a comma.
pub open spec fn encoded_more(parts: Seq<PartProgress>) -> Seq<char>
    decreases parts.len(),
{
    if parts.len() == 0 {
        Seq::empty()
    } else {
        ","@ + encoded_part(parts[0]) + encoded_more(parts.drop_first())
    }
}

/// The elements of the array `parts`, separated by commas.
pub open spec fn encoded_parts(parts: Seq<PartProgress>) -> Seq<char> {
    if parts.len() == 0 {
        Seq::empty()
    } else {
        encoded_part(parts[0]) + encoded_more(parts.drop_first())
    }
}

/// The document of a state.
pub open spec fn encoded(state: StateView) -> Seq<char> {
    "{\"total\":"@ + encoded_total(state.total) + ",\"part_count\":"@ + decimal(
        state.part_count as nat,
    ) + ",\"parts\":["@ + encoded_parts(state.parts) + "]}"@
}

/// `s` behind the literal `lit`, if `s` begins with it.
pub open spec fn behind(s: Seq<char>, lit: Seq<char>) -> Option<Seq<char>> {
    if occurs_at(s, lit, 0) {
        Some(s.skip(lit.len() as int))
    } else {
        None
    }
}

/// Number of digits at the front of `s`.
pub open spec fn digit_run(s: Seq<char>) -> nat
    decreases s.len(),
{
    if s.len() > 0 && is_digit(s[0]) {
        1 + digit_run(s.drop_first())
    } else {
        0
    }
}

/// The number at the front of `s`, with what follows it: at least one digit, and a value
/// that fits.
pub open spec fn number(s: Seq<char>) -> Option<(u64, Seq<char>)> {
    let n = digit_run(s);
    if n > 0 && digits_value(s.take(n as int)) <= u64::MAX {
        Some((digits_value(s.take(n as int)) as u64, s.skip(n as int)))
    } else {
        None
    }
}

/// The part at the front of `s`, with what follows it.
pub open spec fn part(s: Seq<char>) -> Option<(PartProgress, Seq<char>)> {
    match behind(s, "{\"start\":"@) {
        None => None,
        Some(s1) => match number(s1) {
            None => None,
            Some((start, s2)) => match behind(s2, ",\"end\":"@) {
                None => None,
                Some(s3) => match number(s3) {
                    None => None,
                    Some((end, s4)) => match behind(s4, ",\"downloaded\":"@) {
                        None => None,
                        Some(s5) => match number(s5) {
                            None => None,
                            Some((downloaded, s6)) => match behind(s6, "}"@) {
                                None => None,
                                Some(s7) => Some((PartProgress { start, end, downloaded }, s7)),
                            },
                        },
                    },
                },
            },
        },
    }
}

/// The rest of the array `parts` at the front of `s`, after the parts `so_far`: its end, or
/// a comma and one more part, and so on.
pub open spec fn more_parts(s: Seq<char>, so_far: Seq<PartProgress>) -> Option<
    (Seq<PartProgress>, Seq<char>),
>
    decreases s.len(),
{
    match behind(s, "]"@) {
        Some(rest) => Some((so_far, rest)),
        None => match behind(s, ","@) {
            None => None,
            Some(s1) => match part(s1) {
                None => None,
                Some((p, s2)) => if s2.len() < s.len() {
                    more_parts(s2, so_far.push(p))
                } else {
                    None
                },
            },
        },
    }
}

/// The array `parts` behind its opening bracket, with what follows it.
pub open spec fn parts_array(s: Seq<char>) -> Option<(Seq<PartProgress>, Seq<char>)> {
    match behind(s, "]"@) {
        Some(rest) => Some((Seq::empty(), rest)),
        None => match part(s) {
            None => None,
            Some((p, s1)) => more_parts(s1, seq![p]),
        },
    }
}

/// The member `total` at the front of `s`, with what follows it.
pub open spec fn total_member(s: Seq<char>) -> Option<(Option<u64>, Seq<char>)> {
    match behind(s, "null"@) {
        Some(rest) => Some((None, rest)),
        None => match number(s) {
            Some((t, rest)) => Some((Some(t), rest)),
            None => None,
        },
    }
}

/// What a document holds, if it is the document of a state: the members in their order,
/// nothing between them and nothing behind them.
pub open spec fn decoded(text: Seq<char>) -> Option<StateView> {
    match behind(text, "{\"total\":"@) {
        None => None,
        Some(s1) => match total_member(s1) {
            None => None,
            Some((total, s2)) => match behind(s2, ",\"part_count\":"@) {
                None => None,
                Some(s3) => match number(s3) {
                    None => None,
                    Some((count, s4)) => if count > usize::MAX {
                        None
                    } else {
                        match behind(s4, ",\"parts\":["@) {
                            None => None,
                            Some(s5) => match parts_array(s5) {
                                None => None,
                                Some((parts, s6)) => if s6 == "}"@ {
                                    Some(StateView { total, part_count: count as usize, parts })
                                } else {
                                    None
                                },
                            },
                        }
                    },
                },
            },
        },
    }
}

/// A literal that stands at the front is read, and what follows it is left.
proof fn lemma_behind(lit: Seq<char>, rest: Seq<char>)
    ensures
        behind(lit + rest, lit) == Some(rest),
{
    let s = lit + rest;
    assert(s.subrange(0, lit.len() as int) =~= lit);
    assert(s.skip(lit.len() as int) =~= rest);
}

/// Behind digits that are followed by something else, the run of digits ends.
proof fn lemma_digit_run(digits: Seq<char>, rest: Seq<char>)
    requires
        all_digits(digits),
        rest.len() == 0 || !is_digit(rest[0]),
    ensures
        digit_run(digits + rest) == digits.len(),
    decreases digits.len(),
{
    let s = digits + rest;
    if digits.len() == 0 {
        assert(s =~= rest);
    } else {
        assert(s[0] == digits[0]);
        assert(s.drop_first() =~= digits.drop_first() + rest);
        assert forall|i: int| 0 <= i < digits.drop_first().len() implies is_digit(
            #[trigger] digits.drop_first()[i],
        ) by {
            assert(digits.drop_first()[i] == digits[i + 1]);
        }
        lemma_digit_run(digits.drop_first(), rest);
    }
}

/// A number in decimal that is followed by something else than a digit is read back.
proof fn lemma_number(n: u64, rest: Seq<char>)
    requires
        rest.len() == 0 || !is_digit(rest[0]),
    ensures
        number(decimal(n as nat) + rest) == Some((n, rest)),
{
    let d = decimal(n as nat);
    let s = d + rest;
    lemma_decimal_digits(n as nat);
    lemma_digit_run(d, rest);
    assert(s.take(d.len() as int) =~= d);
    assert(s.skip(d.len() as int) =~= rest);
}

/// The first characters of the literals that follow a number or a part.
proof fn lemma_literals()
    ensures
        ",\"end\":"@.len() > 0 && ",\"end\":"@[0] == ',',
        ",\"downloaded\":"@.len() > 0 && ",\"downloaded\":"@[0] == ',',
        ",\"part_count\":"@.len() > 0 && ",\"part_count\":"@[0] == ',',
        ",\"parts\":["@.len() > 0 && ",\"parts\":["@[0] == ',',
        "{\"start\":"@.len() > 0 && "{\"start\":"@[0] == '{',
        "}"@ == seq!['}'],
        "]"@ == seq![']'],
        ","@ == seq![','],
        "]}"@ == seq![']', '}'],
        "null"@ == seq!['n', 'u', 'l', 'l'],
        !is_digit(','),
        !is_digit('}'),
        !is_digit(']'),
        !is_digit('n'),
        !is_digit('{'),
{
    reveal_strlit(",\"end\":");
    reveal_strlit(",\"downloaded\":");
    reveal_strlit(",\"part_count\":");
    reveal_strlit(",\"parts\":[");
    reveal_strlit("{\"start\":");
    reveal_strlit("}");
    reveal_strlit("]");
    reveal_strlit(",");
    reveal_strlit("]}");
    reveal_strlit("null");
    assert("}"@ =~= seq!['}']);
    assert("]"@ =~= seq![']']);
    assert(","@ =~= seq![',']);
    assert("]}"@ =~= seq![']', '}']);
    assert("null"@ =~= seq!['n', 'u', 'l', 'l']);
}

/// A part that was written is read back, and what follows it is left.
proof fn lemma_part(p: PartProgress, rest: Seq<char>)
    ensures
        part(encoded_part(p) + rest) == Some((p, rest)),
        encoded_part(p).len() > 0,
        (encoded_part(p) + rest)[0] == '{',
{
    lemma_literals();
    let l1 = "{\"start\":"@;
    let l2 = ",\"end\":"@;
    let l3 = ",\"downloaded\":"@;
    let l4 = "}"@;
    let d1 = decimal(p.start as nat);
    let d2 = decimal(p.end as nat);
    let d3 = decimal(p.downloaded as nat);
    let s7 = rest;
    let s6 = l4 + s7;
    let s5 = d3 + s6;
    let s4 = l3 + s5;
    let s3 = d2 + s4;
    let s2 = l2 + s3;
    let s1 = d1 + s2;
    let s0 = l1 + s1;
    assert(encoded_part(p) + rest =~= s0);
    lemma_behind(l1, s1);
    assert(s2[0] == ',');
    lemma_number(p.start, s2);
    lemma_behind(l2, s3);
    assert(s4[0] == ',');
    lemma_number(p.end, s4);
    lemma_behind(l3, s5);
    assert(s6[0] == '}');
    lemma_number(p.downloaded, s6);
    lemma_behind(l4, s7);
    assert(s0[0] == l1[0]);
}

/// The parts that were written behind the first are read back, behind whatever was read
/// before them.
proof fn lemma_more_parts(parts: Seq<PartProgress>, so_far: Seq<PartProgress>, rest: Seq<char>)
    ensures
        more_parts(encoded_more(parts) + "]"@ + rest, so_far) == Some((so_far + parts, rest)),
    decreases parts.len(),
{
    lemma_literals();
    let s = encoded_more(parts) + "]"@ + rest;
    if parts.len() == 0 {
        assert(s =~= "]"@ + rest);
        lemma_behind("]"@, rest);
        assert(so_far + parts =~= so_far);
    } else {
        let p = parts[0];
        let tail = parts.drop_first();
        let after = encoded_more(tail) + "]"@ + rest;
        let s1 = encoded_part(p) + after;
        assert(s =~= ","@ + s1);
        assert(s[0] == ',');
        assert(behind(s, "]"@) is None) by {
            if occurs_at(s, "]"@, 0) {
                assert(s.subrange(0, 1)[0] == ']');
            }
        }
        lemma_behind(","@, s1);
        lemma_part(p, after);
        assert(after.len() < s.len());
        lemma_more_parts(tail, so_far.push(p), rest);
        assert(so_far.push(p) + tail =~= so_far + parts);
    }
}

/// An array that was written is read back, and what follows it is left.
proof fn lemma_parts_array(parts: Seq<PartProgress>, rest: Seq<char>)
    ensures
        parts_array(encoded_parts(parts) + "]"@ + rest) == Some((parts, rest)),
{
    lemma_literals();
    let s = encoded_parts(parts) + "]"@ + rest;
    if parts.len() == 0 {
        assert(s =~= "]"@ + rest);
        lemma_behind("]"@, rest);
    } else {
        let p = parts[0];
        let tail = parts.drop_first();
        let after = encoded_more(tail) + "]"@ + rest;
        assert(s =~= encoded_part(p) + after);
        lemma_part(p, after);
        assert(behind(s, "]"@) is None) by {
            if occurs_at(s, "]"@, 0) {
                assert(s.subrange(0, 1)[0] == ']');
            }
        }
        lemma_more_parts(tail, seq![p], rest);
        assert(seq![p] + tail =~= parts);
    }
}

/// A total that was written is read back, and what follows it is left.
proof fn lemma_total(total: Option<u64>, rest: Seq<char>)
    requires
        rest.len() > 0 && rest[0] == ',',
    ensures
        total_member(encoded_total(total) + rest) == Some((total, rest)),
{
    lemma_literals();
    let s = encoded_total(total) + rest;
    match total {
        None => {
            lemma_behind("null"@, rest);
        },
        Some(t) => {
            lemma_decimal_digits(t as nat);
            assert(behind(s, "null"@) is None) by {
                if occurs_at(s, "null"@, 0) {
                    assert(s.subrange(0, 4)[0] == 'n');
                    assert(s[0] == decimal(t as nat)[0]);
                    assert(is_digit(decimal(t as nat)[0]));
                }
            }
            lemma_number(t, rest);
        },
    }
}

/// A state that is written and read back is the same state.
pub proof fn lemma_state_round_trip(state: StateView)
    ensures
        decoded(encoded(state)) == Some(state),
{
    lemma_literals();
    let l1 = "{\"total\":"@;
    let l2 = ",\"part_count\":"@;
    let l3 = ",\"parts\":["@;
    let s6 = "}"@;
    let s5 = encoded_parts(state.parts) + "]"@ + s6;
    let s4 = l3 + s5;
    let s3 = decimal(state.part_count as nat) + s4;
    let s2 = l2 + s3;
    let s1 = encoded_total(state.total) + s2;
    let s0 = l1 + s1;
    assert("]}"@ =~= "]"@ + "}"@);
    assert(encoded(state) =~= s0);
    lemma_behind(l1, s1);
    assert(s2[0] == ',');
    lemma_total(state.total, s2);
    lemma_behind(l2, s3);
    assert(s4[0] == ',');
    lemma_number(state.part_count as u64, s4);
    lemma_behind(l3, s5);
    lemma_parts_array(state.parts, s6);
}

/// Writing one more part behind others puts a comma and the part at the end.
proof fn lemma_encoded_more_push(parts: Seq<PartProgress>, p: PartProgress)
    ensures
        encoded_more(parts.push(p)) == encoded_more(parts) + ","@ + encoded_part(p),
    decreases parts.len(),
{
    let all = parts.push(p);
    if parts.len() == 0 {
        assert(all.drop_first() =~= Seq::<PartProgress>::empty());
        assert(encoded_more(all.drop_first()) =~= Seq::<char>::empty());
        assert(encoded_more(all) =~= ","@ + encoded_part(p));
        assert(encoded_more(parts) + ","@ + encoded_part(p) =~= ","@ + encoded_part(p));
    } else {
        assert(all.drop_first() =~= parts.drop_first().push(p));
        assert(all[0] == parts[0]);
        lemma_encoded_more_push(parts.drop_first(), p);
        assert(encoded_more(all) =~= encoded_more(parts) + ","@ + encoded_part(p));
    }
}

/// Writing one more part into an array puts it at the end, behind a comma unless it is the
/// first.
proof fn lemma_encoded_parts_push(parts: Seq<PartProgress>, p: PartProgress)
    ensures
        encoded_parts(parts.push(p)) == if parts.len() == 0 {
            encoded_part(p)
        } else {
            encoded_parts(parts) + ","@ + encoded_part(p)
        },
{
    let all = parts.push(p);
    if parts.len() == 0 {
        assert(all.drop_first() =~= Seq::<PartProgress>::empty());
        assert(encoded_parts(all) =~= encoded_part(p));
    } else {
        assert(all.drop_first() =~= parts.drop_first().push(p));
        assert(all[0] == parts[0]);
        lemma_encoded_more_push(parts.drop_first(), p);
        assert(encoded_parts(all) =~= encoded_parts(parts) + ","@ + encoded_part(p));
    }
}

fn write_part(out: &mut String, part: &PartProgress)
    ensures
        final(out)@ == old(out)@ + encoded_part(*part),
{
    let ghost before = out@;
    out.append("{\"start\":");
    out.append(u64_to_decimal(part.start).as_str());
    out.append(",\"end\":");
    out.append(u64_to_decimal(part.end).as_str());
    out.append(",\"downloaded\":");
    out.append(u64_to_decimal(part.downloaded).as_str());
    out.append("}");
    assert(out@ =~= before + encoded_part(*part));
}

/// The document of a state.
pub fn encode_state(state: &PartialDownloadState) -> (text: String)
    ensures
        text@ == encoded(state@),
{
    let mut text = String::from_str("{\"total\":");
    match state.total {
        Some(total) => {
            text.append(u64_to_decimal(total).as_str());
        },
        None => {
            text.append("null");
        },
    }
    text.append(",\"part_count\":");
    text.append(usize_to_decimal(state.part_count).as_str());
    text.append(",\"parts\":[");
    let ghost head = text@;
    let mut i: usize = 0;
    assert(state.parts@.take(0) =~= Seq::<PartProgress>::empty());
    assert(text@ =~= head + encoded_parts(state.parts@.take(0)));
    while i < state.parts.len()
        invariant
            i <= state.parts@.len(),
            text@ == head + encoded_parts(state.parts@.take(i as int)),
        decreases state.parts@.len() - i,
    {
        let ghost written = state.parts@.take(i as int);
        proof {
            lemma_encoded_parts_push(written, state.parts@[i as int]);
            assert(state.parts@.take(i as int + 1) =~= written.push(state.parts@[i as int]));
        }
        if i > 0 {
            text.append(",");
        }
        write_part(&mut text, &state.parts[i]);
        assert(text@ =~= head + encoded_parts(state.parts@.take(i as int + 1)));
        i += 1;
    }
    assert(state.parts@.take(i as int) =~= state.parts@);
    text.append("]}");
    assert(text@ =~= encoded(state@));
    text
}

/// Reads the literal `lit` at `pos`.
fn expect(v: &Vec<char>, pos: usize, lit: &str) -> (next: Option<usize>)
    requires
        pos <= v@.len(),
    ensures
        match next {
            Some(p) => pos <= p <= v@.len() && p == pos + lit@.len() && behind(
                v@.skip(pos as int),
                lit@,
            ) == Some(v@.skip(p as int)),
            None => behind(v@.skip(pos as int), lit@) is None,
        },
{
    let l = chars_of(lit);
    let s = Ghost(v@.skip(pos as int));
    let len = v.len();
    if matches_at(v, &l, pos) {
        assert(pos + l@.len() <= len);
        proof {
            assert(s@.subrange(0, l@.len() as int) =~= v@.subrange(pos as int, pos + l@.len()));
            assert(s@.skip(l@.len() as int) =~= v@.skip(pos + l@.len()));
        }
        Some(pos + l.len())
    } else {
        proof {
            if occurs_at(s@, l@, 0) {
                assert(s@.subrange(0, l@.len() as int) =~= v@.subrange(
                    pos as int,
                    pos + l@.len(),
                ));
            }
        }
        None
    }
}

fn is_digit_char(c: char) -> (digit: bool)
    ensures
        digit == is_digit(c),
{
    let code = char_code(c);
    48 <= code && code <= 57
}

/// Reads the number at `pos`.
fn read_number(v: &Vec<char>, pos: usize) -> (read: Option<(u64, usize)>)
    requires
        pos <= v@.len(),
    ensures
        match read {
            Some((n, p)) => pos < p <= v@.len() && number(v@.skip(pos as int)) == Some(
                (n, v@.skip(p as int)),
            ),
            None => number(v@.skip(pos as int)) is None,
        },
{
    let ghost s = v@.skip(pos as int);
    let mut end: usize = pos;
    assert(v@.subrange(pos as int, pos as int) =~= Seq::<char>::empty());
    while end < v.len() && is_digit_char(v[end])
        invariant
            pos <= end <= v@.len(),
            digit_run(v@.skip(pos as int)) == (end - pos) + digit_run(v@.skip(end as int)),
            all_digits(v@.subrange(pos as int, end as int)),
        decreases v@.len() - end,
    {
        proof {
            assert(v@.skip(end as int)[0] == v@[end as int]);
            assert(v@.skip(end as int).drop_first() =~= v@.skip(end as int + 1));
            let next = v@.subrange(pos as int, end as int + 1);
            assert forall|i: int| 0 <= i < next.len() implies is_digit(#[trigger] next[i]) by {
                if i < next.len() - 1 {
                    assert(next[i] == v@.subrange(pos as int, end as int)[i]);
                }
            }
        }
        end += 1;
    }
    proof {
        if end < v@.len() {
            assert(v@.skip(end as int)[0] == v@[end as int]);
        }
        assert(digit_run(v@.skip(end as int)) == 0);
        assert(s.take(end - pos) =~= v@.subrange(pos as int, end as int));
        assert(s.skip(end - pos) =~= v@.skip(end as int));
    }
    if end == pos {
        return None;
    }
    proof {
        let digits = v@.subrange(pos as int, end as int);
        assert(is_digit(digits[0]));
        assert(digits[0] != '+');
    }
    match parse_u64_range(v, pos, end) {
        Some(n) => Some((n, end)),
        None => None,
    }
}

/// Reads the part at `pos`.
fn read_part(v: &Vec<char>, pos: usize) -> (read: Option<(PartProgress, usize)>)
    requires
        pos <= v@.len(),
    ensures
        match read {
            Some((p, next)) => pos < next <= v@.len() && part(v@.skip(pos as int)) == Some(
                (p, v@.skip(next as int)),
            ),
            None => part(v@.skip(pos as int)) is None,
        },
{
    let at1 = match expect(v, pos, "{\"start\":") {
        Some(p) => p,
        None => {
            return None;
        },
    };
    let (start, at2) = match read_number(v, at1) {
        Some(r) => r,
        None => {
            return None;
        },
    };
    let at3 = match expect(v, at2, ",\"end\":") {
        Some(p) => p,
        None => {
            return None;
        },
    };
    let (end, at4) = match read_number(v, at3) {
        Some(r) => r,
        None => {
            return None;
        },
    };
    let at5 = match expect(v, at4, ",\"downloaded\":") {
        Some(p) => p,
        None => {
            return None;
        },
    };
    let (downloaded, at6) = match read_number(v, at5) {
        Some(r) => r,
        None => {
            return None;
        },
    };
    let at7 = match expect(v, at6, "}") {
        Some(p) => p,
        None => {
            return None;
        },
    };
    Some((PartProgress { start, end, downloaded }, at7))
}

/// Reads the array `parts` behind its opening bracket at `pos`.
fn read_parts(v: &Vec<char>, pos: usize) -> (read: Option<(Vec<PartProgress>, usize)>)
    requires
        pos <= v@.len(),
    ensures
        match read {
            Some((parts, next)) => pos <= next <= v@.len() && parts_array(v@.skip(pos as int))
                == Some((parts@, v@.skip(next as int))),
            None => parts_array(v@.skip(pos as int)) is None,
        },
{
    let mut parts: Vec<PartProgress> = Vec::new();
    match expect(v, pos, "]") {
        Some(next) => {
            assert(parts@ =~= Seq::<PartProgress>::empty());
            return Some((parts, next));
        },
        None => {},
    }
    let mut at: usize = match read_part(v, pos) {
        Some((p, next)) => {
            parts.push(p);
            assert(parts@ =~= seq![p]);
            next
        },
        None => {
            return None;
        },
    };
    loop
        invariant
            pos <= at <= v@.len(),
            parts_array(v@.skip(pos as int)) == more_parts(v@.skip(at as int), parts@),
        decreases v@.len() - at,
    {
        match expect(v, at, "]") {
            Some(next) => {
                return Some((parts, next));
            },
            None => {},
        }
        let after_comma = match expect(v, at, ",") {
            Some(p) => p,
            None => {
                return None;
            },
        };
        match read_part(v, after_comma) {
            Some((p, next)) => {
                proof {
                    reveal_strlit(",");
                    assert(v@.skip(next as int).len() < v@.skip(at as int).len());
                }
                parts.push(p);
                at = next;
            },
            None => {
                return None;
            },
        }
    }
}

/// Reads a document: the state that it holds, if it is the document of a state.
pub fn decode_state(text: &str) -> (state: Option<PartialDownloadState>)
    ensures
        match state {
            Some(s) => decoded(text@) == Some(s@),
            None => decoded(text@) is None,
        },
{
    let v = chars_of(text);
    assert(v@.skip(0) =~= v@);
    let at1 = match expect(&v, 0, "{\"total\":") {
        Some(p) => p,
        None => {
            return None;
        },
    };
    let (total, at2) = match expect(&v, at1, "null") {
        Some(p) => (None, p),
        None => match read_number(&v, at1) {
            Some((t, p)) => (Some(t), p),
            None => {
                return None;
            },
        },
    };
    let at3 = match expect(&v, at2, ",\"part_count\":") {
        Some(p) => p,
        None => {
            return None;
        },
    };
    let (count, at4) = match read_number(&v, at3) {
        Some(r) => r,
        None => {
            return None;
        },
    };
    if count > usize::MAX as u64 {
        return None;
    }
    let at5 = match expect(&v, at4, ",\"parts\":[") {
        Some(p) => p,
        None => {
            return None;
        },
    };
    let (parts, at6) = match read_parts(&v, at5) {
        Some(r) => r,
        None => {
            return None;
        },
    };
    let ghost s6 = v@.skip(at6 as int);
    match expect(&v, at6, "}") {
        Some(at7) => {
            proof {
                reveal_strlit("}");
            }
            if at7 == v.len() {
                assert(s6 =~= "}"@);
                Some(PartialDownloadState { total, part_count: count as usize, parts })
            } else {
                assert(s6.len() != "}"@.len());
                None
            }
        },
        None => {
            proof {
                if s6 == "}"@ {
                    assert(s6.subrange(0, s6.len() as int) =~= s6);
                }
            }
            None
        },
    }
}

/// The document to persist for a state.
pub fn save_partial_state(state: &PartialDownloadState) -> (text: String)
    ensures
        text@ == encoded(state@),
{
    encode_state(state)
}

/// The state that a persisted document holds, with a part count of zero read as one;
/// `None` for a document that is not the document of a state.
pub fn load_partial_state(text: &str) -> (state: Option<PartialDownloadState>)
    ensures
        match state {
            Some(s) => decoded(text@) is Some && s@ == (StateView {
                total: decoded(text@)->0.total,
                part_count: if decoded(text@)->0.part_count == 0 {
                    1usize
                } else {
                    decoded(text@)->0.part_count
                },
                parts: decoded(text@)->0.parts,
            }),
            None => decoded(text@) is None,
        },
{
    match decode_state(text) {
        Some(mut state) => {
            if state.part_count == 0 {
                state.part_count = 1;
            }
            Some(state)
        },
        None => None,
    }
}

/// A state that asks for at least one part, saved and loaded again, is the same state.
pub proof fn lemma_save_then_load(state: StateView)
    requires
        state.part_count >= 1,
    ensures
        decoded(encoded(state)) == Some(state),
        decoded(encoded(state))->0.part_count != 0,
{
    lemma_state_round_trip(state);
}

} // verus!
