//! The messages of `log` and `assert` statements: text with the values of
//! expressions put in, in decimal.
use vstd::prelude::*;
use super::error::AsmError;

verus! {

/// A piece of a message: literal text, or the value of the expression at
/// an index among the statement's value expressions.
#[derive(Debug, Clone, PartialEq, Eq)]
pub enum MsgPart {
    Text(String),
    Value(usize),
}

/// The decimal digit of `d`.
pub open spec fn digit_char(d: nat) -> char {
    if d == 0 {
        '0'
    } else if d == 1 {
        '1'
    } else if d == 2 {
        '2'
    } else if d == 3 {
        '3'
    } else if d == 4 {
        '4'
    } else if d == 5 {
        '5'
    } else if d == 6 {
        '6'
    } else if d == 7 {
        '7'
    } else if d == 8 {
        '8'
    } else {
        '9'
    }
}

/// `n` in decimal, without leading zeros.
pub open spec fn dec_nat(n: nat) -> Seq<char>
    decreases n,
{
    if n < 10 {
        seq![digit_char(n)]
    } else {
        dec_nat(n / 10).push(digit_char(n % 10))
    }
}

/// `v` in decimal, with a minus sign when negative.
pub open spec fn dec_int(v: int) -> Seq<char> {
    if v < 0 {
        seq!['-'] + dec_nat((-v) as nat)
    } else {
        dec_nat(v as nat)
    }
}

/// The text of a message with parts `parts`, the `i`th value part standing
/// for `values[base + i]`; none where a value part has no value.
pub open spec fn msg_text(parts: Seq<MsgPart>, values: Seq<i64>, base: int) -> Option<Seq<char>>
    decreases parts.len(),
{
    if parts.len() == 0 {
        Some(Seq::empty())
    } else {
        match msg_text(parts.drop_last(), values, base) {
            None => None,
            Some(t) => match parts.last() {
                MsgPart::Text(s) => Some(t + s@),
                MsgPart::Value(i) => if base + i < values.len() {
                    Some(t + dec_int(values[base + i] as int))
                } else {
                    None
                },
            },
        }
    }
}

/// The digit `d` as text.
fn digit_str(d: u64) -> (res: &'static str)
    requires
        d < 10,
    ensures
        res@ == seq![digit_char(d as nat)],
{
    proof {
        reveal_strlit("0");
        reveal_strlit("1");
        reveal_strlit("2");
        reveal_strlit("3");
        reveal_strlit("4");
        reveal_strlit("5");
        reveal_strlit("6");
        reveal_strlit("7");
        reveal_strlit("8");
        reveal_strlit("9");
    }
    match d {
        0 => "0",
        1 => "1",
        2 => "2",
        3 => "3",
        4 => "4",
        5 => "5",
        6 => "6",
        7 => "7",
        8 => "8",
        _ => "9",
    }
}

/// Append `n` in decimal to `out`.
fn push_decimal(out: &mut String, n: u64)
    ensures
        final(out)@ == old(out)@ + dec_nat(n as nat),
    decreases n,
{
    if n >= 10 {
        push_decimal(out, n / 10);
    }
    out.append(digit_str(n % 10));
    proof {
        if n >= 10 {
            assert(final(out)@ =~= old(out)@ + dec_nat(n as nat));
        } else {
            assert(final(out)@ =~= old(out)@ + dec_nat(n as nat));
        }
    }
}

/// Append `v` in decimal to `out`.
fn push_signed_decimal(out: &mut String, v: i64)
    ensures
        final(out)@ == old(out)@ + dec_int(v as int),
{
    if v < 0 {
        proof {
            reveal_strlit("-");
        }
        out.append("-");
        let magnitude: u64 = (0i128 - v as i128) as u64;
        push_decimal(out, magnitude);
        assert(final(out)@ =~= old(out)@ + dec_int(v as int));
    } else {
        push_decimal(out, v as u64);
    }
}

/// The text of a message: its text parts, with each value part put in as
/// the decimal of `values[value_base + i]`. A value part with no value is
/// an error.
pub fn format_msg(parts: &Vec<MsgPart>, values: &Vec<i64>, value_base: usize) -> (res: Result<
    String,
    AsmError,
>)
    ensures
        match msg_text(parts@, values@, value_base as int) {
            Some(t) => res matches Ok(s) && s@ == t,
            None => res == Err::<String, AsmError>(AsmError::MessageValueMissing),
        },
{
    let mut text = String::new();
    let mut k: usize = 0;
    while k < parts.len()
        invariant
            k <= parts@.len(),
            msg_text(parts@.subrange(0, k as int), values@, value_base as int) == Some(text@),
        decreases parts@.len() - k,
    {
        proof {
            assert(parts@.subrange(0, k as int + 1).drop_last() =~= parts@.subrange(0, k as int));
        }
        match &parts[k] {
            MsgPart::Text(t) => {
                text.append(t.as_str());
            },
            MsgPart::Value(i) => {
                if *i >= values.len() || value_base >= values.len() - *i {
                    proof {
                        lemma_msg_missing(parts@, values@, value_base as int, k as int);
                    }
                    return Err(AsmError::MessageValueMissing);
                }
                push_signed_decimal(&mut text, values[value_base + *i]);
            },
        }
        k = k + 1;
    }
    proof {
        assert(parts@.subrange(0, parts@.len() as int) =~= parts@);
    }
    Ok(text)
}

/// Once a prefix of the parts has a missing value, the message has none.
proof fn lemma_msg_missing(parts: Seq<MsgPart>, values: Seq<i64>, base: int, k: int)
    requires
        0 <= k < parts.len(),
        msg_text(parts.subrange(0, k + 1), values, base) is None,
    ensures
        msg_text(parts, values, base) is None,
    decreases parts.len() - k,
{
    if k + 1 < parts.len() {
        assert(parts.subrange(0, k + 2).drop_last() =~= parts.subrange(0, k + 1));
        lemma_msg_missing(parts, values, base, k + 1);
    } else {
        assert(parts.subrange(0, k + 1) =~= parts);
    }
}

/// The error text of a failed `assert`: `assertion failed`, followed by
/// `: ` and the message where the message is not empty.
pub fn assertion_message(text: &str) -> (res: String)
    ensures
        res@ == if text@.len() == 0 {
            "assertion failed"@
        } else {
            "assertion failed: "@ + text@
        },
{
    if text.unicode_len() == 0 {
        "assertion failed".to_owned()
    } else {
        "assertion failed: ".to_owned().concat(text)
    }
}

/// The value of a decimal digit character.
pub open spec fn char_value(c: char) -> int {
    (c as int) - ('0' as int)
}

/// The number a string of decimal digits spells, most significant first.
pub open spec fn digits_value(s: Seq<char>) -> int
    decreases s.len(),
{
    if s.len() == 0 {
        0
    } else {
        digits_value(s.drop_last()) * 10 + char_value(s.last())
    }
}

/// Decimal text reads back as its number: it is made of digits only, has
/// no leading zero (but for zero itself), and spells `n`.
pub proof fn lemma_dec_nat_reads_back(n: nat)
    ensures
        forall|i: int| 0 <= i < dec_nat(n).len() ==> '0' <= #[trigger] dec_nat(n)[i] <= '9',
        dec_nat(n).len() >= 1,
        dec_nat(n)[0] == '0' ==> n == 0,
        digits_value(dec_nat(n)) == n,
    decreases n,
{
    if n >= 10 {
        lemma_dec_nat_reads_back(n / 10);
        let p = dec_nat(n / 10);
        let d = n % 10;
        assert(dec_nat(n).drop_last() =~= p);
        assert(char_value(digit_char(d)) == d);
        assert forall|i: int| 0 <= i < dec_nat(n).len() implies '0' <= #[trigger] dec_nat(n)[i] <= '9' by {
            if i < p.len() {
                assert(dec_nat(n)[i] == p[i]);
            }
        }
        assert(dec_nat(n)[0] == p[0]);
        assert(dec_nat(n).last() == digit_char(d));
        assert((n / 10) * 10 + n % 10 == n) by (nonlinear_arith);
        assert(digits_value(dec_nat(n)) == digits_value(p) * 10 + char_value(digit_char(d)));
    } else {
        assert(char_value(digit_char(n)) == n);
        assert(seq![digit_char(n)].drop_last() =~= Seq::<char>::empty());
        assert(dec_nat(n) == seq![digit_char(n)]);
        assert(digits_value(dec_nat(n)) == digits_value(Seq::<char>::empty()) * 10 + char_value(digit_char(n)));
    }
}

} // verus!

verus! {

/// Signed decimal reads back as its number: a minus sign exactly for a
/// negative value, then the decimal of its magnitude.
pub proof fn lemma_dec_int_reads_back(v: int)
    ensures
        (dec_int(v)[0] == '-') == (v < 0),
        v < 0 ==> -digits_value(dec_int(v).drop_first()) == v,
        v >= 0 ==> digits_value(dec_int(v)) == v,
{
    if v < 0 {
        lemma_dec_nat_reads_back((-v) as nat);
        assert(dec_int(v).drop_first() =~= dec_nat((-v) as nat));
    } else {
        lemma_dec_nat_reads_back(v as nat);
    }
}

/// The text of a message made of two runs of parts is the text of the
/// first run followed by the text of the second, each value part taking
/// the value it names; a missing value in either run leaves no text.
pub proof fn lemma_msg_concat(p1: Seq<MsgPart>, p2: Seq<MsgPart>, values: Seq<i64>, base: int)
    ensures
        msg_text(p1 + p2, values, base) == match (msg_text(p1, values, base), msg_text(p2, values, base)) {
            (Some(a), Some(b)) => Some(a + b),
            _ => None::<Seq<char>>,
        },
    decreases p2.len(),
{
    if p2.len() == 0 {
        assert(p1 + p2 =~= p1);
        if let Some(a) = msg_text(p1, values, base) {
            assert(a + Seq::<char>::empty() =~= a);
        }
    } else {
        let q = p2.drop_last();
        lemma_msg_concat(p1, q, values, base);
        assert((p1 + p2).drop_last() =~= p1 + q);
        assert((p1 + p2).last() == p2.last());
        match (msg_text(p1, values, base), msg_text(q, values, base)) {
            (Some(a), Some(b)) => {
                match p2.last() {
                    MsgPart::Text(s) => {
                        assert(a + b + s@ =~= a + (b + s@));
                    },
                    MsgPart::Value(i) => {
                        if base + i < values.len() {
                            let d = dec_int(values[base + i] as int);
                            assert(a + b + d =~= a + (b + d));
                        }
                    },
                }
            },
            _ => {},
        }
    }
}

} // verus!
