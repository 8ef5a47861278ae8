//! Literals: how the text of a value in a statement is read as a value of
//! a column's type, and how a stored value is written as text.
//!
//! Numbers with a fraction are not computed with here. Where a literal is
//! to become a float, or a float is to become text, the caller supplies
//! what the platform's conversion gave.

use crate::codec::put_value;
use crate::text::{chars_of, same_text, slice_of, string_of};
use crate::types::{DataType, ErrorKind, Value, ValueSpec};
use vstd::prelude::*;

verus! {

/// Whether `c` is one of the ten decimal digits.
pub open spec fn is_digit(c: char) -> bool {
    0x30 <= c as u32 <= 0x39
}

/// The number that the digit `c` stands for.
pub open spec fn digit_value(c: char) -> int {
    c as u32 - 0x30
}

/// Whether `s` is made of decimal digits alone.
pub open spec fn all_digits(s: Seq<char>) -> bool {
    forall|i: int| 0 <= i < s.len() ==> is_digit(#[trigger] s[i])
}

/// The number that the digits `s` spell in base ten.
pub open spec fn decimal_value(s: Seq<char>) -> int
    decreases s.len(),
{
    if s.len() == 0 {
        0
    } else {
        10 * decimal_value(s.drop_last()) + digit_value(s.last())
    }
}

/// The integer that `s` spells: an optional sign, `+` or `-`, and then one
/// decimal digit or more.
pub open spec fn integer_literal(s: Seq<char>) -> Option<int> {
    if s.len() > 0 && (s[0] == '+' || s[0] == '-') {
        let digits = s.skip(1);
        if digits.len() > 0 && all_digits(digits) {
            Some(
                if s[0] == '-' {
                    -decimal_value(digits)
                } else {
                    decimal_value(digits)
                },
            )
        } else {
            None
        }
    } else if s.len() > 0 && all_digits(s) {
        Some(decimal_value(s))
    } else {
        None
    }
}

/// The 32-bit integer that `s` spells, if it spells an integer and that
/// integer fits.
pub open spec fn i32_literal(s: Seq<char>) -> Option<i32> {
    match integer_literal(s) {
        Some(n) => if i32::MIN <= n <= i32::MAX {
            Some(n as i32)
        } else {
            None
        },
        None => None,
    }
}

/// The boolean that `s` spells: `true` or `false`, in lower case.
pub open spec fn bool_literal(s: Seq<char>) -> Option<bool> {
    if s == "true"@ {
        Some(true)
    } else if s == "false"@ {
        Some(false)
    } else {
        None
    }
}

/// `s` without the pair of single quotes around it, if it has one.
pub open spec fn unquoted(s: Seq<char>) -> Seq<char> {
    if s.len() >= 2 && s[0] == '\'' && s.last() == '\'' {
        s.subrange(1, s.len() - 1)
    } else {
        s
    }
}

/// The value of type `t` that the literal `s` spells. For a float,
/// `float_bits` is what the platform's conversion made of `s`: the bit
/// pattern of the number, or `None` where `s` spells no number. For the
/// other types `float_bits` is not looked at.
pub open spec fn literal_value(s: Seq<char>, t: DataType, float_bits: Option<u32>) -> Option<
    ValueSpec,
> {
    match t {
        DataType::Integer => match i32_literal(s) {
            Some(i) => Some(ValueSpec::Integer(i)),
            None => None,
        },
        DataType::Float => match float_bits {
            Some(bits) => Some(ValueSpec::Float(bits)),
            None => None,
        },
        DataType::Text => Some(ValueSpec::Text(unquoted(s))),
        DataType::Boolean => match bool_literal(s) {
            Some(b) => Some(ValueSpec::Boolean(b)),
            None => None,
        },
    }
}

/// A longer run of digits spells no smaller a number than its beginning.
pub proof fn lemma_decimal_value_grows(s: Seq<char>, n: int)
    requires
        all_digits(s),
        0 <= n <= s.len(),
    ensures
        0 <= decimal_value(s.take(n)) <= decimal_value(s),
    decreases s.len() - n,
{
    lemma_decimal_value_bounds(s.take(n));
    if n == s.len() {
        assert(s.take(n) =~= s);
    } else {
        lemma_decimal_value_grows(s, n + 1);
        assert(s.take(n + 1).drop_last() =~= s.take(n));
        assert(is_digit(s.take(n + 1).last())) by {
            assert(s.take(n + 1).last() == s[n]);
        }
    }
}

/// Digits spell a number that is not negative.
pub proof fn lemma_decimal_value_bounds(s: Seq<char>)
    requires
        all_digits(s),
    ensures
        0 <= decimal_value(s),
    decreases s.len(),
{
    if s.len() > 0 {
        assert forall|i: int| 0 <= i < s.drop_last().len() implies is_digit(
            #[trigger] s.drop_last()[i],
        ) by {
            assert(s.drop_last()[i] == s[i]);
        }
        lemma_decimal_value_bounds(s.drop_last());
        assert(is_digit(s.last()));
    }
}

/// Executable form of [`i32_literal`].
pub fn parse_i32(v: &Vec<char>) -> (r: Option<i32>)
    ensures
        r == i32_literal(v@),
{
    if v.len() == 0 {
        return None;
    }
    let signed: bool = v[0] == '+' || v[0] == '-';
    let negative: bool = v[0] == '-';
    let start: usize = if signed { 1 } else { 0 };
    if start == v.len() {
        return None;
    }
    let ghost digits = v@.skip(start as int);
    assert(v@.skip(0) =~= v@);
    let mut acc: i64 = 0;
    let mut i: usize = start;
    assert(digits.take(0) =~= Seq::<char>::empty());
    while i < v.len()
        invariant
            start <= i <= v.len(),
            v.len() > start,
            signed == (v@[0] == '+' || v@[0] == '-'),
            start == if signed { 1usize } else { 0usize },
            digits == v@.skip(start as int),
            !signed ==> digits == v@,
            all_digits(digits.take(i - start)),
            acc == decimal_value(digits.take(i - start)),
            0 <= acc <= 0x8000_0000,
        decreases v.len() - i,
    {
        let c: u32 = v[i] as u32;
        let ghost prev = digits.take(i - start);
        let ghost next = digits.take(i - start + 1);
        if c < 0x30 || c > 0x39 {
            assert(!is_digit(digits[i - start]));
            return None;
        }
        proof {
            assert(next.drop_last() =~= prev);
            assert(next.last() == v@[i as int]);
            assert forall|j: int| 0 <= j < next.len() implies is_digit(#[trigger] next[j]) by {
                if j < prev.len() {
                    assert(next[j] == prev[j]);
                }
            }
        }
        acc = acc * 10 + (c - 0x30) as i64;
        i = i + 1;
        if acc > 0x8000_0000 {
            proof {
                if all_digits(digits) {
                    lemma_decimal_value_grows(digits, i - start);
                }
            }
            return None;
        }
    }
    assert(digits.take(v.len() - start) =~= digits);
    if negative {
        Some((-acc) as i32)
    } else if acc == 0x8000_0000 {
        None
    } else {
        Some(acc as i32)
    }
}

/// Executable form of [`bool_literal`].
pub fn parse_bool(v: &Vec<char>) -> (r: Option<bool>)
    ensures
        r == bool_literal(v@),
{
    let yes = chars_of("true");
    let no = chars_of("false");
    if same_text(v, &yes) {
        Some(true)
    } else if same_text(v, &no) {
        Some(false)
    } else {
        None
    }
}

/// Executable form of [`unquoted`].
pub fn unquote(v: &Vec<char>) -> (r: Vec<char>)
    ensures
        r@ == unquoted(v@),
{
    if v.len() >= 2 && v[0] == '\'' && v[v.len() - 1] == '\'' {
        slice_of(v, 1, v.len() - 1)
    } else {
        let r = slice_of(v, 0, v.len());
        assert(v@.subrange(0, v.len() as int) =~= v@);
        r
    }
}

/// Reads the literal `value` as a value of type `data_type`. `float_bits`
/// is what the platform's conversion made of `value`, as in
/// [`literal_value`]. A literal that spells no value of the type is
/// `InvalidInput`.
pub fn parse_literal(value: &str, data_type: &DataType, float_bits: Option<u32>) -> (r: Result<
    Value,
    ErrorKind,
>)
    ensures
        match literal_value(value@, *data_type, float_bits) {
            Some(v) => r matches Ok(x) && x@ == v,
            None => r == Err::<Value, ErrorKind>(ErrorKind::InvalidInput),
        },
{
    let v = chars_of(value);
    match data_type {
        DataType::Integer => match parse_i32(&v) {
            Some(i) => Ok(Value::Integer(i)),
            None => Err(ErrorKind::InvalidInput),
        },
        DataType::Float => match float_bits {
            Some(bits) => Ok(Value::Float(bits)),
            None => Err(ErrorKind::InvalidInput),
        },
        DataType::Text => {
            let inner = unquote(&v);
            Ok(Value::Text(string_of(&inner)))
        },
        DataType::Boolean => match parse_bool(&v) {
            Some(b) => Ok(Value::Boolean(b)),
            None => Err(ErrorKind::InvalidInput),
        },
    }
}

/// The bytes that store the literal `value` in a column of type
/// `data_type`, or `InvalidInput` where it spells no value of that type.
/// `float_bits` is as in [`literal_value`].
pub fn serialize_value(value: &str, data_type: &DataType, float_bits: Option<u32>) -> (r: Result<
    Vec<u8>,
    ErrorKind,
>)
    ensures
        match literal_value(value@, *data_type, float_bits) {
            Some(v) => r matches Ok(bytes) && bytes@ == crate::codec::encode_value(v),
            None => r == Err::<Vec<u8>, ErrorKind>(ErrorKind::InvalidInput),
        },
{
    match parse_literal(value, data_type, float_bits) {
        Ok(v) => {
            let mut out: Vec<u8> = Vec::new();
            put_value(&mut out, &v);
            assert(out@ =~= crate::codec::encode_value(v@));
            Ok(out)
        },
        Err(e) => Err(e),
    }
}

/// The character that writes the digit `d`.
pub open spec fn digit_char(d: int) -> char {
    (0x30 + d) as u8 as char
}

/// `n` in base ten, without leading zeros.
pub open spec fn decimal_text(n: nat) -> Seq<char>
    decreases n,
{
    if n < 10 {
        seq![digit_char(n as int)]
    } else {
        decimal_text(n / 10).push(digit_char((n % 10) as int))
    }
}

/// `i` in base ten, with `-` in front where it is negative.
pub open spec fn integer_text(i: int) -> Seq<char> {
    if i < 0 {
        seq!['-'] + decimal_text((-i) as nat)
    } else {
        decimal_text(i as nat)
    }
}

/// Appends `n` in base ten to `out`.
pub fn push_decimal(out: &mut Vec<char>, n: u64)
    ensures
        final(out)@ == old(out)@ + decimal_text(n as nat),
    decreases n,
{
    if n >= 10 {
        push_decimal(out, n / 10);
    }
    let d: u8 = (n % 10) as u8;
    out.push((0x30 + d) as char);
    proof {
        if n >= 10 {
            assert(old(out)@ + decimal_text((n / 10) as nat).push(digit_char((n % 10) as int))
                =~= (old(out)@ + decimal_text((n / 10) as nat)).push(
                digit_char((n % 10) as int),
            ));
        } else {
            assert(old(out)@ + seq![digit_char(n as int)] =~= old(out)@.push(
                digit_char(n as int),
            ));
        }
    }
}

/// Appends `i` in base ten to `out`.
pub fn push_integer(out: &mut Vec<char>, i: i64)
    ensures
        final(out)@ == old(out)@ + integer_text(i as int),
{
    if i < 0 {
        out.push('-');
        let magnitude: u64 = if i == i64::MIN {
            0x8000_0000_0000_0000
        } else {
            (-i) as u64
        };
        push_decimal(out, magnitude);
        assert(out@ =~= old(out)@ + integer_text(i as int));
    } else {
        push_decimal(out, i as u64);
    }
}

/// Executable form of [`integer_text`].
pub fn integer_to_text(i: i64) -> (r: Vec<char>)
    ensures
        r@ == integer_text(i as int),
{
    let mut r: Vec<char> = Vec::new();
    push_integer(&mut r, i);
    assert(r@ =~= integer_text(i as int));
    r
}

/// The text of a stored value: an integer in base ten, a boolean as
/// `true` or `false`, a text as it is. For a float it is `float_text`,
/// which is what the platform writes for the number; for the other types
/// `float_text` is not looked at.
pub open spec fn rendered(v: ValueSpec, float_text: Seq<char>) -> Seq<char> {
    match v {
        ValueSpec::Integer(i) => integer_text(i as int),
        ValueSpec::Float(_) => float_text,
        ValueSpec::Text(s) => s,
        ValueSpec::Boolean(b) => if b {
            "true"@
        } else {
            "false"@
        },
    }
}

impl Value {
    /// The text of the value, as [`rendered`] says.
    pub fn render(&self, float_text: &str) -> (r: String)
        ensures
            r@ == rendered(self@, float_text@),
    {
        match self {
            Value::Integer(i) => {
                let digits = integer_to_text(*i as i64);
                string_of(&digits)
            },
            Value::Float(_) => float_text.to_owned(),
            Value::Text(s) => s.clone(),
            Value::Boolean(b) => if *b {
                "true".to_owned()
            } else {
                "false".to_owned()
            },
        }
    }
}

/// The entry of `list` at `i`, or the empty text where there is none.
pub open spec fn text_at(list: Seq<Seq<char>>, i: int) -> Seq<char> {
    if 0 <= i < list.len() {
        list[i]
    } else {
        Seq::empty()
    }
}

/// The entry of `list` at `i`, or `None` where there is none.
pub open spec fn bits_at(list: Seq<Option<u32>>, i: int) -> Option<u32> {
    if 0 <= i < list.len() {
        list[i]
    } else {
        None
    }
}

/// A number written in base ten is made of digits, begins with a digit
/// and spells itself.
pub proof fn lemma_decimal_text(n: nat)
    ensures
        decimal_text(n).len() > 0,
        all_digits(decimal_text(n)),
        decimal_value(decimal_text(n)) == n,
    decreases n,
{
    if n < 10 {
        let one = decimal_text(n);
        assert(one.drop_last() =~= Seq::<char>::empty());
        assert(decimal_value(one.drop_last()) == 0);
        assert(digit_value(one.last()) == n);
    } else {
        lemma_decimal_text(n / 10);
        let front = decimal_text(n / 10);
        let all = decimal_text(n);
        assert(all.drop_last() =~= front);
        assert(digit_value(all.last()) == n % 10);
        assert forall|i: int| 0 <= i < all.len() implies is_digit(#[trigger] all[i]) by {
            if i < front.len() {
                assert(all[i] == front[i]);
            }
        }
    }
}

/// An integer that is written as text and read back as a literal is
/// itself.
pub proof fn lemma_integer_round_trip(i: i32)
    ensures
        i32_literal(integer_text(i as int)) == Some(i),
{
    if i < 0 {
        let digits = decimal_text((-i) as nat);
        lemma_decimal_text((-i) as nat);
        assert(integer_text(i as int).skip(1) =~= digits);
    } else {
        lemma_decimal_text(i as nat);
        let digits = decimal_text(i as nat);
        assert(is_digit(digits[0]));
    }
}

} // verus!
