//! Values of options and their conversion from raw tokens.
use crate::error::{CliError, ErrorView, IntErrorKind};
use crate::text::{ascii_lower, chars_of, lower_char};
use crate::types::spells;
use crate::types::{int_max, int_min, is_signed, ArgType, IntWidth};
use vstd::prelude::*;
use vstd::utf8::{decode_utf8, valid_utf8};

verus! {

/// One converted value.
#[derive(Clone, Debug, PartialEq, Eq)]
pub enum Value {
    Signed(i128),
    Unsigned(u128),
    /// The text of a floating-point number, checked against the number grammar.
    Float(String),
    Str(String),
    /// Platform text, kept as raw bytes.
    Os(Vec<u8>),
    /// A file system path, kept as raw bytes.
    Path(Vec<u8>),
}

/// The mathematical content of a [`Value`].
pub enum ValueView {
    Int(int),
    Float(Seq<char>),
    Str(Seq<char>),
    Os(Seq<u8>),
    Path(Seq<u8>),
}

impl View for Value {
    type V = ValueView;

    open spec fn view(&self) -> ValueView {
        match self {
            Value::Signed(v) => ValueView::Int(*v as int),
            Value::Unsigned(v) => ValueView::Int(*v as int),
            Value::Float(s) => ValueView::Float(s@),
            Value::Str(s) => ValueView::Str(s@),
            Value::Os(b) => ValueView::Os(b@),
            Value::Path(b) => ValueView::Path(b@),
        }
    }
}

pub open spec fn is_digit(c: char) -> bool {
    '0' <= c && c <= '9'
}

pub open spec fn all_digits(s: Seq<char>) -> bool {
    forall|i: int| 0 <= i < s.len() ==> is_digit(#[trigger] s[i])
}

/// The decimal value of a digit string.
pub open spec fn digits_value(s: Seq<char>) -> int
    decreases s.len(),
{
    if s.len() == 0 {
        0
    } else {
        digits_value(s.drop_last()) * 10 + (s.last() as int - '0' as int)
    }
}

/// The integer a token spells: an optional sign (`-` only for signed widths)
/// and one or more decimal digits, checked against the width's range.
pub open spec fn int_of(s: Seq<char>, w: IntWidth) -> Result<int, IntErrorKind> {
    let neg = is_signed(w) && s.len() > 0 && s[0] == '-';
    let body = if s.len() > 0 && (s[0] == '+' || neg) {
        s.drop_first()
    } else {
        s
    };
    if s.len() == 0 {
        Err(IntErrorKind::Empty)
    } else if body.len() == 0 || !all_digits(body) {
        Err(IntErrorKind::InvalidDigit)
    } else if neg && -digits_value(body) < int_min(w) {
        Err(IntErrorKind::NegOverflow)
    } else if !neg && digits_value(body) > int_max(w) {
        Err(IntErrorKind::PosOverflow)
    } else if neg {
        Ok(-digits_value(body))
    } else {
        Ok(digits_value(body))
    }
}

/// The number of consecutive digits of `s` from position `i` on.
pub open spec fn digit_run(s: Seq<char>, i: int) -> int
    decreases s.len() - i,
{
    if 0 <= i < s.len() && is_digit(s[i]) {
        1 + digit_run(s, i + 1)
    } else {
        0
    }
}

pub open spec fn is_sign(c: char) -> bool {
    c == '+' || c == '-'
}

/// An exponent after its `e`: an optional sign and one or more digits.
pub open spec fn exponent_ok(t: Seq<char>) -> bool {
    let k: int = if t.len() > 0 && is_sign(t[0]) {
        1
    } else {
        0
    };
    digit_run(t, k) > 0 && k + digit_run(t, k) == t.len()
}

/// `Digit+ | Digit+ '.' Digit* | Digit* '.' Digit+`, then an optional exponent.
pub open spec fn decimal_ok(s: Seq<char>) -> bool {
    let a = digit_run(s, 0);
    let dot = a < s.len() && s[a] == '.';
    let f = if dot {
        digit_run(s, a + 1)
    } else {
        0
    };
    let j = if dot {
        a + 1 + f
    } else {
        a
    };
    (a > 0 || f > 0) && (j == s.len() || ((s[j] == 'e' || s[j] == 'E') && exponent_ok(
        s.subrange(j + 1, s.len() as int),
    )))
}

/// The grammar that `f32` and `f64` document for their `FromStr`: an optional
/// sign, then `inf`, `infinity` or `nan` in any case, or a decimal number.
pub open spec fn float_ok(s: Seq<char>) -> bool {
    let b = if s.len() > 0 && is_sign(s[0]) {
        s.drop_first()
    } else {
        s
    };
    let l = b.map_values(|c: char| ascii_lower(c));
    l == "inf"@ || l == "infinity"@ || l == "nan"@ || decimal_ok(b)
}

/// Relies on `String::from_utf8`: it succeeds exactly on valid UTF-8 and then
/// holds the decoded characters.
#[verifier::external_body]
fn utf8_string(b: Vec<u8>) -> (r: Option<String>)
    ensures
        r is Some <==> valid_utf8(b@),
        r is Some ==> r->0@ == decode_utf8(b@),
{
    String::from_utf8(b).ok()
}

/// A token read as text: `None` when it is not valid UTF-8.
pub open spec fn token_text(t: Seq<u8>) -> Option<Seq<char>> {
    if valid_utf8(t) {
        Some(decode_utf8(t))
    } else {
        None
    }
}

/// Reads a token as text.
pub fn to_text(t: &Vec<u8>) -> (r: Option<String>)
    ensures
        r is Some <==> token_text(t@) is Some,
        r is Some ==> r->0@ == token_text(t@)->0,
{
    utf8_string(t.clone())
}

/// What converting token `t` of option `name` to kind `ty` yields.
pub open spec fn convert_spec(t: Seq<u8>, ty: ArgType, name: Seq<char>) -> Result<ValueView, ErrorView> {
    match ty {
        ArgType::OsString => Ok(ValueView::Os(t)),
        ArgType::Path => Ok(ValueView::Path(t)),
        _ => match token_text(t) {
            None => Err(ErrorView::ParseStrError(name, t)),
            Some(s) => match ty {
                ArgType::Integer(w) => match int_of(s, w) {
                    Ok(v) => Ok(ValueView::Int(v)),
                    Err(k) => Err(ErrorView::ParseIntError(name, t, k)),
                },
                ArgType::Float => if float_ok(s) {
                    Ok(ValueView::Float(s))
                } else {
                    Err(ErrorView::ParseFloatError(name, t))
                },
                _ => Ok(ValueView::Str(s)),
            },
        },
    }
}

impl Value {
    /// A copy of this value.
    pub fn clone_value(&self) -> (r: Value)
        ensures
            r@ == self@,
    {
        match self {
            Value::Signed(v) => Value::Signed(*v),
            Value::Unsigned(v) => Value::Unsigned(*v),
            Value::Float(s) => Value::Float(s.clone()),
            Value::Str(s) => Value::Str(s.clone()),
            Value::Os(b) => Value::Os(b.clone()),
            Value::Path(b) => Value::Path(b.clone()),
        }
    }
}

/// The mathematical content of a conversion result.
pub open spec fn result_view(r: Result<Value, CliError>) -> Result<ValueView, ErrorView> {
    match r {
        Ok(v) => Ok(v@),
        Err(e) => Err(e@),
    }
}

proof fn lemma_digits_value_push(s: Seq<char>, c: char)
    ensures
        digits_value(s.push(c)) == digits_value(s) * 10 + (c as int - '0' as int),
{
    assert(s.push(c).drop_last() == s);
}

proof fn lemma_digits_value_grows(s: Seq<char>, i: int)
    requires
        0 <= i <= s.len(),
        all_digits(s),
    ensures
        digits_value(s.subrange(0, i)) <= digits_value(s),
    decreases s.len() - i,
{
    if i < s.len() {
        lemma_digits_value_grows(s, i + 1);
        assert(s.subrange(0, i + 1) == s.subrange(0, i).push(s[i]));
        lemma_digits_value_push(s.subrange(0, i), s[i]);
        assert(digits_value(s.subrange(0, i)) >= 0) by {
            lemma_digits_value_nonneg(s.subrange(0, i));
        }
    } else {
        assert(s.subrange(0, i) == s);
    }
}

proof fn lemma_digits_value_nonneg(s: Seq<char>)
    requires
        all_digits(s),
    ensures
        digits_value(s) >= 0,
    decreases s.len(),
{
    if s.len() > 0 {
        assert(all_digits(s.drop_last())) by {
            assert forall|i: int| 0 <= i < s.drop_last().len() implies is_digit(
                #[trigger] s.drop_last()[i],
            ) by {
                assert(s.drop_last()[i] == s[i]);
            }
        }
        lemma_digits_value_nonneg(s.drop_last());
    }
}

proof fn lemma_int_of_invalid(s: Seq<char>, w: IntWidth, body: Seq<char>)
    requires
        s.len() > 0,
        body == (if s[0] == '+' || (is_signed(w) && s[0] == '-') {
            s.drop_first()
        } else {
            s
        }),
        !all_digits(body),
    ensures
        int_of(s, w) == Err::<int, IntErrorKind>(IntErrorKind::InvalidDigit),
{
}

/// Reads characters as an integer of width `w`.
pub fn parse_int(s: &[char], w: IntWidth) -> (r: Result<Value, IntErrorKind>)
    ensures
        match r {
            Ok(v) => int_of(s@, w) == Ok::<int, IntErrorKind>(v@->Int_0) && v@ is Int && (
            is_signed(w) <==> v is Signed),
            Err(k) => int_of(s@, w) == Err::<int, IntErrorKind>(k),
        },
{
    if s.len() == 0 {
        return Err(IntErrorKind::Empty);
    }
    let signed = match w {
        IntWidth::I8 | IntWidth::I16 | IntWidth::I32 | IntWidth::I64 | IntWidth::I128
        | IntWidth::Isize => true,
        _ => false,
    };
    assert(signed == is_signed(w));
    let neg = signed && s[0] == '-';
    let start: usize = if s[0] == '+' || neg { 1 } else { 0 };
    assert(neg == (is_signed(w) && s@.len() > 0 && s@[0] == '-'));
    let ghost body = s@.subrange(start as int, s@.len() as int);
    proof {
        if start == 1 {
            assert(body == s@.drop_first());
        } else {
            assert(body == s@);
        }
        assert(body == (if s@.len() > 0 && (s@[0] == '+' || neg) {
            s@.drop_first()
        } else {
            s@
        }));
    }
    if start == s.len() {
        return Err(IntErrorKind::InvalidDigit);
    }
    let mut i: usize = start;
    while i < s.len()
        invariant
            start <= i <= s@.len(),
            body == s@.subrange(start as int, s@.len() as int),
            body == (if s@[0] == '+' || (is_signed(w) && s@[0] == '-') {
                s@.drop_first()
            } else {
                s@
            }),
            neg == (is_signed(w) && s@[0] == '-'),
            signed == is_signed(w),
            s@.len() > 0,
            forall|j: int| start <= j < i ==> is_digit(#[trigger] s@[j]),
        decreases s@.len() - i,
    {
        if !('0' <= s[i] && s[i] <= '9') {
            proof {
                assert(body[i - start] == s@[i as int]);
                assert(!is_digit(body[i - start]));
                assert(!all_digits(body));
                lemma_int_of_invalid(s@, w, body);
            }
            return Err(IntErrorKind::InvalidDigit);
        }
        i = i + 1;
    }
    assert(all_digits(body)) by {
        assert forall|j: int| 0 <= j < body.len() implies is_digit(#[trigger] body[j]) by {
            assert(body[j] == s@[j + start]);
        }
    }
    // Accumulate the magnitude; stop once it leaves `u128`.
    let mut mag: u128 = 0;
    let mut big = false;
    i = start;
    proof {
        assert(body.subrange(0, 0) =~= Seq::<char>::empty());
    }
    while i < s.len() && !big
        invariant
            start <= i <= s@.len(),
            body == s@.subrange(start as int, s@.len() as int),
            body == (if s@[0] == '+' || (is_signed(w) && s@[0] == '-') {
                s@.drop_first()
            } else {
                s@
            }),
            neg == (is_signed(w) && s@[0] == '-'),
            signed == is_signed(w),
            s@.len() > 0,
            all_digits(body),
            !big ==> mag == digits_value(body.subrange(0, i - start)),
            big ==> digits_value(body) > u128::MAX,
        decreases s@.len() - i + (if big { 0int } else { 1int }),
    {
        let ghost pre = body.subrange(0, i - start);
        let c = s[i];
        proof {
            assert(body[i - start] == c);
            assert(body.subrange(0, i - start + 1) == pre.push(c));
            lemma_digits_value_push(pre, c);
        }
        let d = (c as u32 - '0' as u32) as u128;
        if mag > (u128::MAX - d) / 10 {
            proof {
                assert(mag * 10 + d > u128::MAX) by (nonlinear_arith)
                    requires
                        mag > (u128::MAX - d) / 10,
                        d <= 9,
                ;
                lemma_digits_value_grows(body, i - start + 1);
            }
            big = true;
        } else {
            proof {
                assert(mag * 10 + d <= u128::MAX) by (nonlinear_arith)
                    requires
                        mag <= (u128::MAX - d) / 10,
                        d <= 9,
                ;
            }
            mag = mag * 10 + d;
            i = i + 1;
        }
    }
    proof {
        if !big {
            assert(i - start == body.len());
            assert(body.subrange(0, body.len() as int) == body);
            assert(mag == digits_value(body));
        }
        lemma_digits_value_nonneg(body);
        assert(body.len() > 0);
    }
    let hi: u128 = match w {
        IntWidth::I8 => 127,
        IntWidth::I16 => 0x7fff,
        IntWidth::I32 => 0x7fff_ffff,
        IntWidth::I64 => 0x7fff_ffff_ffff_ffff,
        IntWidth::I128 => 0x7fff_ffff_ffff_ffff_ffff_ffff_ffff_ffff,
        IntWidth::Isize => isize::MAX as u128,
        IntWidth::U8 => 0xff,
        IntWidth::U16 => 0xffff,
        IntWidth::U32 => 0xffff_ffff,
        IntWidth::U64 => 0xffff_ffff_ffff_ffff,
        IntWidth::U128 => u128::MAX,
        IntWidth::Usize => usize::MAX as u128,
    };
    assert(hi as int == int_max(w));
    assert(signed ==> int_min(w) == -(int_max(w) + 1));
    if neg {
        // The smallest signed value is one further from zero than the largest.
        if big || mag > hi + 1 {
            return Err(IntErrorKind::NegOverflow);
        }
        if mag == hi + 1 {
            assert(mag <= 0x8000_0000_0000_0000_0000_0000_0000_0000);
            let v: i128 = if mag == 0x8000_0000_0000_0000_0000_0000_0000_0000 {
                i128::MIN
            } else {
                -(mag as i128)
            };
            return Ok(Value::Signed(v));
        }
        Ok(Value::Signed(-(mag as i128)))
    } else {
        if big || mag > hi {
            return Err(IntErrorKind::PosOverflow);
        }
        if signed {
            Ok(Value::Signed(mag as i128))
        } else {
            Ok(Value::Unsigned(mag))
        }
    }
}

fn digit_run_at(s: &[char], i: usize) -> (r: usize)
    requires
        i <= s@.len(),
    ensures
        r == digit_run(s@, i as int),
        i + r <= s@.len(),
{
    let mut j: usize = i;
    while j < s.len() && '0' <= s[j] && s[j] <= '9'
        invariant
            i <= j <= s@.len(),
            digit_run(s@, i as int) == (j - i) + digit_run(s@, j as int),
        decreases s@.len() - j,
    {
        j = j + 1;
    }
    j - i
}

fn exponent_ok_exec(t: &[char]) -> (r: bool)
    ensures
        r == exponent_ok(t@),
{
    let k: usize = if t.len() > 0 && (t[0] == '+' || t[0] == '-') { 1 } else { 0 };
    let d = digit_run_at(t, k);
    d > 0 && k + d == t.len()
}

fn decimal_ok_exec(s: &[char]) -> (r: bool)
    ensures
        r == decimal_ok(s@),
{
    let a = digit_run_at(s, 0);
    let dot = a < s.len() && s[a] == '.';
    let f: usize = if dot { digit_run_at(s, a + 1) } else { 0 };
    let j: usize = if dot { a + 1 + f } else { a };
    if !(a > 0 || f > 0) {
        return false;
    }
    if j == s.len() {
        return true;
    }
    (s[j] == 'e' || s[j] == 'E') && exponent_ok_exec(&s[j + 1..s.len()])
}

/// Whether characters spell a floating-point number.
pub fn float_text_ok(s: &[char]) -> (r: bool)
    ensures
        r == float_ok(s@),
{
    let start: usize = if s.len() > 0 && (s[0] == '+' || s[0] == '-') { 1 } else { 0 };
    let b = &s[start..s.len()];
    proof {
        if start == 1 {
            assert(b@ == s@.drop_first());
        } else {
            assert(b@ == s@);
        }
    }
    let mut l: Vec<char> = Vec::new();
    let mut i: usize = 0;
    while i < b.len()
        invariant
            i <= b@.len(),
            l@ == b@.subrange(0, i as int).map_values(|c: char| ascii_lower(c)),
        decreases b@.len() - i,
    {
        l.push(lower_char(b[i]));
        proof {
            assert(b@.subrange(0, i + 1) == b@.subrange(0, i as int).push(b@[i as int]));
        }
        i = i + 1;
        assert(l@ =~= b@.subrange(0, i as int).map_values(|c: char| ascii_lower(c)));
    }
    proof {
        assert(b@.subrange(0, b@.len() as int) == b@);
    }
    spells(l.as_slice(), "inf") || spells(l.as_slice(), "infinity") || spells(l.as_slice(), "nan")
        || decimal_ok_exec(b)
}

/// Converts a token to a value of kind `ty`; `name` is the spelling of the
/// argument that the token belongs to, for the error.
pub fn convert(t: &Vec<u8>, ty: ArgType, name: &String) -> (r: Result<Value, CliError>)
    ensures
        result_view(r) == convert_spec(t@, ty, name@),
{
    match ty {
        ArgType::OsString => Ok(Value::Os(t.clone())),
        ArgType::Path => Ok(Value::Path(t.clone())),
        _ => match to_text(t) {
            None => Err(CliError::ParseStrError(name.clone(), t.clone())),
            Some(s) => match ty {
                ArgType::Integer(w) => {
                    let cs = chars_of(s.as_str());
                    match parse_int(cs.as_slice(), w) {
                        Ok(v) => Ok(v),
                        Err(k) => Err(CliError::ParseIntError(name.clone(), t.clone(), k)),
                    }
                },
                ArgType::Float => {
                    let cs = chars_of(s.as_str());
                    if float_text_ok(cs.as_slice()) {
                        Ok(Value::Float(s))
                    } else {
                        Err(CliError::ParseFloatError(name.clone(), t.clone()))
                    }
                },
                _ => Ok(Value::Str(s)),
            },
        },
    }
}

} // verus!
