//! The type classifier: which field type spellings the schema accepts, and
//! what kind of argument each one becomes.
use crate::text::{chars_of, copy_chars};
use vstd::prelude::*;

verus! {

/// Width and signedness of an integer argument.
#[derive(Clone, Copy, Debug, PartialEq, Eq, Structural)]
pub enum IntWidth {
    I8,
    I16,
    I32,
    I64,
    I128,
    Isize,
    U8,
    U16,
    U32,
    U64,
    U128,
    Usize,
}

/// The kind of value an option carries; it decides how a token is converted
/// and which word the help text shows after the option's name.
#[derive(Clone, Copy, Debug, PartialEq, Eq, Structural)]
pub enum ArgType {
    Float,
    Integer(IntWidth),
    OsString,
    Path,
    String,
}

/// How an option is populated.
#[derive(Clone, Copy, Debug, PartialEq, Eq, Structural)]
pub enum ArgProperty {
    /// Exactly one value; mandatory unless a default is declared.
    Required,
    /// At most one value.
    Optional,
    /// Any number of values, collected in order.
    MultiValue { required: bool },
    /// The sink for every token that names no flag or option.
    Positional { required: bool },
}

/// Smallest value of an integer width.
pub open spec fn int_min(w: IntWidth) -> int {
    match w {
        IntWidth::I8 => i8::MIN as int,
        IntWidth::I16 => i16::MIN as int,
        IntWidth::I32 => i32::MIN as int,
        IntWidth::I64 => i64::MIN as int,
        IntWidth::I128 => i128::MIN as int,
        IntWidth::Isize => isize::MIN as int,
        _ => 0,
    }
}

/// Largest value of an integer width.
pub open spec fn int_max(w: IntWidth) -> int {
    match w {
        IntWidth::I8 => i8::MAX as int,
        IntWidth::I16 => i16::MAX as int,
        IntWidth::I32 => i32::MAX as int,
        IntWidth::I64 => i64::MAX as int,
        IntWidth::I128 => i128::MAX as int,
        IntWidth::Isize => isize::MAX as int,
        IntWidth::U8 => u8::MAX as int,
        IntWidth::U16 => u16::MAX as int,
        IntWidth::U32 => u32::MAX as int,
        IntWidth::U64 => u64::MAX as int,
        IntWidth::U128 => u128::MAX as int,
        IntWidth::Usize => usize::MAX as int,
    }
}

pub open spec fn is_signed(w: IntWidth) -> bool {
    match w {
        IntWidth::I8 | IntWidth::I16 | IntWidth::I32 | IntWidth::I64 | IntWidth::I128
        | IntWidth::Isize => true,
        _ => false,
    }
}

/// The spellings of a path type that are recognised from their text alone.
pub open spec fn is_path_spelling(s: Seq<char>) -> bool {
    s == "::std::path::PathBuf"@ || s == "std::path::PathBuf"@ || s == "path::PathBuf"@ || s
        == "PathBuf"@
}

/// The spellings of a platform string type.
pub open spec fn is_os_string_spelling(s: Seq<char>) -> bool {
    s == "::std::ffi::OsString"@ || s == "std::ffi::OsString"@ || s == "ffi::OsString"@ || s
        == "OsString"@
}

pub open spec fn int_spelling(s: Seq<char>) -> Option<IntWidth> {
    if s == "i8"@ {
        Some(IntWidth::I8)
    } else if s == "i16"@ {
        Some(IntWidth::I16)
    } else if s == "i32"@ {
        Some(IntWidth::I32)
    } else if s == "i64"@ {
        Some(IntWidth::I64)
    } else if s == "i128"@ {
        Some(IntWidth::I128)
    } else if s == "isize"@ {
        Some(IntWidth::Isize)
    } else if s == "u8"@ {
        Some(IntWidth::U8)
    } else if s == "u16"@ {
        Some(IntWidth::U16)
    } else if s == "u32"@ {
        Some(IntWidth::U32)
    } else if s == "u64"@ {
        Some(IntWidth::U64)
    } else if s == "u128"@ {
        Some(IntWidth::U128)
    } else if s == "usize"@ {
        Some(IntWidth::Usize)
    } else {
        None
    }
}

/// The value kind of a bare (unwrapped) type spelling.
pub open spec fn scalar_type(s: Seq<char>) -> Option<ArgType> {
    if s == "f32"@ || s == "f64"@ {
        Some(ArgType::Float)
    } else if int_spelling(s) is Some {
        Some(ArgType::Integer(int_spelling(s)->0))
    } else if s == "String"@ {
        Some(ArgType::String)
    } else if is_path_spelling(s) {
        Some(ArgType::Path)
    } else if is_os_string_spelling(s) {
        Some(ArgType::OsString)
    } else {
        None
    }
}

/// `s` is `pre` followed by at least one character and a closing `>`.
pub open spec fn is_wrapped(s: Seq<char>, pre: Seq<char>) -> bool {
    s.len() > pre.len() && s.subrange(0, pre.len() as int) == pre && s.last() == '>'
}

/// What lies between the wrapper's opening and its closing `>`.
pub open spec fn unwrapped(s: Seq<char>, pre: Seq<char>) -> Seq<char> {
    s.subrange(pre.len() as int, s.len() - 1)
}

/// The classification of a non-`bool` field type spelling: `None` for every
/// spelling outside the allow-list, including wrappers of unknown types.
pub open spec fn classify_spec(s: Seq<char>) -> Option<(ArgProperty, ArgType)> {
    if scalar_type(s) is Some {
        Some((ArgProperty::Required, scalar_type(s)->0))
    } else if is_wrapped(s, "Option<"@) && scalar_type(unwrapped(s, "Option<"@)) is Some {
        Some((ArgProperty::Optional, scalar_type(unwrapped(s, "Option<"@))->0))
    } else if is_wrapped(s, "Vec<"@) && scalar_type(unwrapped(s, "Vec<"@)) is Some {
        Some((ArgProperty::MultiValue { required: false }, scalar_type(unwrapped(s, "Vec<"@))->0))
    } else {
        None
    }
}

/// Whether two character sequences are equal.
pub fn chars_eq(a: &[char], b: &[char]) -> (r: bool)
    ensures
        r == (a@ == b@),
{
    if a.len() != b.len() {
        return false;
    }
    let mut i: usize = 0;
    while i < a.len()
        invariant
            a@.len() == b@.len(),
            i <= a@.len(),
            a@.subrange(0, i as int) == b@.subrange(0, i as int),
        decreases a@.len() - i,
    {
        if a[i] != b[i] {
            return false;
        }
        proof {
            assert(a@.subrange(0, i + 1) == a@.subrange(0, i as int).push(a@[i as int]));
            assert(b@.subrange(0, i + 1) == b@.subrange(0, i as int).push(b@[i as int]));
        }
        i = i + 1;
    }
    proof {
        assert(a@.subrange(0, a@.len() as int) == a@);
        assert(b@.subrange(0, b@.len() as int) == b@);
    }
    true
}

/// Whether the characters `cs` spell the literal `lit`.
pub fn spells(cs: &[char], lit: &str) -> (r: bool)
    ensures
        r == (cs@ == lit@),
{
    let l = chars_of(lit);
    chars_eq(cs, l.as_slice())
}

fn int_spelling_of(s: &[char]) -> (r: Option<IntWidth>)
    ensures
        r == int_spelling(s@),
{
    if spells(s, "i8") {
        Some(IntWidth::I8)
    } else if spells(s, "i16") {
        Some(IntWidth::I16)
    } else if spells(s, "i32") {
        Some(IntWidth::I32)
    } else if spells(s, "i64") {
        Some(IntWidth::I64)
    } else if spells(s, "i128") {
        Some(IntWidth::I128)
    } else if spells(s, "isize") {
        Some(IntWidth::Isize)
    } else if spells(s, "u8") {
        Some(IntWidth::U8)
    } else if spells(s, "u16") {
        Some(IntWidth::U16)
    } else if spells(s, "u32") {
        Some(IntWidth::U32)
    } else if spells(s, "u64") {
        Some(IntWidth::U64)
    } else if spells(s, "u128") {
        Some(IntWidth::U128)
    } else if spells(s, "usize") {
        Some(IntWidth::Usize)
    } else {
        None
    }
}

/// The value kind of a bare type spelling.
pub fn scalar_type_of(s: &[char]) -> (r: Option<ArgType>)
    ensures
        r == scalar_type(s@),
{
    if spells(s, "f32") || spells(s, "f64") {
        return Some(ArgType::Float);
    }
    if let Some(w) = int_spelling_of(s) {
        return Some(ArgType::Integer(w));
    }
    if spells(s, "String") {
        Some(ArgType::String)
    } else if spells(s, "::std::path::PathBuf") || spells(s, "std::path::PathBuf") || spells(
        s,
        "path::PathBuf",
    ) || spells(s, "PathBuf") {
        Some(ArgType::Path)
    } else if spells(s, "::std::ffi::OsString") || spells(s, "std::ffi::OsString") || spells(
        s,
        "ffi::OsString",
    ) || spells(s, "OsString") {
        Some(ArgType::OsString)
    } else {
        None
    }
}

/// The inner spelling of `s` when it is wrapped in `pre ... >`.
fn unwrap_spelling(s: &[char], pre: &str) -> (r: Option<Vec<char>>)
    ensures
        r is Some <==> is_wrapped(s@, pre@),
        r is Some ==> r->0@ == unwrapped(s@, pre@),
{
    let p = chars_of(pre);
    if s.len() > p.len() && s[s.len() - 1] == '>' {
        let head = &s[0..p.len()];
        if chars_eq(head, p.as_slice()) {
            let inner = &s[p.len()..s.len() - 1];
            return Some(copy_chars(inner));
        }
    }
    None
}

/// Classifies a non-`bool` field type by its spelling.
pub fn classify(path: &str) -> (r: Option<(ArgProperty, ArgType)>)
    ensures
        r == classify_spec(path@),
{
    let s = chars_of(path);
    if let Some(t) = scalar_type_of(s.as_slice()) {
        return Some((ArgProperty::Required, t));
    }
    if let Some(inner) = unwrap_spelling(s.as_slice(), "Option<") {
        if let Some(t) = scalar_type_of(inner.as_slice()) {
            return Some((ArgProperty::Optional, t));
        }
    }
    if let Some(inner) = unwrap_spelling(s.as_slice(), "Vec<") {
        if let Some(t) = scalar_type_of(inner.as_slice()) {
            return Some((ArgProperty::MultiValue { required: false }, t));
        }
    }
    None
}

impl ArgType {
    /// The word shown after an option's name in help text.
    pub open spec fn label(self) -> Seq<char> {
        match self {
            ArgType::Float | ArgType::Integer(_) => " NUMBER"@,
            ArgType::OsString | ArgType::String => " STRING"@,
            ArgType::Path => " PATH"@,
        }
    }

    pub proof fn lemma_label_len(self)
        ensures
            self.label().len() <= 8,
            self.label().len() > 0 && self.label()[0] == ' ',
    {
        reveal_strlit(" NUMBER");
        reveal_strlit(" STRING");
        reveal_strlit(" PATH");
    }

    /// The word shown after an option's name in help text.
    pub fn as_str(&self) -> (r: &'static str)
        ensures
            r@ == self.label(),
    {
        match self {
            ArgType::Float | ArgType::Integer(_) => " NUMBER",
            ArgType::OsString | ArgType::String => " STRING",
            ArgType::Path => " PATH",
        }
    }
}

} // verus!
