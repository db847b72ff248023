//! Text helpers: names of arguments, doc-line trimming, and the few `String`
//! operations the rest of the library builds on.
use vstd::prelude::*;
use vstd::string::*;

verus! {

/// Lowercases one ASCII letter; every other character is kept.
pub open spec fn ascii_lower(c: char) -> char {
    if 'A' <= c && c <= 'Z' {
        ((c as u32) + 32) as char
    } else {
        c
    }
}

/// The long spelling of a field name, without its leading `--`: each `_`
/// becomes `-` and ASCII letters are lowercased.
pub open spec fn arg_name_of(name: Seq<char>) -> Seq<char> {
    name.map_values(|c: char| if c == '_' { '-' } else { ascii_lower(c) })
}

/// Relies on `String::push`: appends one character.
#[verifier::external_body]
pub(crate) fn push_char(s: &mut String, c: char)
    ensures
        final(s)@ == old(s)@.push(c),
{
    s.push(c)
}

/// The characters of a string, in order.
pub fn chars_of(s: &str) -> (r: Vec<char>)
    ensures
        r@ == s@,
{
    let mut r: Vec<char> = Vec::new();
    for c in it: s.chars()
        invariant
            r@ == it.seq().subrange(0, it.index() as int),
    {
        r.push(c);
    }
    r
}

/// The first ASCII letter of a name, lowercased: the short spelling a field
/// gets unless it asks otherwise.
pub open spec fn first_alpha(name: Seq<char>) -> Option<char>
    decreases name.len(),
{
    if name.len() == 0 {
        None
    } else if is_ascii_alpha(name[0]) {
        Some(ascii_lower(name[0]))
    } else {
        first_alpha(name.drop_first())
    }
}

pub open spec fn is_ascii_alpha(c: char) -> bool {
    ('a' <= c && c <= 'z') || ('A' <= c && c <= 'Z')
}

/// Unicode `White_Space`, the set that `char::is_whitespace` documents.
pub open spec fn is_space(c: char) -> bool {
    ||| ('\u{9}' <= c && c <= '\u{d}')
    ||| c == ' '
    ||| c == '\u{85}'
    ||| c == '\u{a0}'
    ||| c == '\u{1680}'
    ||| ('\u{2000}' <= c && c <= '\u{200a}')
    ||| c == '\u{2028}'
    ||| c == '\u{2029}'
    ||| c == '\u{202f}'
    ||| c == '\u{205f}'
    ||| c == '\u{3000}'
}

/// A line with trailing white space removed.
pub open spec fn trim_end(s: Seq<char>) -> Seq<char>
    decreases s.len(),
{
    if s.len() > 0 && is_space(s.last()) {
        trim_end(s.drop_last())
    } else {
        s
    }
}

/// A doc-comment line as it appears in help text: one leading space dropped,
/// trailing white space removed.
pub open spec fn trim_doc(s: Seq<char>) -> Seq<char> {
    if s.len() > 0 && s[0] == ' ' {
        trim_end(s.drop_first())
    } else {
        trim_end(s)
    }
}

pub(crate) fn lower_char(c: char) -> (r: char)
    ensures
        r == ascii_lower(c),
{
    if 'A' <= c && c <= 'Z' {
        proof {
            assert((c as u32) + 32 < 0xD800);
        }
        char_from_u32((c as u32) + 32)
    } else {
        c
    }
}

/// Relies on `char::from_u32`, which maps every scalar value to its character.
#[verifier::external_body]
fn char_from_u32(v: u32) -> (r: char)
    requires
        v < 0xD800,
    ensures
        r == v as char,
{
    char::from_u32(v).unwrap()
}

fn is_space_char(c: char) -> (r: bool)
    ensures
        r == is_space(c),
{
    ('\u{9}' <= c && c <= '\u{d}') || c == ' ' || c == '\u{85}' || c == '\u{a0}' || c
        == '\u{1680}' || ('\u{2000}' <= c && c <= '\u{200a}') || c == '\u{2028}' || c
        == '\u{2029}' || c == '\u{202f}' || c == '\u{205f}' || c == '\u{3000}'
}

/// A vector holding exactly the given characters.
pub fn copy_chars(cs: &[char]) -> (r: Vec<char>)
    ensures
        r@ == cs@,
{
    let mut r: Vec<char> = Vec::new();
    let mut i: usize = 0;
    while i < cs.len()
        invariant
            i <= cs@.len(),
            r@ == cs@.subrange(0, i as int),
        decreases cs@.len() - i,
    {
        r.push(cs[i]);
        i = i + 1;
    }
    r
}

/// A string holding exactly the given characters.
pub fn string_of(cs: &[char]) -> (r: String)
    ensures
        r@ == cs@,
{
    let mut r = String::new();
    let mut i: usize = 0;
    while i < cs.len()
        invariant
            i <= cs@.len(),
            r@ == cs@.subrange(0, i as int),
        decreases cs@.len() - i,
    {
        push_char(&mut r, cs[i]);
        i = i + 1;
    }
    r
}

/// The long spelling of a field name, without the leading `--`.
pub fn to_arg_name(name: &str) -> (r: String)
    ensures
        r@ == arg_name_of(name@),
{
    let cs = chars_of(name);
    let mut r = String::new();
    let mut i: usize = 0;
    while i < cs.len()
        invariant
            cs@ == name@,
            i <= cs@.len(),
            r@ == arg_name_of(cs@.subrange(0, i as int)),
        decreases cs@.len() - i,
    {
        let c = cs[i];
        let d = if c == '_' { '-' } else { lower_char(c) };
        push_char(&mut r, d);
        proof {
            assert(cs@.subrange(0, i + 1) == cs@.subrange(0, i as int).push(c));
        }
        i = i + 1;
    }
    proof {
        assert(cs@.subrange(0, cs@.len() as int) == cs@);
    }
    r
}

/// The short spelling inferred from a field name.
pub fn infer_short(name: &str) -> (r: Option<char>)
    ensures
        r == first_alpha(name@),
{
    let cs = chars_of(name);
    let mut i: usize = 0;
    proof {
        assert(cs@.subrange(0, cs@.len() as int) == cs@);
    }
    while i < cs.len()
        invariant
            cs@ == name@,
            i <= cs@.len(),
            first_alpha(cs@) == first_alpha(cs@.subrange(i as int, cs@.len() as int)),
        decreases cs@.len() - i,
    {
        let c = cs[i];
        proof {
            let rest = cs@.subrange(i as int, cs@.len() as int);
            assert(rest[0] == c);
            assert(rest.drop_first() == cs@.subrange(i + 1, cs@.len() as int));
        }
        if ('a' <= c && c <= 'z') || ('A' <= c && c <= 'Z') {
            return Some(lower_char(c));
        }
        i = i + 1;
    }
    None
}

/// Trims a doc-comment line for help text.
pub fn trim_with_indent(line: &str) -> (r: String)
    ensures
        r@ == trim_doc(line@),
{
    let cs = chars_of(line);
    let start: usize = if cs.len() > 0 && cs[0] == ' ' { 1 } else { 0 };
    let mut end: usize = cs.len();
    let ghost body = if start == 1 { cs@.drop_first() } else { cs@ };
    proof {
        assert(body == cs@.subrange(start as int, cs@.len() as int));
    }
    while end > start && is_space_char(cs[end - 1])
        invariant
            cs@ == line@,
            start <= end <= cs@.len(),
            body == cs@.subrange(start as int, cs@.len() as int),
            trim_end(body) == trim_end(cs@.subrange(start as int, end as int)),
        decreases end,
    {
        proof {
            assert(cs@.subrange(start as int, end as int).drop_last() == cs@.subrange(
                start as int,
                end - 1,
            ));
        }
        end = end - 1;
    }
    string_of(&cs.as_slice()[start..end])
}

} // verus!
