//! Field declarations and the schema built from them: the attribute
//! interpreter, the per-field classification, and the grouping of fields into
//! flags, options and the positional sink.
use crate::text::{chars_of, first_alpha, infer_short, is_ascii_alpha, string_of, trim_doc, trim_with_indent};
use crate::types::{classify, classify_spec, spells, ArgProperty, ArgType};
use crate::value::{convert, convert_spec, Value, ValueView};
use vstd::prelude::*;
use vstd::string::*;
use vstd::utf8::*;

verus! {

/// One attribute attached to a field declaration.
#[derive(Clone, Debug, PartialEq, Eq)]
pub enum FieldAttr {
    /// One line of doc comment, as written after `///`.
    Doc(String),
    /// `#[default(...)]`, with the tokens between the parentheses.
    Default(Vec<String>),
    /// `#[long]`: no inferred short spelling (an explicit `#[short]` still applies).
    Long,
    /// `#[short(...)]`, with the literal between the parentheses (`'c'`).
    Short(String),
    /// `#[required]`.
    Required,
    /// `#[positional]`.
    Positional,
    /// Any other attribute; it is ignored.
    Other,
}

/// A field of the target configuration: its name, its type as spelled, and its
/// attributes in declaration order.
#[derive(Clone, Debug, PartialEq, Eq)]
pub struct FieldDecl {
    pub name: String,
    pub ty: String,
    pub attrs: Vec<FieldAttr>,
}

/// The declaration of the target configuration.
#[derive(Clone, Debug, PartialEq, Eq)]
pub struct StructDecl {
    pub name: String,
    /// The struct's doc-comment lines, as written.
    pub doc: Vec<String>,
    pub fields: Vec<FieldDecl>,
}

/// Why a declaration cannot become a schema. Each names the offending field.
#[derive(Clone, Debug, PartialEq, Eq)]
pub enum SchemaError {
    /// `#[default(...)]` does not hold exactly one token.
    DefaultArity(String),
    /// `#[default(...)]` holds an identifier other than `true` or `false`.
    UnexpectedIdentifier(String),
    /// `#[short(...)]` does not hold a character literal.
    InvalidShort(String),
    /// The field's type is not one of the recognised spellings.
    UnsupportedType(String),
    /// `#[default]` on a field that is not a plain scalar.
    DefaultNotAllowed(String),
    /// `#[required]` on a field that is not a sequence.
    RequiredNotAllowed(String),
    /// `#[positional]` on a field that is not a sequence.
    PositionalNotAllowed(String),
    /// The default literal is not a value of the field's type (a string
    /// literal on a numeric field, a number out of the field's range). This
    /// goes beyond the attribute rules: the schema holds each default as a
    /// converted value, ready to seed the option, and such a literal has none.
    /// Where a derivation emits code instead, the compiler rejects the same
    /// literal at the same stage, before any command line is read.
    InvalidDefault(String),
    /// A second positional field.
    DuplicatePositional(String),
    /// A short spelling already claimed by the field named last.
    DuplicateShort(String, char, String),
}

pub enum SchemaErrorView {
    DefaultArity(Seq<char>),
    UnexpectedIdentifier(Seq<char>),
    InvalidShort(Seq<char>),
    UnsupportedType(Seq<char>),
    DefaultNotAllowed(Seq<char>),
    RequiredNotAllowed(Seq<char>),
    PositionalNotAllowed(Seq<char>),
    InvalidDefault(Seq<char>),
    DuplicatePositional(Seq<char>),
    DuplicateShort(Seq<char>, char, Seq<char>),
}

impl View for SchemaError {
    type V = SchemaErrorView;

    open spec fn view(&self) -> SchemaErrorView {
        match self {
            SchemaError::DefaultArity(f) => SchemaErrorView::DefaultArity(f@),
            SchemaError::UnexpectedIdentifier(f) => SchemaErrorView::UnexpectedIdentifier(f@),
            SchemaError::InvalidShort(f) => SchemaErrorView::InvalidShort(f@),
            SchemaError::UnsupportedType(f) => SchemaErrorView::UnsupportedType(f@),
            SchemaError::DefaultNotAllowed(f) => SchemaErrorView::DefaultNotAllowed(f@),
            SchemaError::RequiredNotAllowed(f) => SchemaErrorView::RequiredNotAllowed(f@),
            SchemaError::PositionalNotAllowed(f) => SchemaErrorView::PositionalNotAllowed(f@),
            SchemaError::InvalidDefault(f) => SchemaErrorView::InvalidDefault(f@),
            SchemaError::DuplicatePositional(f) => SchemaErrorView::DuplicatePositional(f@),
            SchemaError::DuplicateShort(f, c, o) => SchemaErrorView::DuplicateShort(f@, *c, o@),
        }
    }
}

/// A boolean flag of the schema.
#[derive(Clone, Debug, PartialEq, Eq)]
pub struct ArgFlag {
    pub name: String,
    pub short: Option<char>,
    pub doc: Vec<String>,
}

/// A valued option of the schema (or the positional sink).
#[derive(Clone, Debug, PartialEq, Eq)]
pub struct ArgOption {
    pub name: String,
    pub short: Option<char>,
    pub ty_help: ArgType,
    /// Help lines, with the `[default: ...]` or `[required]` note appended.
    pub doc: Vec<String>,
    /// The default literal as written.
    pub default: Option<String>,
    /// The default literal converted to a value of the option's kind.
    pub default_value: Option<Value>,
    pub property: ArgProperty,
}

pub struct FlagView {
    pub name: Seq<char>,
    pub short: Option<char>,
    pub doc: Seq<Seq<char>>,
}

pub struct OptionView {
    pub name: Seq<char>,
    pub short: Option<char>,
    pub ty_help: ArgType,
    pub doc: Seq<Seq<char>>,
    pub default: Option<Seq<char>>,
    pub default_value: Option<ValueView>,
    pub property: ArgProperty,
}

impl View for ArgFlag {
    type V = FlagView;

    open spec fn view(&self) -> FlagView {
        FlagView { name: self.name@, short: self.short, doc: self.doc.deep_view() }
    }
}

impl View for ArgOption {
    type V = OptionView;

    open spec fn view(&self) -> OptionView {
        OptionView {
            name: self.name@,
            short: self.short,
            ty_help: self.ty_help,
            doc: self.doc.deep_view(),
            default: match self.default {
                Some(d) => Some(d@),
                None => None,
            },
            default_value: match self.default_value {
                Some(v) => Some(v@),
                None => None,
            },
            property: self.property,
        }
    }
}

/// What the attributes of one field say, once read.
pub struct AttrState {
    pub doc: Seq<Seq<char>>,
    pub default: Option<Seq<char>>,
    pub long: bool,
    pub short: Option<char>,
    pub required: bool,
    pub positional: bool,
}

pub open spec fn is_ident_token(t: Seq<char>) -> bool {
    t.len() > 0 && (is_ascii_alpha(t[0]) || t[0] == '_')
}

/// The literal of `#[default(...)]`: one token; the identifiers `true` and
/// `false` become string literals.
pub open spec fn default_literal(toks: Seq<Seq<char>>, field: Seq<char>) -> Result<
    Seq<char>,
    SchemaErrorView,
> {
    if toks.len() != 1 {
        Err(SchemaErrorView::DefaultArity(field))
    } else if toks[0] == "true"@ {
        Ok("\"true\""@)
    } else if toks[0] == "false"@ {
        Ok("\"false\""@)
    } else if is_ident_token(toks[0]) {
        Err(SchemaErrorView::UnexpectedIdentifier(field))
    } else {
        Ok(toks[0])
    }
}

/// The character of a character literal such as `'c'`.
pub open spec fn char_literal(lit: Seq<char>) -> Option<char> {
    if lit.len() == 3 && lit[0] == '\'' && lit[2] == '\'' && lit[1] != '\'' && lit[1] != '\\' {
        Some(lit[1])
    } else {
        None
    }
}

pub open spec fn attr_step(st: AttrState, a: FieldAttr, field: Seq<char>) -> Result<
    AttrState,
    SchemaErrorView,
> {
    match a {
        FieldAttr::Doc(l) => Ok(AttrState { doc: st.doc.push(trim_doc(l@)), ..st }),
        FieldAttr::Default(toks) => match default_literal(toks.deep_view(), field) {
            Ok(lit) => Ok(AttrState { default: Some(lit), ..st }),
            Err(e) => Err(e),
        },
        FieldAttr::Long => Ok(AttrState { long: true, ..st }),
        FieldAttr::Short(lit) => match char_literal(lit@) {
            Some(c) => Ok(AttrState { short: Some(c), ..st }),
            None => Err(SchemaErrorView::InvalidShort(field)),
        },
        FieldAttr::Required => Ok(AttrState { required: true, ..st }),
        FieldAttr::Positional => Ok(AttrState { positional: true, ..st }),
        FieldAttr::Other => Ok(st),
    }
}

/// Reads a field's attributes in order; the first malformed one is the error.
pub open spec fn scan_attrs(attrs: Seq<FieldAttr>, field: Seq<char>) -> Result<
    AttrState,
    SchemaErrorView,
>
    decreases attrs.len(),
{
    if attrs.len() == 0 {
        Ok(
            AttrState {
                doc: Seq::empty(),
                default: None,
                long: false,
                short: None,
                required: false,
                positional: false,
            },
        )
    } else {
        match scan_attrs(attrs.drop_last(), field) {
            Ok(st) => attr_step(st, attrs.last(), field),
            Err(e) => Err(e),
        }
    }
}

/// A field classified: a flag, or a valued option (the positional sink among them).
pub enum ArgSpec {
    Flag(FlagView),
    Opt(OptionView),
}

/// The short spelling a field ends with: the one given by `#[short]`, else
/// none under `#[long]`, else the first ASCII letter of its name, lowercased.
pub open spec fn short_for(st: AttrState, name: Seq<char>) -> Option<char> {
    if st.short is Some {
        st.short
    } else if st.long {
        None
    } else {
        first_alpha(name)
    }
}

/// A string literal without its quotes; any other literal as it is.
pub open spec fn unquote(lit: Seq<char>) -> Seq<char> {
    if lit.len() >= 2 && lit[0] == '"' && lit.last() == '"' {
        lit.subrange(1, lit.len() - 1)
    } else {
        lit
    }
}

/// Help lines with a note appended to the last one (or as the only one).
pub open spec fn with_note(doc: Seq<Seq<char>>, note: Seq<char>) -> Seq<Seq<char>> {
    if doc.len() > 0 {
        doc.update(doc.len() - 1, doc.last() + " "@ + note)
    } else {
        seq![note]
    }
}

/// Whether an option without a default must be given.
pub open spec fn is_mandatory(p: ArgProperty) -> bool {
    match p {
        ArgProperty::Required => true,
        ArgProperty::MultiValue { required } => required,
        ArgProperty::Positional { required } => required,
        ArgProperty::Optional => false,
    }
}

pub open spec fn default_note(lit: Seq<char>) -> Seq<char> {
    "[default: "@ + lit + "]"@
}

/// A non-`bool` field as an option, given what its attributes say.
pub open spec fn option_spec(name: Seq<char>, ty: Seq<char>, st: AttrState) -> Result<
    OptionView,
    SchemaErrorView,
> {
    match classify_spec(ty) {
        None => Err(SchemaErrorView::UnsupportedType(name)),
        Some((p, t)) => if st.default is Some && p != ArgProperty::Required {
            Err(SchemaErrorView::DefaultNotAllowed(name))
        } else if st.required && !(p is MultiValue) {
            Err(SchemaErrorView::RequiredNotAllowed(name))
        } else if st.positional && !(p is MultiValue) {
            Err(SchemaErrorView::PositionalNotAllowed(name))
        } else {
            let prop = if st.positional {
                ArgProperty::Positional { required: st.required }
            } else if st.required {
                ArgProperty::MultiValue { required: true }
            } else {
                p
            };
            match st.default {
                None => Ok(
                    OptionView {
                        name,
                        short: short_for(st, name),
                        ty_help: t,
                        doc: if is_mandatory(prop) {
                            with_note(st.doc, "[required]"@)
                        } else {
                            st.doc
                        },
                        default: None,
                        default_value: None,
                        property: prop,
                    },
                ),
                Some(lit) => match convert_spec(encode_utf8(unquote(lit)), t, name) {
                    Err(_) => Err(SchemaErrorView::InvalidDefault(name)),
                    Ok(v) => Ok(
                        OptionView {
                            name,
                            short: short_for(st, name),
                            ty_help: t,
                            doc: with_note(st.doc, default_note(lit)),
                            default: Some(lit),
                            default_value: Some(v),
                            property: prop,
                        },
                    ),
                },
            }
        },
    }
}

/// The classification of one field declaration.
pub open spec fn field_spec(f: FieldDecl) -> Result<ArgSpec, SchemaErrorView> {
    match scan_attrs(f.attrs@, f.name@) {
        Err(e) => Err(e),
        Ok(st) => if f.ty@ == "bool"@ {
            if st.required {
                Err(SchemaErrorView::RequiredNotAllowed(f.name@))
            } else if st.positional {
                Err(SchemaErrorView::PositionalNotAllowed(f.name@))
            } else {
                Ok(ArgSpec::Flag(FlagView { name: f.name@, short: short_for(st, f.name@), doc: st.doc }))
            }
        } else {
            match option_spec(f.name@, f.ty@, st) {
                Ok(o) => Ok(ArgSpec::Opt(o)),
                Err(e) => Err(e),
            }
        },
    }
}

/// The attributes of one field, once read.
pub struct Attrs {
    pub doc: Vec<String>,
    pub default: Option<String>,
    pub long: bool,
    pub short: Option<char>,
    pub required: bool,
    pub positional: bool,
}

impl View for Attrs {
    type V = AttrState;

    open spec fn view(&self) -> AttrState {
        AttrState {
            doc: self.doc.deep_view(),
            default: match self.default {
                Some(d) => Some(d@),
                None => None,
            },
            long: self.long,
            short: self.short,
            required: self.required,
            positional: self.positional,
        }
    }
}

fn default_literal_of(toks: &Vec<String>, field: &String) -> (r: Result<String, SchemaError>)
    ensures
        match r {
            Ok(l) => default_literal(toks.deep_view(), field@) == Ok::<Seq<char>, SchemaErrorView>(l@),
            Err(e) => default_literal(toks.deep_view(), field@) == Err::<Seq<char>, SchemaErrorView>(e@),
        },
{
    if toks.len() != 1 {
        return Err(SchemaError::DefaultArity(field.clone()));
    }
    let tok = &toks[0];
    assert(toks.deep_view()[0] == tok@);
    let cs = chars_of(tok.as_str());
    if spells(cs.as_slice(), "true") {
        Ok(String::from_str("\"true\""))
    } else if spells(cs.as_slice(), "false") {
        Ok(String::from_str("\"false\""))
    } else if cs.len() > 0 && (('a' <= cs[0] && cs[0] <= 'z') || ('A' <= cs[0] && cs[0] <= 'Z')
        || cs[0] == '_') {
        Err(SchemaError::UnexpectedIdentifier(field.clone()))
    } else {
        Ok(tok.clone())
    }
}

fn char_literal_of(lit: &String) -> (r: Option<char>)
    ensures
        r == char_literal(lit@),
{
    let cs = chars_of(lit.as_str());
    if cs.len() == 3 && cs[0] == '\'' && cs[2] == '\'' && cs[1] != '\'' && cs[1] != '\\' {
        Some(cs[1])
    } else {
        None
    }
}

proof fn lemma_scan_err_sticks(attrs: Seq<FieldAttr>, field: Seq<char>, k: int)
    requires
        0 <= k <= attrs.len(),
        scan_attrs(attrs.subrange(0, k), field) is Err,
    ensures
        scan_attrs(attrs, field) == scan_attrs(attrs.subrange(0, k), field),
    decreases attrs.len() - k,
{
    if k < attrs.len() {
        assert(attrs.subrange(0, k + 1).drop_last() == attrs.subrange(0, k));
        lemma_scan_err_sticks(attrs, field, k + 1);
    } else {
        assert(attrs.subrange(0, k) == attrs);
    }
}

/// Reads a field's attributes in order.
pub fn read_attrs(attrs: &Vec<FieldAttr>, field: &String) -> (r: Result<Attrs, SchemaError>)
    ensures
        match r {
            Ok(a) => scan_attrs(attrs@, field@) == Ok::<AttrState, SchemaErrorView>(a@),
            Err(e) => scan_attrs(attrs@, field@) == Err::<AttrState, SchemaErrorView>(e@),
        },
{
    let mut st = Attrs {
        doc: Vec::new(),
        default: None,
        long: false,
        short: None,
        required: false,
        positional: false,
    };
    let mut i: usize = 0;
    proof {
        assert(attrs@.subrange(0, 0) =~= Seq::<FieldAttr>::empty());
        assert(st.doc.deep_view() =~= Seq::<Seq<char>>::empty());
    }
    while i < attrs.len()
        invariant
            i <= attrs@.len(),
            scan_attrs(attrs@.subrange(0, i as int), field@) == Ok::<AttrState, SchemaErrorView>(
                st@,
            ),
        decreases attrs@.len() - i,
    {
        proof {
            assert(attrs@.subrange(0, i + 1).drop_last() == attrs@.subrange(0, i as int));
            assert(attrs@.subrange(0, i + 1).last() == attrs@[i as int]);
        }
        match &attrs[i] {
            FieldAttr::Doc(l) => {
                let t = trim_with_indent(l.as_str());
                let ghost old_doc = st.doc.deep_view();
                st.doc.push(t);
                assert(st.doc.deep_view() =~= old_doc.push(t@));
            },
            FieldAttr::Default(toks) => {
                match default_literal_of(toks, field) {
                    Ok(l) => {
                        st.default = Some(l);
                    },
                    Err(e) => {
                        proof {
                            lemma_scan_err_sticks(attrs@, field@, i + 1);
                        }
                        return Err(e);
                    },
                }
            },
            FieldAttr::Long => {
                st.long = true;
            },
            FieldAttr::Short(lit) => {
                match char_literal_of(lit) {
                    Some(c) => {
                        st.short = Some(c);
                    },
                    None => {
                        proof {
                            lemma_scan_err_sticks(attrs@, field@, i + 1);
                        }
                        return Err(SchemaError::InvalidShort(field.clone()));
                    },
                }
            },
            FieldAttr::Required => {
                st.required = true;
            },
            FieldAttr::Positional => {
                st.positional = true;
            },
            FieldAttr::Other => {},
        }
        i = i + 1;
    }
    proof {
        assert(attrs@.subrange(0, attrs@.len() as int) == attrs@);
    }
    Ok(st)
}

/// A field declaration classified.
#[derive(Clone, Debug, PartialEq, Eq)]
pub enum Argument {
    Flag(ArgFlag),
    Opt(ArgOption),
}

impl View for Argument {
    type V = ArgSpec;

    open spec fn view(&self) -> ArgSpec {
        match self {
            Argument::Flag(f) => ArgSpec::Flag(f@),
            Argument::Opt(o) => ArgSpec::Opt(o@),
        }
    }
}

/// The UTF-8 bytes of a string.
pub fn bytes_of(s: &String) -> (r: Vec<u8>)
    ensures
        r@ == encode_utf8(s@),
{
    let b = s.as_str().as_bytes();
    let mut r: Vec<u8> = Vec::new();
    let mut i: usize = 0;
    while i < b.len()
        invariant
            i <= b@.len(),
            r@ == b@.subrange(0, i as int),
        decreases b@.len() - i,
    {
        r.push(b[i]);
        i = i + 1;
    }
    proof {
        assert(b@.subrange(0, b@.len() as int) == b@);
    }
    r
}

fn unquote_of(lit: &String) -> (r: String)
    ensures
        r@ == unquote(lit@),
{
    let cs = chars_of(lit.as_str());
    if cs.len() >= 2 && cs[0] == '"' && cs[cs.len() - 1] == '"' {
        string_of(&cs.as_slice()[1..cs.len() - 1])
    } else {
        lit.clone()
    }
}

fn with_note_of(doc: Vec<String>, note: &String) -> (r: Vec<String>)
    ensures
        r.deep_view() == with_note(doc.deep_view(), note@),
{
    let mut doc = doc;
    let ghost d0 = doc.deep_view();
    match doc.pop() {
        Some(last) => {
            let ghost d1 = doc.deep_view();
            assert(d1 =~= d0.drop_last());
            let mut line = last;
            line.append(" ");
            line.append(note.as_str());
            doc.push(line);
            assert(doc.deep_view() =~= d0.update(d0.len() - 1, d0.last() + " "@ + note@));
            doc
        },
        None => {
            let mut r: Vec<String> = Vec::new();
            r.push(note.clone());
            assert(r.deep_view() =~= seq![note@]);
            r
        },
    }
}

fn short_of(st: &Attrs, name: &String) -> (r: Option<char>)
    ensures
        r == short_for(st@, name@),
{
    if st.short.is_some() {
        st.short
    } else if st.long {
        None
    } else {
        infer_short(name.as_str())
    }
}

fn option_of(name: &String, ty: &String, st: Attrs) -> (r: Result<ArgOption, SchemaError>)
    ensures
        match r {
            Ok(o) => option_spec(name@, ty@, st@) == Ok::<OptionView, SchemaErrorView>(o@),
            Err(e) => option_spec(name@, ty@, st@) == Err::<OptionView, SchemaErrorView>(e@),
        },
{
    let (p, t) = match classify(ty.as_str()) {
        None => {
            return Err(SchemaError::UnsupportedType(name.clone()));
        },
        Some(pt) => pt,
    };
    let multi = match p {
        ArgProperty::MultiValue { .. } => true,
        _ => false,
    };
    let plain = match p {
        ArgProperty::Required => true,
        _ => false,
    };
    if st.default.is_some() && !plain {
        return Err(SchemaError::DefaultNotAllowed(name.clone()));
    }
    if st.required && !multi {
        return Err(SchemaError::RequiredNotAllowed(name.clone()));
    }
    if st.positional && !multi {
        return Err(SchemaError::PositionalNotAllowed(name.clone()));
    }
    let prop = if st.positional {
        ArgProperty::Positional { required: st.required }
    } else if st.required {
        ArgProperty::MultiValue { required: true }
    } else {
        p
    };
    let short = short_of(&st, name);
    let ghost s0 = st@;
    let Attrs { doc, default, .. } = st;
    assert(doc.deep_view() == s0.doc);
    match default {
        None => {
            let mandatory = match prop {
                ArgProperty::Required => true,
                ArgProperty::MultiValue { required } => required,
                ArgProperty::Positional { required } => required,
                ArgProperty::Optional => false,
            };
            let doc = if mandatory {
                with_note_of(doc, &String::from_str("[required]"))
            } else {
                doc
            };
            Ok(
                ArgOption {
                    name: name.clone(),
                    short,
                    ty_help: t,
                    doc,
                    default: None,
                    default_value: None,
                    property: prop,
                },
            )
        },
        Some(lit) => {
            let text = unquote_of(&lit);
            let bytes = bytes_of(&text);
            match convert(&bytes, t, name) {
                Err(_) => Err(SchemaError::InvalidDefault(name.clone())),
                Ok(v) => {
                    let mut note = String::from_str("[default: ");
                    note.append(lit.as_str());
                    note.append("]");
                    assert(note@ == default_note(lit@));
                    let doc = with_note_of(doc, &note);
                    Ok(
                        ArgOption {
                            name: name.clone(),
                            short,
                            ty_help: t,
                            doc,
                            default: Some(lit),
                            default_value: Some(v),
                            property: prop,
                        },
                    )
                },
            }
        },
    }
}

impl Argument {
    /// Classifies one field declaration.
    pub fn parse(f: &FieldDecl) -> (r: Result<Argument, SchemaError>)
        ensures
            match r {
                Ok(a) => field_spec(*f) == Ok::<ArgSpec, SchemaErrorView>(a@),
                Err(e) => field_spec(*f) == Err::<ArgSpec, SchemaErrorView>(e@),
            },
    {
        let st = match read_attrs(&f.attrs, &f.name) {
            Ok(st) => st,
            Err(e) => {
                return Err(e);
            },
        };
        let tc = chars_of(f.ty.as_str());
        if spells(tc.as_slice(), "bool") {
            if st.required {
                return Err(SchemaError::RequiredNotAllowed(f.name.clone()));
            }
            if st.positional {
                return Err(SchemaError::PositionalNotAllowed(f.name.clone()));
            }
            let short = short_of(&st, &f.name);
            Ok(Argument::Flag(ArgFlag { name: f.name.clone(), short, doc: st.doc }))
        } else {
            match option_of(&f.name, &f.ty, st) {
                Ok(o) => Ok(Argument::Opt(o)),
                Err(e) => Err(e),
            }
        }
    }
}

/// A short spelling and the field that claims it.
pub struct Claim {
    pub short: Option<char>,
    pub name: Seq<char>,
}

pub open spec fn claim_of(p: (Option<char>, String)) -> Claim {
    Claim { short: p.0, name: p.1@ }
}

/// The schema: flags, options and the positional sink, each in declaration
/// order, the short spellings of the flags and options together in
/// declaration order, and the struct's doc lines trimmed for help text.
#[derive(Clone, Debug, PartialEq, Eq)]
pub struct ArgumentStruct {
    pub name: String,
    pub flags: Vec<ArgFlag>,
    pub options: Vec<ArgOption>,
    pub positional: Option<ArgOption>,
    /// Each flag and non-positional option, as (short spelling, field name),
    /// in the order the fields were declared.
    pub shorts: Vec<(Option<char>, String)>,
    pub doc: Vec<String>,
}

pub struct SchemaView {
    pub name: Seq<char>,
    pub flags: Seq<FlagView>,
    pub options: Seq<OptionView>,
    pub positional: Option<OptionView>,
    pub shorts: Seq<Claim>,
    pub doc: Seq<Seq<char>>,
}

impl View for ArgumentStruct {
    type V = SchemaView;

    open spec fn view(&self) -> SchemaView {
        SchemaView {
            name: self.name@,
            flags: self.flags@.map_values(|f: ArgFlag| f@),
            options: self.options@.map_values(|o: ArgOption| o@),
            positional: match self.positional {
                Some(o) => Some(o@),
                None => None,
            },
            shorts: self.shorts@.map_values(|p| claim_of(p)),
            doc: self.doc.deep_view(),
        }
    }
}

/// Flags, options and positional sink, so far, and the short spellings of
/// the flags and options in declaration order.
pub struct Groups {
    pub flags: Seq<FlagView>,
    pub options: Seq<OptionView>,
    pub positional: Option<OptionView>,
    pub shorts: Seq<Claim>,
}

/// Classifies the fields in order and sorts them into groups; the first
/// malformed field, or the second positional one, is the error.
pub open spec fn group_fields(fs: Seq<FieldDecl>) -> Result<Groups, SchemaErrorView>
    decreases fs.len(),
{
    if fs.len() == 0 {
        Ok(Groups { flags: Seq::empty(), options: Seq::empty(), positional: None, shorts: Seq::empty() })
    } else {
        match group_fields(fs.drop_last()) {
            Err(e) => Err(e),
            Ok(g) => match field_spec(fs.last()) {
                Err(e) => Err(e),
                Ok(ArgSpec::Flag(f)) => Ok(
                    Groups {
                        flags: g.flags.push(f),
                        shorts: g.shorts.push(Claim { short: f.short, name: f.name }),
                        ..g
                    },
                ),
                Ok(ArgSpec::Opt(o)) => if o.property is Positional {
                    if g.positional is Some {
                        Err(SchemaErrorView::DuplicatePositional(o.name))
                    } else {
                        Ok(Groups { positional: Some(o), ..g })
                    }
                } else {
                    Ok(
                        Groups {
                            options: g.options.push(o),
                            shorts: g.shorts.push(Claim { short: o.short, name: o.name }),
                            ..g
                        },
                    )
                },
            },
        }
    }
}

/// The schema a declaration describes.
pub open spec fn struct_spec(d: StructDecl) -> Result<SchemaView, SchemaErrorView> {
    match group_fields(d.fields@) {
        Err(e) => Err(e),
        Ok(g) => Ok(
            SchemaView {
                name: d.name@,
                flags: g.flags,
                options: g.options,
                positional: g.positional,
                shorts: g.shorts,
                doc: d.doc.deep_view().map_values(|l: Seq<char>| trim_doc(l)),
            },
        ),
    }
}

proof fn lemma_group_err_sticks(fs: Seq<FieldDecl>, k: int)
    requires
        0 <= k <= fs.len(),
        group_fields(fs.subrange(0, k)) is Err,
    ensures
        group_fields(fs) == group_fields(fs.subrange(0, k)),
    decreases fs.len() - k,
{
    if k < fs.len() {
        assert(fs.subrange(0, k + 1).drop_last() == fs.subrange(0, k));
        lemma_group_err_sticks(fs, k + 1);
    } else {
        assert(fs.subrange(0, k) == fs);
    }
}

impl ArgumentStruct {
    /// Builds the schema of a declaration.
    pub fn parse(d: &StructDecl) -> (r: Result<ArgumentStruct, SchemaError>)
        ensures
            match r {
                Ok(a) => struct_spec(*d) == Ok::<SchemaView, SchemaErrorView>(a@),
                Err(e) => struct_spec(*d) == Err::<SchemaView, SchemaErrorView>(e@),
            },
    {
        let mut flags: Vec<ArgFlag> = Vec::new();
        let mut options: Vec<ArgOption> = Vec::new();
        let mut positional: Option<ArgOption> = None;
        let mut shorts: Vec<(Option<char>, String)> = Vec::new();
        let fs = &d.fields;
        let mut i: usize = 0;
        proof {
            assert(fs@.subrange(0, 0) =~= Seq::<FieldDecl>::empty());
            assert(flags@.map_values(|f: ArgFlag| f@) =~= Seq::<FlagView>::empty());
            assert(options@.map_values(|o: ArgOption| o@) =~= Seq::<OptionView>::empty());
            assert(shorts@.map_values(|p| claim_of(p)) =~= Seq::<Claim>::empty());
        }
        while i < fs.len()
            invariant
                i <= fs@.len(),
                fs@ == d.fields@,
                group_fields(fs@.subrange(0, i as int)) == Ok::<Groups, SchemaErrorView>(
                    Groups {
                        flags: flags@.map_values(|f: ArgFlag| f@),
                        options: options@.map_values(|o: ArgOption| o@),
                        positional: match positional {
                            Some(o) => Some(o@),
                            None => None,
                        },
                        shorts: shorts@.map_values(|p| claim_of(p)),
                    },
                ),
            decreases fs@.len() - i,
        {
            proof {
                assert(fs@.subrange(0, i + 1).drop_last() == fs@.subrange(0, i as int));
                assert(fs@.subrange(0, i + 1).last() == fs@[i as int]);
            }
            match Argument::parse(&fs[i]) {
                Err(e) => {
                    proof {
                        assert(field_spec(fs@[i as int]) == Err::<ArgSpec, SchemaErrorView>(e@));
                        assert(group_fields(fs@.subrange(0, i + 1)) == Err::<Groups, SchemaErrorView>(e@));
                        lemma_group_err_sticks(fs@, i + 1);
                    }
                    return Err(e);
                },
                Ok(Argument::Flag(f)) => {
                    let ghost before = flags@;
                    let ghost sb = shorts@;
                    shorts.push((f.short, f.name.clone()));
                    assert(shorts@.map_values(|p| claim_of(p)) =~= sb.map_values(|p| claim_of(p)).push(
                        Claim { short: f.short, name: f.name@ },
                    ));
                    flags.push(f);
                    assert(flags@.map_values(|f: ArgFlag| f@) =~= before.map_values(
                        |f: ArgFlag| f@,
                    ).push(f@));
                },
                Ok(Argument::Opt(o)) => {
                    let is_pos = match o.property {
                        ArgProperty::Positional { .. } => true,
                        _ => false,
                    };
                    if is_pos {
                        if positional.is_some() {
                            let e = SchemaError::DuplicatePositional(o.name);
                            proof {
                                lemma_group_err_sticks(fs@, i + 1);
                            }
                            return Err(e);
                        }
                        positional = Some(o);
                    } else {
                        let ghost before = options@;
                        let ghost sb = shorts@;
                        shorts.push((o.short, o.name.clone()));
                        assert(shorts@.map_values(|p| claim_of(p)) =~= sb.map_values(
                            |p| claim_of(p),
                        ).push(Claim { short: o.short, name: o.name@ }));
                        options.push(o);
                        assert(options@.map_values(|o: ArgOption| o@) =~= before.map_values(
                            |o: ArgOption| o@,
                        ).push(o@));
                    }
                },
            }
            i = i + 1;
        }
        proof {
            assert(fs@.subrange(0, fs@.len() as int) == fs@);
        }
        let mut doc: Vec<String> = Vec::new();
        let mut j: usize = 0;
        while j < d.doc.len()
            invariant
                j <= d.doc@.len(),
                doc.deep_view() =~= d.doc.deep_view().subrange(0, j as int).map_values(
                    |l: Seq<char>| trim_doc(l),
                ),
            decreases d.doc@.len() - j,
        {
            let t = trim_with_indent(d.doc[j].as_str());
            let ghost before = doc.deep_view();
            doc.push(t);
            proof {
                assert(d.doc.deep_view()[j as int] == d.doc[j as int]@);
                assert(doc.deep_view() =~= before.push(t@));
                assert(d.doc.deep_view().subrange(0, j + 1) =~= d.doc.deep_view().subrange(
                    0,
                    j as int,
                ).push(d.doc.deep_view()[j as int]));
            }
            j = j + 1;
        }
        proof {
            assert(d.doc.deep_view().subrange(0, d.doc@.len() as int) == d.doc.deep_view());
        }
        Ok(ArgumentStruct { name: d.name.clone(), flags, options, positional, shorts, doc })
    }
}

} // verus!
