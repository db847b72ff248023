//! The help renderer: aligned entry lines, sections, and the full help and
//! version texts.
use crate::schema::{ArgFlag, ArgOption};
use crate::text::{arg_name_of, chars_of, push_char, to_arg_name};
use crate::types::ArgType;
use vstd::prelude::*;
use vstd::string::*;

verus! {

/// Width of `-c ` before a long spelling.
pub const SHORT_PAD: usize = 3;

/// Two leading spaces, the two hyphens of the long spelling, and the two spaces
/// before the help column.
pub const LONG_PAD: usize = 6;

/// What the help text shows of one flag or option.
#[derive(Clone, Debug, PartialEq, Eq)]
pub struct ArgView {
    pub name: String,
    pub short: Option<char>,
    pub ty_help: Option<ArgType>,
    pub doc: Vec<String>,
}

pub struct EntryView {
    pub name: Seq<char>,
    pub short: Option<char>,
    pub label: Seq<char>,
    pub doc: Seq<Seq<char>>,
}

impl View for ArgView {
    type V = EntryView;

    open spec fn view(&self) -> EntryView {
        EntryView {
            name: self.name@,
            short: self.short,
            label: match self.ty_help {
                Some(t) => t.label(),
                None => Seq::empty(),
            },
            doc: self.doc.deep_view(),
        }
    }
}

pub open spec fn spaces(n: nat) -> Seq<char> {
    Seq::new(n, |i: int| ' ')
}

/// Lines joined with a separator between each two.
pub open spec fn join(lines: Seq<Seq<char>>, sep: Seq<char>) -> Seq<char>
    decreases lines.len(),
{
    if lines.len() == 0 {
        Seq::empty()
    } else if lines.len() == 1 {
        lines[0]
    } else {
        join(lines.drop_last(), sep) + sep + lines.last()
    }
}

/// The printable width of an entry before its help column.
pub open spec fn entry_width(e: EntryView) -> nat {
    e.name.len() + e.label.len() + if e.short is Some {
        SHORT_PAD as nat
    } else {
        0
    }
}

/// The widest entry of a section.
pub open spec fn max_width(es: Seq<EntryView>) -> nat
    decreases es.len(),
{
    if es.len() == 0 {
        0
    } else {
        let m = max_width(es.drop_last());
        let w = entry_width(es.last());
        if w > m {
            w
        } else {
            m
        }
    }
}

/// One entry line, padded to `width`, with continuation lines of the help text
/// indented under the help column.
pub open spec fn help_line(e: EntryView, width: nat) -> Seq<char> {
    let head = if e.short is Some {
        "  -"@ + seq![e.short->0] + " --"@
    } else {
        "  --"@
    };
    head + arg_name_of(e.name) + e.label + spaces((width - entry_width(e)) as nat) + "  "@ + join(
        e.doc,
        "\n"@ + spaces((width + LONG_PAD) as nat),
    ) + "\n"@
}

/// The lines of a section, each padded to the section's own width.
pub open spec fn section_lines(es: Seq<EntryView>, width: nat) -> Seq<char>
    decreases es.len(),
{
    if es.len() == 0 {
        Seq::empty()
    } else {
        section_lines(es.drop_last(), width) + help_line(es.last(), width)
    }
}

pub open spec fn section(es: Seq<EntryView>) -> Seq<char> {
    section_lines(es, max_width(es))
}

pub open spec fn fits(es: Seq<EntryView>) -> bool {
    forall|i: int| 0 <= i < es.len() ==> (#[trigger] es[i]).name.len() <= usize::MAX / 4
}

/// The width of the widest entry.
pub fn get_max_width(es: &Vec<ArgView>) -> (r: usize)
    requires
        fits(es@.map_values(|e: ArgView| e@)),
    ensures
        r == max_width(es@.map_values(|e: ArgView| e@)),
        r <= usize::MAX / 4 + 11,
{
    let ghost vs = es@.map_values(|e: ArgView| e@);
    let mut m: usize = 0;
    let mut i: usize = 0;
    while i < es.len()
        invariant
            i <= es@.len(),
            vs == es@.map_values(|e: ArgView| e@),
            fits(vs),
            m == max_width(vs.subrange(0, i as int)),
            m <= usize::MAX / 4 + 11,
        decreases es@.len() - i,
    {
        let e = &es[i];
        proof {
            assert(vs[i as int] == e@);
            assert(vs.subrange(0, i + 1).drop_last() == vs.subrange(0, i as int));
        }
        let n = chars_of(e.name.as_str()).len();
        let l = match e.ty_help {
            Some(t) => chars_of(t.as_str()).len(),
            None => 0,
        };
        proof {
            if e.ty_help is Some {
                e.ty_help->0.lemma_label_len();
            }
        }
        let w = n + l + if e.short.is_some() { SHORT_PAD } else { 0 };
        if w > m {
            m = w;
        }
        i = i + 1;
    }
    proof {
        assert(vs.subrange(0, es@.len() as int) == vs);
    }
    m
}

fn push_spaces(s: &mut String, n: usize)
    ensures
        final(s)@ == old(s)@ + spaces(n as nat),
{
    let mut i: usize = 0;
    while i < n
        invariant
            i <= n,
            s@ == old(s)@ + spaces(i as nat),
        decreases n - i,
    {
        push_char(s, ' ');
        proof {
            assert(spaces((i + 1) as nat) == spaces(i as nat).push(' '));
        }
        i = i + 1;
        assert(s@ =~= old(s)@ + spaces(i as nat));
    }
}

/// Appends lines joined by a separator.
pub(crate) fn push_joined(s: &mut String, lines: &Vec<String>, sep: &String)
    ensures
        final(s)@ == old(s)@ + join(lines.deep_view(), sep@),
{
    let ghost ls = lines.deep_view();
    let mut i: usize = 0;
    while i < lines.len()
        invariant
            i <= lines@.len(),
            ls == lines.deep_view(),
            s@ == old(s)@ + join(ls.subrange(0, i as int), sep@),
        decreases lines@.len() - i,
    {
        let ghost before = s@;
        proof {
            assert(ls[i as int] == lines[i as int]@);
            assert(ls.subrange(0, i + 1).drop_last() == ls.subrange(0, i as int));
            assert(ls.subrange(0, i + 1).last() == ls[i as int]);
        }
        if i > 0 {
            s.append(sep.as_str());
        }
        s.append(lines[i].as_str());
        proof {
            if i == 0 {
                assert(ls.subrange(0, 1).len() == 1);
                assert(join(ls.subrange(0, i as int), sep@) =~= Seq::<char>::empty());
                assert(s@ =~= old(s)@ + join(ls.subrange(0, i + 1), sep@));
            } else {
                assert(s@ =~= old(s)@ + join(ls.subrange(0, i + 1), sep@));
            }
        }
        i = i + 1;
    }
    proof {
        assert(ls.subrange(0, lines@.len() as int) == ls);
    }
}

/// Renders one entry line of a section whose widest entry is `max_width`.
pub fn to_help(view: &ArgView, max_width: usize) -> (r: String)
    requires
        entry_width(view@) <= max_width <= usize::MAX / 4 + 11,
    ensures
        r@ == help_line(view@, max_width as nat),
{
    let name = to_arg_name(view.name.as_str());
    let n = chars_of(view.name.as_str()).len();
    let (ty, l) = match view.ty_help {
        Some(t) => (t.as_str(), chars_of(t.as_str()).len()),
        None => ("", 0),
    };
    proof {
        if view.ty_help is None {
            reveal_strlit("");
        }
    }
    let mut r = String::new();
    match view.short {
        Some(c) => {
            r.append("  -");
            push_char(&mut r, c);
            r.append(" --");
        },
        None => {
            r.append("  --");
        },
    }
    r.append(name.as_str());
    r.append(ty);
    let pad = max_width - n - l - if view.short.is_some() { SHORT_PAD } else { 0 };
    push_spaces(&mut r, pad);
    r.append("  ");
    let mut sep = String::from_str("\n");
    push_spaces(&mut sep, max_width + LONG_PAD);
    push_joined(&mut r, &view.doc, &sep);
    r.append("\n");
    proof {
        let e = view@;
        let head = if e.short is Some {
            "  -"@ + seq![e.short->0] + " --"@
        } else {
            "  --"@
        };
        assert(r@ =~= head + arg_name_of(e.name) + e.label + spaces(
            (max_width - entry_width(e)) as nat,
        ) + "  "@ + join(e.doc, "\n"@ + spaces((max_width + LONG_PAD) as nat)) + "\n"@);
    }
    r
}

/// Renders a section: every entry padded to the section's widest one.
pub fn section_help(es: &Vec<ArgView>) -> (r: String)
    requires
        fits(es@.map_values(|e: ArgView| e@)),
    ensures
        r@ == section(es@.map_values(|e: ArgView| e@)),
{
    let ghost vs = es@.map_values(|e: ArgView| e@);
    let w = get_max_width(es);
    let mut r = String::new();
    let mut i: usize = 0;
    while i < es.len()
        invariant
            i <= es@.len(),
            vs == es@.map_values(|e: ArgView| e@),
            w == max_width(vs),
            w <= usize::MAX / 4 + 11,
            r@ == section_lines(vs.subrange(0, i as int), w as nat),
        decreases es@.len() - i,
    {
        proof {
            assert(vs[i as int] == es@[i as int]@);
            assert(vs.subrange(0, i + 1).drop_last() == vs.subrange(0, i as int));
            lemma_max_width_bounds(vs, i as int);
        }
        let line = to_help(&es[i], w);
        r.append(line.as_str());
        i = i + 1;
    }
    proof {
        assert(vs.subrange(0, es@.len() as int) == vs);
    }
    r
}

proof fn lemma_max_width_bounds(es: Seq<EntryView>, i: int)
    requires
        0 <= i < es.len(),
    ensures
        entry_width(es[i]) <= max_width(es),
    decreases es.len(),
{
    if i < es.len() - 1 {
        assert(es.drop_last()[i] == es[i]);
        lemma_max_width_bounds(es.drop_last(), i);
    }
}

impl ArgFlag {
    /// What the help text shows of this flag.
    pub fn as_view(&self) -> (r: ArgView)
        ensures
            r@ == (EntryView { name: self.name@, short: self.short, label: Seq::empty(), doc: self@.doc }),
    {
        ArgView { name: self.name.clone(), short: self.short, ty_help: None, doc: self.doc.clone() }
    }
}

impl ArgOption {
    /// What the help text shows of this option.
    pub fn as_view(&self) -> (r: ArgView)
        ensures
            r@ == (EntryView {
                name: self.name@,
                short: self.short,
                label: self.ty_help.label(),
                doc: self@.doc,
            }),
    {
        ArgView {
            name: self.name.clone(),
            short: self.short,
            ty_help: Some(self.ty_help),
            doc: self.doc.clone(),
        }
    }
}

} // verus!
