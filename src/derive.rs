//! From a declaration to a ready parser: schema construction, the check of
//! short spellings, and the help and version texts.
use crate::help::{fits, join, push_joined, section, section_help, ArgView, EntryView};
use crate::schema::{
    claim_of, group_fields, struct_spec, ArgumentStruct, Claim, FieldDecl, FlagView, OptionView, SchemaError,
    SchemaErrorView, SchemaView, StructDecl,
};
use vstd::prelude::*;
use vstd::string::*;

verus! {

/// Facts about the program that the help and version texts show; they are
/// fixed when the program is built.
#[derive(Clone, Debug, PartialEq, Eq)]
pub struct AppInfo {
    pub name: String,
    pub version: String,
    pub description: String,
    /// The name the program is invoked by, shown in the usage line.
    pub bin_name: String,
}

/// A schema together with its rendered help and version texts.
#[derive(Clone, Debug, PartialEq, Eq)]
pub struct Parser {
    pub schema: ArgumentStruct,
    pub help: String,
    pub version: String,
}

pub open spec fn builtin_claims() -> Seq<Claim> {
    seq![Claim { short: Some('h'), name: "help"@ }, Claim { short: Some('V'), name: "version"@ }]
}

/// Every short spelling of a schema in claim order: the built-in `-h` and
/// `-V`, then the flags and options in declaration order (the positional sink
/// takes no part).
pub open spec fn claims(s: SchemaView) -> Seq<Claim> {
    builtin_claims() + s.shorts
}

/// The field that first claims `c`, if any.
pub open spec fn claimant(cl: Seq<Claim>, c: char) -> Option<Seq<char>>
    decreases cl.len(),
{
    if cl.len() == 0 {
        None
    } else if claimant(cl.drop_last(), c) is Some {
        claimant(cl.drop_last(), c)
    } else if cl.last().short == Some(c) {
        Some(cl.last().name)
    } else {
        None
    }
}

/// First come, first served: the first claim of a letter that is already
/// taken is the error.
pub open spec fn dedupe_spec(cl: Seq<Claim>) -> Result<(), SchemaErrorView>
    decreases cl.len(),
{
    if cl.len() == 0 {
        Ok(())
    } else {
        match dedupe_spec(cl.drop_last()) {
            Err(e) => Err(e),
            Ok(_) => match cl.last().short {
                Some(c) => match claimant(cl.drop_last(), c) {
                    Some(other) => Err(SchemaErrorView::DuplicateShort(cl.last().name, c, other)),
                    None => Ok(()),
                },
                None => Ok(()),
            },
        }
    }
}

proof fn lemma_claimant_sticks(cl: Seq<Claim>, c: char, j: int, k: int)
    requires
        0 <= j <= k <= cl.len(),
        claimant(cl.subrange(0, j), c) is Some,
    ensures
        claimant(cl.subrange(0, k), c) == claimant(cl.subrange(0, j), c),
    decreases k - j,
{
    if k > j {
        lemma_claimant_sticks(cl, c, j, k - 1);
        assert(cl.subrange(0, k).drop_last() == cl.subrange(0, k - 1));
    }
}

proof fn lemma_dedupe_err_sticks(cl: Seq<Claim>, k: int)
    requires
        0 <= k <= cl.len(),
        dedupe_spec(cl.subrange(0, k)) is Err,
    ensures
        dedupe_spec(cl) == dedupe_spec(cl.subrange(0, k)),
    decreases cl.len() - k,
{
    if k < cl.len() {
        assert(cl.subrange(0, k + 1).drop_last() == cl.subrange(0, k));
        lemma_dedupe_err_sticks(cl, k + 1);
    } else {
        assert(cl.subrange(0, k) == cl);
    }
}

/// The first claimant of `c` among the first `i` claims.
fn find_claimant(es: &Vec<(Option<char>, String)>, i: usize, c: char) -> (r: Option<String>)
    requires
        i <= es@.len(),
    ensures
        match r {
            Some(n) => claimant(es@.map_values(|p| claim_of(p)).subrange(0, i as int), c) == Some(n@),
            None => claimant(es@.map_values(|p| claim_of(p)).subrange(0, i as int), c) is None,
        },
{
    let ghost cl = es@.map_values(|p| claim_of(p));
    let mut j: usize = 0;
    while j < i
        invariant
            j <= i <= es@.len(),
            cl == es@.map_values(|p| claim_of(p)),
            claimant(cl.subrange(0, j as int), c) is None,
        decreases i - j,
    {
        proof {
            assert(cl.subrange(0, j + 1).drop_last() == cl.subrange(0, j as int));
            assert(cl.subrange(0, j + 1).last() == claim_of(es@[j as int]));
        }
        if es[j].0 == Some(c) {
            proof {
                lemma_claimant_sticks(cl, c, j + 1, i as int);
            }
            return Some(es[j].1.clone());
        }
        j = j + 1;
    }
    None
}

/// All short spellings of a schema, in claim order.
fn claims_of(s: &ArgumentStruct) -> (r: Vec<(Option<char>, String)>)
    ensures
        r@.map_values(|p| claim_of(p)) == claims(s@),
{
    let mut r: Vec<(Option<char>, String)> = Vec::new();
    r.push((Some('h'), String::from_str("help")));
    r.push((Some('V'), String::from_str("version")));
    assert(r@.map_values(|p| claim_of(p)) =~= builtin_claims());
    let mut i: usize = 0;
    while i < s.shorts.len()
        invariant
            i <= s.shorts@.len(),
            r@.map_values(|p| claim_of(p)) =~= builtin_claims() + s@.shorts.subrange(0, i as int),
        decreases s.shorts@.len() - i,
    {
        let ghost before = r@;
        let c = s.shorts[i].0;
        let n = s.shorts[i].1.clone();
        r.push((c, n));
        proof {
            assert(s@.shorts[i as int] == claim_of(s.shorts@[i as int]));
            assert(r@.map_values(|p| claim_of(p)) =~= before.map_values(|p| claim_of(p)).push(
                s@.shorts[i as int],
            ));
            assert(s@.shorts.subrange(0, i + 1) =~= s@.shorts.subrange(0, i as int).push(
                s@.shorts[i as int],
            ));
        }
        i = i + 1;
    }
    proof {
        assert(s@.shorts.subrange(0, s.shorts@.len() as int) == s@.shorts);
    }
    r
}

/// Rejects a schema in which two arguments share a short spelling, the
/// built-in `-h` and `-V` included.
pub fn dedupe(s: &ArgumentStruct) -> (r: Result<(), SchemaError>)
    ensures
        match r {
            Ok(_) => dedupe_spec(claims(s@)) is Ok,
            Err(e) => dedupe_spec(claims(s@)) == Err::<(), SchemaErrorView>(e@),
        },
{
    let es = claims_of(s);
    let ghost cl = es@.map_values(|p| claim_of(p));
    let mut i: usize = 0;
    proof {
        assert(cl.subrange(0, 0) =~= Seq::<Claim>::empty());
    }
    while i < es.len()
        invariant
            i <= es@.len(),
            cl == es@.map_values(|p| claim_of(p)),
            cl == claims(s@),
            dedupe_spec(cl.subrange(0, i as int)) is Ok,
        decreases es@.len() - i,
    {
        proof {
            assert(cl.subrange(0, i + 1).drop_last() == cl.subrange(0, i as int));
            assert(cl.subrange(0, i + 1).last() == claim_of(es@[i as int]));
        }
        if let Some(c) = es[i].0 {
            if let Some(other) = find_claimant(&es, i, c) {
                let e = SchemaError::DuplicateShort(es[i].1.clone(), c, other);
                proof {
                    lemma_dedupe_err_sticks(cl, i + 1);
                }
                return Err(e);
            }
        }
        i = i + 1;
    }
    proof {
        assert(cl.subrange(0, es@.len() as int) == cl);
    }
    Ok(())
}

pub struct AppView {
    pub name: Seq<char>,
    pub version: Seq<char>,
    pub description: Seq<char>,
    pub bin_name: Seq<char>,
}

impl View for AppInfo {
    type V = AppView;

    open spec fn view(&self) -> AppView {
        AppView {
            name: self.name@,
            version: self.version@,
            description: self.description@,
            bin_name: self.bin_name@,
        }
    }
}

pub open spec fn builtin_entries() -> Seq<EntryView> {
    seq![
        EntryView {
            name: "help"@,
            short: Some('h'),
            label: Seq::empty(),
            doc: seq!["Show this help message."@],
        },
        EntryView {
            name: "version"@,
            short: Some('V'),
            label: Seq::empty(),
            doc: seq!["Show the application version."@],
        },
    ]
}

pub open spec fn flag_entry(f: FlagView) -> EntryView {
    EntryView { name: f.name, short: f.short, label: Seq::empty(), doc: f.doc }
}

pub open spec fn option_entry(o: OptionView) -> EntryView {
    EntryView { name: o.name, short: o.short, label: o.ty_help.label(), doc: o.doc }
}

/// The entries of the flags section: the built-in flags, then the schema's.
pub open spec fn flag_entries(s: SchemaView) -> Seq<EntryView> {
    builtin_entries() + s.flags.map_values(|f: FlagView| flag_entry(f))
}

pub open spec fn option_entries(s: SchemaView) -> Seq<EntryView> {
    s.options.map_values(|o: OptionView| option_entry(o))
}

pub open spec fn doc_block(doc: Seq<Seq<char>>) -> Seq<char> {
    if doc.len() == 0 {
        Seq::empty()
    } else {
        "\n"@ + join(doc, "\n"@) + "\n"@
    }
}

pub open spec fn positional_header(s: SchemaView) -> Seq<char> {
    match s.positional {
        Some(o) => " ["@ + o.name + "...]"@,
        None => Seq::empty(),
    }
}

pub open spec fn positional_help(s: SchemaView) -> Seq<char> {
    match s.positional {
        Some(o) => "\n"@ + o.name + ":\n  "@ + join(o.doc, "\n  "@),
        None => Seq::empty(),
    }
}

/// The help text: header, usage line, the flags and options sections (each
/// aligned on its own), and the positional sink's section if there is one.
pub open spec fn help_text(app: AppView, s: SchemaView) -> Seq<char> {
    app.name + " v"@ + app.version + "\n"@ + app.description + "\n"@ + doc_block(s.doc)
        + "\nUsage:\n  "@ + app.bin_name + " [flags] [options]"@ + positional_header(s)
        + "\n\nFlags:\n"@ + section(flag_entries(s)) + "\nOptions:\n"@ + section(
        option_entries(s),
    ) + positional_help(s) + "\n"@
}

/// The version text: name and version.
pub open spec fn version_text(app: AppView) -> Seq<char> {
    app.name + " v"@ + app.version + "\n"@
}

pub open spec fn schema_fits(s: SchemaView) -> bool {
    &&& forall|i: int| 0 <= i < s.flags.len() ==> (#[trigger] s.flags[i]).name.len() <= usize::MAX / 4
    &&& forall|i: int| 0 <= i < s.options.len() ==> (#[trigger] s.options[i]).name.len() <= usize::MAX / 4
}

fn flag_views(s: &ArgumentStruct) -> (r: Vec<ArgView>)
    ensures
        r@.map_values(|e: ArgView| e@) == flag_entries(s@),
{
    let mut r: Vec<ArgView> = Vec::new();
    let mut d1: Vec<String> = Vec::new();
    d1.push(String::from_str("Show this help message."));
    r.push(ArgView { name: String::from_str("help"), short: Some('h'), ty_help: None, doc: d1 });
    let mut d2: Vec<String> = Vec::new();
    d2.push(String::from_str("Show the application version."));
    r.push(ArgView { name: String::from_str("version"), short: Some('V'), ty_help: None, doc: d2 });
    proof {
        assert(r@[0]@.doc =~= seq!["Show this help message."@]);
        assert(r@[1]@.doc =~= seq!["Show the application version."@]);
        assert(r@.map_values(|e: ArgView| e@) =~= builtin_entries());
    }
    let mut i: usize = 0;
    while i < s.flags.len()
        invariant
            i <= s.flags@.len(),
            r@.map_values(|e: ArgView| e@) =~= builtin_entries() + s@.flags.subrange(
                0,
                i as int,
            ).map_values(|f: FlagView| flag_entry(f)),
        decreases s.flags@.len() - i,
    {
        let ghost before = r@;
        let v = s.flags[i].as_view();
        r.push(v);
        proof {
            assert(s@.flags[i as int] == s.flags@[i as int]@);
            assert(v@ == flag_entry(s@.flags[i as int]));
            assert(r@.map_values(|e: ArgView| e@) =~= before.map_values(|e: ArgView| e@).push(v@));
            assert(s@.flags.subrange(0, i + 1).map_values(|f: FlagView| flag_entry(f))
                =~= s@.flags.subrange(0, i as int).map_values(|f: FlagView| flag_entry(f)).push(
                flag_entry(s@.flags[i as int]),
            ));
        }
        i = i + 1;
    }
    proof {
        assert(s@.flags.subrange(0, s.flags@.len() as int) == s@.flags);
    }
    r
}

fn option_views(s: &ArgumentStruct) -> (r: Vec<ArgView>)
    ensures
        r@.map_values(|e: ArgView| e@) == option_entries(s@),
{
    let mut r: Vec<ArgView> = Vec::new();
    let mut i: usize = 0;
    proof {
        assert(r@.map_values(|e: ArgView| e@) =~= s@.options.subrange(0, 0).map_values(
            |o: OptionView| option_entry(o),
        ));
    }
    while i < s.options.len()
        invariant
            i <= s.options@.len(),
            r@.map_values(|e: ArgView| e@) =~= s@.options.subrange(0, i as int).map_values(
                |o: OptionView| option_entry(o),
            ),
        decreases s.options@.len() - i,
    {
        let ghost before = r@;
        let v = s.options[i].as_view();
        r.push(v);
        proof {
            assert(s@.options[i as int] == s.options@[i as int]@);
            assert(v@ == option_entry(s@.options[i as int]));
            assert(r@.map_values(|e: ArgView| e@) =~= before.map_values(|e: ArgView| e@).push(v@));
            assert(s@.options.subrange(0, i + 1).map_values(|o: OptionView| option_entry(o))
                =~= s@.options.subrange(0, i as int).map_values(|o: OptionView| option_entry(o)).push(
                option_entry(s@.options[i as int]),
            ));
        }
        i = i + 1;
    }
    proof {
        assert(s@.options.subrange(0, s.options@.len() as int) == s@.options);
    }
    r
}

/// Renders the help text of a schema.
pub fn render_help(app: &AppInfo, s: &ArgumentStruct) -> (r: String)
    requires
        schema_fits(s@),
    ensures
        r@ == help_text(app@, s@),
{
    let fv = flag_views(s);
    let ov = option_views(s);
    proof {
        let fe = flag_entries(s@);
        assert forall|i: int| 0 <= i < fe.len() implies (#[trigger] fe[i]).name.len() <= usize::MAX
            / 4 by {
            reveal_strlit("help");
            reveal_strlit("version");
            if i >= 2 {
                assert(fe[i] == flag_entry(s@.flags[i - 2]));
            }
        }
        assert(fits(fv@.map_values(|e: ArgView| e@)));
        let oe = option_entries(s@);
        assert forall|i: int| 0 <= i < oe.len() implies (#[trigger] oe[i]).name.len() <= usize::MAX
            / 4 by {
            assert(oe[i] == option_entry(s@.options[i]));
        }
        assert(fits(ov@.map_values(|e: ArgView| e@)));
    }
    let flags_help = section_help(&fv);
    let options_help = section_help(&ov);
    let mut r = app.name.clone();
    r.append(" v");
    r.append(app.version.as_str());
    r.append("\n");
    r.append(app.description.as_str());
    r.append("\n");
    let ghost at_doc = r@;
    if s.doc.len() > 0 {
        r.append("\n");
        push_joined(&mut r, &s.doc, &String::from_str("\n"));
        r.append("\n");
    }
    assert(r@ =~= at_doc + doc_block(s@.doc));
    r.append("\nUsage:\n  ");
    r.append(app.bin_name.as_str());
    r.append(" [flags] [options]");
    let ghost at_pos = r@;
    if let Some(p) = &s.positional {
        r.append(" [");
        r.append(p.name.as_str());
        r.append("...]");
    }
    assert(r@ =~= at_pos + positional_header(s@));
    r.append("\n\nFlags:\n");
    r.append(flags_help.as_str());
    r.append("\nOptions:\n");
    r.append(options_help.as_str());
    let ghost at_ph = r@;
    if let Some(p) = &s.positional {
        r.append("\n");
        r.append(p.name.as_str());
        r.append(":\n  ");
        push_joined(&mut r, &p.doc, &String::from_str("\n  "));
    }
    assert(r@ =~= at_ph + positional_help(s@));
    r.append("\n");
    assert(r@ =~= help_text(app@, s@));
    r
}

/// Renders the version text.
pub fn render_version(app: &AppInfo) -> (r: String)
    ensures
        r@ == version_text(app@),
{
    let mut r = app.name.clone();
    r.append(" v");
    r.append(app.version.as_str());
    r.append("\n");
    r
}

/// The schema of a declaration, once its short spellings are checked.
pub open spec fn derive_spec(d: StructDecl) -> Result<SchemaView, SchemaErrorView> {
    match struct_spec(d) {
        Err(e) => Err(e),
        Ok(sv) => match dedupe_spec(claims(sv)) {
            Err(e) => Err(e),
            Ok(_) => Ok(sv),
        },
    }
}

/// Field names short enough that the help columns fit in `usize`.
pub open spec fn decl_fits(d: StructDecl) -> bool {
    forall|i: int| 0 <= i < d.fields@.len() ==> (#[trigger] d.fields@[i]).name@.len() <= usize::MAX / 4
}

proof fn lemma_group_names(fs: Seq<FieldDecl>)
    requires
        forall|i: int| 0 <= i < fs.len() ==> (#[trigger] fs[i]).name@.len() <= usize::MAX / 4,
        group_fields(fs) is Ok,
    ensures
        forall|i: int|
            0 <= i < group_fields(fs)->Ok_0.flags.len() ==> (#[trigger] group_fields(
                fs,
            )->Ok_0.flags[i]).name.len() <= usize::MAX / 4,
        forall|i: int|
            0 <= i < group_fields(fs)->Ok_0.options.len() ==> (#[trigger] group_fields(
                fs,
            )->Ok_0.options[i]).name.len() <= usize::MAX / 4,
    decreases fs.len(),
{
    if fs.len() > 0 {
        let pre = fs.drop_last();
        assert forall|i: int| 0 <= i < pre.len() implies (#[trigger] pre[i]).name@.len()
            <= usize::MAX / 4 by {
            assert(pre[i] == fs[i]);
        }
        lemma_group_names(pre);
        assert(fs.last() == fs[fs.len() - 1]);
    }
}

/// Builds a ready parser from a declaration: the schema, checked for
/// conflicting short spellings, with its help and version texts.
pub fn derive_parser(d: &StructDecl, app: &AppInfo) -> (r: Result<Parser, SchemaError>)
    requires
        decl_fits(*d),
    ensures
        match r {
            Ok(p) => {
                &&& derive_spec(*d) == Ok::<SchemaView, SchemaErrorView>(p.schema@)
                &&& p.help@ == help_text(app@, p.schema@)
                &&& p.version@ == version_text(app@)
            },
            Err(e) => derive_spec(*d) == Err::<SchemaView, SchemaErrorView>(e@),
        },
{
    let schema = match ArgumentStruct::parse(d) {
        Ok(s) => s,
        Err(e) => {
            return Err(e);
        },
    };
    match dedupe(&schema) {
        Err(e) => {
            return Err(e);
        },
        Ok(_) => {},
    }
    proof {
        lemma_group_names(d.fields@);
    }
    let help = render_help(app, &schema);
    let version = render_version(app);
    Ok(Parser { schema, help, version })
}

} // verus!
