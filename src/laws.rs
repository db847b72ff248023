//! Properties that hold of every schema and every command line.
use crate::derive::{claimant, claims, dedupe_spec, derive_spec, flag_entries, option_entries};
use crate::help::{help_line, entry_width, join, spaces, EntryView, LONG_PAD};
use crate::text::{arg_name_of, ascii_lower};
use crate::error::{CliError, ErrorView};
use crate::parser::{convert_all, record, outcome_view, Outcome, finish, first_flag, first_option, missing_from, parse_spec, run, ArgsView, OutcomeView, SlotView, initial, initial_slot, long_of};
use crate::schema::{ArgumentStruct, Claim, OptionView, SchemaView, StructDecl};
use crate::types::ArgProperty;
use crate::value::{convert_spec, token_text, ValueView};
use vstd::prelude::*;

verus! {

/// Parsing is deterministic: two runs of the parser on the same schema and
/// the same tokens end alike, with equal configurations or equal errors.
pub proof fn parse_is_deterministic(
    s: ArgumentStruct,
    toks: Vec<Vec<u8>>,
    r1: Result<Outcome, CliError>,
    r2: Result<Outcome, CliError>,
)
    requires
        outcome_view(r1) == parse_spec(s@, toks.deep_view()),
        outcome_view(r2) == parse_spec(s@, toks.deep_view()),
    ensures
        outcome_view(r1) == outcome_view(r2),
{
}

/// The state in which a run that starts at token `i` in state `st` arrives at
/// token `j`: `None` when it ends (with an outcome or an error) or skips over
/// `j` before getting there. Only flags, options with their value, and tokens
/// sent to the positional sink move a run on.
pub open spec fn reached(s: SchemaView, toks: Seq<Seq<u8>>, i: int, st: ArgsView, j: int) -> Option<
    ArgsView,
>
    decreases toks.len() - i,
{
    if i == j {
        Some(st)
    } else if i < 0 || i > j || i >= toks.len() {
        None
    } else {
        let t = token_text(toks[i]);
        if t == Some("--help"@) || t == Some("-h"@) || t == Some("--version"@) || t == Some("-V"@) {
            None
        } else if t is Some && first_flag(s.flags, t->0) is Some {
            reached(s, toks, i + 1, ArgsView { flags: st.flags.update(first_flag(s.flags, t->0)->0, true), ..st }, j)
        } else if t is Some && first_option(s.options, t->0) is Some {
            let k = first_option(s.options, t->0)->0;
            if i + 1 >= toks.len() {
                None
            } else {
                match convert_spec(toks[i + 1], s.options[k].ty_help, t->0) {
                    Err(_) => None,
                    Ok(v) => reached(s, toks, i + 2, record(st, k, v), j),
                }
            }
        } else if t == Some("--"@) {
            None
        } else {
            match s.positional {
                None => None,
                Some(p) => match convert_spec(toks[i], p.ty_help, "<POSITIONAL>"@) {
                    Err(_) => None,
                    Ok(v) => reached(s, toks, i + 1, ArgsView { positional: st.positional.push(v), ..st }, j),
                },
            }
        }
    }
}

/// A run that arrives at token `j` goes on from there as a run started at `j`.
pub proof fn reached_runs_on(s: SchemaView, toks: Seq<Seq<u8>>, i: int, st: ArgsView, j: int)
    requires
        reached(s, toks, i, st, j) is Some,
    ensures
        run(s, toks, i, st) == run(s, toks, j, reached(s, toks, i, st, j)->0),
    decreases toks.len() - i,
{
    if i != j {
        let t = token_text(toks[i]);
        if t is Some && first_flag(s.flags, t->0) is Some {
            reached_runs_on(s, toks, i + 1, ArgsView { flags: st.flags.update(first_flag(s.flags, t->0)->0, true), ..st }, j);
        } else if t is Some && first_option(s.options, t->0) is Some {
            let k = first_option(s.options, t->0)->0;
            let v = convert_spec(toks[i + 1], s.options[k].ty_help, t->0)->Ok_0;
            reached_runs_on(s, toks, i + 2, record(st, k, v), j);
        } else {
            let p = s.positional->0;
            let v = convert_spec(toks[i], p.ty_help, "<POSITIONAL>"@)->Ok_0;
            reached_runs_on(s, toks, i + 1, ArgsView { positional: st.positional.push(v), ..st }, j);
        }
    }
}

/// Whether text `t` is one of the built-in spellings.
pub open spec fn is_builtin(t: Seq<char>) -> bool {
    t == "--help"@ || t == "-h"@ || t == "--version"@ || t == "-V"@
}

/// With no positional sink, the first token a run reaches that is not `--`,
/// not a built-in spelling and spells no flag or option rejects the whole
/// command line with that very token, whatever follows it.
pub proof fn unknown_token_is_rejected(s: SchemaView, toks: Seq<Seq<u8>>, i: int)
    requires
        s.positional is None,
        0 <= i < toks.len(),
        reached(s, toks, 0, initial(s), i) is Some,
        token_text(toks[i]) is Some ==> !is_builtin(token_text(toks[i])->0),
        token_text(toks[i]) != Some("--"@),
        token_text(toks[i]) is Some ==> first_flag(s.flags, token_text(toks[i])->0) is None,
        token_text(toks[i]) is Some ==> first_option(s.options, token_text(toks[i])->0) is None,
    ensures
        parse_spec(s, toks) == Err::<OutcomeView, ErrorView>(ErrorView::Unknown(toks[i])),
{
    reached_runs_on(s, toks, 0, initial(s), i);
}

/// After a `--` that a run reaches, with a positional sink (and no field that
/// is itself spelled `--`, such as one with short letter `-`), every remaining
/// token goes to the sink in order and nothing else changes: no flag, option,
/// help or version request is recognised there. The run fails on the first
/// remaining token that does not convert, or on a mandatory argument left
/// unset.
pub proof fn escape_sends_rest_to_sink(s: SchemaView, toks: Seq<Seq<u8>>, i: int)
    requires
        s.positional is Some,
        0 <= i < toks.len(),
        reached(s, toks, 0, initial(s), i) is Some,
        token_text(toks[i]) == Some("--"@),
        first_flag(s.flags, "--"@) is None,
        first_option(s.options, "--"@) is None,
    ensures
        ({
            let st = reached(s, toks, 0, initial(s), i)->0;
            parse_spec(s, toks) == match convert_all(toks.subrange(i + 1, toks.len() as int), s.positional->0) {
                Err(e) => Err(e),
                Ok(vs) => finish(s, ArgsView { positional: st.positional + vs, ..st }),
            }
        }),
{
    reached_runs_on(s, toks, 0, initial(s), i);
    reveal_strlit("--");
    reveal_strlit("--help");
    reveal_strlit("-h");
    reveal_strlit("--version");
    reveal_strlit("-V");
}

/// An option that a run reaches takes the token after it as its value,
/// whatever that token looks like (`--name`, `--`, `--help` included): the
/// value is converted and recorded, and the run goes on after it.
pub proof fn option_takes_next_token(s: SchemaView, toks: Seq<Seq<u8>>, i: int, k: int)
    requires
        0 <= i,
        i + 1 < toks.len(),
        reached(s, toks, 0, initial(s), i) is Some,
        token_text(toks[i]) is Some,
        !is_builtin(token_text(toks[i])->0),
        first_flag(s.flags, token_text(toks[i])->0) is None,
        first_option(s.options, token_text(toks[i])->0) == Some(k),
    ensures
        ({
            let st = reached(s, toks, 0, initial(s), i)->0;
            let t = token_text(toks[i])->0;
            parse_spec(s, toks) == match convert_spec(toks[i + 1], s.options[k].ty_help, t) {
                Err(e) => Err(e),
                Ok(v) => run(s, toks, i + 2, record(st, k, v)),
            }
        }),
{
    reached_runs_on(s, toks, 0, initial(s), i);
}

/// Values of an option are only ever appended: from any position the run
/// reaches to any later one, the values a multi-value option held before are
/// still its first values, in the same order. With `option_takes_next_token`
/// (each occurrence records its value), the values come out in input order.
pub proof fn multi_values_only_grow(s: SchemaView, toks: Seq<Seq<u8>>, i: int, st: ArgsView, j: int, k: int)
    requires
        reached(s, toks, i, st, j) is Some,
        st.options.len() == s.options.len(),
        0 <= k < st.options.len(),
        st.options[k] is Many,
    ensures
        reached(s, toks, i, st, j)->0.options.len() == st.options.len(),
        reached(s, toks, i, st, j)->0.options[k] is Many,
        reached(s, toks, i, st, j)->0.options[k]->Many_0.len() >= st.options[k]->Many_0.len(),
        reached(s, toks, i, st, j)->0.options[k]->Many_0.subrange(0, st.options[k]->Many_0.len() as int)
            == st.options[k]->Many_0,
    decreases toks.len() - i,
{
    if i != j {
        let t = token_text(toks[i]);
        if t is Some && first_flag(s.flags, t->0) is Some {
            multi_values_only_grow(s, toks, i + 1, ArgsView { flags: st.flags.update(first_flag(s.flags, t->0)->0, true), ..st }, j, k);
        } else if t is Some && first_option(s.options, t->0) is Some {
            let m = first_option(s.options, t->0)->0;
            let v = convert_spec(toks[i + 1], s.options[m].ty_help, t->0)->Ok_0;
            let nst = record(st, m, v);
            let xs = st.options[k]->Many_0;
            lemma_first_option_range(s.options, t->0);
            if m == k {
                assert(nst.options[k] == SlotView::Many(xs.push(v)));
                assert(xs.push(v).subrange(0, xs.len() as int) == xs);
            } else {
                assert(nst.options[k] == st.options[k]);
                assert(xs.subrange(0, xs.len() as int) == xs);
            }
            multi_values_only_grow(s, toks, i + 2, nst, j, k);
            let ys = nst.options[k]->Many_0;
            let zs = reached(s, toks, i, st, j)->0.options[k]->Many_0;
            assert(ys.subrange(0, xs.len() as int) == xs);
            assert(zs.subrange(0, xs.len() as int) =~= zs.subrange(0, ys.len() as int).subrange(0, xs.len() as int));
        } else {
            let p = s.positional->0;
            let v = convert_spec(toks[i], p.ty_help, "<POSITIONAL>"@)->Ok_0;
            multi_values_only_grow(s, toks, i + 1, ArgsView { positional: st.positional.push(v), ..st }, j, k);
        }
    } else {
        assert(st.options[k]->Many_0.subrange(0, st.options[k]->Many_0.len() as int) == st.options[k]->Many_0);
    }
}

/// When everything else a run checks at its end is satisfied, it succeeds if
/// and only if the required multi-value option `k` holds at least one value;
/// otherwise it reports that option missing, by its long spelling.
pub proof fn required_option_decides_finish(s: SchemaView, st: ArgsView, k: int)
    requires
        0 <= k < s.options.len(),
        st.options.len() == s.options.len(),
        s.options[k].property == (ArgProperty::MultiValue { required: true }),
        st.options[k] is Many,
        forall|m: int| 0 <= m < s.options.len() && m != k ==> !must_be_given(#[trigger] s.options[m]),
        forall|m: int| 0 <= m < s.options.len() && m != k ==> #[trigger] st.options[m] == initial_slot(s.options[m]),
        s.positional is Some ==> s.positional->0.property != (ArgProperty::Positional { required: true }),
    ensures
        finish(s, st) is Ok <==> st.options[k]->Many_0.len() > 0,
        st.options[k]->Many_0.len() == 0 ==> finish(s, st) == Err::<OutcomeView, ErrorView>(
            ErrorView::MissingRequired(long_of(s.options[k].name)),
        ),
{
    if st.options[k]->Many_0.len() > 0 {
        lemma_missing_none_when_given(s.options, st.options, k, 0);
    } else {
        assert(st.options[k]->Many_0 =~= Seq::<ValueView>::empty());
        lemma_missing_skip_except(s.options, st.options, 0, k);
    }
}

proof fn lemma_missing_skip_except(os: Seq<OptionView>, slots: Seq<SlotView>, j: int, k: int)
    requires
        0 <= j <= k < os.len(),
        slots.len() == os.len(),
        forall|m: int| 0 <= m < os.len() && m != k ==> !must_be_given(#[trigger] os[m]),
        forall|m: int| 0 <= m < os.len() && m != k ==> #[trigger] slots[m] == initial_slot(os[m]),
    ensures
        missing_from(os, slots, j) == missing_from(os, slots, k),
    decreases k - j,
{
    if j < k {
        lemma_missing_skip_except(os, slots, j + 1, k);
    }
}

/// A built schema leaves `-h` and `-V` to the built-in help and version
/// flags: no declared flag or option ends with either letter.
pub proof fn builtin_letters_stay_reserved(d: StructDecl)
    requires
        derive_spec(d) is Ok,
    ensures
        forall|i: int|
            0 <= i < derive_spec(d)->Ok_0.shorts.len() ==> (#[trigger] derive_spec(d)->Ok_0.shorts[i]).short
                != Some('h') && derive_spec(d)->Ok_0.shorts[i].short != Some('V'),
{
    let sv = derive_spec(d)->Ok_0;
    let cl = claims(sv);
    lemma_dedupe_distinct(cl);
    assert forall|i: int| 0 <= i < sv.shorts.len() implies (#[trigger] sv.shorts[i]).short != Some('h')
        && sv.shorts[i].short != Some('V') by {
        assert(cl[i + 2] == sv.shorts[i]);
        assert(cl[0].short == Some('h'));
        assert(cl[1].short == Some('V'));
    }
}

/// The names an entry line shows, when it is one: a line whose third
/// character is `-`.
pub open spec fn entry_of(line: Seq<char>) -> Seq<(Option<char>, Seq<char>)> {
    if line.len() > 2 && line[2] == '-' {
        seq![read_names(line)]
    } else {
        Seq::empty()
    }
}

/// Reads text line by line (the current line so far in `cur`) and collects
/// the names of every entry line, in order.
pub open spec fn scan_entries(text: Seq<char>, cur: Seq<char>) -> Seq<(Option<char>, Seq<char>)>
    decreases text.len(),
{
    if text.len() == 0 {
        entry_of(cur)
    } else if text[0] == '\n' {
        entry_of(cur) + scan_entries(text.drop_first(), Seq::empty())
    } else {
        scan_entries(text.drop_first(), cur.push(text[0]))
    }
}

pub open spec fn no_newline(t: Seq<char>) -> bool {
    forall|i: int| 0 <= i < t.len() ==> #[trigger] t[i] != '\n'
}

proof fn lemma_scan_prefix(p: Seq<char>, x: Seq<char>, cur: Seq<char>)
    requires
        no_newline(p),
    ensures
        scan_entries(p + x, cur) == scan_entries(x, cur + p),
    decreases p.len(),
{
    if p.len() == 0 {
        assert(p + x =~= x);
        assert(cur + p =~= cur);
    } else {
        let p2 = p.drop_first();
        assert((p + x)[0] == p[0]);
        assert((p + x).drop_first() =~= p2 + x);
        assert(no_newline(p2)) by {
            assert forall|i: int| 0 <= i < p2.len() implies #[trigger] p2[i] != '\n' by {
                assert(p2[i] == p[i + 1]);
            }
        }
        lemma_scan_prefix(p2, x, cur.push(p[0]));
        assert(cur.push(p[0]) + p2 =~= cur + p);
    }
}

proof fn lemma_scan_split(a: Seq<char>, b: Seq<char>, cur: Seq<char>)
    requires
        a.len() > 0,
        a.last() == '\n',
    ensures
        scan_entries(a + b, cur) == scan_entries(a, cur) + scan_entries(b, Seq::empty()),
    decreases a.len(),
{
    let a2 = a.drop_first();
    assert((a + b)[0] == a[0]);
    assert((a + b).drop_first() =~= a2 + b);
    if a[0] == '\n' {
        if a.len() == 1 {
            assert(a2 + b =~= b);
            assert(a2.len() == 0);
            assert(scan_entries(a2, Seq::empty()) == entry_of(Seq::empty()));
            assert(entry_of(Seq::empty()) =~= Seq::<(Option<char>, Seq<char>)>::empty());
            assert(entry_of(cur) + Seq::<(Option<char>, Seq<char>)>::empty() =~= entry_of(cur));
        } else {
            assert(a2.last() == a.last());
            lemma_scan_split(a2, b, Seq::empty());
            assert(entry_of(cur) + (scan_entries(a2, Seq::empty()) + scan_entries(b, Seq::empty()))
                =~= entry_of(cur) + scan_entries(a2, Seq::empty()) + scan_entries(b, Seq::empty()));
        }
    } else {
        assert(a2.len() > 0);
        assert(a2.last() == a.last());
        lemma_scan_split(a2, b, cur.push(a[0]));
    }
}

proof fn lemma_scan_line(l: Seq<char>, cur: Seq<char>)
    requires
        no_newline(l),
    ensures
        scan_entries(l + "\n"@, cur) == entry_of(cur + l),
{
    reveal_strlit("\n");
    lemma_scan_prefix(l, "\n"@, cur);
    let t = "\n"@;
    assert(t.len() == 1 && t[0] == '\n');
    assert(t.drop_first() =~= Seq::<char>::empty());
    assert(scan_entries(t.drop_first(), Seq::empty()) == entry_of(Seq::<char>::empty()));
    assert(entry_of(Seq::<char>::empty()) =~= Seq::<(Option<char>, Seq<char>)>::empty());
    assert(scan_entries(t, cur + l) == entry_of(cur + l) + scan_entries(t.drop_first(), Seq::empty()));
    assert(entry_of(cur + l) + Seq::<(Option<char>, Seq<char>)>::empty() =~= entry_of(cur + l));
}

proof fn lemma_scan_doc(doc: Seq<Seq<char>>, n: nat, cur: Seq<char>)
    requires
        n >= 3,
        forall|i: int| 0 <= i < doc.len() ==> no_newline(#[trigger] doc[i]),
    ensures
        scan_entries(crate::help::join(doc, "\n"@ + spaces(n)) + "\n"@, cur) == entry_of(
            cur + if doc.len() > 0 {
                doc[0]
            } else {
                Seq::empty()
            },
        ),
    decreases doc.len(),
{
    reveal_strlit("\n");
    let sep = "\n"@ + spaces(n);
    if doc.len() == 0 {
        lemma_scan_line(Seq::empty(), cur);
        assert(Seq::<char>::empty() + "\n"@ =~= "\n"@);
        assert(cur + Seq::<char>::empty() =~= cur);
    } else if doc.len() == 1 {
        lemma_scan_line(doc[0], cur);
    } else {
        let d2 = doc.drop_last();
        assert forall|i: int| 0 <= i < d2.len() implies no_newline(#[trigger] d2[i]) by {
            assert(d2[i] == doc[i]);
        }
        lemma_scan_doc(d2, n, cur);
        let a = crate::help::join(d2, sep) + "\n"@;
        let b = spaces(n) + doc.last() + "\n"@;
        assert(crate::help::join(doc, sep) + "\n"@ =~= a + b);
        lemma_scan_split(a, b, cur);
        let sp = spaces(n);
        assert(no_newline(sp + doc.last())) by {
            let l = sp + doc.last();
            assert forall|i: int| 0 <= i < l.len() implies #[trigger] l[i] != '\n' by {
                if i >= sp.len() {
                    assert(l[i] == doc.last()[i - sp.len()]);
                    assert(doc.last() == doc[doc.len() - 1]);
                }
            }
        }
        assert(b =~= (sp + doc.last()) + "\n"@);
        lemma_scan_line(sp + doc.last(), Seq::empty());
        assert(Seq::<char>::empty() + (sp + doc.last()) =~= sp + doc.last());
        assert((sp + doc.last())[2] == ' ');
        assert(entry_of(sp + doc.last()) =~= Seq::<(Option<char>, Seq<char>)>::empty());
        assert(d2[0] == doc[0]);
        assert(scan_entries(a, cur) + Seq::<(Option<char>, Seq<char>)>::empty() =~= scan_entries(a, cur));
    }
}

/// An entry whose help line reads back alone: [`readable`], with no line
/// break in its short letter or its doc lines.
pub open spec fn line_safe(e: EntryView) -> bool {
    &&& readable(e)
    &&& e.short != Some('\n')
    &&& no_newline(e.label)
    &&& forall|i: int| 0 <= i < e.doc.len() ==> no_newline(#[trigger] e.doc[i])
}

proof fn lemma_help_line_entries(e: EntryView, w: nat)
    requires
        line_safe(e),
    ensures
        scan_entries(help_line(e, w), Seq::empty()) == seq![(e.short, arg_name_of(e.name))],
{
    reveal_strlit("  ");
    reveal_strlit("  -");
    reveal_strlit(" --");
    reveal_strlit("  --");
    reveal_strlit("\n");
    let name = arg_name_of(e.name);
    lemma_arg_name_blank_free(e.name);
    let head = if e.short is Some {
        "  -"@ + seq![e.short->0] + " --"@
    } else {
        "  --"@
    };
    let pad = spaces((w - entry_width(e)) as nat);
    let pre = head + name + e.label + pad + "  "@;
    let sep = "\n"@ + spaces((w + LONG_PAD) as nat);
    assert(help_line(e, w) =~= pre + (join(e.doc, sep) + "\n"@));
    assert(no_newline(pre)) by {
        assert forall|i: int| 0 <= i < pre.len() implies #[trigger] pre[i] != '\n' by {
            if i >= head.len() && i < head.len() + name.len() {
                assert(pre[i] == name[i - head.len()]);
            } else if i >= head.len() + name.len() && i < head.len() + name.len() + e.label.len() {
                assert(pre[i] == e.label[i - head.len() - name.len()]);
            }
        }
    }
    lemma_scan_prefix(pre, join(e.doc, sep) + "\n"@, Seq::empty());
    lemma_scan_doc(e.doc, (w + LONG_PAD) as nat, Seq::empty() + pre);
    let first = Seq::<char>::empty() + pre + if e.doc.len() > 0 {
        e.doc[0]
    } else {
        Seq::empty()
    };
    assert(first[2] == '-');
    let tail = e.label + pad + "  "@ + if e.doc.len() > 0 {
        e.doc[0]
    } else {
        Seq::empty()
    };
    assert(tail[0] == ' ') by {
        if e.label.len() == 0 {
            if pad.len() == 0 {
                assert(tail[0] == ("  "@)[0]);
            } else {
                assert(tail[0] == pad[0]);
            }
        }
    }
    assert(first =~= head + name + tail);
    lemma_word(head, name, tail);
    if e.short is Some {
        assert(first[3] == e.short->0);
    } else {
        assert(first[3] == '-');
    }
}

proof fn lemma_section_entries(es: Seq<EntryView>, w: nat)
    requires
        forall|i: int| 0 <= i < es.len() ==> line_safe(#[trigger] es[i]),
    ensures
        scan_entries(crate::help::section_lines(es, w), Seq::empty()) == es.map_values(
            |e: EntryView| (e.short, arg_name_of(e.name)),
        ),
    decreases es.len(),
{
    if es.len() == 0 {
        assert(entry_of(Seq::empty()) =~= Seq::<(Option<char>, Seq<char>)>::empty());
        assert(es.map_values(|e: EntryView| (e.short, arg_name_of(e.name))) =~= Seq::<(Option<char>, Seq<char>)>::empty());
    } else {
        let pre = es.drop_last();
        assert forall|i: int| 0 <= i < pre.len() implies line_safe(#[trigger] pre[i]) by {
            assert(pre[i] == es[i]);
        }
        lemma_section_entries(pre, w);
        let e = es.last();
        assert(line_safe(es[es.len() - 1]));
        lemma_help_line_entries(e, w);
        let a = crate::help::section_lines(pre, w);
        let b = help_line(e, w);
        reveal_strlit("\n");
        assert(b.last() == '\n');
        if a.len() == 0 {
            assert(a + b =~= b);
            assert(scan_entries(a, Seq::empty()) == entry_of(Seq::empty()));
            assert(entry_of(Seq::empty()) =~= Seq::<(Option<char>, Seq<char>)>::empty());
        } else {
            lemma_section_ends_with_newline(pre, w);
            lemma_scan_split(a, b, Seq::empty());
        }
        assert(es.map_values(|e: EntryView| (e.short, arg_name_of(e.name))) =~= pre.map_values(
            |e: EntryView| (e.short, arg_name_of(e.name)),
        ).push((e.short, arg_name_of(e.name))));
    }
}

proof fn lemma_section_ends_with_newline(es: Seq<EntryView>, w: nat)
    requires
        crate::help::section_lines(es, w).len() > 0,
    ensures
        crate::help::section_lines(es, w).last() == '\n',
{
    reveal_strlit("\n");
    if es.len() > 0 {
        let b = help_line(es.last(), w);
        assert(b.last() == '\n');
    }
}

/// Reading the flags and options sections of a schema's help text back, entry
/// line by entry line, gives exactly the declared short letters and long
/// names: the built-in help and version flags and each declared flag, then
/// each declared option, in order, once each and nothing else.
pub proof fn help_sections_round_trip(s: SchemaView)
    requires
        forall|i: int| 0 <= i < s.flags.len() ==> line_safe(crate::derive::flag_entry(#[trigger] s.flags[i])),
        forall|i: int| 0 <= i < s.options.len() ==> line_safe(crate::derive::option_entry(#[trigger] s.options[i])),
    ensures
        scan_entries(crate::help::section(flag_entries(s)), Seq::empty()) == flag_entries(s).map_values(
            |e: EntryView| (e.short, arg_name_of(e.name)),
        ),
        scan_entries(crate::help::section(option_entries(s)), Seq::empty()) == option_entries(s).map_values(
            |e: EntryView| (e.short, arg_name_of(e.name)),
        ),
{
    let fe = flag_entries(s);
    assert forall|i: int| 0 <= i < fe.len() implies line_safe(#[trigger] fe[i]) by {
        reveal_strlit("help");
        reveal_strlit("version");
        reveal_strlit("Show this help message.");
        reveal_strlit("Show the application version.");
        if i >= 2 {
            assert(fe[i] == crate::derive::flag_entry(s.flags[i - 2]));
        } else {
            assert(blank_free(fe[i].name));
            assert(no_newline(fe[i].label));
            assert forall|k: int| 0 <= k < fe[i].doc.len() implies no_newline(#[trigger] fe[i].doc[k]) by {}
        }
    }
    lemma_section_entries(fe, crate::help::max_width(fe));
    let oe = option_entries(s);
    assert forall|i: int| 0 <= i < oe.len() implies line_safe(#[trigger] oe[i]) by {
        assert(oe[i] == crate::derive::option_entry(s.options[i]));
    }
    lemma_section_entries(oe, crate::help::max_width(oe));
}

proof fn lemma_claimant_none(cl: Seq<Claim>, c: char)
    requires
        claimant(cl, c) is None,
    ensures
        forall|i: int| 0 <= i < cl.len() ==> (#[trigger] cl[i]).short != Some(c),
    decreases cl.len(),
{
    if cl.len() > 0 {
        lemma_claimant_none(cl.drop_last(), c);
        assert forall|i: int| 0 <= i < cl.len() implies (#[trigger] cl[i]).short != Some(c) by {
            if i < cl.len() - 1 {
                assert(cl.drop_last()[i] == cl[i]);
            }
        }
    }
}

proof fn lemma_dedupe_distinct(cl: Seq<Claim>)
    requires
        dedupe_spec(cl) is Ok,
    ensures
        forall|i: int, j: int|
            0 <= i < j < cl.len() && (#[trigger] cl[i]).short is Some ==> (#[trigger] cl[j]).short
                != cl[i].short,
    decreases cl.len(),
{
    if cl.len() > 0 {
        let pre = cl.drop_last();
        lemma_dedupe_distinct(pre);
        assert forall|i: int, j: int|
            0 <= i < j < cl.len() && (#[trigger] cl[i]).short is Some implies (
            #[trigger] cl[j]).short != cl[i].short by {
            if j == cl.len() - 1 {
                let c = cl[i].short->0;
                if cl.last().short == Some(c) {
                    lemma_claimant_none(pre, c);
                    assert(pre[i] == cl[i]);
                }
            } else {
                assert(pre[i] == cl[i]);
                assert(pre[j] == cl[j]);
            }
        }
    }
}

/// A schema that was built has no two arguments with the same short
/// spelling; `-h` and `-V` belong to the built-in help and version flags.
/// A collision is therefore rejected when the schema is built, before any
/// command line is read.
pub proof fn built_schema_has_distinct_shorts(d: StructDecl)
    requires
        derive_spec(d) is Ok,
    ensures
        forall|i: int, j: int|
            0 <= i < j < claims(derive_spec(d)->Ok_0).len() && (#[trigger] claims(
                derive_spec(d)->Ok_0,
            )[i]).short is Some ==> (#[trigger] claims(derive_spec(d)->Ok_0)[j]).short != claims(
                derive_spec(d)->Ok_0,
            )[i].short,
{
    lemma_dedupe_distinct(claims(derive_spec(d)->Ok_0));
}

/// Every multi-value option holds a collection, every other option a scalar.
pub open spec fn shaped(s: SchemaView, st: ArgsView) -> bool {
    &&& st.options.len() == s.options.len()
    &&& forall|k: int|
        0 <= k < s.options.len() ==> ((#[trigger] s.options[k]).property is MultiValue <==> st.options[k] is Many)
}

/// The mandatory collections of a configuration are non-empty.
pub open spec fn collections_given(s: SchemaView, a: ArgsView) -> bool {
    &&& forall|k: int|
        0 <= k < s.options.len() && (#[trigger] s.options[k]).property == (ArgProperty::MultiValue {
            required: true,
        }) ==> a.options[k] is Many && a.options[k]->Many_0.len() > 0
    &&& (s.positional is Some && s.positional->0.property == (ArgProperty::Positional {
        required: true,
    })) ==> a.positional.len() > 0
}

proof fn lemma_missing_none(os: Seq<OptionView>, slots: Seq<SlotView>, k: int)
    requires
        0 <= k,
        missing_from(os, slots, k) is None,
    ensures
        forall|j: int|
            k <= j < os.len() && (#[trigger] os[j]).property == (ArgProperty::MultiValue {
                required: true,
            }) ==> slots[j] != SlotView::Many(Seq::empty()),
    decreases os.len() - k,
{
    if k < os.len() {
        lemma_missing_none(os, slots, k + 1);
    }
}

proof fn lemma_finish_given(s: SchemaView, st: ArgsView)
    requires
        shaped(s, st),
        finish(s, st) is Ok,
    ensures
        finish(s, st)->Ok_0 is Parsed,
        collections_given(s, finish(s, st)->Ok_0->Parsed_0),
{
    lemma_missing_none(s.options, st.options, 0);
    assert forall|k: int|
        0 <= k < s.options.len() && (#[trigger] s.options[k]).property == (ArgProperty::MultiValue {
            required: true,
        }) implies st.options[k] is Many && st.options[k]->Many_0.len() > 0 by {
        if st.options[k]->Many_0.len() == 0 {
            assert(st.options[k]->Many_0 =~= Seq::<crate::value::ValueView>::empty());
        }
    }
}

proof fn lemma_run_given(s: SchemaView, toks: Seq<Seq<u8>>, i: int, st: ArgsView)
    requires
        shaped(s, st),
        run(s, toks, i, st) is Ok,
        run(s, toks, i, st)->Ok_0 is Parsed,
    ensures
        collections_given(s, run(s, toks, i, st)->Ok_0->Parsed_0),
    decreases toks.len() - i,
{
    if i < 0 || i >= toks.len() {
        lemma_finish_given(s, st);
    } else {
        let t = token_text(toks[i]);
        if t == Some("--help"@) || t == Some("-h"@) || t == Some("--version"@) || t == Some("-V"@) {
        } else if t is Some && first_flag(s.flags, t->0) is Some {
            lemma_run_given(s, toks, i + 1, ArgsView { flags: st.flags.update(first_flag(s.flags, t->0)->0, true), ..st });
        } else if t is Some && first_option(s.options, t->0) is Some {
            let k = first_option(s.options, t->0)->0;
            if i + 1 < toks.len() {
                match crate::value::convert_spec(toks[i + 1], s.options[k].ty_help, t->0) {
                    Ok(v) => {
                        lemma_first_option_range(s.options, t->0);
                        let nst = crate::parser::record(st, k, v);
                        assert(shaped(s, nst));
                        lemma_run_given(s, toks, i + 2, nst);
                    },
                    Err(_) => {},
                }
            }
        } else if t == Some("--"@) {
            match s.positional {
                None => lemma_finish_given(s, st),
                Some(p) => match crate::parser::convert_all(toks.subrange(i + 1, toks.len() as int), p) {
                    Ok(vs) => {
                        let nst = ArgsView { positional: st.positional + vs, ..st };
                        lemma_finish_given(s, nst);
                    },
                    Err(_) => {},
                },
            }
        } else {
            match s.positional {
                None => {},
                Some(p) => match crate::value::convert_spec(toks[i], p.ty_help, "<POSITIONAL>"@) {
                    Ok(v) => {
                        lemma_run_given(s, toks, i + 1, ArgsView { positional: st.positional.push(v), ..st });
                    },
                    Err(_) => {},
                },
            }
        }
    }
}

proof fn lemma_first_option_range(os: Seq<OptionView>, t: Seq<char>)
    requires
        first_option(os, t) is Some,
    ensures
        0 <= first_option(os, t)->0 < os.len(),
    decreases os.len(),
{
    if os.len() > 0 && first_option(os.drop_last(), t) is Some {
        lemma_first_option_range(os.drop_last(), t);
    }
}

/// A successful parse leaves every required multi-value option, and a
/// required positional sink, with at least one value.
pub proof fn required_collections_are_filled(s: SchemaView, toks: Seq<Seq<u8>>)
    requires
        parse_spec(s, toks) is Ok,
        parse_spec(s, toks)->Ok_0 is Parsed,
    ensures
        collections_given(s, parse_spec(s, toks)->Ok_0->Parsed_0),
{
    let st = initial(s);
    assert(shaped(s, st)) by {
        assert forall|k: int| 0 <= k < s.options.len() implies ((#[trigger] s.options[k]).property is MultiValue
            <==> st.options[k] is Many) by {
            assert(st.options[k] == initial_slot(s.options[k]));
        }
    }
    lemma_run_given(s, toks, 0, st);
}

/// Whether option `o` must be given and has no default to fall back on.
pub open spec fn must_be_given(o: OptionView) -> bool {
    (o.property == ArgProperty::Required && o.default_value is None) || o.property == (
    ArgProperty::MultiValue { required: true })
}

proof fn lemma_missing_skip(os: Seq<OptionView>, slots: Seq<SlotView>, j: int, k: int)
    requires
        0 <= j <= k <= os.len(),
        slots.len() == os.len(),
        forall|m: int| j <= m < k ==> !must_be_given(#[trigger] os[m]),
        forall|m: int| 0 <= m < os.len() ==> #[trigger] slots[m] == initial_slot(os[m]),
    ensures
        missing_from(os, slots, j) == missing_from(os, slots, k),
    decreases k - j,
{
    if j < k {
        lemma_missing_skip(os, slots, j + 1, k);
    }
}

/// With no tokens at all, the first option that must be given and is a
/// required multi-value option is reported missing, by its long spelling.
pub proof fn empty_input_misses_required_option(s: SchemaView, k: int)
    requires
        0 <= k < s.options.len(),
        s.options[k].property == (ArgProperty::MultiValue { required: true }),
        forall|j: int| 0 <= j < k ==> !must_be_given(#[trigger] s.options[j]),
    ensures
        parse_spec(s, Seq::empty()) == Err::<OutcomeView, ErrorView>(
            ErrorView::MissingRequired(long_of(s.options[k].name)),
        ),
{
    let st = initial(s);
    lemma_missing_skip(s.options, st.options, 0, k);
}

/// With no tokens at all and no option that must be given, a required
/// positional sink is reported missing, by its field name.
pub proof fn empty_input_misses_required_positional(s: SchemaView)
    requires
        forall|j: int| 0 <= j < s.options.len() ==> !must_be_given(#[trigger] s.options[j]),
        s.positional is Some,
        s.positional->0.property == (ArgProperty::Positional { required: true }),
    ensures
        parse_spec(s, Seq::empty()) == Err::<OutcomeView, ErrorView>(
            ErrorView::MissingRequired(s.positional->0.name),
        ),
{
    let st = initial(s);
    lemma_missing_skip(s.options, st.options, 0, s.options.len() as int);
}

/// The characters from position `i` up to the first blank or line break.
pub open spec fn word_from(l: Seq<char>, i: int) -> Seq<char>
    decreases l.len() - i,
{
    if i < 0 || i >= l.len() || l[i] == ' ' || l[i] == '\n' {
        Seq::empty()
    } else {
        seq![l[i]] + word_from(l, i + 1)
    }
}

/// The short letter and the long name that an entry line of the help text
/// shows: `  -c --name ...` or `  --name ...`.
pub open spec fn read_names(line: Seq<char>) -> (Option<char>, Seq<char>) {
    if line.len() > 3 && line[3] != '-' {
        (Some(line[3]), word_from(line, 7))
    } else {
        (None, word_from(line, 4))
    }
}

pub open spec fn blank_free(w: Seq<char>) -> bool {
    forall|i: int| 0 <= i < w.len() ==> (#[trigger] w[i]) != ' ' && w[i] != '\n'
}

proof fn lemma_word(p: Seq<char>, w: Seq<char>, r: Seq<char>)
    requires
        blank_free(w),
        r.len() > 0,
        r[0] == ' ',
    ensures
        word_from(p + w + r, p.len() as int) == w,
    decreases w.len(),
{
    let l = p + w + r;
    if w.len() == 0 {
        assert(l[p.len() as int] == r[0]);
    } else {
        assert(l[p.len() as int] == w[0]);
        let w2 = w.drop_first();
        assert(blank_free(w2)) by {
            assert forall|i: int| 0 <= i < w2.len() implies (#[trigger] w2[i]) != ' ' && w2[i] != '\n' by {
                assert(w2[i] == w[i + 1]);
            }
        }
        assert(l == p.push(w[0]) + w2 + r);
        lemma_word(p.push(w[0]), w2, r);
        assert(seq![w[0]] + w2 == w);
    }
}

proof fn lemma_arg_name_blank_free(name: Seq<char>)
    requires
        blank_free(name),
    ensures
        blank_free(arg_name_of(name)),
{
    assert forall|i: int| 0 <= i < arg_name_of(name).len() implies (#[trigger] arg_name_of(name)[i])
        != ' ' && arg_name_of(name)[i] != '\n' by {
        let c = name[i];
        if 'A' <= c && c <= 'Z' {
            assert(ascii_lower(c) as u32 >= 97);
        }
    }
}

/// Whether an entry can be read back from its help line: a name without
/// blanks, a label that is empty or opens with a blank, and a short letter
/// other than `-`.
pub open spec fn readable(e: EntryView) -> bool {
    &&& blank_free(e.name)
    &&& e.short != Some('-')
    &&& (e.label.len() == 0 || e.label[0] == ' ')
}

/// Reading an entry line of the help text gives back the entry's short letter
/// and long name.
pub proof fn help_line_names(e: EntryView, w: nat)
    requires
        readable(e),
    ensures
        read_names(help_line(e, w)) == (e.short, arg_name_of(e.name)),
{
    let name = arg_name_of(e.name);
    lemma_arg_name_blank_free(e.name);
    let tail = e.label + spaces((w - entry_width(e)) as nat) + "  "@ + join(
        e.doc,
        "\n"@ + spaces((w + LONG_PAD) as nat),
    ) + "\n"@;
    reveal_strlit("  ");
    reveal_strlit("  -");
    reveal_strlit(" --");
    reveal_strlit("  --");
    reveal_strlit("\n");
    assert(tail[0] == ' ') by {
        if e.label.len() == 0 {
            let sp = spaces((w - entry_width(e)) as nat);
            if sp.len() == 0 {
                assert(tail =~= "  "@ + join(e.doc, "\n"@ + spaces((w + LONG_PAD) as nat)) + "\n"@);
            } else {
                assert(tail =~= sp + "  "@ + join(e.doc, "\n"@ + spaces((w + LONG_PAD) as nat)) + "\n"@);
            }
        }
    }
    match e.short {
        Some(c) => {
            let head = "  -"@ + seq![c] + " --"@;
            assert(help_line(e, w) =~= head + name + tail);
            assert(head.len() == 7);
            lemma_word(head, name, tail);
        },
        None => {
            let head = "  --"@;
            assert(help_line(e, w) =~= head + name + tail);
            lemma_word(head, name, tail);
        },
    }
}

/// Each line of the flags and options sections of a schema's help text reads
/// back as the short letter and long name that the schema declares for it:
/// one line per declared argument, none added and none missing.
pub proof fn help_names_round_trip(s: SchemaView, wf: nat, wo: nat)
    requires
        forall|i: int| 0 <= i < s.flags.len() ==> blank_free((#[trigger] s.flags[i]).name) && s.flags[i].short != Some('-'),
        forall|i: int| 0 <= i < s.options.len() ==> blank_free((#[trigger] s.options[i]).name) && s.options[i].short != Some('-'),
    ensures
        forall|i: int|
            0 <= i < flag_entries(s).len() ==> read_names(help_line(#[trigger] flag_entries(s)[i], wf))
                == (flag_entries(s)[i].short, arg_name_of(flag_entries(s)[i].name)),
        forall|i: int|
            0 <= i < option_entries(s).len() ==> read_names(help_line(#[trigger] option_entries(s)[i], wo))
                == (option_entries(s)[i].short, arg_name_of(option_entries(s)[i].name)),
{
    assert forall|i: int| 0 <= i < flag_entries(s).len() implies read_names(
        help_line(#[trigger] flag_entries(s)[i], wf),
    ) == (flag_entries(s)[i].short, arg_name_of(flag_entries(s)[i].name)) by {
        let e = flag_entries(s)[i];
        reveal_strlit("help");
        reveal_strlit("version");
        if i >= 2 {
            assert(e.name == s.flags[i - 2].name);
        } else {
            assert(blank_free(e.name));
        }
        help_line_names(e, wf);
    }
    assert forall|i: int| 0 <= i < option_entries(s).len() implies read_names(
        help_line(#[trigger] option_entries(s)[i], wo),
    ) == (option_entries(s)[i].short, arg_name_of(option_entries(s)[i].name)) by {
        let e = option_entries(s)[i];
        s.options[i].ty_help.lemma_label_len();
        help_line_names(e, wo);
    }
}

/// `tok v0 tok v1 ...`: an option's spelling before each of the values.
pub open spec fn interleave(tok: Seq<u8>, vals: Seq<Seq<u8>>) -> Seq<Seq<u8>> {
    Seq::new(2 * vals.len(), |i: int| if i % 2 == 0 { tok } else { vals[i / 2] })
}

/// The values of `vals` converted for option `o` spelled `t`.
pub open spec fn converted(vals: Seq<Seq<u8>>, o: OptionView, t: Seq<char>) -> Seq<ValueView> {
    vals.map_values(|v: Seq<u8>| convert_spec(v, o.ty_help, t)->Ok_0)
}

/// The conditions under which `tok` selects option `k` of `s`.
pub open spec fn selects_option(s: SchemaView, tok: Seq<u8>, t: Seq<char>, k: int) -> bool {
    &&& token_text(tok) == Some(t)
    &&& t != "--help"@ && t != "-h"@ && t != "--version"@ && t != "-V"@
    &&& first_flag(s.flags, t) is None
    &&& first_option(s.options, t) == Some(k)
    &&& 0 <= k < s.options.len()
}

proof fn lemma_interleave_run(
    s: SchemaView,
    tok: Seq<u8>,
    t: Seq<char>,
    vals: Seq<Seq<u8>>,
    k: int,
    st: ArgsView,
    j: int,
)
    requires
        selects_option(s, tok, t, k),
        forall|i: int| 0 <= i < vals.len() ==> (#[trigger] convert_spec(vals[i], s.options[k].ty_help, t)) is Ok,
        0 <= j <= vals.len(),
        st.options.len() == s.options.len(),
        st.options[k] is Many,
    ensures
        run(s, interleave(tok, vals), 2 * j, st) == finish(
            s,
            ArgsView {
                options: st.options.update(
                    k,
                    SlotView::Many(st.options[k]->Many_0 + converted(vals, s.options[k], t).subrange(j, vals.len() as int)),
                ),
                ..st
            },
        ),
    decreases vals.len() - j,
{
    let toks = interleave(tok, vals);
    let conv = converted(vals, s.options[k], t);
    let xs = st.options[k]->Many_0;
    if j == vals.len() {
        assert(conv.subrange(j, vals.len() as int) =~= Seq::<ValueView>::empty());
        assert(xs + Seq::<ValueView>::empty() =~= xs);
        assert(st.options.update(k, SlotView::Many(xs)) =~= st.options);
    } else {
        assert(toks[2 * j] == tok);
        assert(toks[2 * j + 1] == vals[j]);
        let c = convert_spec(vals[j], s.options[k].ty_help, t)->Ok_0;
        assert(convert_spec(vals[j], s.options[k].ty_help, t) is Ok);
        assert(conv[j] == c);
        let nst = crate::parser::record(st, k, c);
        assert(nst.options[k] == SlotView::Many(xs.push(c)));
        lemma_interleave_run(s, tok, t, vals, k, nst, j + 1);
        assert(xs.push(c) + conv.subrange(j + 1, vals.len() as int) =~= xs + conv.subrange(j, vals.len() as int));
        assert(nst.options.update(k, SlotView::Many(xs.push(c) + conv.subrange(j + 1, vals.len() as int)))
            =~= st.options.update(k, SlotView::Many(xs + conv.subrange(j, vals.len() as int))));
    }
}

/// Repeating a multi-value option collects its values in input order: with
/// `--path /a --path /b`, the option holds `/a` then `/b`.
pub proof fn multi_values_keep_order(s: SchemaView, tok: Seq<u8>, t: Seq<char>, vals: Seq<Seq<u8>>, k: int)
    requires
        selects_option(s, tok, t, k),
        s.options[k].property is MultiValue,
        forall|i: int| 0 <= i < vals.len() ==> (#[trigger] convert_spec(vals[i], s.options[k].ty_help, t)) is Ok,
    ensures
        parse_spec(s, interleave(tok, vals)) == finish(
            s,
            ArgsView {
                options: initial(s).options.update(k, SlotView::Many(converted(vals, s.options[k], t))),
                ..initial(s)
            },
        ),
{
    let st = initial(s);
    assert(st.options[k] == initial_slot(s.options[k]));
    lemma_interleave_run(s, tok, t, vals, k, st, 0);
    assert(Seq::<ValueView>::empty() + converted(vals, s.options[k], t).subrange(0, vals.len() as int)
        =~= converted(vals, s.options[k], t));
}

proof fn lemma_missing_none_when_given(os: Seq<OptionView>, slots: Seq<SlotView>, k: int, j: int)
    requires
        0 <= j <= os.len(),
        0 <= k < os.len(),
        slots.len() == os.len(),
        forall|m: int| 0 <= m < os.len() && m != k ==> !must_be_given(#[trigger] os[m]),
        forall|m: int| 0 <= m < os.len() && m != k ==> #[trigger] slots[m] == initial_slot(os[m]),
        slots[k] is Many,
        slots[k]->Many_0.len() > 0,
    ensures
        missing_from(os, slots, j) is None,
    decreases os.len() - j,
{
    if j < os.len() {
        lemma_missing_none_when_given(os, slots, k, j + 1);
        if j == k {
            assert(slots[k] != SlotView::Many(Seq::empty()));
        }
    }
}

/// A required multi-value option that is given at least once, with values
/// that convert, makes the run succeed with that option non-empty, when
/// nothing else must be given.
pub proof fn required_option_given_succeeds(s: SchemaView, tok: Seq<u8>, t: Seq<char>, vals: Seq<Seq<u8>>, k: int)
    requires
        selects_option(s, tok, t, k),
        s.options[k].property == (ArgProperty::MultiValue { required: true }),
        forall|m: int| 0 <= m < s.options.len() && m != k ==> !must_be_given(#[trigger] s.options[m]),
        s.positional is Some ==> s.positional->0.property != (ArgProperty::Positional { required: true }),
        vals.len() > 0,
        forall|i: int| 0 <= i < vals.len() ==> (#[trigger] convert_spec(vals[i], s.options[k].ty_help, t)) is Ok,
    ensures
        parse_spec(s, interleave(tok, vals)) is Ok,
        parse_spec(s, interleave(tok, vals))->Ok_0 == OutcomeView::Parsed(
            ArgsView {
                options: initial(s).options.update(k, SlotView::Many(converted(vals, s.options[k], t))),
                ..initial(s)
            },
        ),
{
    multi_values_keep_order(s, tok, t, vals, k);
    let st = initial(s);
    let opts = st.options.update(k, SlotView::Many(converted(vals, s.options[k], t)));
    assert forall|m: int| 0 <= m < s.options.len() && m != k implies #[trigger] opts[m] == initial_slot(
        s.options[m],
    ) by {
        assert(opts[m] == st.options[m]);
    }
    lemma_missing_none_when_given(s.options, opts, k, 0);
}

} // verus!
