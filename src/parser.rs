//! The run-time parser: a state machine over the tokens of a command line,
//! driven by a schema.
use crate::derive::Parser;
use crate::error::{CliError, ErrorView};
use crate::schema::{ArgOption, ArgumentStruct, FlagView, OptionView, SchemaView};
use crate::text::{arg_name_of, chars_of, to_arg_name};
use crate::types::{spells, ArgProperty};
use crate::value::{convert, convert_spec, to_text, token_text, Value, ValueView};
use vstd::prelude::*;
use vstd::string::*;

verus! {

/// What one option has collected.
#[derive(Clone, Debug, PartialEq, Eq)]
pub enum Slot {
    /// A scalar option: its value, if it has one.
    Single(Option<Value>),
    /// A multi-value option: its values in input order.
    Many(Vec<Value>),
}

pub enum SlotView {
    Single(Option<ValueView>),
    Many(Seq<ValueView>),
}

impl View for Slot {
    type V = SlotView;

    open spec fn view(&self) -> SlotView {
        match self {
            Slot::Single(v) => SlotView::Single(
                match v {
                    Some(x) => Some(x@),
                    None => None,
                },
            ),
            Slot::Many(vs) => SlotView::Many(vs@.map_values(|x: Value| x@)),
        }
    }
}

/// The populated configuration: one entry per flag and per option of the
/// schema, in schema order, and the positional values in input order.
#[derive(Clone, Debug, PartialEq, Eq)]
pub struct ParsedArgs {
    pub flags: Vec<bool>,
    pub options: Vec<Slot>,
    pub positional: Vec<Value>,
}

pub struct ArgsView {
    pub flags: Seq<bool>,
    pub options: Seq<SlotView>,
    pub positional: Seq<ValueView>,
}

impl View for ParsedArgs {
    type V = ArgsView;

    open spec fn view(&self) -> ArgsView {
        ArgsView {
            flags: self.flags@,
            options: self.options@.map_values(|s: Slot| s@),
            positional: self.positional@.map_values(|x: Value| x@),
        }
    }
}

/// How a run ends: a populated configuration, or a request for the help or
/// the version text (the caller shows it and exits).
#[derive(Clone, Debug, PartialEq, Eq)]
pub enum Outcome {
    Parsed(ParsedArgs),
    Help,
    Version,
}

pub enum OutcomeView {
    Parsed(ArgsView),
    Help,
    Version,
}

impl View for Outcome {
    type V = OutcomeView;

    open spec fn view(&self) -> OutcomeView {
        match self {
            Outcome::Parsed(a) => OutcomeView::Parsed(a@),
            Outcome::Help => OutcomeView::Help,
            Outcome::Version => OutcomeView::Version,
        }
    }
}

pub open spec fn outcome_view(r: Result<Outcome, CliError>) -> Result<OutcomeView, ErrorView> {
    match r {
        Ok(o) => Ok(o@),
        Err(e) => Err(e@),
    }
}

/// The long spelling of a field: `--` and its argument name.
pub open spec fn long_of(name: Seq<char>) -> Seq<char> {
    "--"@ + arg_name_of(name)
}

/// Whether token text `t` spells the argument with this name and short letter.
pub open spec fn spelled(t: Seq<char>, name: Seq<char>, short: Option<char>) -> bool {
    t == long_of(name) || (short is Some && t == seq!['-', short->0])
}

/// The first flag that text `t` spells.
pub open spec fn first_flag(fl: Seq<FlagView>, t: Seq<char>) -> Option<int>
    decreases fl.len(),
{
    if fl.len() == 0 {
        None
    } else if first_flag(fl.drop_last(), t) is Some {
        first_flag(fl.drop_last(), t)
    } else if spelled(t, fl.last().name, fl.last().short) {
        Some(fl.len() - 1)
    } else {
        None
    }
}

/// The first option that text `t` spells.
pub open spec fn first_option(os: Seq<OptionView>, t: Seq<char>) -> Option<int>
    decreases os.len(),
{
    if os.len() == 0 {
        None
    } else if first_option(os.drop_last(), t) is Some {
        first_option(os.drop_last(), t)
    } else if spelled(t, os.last().name, os.last().short) {
        Some(os.len() - 1)
    } else {
        None
    }
}

/// The state before the first token: flags unset, scalar options at their
/// default (or unset), collections empty.
pub open spec fn initial(s: SchemaView) -> ArgsView {
    ArgsView {
        flags: Seq::new(s.flags.len(), |i: int| false),
        options: s.options.map_values(|o: OptionView| initial_slot(o)),
        positional: Seq::empty(),
    }
}

pub open spec fn initial_slot(o: OptionView) -> SlotView {
    if o.property is MultiValue {
        SlotView::Many(Seq::empty())
    } else {
        SlotView::Single(o.default_value)
    }
}

/// Records value `v` for option `k`.
pub open spec fn record(st: ArgsView, k: int, v: ValueView) -> ArgsView {
    ArgsView {
        options: st.options.update(
            k,
            match st.options[k] {
                SlotView::Many(vs) => SlotView::Many(vs.push(v)),
                SlotView::Single(_) => SlotView::Single(Some(v)),
            },
        ),
        ..st
    }
}

/// Converts every token in order; the first failure is the error.
pub open spec fn convert_all(ts: Seq<Seq<u8>>, o: OptionView) -> Result<Seq<ValueView>, ErrorView>
    decreases ts.len(),
{
    if ts.len() == 0 {
        Ok(Seq::empty())
    } else {
        match convert_all(ts.drop_last(), o) {
            Err(e) => Err(e),
            Ok(vs) => match convert_spec(ts.last(), o.ty_help, "<POSITIONAL>"@) {
                Err(e) => Err(e),
                Ok(v) => Ok(vs.push(v)),
            },
        }
    }
}

/// The first mandatory option from `k` on that ended unset or empty.
pub open spec fn missing_from(os: Seq<OptionView>, slots: Seq<SlotView>, k: int) -> Option<
    Seq<char>,
>
    decreases os.len() - k,
{
    if k < 0 || k >= os.len() {
        None
    } else if (os[k].property == ArgProperty::Required && slots[k] == SlotView::Single(None)) || (
    os[k].property == (ArgProperty::MultiValue { required: true }) && slots[k] == SlotView::Many(
        Seq::empty(),
    )) {
        Some(long_of(os[k].name))
    } else {
        missing_from(os, slots, k + 1)
    }
}

/// The end of a run: every mandatory option and a mandatory positional sink
/// must have been given.
pub open spec fn finish(s: SchemaView, st: ArgsView) -> Result<OutcomeView, ErrorView> {
    match missing_from(s.options, st.options, 0) {
        Some(n) => Err(ErrorView::MissingRequired(n)),
        None => match s.positional {
            Some(p) => if p.property == (ArgProperty::Positional { required: true })
                && st.positional.len() == 0 {
                Err(ErrorView::MissingRequired(p.name))
            } else {
                Ok(OutcomeView::Parsed(st))
            },
            None => Ok(OutcomeView::Parsed(st)),
        },
    }
}

/// The run from token `i` on, in state `st`.
pub open spec fn run(s: SchemaView, toks: Seq<Seq<u8>>, i: int, st: ArgsView) -> Result<
    OutcomeView,
    ErrorView,
>
    decreases toks.len() - i,
{
    if i < 0 || i >= toks.len() {
        finish(s, st)
    } else {
        let tok = toks[i];
        let t = token_text(tok);
        if t == Some("--help"@) || t == Some("-h"@) {
            Ok(OutcomeView::Help)
        } else if t == Some("--version"@) || t == Some("-V"@) {
            Ok(OutcomeView::Version)
        } else if t is Some && first_flag(s.flags, t->0) is Some {
            run(s, toks, i + 1, ArgsView { flags: st.flags.update(first_flag(s.flags, t->0)->0, true), ..st })
        } else if t is Some && first_option(s.options, t->0) is Some {
            let k = first_option(s.options, t->0)->0;
            if i + 1 >= toks.len() {
                Err(ErrorView::MissingValue(t->0))
            } else {
                match convert_spec(toks[i + 1], s.options[k].ty_help, t->0) {
                    Err(e) => Err(e),
                    Ok(v) => run(s, toks, i + 2, record(st, k, v)),
                }
            }
        } else if t == Some("--"@) {
            match s.positional {
                None => finish(s, st),
                Some(p) => match convert_all(toks.subrange(i + 1, toks.len() as int), p) {
                    Err(e) => Err(e),
                    Ok(vs) => finish(s, ArgsView { positional: st.positional + vs, ..st }),
                },
            }
        } else {
            match s.positional {
                None => Err(ErrorView::Unknown(tok)),
                Some(p) => match convert_spec(tok, p.ty_help, "<POSITIONAL>"@) {
                    Err(e) => Err(e),
                    Ok(v) => run(s, toks, i + 1, ArgsView { positional: st.positional.push(v), ..st }),
                },
            }
        }
    }
}

/// What parsing `toks` against schema `s` yields.
pub open spec fn parse_spec(s: SchemaView, toks: Seq<Seq<u8>>) -> Result<OutcomeView, ErrorView> {
    run(s, toks, 0, initial(s))
}

proof fn lemma_first_flag_sticks(fl: Seq<FlagView>, t: Seq<char>, j: int, k: int)
    requires
        0 <= j <= k <= fl.len(),
        first_flag(fl.subrange(0, j), t) is Some,
    ensures
        first_flag(fl.subrange(0, k), t) == first_flag(fl.subrange(0, j), t),
    decreases k - j,
{
    if k > j {
        lemma_first_flag_sticks(fl, t, j, k - 1);
        assert(fl.subrange(0, k).drop_last() == fl.subrange(0, k - 1));
    }
}

proof fn lemma_first_option_sticks(os: Seq<OptionView>, t: Seq<char>, j: int, k: int)
    requires
        0 <= j <= k <= os.len(),
        first_option(os.subrange(0, j), t) is Some,
    ensures
        first_option(os.subrange(0, k), t) == first_option(os.subrange(0, j), t),
    decreases k - j,
{
    if k > j {
        lemma_first_option_sticks(os, t, j, k - 1);
        assert(os.subrange(0, k).drop_last() == os.subrange(0, k - 1));
    }
}

/// The long spelling of a field name.
fn long_name(name: &String) -> (r: String)
    ensures
        r@ == long_of(name@),
{
    let mut r = String::from_str("--");
    let a = to_arg_name(name.as_str());
    r.append(a.as_str());
    r
}

/// Whether characters spell `-c`.
fn is_short(t: &Vec<char>, short: Option<char>) -> (r: bool)
    ensures
        r == (short is Some && t@ == seq!['-', short->0]),
{
    match short {
        Some(c) => {
            let r = t.len() == 2 && t[0] == '-' && t[1] == c;
            assert(r ==> t@ =~= seq!['-', c]);
            r
        },
        None => false,
    }
}

/// The long spellings of the flags and of the options of a schema.
struct Spellings {
    flags: Vec<String>,
    options: Vec<String>,
}

spec fn spellings_of(sp: Spellings, s: SchemaView) -> bool {
    &&& sp.flags@.len() == s.flags.len()
    &&& sp.options@.len() == s.options.len()
    &&& forall|k: int| 0 <= k < s.flags.len() ==> (#[trigger] sp.flags@[k])@ == long_of(s.flags[k].name)
    &&& forall|k: int| 0 <= k < s.options.len() ==> (#[trigger] sp.options@[k])@ == long_of(s.options[k].name)
}

fn spellings(s: &ArgumentStruct) -> (r: Spellings)
    ensures
        spellings_of(r, s@),
{
    let mut fl: Vec<String> = Vec::new();
    let mut i: usize = 0;
    while i < s.flags.len()
        invariant
            i <= s.flags@.len(),
            fl@.len() == i,
            forall|k: int| 0 <= k < i ==> (#[trigger] fl@[k])@ == long_of(s@.flags[k].name),
        decreases s.flags@.len() - i,
    {
        fl.push(long_name(&s.flags[i].name));
        assert(s@.flags[i as int] == s.flags@[i as int]@);
        i = i + 1;
    }
    let mut ol: Vec<String> = Vec::new();
    let mut j: usize = 0;
    while j < s.options.len()
        invariant
            j <= s.options@.len(),
            ol@.len() == j,
            forall|k: int| 0 <= k < j ==> (#[trigger] ol@[k])@ == long_of(s@.options[k].name),
        decreases s.options@.len() - j,
    {
        ol.push(long_name(&s.options[j].name));
        assert(s@.options[j as int] == s.options@[j as int]@);
        j = j + 1;
    }
    Spellings { flags: fl, options: ol }
}

fn find_flag(s: &ArgumentStruct, sp: &Spellings, t: &String, tc: &Vec<char>) -> (r: Option<usize>)
    requires
        spellings_of(*sp, s@),
        tc@ == t@,
    ensures
        match r {
            Some(k) => first_flag(s@.flags, t@) == Some(k as int) && k < s@.flags.len(),
            None => first_flag(s@.flags, t@) is None,
        },
{
    let ghost fl = s@.flags;
    let mut j: usize = 0;
    proof {
        assert(fl.subrange(0, 0) =~= Seq::<FlagView>::empty());
    }
    while j < s.flags.len()
        invariant
            j <= fl.len(),
            fl == s@.flags,
            spellings_of(*sp, s@),
            tc@ == t@,
            first_flag(fl.subrange(0, j as int), t@) is None,
        decreases fl.len() - j,
    {
        proof {
            assert(fl.subrange(0, j + 1).drop_last() == fl.subrange(0, j as int));
            assert(fl.subrange(0, j + 1).last() == fl[j as int]);
            assert(fl[j as int] == s.flags@[j as int]@);
        }
        if *t == sp.flags[j] || is_short(tc, s.flags[j].short) {
            proof {
                lemma_first_flag_sticks(fl, t@, j + 1, fl.len() as int);
                assert(fl.subrange(0, fl.len() as int) == fl);
            }
            return Some(j);
        }
        j = j + 1;
    }
    proof {
        assert(fl.subrange(0, fl.len() as int) == fl);
    }
    None
}

fn find_option(s: &ArgumentStruct, sp: &Spellings, t: &String, tc: &Vec<char>) -> (r: Option<usize>)
    requires
        spellings_of(*sp, s@),
        tc@ == t@,
    ensures
        match r {
            Some(k) => first_option(s@.options, t@) == Some(k as int) && k < s@.options.len(),
            None => first_option(s@.options, t@) is None,
        },
{
    let ghost os = s@.options;
    let mut j: usize = 0;
    proof {
        assert(os.subrange(0, 0) =~= Seq::<OptionView>::empty());
    }
    while j < s.options.len()
        invariant
            j <= os.len(),
            os == s@.options,
            spellings_of(*sp, s@),
            tc@ == t@,
            first_option(os.subrange(0, j as int), t@) is None,
        decreases os.len() - j,
    {
        proof {
            assert(os.subrange(0, j + 1).drop_last() == os.subrange(0, j as int));
            assert(os.subrange(0, j + 1).last() == os[j as int]);
            assert(os[j as int] == s.options@[j as int]@);
        }
        if *t == sp.options[j] || is_short(tc, s.options[j].short) {
            proof {
                lemma_first_option_sticks(os, t@, j + 1, os.len() as int);
                assert(os.subrange(0, os.len() as int) == os);
            }
            return Some(j);
        }
        j = j + 1;
    }
    proof {
        assert(os.subrange(0, os.len() as int) == os);
    }
    None
}

fn initial_state(s: &ArgumentStruct) -> (r: ParsedArgs)
    ensures
        r@ == initial(s@),
        r.flags@.len() == s.flags@.len(),
        r.options@.len() == s.options@.len(),
{
    let mut flags: Vec<bool> = Vec::new();
    let mut i: usize = 0;
    while i < s.flags.len()
        invariant
            i <= s.flags@.len(),
            flags@ =~= Seq::new(i as nat, |k: int| false),
        decreases s.flags@.len() - i,
    {
        flags.push(false);
        i = i + 1;
    }
    let mut options: Vec<Slot> = Vec::new();
    let mut j: usize = 0;
    while j < s.options.len()
        invariant
            j <= s.options@.len(),
            options@.map_values(|x: Slot| x@) =~= s@.options.subrange(0, j as int).map_values(
                |o: OptionView| initial_slot(o),
            ),
        decreases s.options@.len() - j,
    {
        let o = &s.options[j];
        proof {
            assert(s@.options[j as int] == o@);
        }
        let slot = match o.property {
            ArgProperty::MultiValue { .. } => {
                let e: Vec<Value> = Vec::new();
                assert(e@.map_values(|x: Value| x@) =~= Seq::<ValueView>::empty());
                Slot::Many(e)
            },
            _ => Slot::Single(
                match &o.default_value {
                    Some(v) => Some(v.clone_value()),
                    None => None,
                },
            ),
        };
        assert(slot@ == initial_slot(o@)) by {
            if slot is Many {
                assert(slot@ == SlotView::Many(Seq::<ValueView>::empty()));
            }
        }
        let ghost before = options@;
        options.push(slot);
        proof {
            assert(options@.map_values(|x: Slot| x@) =~= before.map_values(|x: Slot| x@).push(
                slot@,
            ));
            assert(s@.options.subrange(0, j + 1) == s@.options.subrange(0, j as int).push(o@));
        }
        j = j + 1;
    }
    proof {
        assert(s@.options.subrange(0, s.options@.len() as int) == s@.options);
    }
    let r = ParsedArgs { flags, options, positional: Vec::new() };
    assert(r@.positional =~= Seq::<ValueView>::empty());
    r
}

/// Records value `v` for option `k`.
fn record_value(st: &mut ParsedArgs, k: usize, v: Value)
    requires
        k < old(st).options@.len(),
    ensures
        final(st)@ == record(old(st)@, k as int, v@),
        final(st).options@.len() == old(st).options@.len(),
{
    let ghost s0 = st@;
    let mut slot = Slot::Single(None);
    st.options.set_and_swap(k, &mut slot);
    let ghost taken = slot@;
    assert(taken == s0.options[k as int]);
    let new_slot = match slot {
        Slot::Many(vs) => {
            let mut vs = vs;
            let ghost before = vs@;
            vs.push(v);
            assert(vs@.map_values(|x: Value| x@) =~= before.map_values(|x: Value| x@).push(v@));
            Slot::Many(vs)
        },
        Slot::Single(_) => Slot::Single(Some(v)),
    };
    st.options.set(k, new_slot);
    proof {
        assert(st@.options =~= s0.options.update(
            k as int,
            match s0.options[k as int] {
                SlotView::Many(vs) => SlotView::Many(vs.push(v@)),
                SlotView::Single(_) => SlotView::Single(Some(v@)),
            },
        ));
    }
}

proof fn lemma_convert_all_err_sticks(ts: Seq<Seq<u8>>, o: OptionView, k: int)
    requires
        0 <= k <= ts.len(),
        convert_all(ts.subrange(0, k), o) is Err,
    ensures
        convert_all(ts, o) == convert_all(ts.subrange(0, k), o),
    decreases ts.len() - k,
{
    if k < ts.len() {
        assert(ts.subrange(0, k + 1).drop_last() == ts.subrange(0, k));
        lemma_convert_all_err_sticks(ts, o, k + 1);
    } else {
        assert(ts.subrange(0, k) == ts);
    }
}

/// Converts every token from position `from` on for the positional sink `p`.
fn convert_rest(toks: &Vec<Vec<u8>>, from: usize, p: &ArgOption) -> (r: Result<Vec<Value>, CliError>)
    requires
        from <= toks@.len(),
    ensures
        match r {
            Ok(vs) => convert_all(toks.deep_view().subrange(from as int, toks@.len() as int), p@)
                == Ok::<Seq<ValueView>, ErrorView>(vs@.map_values(|x: Value| x@)),
            Err(e) => convert_all(toks.deep_view().subrange(from as int, toks@.len() as int), p@)
                == Err::<Seq<ValueView>, ErrorView>(e@),
        },
{
    let ghost ts = toks.deep_view().subrange(from as int, toks@.len() as int);
    let pos = String::from_str("<POSITIONAL>");
    let mut vs: Vec<Value> = Vec::new();
    let mut j: usize = from;
    proof {
        assert(ts.subrange(0, 0) =~= Seq::<Seq<u8>>::empty());
        assert(vs@.map_values(|x: Value| x@) =~= Seq::<ValueView>::empty());
    }
    while j < toks.len()
        invariant
            from <= j <= toks@.len(),
            ts == toks.deep_view().subrange(from as int, toks@.len() as int),
            pos@ == "<POSITIONAL>"@,
            convert_all(ts.subrange(0, j - from), p@) == Ok::<Seq<ValueView>, ErrorView>(
                vs@.map_values(|x: Value| x@),
            ),
        decreases toks@.len() - j,
    {
        proof {
            assert(ts.subrange(0, j - from + 1).drop_last() == ts.subrange(0, j - from));
            assert(ts.subrange(0, j - from + 1).last() == toks[j as int]@);
        }
        match convert(&toks[j], p.ty_help, &pos) {
            Err(e) => {
                proof {
                    lemma_convert_all_err_sticks(ts, p@, j - from + 1);
                }
                return Err(e);
            },
            Ok(v) => {
                let ghost before = vs@;
                vs.push(v);
                assert(vs@.map_values(|x: Value| x@) =~= before.map_values(|x: Value| x@).push(
                    v@,
                ));
            },
        }
        j = j + 1;
    }
    proof {
        assert(ts.subrange(0, ts.len() as int) == ts);
    }
    Ok(vs)
}

/// Ends a run: checks mandatory arguments and hands back the configuration.
fn finish_run(s: &ArgumentStruct, st: ParsedArgs) -> (r: Result<Outcome, CliError>)
    requires
        st.options@.len() == s.options@.len(),
    ensures
        outcome_view(r) == finish(s@, st@),
{
    let ghost os = s@.options;
    let ghost slots = st@.options;
    let mut k: usize = 0;
    while k < s.options.len()
        invariant
            k <= s.options@.len(),
            os == s@.options,
            slots == st@.options,
            st.options@.len() == s.options@.len(),
            missing_from(os, slots, 0) == missing_from(os, slots, k as int),
        decreases s.options@.len() - k,
    {
        let o = &s.options[k];
        proof {
            assert(os[k as int] == o@);
            assert(slots[k as int] == st.options@[k as int]@);
        }
        let unset = match &st.options[k] {
            Slot::Single(v) => o.property == ArgProperty::Required && v.is_none(),
            Slot::Many(vs) => o.property == (ArgProperty::MultiValue { required: true }) && vs.len()
                == 0,
        };
        proof {
            match st.options@[k as int] {
                Slot::Many(vs) => {
                    if vs.len() == 0 {
                        assert(vs@.map_values(|x: Value| x@) =~= Seq::<ValueView>::empty());
                    } else {
                        assert(vs@.map_values(|x: Value| x@).len() > 0);
                    }
                },
                _ => {},
            }
        }
        if unset {
            return Err(CliError::MissingRequired(long_name(&o.name)));
        }
        k = k + 1;
    }
    match &s.positional {
        Some(p) => {
            if p.property == (ArgProperty::Positional { required: true }) && st.positional.len() == 0 {
                return Err(CliError::MissingRequired(p.name.clone()));
            }
        },
        None => {},
    }
    Ok(Outcome::Parsed(st))
}

impl ArgumentStruct {
    /// Parses the tokens of a command line against this schema.
    pub fn parse_args(&self, toks: &Vec<Vec<u8>>) -> (r: Result<Outcome, CliError>)
        ensures
            outcome_view(r) == parse_spec(self@, toks.deep_view()),
    {
        let ghost s = self@;
        let ghost ts = toks.deep_view();
        let sp = spellings(self);
        let mut st = initial_state(self);
        let mut i: usize = 0;
        while i < toks.len()
            invariant
                i <= toks@.len(),
                s == self@,
                ts == toks.deep_view(),
                spellings_of(sp, s),
                st.flags@.len() == s.flags.len(),
                st.options@.len() == s.options.len(),
                parse_spec(s, ts) == run(s, ts, i as int, st@),
            decreases toks@.len() - i,
        {
            let tok = &toks[i];
            assert(ts[i as int] == tok@);
            let text = to_text(tok);
            match &text {
                Some(t) => {
                    let tc = chars_of(t.as_str());
                    if spells(tc.as_slice(), "--help") || spells(tc.as_slice(), "-h") {
                        return Ok(Outcome::Help);
                    }
                    if spells(tc.as_slice(), "--version") || spells(tc.as_slice(), "-V") {
                        return Ok(Outcome::Version);
                    }
                    if let Some(k) = find_flag(self, &sp, t, &tc) {
                        st.flags.set(k, true);
                        i = i + 1;
                        continue;
                    }
                    if let Some(k) = find_option(self, &sp, t, &tc) {
                        if i + 1 >= toks.len() {
                            return Err(CliError::MissingValue(t.clone()));
                        }
                        assert(ts[i + 1] == toks[i + 1]@);
                        let o = &self.options[k];
                        assert(s.options[k as int] == o@);
                        match convert(&toks[i + 1], o.ty_help, t) {
                            Err(e) => {
                                return Err(e);
                            },
                            Ok(v) => {
                                record_value(&mut st, k, v);
                            },
                        }
                        i = i + 2;
                        continue;
                    }
                    if spells(tc.as_slice(), "--") {
                        match &self.positional {
                            None => {
                                return finish_run(self, st);
                            },
                            Some(p) => {
                                match convert_rest(toks, i + 1, p) {
                                    Err(e) => {
                                        return Err(e);
                                    },
                                    Ok(vs) => {
                                        let ghost before = st@;
                                        let mut vs = vs;
                                        let ghost added = vs@.map_values(|x: Value| x@);
                                        st.positional.append(&mut vs);
                                        assert(st@.positional =~= before.positional + added);
                                        return finish_run(self, st);
                                    },
                                }
                            },
                        }
                    }
                },
                None => {},
            }
            match &self.positional {
                None => {
                    return Err(CliError::Unknown(tok.clone()));
                },
                Some(p) => {
                    let pos = String::from_str("<POSITIONAL>");
                    match convert(tok, p.ty_help, &pos) {
                        Err(e) => {
                            return Err(e);
                        },
                        Ok(v) => {
                            let ghost before = st@;
                            st.positional.push(v);
                            assert(st@.positional =~= before.positional.push(v@));
                        },
                    }
                },
            }
            i = i + 1;
        }
        finish_run(self, st)
    }
}

impl ArgumentStruct {
    /// The position of the flag declared by field `name`.
    pub fn flag_index(&self, name: &String) -> (r: Option<usize>)
        ensures
            match r {
                Some(k) => k < self.flags@.len() && self.flags@[k as int].name@ == name@ && forall|j: int|
                    0 <= j < k ==> (#[trigger] self.flags@[j]).name@ != name@,
                None => forall|j: int| 0 <= j < self.flags@.len() ==> (#[trigger] self.flags@[j]).name@ != name@,
            },
    {
        let mut i: usize = 0;
        while i < self.flags.len()
            invariant
                i <= self.flags@.len(),
                forall|j: int| 0 <= j < i ==> (#[trigger] self.flags@[j]).name@ != name@,
            decreases self.flags@.len() - i,
        {
            if self.flags[i].name == *name {
                return Some(i);
            }
            i = i + 1;
        }
        None
    }

    /// The position of the option declared by field `name`.
    pub fn option_index(&self, name: &String) -> (r: Option<usize>)
        ensures
            match r {
                Some(k) => k < self.options@.len() && self.options@[k as int].name@ == name@ && forall|j: int|
                    0 <= j < k ==> (#[trigger] self.options@[j]).name@ != name@,
                None => forall|j: int| 0 <= j < self.options@.len() ==> (#[trigger] self.options@[j]).name@ != name@,
            },
    {
        let mut i: usize = 0;
        while i < self.options.len()
            invariant
                i <= self.options@.len(),
                forall|j: int| 0 <= j < i ==> (#[trigger] self.options@[j]).name@ != name@,
            decreases self.options@.len() - i,
        {
            if self.options[i].name == *name {
                return Some(i);
            }
            i = i + 1;
        }
        None
    }
}

impl Parser {
    /// Parses the tokens of a command line (the program's own path excluded).
    pub fn parse(&self, toks: &Vec<Vec<u8>>) -> (r: Result<Outcome, CliError>)
        ensures
            outcome_view(r) == parse_spec(self.schema@, toks.deep_view()),
    {
        self.schema.parse_args(toks)
    }
}

} // verus!
