use onlyargs::derive::{derive_parser, AppInfo, Parser};
use onlyargs::error::{CliError, IntErrorKind};
use onlyargs::parser::{Outcome, ParsedArgs, Slot};
use onlyargs::schema::{FieldAttr, FieldDecl, SchemaError, StructDecl};
use onlyargs::text::{infer_short, to_arg_name, trim_with_indent};
use onlyargs::traits::{ArgExt, RequiredArgExt};
use onlyargs::types::{classify, ArgProperty, ArgType, IntWidth};
use onlyargs::value::Value;

fn field(name: &str, ty: &str, attrs: Vec<FieldAttr>) -> FieldDecl {
    FieldDecl {
        name: name.to_string(),
        ty: ty.to_string(),
        attrs,
    }
}

fn doc(line: &str) -> FieldAttr {
    FieldAttr::Doc(line.to_string())
}

fn app() -> AppInfo {
    AppInfo {
        name: "prog".to_string(),
        version: "1.0".to_string(),
        description: "Desc".to_string(),
        bin_name: "prog".to_string(),
    }
}

fn try_build(fields: Vec<FieldDecl>) -> Result<Parser, SchemaError> {
    let decl = StructDecl {
        name: "Args".to_string(),
        doc: vec![],
        fields,
    };
    derive_parser(&decl, &app())
}

fn build(fields: Vec<FieldDecl>) -> Parser {
    try_build(fields).expect("schema builds")
}

fn toks(args: &[&str]) -> Vec<Vec<u8>> {
    args.iter().map(|a| a.as_bytes().to_vec()).collect()
}

fn run(p: &Parser, args: &[&str]) -> Result<Outcome, CliError> {
    p.parse(&toks(args))
}

fn parsed(p: &Parser, args: &[&str]) -> Result<ParsedArgs, CliError> {
    match run(p, args)? {
        Outcome::Parsed(a) => Ok(a),
        other => panic!("unexpected outcome {other:?}"),
    }
}

fn one(p: &Parser, ty: &str, value: &str) -> Result<Option<Value>, CliError> {
    let _ = ty;
    let a = parsed(p, &["--value", value])?;
    match &a.options[0] {
        Slot::Single(v) => Ok(v.clone()),
        Slot::Many(_) => panic!("not a scalar"),
    }
}

fn scalar(ty: &str) -> Parser {
    build(vec![field("value", ty, vec![])])
}

#[test]
fn help_text_is_aligned_per_section() {
    let decl = StructDecl {
        name: "Args".to_string(),
        doc: vec![" A test.  ".to_string()],
        fields: vec![
            field("verbose", "bool", vec![doc(" Verbose.")]),
            field("opt_str", "Option<String>", vec![doc(" Name.")]),
        ],
    };
    let p = derive_parser(&decl, &app()).unwrap();
    let expected = "prog v1.0\nDesc\n\nA test.\n\nUsage:\n  prog [flags] [options]\n\nFlags:\n  -h --help     Show this help message.\n  -V --version  Show the application version.\n  -v --verbose  Verbose.\n\nOptions:\n  -o --opt-str STRING  Name.\n\n";
    assert_eq!(p.help, expected);
    assert_eq!(p.version, "prog v1.0\n");
}

#[test]
fn help_text_shows_notes_and_positional_section() {
    let p = build(vec![
        field("size", "u16", vec![doc("Size."), FieldAttr::Default(vec!["8080".to_string()])]),
        field("name", "String", vec![FieldAttr::Long]),
        field(
            "rest",
            "Vec<PathBuf>",
            vec![doc("Inputs."), doc("More inputs."), FieldAttr::Positional, FieldAttr::Required],
        ),
    ]);
    let expected = "prog v1.0\nDesc\n\nUsage:\n  prog [flags] [options] [rest...]\n\nFlags:\n  -h --help     Show this help message.\n  -V --version  Show the application version.\n\nOptions:\n  -s --size NUMBER  Size. [default: 8080]\n  --name STRING     [required]\n\nrest:\n  Inputs.\n  More inputs. [required]\n";
    assert_eq!(p.help, expected);
}

#[test]
fn multi_line_doc_continues_under_help_column() {
    let p = build(vec![field("quiet", "bool", vec![doc("One."), doc("Two.")])]);
    let expected_line = "  -q --quiet    One.\n                Two.\n";
    assert!(p.help.contains(expected_line), "{}", p.help);
}

#[test]
fn help_lines_carry_declared_names() {
    let p = build(vec![
        field("dry_run", "bool", vec![]),
        field("Out_Dir", "Option<PathBuf>", vec![FieldAttr::Short("'x'".to_string())]),
        field("level", "Option<u8>", vec![FieldAttr::Long]),
    ]);
    assert!(p.help.contains("  -d --dry-run  "));
    assert!(p.help.contains("  -x --out-dir PATH  "));
    assert!(p.help.contains("  --level NUMBER  "));
}

#[test]
fn short_collision_between_fields_is_rejected() {
    let r = try_build(vec![
        field("verbose", "bool", vec![]),
        field("value", "Option<u8>", vec![]),
    ]);
    assert_eq!(
        r.unwrap_err(),
        SchemaError::DuplicateShort("value".to_string(), 'v', "verbose".to_string())
    );
}

#[test]
fn short_collision_with_builtin_is_rejected() {
    let r = try_build(vec![field("host", "String", vec![])]);
    assert_eq!(
        r.unwrap_err(),
        SchemaError::DuplicateShort("host".to_string(), 'h', "help".to_string())
    );
    let r = try_build(vec![field("x", "bool", vec![FieldAttr::Short("'V'".to_string())])]);
    assert_eq!(
        r.unwrap_err(),
        SchemaError::DuplicateShort("x".to_string(), 'V', "version".to_string())
    );
    assert!(try_build(vec![field("host", "String", vec![FieldAttr::Long])]).is_ok());
}

#[test]
fn attribute_errors_name_the_field() {
    let cases = vec![
        (field("a", "Option<u8>", vec![FieldAttr::Default(vec!["1".to_string()])]), SchemaError::DefaultNotAllowed("a".to_string())),
        (field("a", "String", vec![FieldAttr::Required]), SchemaError::RequiredNotAllowed("a".to_string())),
        (field("a", "bool", vec![FieldAttr::Required]), SchemaError::RequiredNotAllowed("a".to_string())),
        (field("a", "Option<u8>", vec![FieldAttr::Positional]), SchemaError::PositionalNotAllowed("a".to_string())),
        (field("a", "bool", vec![FieldAttr::Positional]), SchemaError::PositionalNotAllowed("a".to_string())),
        (field("a", "Vec<bool>", vec![]), SchemaError::UnsupportedType("a".to_string())),
        (field("a", "Option<Option<u8>>", vec![]), SchemaError::UnsupportedType("a".to_string())),
        (field("a", "u8", vec![FieldAttr::Default(vec!["1".to_string(), "2".to_string()])]), SchemaError::DefaultArity("a".to_string())),
        (field("a", "u8", vec![FieldAttr::Default(vec!["foo".to_string()])]), SchemaError::UnexpectedIdentifier("a".to_string())),
        (field("a", "u8", vec![FieldAttr::Default(vec!["300".to_string()])]), SchemaError::InvalidDefault("a".to_string())),
        (field("a", "u8", vec![FieldAttr::Short("'ab'".to_string())]), SchemaError::InvalidShort("a".to_string())),
    ];
    for (f, e) in cases {
        assert_eq!(try_build(vec![f]).unwrap_err(), e);
    }
}

#[test]
fn second_positional_is_rejected() {
    let r = try_build(vec![
        field("a", "Vec<String>", vec![FieldAttr::Positional]),
        field("b", "Vec<String>", vec![FieldAttr::Positional]),
    ]);
    assert_eq!(r.unwrap_err(), SchemaError::DuplicatePositional("b".to_string()));
}

#[test]
fn defaults_seed_the_option() {
    let p = build(vec![
        field("size", "u16", vec![FieldAttr::Default(vec!["8080".to_string()])]),
        field("name", "String", vec![FieldAttr::Default(vec!["\"anon\"".to_string()])]),
        field("mode", "String", vec![FieldAttr::Default(vec!["true".to_string()])]),
    ]);
    let a = parsed(&p, &[]).unwrap();
    assert_eq!(a.options[0], Slot::Single(Some(Value::Unsigned(8080))));
    assert_eq!(a.options[1], Slot::Single(Some(Value::Str("anon".to_string()))));
    assert_eq!(a.options[2], Slot::Single(Some(Value::Str("true".to_string()))));
    let a = parsed(&p, &["--size", "1", "-n", "bob"]).unwrap();
    assert_eq!(a.options[0], Slot::Single(Some(Value::Unsigned(1))));
    assert_eq!(a.options[1], Slot::Single(Some(Value::Str("bob".to_string()))));
}

#[test]
fn required_scalar_without_value_is_missing() {
    let p = build(vec![field("out_file", "PathBuf", vec![])]);
    assert_eq!(
        parsed(&p, &[]).unwrap_err(),
        CliError::MissingRequired("--out-file".to_string())
    );
}

#[test]
fn option_at_end_misses_its_value() {
    let p = build(vec![field("size", "u16", vec![])]);
    assert_eq!(
        parsed(&p, &["-s"]).unwrap_err(),
        CliError::MissingValue("-s".to_string())
    );
    assert_eq!(
        parsed(&p, &["--size"]).unwrap_err(),
        CliError::MissingValue("--size".to_string())
    );
}

#[test]
fn unknown_token_without_sink() {
    let p = build(vec![field("verbose", "bool", vec![])]);
    assert_eq!(
        parsed(&p, &["-v", "--nope", "x"]).unwrap_err(),
        CliError::Unknown(b"--nope".to_vec())
    );
    assert_eq!(
        parsed(&p, &[]).unwrap().flags,
        vec![false]
    );
    assert_eq!(parsed(&p, &["--verbose"]).unwrap().flags, vec![true]);
}

#[test]
fn escape_without_sink_stops_parsing() {
    let p = build(vec![field("verbose", "bool", vec![])]);
    let a = parsed(&p, &["--", "--nope", "-v"]).unwrap();
    assert_eq!(a.flags, vec![false]);
}

#[test]
fn help_and_version_end_the_run() {
    let p = build(vec![field("size", "u16", vec![])]);
    assert_eq!(run(&p, &["-h"]).unwrap(), Outcome::Help);
    assert_eq!(run(&p, &["--help", "--bogus"]).unwrap(), Outcome::Help);
    assert_eq!(run(&p, &["--version"]).unwrap(), Outcome::Version);
    assert_eq!(run(&p, &["-V"]).unwrap(), Outcome::Version);
}

#[test]
fn integers_follow_width_and_sign() {
    let p = scalar("i8");
    assert_eq!(one(&p, "i8", "-128").unwrap(), Some(Value::Signed(-128)));
    assert_eq!(one(&p, "i8", "+127").unwrap(), Some(Value::Signed(127)));
    assert_eq!(
        one(&p, "i8", "128").unwrap_err(),
        CliError::ParseIntError("--value".to_string(), b"128".to_vec(), IntErrorKind::PosOverflow)
    );
    assert_eq!(
        one(&p, "i8", "-129").unwrap_err(),
        CliError::ParseIntError("--value".to_string(), b"-129".to_vec(), IntErrorKind::NegOverflow)
    );
    assert_eq!(
        one(&p, "i8", "").unwrap_err(),
        CliError::ParseIntError("--value".to_string(), b"".to_vec(), IntErrorKind::Empty)
    );
    assert_eq!(
        one(&p, "i8", "1x").unwrap_err(),
        CliError::ParseIntError("--value".to_string(), b"1x".to_vec(), IntErrorKind::InvalidDigit)
    );
    let p = scalar("u8");
    assert_eq!(one(&p, "u8", "255").unwrap(), Some(Value::Unsigned(255)));
    assert_eq!(
        one(&p, "u8", "-1").unwrap_err(),
        CliError::ParseIntError("--value".to_string(), b"-1".to_vec(), IntErrorKind::InvalidDigit)
    );
    let p = scalar("u128");
    assert_eq!(
        one(&p, "u128", "340282366920938463463374607431768211455").unwrap(),
        Some(Value::Unsigned(u128::MAX))
    );
    assert_eq!(
        one(&p, "u128", "340282366920938463463374607431768211456").unwrap_err(),
        CliError::ParseIntError(
            "--value".to_string(),
            b"340282366920938463463374607431768211456".to_vec(),
            IntErrorKind::PosOverflow
        )
    );
    let p = scalar("i128");
    assert_eq!(
        one(&p, "i128", "-170141183460469231731687303715884105728").unwrap(),
        Some(Value::Signed(i128::MIN))
    );
}

#[test]
fn floats_follow_the_number_grammar() {
    let p = scalar("f64");
    for ok in ["1.5e3", "inf", "-Infinity", "NaN", ".5", "5.", "+7", "1E-2"] {
        assert_eq!(one(&p, "f64", ok).unwrap(), Some(Value::Float(ok.to_string())), "{ok}");
        assert!(ok.parse::<f64>().is_ok());
    }
    for bad in ["", "e5", "1e", ".", "1.2.3", "infx", "1e+"] {
        assert_eq!(
            one(&p, "f64", bad).unwrap_err(),
            CliError::ParseFloatError("--value".to_string(), bad.as_bytes().to_vec()),
            "{bad}"
        );
        assert!(bad.parse::<f64>().is_err());
    }
}

#[test]
fn invalid_utf8_fails_only_where_text_is_needed() {
    let bad = vec![b'a', 0xff];
    let p = scalar("String");
    let r = p.parse(&vec![b"--value".to_vec(), bad.clone()]);
    assert_eq!(
        r.unwrap_err(),
        CliError::ParseStrError("--value".to_string(), bad.clone())
    );
    let p = scalar("PathBuf");
    let r = p.parse(&vec![b"--value".to_vec(), bad.clone()]).unwrap();
    match r {
        Outcome::Parsed(a) => assert_eq!(a.options[0], Slot::Single(Some(Value::Path(bad.clone())))),
        _ => panic!(),
    }
    let p = scalar("OsString");
    let r = p.parse(&vec![b"-v".to_vec(), bad.clone()]).unwrap();
    match r {
        Outcome::Parsed(a) => assert_eq!(a.options[0], Slot::Single(Some(Value::Os(bad)))),
        _ => panic!(),
    }
}

#[test]
fn positional_conversion_failure_fails_the_run() {
    let p = build(vec![field("nums", "Vec<u8>", vec![FieldAttr::Positional])]);
    assert_eq!(
        parsed(&p, &["1", "x"]).unwrap_err(),
        CliError::ParseIntError("<POSITIONAL>".to_string(), b"x".to_vec(), IntErrorKind::InvalidDigit)
    );
    assert_eq!(
        parsed(&p, &["--", "1", "2", "300", "x"]).unwrap_err(),
        CliError::ParseIntError("<POSITIONAL>".to_string(), b"300".to_vec(), IntErrorKind::PosOverflow)
    );
    let a = parsed(&p, &["1", "--", "2", "-h"]);
    assert_eq!(
        a.unwrap_err(),
        CliError::ParseIntError("<POSITIONAL>".to_string(), b"-h".to_vec(), IntErrorKind::InvalidDigit)
    );
    let a = parsed(&p, &["1", "--", "2", "3"]).unwrap();
    assert_eq!(a.positional, vec![Value::Unsigned(1), Value::Unsigned(2), Value::Unsigned(3)]);
}

#[test]
fn repeated_values_keep_input_order() {
    let p = build(vec![field("path", "Vec<PathBuf>", vec![])]);
    let a = parsed(&p, &["--path", "/a", "-p", "/b"]).unwrap();
    assert_eq!(
        a.options[0],
        Slot::Many(vec![Value::Path(b"/a".to_vec()), Value::Path(b"/b".to_vec())])
    );
}

#[test]
fn scalar_option_keeps_last_value() {
    let p = build(vec![field("level", "Option<u8>", vec![])]);
    let a = parsed(&p, &["-l", "1", "--level", "2"]).unwrap();
    assert_eq!(a.options[0], Slot::Single(Some(Value::Unsigned(2))));
}

#[test]
fn parsing_twice_gives_the_same_result() {
    let p = build(vec![
        field("names", "Vec<String>", vec![]),
        field("rest", "Vec<String>", vec![FieldAttr::Positional]),
    ]);
    let input = ["x", "--names", "a", "--", "--names"];
    assert_eq!(run(&p, &input), run(&p, &input));
    let p = build(vec![field("n", "u8", vec![])]);
    assert_eq!(run(&p, &["-n", "999"]), run(&p, &["-n", "999"]));
}

#[test]
fn positional_capture_after_escape() {
    let p = build(vec![
        field("opt_str", "Option<String>", vec![]),
        field("rest", "Vec<String>", vec![FieldAttr::Positional]),
    ]);
    let a = parsed(&p, &["Alice", "--", "--opt-str", "--name", "Bob"]).unwrap();
    assert_eq!(a.options[0], Slot::Single(None));
    assert_eq!(
        a.positional,
        vec![
            Value::Str("Alice".to_string()),
            Value::Str("--opt-str".to_string()),
            Value::Str("--name".to_string()),
            Value::Str("Bob".to_string()),
        ]
    );
}

#[test]
fn option_may_take_flag_like_value() {
    let p = build(vec![
        field("opt_str", "Option<String>", vec![]),
        field("rest", "Vec<String>", vec![FieldAttr::Positional]),
    ]);
    let a = parsed(&p, &["Alice", "--opt-str", "--name", "Bob"]).unwrap();
    assert_eq!(a.options[0], Slot::Single(Some(Value::Str("--name".to_string()))));
    assert_eq!(
        a.positional,
        vec![Value::Str("Alice".to_string()), Value::Str("Bob".to_string())]
    );
}

#[test]
fn lookup_by_field_name() {
    let p = build(vec![
        field("verbose", "bool", vec![]),
        field("out", "Option<PathBuf>", vec![]),
    ]);
    assert_eq!(p.schema.flag_index(&"verbose".to_string()), Some(0));
    assert_eq!(p.schema.option_index(&"out".to_string()), Some(0));
    assert_eq!(p.schema.option_index(&"verbose".to_string()), None);
}

#[test]
fn names_and_doc_lines() {
    assert_eq!(to_arg_name("Opt_Str_2"), "opt-str-2");
    assert_eq!(infer_short("_9Xy"), Some('x'));
    assert_eq!(infer_short("_9"), None);
    assert_eq!(trim_with_indent(" hello \t "), "hello");
    assert_eq!(trim_with_indent("  two"), " two");
}

#[test]
fn type_spellings() {
    assert_eq!(classify("std::path::PathBuf"), Some((ArgProperty::Required, ArgType::Path)));
    assert_eq!(classify("Option<ffi::OsString>"), Some((ArgProperty::Optional, ArgType::OsString)));
    assert_eq!(
        classify("Vec<usize>"),
        Some((ArgProperty::MultiValue { required: false }, ArgType::Integer(IntWidth::Usize)))
    );
    assert_eq!(classify("Option<f32>"), Some((ArgProperty::Optional, ArgType::Float)));
    assert_eq!(classify("std::string::String"), None);
    assert_eq!(classify("Box<u8>"), None);
    assert_eq!(classify("bool"), None);
}

#[test]
fn argument_extensions() {
    let name = "--x".to_string();
    assert_eq!(None::<Vec<u8>>.parse_str(&name), Err(CliError::MissingValue(name.clone())));
    assert_eq!(Some(b"hi".to_vec()).parse_str(&name), Ok("hi".to_string()));
    assert_eq!(vec![0xffu8].parse_str(&name), Err(CliError::ParseStrError(name.clone(), vec![0xff])));
    assert_eq!(vec![0xffu8].parse_osstr(&name), Ok(vec![0xff]));
    assert_eq!(Some(b"42".to_vec()).parse_int(&name, IntWidth::U16), Ok(Value::Unsigned(42)));
    assert_eq!(b"4.2".to_vec().parse_float(&name), Ok(Value::Float("4.2".to_string())));
    assert_eq!(None::<u8>.required(&name), Err(CliError::MissingRequired(name.clone())));
    assert_eq!(Some(3u8).required(&name), Ok(3));
    assert_eq!(Vec::<u8>::new().required(&name), Err(CliError::MissingRequired(name.clone())));
    assert_eq!(vec![1u8].required(&name), Ok(vec![1]));
}


#[test]
fn short_collision_follows_declaration_order() {
    let r = try_build(vec![
        field("value", "u32", vec![]),
        field("verbose", "bool", vec![]),
    ]);
    assert_eq!(
        r.unwrap_err(),
        SchemaError::DuplicateShort("verbose".to_string(), 'v', "value".to_string())
    );
}

#[test]
fn explicit_short_survives_long() {
    let p = build(vec![field(
        "level",
        "Option<u8>",
        vec![FieldAttr::Long, FieldAttr::Short("'x'".to_string())],
    )]);
    assert_eq!(p.schema.options[0].short, Some('x'));
    assert!(p.help.contains("  -x --level NUMBER  "));
    let a = parsed(&p, &["-x", "3"]).unwrap();
    assert_eq!(a.options[0], Slot::Single(Some(Value::Unsigned(3))));
}

#[test]
fn numeric_options_are_labelled_number() {
    assert_eq!(ArgType::Float.as_str(), " NUMBER");
    assert_eq!(ArgType::Integer(IntWidth::I32).as_str(), " NUMBER");
    assert_eq!(ArgType::String.as_str(), " STRING");
    assert_eq!(ArgType::OsString.as_str(), " STRING");
    assert_eq!(ArgType::Path.as_str(), " PATH");
}

#[test]
fn unknown_token_after_accepted_ones() {
    let p = build(vec![
        field("verbose", "bool", vec![]),
        field("level", "Option<u8>", vec![]),
    ]);
    assert_eq!(
        parsed(&p, &["-v", "-l", "7", "stray", "--more"]).unwrap_err(),
        CliError::Unknown(b"stray".to_vec())
    );
    assert_eq!(
        p.parse(&vec![b"--level".to_vec(), b"2".to_vec(), vec![0xff, b'x']]).unwrap_err(),
        CliError::Unknown(vec![0xff, b'x'])
    );
}
