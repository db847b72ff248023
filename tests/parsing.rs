use onlyargs::derive::{derive_parser, AppInfo, Parser};
use onlyargs::error::CliError;
use onlyargs::parser::{Outcome, ParsedArgs, Slot};
use onlyargs::schema::{FieldAttr, FieldDecl, StructDecl};
use onlyargs::value::Value;

fn field(name: &str, ty: &str, attrs: Vec<FieldAttr>) -> FieldDecl {
    FieldDecl {
        name: name.to_string(),
        ty: ty.to_string(),
        attrs,
    }
}

fn app() -> AppInfo {
    AppInfo {
        name: "prog".to_string(),
        version: "1.0".to_string(),
        description: "Desc".to_string(),
        bin_name: "prog".to_string(),
    }
}

fn build(fields: Vec<FieldDecl>) -> Parser {
    let decl = StructDecl {
        name: "Args".to_string(),
        doc: vec![],
        fields,
    };
    derive_parser(&decl, &app()).expect("schema builds")
}

fn toks(args: &[&str]) -> Vec<Vec<u8>> {
    args.iter().map(|a| a.as_bytes().to_vec()).collect()
}

fn parsed(p: &Parser, args: &[&str]) -> Result<ParsedArgs, CliError> {
    match p.parse(&toks(args))? {
        Outcome::Parsed(a) => Ok(a),
        other => panic!("unexpected outcome {other:?}"),
    }
}

fn strs(vals: &[Value]) -> Vec<String> {
    vals.iter()
        .map(|v| match v {
            Value::Str(s) => s.clone(),
            other => panic!("not a string: {other:?}"),
        })
        .collect()
}

fn many(slot: &Slot) -> Vec<Value> {
    match slot {
        Slot::Many(vs) => vs.clone(),
        Slot::Single(_) => panic!("not a collection"),
    }
}

#[test]
fn test_multivalue_paths() -> Result<(), CliError> {
    let p = build(vec![field("path", "Vec<PathBuf>", vec![])]);
    let args = parsed(
        &p,
        &[
            "--path",
            "/tmp/hello",
            "--path",
            "/var/run/test.pid",
            "--path",
            "./foo/bar with spaces/",
        ],
    )?;
    assert_eq!(
        many(&args.options[0]),
        vec![
            Value::Path(b"/tmp/hello".to_vec()),
            Value::Path(b"/var/run/test.pid".to_vec()),
            Value::Path(b"./foo/bar with spaces/".to_vec()),
        ]
    );
    Ok(())
}

#[test]
fn test_multivalue_with_positional() -> Result<(), CliError> {
    let p = build(vec![
        field("names", "Vec<String>", vec![]),
        field("rest", "Vec<String>", vec![FieldAttr::Positional]),
    ]);
    let args = parsed(
        &p,
        &["--names", "Alice", "--names", "Bob", "Carol", "David"],
    )?;
    assert_eq!(strs(&many(&args.options[0])), ["Alice", "Bob"]);
    assert_eq!(strs(&args.positional), ["Carol", "David"]);
    Ok(())
}

#[test]
fn test_required_multivalue() -> Result<(), CliError> {
    let p = build(vec![field("names", "Vec<String>", vec![FieldAttr::Required])]);
    assert!(matches!(
        parsed(&p, &[]),
        Err(CliError::MissingRequired(name)) if name == "--names",
    ));
    let args = parsed(&p, &["--names", "Alice"])?;
    assert_eq!(strs(&many(&args.options[0])), ["Alice"]);
    Ok(())
}

#[test]
fn test_required_positional() -> Result<(), CliError> {
    let p = build(vec![field(
        "rest",
        "Vec<String>",
        vec![FieldAttr::Required, FieldAttr::Positional],
    )]);
    assert!(matches!(
        parsed(&p, &[]),
        Err(CliError::MissingRequired(name)) if name == "rest",
    ));
    let args = parsed(&p, &["Bob"])?;
    assert_eq!(strs(&args.positional), ["Bob"]);
    Ok(())
}

#[test]
fn test_positional_escape() -> Result<(), CliError> {
    let p = build(vec![
        field("opt_str", "Option<String>", vec![]),
        field("rest", "Vec<String>", vec![FieldAttr::Positional]),
    ]);

    let args = parsed(&p, &[])?;
    assert_eq!(args.options[0], Slot::Single(None));
    assert!(args.positional.is_empty());

    let args = parsed(&p, &["Alice", "--name", "Bob"])?;
    assert_eq!(args.options[0], Slot::Single(None));
    assert_eq!(strs(&args.positional), ["Alice", "--name", "Bob"]);

    let args = parsed(&p, &["Alice", "--opt-str", "--name", "Bob"])?;
    assert_eq!(
        args.options[0],
        Slot::Single(Some(Value::Str("--name".to_string())))
    );
    assert_eq!(strs(&args.positional), ["Alice", "Bob"]);

    let args = parsed(&p, &["Alice", "--", "--opt-str", "--name", "Bob"])?;
    assert_eq!(args.options[0], Slot::Single(None));
    assert_eq!(strs(&args.positional), ["Alice", "--opt-str", "--name", "Bob"]);
    Ok(())
}
