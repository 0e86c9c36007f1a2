use emela::cli::{parse_args, settle, temporary_file_name, Options, Request};

fn parse(args: &[&str]) -> Result<Request, String> {
    let args: Vec<String> = args.iter().map(|arg| arg.to_string()).collect();
    parse_args(&args).map_err(|error| error.to_string())
}

fn options(args: &[&str]) -> Options {
    match parse(args).unwrap() {
        Request::Compile(options) => options,
        Request::Help => panic!("help"),
    }
}

#[test]
fn reads_options() {
    let found = options(&["--check", "a.emel", "-o", "out", "--emit-rust", "a.rs"]);
    assert_eq!(found.input, "a.emel");
    assert_eq!(found.output.as_deref(), Some("out"));
    assert_eq!(found.emit_rust.as_deref(), Some("a.rs"));
    assert!(found.check_only);
    let found = options(&["a.emel"]);
    assert_eq!(found.output, None);
    assert_eq!(found.emit_rust, None);
    assert!(!found.check_only);
}

#[test]
fn later_options_win() {
    let found = options(&["-o", "x", "a.emel", "--output", "-y"]);
    assert_eq!(found.output.as_deref(), Some("-y"));
}

#[test]
fn help_ends_the_scan() {
    assert!(matches!(parse(&["-h", "--nope"]).unwrap(), Request::Help));
    assert!(matches!(parse(&["a.emel", "--help"]).unwrap(), Request::Help));
}

#[test]
fn reports_bad_options() {
    assert_eq!(parse(&[]).unwrap_err(), "missing input file");
    assert_eq!(parse(&["--emit-rust"]).unwrap_err(), "--emit-rust requires a path");
    assert_eq!(parse(&["a", "-o"]).unwrap_err(), "--output requires a path");
    assert_eq!(parse(&["a", "--output"]).unwrap_err(), "--output requires a path");
    assert_eq!(parse(&["-x", "-h"]).unwrap_err(), "unknown option `-x`");
    assert_eq!(parse(&["a", "b", "-h"]).unwrap_err(), "only one input file is supported");
}

#[test]
fn settles_the_output() {
    let args = settle(
        options(&["dir/a.emel"]),
        Some("emel".to_string()),
        "dir/a".to_string(),
    )
    .unwrap();
    assert_eq!(args.input, "dir/a.emel");
    assert_eq!(args.output, "dir/a");
    let args = settle(
        options(&["a.emel", "-o", "b"]),
        Some("emel".to_string()),
        "a".to_string(),
    )
    .unwrap();
    assert_eq!(args.output, "b");
    let error = settle(options(&["a.txt"]), Some("txt".to_string()), "a".to_string()).unwrap_err();
    assert_eq!(error.to_string(), "input file extension must be .emel");
    assert!(settle(options(&["a"]), None, "a".to_string()).is_err());
}

#[test]
fn names_temporary_files() {
    assert_eq!(
        temporary_file_name(4294967295, Some("prog".to_string())),
        "emela-4294967295-prog.rs"
    );
    assert_eq!(temporary_file_name(0, None), "emela-0-out.rs");
}
