//! The arguments of the compiler.
use vstd::prelude::*;

use crate::error::{agrees, Error, Outcome};
use crate::text::{decimal, decimal_text, quote, quoted, same_text, texts};

verus! {

/// The options on a command line.
#[derive(Debug)]
pub struct Options {
    pub input: String,
    pub output: Option<String>,
    pub check_only: bool,
    pub emit_rust: Option<String>,
}

/// What a command line asks for.
#[derive(Debug)]
pub enum Request {
    Help,
    Compile(Options),
}

/// What the compiler is to do, once the paths are settled.
#[derive(Debug)]
pub struct Args {
    pub input: String,
    pub output: String,
    pub check_only: bool,
    pub emit_rust: Option<String>,
}

pub struct OptionsView {
    pub input: Seq<char>,
    pub output: Option<Seq<char>>,
    pub check_only: bool,
    pub emit_rust: Option<Seq<char>>,
}

pub enum RequestView {
    Help,
    Compile(OptionsView),
}

pub struct ArgsView {
    pub input: Seq<char>,
    pub output: Seq<char>,
    pub check_only: bool,
    pub emit_rust: Option<Seq<char>>,
}

pub open spec fn optional_text(text: Option<String>) -> Option<Seq<char>> {
    match text {
        Some(text) => Some(text@),
        None => None,
    }
}

impl View for Options {
    type V = OptionsView;

    open spec fn view(&self) -> OptionsView {
        OptionsView {
            input: self.input@,
            output: optional_text(self.output),
            check_only: self.check_only,
            emit_rust: optional_text(self.emit_rust),
        }
    }
}

impl View for Request {
    type V = RequestView;

    open spec fn view(&self) -> RequestView {
        match self {
            Request::Help => RequestView::Help,
            Request::Compile(options) => RequestView::Compile(options@),
        }
    }
}

impl View for Args {
    type V = ArgsView;

    open spec fn view(&self) -> ArgsView {
        ArgsView {
            input: self.input@,
            output: self.output@,
            check_only: self.check_only,
            emit_rust: optional_text(self.emit_rust),
        }
    }
}

/// The options before some argument.
pub struct Flags {
    pub input: Option<Seq<char>>,
    pub output: Option<Seq<char>>,
    pub check_only: bool,
    pub emit_rust: Option<Seq<char>>,
}

/// What the arguments from `i` on ask for, where `flags` stand before them. A later option takes
/// the place of an earlier one, and a call for help ends the scan.
pub open spec fn requested(args: Seq<Seq<char>>, i: int, flags: Flags) -> Outcome<RequestView>
    decreases args.len() - i,
{
    if i >= args.len() {
        match flags.input {
            Some(input) => Ok(
                RequestView::Compile(
                    OptionsView {
                        input,
                        output: flags.output,
                        check_only: flags.check_only,
                        emit_rust: flags.emit_rust,
                    },
                ),
            ),
            None => Err("missing input file"@),
        }
    } else if args[i] == "--check"@ {
        requested(
            args,
            i + 1,
            Flags {
                input: flags.input,
                output: flags.output,
                check_only: true,
                emit_rust: flags.emit_rust,
            },
        )
    } else if args[i] == "--emit-rust"@ {
        if i + 1 >= args.len() {
            Err("--emit-rust requires a path"@)
        } else {
            requested(
                args,
                i + 2,
                Flags {
                    input: flags.input,
                    output: flags.output,
                    check_only: flags.check_only,
                    emit_rust: Some(args[i + 1]),
                },
            )
        }
    } else if args[i] == "-o"@ || args[i] == "--output"@ {
        if i + 1 >= args.len() {
            Err("--output requires a path"@)
        } else {
            requested(
                args,
                i + 2,
                Flags {
                    input: flags.input,
                    output: Some(args[i + 1]),
                    check_only: flags.check_only,
                    emit_rust: flags.emit_rust,
                },
            )
        }
    } else if args[i] == "-h"@ || args[i] == "--help"@ {
        Ok(RequestView::Help)
    } else if args[i].len() > 0 && args[i][0] == '-' {
        Err(quoted("unknown option `"@, args[i], "`"@))
    } else if flags.input is Some {
        Err("only one input file is supported"@)
    } else {
        requested(
            args,
            i + 1,
            Flags {
                input: Some(args[i]),
                output: flags.output,
                check_only: flags.check_only,
                emit_rust: flags.emit_rust,
            },
        )
    }
}

/// No options.
pub open spec fn no_flags() -> Flags {
    Flags { input: None, output: None, check_only: false, emit_rust: None }
}

/// Reads the arguments of the compiler, without the name of the program.
pub fn parse_args(args: &Vec<String>) -> (result: Result<Request, Error>)
    ensures
        agrees(result, requested(texts(args@), 0, no_flags())),
{
    let ghost views = texts(args@);
    let ghost goal = requested(views, 0, no_flags());
    let mut input: Option<String> = None;
    let mut output: Option<String> = None;
    let mut check_only = false;
    let mut emit_rust: Option<String> = None;
    let len: usize = args.len();
    let mut i: usize = 0;
    while i < len
        invariant
            len == args.len(),
            i <= len,
            views == texts(args@),
            goal == requested(views, 0, no_flags()),
            goal == requested(
                views,
                i as int,
                (Flags {
                    input: optional_text(input),
                    output: optional_text(output),
                    check_only,
                    emit_rust: optional_text(emit_rust),
                }),
            ),
        decreases len - i,
    {
        let arg = args[i].as_str();
        assert(views[i as int] == arg@);
        if same_text(arg, "--check") {
            check_only = true;
        } else if same_text(arg, "--emit-rust") {
            i += 1;
            if i >= len {
                return Err(Error::new("--emit-rust requires a path".to_owned()));
            }
            assert(views[i as int] == args@[i as int]@);
            emit_rust = Some(args[i].clone());
        } else if same_text(arg, "-o") || same_text(arg, "--output") {
            i += 1;
            if i >= len {
                return Err(Error::new("--output requires a path".to_owned()));
            }
            assert(views[i as int] == args@[i as int]@);
            output = Some(args[i].clone());
        } else if same_text(arg, "-h") || same_text(arg, "--help") {
            return Ok(Request::Help);
        } else if arg.unicode_len() > 0 && arg.get_char(0) == '-' {
            return Err(Error::new(quote("unknown option `", arg, "`")));
        } else {
            if input.is_some() {
                return Err(Error::new("only one input file is supported".to_owned()));
            }
            input = Some(args[i].clone());
        }
        i += 1;
    }
    match input {
        Some(input) => Ok(Request::Compile(Options { input, output, check_only, emit_rust })),
        None => Err(Error::new("missing input file".to_owned())),
    }
}

/// The settled arguments, given the extension of the input and the output that the input stands
/// for.
pub open spec fn settled(
    options: OptionsView,
    extension: Option<Seq<char>>,
    default_output: Seq<char>,
) -> Outcome<ArgsView> {
    if extension != Some("emel"@) {
        Err("input file extension must be .emel"@)
    } else {
        Ok(
            ArgsView {
                input: options.input,
                output: match options.output {
                    Some(output) => output,
                    None => default_output,
                },
                check_only: options.check_only,
                emit_rust: options.emit_rust,
            },
        )
    }
}

/// Settles the output of a compilation. `extension` is that of the input, where it has one, and
/// `default_output` is the input without it.
pub fn settle(options: Options, extension: Option<String>, default_output: String) -> (result:
    Result<Args, Error>)
    ensures
        agrees(result, settled(options@, optional_text(extension), default_output@)),
{
    let known = match &extension {
        Some(extension) => same_text(extension.as_str(), "emel"),
        None => false,
    };
    if !known {
        return Err(Error::new("input file extension must be .emel".to_owned()));
    }
    let output = match options.output {
        Some(output) => output,
        None => default_output,
    };
    Ok(
        Args {
            input: options.input,
            output,
            check_only: options.check_only,
            emit_rust: options.emit_rust,
        },
    )
}

/// The name of the temporary Rust source of a build, by the number of the process and the stem of
/// the input.
pub open spec fn temporary_name(process: nat, stem: Option<Seq<char>>) -> Seq<char> {
    let stem = match stem {
        Some(stem) => stem,
        None => "out"@,
    };
    "emela-"@ + decimal(process) + "-"@ + stem + ".rs"@
}

pub fn temporary_file_name(process: u32, stem: Option<String>) -> (name: String)
    ensures
        name@ == temporary_name(process as nat, optional_text(stem)),
{
    let mut name = "emela-".to_owned();
    name.append(decimal_text(process as u64).as_str());
    name.append("-");
    match stem {
        Some(stem) => name.append(stem.as_str()),
        None => name.append("out"),
    }
    name.append(".rs");
    name
}

} // verus!
