//! Command lines, and what they ask for.
use vstd::prelude::*;

use crate::cli::{
    no_flags, requested, settled, temporary_name, ArgsView, Flags, OptionsView, RequestView,
};
use crate::text::decimal;

verus! {

/// One part of a command line.
pub enum Part {
    Check,
    Emit { path: Seq<char> },
    Output { path: Seq<char>, short: bool },
    Input { path: Seq<char> },
}

/// The arguments that a part is made of.
pub open spec fn words(part: Part) -> Seq<Seq<char>> {
    match part {
        Part::Check => seq!["--check"@],
        Part::Emit { path } => seq!["--emit-rust"@, path],
        Part::Output { path, short } => seq![
            if short {
                "-o"@
            } else {
                "--output"@
            },
            path,
        ],
        Part::Input { path } => seq![path],
    }
}

/// The arguments of the parts, one after the other.
pub open spec fn command(parts: Seq<Part>) -> Seq<Seq<char>>
    decreases parts.len(),
{
    if parts.len() == 0 {
        Seq::empty()
    } else {
        command(parts.drop_last()) + words(parts.last())
    }
}

/// No dash starts the path of an input.
pub open spec fn proper(parts: Seq<Part>) -> bool {
    forall|i: int|
        0 <= i < parts.len() ==> (#[trigger] parts[i] matches Part::Input { path } ==> path.len()
            == 0 || path[0] != '-')
}

/// No two inputs are given.
pub open spec fn one_input(parts: Seq<Part>) -> bool {
    forall|i: int, j: int|
        0 <= i < j < parts.len() ==> !(#[trigger] parts[i] is Input && #[trigger] parts[j] is Input)
}

/// The arguments start with those of the parts.
pub open spec fn begins(args: Seq<Seq<char>>, parts: Seq<Part>) -> bool {
    let front = command(parts);
    &&& front.len() <= args.len()
    &&& forall|i: int| 0 <= i < front.len() ==> #[trigger] args[i] == front[i]
}

/// The options that the parts set.
spec fn flags_of(parts: Seq<Part>) -> Flags
    decreases parts.len(),
{
    if parts.len() == 0 {
        no_flags()
    } else {
        let flags = flags_of(parts.drop_last());
        match parts.last() {
            Part::Check => Flags {
                input: flags.input,
                output: flags.output,
                check_only: true,
                emit_rust: flags.emit_rust,
            },
            Part::Emit { path } => Flags {
                input: flags.input,
                output: flags.output,
                check_only: flags.check_only,
                emit_rust: Some(path),
            },
            Part::Output { path, .. } => Flags {
                input: flags.input,
                output: Some(path),
                check_only: flags.check_only,
                emit_rust: flags.emit_rust,
            },
            Part::Input { path } => Flags {
                input: Some(path),
                output: flags.output,
                check_only: flags.check_only,
                emit_rust: flags.emit_rust,
            },
        }
    }
}

/// The words of the options differ, and each starts with a dash.
proof fn lemma_words()
    ensures
        "--check"@.len() == 7,
        "--emit-rust"@.len() == 11,
        "-o"@.len() == 2,
        "--output"@.len() == 8,
        "-h"@.len() == 2,
        "--help"@.len() == 6,
        "-o"@ != "-h"@,
        "--check"@[0] == '-',
        "--emit-rust"@[0] == '-',
        "-o"@[0] == '-',
        "--output"@[0] == '-',
        "-h"@[0] == '-',
        "--help"@[0] == '-',
{
    reveal_strlit("--check");
    reveal_strlit("--emit-rust");
    reveal_strlit("-o");
    reveal_strlit("--output");
    reveal_strlit("-h");
    reveal_strlit("--help");
    assert("-o"@[1] != "-h"@[1]);
}

proof fn lemma_shorter(parts: Seq<Part>)
    requires
        parts.len() > 0,
    ensures
        proper(parts) ==> proper(parts.drop_last()),
        one_input(parts) ==> one_input(parts.drop_last()),
{
    let less = parts.drop_last();
    assert(forall|i: int| 0 <= i < less.len() ==> #[trigger] less[i] == parts[i]);
}

/// The parts at the front of a command line set their options, and no more.
proof fn lemma_scanned(args: Seq<Seq<char>>, parts: Seq<Part>)
    requires
        begins(args, parts),
        proper(parts),
        one_input(parts),
    ensures
        requested(args, 0, no_flags()) == requested(
            args,
            command(parts).len() as int,
            flags_of(parts),
        ),
    decreases parts.len(),
{
    if parts.len() > 0 {
        let less = parts.drop_last();
        let part = parts.last();
        let front = command(less);
        let n = front.len() as int;
        lemma_shorter(parts);
        lemma_words();
        assert(begins(args, less)) by {
            assert forall|i: int| 0 <= i < n implies #[trigger] args[i] == front[i] by {
                assert(args[i] == command(parts)[i]);
            }
        }
        lemma_scanned(args, less);
        assert(args[n] == command(parts)[n]);
        assert(command(parts)[n] == words(part)[0]);
        if words(part).len() == 2 {
            assert(args[n + 1] == command(parts)[n + 1]);
            assert(command(parts)[n + 1] == words(part)[1]);
        }
        if part is Input {
            assert(parts[parts.len() - 1] is Input);
            lemma_flags(less);
            if flags_of(less).input is Some {
                let i = choose|i: int| 0 <= i < less.len() && #[trigger] less[i] is Input;
                assert(parts[i] is Input);
            }
        }
    }
}

/// The path is that of the last output among the parts.
pub open spec fn last_output(parts: Seq<Part>, path: Seq<char>) -> bool {
    exists|i: int|
        0 <= i < parts.len() && (#[trigger] parts[i] matches Part::Output { path: given, .. }
            && given == path) && forall|j: int| i < j < parts.len() ==> !(#[trigger] parts[j] is Output)
}

/// The path is that of the last Rust file among the parts.
pub open spec fn last_emit(parts: Seq<Part>, path: Seq<char>) -> bool {
    exists|i: int|
        0 <= i < parts.len() && #[trigger] parts[i] == (Part::Emit { path }) && forall|j: int|
            i < j < parts.len() ==> !(#[trigger] parts[j] is Emit)
}

proof fn lemma_flags(parts: Seq<Part>)
    ensures
        ({
            let flags = flags_of(parts);
            &&& flags.check_only <==> exists|i: int|
                0 <= i < parts.len() && #[trigger] parts[i] is Check
            &&& flags.input is Some <==> exists|i: int|
                0 <= i < parts.len() && #[trigger] parts[i] is Input
            &&& flags.input matches Some(path) ==> parts.contains(Part::Input { path })
            &&& flags.output is Some <==> exists|i: int|
                0 <= i < parts.len() && #[trigger] parts[i] is Output
            &&& flags.output matches Some(path) ==> last_output(parts, path)
            &&& flags.emit_rust is Some <==> exists|i: int|
                0 <= i < parts.len() && #[trigger] parts[i] is Emit
            &&& flags.emit_rust matches Some(path) ==> last_emit(parts, path)
        }),
    decreases parts.len(),
{
    if parts.len() > 0 {
        let less = parts.drop_last();
        let n = less.len() as int;
        lemma_flags(less);
        assert(forall|i: int| 0 <= i < n ==> #[trigger] parts[i] == less[i]);
        assert(parts[n] == parts.last());
        let flags = flags_of(parts);
        if exists|i: int| 0 <= i < less.len() && #[trigger] less[i] is Check {
            let i = choose|i: int| 0 <= i < less.len() && #[trigger] less[i] is Check;
            assert(parts[i] is Check);
        }
        if exists|i: int| 0 <= i < less.len() && #[trigger] less[i] is Input {
            let i = choose|i: int| 0 <= i < less.len() && #[trigger] less[i] is Input;
            assert(parts[i] is Input);
        }
        if exists|i: int| 0 <= i < less.len() && #[trigger] less[i] is Output {
            let i = choose|i: int| 0 <= i < less.len() && #[trigger] less[i] is Output;
            assert(parts[i] is Output);
        }
        if exists|i: int| 0 <= i < less.len() && #[trigger] less[i] is Emit {
            let i = choose|i: int| 0 <= i < less.len() && #[trigger] less[i] is Emit;
            assert(parts[i] is Emit);
        }
        if let Some(path) = flags.input {
            if parts.last() is Input {
                assert(parts[n] == (Part::Input { path }));
            } else {
                let i = choose|i: int|
                    0 <= i < less.len() && #[trigger] less[i] == (Part::Input { path });
                assert(parts[i] == (Part::Input { path }));
            }
        }
        if let Some(path) = flags.output {
            if !(parts.last() is Output) {
                let i = choose|i: int|
                    0 <= i < less.len() && (#[trigger] less[i] matches Part::Output {
                        path: given,
                        ..
                    } && given == path) && forall|j: int|
                        i < j < less.len() ==> !(#[trigger] less[j] is Output);
                assert(parts[i] == less[i]);
                assert forall|j: int| i < j < parts.len() implies !(#[trigger] parts[j] is Output) by {
                    if j < n {
                        assert(less[j] == parts[j]);
                    }
                }
            }
        }
        if let Some(path) = flags.emit_rust {
            if !(parts.last() is Emit) {
                let i = choose|i: int|
                    0 <= i < less.len() && #[trigger] less[i] == (Part::Emit { path }) && forall|
                        j: int,
                    |
                        i < j < less.len() ==> !(#[trigger] less[j] is Emit);
                assert(parts[i] == less[i]);
                assert forall|j: int| i < j < parts.len() implies !(#[trigger] parts[j] is Emit) by {
                    if j < n {
                        assert(less[j] == parts[j]);
                    }
                }
            }
        }
    }
}

/// A command line asks for what its parts say, in whatever order they stand: the one input is
/// compiled, the last output and the last Rust file that are named are written, and it is only
/// checked where that is asked for. Without an input it is refused.
pub proof fn law_command(parts: Seq<Part>)
    requires
        proper(parts),
        one_input(parts),
    ensures
        (forall|i: int| 0 <= i < parts.len() ==> !(#[trigger] parts[i] is Input)) ==> requested(
            command(parts),
            0,
            no_flags(),
        ) == Err::<RequestView, Seq<char>>("missing input file"@),
        forall|k: int|
            0 <= k < parts.len() ==> (#[trigger] parts[k] matches Part::Input { path } ==> (
            requested(command(parts), 0, no_flags()) matches Ok(RequestView::Compile(options)) && {
                &&& options.input == path
                &&& options.check_only <==> exists|i: int|
                    0 <= i < parts.len() && #[trigger] parts[i] is Check
                &&& options.output is Some <==> exists|i: int|
                    0 <= i < parts.len() && #[trigger] parts[i] is Output
                &&& options.output matches Some(output) ==> last_output(parts, output)
                &&& options.emit_rust is Some <==> exists|i: int|
                    0 <= i < parts.len() && #[trigger] parts[i] is Emit
                &&& options.emit_rust matches Some(emit) ==> last_emit(parts, emit)
            })),
{
    let args = command(parts);
    lemma_scanned(args, parts);
    lemma_flags(parts);
    let flags = flags_of(parts);
    if flags.input is None {
        assert(forall|k: int| 0 <= k < parts.len() ==> !(#[trigger] parts[k] is Input));
    } else {
        let path = flags.input->Some_0;
        let i = choose|i: int|
            0 <= i < parts.len() && #[trigger] parts[i] == (Part::Input { path });
        assert(parts[i] is Input);
        assert forall|k: int| 0 <= k < parts.len() && #[trigger] parts[k] is Input implies k
            == i by {
            if k < i {
                assert(!(parts[k] is Input && parts[i] is Input));
            } else if i < k {
                assert(!(parts[i] is Input && parts[k] is Input));
            }
        }
    }
}

/// What follows well-formed parts decides: a call for help is answered whatever comes after it, an
/// option without its path, one that is not known, and a second input are refused.
pub proof fn law_stops(args: Seq<Seq<char>>, parts: Seq<Part>)
    requires
        proper(parts),
        one_input(parts),
        begins(args, parts),
        command(parts).len() < args.len(),
    ensures
        ({
            let word = args[command(parts).len() as int];
            let last = command(parts).len() + 1 == args.len();
            let result = requested(args, 0, no_flags());
            &&& word == "-h"@ || word == "--help"@ ==> result == Ok::<RequestView, Seq<char>>(
                RequestView::Help,
            )
            &&& word == "--emit-rust"@ && last ==> result == Err::<RequestView, Seq<char>>(
                "--emit-rust requires a path"@,
            )
            &&& (word == "-o"@ || word == "--output"@) && last ==> result == Err::<
                RequestView,
                Seq<char>,
            >("--output requires a path"@)
            &&& word.len() > 0 && word[0] == '-' && word != "-h"@ && word != "--help"@ && word
                != "--check"@ && word != "--emit-rust"@ && word != "-o"@ && word != "--output"@
                ==> result == Err::<RequestView, Seq<char>>("unknown option `"@ + word + "`"@)
            &&& (word.len() == 0 || word[0] != '-') && (exists|i: int|
                0 <= i < parts.len() && #[trigger] parts[i] is Input) ==> result == Err::<
                RequestView,
                Seq<char>,
            >("only one input file is supported"@)
        }),
{
    lemma_words();
    lemma_scanned(args, parts);
    lemma_flags(parts);
}

/// An input with another extension than `.emel` is refused. Otherwise nothing of what was asked
/// for changes, and the output is the named one, or the one that the input stands for.
pub proof fn law_settled(
    options: OptionsView,
    extension: Option<Seq<char>>,
    default_output: Seq<char>,
)
    ensures
        extension != Some("emel"@) ==> settled(options, extension, default_output) == Err::<
            ArgsView,
            Seq<char>,
        >("input file extension must be .emel"@),
        extension == Some("emel"@) ==> (settled(options, extension, default_output) matches Ok(args)
            && {
            &&& args.input == options.input
            &&& args.check_only == options.check_only
            &&& args.emit_rust == options.emit_rust
            &&& options.output matches Some(output) ==> args.output == output
            &&& options.output is None ==> args.output == default_output
        }),
{
}

/// The name of a temporary file holds the number of the process and the stem of the input.
pub proof fn law_temporary(process: nat, stem: Seq<char>)
    ensures
        temporary_name(process, Some(stem)) == "emela-"@ + decimal(process) + "-"@ + stem + ".rs"@,
        temporary_name(process, None) == "emela-"@ + decimal(process) + "-out.rs"@,
{
    reveal_strlit("-");
    reveal_strlit("out");
    reveal_strlit(".rs");
    reveal_strlit("-out.rs");
    assert("-"@ + "out"@ + ".rs"@ =~= "-out.rs"@);
    assert("emela-"@ + decimal(process) + "-"@ + "out"@ + ".rs"@ =~= "emela-"@ + decimal(process) + (
    "-"@ + "out"@ + ".rs"@));
}

} // verus!
