//! From source text to a program with types, and to Rust.
use vstd::prelude::*;

use crate::error::{Error, Outcome};
use crate::seed::ast::{Program, ProgramView};
use crate::seed::checker::TypeChecker;
use crate::seed::emit::{emit_rust, has_types, program_text};
use crate::seed::grammar::program;
use crate::seed::inference::program_checked;
use crate::seed::lexer::{law_tokens, lex, token_views, tokens_of};
use crate::seed::parser::Parser;
use crate::seed::reading::law_reads_back;
use crate::seed::soundness::law_sound;
use crate::seed::spelling::{all_spellable, law_spelled, spelled};
use crate::seed::typed::{TypedProgram, TypedProgramView};
use crate::seed::typing::{header_fits, well_typed};
use crate::seed::writing::{program_tokens, program_writable};

verus! {

/// The program that a source text stands for.
pub open spec fn parsed(source: Seq<char>) -> Outcome<ProgramView> {
    match tokens_of(source) {
        Err(message) => Err(message),
        Ok(tokens) => program(tokens, 0).1,
    }
}

/// The program that a source text stands for, with the types of its functions.
pub open spec fn compiled(source: Seq<char>) -> Outcome<(ProgramView, TypedProgramView)> {
    match parsed(source) {
        Err(message) => Err(message),
        Ok(program) => match program_checked(program) {
            Err(message) => Err(message),
            Ok(typed) => Ok((program, typed)),
        },
    }
}

/// The Rust text of the program that a source text stands for.
pub open spec fn rust_of(source: Seq<char>) -> Outcome<Seq<char>> {
    match compiled(source) {
        Err(message) => Err(message),
        Ok((program, typed)) => Ok(program_text(program, typed)),
    }
}

/// A source text of a program: its tokens, with spaces between them.
pub open spec fn source_of(program: ProgramView) -> Seq<char> {
    spelled(program_tokens(program), 0)
}

/// Each program whose names are words and whose numbers are not negative has a source text, which
/// stands for that program.
pub proof fn law_source(p: ProgramView)
    requires
        program_writable(p),
        all_spellable(program_tokens(p)),
    ensures
        parsed(source_of(p)) == Ok::<ProgramView, Seq<char>>(p),
{
    law_spelled(program_tokens(p));
    law_reads_back(p, tokens_of(source_of(p))->Ok_0);
}

/// Each function of a compiled program has its types, so that the program can be emitted.
pub open spec fn all_typed(program: ProgramView, typed: TypedProgramView) -> bool {
    forall|i: int|
        0 <= i < program.functions.len() ==> has_types(
            typed,
            #[trigger] program.functions[i].name,
        )
}

/// A program that compiles is well typed under the types it is compiled with, and each of its
/// functions has types.
pub proof fn law_compiled(source: Seq<char>)
    ensures
        compiled(source) matches Ok((program, typed)) ==> well_typed(program, typed) && all_typed(
            program,
            typed,
        ),
{
    if let Ok((program, typed)) = compiled(source) {
        law_sound(program, typed);
        assert forall|i: int| 0 <= i < program.functions.len() implies has_types(
            typed,
            #[trigger] program.functions[i].name,
        ) by {
            assert(header_fits(program.functions[i], typed.functions[i]));
        }
    }
}

pub fn compile_source(source: &str) -> (result: Result<(Program, TypedProgram), Error>)
    ensures
        match (result, compiled(source@)) {
            (Ok((program, typed)), Ok(model)) => (program@, typed@) == model && all_typed(
                program@,
                typed@,
            ),
            (Err(error), Err(message)) => error@ == message,
            _ => false,
        },
{
    let tokens = lex(source)?;
    let mut parser = Parser::new(tokens);
    proof {
        let views = token_views(tokens@);
        law_tokens(source@);
        assert(views.last() == tokens@.last()@);
        assert(parser.tokens@[tokens@.len() - 1].kind is Eof);
    }
    let program = parser.parse_program()?;
    let typed = TypeChecker::new(&program).check()?;
    proof {
        law_compiled(source@);
    }
    Ok((program, typed))
}

/// Compiles a source text to Rust.
pub fn compile_to_rust(source: &str) -> (result: Result<String, Error>)
    ensures
        match (result, rust_of(source@)) {
            (Ok(text), Ok(model)) => text@ == model,
            (Err(error), Err(message)) => error@ == message,
            _ => false,
        },
{
    let (program, typed) = compile_source(source)?;
    Ok(emit_rust(&program, &typed))
}

} // verus!
