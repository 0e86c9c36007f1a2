//! From the characters of a source text to what the emitted Rust program does.
use vstd::prelude::*;

use vstd::utf8::encode_utf8;

use crate::bytes::{continues_word, latin, lemma_word_end, word_end};
use crate::seed::ast::ProgramView;
use crate::seed::compile::{compiled, law_compiled, parsed, rust_of};
use crate::seed::deriving::{block_grouped, law_derived, unmarked};
use crate::seed::evaluation::status;
use crate::seed::faithful::{law_meaning, program_emittable};
use crate::seed::lexemes::{law_lexemes, text_from, tokens_before, well_cut, widths, Lexeme};
use crate::seed::lexer::{
    law_tokens, lemma_step_advances, step, tokens_from, tokens_of, Step, TokenKindView, TokenView,
};
use crate::seed::rust::{rust_program, rust_status};
use crate::seed::syntax::{block_proper, functions_tokens, law_parses, program_meant, FormProgram};
use crate::seed::writing::kinds;
use crate::text::ends_with_bang;

verus! {

/// A text of proper pieces, whose tokens are those of some way to write a program, stands for that
/// program.
pub proof fn law_stands_for(list: Seq<Lexeme>, form: FormProgram)
    requires
        well_cut(list, Seq::empty()),
        kinds(tokens_before(list, list.len() as int)).push(TokenKindView::Eof) == functions_tokens(
            form,
            0,
        ),
        forall|k: int|
            0 <= k < form.functions.len() ==> block_proper((#[trigger] form.functions[k]).body),
    ensures
        parsed(text_from(list, 0, Seq::empty())) == Ok::<ProgramView, Seq<char>>(
            program_meant(form),
        ),
{
    let n = list.len() as int;
    let end = TokenView { kind: TokenKindView::Eof, pos: widths(list, n) };
    let t = tokens_before(list, n).push(end);
    law_lexemes(list);
    assert(kinds(t) =~= kinds(tokens_before(list, n)).push(TokenKindView::Eof));
    law_parses(form, t);
}

proof fn lemma_unmarked(bytes: Seq<u8>, i: int)
    requires
        0 <= i <= bytes.len(),
        tokens_from(bytes, i) is Ok,
    ensures
        unmarked(tokens_from(bytes, i)->Ok_0),
    decreases bytes.len() - i,
{
    if i < bytes.len() {
        lemma_step_advances(bytes, i);
        match step(bytes, i) {
            Step::Skip(next) => lemma_unmarked(bytes, next),
            Step::Emit(kind, next) => {
                lemma_unmarked(bytes, next);
                let rest = tokens_from(bytes, next)->Ok_0;
                let all = tokens_from(bytes, i)->Ok_0;
                assert(!(kind matches TokenKindView::Ident(name) && ends_with_bang(name))) by {
                    if let TokenKindView::Ident(name) = kind {
                        let end = word_end(bytes, i + 1);
                        lemma_word_end(bytes, i + 1);
                        let word = bytes.subrange(i, end);
                        assert(name == latin(word));
                        let last = end - 1;
                        assert(name[name.len() - 1] == bytes[last] as char);
                        if last > i {
                            assert(continues_word(bytes[last]));
                        }
                    }
                }
                assert forall|k: int| 0 <= k < all.len() implies !(
                (#[trigger] all[k]).kind matches TokenKindView::Ident(name) && ends_with_bang(
                    name,
                )) by {
                    if k > 0 {
                        assert(all[k] == rest[k - 1]);
                    }
                }
            },
            Step::Fail(_) => {},
        }
    }
}

/// A text that stands for a program is some way to write that program.
pub proof fn law_written_somehow(source: Seq<char>) -> (form: FormProgram)
    requires
        parsed(source) is Ok,
    ensures
        tokens_of(source) matches Ok(t) && kinds(t) == functions_tokens(form, 0),
        parsed(source) == Ok::<ProgramView, Seq<char>>(program_meant(form)),
        forall|i: int|
            0 <= i < form.functions.len() ==> block_grouped((#[trigger] form.functions[i]).body),
{
    let t = tokens_of(source)->Ok_0;
    law_tokens(source);
    lemma_unmarked(encode_utf8(source), 0);
    law_derived(t)
}

/// The Rust text of a source text ends with the exit status of the program that the source text
/// stands for.
pub proof fn law_compiles(source: Seq<char>)
    ensures
        compiled(source) matches Ok((p, typed)) ==> program_emittable(p) ==> {
            &&& rust_of(source) matches Ok(text) && (rust_program(text) matches Some(rust)
                && forall|depth: nat| #[trigger] rust_status(rust, depth) == status(p, depth))
        },
{
    law_compiled(source);
    if let Ok((p, typed)) = compiled(source) {
        if program_emittable(p) {
            law_meaning(p, typed);
        }
    }
}

} // verus!
