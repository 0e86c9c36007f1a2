//! Programs that are run, as against programs that are used by others.
use vstd::prelude::*;

use crate::ast::{functions_of, FunctionView, ProgramView};
use crate::capability::{has_rank, law_missing, law_missing_names, within, Capability};
use crate::platform::PlatformView;
use crate::text::joined;
use crate::typecheck::check::lemma_entry;
use crate::typecheck::laws::{
    law_annotations, law_registered, lemma_entry_counted, lemma_functions_checked,
    lemma_functions_typed, lemma_one_entry, reported,
};
use crate::typecheck::program::{
    entry_count, entry_index, functions_checked, is_entry, needs_of, program_checked,
    program_registered, CheckMode,
};
use crate::typecheck::typed::TypedProgramView;

verus! {

/// The function is the only one that the program can start with.
pub open spec fn only_entry(functions: Seq<FunctionView>, k: int) -> bool {
    &&& 0 <= k < functions.len()
    &&& functions[k].name == "main"@ || functions[k].name == "main!"@
    &&& forall|j: int|
        0 <= j < functions.len() && ((#[trigger] functions[j]).name == "main"@ || functions[j].name
            == "main!"@) ==> j == k
}

/// The platform provides the capability.
pub open spec fn provides(platform: PlatformView, capability: Capability) -> bool {
    exists|j: int|
        0 <= j < platform.provided.len() && (#[trigger] platform.provided[j]).rank
            == capability.rank
}

/// The names of the capabilities that the platform lacks, in the order of the list.
pub open spec fn lacking(platform: PlatformView, needed: Seq<Capability>) -> Seq<Seq<char>> {
    needed.filter(|capability: Capability| !provides(platform, capability)).map_values(
        |capability: Capability| capability.name@,
    )
}

/// One function is the only one that the program can start with exactly where there is one.
pub proof fn lemma_only_entry(functions: Seq<FunctionView>, k: int)
    requires
        only_entry(functions, k),
    ensures
        entry_count(functions, 0) == 1,
        entry_index(functions, 0) == k,
{
    lemma_entry_counted(functions, 0, k);
    lemma_entry(functions, 0);
    lemma_counted_once(functions, 0, k);
}

proof fn lemma_counted_once(functions: Seq<FunctionView>, i: int, k: int)
    requires
        only_entry(functions, k),
        0 <= i <= functions.len(),
    ensures
        entry_count(functions, i) == if i <= k {
            1nat
        } else {
            0nat
        },
    decreases functions.len() - i,
{
    if i < functions.len() {
        lemma_counted_once(functions, i + 1, k);
        assert(is_entry(functions[i].name) <==> i == k);
    }
}

/// A program that is accepted as a library, and has one function to start with, which takes no
/// parameters, is accepted to be run exactly where the platform provides all capabilities of that
/// function, and with the same types. Otherwise the diagnostic names the platform and, in order,
/// each capability of that function that the platform lacks, and no other.
pub proof fn law_runs(program: ProgramView, platform: PlatformView, typed: TypedProgramView, k: int)
    requires
        program_checked(program, platform, CheckMode::Library) == Ok::<TypedProgramView, Seq<char>>(
            typed,
        ),
        only_entry(functions_of(program), k),
        functions_of(program)[k].params.len() == 0,
    ensures
        0 <= k < typed.functions.len(),
        typed.functions[k].name == functions_of(program)[k].name,
        (forall|i: int|
            0 <= i < typed.functions[k].capabilities.len() ==> provides(
                platform,
                #[trigger] typed.functions[k].capabilities[i],
            )) ==> program_checked(program, platform, CheckMode::Executable) == Ok::<
            TypedProgramView,
            Seq<char>,
        >(typed),
        (exists|i: int|
            0 <= i < typed.functions[k].capabilities.len() && !provides(
                platform,
                #[trigger] typed.functions[k].capabilities[i],
            )) ==> program_checked(program, platform, CheckMode::Executable) == Err::<
            TypedProgramView,
            Seq<char>,
        >(
            "platform `"@ + platform.name + "` does not provide required capability: "@ + joined(
                lacking(platform, typed.functions[k].capabilities),
                ", "@,
            ),
        ),
{
    let functions = functions_of(program);
    let known = program_registered(program, platform).0;
    law_annotations(program, platform, CheckMode::Library, typed);
    law_registered(program, platform);
    lemma_functions_checked(known, known.types, functions, 0, Map::empty());
    let (types, result) = functions_checked(known.env, known.types, functions, 0, Map::empty());
    let needs = result->Ok_0;
    lemma_functions_typed(known, types, functions, 0, needs);
    lemma_only_entry(functions, k);
    assert(reported(functions[k], typed.functions[k]));
    assert(typed.functions[k - 0].capabilities == needs_of(needs, functions[k].name));
    let needed = typed.functions[k].capabilities;
    law_missing(needed, platform.provided);
    law_missing_names(needed, platform.provided);
    let lacks = |capability: Capability| !has_rank(platform.provided, capability.rank);
    let lacks_too = |capability: Capability| !provides(platform, capability);
    assert(lacks =~= lacks_too) by {
        assert forall|capability: Capability| #[trigger]
            lacks(capability) == lacks_too(capability) by {}
    }
    if forall|i: int| 0 <= i < needed.len() ==> provides(platform, #[trigger] needed[i]) {
        assert(within(needed, platform.provided)) by {
            assert forall|i: int| 0 <= i < needed.len() implies has_rank(
                platform.provided,
                (#[trigger] needed[i]).rank,
            ) by {
                assert(provides(platform, needed[i]));
            }
        }
    }
    if exists|i: int| 0 <= i < needed.len() && !provides(platform, #[trigger] needed[i]) {
        let i = choose|i: int| 0 <= i < needed.len() && !provides(platform, #[trigger] needed[i]);
        assert(!has_rank(platform.provided, needed[i].rank));
    }
}

/// A program that is accepted to be run is accepted as a library, with the same types.
pub proof fn law_library(program: ProgramView, platform: PlatformView, typed: TypedProgramView)
    requires
        program_checked(program, platform, CheckMode::Executable) == Ok::<
            TypedProgramView,
            Seq<char>,
        >(typed),
    ensures
        program_checked(program, platform, CheckMode::Library) == Ok::<TypedProgramView, Seq<char>>(
            typed,
        ),
{
}

/// A program whose declarations are in order, but which has no function to start with, more than
/// one, or one with parameters, is not accepted to be run, and the diagnostic says which it is.
pub proof fn law_no_start(program: ProgramView, platform: PlatformView)
    requires
        program_registered(program, platform).1 is Ok,
    ensures
        (forall|k: int| !only_entry(functions_of(program), k)) ==> program_checked(
            program,
            platform,
            CheckMode::Executable,
        ) == Err::<TypedProgramView, Seq<char>>(
            "executable program must contain exactly one top-level `main` or `main!` function"@,
        ),
        (exists|k: int| #[trigger]
            only_entry(functions_of(program), k) && functions_of(program)[k].params.len() > 0)
            ==> program_checked(program, platform, CheckMode::Executable) == Err::<
            TypedProgramView,
            Seq<char>,
        >("`main` and `main!` must take zero parameters"@),
{
    let functions = functions_of(program);
    if entry_count(functions, 0) == 1 {
        lemma_entry(functions, 0);
        let at = entry_index(functions, 0);
        assert forall|j: int|
            0 <= j < functions.len() && ((#[trigger] functions[j]).name == "main"@
                || functions[j].name == "main!"@) implies j == at by {
            lemma_one_entry(functions, 0, j, at);
        }
        assert(only_entry(functions, at));
    }
    if exists|k: int| #[trigger] only_entry(functions, k) && functions[k].params.len() > 0 {
        let k = choose|k: int| #[trigger] only_entry(functions, k) && functions[k].params.len() > 0;
        lemma_only_entry(functions, k);
    }
}

} // verus!
