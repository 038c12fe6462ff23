//! How the call of a session is run.
use vstd::prelude::*;

use crate::debug_map::{lemma_lookup_put, lookup};
use crate::hook::{EventView, Phase};
use crate::laws::stops::{lacks, law_lookup_finds_the_entry};
use crate::literals::{is_readable_program, literals_fit};
use crate::session::{
    after_stage, call_finalizes, call_reading, function_finalizes, input_reading, inputs_readable,
    next_readable, program_maps, program_texts, CallReadingView, ProgramSource, RunActionView,
    RunView, Stage,
};
use crate::vm::{
    identifier_of, outline_of, program_id_of, value_error_of, FunctionView, OutlineView,
};

verus! {

/// Whether function `i` of program `p` is the one that is called, and has finalize logic: the program
/// is the first one with the called ID, the function the first one of it with the called name.
pub open spec fn is_called_and_finalizes(
    outlines: Seq<OutlineView>,
    program_id: Seq<char>,
    function: Seq<char>,
    p: int,
    i: int,
) -> bool {
    &&& 0 <= p < outlines.len()
    &&& outlines[p].id == program_id
    &&& forall|q: int| 0 <= q < p ==> (#[trigger] outlines[q]).id != program_id
    &&& 0 <= i < outlines[p].functions.len()
    &&& outlines[p].functions[i].name == function
    &&& forall|j: int|
        0 <= j < i ==> (#[trigger] outlines[p].functions[j]).name != function
    &&& outlines[p].functions[i].has_finalize
}

proof fn lemma_function_finalizes(functions: Seq<FunctionView>, name: Seq<char>)
    ensures
        function_finalizes(functions, name) <==> exists|i: int|
            {
                &&& 0 <= i < functions.len()
                &&& (#[trigger] functions[i]).name == name
                &&& forall|j: int| 0 <= j < i ==> (#[trigger] functions[j]).name != name
                &&& functions[i].has_finalize
            },
    decreases functions.len(),
{
    if functions.len() > 0 && functions[0].name != name {
        let rest = functions.skip(1);
        lemma_function_finalizes(rest, name);
        if function_finalizes(rest, name) {
            let i = choose|i: int|
                {
                    &&& 0 <= i < rest.len()
                    &&& (#[trigger] rest[i]).name == name
                    &&& forall|j: int| 0 <= j < i ==> (#[trigger] rest[j]).name != name
                    &&& rest[i].has_finalize
                };
            assert(functions[i + 1] == rest[i]);
            assert forall|j: int| 0 <= j < i + 1 implies (#[trigger] functions[j]).name != name by {
                if j > 0 {
                    assert(rest[j - 1] == functions[j]);
                }
            }
        }
        if exists|i: int|
            {
                &&& 0 <= i < functions.len()
                &&& (#[trigger] functions[i]).name == name
                &&& forall|j: int| 0 <= j < i ==> (#[trigger] functions[j]).name != name
                &&& functions[i].has_finalize
            } {
            let i = choose|i: int|
                {
                    &&& 0 <= i < functions.len()
                    &&& (#[trigger] functions[i]).name == name
                    &&& forall|j: int| 0 <= j < i ==> (#[trigger] functions[j]).name != name
                    &&& functions[i].has_finalize
                };
            assert(rest[i - 1] == functions[i]);
            assert forall|j: int| 0 <= j < i - 1 implies (#[trigger] rest[j]).name != name by {
                assert(rest[j] == functions[j + 1]);
            }
        }
    } else if functions.len() > 0 {
        assert(functions[0].name == name);
    }
}

proof fn lemma_call_finalizes(
    outlines: Seq<OutlineView>,
    program_id: Seq<char>,
    function: Seq<char>,
)
    ensures
        call_finalizes(outlines, program_id, function) <==> exists|p: int, i: int|
            #[trigger] is_called_and_finalizes(outlines, program_id, function, p, i),
    decreases outlines.len(),
{
    if outlines.len() > 0 {
        if outlines[0].id == program_id {
            let functions = outlines[0].functions;
            lemma_function_finalizes(functions, function);
            if function_finalizes(functions, function) {
                let i = choose|i: int|
                    {
                        &&& 0 <= i < functions.len()
                        &&& (#[trigger] functions[i]).name == function
                        &&& forall|j: int|
                            0 <= j < i ==> (#[trigger] functions[j]).name != function
                        &&& functions[i].has_finalize
                    };
                assert(is_called_and_finalizes(outlines, program_id, function, 0, i));
            }
            if exists|p: int, i: int|
                #[trigger] is_called_and_finalizes(outlines, program_id, function, p, i) {
                let (p, i) = choose|p: int, i: int|
                    #[trigger] is_called_and_finalizes(outlines, program_id, function, p, i);
                assert(p == 0);
                assert(functions[i].name == function);
            }
        } else {
            let rest = outlines.skip(1);
            lemma_call_finalizes(rest, program_id, function);
            if call_finalizes(rest, program_id, function) {
                let (p, i) = choose|p: int, i: int|
                    #[trigger] is_called_and_finalizes(rest, program_id, function, p, i);
                assert(outlines[p + 1] == rest[p]);
                assert forall|q: int| 0 <= q < p + 1 implies (#[trigger] outlines[q]).id
                    != program_id by {
                    if q > 0 {
                        assert(rest[q - 1] == outlines[q]);
                    }
                }
                assert forall|j: int| 0 <= j < i implies (
                #[trigger] outlines[p + 1].functions[j]).name != function by {
                    assert(rest[p].functions[j].name != function);
                }
                assert(is_called_and_finalizes(outlines, program_id, function, p + 1, i));
            }
            if exists|p: int, i: int|
                #[trigger] is_called_and_finalizes(outlines, program_id, function, p, i) {
                let (p, i) = choose|p: int, i: int|
                    #[trigger] is_called_and_finalizes(outlines, program_id, function, p, i);
                assert(rest[p - 1] == outlines[p]);
                assert forall|q: int| 0 <= q < p - 1 implies (#[trigger] rest[q]).id
                    != program_id by {
                    assert(rest[q] == outlines[q + 1]);
                }
                assert forall|j: int| 0 <= j < i implies (
                #[trigger] rest[p - 1].functions[j]).name != function by {
                    assert(outlines[p].functions[j].name != function);
                }
                assert(is_called_and_finalizes(rest, program_id, function, p - 1, i));
            }
        }
    }
}

/// When the evaluation has ended well, an execution is built exactly if the called function of the
/// first program with the called ID has finalize logic; otherwise the session is finished. What the
/// other functions are does not matter.
pub proof fn law_finalization_follows_finalize_logic(run: RunView)
    requires
        run.stage == Stage::Evaluating,
    ensures
        after_stage(run, Ok(())).1 == RunActionView::BuildExecution <==> exists|p: int, i: int|
            #[trigger] is_called_and_finalizes(
                run.outlines,
                run.program_id,
                run.function_name,
                p,
                i,
            ),
        after_stage(run, Ok(())).1 == RunActionView::BuildExecution || after_stage(run, Ok(())).1
            == RunActionView::End(EventView::Finished),
{
    lemma_call_finalizes(run.outlines, run.program_id, run.function_name);
}

proof fn lemma_input_reading(inputs: Seq<Seq<char>>, from: int, k: int)
    requires
        0 <= from <= k <= inputs.len(),
        inputs.len() <= usize::MAX,
        forall|i: int| from <= i < k ==> value_error_of(#[trigger] inputs[i]) is None,
        k < inputs.len() ==> value_error_of(inputs[k]) is Some,
    ensures
        input_reading(inputs, from) == if k < inputs.len() {
            CallReadingView::BadInput(k as usize, value_error_of(inputs[k])->0)
        } else {
            CallReadingView::Fine
        },
    decreases k - from,
{
    if from < k {
        assert(value_error_of(inputs[from]) is None);
        lemma_input_reading(inputs, from + 1, k);
    }
}

/// The session is over, for that reason, and nothing else has changed.
pub open spec fn is_halted(
    before: RunView,
    after: (RunView, RunActionView),
    reason: Seq<char>,
) -> bool {
    &&& after.1 == RunActionView::End(EventView::Halted { reason })
    &&& after.0 == (RunView { stage: Stage::Ended, ..before })
}

/// Once the store is open the call is checked: its program ID first, then its function name, then its
/// inputs one by one. The first one that is not in order is named, with the reason; if all are, the
/// call is authorized. Here `k` is the first input that is no value, or the number of inputs.
pub proof fn law_call_is_checked(run: RunView, k: int)
    requires
        run.stage == Stage::OpeningStore,
        run.inputs.len() <= usize::MAX,
        0 <= k <= run.inputs.len(),
        forall|i: int| 0 <= i < k ==> value_error_of(#[trigger] run.inputs[i]) is None,
        k < run.inputs.len() ==> value_error_of(run.inputs[k]) is Some,
    ensures
        ({
            let after = after_stage(run, Ok(()));
            match (program_id_of(run.program_id), identifier_of(run.function_name)) {
                (Err(reason), _) => is_halted(
                    run,
                    after,
                    "invalid program ID '"@ + run.program_id + "': "@ + reason,
                ),
                (Ok(_), Err(reason)) => is_halted(
                    run,
                    after,
                    "invalid function name '"@ + run.function_name + "': "@ + reason,
                ),
                (Ok(_), Ok(_)) => if k < run.inputs.len() {
                    is_halted(
                        run,
                        after,
                        "invalid input '"@ + run.inputs[k] + "': "@ + value_error_of(
                            run.inputs[k],
                        )->0,
                    )
                } else {
                    after == (
                        (RunView { stage: Stage::Authorizing, ..run }),
                        RunActionView::Authorize,
                    )
                },
            }
        }),
{
    lemma_input_reading(run.inputs, 0, k);
    reveal_strlit("invalid program ID '");
    reveal_strlit("invalid program ID");
    reveal_strlit("invalid function name '");
    reveal_strlit("invalid function name");
    reveal_strlit("invalid input '");
    reveal_strlit("invalid input");
    reveal_strlit(" '");
    assert("invalid program ID"@ + " '"@ =~= "invalid program ID '"@);
    assert("invalid function name"@ + " '"@ =~= "invalid function name '"@);
    assert("invalid input"@ + " '"@ =~= "invalid input '"@);
    match (program_id_of(run.program_id), identifier_of(run.function_name)) {
        (Err(reason), _) => {
            lemma_quoted_failure(
                "invalid program ID"@,
                "invalid program ID '"@,
                run.program_id,
                reason,
            );
        },
        (Ok(_), Err(reason)) => {
            lemma_quoted_failure(
                "invalid function name"@,
                "invalid function name '"@,
                run.function_name,
                reason,
            );
        },
        (Ok(_), Ok(_)) => {
            if k < run.inputs.len() {
                lemma_quoted_failure(
                    "invalid input"@,
                    "invalid input '"@,
                    run.inputs[k],
                    value_error_of(run.inputs[k])->0,
                );
            }
        },
    }
}

proof fn lemma_quotes()
    ensures
        "'"@ + ": "@ == "': "@,
{
    reveal_strlit("'");
    reveal_strlit(": ");
    reveal_strlit("': ");
    assert("'"@ + ": "@ =~= "': "@);
}

proof fn lemma_quoted_failure(
    what: Seq<char>,
    opened: Seq<char>,
    name: Seq<char>,
    reason: Seq<char>,
)
    requires
        what + " '"@ == opened,
    ensures
        crate::session::failure(crate::session::quoted(what, name), reason) == opened + name
            + "': "@ + reason,
{
    lemma_quotes();
    assert(opened + name + "'"@ + ": "@ + reason =~= opened + name + ("'"@ + ": "@) + reason);
}

/// Whatever fails, the session is over, and what is reported says what was being done and why it
/// failed.
pub proof fn law_failures_are_told_apart(run: RunView, reason: Seq<char>)
    requires
        run.stage != Stage::Ready,
        run.stage != Stage::Ended,
    ensures
        is_halted(
            run,
            after_stage(run, Err(reason)),
            match run.stage {
                Stage::LoadingProcess => "failed to load a fresh snarkVM process: "@ + reason,
                Stage::AddingProgram(i) => "failed to add program '"@ + run.programs[i as int].name
                    + "': "@ + reason,
                Stage::OpeningStore => "failed to open an in-memory finalize store: "@ + reason,
                Stage::Authorizing => "failed to authorize the call: "@ + reason,
                Stage::Evaluating => "evaluation failed: "@ + reason,
                Stage::BuildingExecution =>
                    "failed to build an execution from the authorized transitions: "@ + reason,
                Stage::BuildingState => "failed to build finalize global state: "@ + reason,
                _ => "finalization failed: "@ + reason,
            },
        ),
{
    reveal_strlit(": ");
    match run.stage {
        Stage::LoadingProcess => {
            reveal_strlit("failed to load a fresh snarkVM process: ");
            reveal_strlit("failed to load a fresh snarkVM process");
            assert("failed to load a fresh snarkVM process"@ + ": "@
                =~= "failed to load a fresh snarkVM process: "@);
        },
        Stage::AddingProgram(i) => {
            reveal_strlit("failed to add program '");
            reveal_strlit("failed to add program");
            reveal_strlit(" '");
            assert("failed to add program"@ + " '"@ =~= "failed to add program '"@);
            lemma_quoted_failure(
                "failed to add program"@,
                "failed to add program '"@,
                run.programs[i as int].name,
                reason,
            );
        },
        Stage::OpeningStore => {
            reveal_strlit("failed to open an in-memory finalize store: ");
            reveal_strlit("failed to open an in-memory finalize store");
            assert("failed to open an in-memory finalize store"@ + ": "@
                =~= "failed to open an in-memory finalize store: "@);
        },
        Stage::Authorizing => {
            reveal_strlit("failed to authorize the call: ");
            reveal_strlit("failed to authorize the call");
            assert("failed to authorize the call"@ + ": "@ =~= "failed to authorize the call: "@);
        },
        Stage::Evaluating => {
            reveal_strlit("evaluation failed: ");
            reveal_strlit("evaluation failed");
            assert("evaluation failed"@ + ": "@ =~= "evaluation failed: "@);
        },
        Stage::BuildingExecution => {
            reveal_strlit("failed to build an execution from the authorized transitions: ");
            reveal_strlit("failed to build an execution from the authorized transitions");
            assert("failed to build an execution from the authorized transitions"@ + ": "@
                =~= "failed to build an execution from the authorized transitions: "@);
        },
        Stage::BuildingState => {
            reveal_strlit("failed to build finalize global state: ");
            reveal_strlit("failed to build finalize global state");
            assert("failed to build finalize global state"@ + ": "@
                =~= "failed to build finalize global state: "@);
        },
        _ => {
            reveal_strlit("finalization failed: ");
            reveal_strlit("finalization failed");
            assert("finalization failed"@ + ": "@ =~= "finalization failed: "@);
        },
    }
}

/// A program that cannot be parsed ends the session before it is added, and is named.
pub proof fn law_unparsable_program_halts(run: RunView, next: int, reason: Seq<char>)
    requires
        run.stage == Stage::LoadingProcess && next == 0 || (run.stage matches Stage::AddingProgram(
            i,
        ) && next == i + 1),
        next < run.programs.len(),
        outline_of(run.programs[next].bytecode) == Err::<OutlineView, Seq<char>>(reason),
    ensures
        is_halted(
            run,
            after_stage(run, Ok(())),
            "failed to parse bytecode for '"@ + run.programs[next].name + "': "@ + reason,
        ),
{
    reveal_strlit("failed to parse bytecode for '");
    reveal_strlit("failed to parse bytecode for");
    reveal_strlit(" '");
    assert("failed to parse bytecode for"@ + " '"@ =~= "failed to parse bytecode for '"@);
    lemma_quoted_failure(
        "failed to parse bytecode for"@,
        "failed to parse bytecode for '"@,
        run.programs[next].name,
        reason,
    );
}

/// Whether the states and actions are those of a run from the loading of the process on, in which
/// every stage ends well.
pub open spec fn goes_well(states: Seq<RunView>, actions: Seq<RunActionView>) -> bool {
    &&& states.len() > 0
    &&& actions.len() == states.len()
    &&& states[0].stage == Stage::LoadingProcess
    &&& states[0].outlines.len() == 0
    &&& states[0].programs.len() <= usize::MAX
    &&& forall|k: int|
        0 <= k < states.len() - 1 ==> #[trigger] after_stage(states[k], Ok(())) == (
            states[k + 1],
            actions[k + 1],
        )
}

proof fn lemma_goes_well(
    states: Seq<RunView>,
    actions: Seq<RunActionView>,
    parsed: Seq<OutlineView>,
    finalizes: bool,
    k: int,
)
    requires
        goes_well(states, actions),
        parsed.len() == states[0].programs.len(),
        forall|i: int|
            0 <= i < parsed.len() ==> outline_of((#[trigger] states[0].programs[i]).bytecode) == Ok::<
                OutlineView,
                Seq<char>,
            >(parsed[i]),
        program_id_of(states[0].program_id) is Ok,
        identifier_of(states[0].function_name) is Ok,
        states[0].inputs.len() <= usize::MAX,
        forall|i: int|
            0 <= i < states[0].inputs.len() ==> value_error_of(#[trigger] states[0].inputs[i])
                is None,
        finalizes == call_finalizes(parsed, states[0].program_id, states[0].function_name),
        0 <= k < states.len(),
        k <= parsed.len() + (if finalizes {
            7int
        } else {
            4
        }),
    ensures
        ({
            let n = parsed.len() as int;
            let s = states[k];
            &&& s.programs == states[0].programs
            &&& s.program_id == states[0].program_id
            &&& s.function_name == states[0].function_name
            &&& s.inputs == states[0].inputs
            &&& s.outlines == parsed.take(if k < n { k } else { n })
            &&& 0 < k <= n ==> s.stage == Stage::AddingProgram((k - 1) as usize) && actions[k]
                == RunActionView::AddProgram((k - 1) as usize)
            &&& k == n + 1 ==> s.stage == Stage::OpeningStore && actions[k]
                == RunActionView::OpenStore
            &&& k == n + 2 ==> s.stage == Stage::Authorizing && actions[k]
                == RunActionView::Authorize
            &&& k == n + 3 ==> s.stage == Stage::Evaluating && actions[k]
                == RunActionView::Evaluate
            &&& k == n + 4 && finalizes ==> s.stage == Stage::BuildingExecution && actions[k]
                == RunActionView::BuildExecution
            &&& k == n + 4 && !finalizes ==> s.stage == Stage::Ended && actions[k]
                == RunActionView::End(EventView::Finished)
            &&& k == n + 5 ==> s.stage == Stage::BuildingState && actions[k]
                == RunActionView::BuildState(EventView::PhaseChange(Phase::Finalize))
            &&& k == n + 6 ==> s.stage == Stage::Finalizing && actions[k]
                == RunActionView::Finalize
            &&& k == n + 7 ==> s.stage == Stage::Ended && actions[k] == RunActionView::End(
                EventView::Finished,
            )
        }),
    decreases k,
{
    let n = parsed.len() as int;
    if k > 0 {
        lemma_goes_well(states, actions, parsed, finalizes, k - 1);
        let before = states[k - 1];
        assert(after_stage(before, Ok(())) == (states[k], actions[k]));
        assert(parsed.take(n) =~= parsed);
        if k <= n {
            assert(parsed.take(k) =~= parsed.take(k - 1).push(parsed[k - 1]));
            assert(outline_of(states[0].programs[k - 1].bytecode) == Ok::<OutlineView, Seq<char>>(
                parsed[k - 1],
            ));
        } else if k == n + 2 {
            lemma_input_reading(before.inputs, 0, before.inputs.len() as int);
            assert(call_reading(before) == CallReadingView::Fine);
        }
    } else {
        assert(states[0].outlines =~= parsed.take(0));
    }
}

/// A session in which everything ends well loads the process, adds all its programs in their order,
/// opens the store, authorizes and evaluates the call, and is finished, after the finalize phase if
/// the called function has finalize logic. Nothing is left out and nothing is done twice, and the
/// programs and the call stay what they were.
pub proof fn law_whole_session(
    states: Seq<RunView>,
    actions: Seq<RunActionView>,
    parsed: Seq<OutlineView>,
    k: int,
)
    requires
        goes_well(states, actions),
        parsed.len() == states[0].programs.len(),
        forall|i: int|
            0 <= i < parsed.len() ==> outline_of((#[trigger] states[0].programs[i]).bytecode) == Ok::<
                OutlineView,
                Seq<char>,
            >(parsed[i]),
        program_id_of(states[0].program_id) is Ok,
        identifier_of(states[0].function_name) is Ok,
        states[0].inputs.len() <= usize::MAX,
        forall|i: int|
            0 <= i < states[0].inputs.len() ==> value_error_of(#[trigger] states[0].inputs[i])
                is None,
        0 < k < states.len(),
    ensures
        ({
            let n = parsed.len() as int;
            let finalizes = exists|p: int, i: int|
                #[trigger] is_called_and_finalizes(
                    parsed,
                    states[0].program_id,
                    states[0].function_name,
                    p,
                    i,
                );
            &&& k <= n + 4 || (finalizes && k <= n + 7) ==> {
                &&& states[k].programs == states[0].programs
                &&& states[k].program_id == states[0].program_id
                &&& states[k].function_name == states[0].function_name
                &&& states[k].inputs == states[0].inputs
            }
            &&& k <= n ==> actions[k] == RunActionView::AddProgram((k - 1) as usize)
            &&& k == n + 1 ==> actions[k] == RunActionView::OpenStore
            &&& k == n + 2 ==> actions[k] == RunActionView::Authorize
            &&& k == n + 3 ==> actions[k] == RunActionView::Evaluate
            &&& finalizes ==> {
                &&& k == n + 4 ==> actions[k] == RunActionView::BuildExecution
                &&& k == n + 5 ==> actions[k] == RunActionView::BuildState(
                    EventView::PhaseChange(Phase::Finalize),
                )
                &&& k == n + 6 ==> actions[k] == RunActionView::Finalize
                &&& k == n + 7 ==> actions[k] == RunActionView::End(EventView::Finished)
            }
            &&& !finalizes && k == n + 4 ==> actions[k] == RunActionView::End(EventView::Finished)
        }),
{
    let finalizes = call_finalizes(parsed, states[0].program_id, states[0].function_name);
    lemma_call_finalizes(parsed, states[0].program_id, states[0].function_name);
    if k <= parsed.len() + (if finalizes {
        7int
    } else {
        4
    }) {
        lemma_goes_well(states, actions, parsed, finalizes, k);
    }
}

/// A program is run with its own name and bytecode, at its own place.
pub proof fn law_programs_keep_their_texts(programs: Seq<ProgramSource>, i: int)
    requires
        0 <= i < programs.len(),
    ensures
        program_texts(programs).len() == programs.len(),
        program_texts(programs)[i].name == programs[i].name@,
        program_texts(programs)[i].bytecode == programs[i].bytecode@,
{
}

/// A name under which no program brings a debug map has none.
pub proof fn law_no_debug_map_without_a_program(
    programs: Seq<ProgramSource>,
    n: int,
    name: Seq<char>,
)
    requires
        0 <= n <= programs.len(),
        forall|i: int|
            0 <= i < n && (#[trigger] programs[i]).debug_info is Some ==> programs[i].name@ != name,
    ensures
        lookup(program_maps(programs, n), name) is None,
        lacks(program_maps(programs, n), name),
    decreases n,
{
    if n > 0 {
        law_no_debug_map_without_a_program(programs, n - 1, name);
        if let Some(map) = programs[n - 1].debug_info {
            lemma_lookup_put(program_maps(programs, n - 1), programs[n - 1].name@, map, name);
        }
    }
    law_lookup_finds_the_entry(program_maps(programs, n), name, 0);
}

proof fn lemma_inputs_readable(inputs: Seq<Seq<char>>, from: int)
    requires
        0 <= from,
    ensures
        inputs_readable(inputs, from) <==> forall|i: int|
            from <= i < inputs.len() && is_read(inputs, from, i) ==> literals_fit(
                #[trigger] inputs[i],
            ),
    decreases inputs.len() - from,
{
    if from < inputs.len() {
        lemma_inputs_readable(inputs, from + 1);
        assert(is_read(inputs, from, from));
        if value_error_of(inputs[from]) is None {
            assert forall|i: int| from + 1 <= i < inputs.len() implies is_read(inputs, from, i)
                == is_read(inputs, from + 1, i) by {
                if is_read(inputs, from + 1, i) {
                    assert forall|j: int| from <= j < i implies value_error_of(
                        #[trigger] inputs[j],
                    ) is None by {}
                }
            }
            if inputs_readable(inputs, from) {
                assert forall|i: int|
                    from <= i < inputs.len() && is_read(inputs, from, i) implies literals_fit(
                    #[trigger] inputs[i],
                ) by {
                    if i > from {
                        assert(is_read(inputs, from + 1, i));
                    }
                }
            } else if literals_fit(inputs[from]) {
                let i = choose|i: int|
                    from + 1 <= i < inputs.len() && is_read(inputs, from + 1, i) && !literals_fit(
                        #[trigger] inputs[i],
                    );
                assert(is_read(inputs, from, i));
                assert(!literals_fit(inputs[i]));
            }
        } else {
            assert forall|i: int| from < i < inputs.len() implies !is_read(inputs, from, i) by {
                assert(value_error_of(inputs[from]) is Some);
            }
        }
    }
}

/// Whether input `i` is read when the inputs are read from `from` on: all before it are values.
pub open spec fn is_read(inputs: Seq<Seq<char>>, from: int, i: int) -> bool {
    forall|j: int| from <= j < i ==> value_error_of(#[trigger] inputs[j]) is None
}

/// Whether a run can go on depends on what is read next and on nothing else: on the next program, or,
/// once the store is open, on those inputs that are read, which are none if the program ID or the
/// function name is not in order.
pub proof fn law_next_text_decides(run: RunView)
    ensures
        match run.stage {
            Stage::LoadingProcess => next_readable(run) <==> (run.programs.len() > 0
                ==> is_readable_program(run.programs[0].bytecode)),
            Stage::AddingProgram(i) => next_readable(run) <==> (i + 1 < run.programs.len()
                ==> is_readable_program(run.programs[i + 1].bytecode)),
            Stage::OpeningStore => next_readable(run) <==> program_id_of(run.program_id) is Err
                || identifier_of(run.function_name) is Err || forall|i: int|
                0 <= i < run.inputs.len() && is_read(run.inputs, 0, i) ==> literals_fit(
                    #[trigger] run.inputs[i],
                ),
            _ => next_readable(run),
        },
{
    lemma_inputs_readable(run.inputs, 0);
}

} // verus!
