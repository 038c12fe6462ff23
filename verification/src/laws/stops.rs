//! Where execution stops, and what is reported there.
use vstd::prelude::*;

use crate::breakpoints::{key_views, BreakpointKey, KeyView};
use crate::debug_map::{lookup, section_entries, DebugInstructions, ProgramDebugMap};
use crate::hook::{
    loc_at, position_at, recorded_loc, step_for, stops, Context, DebugCommand, DebugPoint,
    DebugPointKind, Frame, HookState, PendingStep, SourceLoc,
};

verus! {

/// Whether one of the breakpoints is for the point: it has the point's program, function and index, and
/// is for transitions at an instruction and for finalization at a finalize command.
pub open spec fn breaks_at(set: Set<KeyView>, point: DebugPoint) -> bool {
    exists|key: KeyView|
        {
            &&& #[trigger] set.contains(key)
            &&& key.program == point.program_id@
            &&& key.function == point.function_name@
            &&& key.context == Context::Transition <==> point.kind == DebugPointKind::Instruction
            &&& key.index == point.index
        }
}

/// Whether both places are known and are on the same line of the same file.
pub open spec fn on_one_line(a: Option<SourceLoc>, b: Option<SourceLoc>) -> bool {
    a is Some && b is Some && a->0.file == b->0.file && a->0.line == b->0.line
}

proof fn lemma_breaks_at(pending: Option<PendingStep>, state: HookState, point: DebugPoint)
    ensures
        pending is None ==> (stops(pending, state, point) <==> breaks_at(
            state.breakpoints@,
            point,
        )),
        breaks_at(state.breakpoints@, point) ==> stops(pending, state, point),
        breaks_at(state.breakpoints@, point) <==> state.breakpoints@.contains(
            crate::hook::key_at(point),
        ),
{
    let key = KeyView {
        program: point.program_id@,
        function: point.function_name@,
        context: match point.kind {
            DebugPointKind::Instruction => Context::Transition,
            DebugPointKind::FinalizeCommand => Context::Finalize,
        },
        index: point.index,
    };
    if breaks_at(state.breakpoints@, point) {
        let found = choose|found: KeyView|
            {
                &&& #[trigger] state.breakpoints@.contains(found)
                &&& found.program == point.program_id@
                &&& found.function == point.function_name@
                &&& found.context == Context::Transition <==> point.kind
                    == DebugPointKind::Instruction
                &&& found.index == point.index
            };
        assert(found == key);
    }
}

/// As long as no step is pending, and after `Continue`, execution stops exactly at the breakpoints. A
/// pending step adds stops and takes none away. After `StepInstr` it stops at the very next point, and
/// after `NextInstr` at the next one that is not inside a call. After `StepInto` it stops at the next
/// point that is not known to be on the line of the last stop, and after `StepOverLine` at the next
/// such point that is not inside a call.
pub proof fn law_where_execution_stops(
    state: HookState,
    here: DebugPoint,
    next: DebugPoint,
    pending: Option<PendingStep>,
)
    ensures
        ({
            let at_breakpoint = breaks_at(state.breakpoints@, next);
            let loc = loc_at(state, here);
            let in_call = next.depth > here.depth;
            let on_the_line = on_one_line(loc, loc_at(state, next));
            &&& stops(None, state, next) <==> at_breakpoint
            &&& at_breakpoint ==> stops(pending, state, next)
            &&& stops(step_for(DebugCommand::Continue, here.depth, loc), state, next)
                <==> at_breakpoint
            &&& stops(step_for(DebugCommand::StepInstr, here.depth, loc), state, next)
            &&& stops(step_for(DebugCommand::NextInstr, here.depth, loc), state, next)
                <==> at_breakpoint || !in_call
            &&& stops(step_for(DebugCommand::StepInto, here.depth, loc), state, next)
                <==> at_breakpoint || !on_the_line
            &&& stops(step_for(DebugCommand::StepOverLine, here.depth, loc), state, next)
                <==> at_breakpoint || (!in_call && !on_the_line)
        }),
{
    lemma_breaks_at(pending, state, next);
    lemma_breaks_at(None, state, next);
}

/// Whether entry `e` is the one that is meant by the name: it is the first one of that name.
pub open spec fn is_under<V>(entries: Seq<(Seq<char>, V)>, name: Seq<char>, e: int) -> bool {
    &&& 0 <= e < entries.len()
    &&& entries[e].0 == name
    &&& forall|j: int| 0 <= j < e ==> (#[trigger] entries[j]).0 != name
}

/// Whether no entry has the name.
pub open spec fn lacks<V>(entries: Seq<(Seq<char>, V)>, name: Seq<char>) -> bool {
    forall|j: int| 0 <= j < entries.len() ==> (#[trigger] entries[j]).0 != name
}

/// Whether a location is what the list has for an instruction; there is none behind its end, nor where
/// the list has none.
pub open spec fn is_place_of(
    list: DebugInstructions,
    index: usize,
    loc: Option<SourceLoc>,
) -> bool {
    if index < list.instructions@.len() && list.instructions@[index as int] is Some {
        let there = list.instructions@[index as int]->0;
        loc is Some && loc->0.file == there.file && loc->0.line == there.line && loc->0.col
            == there.col
    } else {
        loc is None
    }
}

/// What stands under a name is the value of the first entry that has it.
pub proof fn law_lookup_finds_the_entry<V>(
    entries: Seq<(Seq<char>, V)>,
    name: Seq<char>,
    e: int,
)
    ensures
        is_under(entries, name, e) ==> lookup(entries, name) == Some(entries[e].1),
        lacks(entries, name) <==> lookup(entries, name) is None,
    decreases entries.len(),
{
    if entries.len() > 0 && entries[0].0 != name {
        let rest = entries.skip(1);
        law_lookup_finds_the_entry(rest, name, e - 1);
        if is_under(entries, name, e) {
            assert(rest[e - 1] == entries[e]);
            assert forall|j: int| 0 <= j < e - 1 implies (#[trigger] rest[j]).0 != name by {
                assert(rest[j] == entries[j + 1]);
            }
        }
        if lacks(rest, name) {
            assert forall|j: int| 0 <= j < entries.len() implies (#[trigger] entries[j]).0
                != name by {
                if j > 0 {
                    assert(rest[j - 1] == entries[j]);
                }
            }
        }
        if lacks(entries, name) {
            assert forall|j: int| 0 <= j < rest.len() implies (#[trigger] rest[j]).0 != name by {
                assert(rest[j] == entries[j + 1]);
            }
        }
    } else if entries.len() > 0 {
        assert(entries[0].0 == name);
    }
}

/// The location of what is executed is the one in its program's debug map: that of a finalize command
/// in the finalize block of the name, that of an instruction in the function of the name, if there is
/// none in the closure, and if there is none either in the view.
pub proof fn law_location_of_a_point(
    maps: Seq<(Seq<char>, ProgramDebugMap)>,
    program: Seq<char>,
    kind: DebugPointKind,
    function: Seq<char>,
    index: usize,
    m: int,
    e: int,
)
    ensures
        lacks(maps, program) ==> recorded_loc(maps, program, kind, function, index) is None,
        is_under(maps, program, m) ==> {
            let loc = recorded_loc(maps, program, kind, function, index);
            let functions = section_entries(maps[m].1.functions);
            let closures = section_entries(maps[m].1.closures);
            let views = section_entries(maps[m].1.views);
            let finalizes = section_entries(maps[m].1.finalizes);
            match kind {
                DebugPointKind::FinalizeCommand => {
                    &&& is_under(finalizes, function, e) ==> is_place_of(finalizes[e].1, index, loc)
                    &&& lacks(finalizes, function) ==> loc is None
                },
                DebugPointKind::Instruction => {
                    &&& is_under(functions, function, e) ==> is_place_of(functions[e].1, index, loc)
                    &&& lacks(functions, function) && is_under(closures, function, e)
                        ==> is_place_of(closures[e].1, index, loc)
                    &&& lacks(functions, function) && lacks(closures, function) && is_under(
                        views,
                        function,
                        e,
                    ) ==> is_place_of(views[e].1, index, loc)
                    &&& lacks(functions, function) && lacks(closures, function) && lacks(
                        views,
                        function,
                    ) ==> loc is None
                },
            }
        },
{
    law_lookup_finds_the_entry(maps, program, m);
    if is_under(maps, program, m) {
        law_lookup_finds_the_entry(section_entries(maps[m].1.functions), function, e);
        law_lookup_finds_the_entry(section_entries(maps[m].1.closures), function, e);
        law_lookup_finds_the_entry(section_entries(maps[m].1.views), function, e);
        law_lookup_finds_the_entry(section_entries(maps[m].1.finalizes), function, e);
    }
}

/// What is reported of a point is what the machine says of it, with all its callers and registers in
/// their order, and its location.
pub proof fn law_position_is_the_point(state: HookState, point: DebugPoint, frames: Seq<Frame>)
    ensures
        ({
            let p = position_at(state, point, frames);
            &&& p.program == point.program_id@
            &&& p.function == point.function_name@
            &&& p.context == Context::Transition <==> point.kind == DebugPointKind::Instruction
            &&& p.index == point.index
            &&& p.text == point.text@
            &&& p.depth == point.depth
            &&& p.frames.len() == frames.len()
            &&& forall|i: int|
                0 <= i < frames.len() ==> {
                    &&& (#[trigger] p.frames[i]).program_id == frames[i].program_id@
                    &&& p.frames[i].function_name == frames[i].function_name@
                    &&& p.frames[i].is_dynamic == frames[i].is_dynamic
                }
            &&& p.registers.len() == point.registers@.len()
            &&& forall|i: int|
                0 <= i < point.registers@.len() ==> {
                    &&& (#[trigger] p.registers[i]).0 == point.registers@[i].0
                    &&& p.registers[i].1 == point.registers@[i].1@
                }
            &&& p.loc == loc_at(state, point)
            &&& p.loc == recorded_loc(
                crate::debug_map::debug_map_entries(state.debug_maps),
                point.program_id@,
                point.kind,
                point.function_name@,
                point.index,
            )
        }),
{
}

/// A session that was begun with these breakpoints stops at a point exactly if one of them is for it,
/// as long as no step is pending; a pending step takes no stop away.
pub proof fn law_session_stops_at_its_breakpoints(
    keys: Seq<BreakpointKey>,
    pending: Option<PendingStep>,
    state: HookState,
    point: DebugPoint,
)
    requires
        state.breakpoints@ == key_views(keys).to_set(),
    ensures
        ({
            let meant = exists|k: int|
                {
                    &&& 0 <= k < keys.len()
                    &&& (#[trigger] keys[k]).program@ == point.program_id@
                    &&& keys[k].function@ == point.function_name@
                    &&& keys[k].context == Context::Transition <==> point.kind
                        == DebugPointKind::Instruction
                    &&& keys[k].index == point.index
                };
            &&& stops(None, state, point) <==> meant
            &&& meant ==> stops(pending, state, point)
        }),
{
    lemma_breaks_at(pending, state, point);
    lemma_breaks_at(None, state, point);
    let set = state.breakpoints@;
    if breaks_at(set, point) {
        let key = choose|key: KeyView|
            {
                &&& #[trigger] set.contains(key)
                &&& key.program == point.program_id@
                &&& key.function == point.function_name@
                &&& key.context == Context::Transition <==> point.kind
                    == DebugPointKind::Instruction
                &&& key.index == point.index
            };
        let k = choose|k: int| 0 <= k < key_views(keys).len() && key_views(keys)[k] == key;
        assert(keys[k].program@ == key.program);
    }
    if exists|k: int|
        {
            &&& 0 <= k < keys.len()
            &&& (#[trigger] keys[k]).program@ == point.program_id@
            &&& keys[k].function@ == point.function_name@
            &&& keys[k].context == Context::Transition <==> point.kind
                == DebugPointKind::Instruction
            &&& keys[k].index == point.index
        } {
        let k = choose|k: int|
            {
                &&& 0 <= k < keys.len()
                &&& (#[trigger] keys[k]).program@ == point.program_id@
                &&& keys[k].function@ == point.function_name@
                &&& keys[k].context == Context::Transition <==> point.kind
                    == DebugPointKind::Instruction
                &&& keys[k].index == point.index
            };
        assert(key_views(keys)[k] == keys[k]@);
        assert(set.contains(keys[k]@));
    }
}

/// A breakpoint that is set stops execution at its own instruction and leaves the other stops as they
/// are; one that is taken away stops it there no more.
pub proof fn law_breakpoints_are_independent(set: Set<KeyView>, key: KeyView, point: DebugPoint)
    ensures
        ({
            let here = key.program == point.program_id@ && key.function == point.function_name@ && (
            key.context == Context::Transition <==> point.kind == DebugPointKind::Instruction)
                && key.index == point.index;
            &&& breaks_at(set.insert(key), point) <==> here || breaks_at(set, point)
            &&& breaks_at(set.remove(key), point) <==> !here && breaks_at(set, point)
        }),
{
    let found = choose|found: KeyView|
        {
            &&& #[trigger] set.contains(found)
            &&& found.program == point.program_id@
            &&& found.function == point.function_name@
            &&& found.context == Context::Transition <==> point.kind
                == DebugPointKind::Instruction
            &&& found.index == point.index
        };
    assert(set.insert(key).contains(key));
    if breaks_at(set, point) {
        assert(set.insert(key).contains(found));
        assert(found == key || set.remove(key).contains(found));
    }
    if breaks_at(set.insert(key), point) {
        let other = choose|other: KeyView|
            {
                &&& #[trigger] set.insert(key).contains(other)
                &&& other.program == point.program_id@
                &&& other.function == point.function_name@
                &&& other.context == Context::Transition <==> point.kind
                    == DebugPointKind::Instruction
                &&& other.index == point.index
            };
        assert(other == key || set.contains(other));
    }
    if breaks_at(set.remove(key), point) {
        let other = choose|other: KeyView|
            {
                &&& #[trigger] set.remove(key).contains(other)
                &&& other.program == point.program_id@
                &&& other.function == point.function_name@
                &&& other.context == Context::Transition <==> point.kind
                    == DebugPointKind::Instruction
                &&& other.index == point.index
            };
        assert(set.contains(other));
    }
}

} // verus!
