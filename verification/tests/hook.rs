use indexmap::IndexMap;
use leo_debugger::breakpoints::{BreakpointKey, ReverseIndex};
use leo_debugger::debug_map::{DebugInstructions, DebugLoc, ProgramDebugMap};
use leo_debugger::hook::{
    make_hook, Context, DebugAction, DebugCommand, DebugEvent, DebugPoint, DebugPointKind, Frame,
    Granularity, Hook, HookAction, HookState, PendingStep, SourceLoc,
};

fn instructions(lines: &[Option<u32>]) -> DebugInstructions {
    DebugInstructions {
        instructions: lines.iter().map(|l| l.map(|line| DebugLoc { file: 0, line, col: 3 })).collect(),
    }
}

fn state() -> HookState {
    let mut map = ProgramDebugMap {
        source_files: vec!["main.leo".to_string()],
        functions: IndexMap::new(),
        closures: IndexMap::new(),
        finalizes: IndexMap::new(),
        views: IndexMap::new(),
        constructor: Some(instructions(&[Some(50)])),
    };
    map.functions.insert("f".to_string(), instructions(&[Some(1), Some(1), Some(2), None]));
    map.closures.insert("f".to_string(), instructions(&[Some(90)]));
    map.closures.insert("c".to_string(), instructions(&[Some(5)]));
    map.views.insert("v".to_string(), instructions(&[Some(6)]));
    map.finalizes.insert("f".to_string(), instructions(&[Some(7)]));
    let mut state = HookState::default();
    state.debug_maps.insert("p.aleo".to_string(), map);
    state
}

fn at(function: &str, index: usize, depth: usize) -> DebugPoint {
    DebugPoint {
        program_id: "p.aleo".to_string(),
        function_name: function.to_string(),
        kind: DebugPointKind::Instruction,
        index,
        text: "nop".to_string(),
        depth,
        registers: Vec::new(),
    }
}

fn stops(hook: &mut Hook, state: &HookState, point: DebugPoint) -> bool {
    matches!(hook.reach(state, point, Vec::new()), HookAction::Stop(_))
}

/// A hook that has stopped at the first instruction of `f` and was given the command.
fn after(command: DebugCommand, state: &mut HookState, depth: usize) -> Hook {
    let key = BreakpointKey {
        program: "p.aleo".to_string(),
        function: "f".to_string(),
        context: Context::Transition,
        index: 0,
    };
    let mut hook = make_hook();
    state.breakpoints.insert(key.clone());
    assert!(stops(&mut hook, state, at("f", 0, depth)));
    state.breakpoints.remove(&key);
    assert_eq!(hook.command(command), DebugAction::Continue);
    hook
}

#[test]
fn locations_are_looked_up_in_their_sections() {
    let state = state();
    let line = |kind: DebugPointKind, function: &str, index: usize| {
        state.source_loc("p.aleo", kind, function, index).map(|loc| loc.line)
    };
    assert_eq!(line(DebugPointKind::Instruction, "f", 0), Some(1));
    assert_eq!(line(DebugPointKind::Instruction, "f", 3), None);
    assert_eq!(line(DebugPointKind::Instruction, "f", 4), None);
    assert_eq!(line(DebugPointKind::Instruction, "c", 0), Some(5));
    assert_eq!(line(DebugPointKind::Instruction, "v", 0), Some(6));
    assert_eq!(line(DebugPointKind::FinalizeCommand, "f", 0), Some(7));
    assert_eq!(line(DebugPointKind::FinalizeCommand, "constructor", 0), None);
    assert_eq!(state.source_loc("q.aleo", DebugPointKind::Instruction, "f", 0), None);
    assert_eq!(
        state.source_loc("p.aleo", DebugPointKind::Instruction, "f", 2),
        Some(SourceLoc { file: 0, line: 2, col: 3 })
    );
}

#[test]
fn kinds_have_their_contexts() {
    assert_eq!(Context::from(DebugPointKind::Instruction), Context::Transition);
    assert_eq!(Context::from(DebugPointKind::FinalizeCommand), Context::Finalize);
}

#[test]
fn nothing_stops_a_fresh_hook() {
    let state = state();
    let mut hook = make_hook();
    assert!(!stops(&mut hook, &state, at("f", 0, 0)));
    assert_eq!(hook.stopped, None);
}

#[test]
fn a_stop_reports_where_execution_is() {
    let mut state = state();
    state.breakpoints.insert(BreakpointKey {
        program: "p.aleo".to_string(),
        function: "f".to_string(),
        context: Context::Transition,
        index: 2,
    });
    let mut hook = make_hook();
    let mut point = at("f", 2, 1);
    point.registers = vec![(3, "8u8".to_string())];
    let frames = vec![Frame {
        program_id: "q.aleo".to_string(),
        function_name: "g".to_string(),
        is_dynamic: true,
    }];
    match hook.reach(&state, point, frames) {
        HookAction::Stop(DebugEvent::Stopped(position)) => {
            assert_eq!(position.program, "p.aleo");
            assert_eq!(position.function, "f");
            assert_eq!(position.context, Context::Transition);
            assert_eq!(position.index, 2);
            assert_eq!(position.text, "nop");
            assert_eq!(position.depth, 1);
            assert_eq!(position.frames.len(), 1);
            assert_eq!(position.frames[0].function_name, "g");
            assert_eq!(position.loc, Some(SourceLoc { file: 0, line: 2, col: 3 }));
            assert_eq!(position.registers, vec![(3, "8u8".to_string())]);
        }
        other => panic!("unexpected action: {other:?}"),
    }
    assert!(hook.stopped.is_some());
}

#[test]
fn continue_stops_at_breakpoints_alone() {
    let mut state = state();
    let mut hook = after(DebugCommand::Continue, &mut state, 0);
    for index in 0..4 {
        assert!(!stops(&mut hook, &state, at("f", index, 0)));
    }
}

#[test]
fn stepping_by_instructions_stops_at_the_next_one() {
    let mut state = state();
    let mut hook = after(DebugCommand::StepInstr, &mut state, 0);
    assert!(stops(&mut hook, &state, at("c", 0, 1)));
}

#[test]
fn the_next_instruction_is_not_inside_a_call() {
    let mut state = state();
    let mut hook = after(DebugCommand::NextInstr, &mut state, 1);
    assert!(!stops(&mut hook, &state, at("c", 0, 2)));
    assert!(stops(&mut hook, &state, at("f", 1, 1)));
    assert!(stops(&mut hook, &state, at("f", 1, 0)));
}

#[test]
fn stepping_by_lines_leaves_the_line() {
    let mut state = state();
    let mut hook = after(DebugCommand::StepInto, &mut state, 0);
    assert!(!stops(&mut hook, &state, at("f", 1, 0)));
    assert!(stops(&mut hook, &state, at("c", 0, 1)));
    assert!(stops(&mut hook, &state, at("f", 2, 0)));
    assert!(stops(&mut hook, &state, at("f", 3, 0)));
}

#[test]
fn stepping_over_a_line_leaves_calls_alone() {
    let mut state = state();
    let mut hook = after(DebugCommand::StepOverLine, &mut state, 0);
    assert!(!stops(&mut hook, &state, at("c", 0, 1)));
    assert!(!stops(&mut hook, &state, at("f", 1, 0)));
    assert!(stops(&mut hook, &state, at("f", 2, 0)));
}

#[test]
fn a_step_knows_where_it_ends() {
    let loc = |file: usize, line: u32| Some(SourceLoc { file, line, col: 1 });
    let step = PendingStep {
        depth_at_issue: 2,
        over: true,
        granularity: Granularity::Line,
        start_loc: Some((0, 4)),
    };
    assert!(!step.should_pause(loc(0, 5), 3));
    assert!(!step.should_pause(loc(0, 4), 2));
    assert!(step.should_pause(loc(1, 4), 2));
    assert!(step.should_pause(loc(0, 5), 1));
    assert!(step.should_pause(None, 2));
    let anywhere = PendingStep { start_loc: None, ..step };
    assert!(anywhere.should_pause(loc(0, 4), 2));
    let by_instruction = PendingStep { granularity: Granularity::Instruction, over: false, ..step };
    assert!(by_instruction.should_pause(loc(0, 4), 9));
}

#[test]
fn quitting_and_closed_channels_halt_execution() {
    let mut state = state();
    let mut hook = after(DebugCommand::StepInstr, &mut state, 0);
    assert!(stops(&mut hook, &state, at("f", 1, 0)));
    let pending = hook.pending;
    assert_eq!(hook.command(DebugCommand::Quit), DebugAction::Halt("quit".to_string()));
    assert_eq!(hook.pending, pending);
    assert_eq!(
        hook.events_closed(),
        DebugAction::Halt("debug event channel closed".to_string())
    );
    assert_eq!(
        hook.commands_closed(),
        DebugAction::Halt("debug command channel closed".to_string())
    );
    assert_eq!(hook.stopped, None);
}

#[test]
fn a_resolved_instruction_leads_back_to_its_line() {
    let mut state = state();
    let map = state.debug_maps.get_mut("p.aleo").unwrap();
    map.closures.shift_remove("f");
    map.constructor = None;
    let index = ReverseIndex::build(map);
    for line in 0..8 {
        let (function, context, instruction, resolved) = index.resolve(0, line).unwrap();
        let kind = match context {
            Context::Transition => DebugPointKind::Instruction,
            Context::Finalize => DebugPointKind::FinalizeCommand,
        };
        let loc = state.source_loc("p.aleo", kind, &function, instruction).unwrap();
        assert_eq!((loc.file, loc.line), (0, resolved));
    }
}
