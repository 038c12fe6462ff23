use indexmap::IndexMap;
use leo_debugger::breakpoints::BreakpointKey;
use leo_debugger::debug::{
    choose_private_key, find_target, handle_debug, pick_private_key, resolve_breakpoint_spec,
    resolve_with_names, source_names, with_aleo_suffix, FetchedProgram, Launch, LaunchAction,
    LaunchStage, LaunchStep, LeoDebug, NetworkName, PathKind, ReadFailure, Unit,
};
use leo_debugger::debug_info::{load, Found};
use leo_debugger::debug_map::{DebugInstructions, DebugLoc, ProgramDebugMap};
use leo_debugger::hook::Context;
use leo_debugger::session::ProgramSource;
use leo_debugger::tui::App;
use leo_debugger::literals::has_fitting_literals;
use snarkvm::prelude::{PrivateKey, TestnetV0};

const HELLO: &str = "program hello.aleo;\n\nfunction main:\n    input r0 as u32.public;\n    add r0 1u32 into r1;\n    output r1 as u32.public;\n";

fn unit(name: &str, bytecode: Option<&str>) -> Unit {
    Unit { name: name.to_string(), is_library: false, bytecode: bytecode.map(str::to_string) }
}

fn library(name: &str) -> Unit {
    Unit { name: name.to_string(), is_library: true, bytecode: None }
}

fn command(name: &str, with: &[&str], breakpoints: &[&str]) -> LeoDebug {
    LeoDebug {
        name: name.to_string(),
        inputs: vec!["1u32".to_string()],
        with: with.iter().map(|s| s.to_string()).collect(),
        breakpoints: breakpoints.iter().map(|s| s.to_string()).collect(),
    }
}

fn debug_map() -> ProgramDebugMap {
    let mut functions = IndexMap::new();
    functions.insert(
        "main".to_string(),
        DebugInstructions { instructions: vec![Some(DebugLoc { file: 0, line: 4, col: 1 })] },
    );
    ProgramDebugMap {
        source_files: vec!["src/main.leo".to_string()],
        functions,
        closures: IndexMap::new(),
        finalizes: IndexMap::new(),
        views: IndexMap::new(),
        constructor: None,
    }
}

fn fail_of(step: LaunchStep) -> String {
    match step.action {
        LaunchAction::Fail(reason) => reason,
        other => panic!("unexpected action: {other:?}"),
    }
}

/// A preparation that is about to inspect its only further program.
fn inspecting(entry: &str) -> Launch {
    let mut launch = handle_debug(command("main", &[entry], &[]), vec![library("lib")]);
    let step = launch.start();
    assert!(matches!(step.action, LaunchAction::Inspect(e) if e == entry));
    launch
}

#[test]
fn the_suffix_is_added_once() {
    assert_eq!(with_aleo_suffix("hello"), "hello.aleo");
    assert_eq!(with_aleo_suffix("hello.aleo"), "hello.aleo");
    assert_eq!(with_aleo_suffix(""), ".aleo");
    assert_eq!(with_aleo_suffix(&with_aleo_suffix("a.b")), "a.b.aleo");
}

#[test]
fn the_target_is_read_from_the_name() {
    let units = vec![unit("first", None), unit("last", None)];
    let target = |name: &str| {
        let target = find_target(name, &units);
        (target.program, target.function)
    };
    assert_eq!(target("main"), ("last.aleo".to_string(), "main".to_string()));
    assert_eq!(target("a.aleo::f"), ("a.aleo".to_string(), "f".to_string()));
    assert_eq!(target("a/f"), ("a.aleo".to_string(), "f".to_string()));
    assert_eq!(target("a::b/f"), ("a::b.aleo".to_string(), "f".to_string()));
    assert_eq!(target("a/b::f"), ("a.aleo".to_string(), "b::f".to_string()));
    let bare = find_target("a::f", &Vec::new());
    assert_eq!((bare.program, bare.function), ("a.aleo".to_string(), "f".to_string()));
}

#[test]
fn packages_that_cannot_be_debugged_are_refused() {
    let refused = |units: Vec<Unit>, network: Result<NetworkName, String>| {
        command("main", &[], &[]).apply(units, network).err()
    };
    let testnet = || Ok(NetworkName::TestnetV0);
    assert_eq!(
        refused(vec![unit("a", None), library("b")], testnet()).unwrap(),
        "`leo debug` does not support library packages."
    );
    assert_eq!(
        refused(vec![unit("a", None)], Ok(NetworkName::MainnetV0)).unwrap(),
        "`leo debug` only supports TestnetV0."
    );
    assert_eq!(
        refused(vec![unit("a", None)], Ok(NetworkName::CanaryV0)).unwrap(),
        "`leo debug` only supports TestnetV0."
    );
    assert_eq!(refused(vec![library("b"), unit("a", None)], testnet()), None);
    assert_eq!(refused(vec![unit("a", None)], Err("no network".to_string())), None);
}

#[test]
fn a_package_is_loaded_in_its_order() {
    let units = vec![unit("dep", Some("dep bytecode")), library("lib"), unit("hello.aleo", None)];
    let mut launch = command("main", &["file.aleo", "remote"], &["main.leo:2"])
        .apply(units, Ok(NetworkName::TestnetV0))
        .unwrap();
    let step = launch.start();
    assert!(step.notice.is_none());
    assert!(matches!(step.action, LaunchAction::LoadDebugInfo(name) if name == "dep"));
    let step = launch.debug_info_loaded(load("dep.json", Found::Missing));
    assert!(matches!(step.action, LaunchAction::ReadBytecode(name) if name == "hello.aleo"));
    let step = launch.bytecode_read(Ok("hello bytecode".to_string()));
    assert!(matches!(step.action, LaunchAction::LoadDebugInfo(name) if name == "hello.aleo"));
    let step = launch.debug_info_loaded(load("hello.json", Found::Parsed(debug_map())));
    assert!(matches!(step.action, LaunchAction::Inspect(entry) if entry == "file.aleo"));
    let step = launch.path_inspected(PathKind::File);
    assert_eq!(step.notice.unwrap(), "📂 Loading local program from file.aleo...");
    assert!(matches!(step.action, LaunchAction::ReadProgramFile(entry) if entry == "file.aleo"));
    assert!(has_fitting_literals(HELLO));
    let step = launch.program_file_read(Ok(HELLO.to_string()));
    assert!(matches!(step.action, LaunchAction::Inspect(entry) if entry == "remote"));
    let step = launch.path_inspected(PathKind::Missing);
    assert!(matches!(step.action, LaunchAction::FindEndpoint));
    let step = launch.endpoint_found(Ok("http://localhost".to_string()));
    assert_eq!(
        step.notice.unwrap(),
        "⬇️  Fetching remote program remote.aleo and its dependencies from http://localhost..."
    );
    match step.action {
        LaunchAction::Fetch { program_id, endpoint } => {
            assert_eq!(program_id, "remote.aleo");
            assert_eq!(endpoint, "http://localhost");
        }
        other => panic!("unexpected action: {other:?}"),
    }
    let fetched = |name: &str| FetchedProgram {
        name: name.to_string(),
        bytecode: format!("{name} bytecode"),
    };
    let step = launch.programs_fetched(Ok(vec![fetched("x.aleo"), fetched("remote.aleo")]));
    assert!(matches!(step.action, LaunchAction::Finish));
    assert_eq!(launch.stage, LaunchStage::Complete);

    let config = launch.configure().unwrap();
    let loaded: Vec<(&str, &str)> =
        config.programs.iter().map(|p| (p.name.as_str(), p.bytecode.as_str())).collect();
    assert_eq!(
        loaded,
        vec![
            ("dep.aleo", "dep bytecode"),
            ("hello.aleo", "hello bytecode"),
            ("hello.aleo", HELLO),
            ("x.aleo", "x.aleo bytecode"),
            ("remote.aleo", "remote.aleo bytecode"),
        ]
    );
    assert!(config.programs[1].debug_info.is_some());
    assert!(config.programs[2].debug_info.is_none());
    assert_eq!(config.program_id, "hello.aleo");
    assert_eq!(config.function_name, "main");
    assert_eq!(config.inputs, vec!["1u32".to_string()]);
    let entry = BreakpointKey {
        program: "hello.aleo".to_string(),
        function: "main".to_string(),
        context: Context::Transition,
        index: 0,
    };
    assert_eq!(config.initial_breakpoints, vec![entry.clone(), entry]);
}

#[test]
fn a_package_that_cannot_be_loaded_is_given_up() {
    let start = || {
        let mut launch = handle_debug(command("main", &[], &[]), vec![unit("a", None)]);
        launch.start();
        launch
    };
    let failure = ReadFailure { path: "build/a.aleo".to_string(), reason: "gone".to_string() };
    let mut launch = start();
    assert_eq!(
        fail_of(launch.bytecode_read(Err(failure))),
        "Failed to read bytecode at build/a.aleo: gone"
    );
    assert_eq!(launch.stage, LaunchStage::Failed);
    let mut launch = start();
    launch.bytecode_read(Ok(String::new()));
    assert_eq!(
        fail_of(launch.debug_info_loaded(load("a.json", Found::Malformed))),
        "Failed to load debug info for 'a': failed to parse debug info at a.json"
    );
}

#[test]
fn further_programs_that_cannot_be_loaded_are_given_up() {
    let mut launch = inspecting("dir");
    assert_eq!(
        fail_of(launch.path_inspected(PathKind::Other)),
        "'dir' exists but is not a file."
    );
    let mut launch = inspecting("file");
    launch.path_inspected(PathKind::File);
    assert_eq!(
        fail_of(launch.program_file_read(Err("locked".to_string()))),
        "Failed to read program file 'file': locked"
    );
    let mut launch = inspecting("file");
    launch.path_inspected(PathKind::File);
    assert!(fail_of(launch.program_file_read(Ok("no program".to_string())))
        .starts_with("Failed to parse program from 'file': Failed to parse string. "));
    let mut launch = inspecting("file");
    launch.path_inspected(PathKind::File);
    assert_eq!(
        fail_of(launch.program_parsed("text".to_string(), Err("odd".to_string()))),
        "Failed to parse program from 'file': odd"
    );
    let mut launch = inspecting("remote");
    launch.path_inspected(PathKind::Missing);
    assert_eq!(fail_of(launch.endpoint_found(Err("no endpoint".to_string()))), "no endpoint");
    let mut launch = inspecting("1remote");
    launch.path_inspected(PathKind::Missing);
    let step = launch.endpoint_found(Ok("e".to_string()));
    assert!(step.notice.is_some());
    assert!(fail_of(step).starts_with("Failed to parse program ID '1remote.aleo': "));
    let mut launch = inspecting("remote");
    launch.path_inspected(PathKind::Missing);
    assert_eq!(
        fail_of(launch.program_id_parsed("e".to_string(), Err("odd".to_string()))),
        "Failed to parse program ID 'remote.aleo': odd"
    );
    let mut launch = inspecting("remote");
    launch.path_inspected(PathKind::Missing);
    launch.endpoint_found(Ok("e".to_string()));
    assert_eq!(fail_of(launch.programs_fetched(Err("offline".to_string()))), "offline");
}

#[test]
fn a_breakpoint_that_is_not_in_order_ends_the_preparation() {
    let mut launch =
        handle_debug(command("main", &[], &["main.leo:1", "main.leo"]), vec![unit("a", Some(""))]);
    launch.start();
    launch.debug_info_loaded(Ok(Some(debug_map())));
    assert_eq!(
        launch.configure().err().unwrap(),
        "Invalid breakpoint 'main.leo': expected 'file:line' or 'program.aleo:file:line'"
    );
}

#[test]
fn breakpoints_of_the_command_line_are_resolved() {
    let programs = vec![
        ProgramSource { name: "bare.aleo".to_string(), bytecode: String::new(), debug_info: None },
        ProgramSource {
            name: "a.aleo".to_string(),
            bytecode: String::new(),
            debug_info: Some(debug_map()),
        },
    ];
    let key = resolve_breakpoint_spec("main.leo:1", &programs).unwrap();
    assert_eq!((key.program.as_str(), key.function.as_str(), key.index), ("a.aleo", "main", 0));
    assert_eq!(
        resolve_breakpoint_spec("bare.aleo:main.leo:1", &programs).unwrap_err(),
        "Could not resolve breakpoint 'bare.aleo:main.leo:1' against any loaded program's debug info"
    );
    let tables = source_names(&programs);
    assert_eq!(tables, vec![vec![Some("main.leo".to_string())]]);
    assert_eq!(resolve_with_names("a.aleo:src/main.leo:4", &programs, &tables).unwrap(), key);
}

#[test]
fn debug_maps_are_loaded_from_what_is_found() {
    assert!(load("p", Found::Missing).unwrap().is_none());
    assert_eq!(load("p", Found::Unreadable).unwrap_err(), "failed to read debug info at p");
    assert_eq!(load("p", Found::Malformed).unwrap_err(), "failed to parse debug info at p");
    assert_eq!(
        load("p", Found::Parsed(debug_map())).unwrap().unwrap().source_files,
        vec!["src/main.leo".to_string()]
    );
}

#[test]
fn a_valid_private_key_is_kept() {
    let key = PrivateKey::<TestnetV0>::new(&mut rand::rng()).unwrap().to_string();
    let choice = choose_private_key(Some(key.clone()), "fallback");
    assert_eq!(choice.key, key);
    assert!(choice.notice.is_none());
    for given in [None, Some("APrivateKey1".to_string()), Some(key[1..].to_string())] {
        let choice = choose_private_key(given, "fallback");
        assert_eq!(choice.key, "fallback");
        assert_eq!(
            choice.notice.unwrap(),
            "⚠️ No valid private key specified, defaulting to 'fallback'."
        );
    }
    assert_eq!(pick_private_key("k".to_string(), true, "f").key, "k");
    assert_eq!(pick_private_key("k".to_string(), false, "f").key, "f");
}

#[test]
fn breakpoints_mean_the_same_on_the_console() {
    let programs = || {
        vec![
            ProgramSource {
                name: "bare.aleo".to_string(),
                bytecode: String::new(),
                debug_info: None,
            },
            ProgramSource {
                name: "a.aleo".to_string(),
                bytecode: String::new(),
                debug_info: Some(debug_map()),
            },
        ]
    };
    let app = App::new(programs());
    for spec in ["main.leo:1", "a.aleo:main.leo:4", "main.leo:5", "b.aleo:main.leo:1", "main.leo", "x:y"] {
        assert_eq!(
            app.resolve_breakpoint(spec, &app.known_names()),
            resolve_breakpoint_spec(spec, &programs())
        );
    }
}
