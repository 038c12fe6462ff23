use indexmap::IndexMap;
use leo_debugger::breakpoints::{
    match_file, resolve_file_index, BreakpointKey, BreakpointSet, ReverseIndex,
};
use leo_debugger::debug_map::{DebugInstructions, DebugLoc, ProgramDebugMap};
use leo_debugger::hook::Context;
use leo_debugger::locate::{name_tables, resolve_known, resolve_spec, KnownProgram};
use leo_debugger::paths::file_names;

fn key(program: &str, function: &str, context: Context, index: usize) -> BreakpointKey {
    BreakpointKey { program: program.to_string(), function: function.to_string(), context, index }
}

fn lines(list: &[Option<(usize, u32)>]) -> DebugInstructions {
    DebugInstructions {
        instructions: list
            .iter()
            .map(|loc| loc.map(|(file, line)| DebugLoc { file, line, col: 1 }))
            .collect(),
    }
}

fn empty_map(files: &[&str]) -> ProgramDebugMap {
    ProgramDebugMap {
        source_files: files.iter().map(|s| s.to_string()).collect(),
        functions: IndexMap::new(),
        closures: IndexMap::new(),
        finalizes: IndexMap::new(),
        views: IndexMap::new(),
        constructor: None,
    }
}

#[test]
fn a_set_holds_what_was_inserted() {
    let mut set = BreakpointSet::default();
    assert!(set.insert(key("a.aleo", "main", Context::Transition, 3)));
    assert!(!set.insert(key("a.aleo", "main", Context::Transition, 3)));
    assert!(set.contains("a.aleo", "main", Context::Transition, 3));
    assert!(!set.contains("a.aleo", "main", Context::Finalize, 3));
    assert!(!set.contains("b.aleo", "main", Context::Transition, 3));
    assert!(!set.contains("a.aleo", "other", Context::Transition, 3));
    assert!(!set.contains("a.aleo", "main", Context::Transition, 4));
    assert_eq!(set.iter().count(), 1);
}

#[test]
fn removing_undoes_inserting() {
    let mut set = BreakpointSet::default();
    set.insert(key("a.aleo", "main", Context::Transition, 1));
    set.insert(key("a.aleo", "main", Context::Transition, 2));
    assert!(set.remove(&key("a.aleo", "main", Context::Transition, 1)));
    assert!(!set.remove(&key("a.aleo", "main", Context::Transition, 1)));
    assert!(!set.contains("a.aleo", "main", Context::Transition, 1));
    assert!(set.contains("a.aleo", "main", Context::Transition, 2));
    assert_eq!(set.iter().count(), 1);
}

#[test]
fn a_line_resolves_to_the_nearest_line_behind_it() {
    let mut map = empty_map(&["main.leo"]);
    map.functions.insert("f".to_string(), lines(&[Some((0, 10)), None, Some((0, 12)), Some((0, 10))]));
    map.functions.insert("g".to_string(), lines(&[Some((0, 20))]));
    let index = ReverseIndex::build(&map);
    assert_eq!(index.resolve(0, 10), Some(("f".to_string(), Context::Transition, 0, 10)));
    assert_eq!(index.resolve(0, 1), Some(("f".to_string(), Context::Transition, 0, 10)));
    assert_eq!(index.resolve(0, 11), Some(("f".to_string(), Context::Transition, 2, 12)));
    assert_eq!(index.resolve(0, 13), Some(("g".to_string(), Context::Transition, 0, 20)));
    assert_eq!(index.resolve(0, 21), None);
    assert_eq!(index.resolve(1, 10), None);
}

#[test]
fn the_parts_of_a_map_come_with_their_contexts() {
    let mut map = empty_map(&["main.leo"]);
    map.closures.insert("c".to_string(), lines(&[Some((0, 30))]));
    map.views.insert("v".to_string(), lines(&[Some((0, 40))]));
    map.finalizes.insert("f".to_string(), lines(&[Some((0, 50))]));
    map.constructor = Some(lines(&[None, Some((0, 60))]));
    let index = ReverseIndex::build(&map);
    assert_eq!(index.resolve(0, 30), Some(("c".to_string(), Context::Transition, 0, 30)));
    assert_eq!(index.resolve(0, 31), Some(("v".to_string(), Context::Transition, 0, 40)));
    assert_eq!(index.resolve(0, 50), Some(("f".to_string(), Context::Finalize, 0, 50)));
    assert_eq!(index.resolve(0, 51), Some(("constructor".to_string(), Context::Finalize, 1, 60)));
}

#[test]
fn lines_up_to_the_resolved_one_resolve_alike() {
    let mut map = empty_map(&["main.leo"]);
    map.functions.insert("f".to_string(), lines(&[Some((0, 7)), Some((0, 3)), Some((0, 7))]));
    let index = ReverseIndex::build(&map);
    for line in 0..8 {
        let found = index.resolve(0, line).unwrap();
        assert!(found.3 >= line);
        for between in line..=found.3 {
            assert_eq!(index.resolve(0, between), Some(found.clone()));
        }
    }
}

#[test]
fn a_file_is_found_by_its_path_or_its_name() {
    let map = empty_map(&["/a/src/lib.leo", "src/main.leo", "other/main.leo"]);
    assert_eq!(resolve_file_index(&map, "main.leo"), Some(1));
    assert_eq!(resolve_file_index(&map, "other/main.leo"), Some(2));
    let map = empty_map(&["C:/one\\two/lib.leo/.", "a:b/c\\d//main.leo", "main.leo/.."]);
    assert_eq!(resolve_file_index(&map, "main.leo"), Some(1));
    assert_eq!(resolve_file_index(&map, "lib.leo"), Some(0));
    assert_eq!(resolve_file_index(&map, ".."), None);
    assert_eq!(resolve_file_index(&map, "lib.leo"), Some(0));
    assert_eq!(resolve_file_index(&map, "src"), None);
    let paths = vec!["x".to_string(), "y".to_string()];
    let names = vec![None, Some("x".to_string())];
    assert_eq!(match_file(&paths, &names, "x"), Some(0));
    assert_eq!(match_file(&paths, &names, "z"), None);
}

#[test]
fn file_names_are_last_components() {
    let paths: Vec<String> =
        ["a/b.leo", "a/b/", "a/.", "..", "/", "", "b.leo", "a/../c"].iter().map(|s| s.to_string()).collect();
    let names = file_names(&paths);
    let expected: Vec<Option<String>> = vec![
        Some("b.leo".to_string()),
        Some("b".to_string()),
        Some("a".to_string()),
        None,
        None,
        None,
        Some("b.leo".to_string()),
        Some("c".to_string()),
    ];
    assert_eq!(names, expected);
}

#[test]
fn breakpoints_are_resolved_as_they_are_written() {
    let mut one = empty_map(&["src/main.leo"]);
    one.functions.insert("f".to_string(), lines(&[Some((0, 10))]));
    let mut two = empty_map(&["src/main.leo", "src/lib.leo"]);
    two.functions.insert("g".to_string(), lines(&[Some((0, 15)), Some((1, 2))]));
    let known = vec![
        KnownProgram { name: "one.aleo", debug_info: &one },
        KnownProgram { name: "two.aleo", debug_info: &two },
    ];
    let found = |spec: &str| resolve_spec(spec, &known);
    assert_eq!(found("main.leo:3").unwrap(), key("one.aleo", "f", Context::Transition, 0));
    assert_eq!(found("src/main.leo:10").unwrap(), key("one.aleo", "f", Context::Transition, 0));
    assert_eq!(found("main.leo:11").unwrap(), key("two.aleo", "g", Context::Transition, 0));
    assert_eq!(found("two.aleo:main.leo:3").unwrap(), key("two.aleo", "g", Context::Transition, 0));
    assert_eq!(found("lib.leo:+1").unwrap(), key("two.aleo", "g", Context::Transition, 1));
    assert_eq!(
        found("main.leo").unwrap_err(),
        "Invalid breakpoint 'main.leo': expected 'file:line' or 'program.aleo:file:line'"
    );
    assert_eq!(
        found("main.leo:x").unwrap_err(),
        "Invalid line number in breakpoint 'main.leo:x'"
    );
    assert_eq!(
        found("a:b:c:4").unwrap_err(),
        "Invalid line number in breakpoint 'a:b:c:4'"
    );
    assert_eq!(
        found("main.leo:4294967296").unwrap_err(),
        "Invalid line number in breakpoint 'main.leo:4294967296'"
    );
    assert_eq!(
        found("main.leo:99").unwrap_err(),
        "Could not resolve breakpoint 'main.leo:99' against any loaded program's debug info"
    );
    assert_eq!(
        found("three.aleo:main.leo:3").unwrap_err(),
        "Could not resolve breakpoint 'three.aleo:main.leo:3' against any loaded program's debug info"
    );
    let tables = name_tables(&known);
    assert_eq!(tables.len(), 2);
    assert_eq!(tables[1][1], Some("lib.leo".to_string()));
    assert!(resolve_known("main.leo:3", &known, &tables).is_ok());
}

#[test]
fn the_first_function_on_a_line_wins() {
    let mut map = empty_map(&["main.leo"]);
    map.functions.insert("f".to_string(), lines(&[Some((0, 1))]));
    map.functions.insert("g".to_string(), lines(&[None, Some((0, 5)), Some((0, 5))]));
    map.closures.insert("c".to_string(), lines(&[Some((0, 5)), Some((0, 6))]));
    map.views.insert("v".to_string(), lines(&[Some((0, 6)), Some((0, 7))]));
    map.finalizes.insert("f".to_string(), lines(&[Some((0, 7)), Some((0, 8))]));
    map.constructor = Some(lines(&[Some((0, 8)), Some((0, 9))]));
    let index = ReverseIndex::build(&map);
    let found = |line: u32| index.resolve(0, line).unwrap();
    assert_eq!(found(2), ("g".to_string(), Context::Transition, 1, 5));
    assert_eq!(found(6), ("c".to_string(), Context::Transition, 1, 6));
    assert_eq!(found(7), ("v".to_string(), Context::Transition, 1, 7));
    assert_eq!(found(8), ("f".to_string(), Context::Finalize, 1, 8));
    assert_eq!(found(9), ("constructor".to_string(), Context::Finalize, 1, 9));
}
