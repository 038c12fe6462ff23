//! Breakpoints as the user writes them: `file:line`, or `program.aleo:file:line`.
use vstd::prelude::*;

use crate::breakpoints::{
    first_file, match_file, resolved, BreakpointKey, KeyView, ReverseIndex,
};
use crate::debug_map::ProgramDebugMap;
use crate::hook::{law_resolution_is_recorded, map_records_line};
use crate::paths::{are_file_names, file_names, optional_texts};
use crate::records::{line_groups, law_resolves_to_a_record, map_records, resolution};
use crate::text::{number, parse_u32, pieces, same, split_n, texts};

verus! {

/// A program whose debug map is known.
pub struct KnownProgram<'a> {
    pub name: &'a str,
    pub debug_info: &'a ProgramDebugMap,
}

/// The names and the debug maps of the programs.
pub open spec fn known_views(known: Seq<KnownProgram<'_>>) -> Seq<(Seq<char>, ProgramDebugMap)> {
    Seq::new(known.len(), |i: int| (known[i].name@, *known[i].debug_info))
}

/// A program with a name, which may have a debug map.
pub trait Listed {
    /// The name, and the debug map if there is one.
    spec fn listing(&self) -> (Seq<char>, Option<ProgramDebugMap>);

    /// The name.
    fn listed_name(&self) -> (name: &str)
        ensures
            name@ == self.listing().0,
    ;

    /// The debug map, if there is one.
    fn listed_map(&self) -> (map: &Option<ProgramDebugMap>)
        ensures
            *map == self.listing().1,
    ;
}

/// The names of the programs, with their debug maps.
pub open spec fn listings<P: Listed>(programs: Seq<P>) -> Seq<
    (Seq<char>, Option<ProgramDebugMap>),
> {
    Seq::new(programs.len(), |i: int| programs[i].listing())
}

/// The programs, of those from index `from` on, whose debug maps are known.
pub open spec fn known_in(programs: Seq<(Seq<char>, Option<ProgramDebugMap>)>, from: int) -> Seq<
    (Seq<char>, ProgramDebugMap),
>
    decreases programs.len() - from,
{
    if from >= programs.len() {
        Seq::empty()
    } else {
        let rest = known_in(programs, from + 1);
        match programs[from].1 {
            Some(map) => seq![(programs[from].0, map)] + rest,
            None => rest,
        }
    }
}

/// The programs whose debug maps are known.
pub fn known_programs<P: Listed>(programs: &Vec<P>) -> (known: Vec<KnownProgram<'_>>)
    ensures
        known_views(known@) == known_in(listings(programs@), 0),
{
    let ghost listed = listings(programs@);
    let mut known: Vec<KnownProgram<'_>> = Vec::new();
    let mut i: usize = 0;
    assert(known_views(known@) + known_in(listed, 0) == known_in(listed, 0));
    while i < programs.len()
        invariant
            i <= programs.len(),
            listed == listings(programs@),
            known_views(known@) + known_in(listed, i as int) == known_in(listed, 0),
        decreases programs.len() - i,
    {
        let ghost before = known_views(known@);
        let ghost rest = known_in(listed, i as int + 1);
        if let Some(map) = programs[i].listed_map() {
            known.push(KnownProgram { name: programs[i].listed_name(), debug_info: map });
            proof {
                let entry = (listed[i as int].0, listed[i as int].1->0);
                assert(known_views(known@) == before.push(entry));
                assert(before + (seq![entry] + rest) == before.push(entry) + rest);
            }
        }
        i += 1;
    }
    assert(known_views(known@) + Seq::empty() == known_views(known@));
    known
}

/// For each program, the file names of its source files.
pub open spec fn table_views(tables: Seq<Vec<Option<String>>>) -> Seq<Seq<Option<Seq<char>>>> {
    Seq::new(tables.len(), |i: int| optional_texts(tables[i]@))
}

/// Whether each table holds what the platform takes for the file names of its program's source
/// files.
pub open spec fn are_name_tables(
    known: Seq<(Seq<char>, ProgramDebugMap)>,
    tables: Seq<Seq<Option<Seq<char>>>>,
) -> bool {
    &&& tables.len() == known.len()
    &&& forall|i: int|
        0 <= i < known.len() ==> are_file_names(
            texts(known[i].1.source_files@),
            #[trigger] tables[i],
        )
}

/// Whether there is a table for each program, with a place for each of its source files.
pub open spec fn are_tables_for(
    known: Seq<(Seq<char>, ProgramDebugMap)>,
    tables: Seq<Seq<Option<Seq<char>>>>,
) -> bool {
    &&& tables.len() == known.len()
    &&& forall|i: int|
        0 <= i < known.len() ==> (#[trigger] tables[i]).len() == known[i].1.source_files@.len()
}

/// The parts of a breakpoint: the program, if it is given, the file, and the line.
pub open spec fn breakpoint_parts(spec: Seq<char>) -> Option<
    (Option<Seq<char>>, Seq<char>, Seq<char>),
> {
    let parts = pieces(spec, ':', 3);
    if parts.len() == 2 {
        Some((None, parts[0], parts[1]))
    } else if parts.len() == 3 {
        Some((Some(parts[0]), parts[1], parts[2]))
    } else {
        None
    }
}

/// The instruction of one program that a line of a file resolves to, if the program is wanted and
/// has such a file.
pub open spec fn breakpoint_in(
    program: (Seq<char>, ProgramDebugMap),
    names: Seq<Option<Seq<char>>>,
    filter: Option<Seq<char>>,
    file: Seq<char>,
    line: u32,
) -> Option<KeyView> {
    if filter is Some && filter->0 != program.0 {
        None
    } else {
        match first_file(texts(program.1.source_files@), names, file, 0) {
            None => None,
            Some(index) => match resolution(
                line_groups(map_records(program.1)),
                index as usize,
                line,
            ) {
                None => None,
                Some(r) => Some(
                    KeyView {
                        program: program.0,
                        function: r.function,
                        context: r.context,
                        index: r.index,
                    },
                ),
            },
        }
    }
}

/// The first program, from index `from` on, that has an instruction for the line decides.
pub open spec fn first_breakpoint(
    known: Seq<(Seq<char>, ProgramDebugMap)>,
    tables: Seq<Seq<Option<Seq<char>>>>,
    filter: Option<Seq<char>>,
    file: Seq<char>,
    line: u32,
    from: int,
) -> Option<KeyView>
    decreases known.len() - from,
{
    if from >= known.len() {
        None
    } else {
        match breakpoint_in(known[from], tables[from], filter, file, line) {
            Some(key) => Some(key),
            None => first_breakpoint(known, tables, filter, file, line, from + 1),
        }
    }
}

/// What is said of a breakpoint that is not written as one.
pub open spec fn malformed_text(spec: Seq<char>) -> Seq<char> {
    "Invalid breakpoint '"@ + spec + "': expected 'file:line' or 'program.aleo:file:line'"@
}

/// What is said of a breakpoint whose line is no number.
pub open spec fn bad_line_text(spec: Seq<char>) -> Seq<char> {
    "Invalid line number in breakpoint '"@ + spec + "'"@
}

/// What is said of a breakpoint for which there is no instruction.
pub open spec fn unresolved_text(spec: Seq<char>) -> Seq<char> {
    "Could not resolve breakpoint '"@ + spec + "' against any loaded program's debug info"@
}

/// The instruction that a breakpoint stands for, or what is wrong with it.
pub open spec fn breakpoint_for(
    spec: Seq<char>,
    known: Seq<(Seq<char>, ProgramDebugMap)>,
    tables: Seq<Seq<Option<Seq<char>>>>,
) -> Result<KeyView, Seq<char>> {
    match breakpoint_parts(spec) {
        None => Err(malformed_text(spec)),
        Some((filter, file, line)) => match number(line, u32::MAX as nat) {
            None => Err(bad_line_text(spec)),
            Some(n) => match first_breakpoint(known, tables, filter, file, n as u32, 0) {
                Some(key) => Ok(key),
                None => Err(unresolved_text(spec)),
            },
        },
    }
}

/// What a resolved breakpoint says.
pub open spec fn breakpoint_result(r: Result<BreakpointKey, String>) -> Result<
    KeyView,
    Seq<char>,
> {
    match r {
        Ok(key) => Ok(key@),
        Err(text) => Err(text@),
    }
}

/// For each program, the file names of its source files.
pub fn name_tables(known: &Vec<KnownProgram<'_>>) -> (tables: Vec<Vec<Option<String>>>)
    ensures
        are_name_tables(known_views(known@), table_views(tables@)),
{
    let mut tables: Vec<Vec<Option<String>>> = Vec::new();
    let mut i: usize = 0;
    while i < known.len()
        invariant
            i <= known.len(),
            tables.len() == i,
            forall|j: int|
                0 <= j < i ==> are_file_names(
                    texts(known[j].debug_info.source_files@),
                    optional_texts((#[trigger] tables[j])@),
                ),
        decreases known.len() - i,
    {
        tables.push(file_names(&known[i].debug_info.source_files));
        i += 1;
    }
    assert forall|j: int| 0 <= j < known.len() implies are_file_names(
        texts(known_views(known@)[j].1.source_files@),
        #[trigger] table_views(tables@)[j],
    ) by {
        assert(table_views(tables@)[j] == optional_texts(tables[j]@));
    }
    tables
}

/// The instruction of one program that a line of a file resolves to.
fn resolve_in(
    program: &KnownProgram<'_>,
    names: &Vec<Option<String>>,
    filter: Option<&str>,
    file: &str,
    line: u32,
) -> (found: Option<BreakpointKey>)
    requires
        names.len() == program.debug_info.source_files.len(),
    ensures
        match found {
            Some(key) => Some(key@),
            None => None,
        } == breakpoint_in(
            (program.name@, *program.debug_info),
            optional_texts(names@),
            match filter {
                Some(name) => Some(name@),
                None => None,
            },
            file@,
            line,
        ),
{
    if let Some(name) = filter {
        if !same(name, program.name) {
            return None;
        }
    }
    match match_file(&program.debug_info.source_files, names, file) {
        None => None,
        Some(file_index) => {
            let index = ReverseIndex::build(program.debug_info);
            match index.resolve(file_index, line) {
                None => None,
                Some((function, context, instruction, _)) => Some(
                    BreakpointKey {
                        program: program.name.to_string(),
                        function,
                        context,
                        index: instruction,
                    },
                ),
            }
        },
    }
}

fn message(before: &str, spec: &str, after: &str) -> (text: String)
    ensures
        text@ == before@ + spec@ + after@,
{
    let mut text = before.to_string();
    text.append(spec);
    text.append(after);
    text
}

/// The instruction that a breakpoint stands for, or what is wrong with it. The tables hold the file
/// names of the programs' source files.
pub fn resolve_known(spec: &str, known: &Vec<KnownProgram<'_>>, tables: &Vec<Vec<Option<String>>>)
    -> (result: Result<BreakpointKey, String>)
    requires
        are_tables_for(known_views(known@), table_views(tables@)),
    ensures
        breakpoint_result(result) == breakpoint_for(
            spec@,
            known_views(known@),
            table_views(tables@),
        ),
{
    assert forall|i: int| 0 <= i < known.len() implies (#[trigger] tables[i]).len()
        == known[i].debug_info.source_files.len() by {
        assert(table_views(tables@)[i].len() == known_views(known@)[i].1.source_files@.len());
    }
    let parts = split_n(spec, ':', 3);
    let ghost cut = pieces(spec@, ':', 3);
    assert(texts(parts@) == cut);
    assert(parts.len() == cut.len());
    let count: usize = parts.len();
    if count != 2 && count != 3 {
        return Err(
            message(
                "Invalid breakpoint '",
                spec,
                "': expected 'file:line' or 'program.aleo:file:line'",
            ),
        );
    }
    let filter: Option<&str> = if count == 3 {
        Some(parts[0].as_str())
    } else {
        None
    };
    let file = parts[count - 2].as_str();
    assert(file@ == cut[count - 2]);
    assert(parts[count - 1]@ == cut[count - 1]);
    assert(parts[0]@ == cut[0]);
    let line: u32 = match parse_u32(parts[count - 1].as_str()) {
        Some(line) => line,
        None => {
            return Err(message("Invalid line number in breakpoint '", spec, "'"));
        },
    };
    let ghost wanted: Option<Seq<char>> = match filter {
        Some(name) => Some(name@),
        None => None,
    };
    let ghost digits = cut[count - 1];
    let ghost programs = known_views(known@);
    let ghost names = table_views(tables@);
    let mut i: usize = 0;
    while i < known.len()
        invariant
            i <= known.len(),
            tables.len() == known.len(),
            forall|j: int|
                0 <= j < known.len() ==> (#[trigger] tables[j]).len()
                    == known[j].debug_info.source_files.len(),
            programs == known_views(known@),
            names == table_views(tables@),
            wanted == (match filter {
                Some(name) => Some(name@),
                None => None,
            }),
            first_breakpoint(programs, names, wanted, file@, line, 0) == first_breakpoint(
                programs,
                names,
                wanted,
                file@,
                line,
                i as int,
            ),
            breakpoint_parts(spec@) == Some((wanted, file@, digits)),
            number(digits, u32::MAX as nat) == Some(line as nat),
        decreases known.len() - i,
    {
        assert(names[i as int] == optional_texts(tables[i as int]@));
        if let Some(key) = resolve_in(&known[i], &tables[i], filter, file, line) {
            return Ok(key);
        }
        i += 1;
    }
    Err(
        message(
            "Could not resolve breakpoint '",
            spec,
            "' against any loaded program's debug info",
        ),
    )
}

/// The instruction that a breakpoint stands for, or what is wrong with it. Where the parts of a
/// source file's path end rests with the platform, as far as `may_be_file_name` leaves it open.
pub fn resolve_spec(spec: &str, known: &Vec<KnownProgram<'_>>) -> (result: Result<
    BreakpointKey,
    String,
>)
    ensures
        exists|tables: Seq<Seq<Option<Seq<char>>>>|
            {
                &&& #[trigger] are_name_tables(known_views(known@), tables)
                &&& breakpoint_result(result) == breakpoint_for(
                    spec@,
                    known_views(known@),
                    tables,
                )
            },
{
    let tables = name_tables(known);
    resolve_known(spec, known, &tables)
}

/// A breakpoint that resolves stands for an instruction of one of the programs, of the wanted one if
/// a program is given, and its debug map records the instruction for the line or for one behind it.
pub proof fn law_breakpoint_is_recorded(
    spec: Seq<char>,
    known: Seq<(Seq<char>, ProgramDebugMap)>,
    tables: Seq<Seq<Option<Seq<char>>>>,
)
    requires
        breakpoint_for(spec, known, tables) is Ok,
    ensures
        ({
            let key = breakpoint_for(spec, known, tables)->Ok_0;
            let (filter, file, line) = breakpoint_parts(spec)->0;
            &&& filter is Some ==> filter->0 == key.program
            &&& exists|i: int, f: usize, l: u32|
                {
                    &&& 0 <= i < known.len()
                    &&& known[i].0 == key.program
                    &&& first_file(texts(known[i].1.source_files@), tables[i], file, 0) is Some
                    &&& f == first_file(texts(known[i].1.source_files@), tables[i], file, 0)->0 as usize
                    &&& l >= number(line, u32::MAX as nat)->0
                    &&& #[trigger] map_records_line(
                        known[i].1,
                        key.function,
                        key.context,
                        key.index,
                        f,
                        l,
                    )
                }
        }),
{
    let (filter, file, line) = breakpoint_parts(spec)->0;
    let n = number(line, u32::MAX as nat)->0 as u32;
    let i = lemma_first_breakpoint(known, tables, filter, file, n, 0);
    let index = first_file(texts(known[i].1.source_files@), tables[i], file, 0)->0 as usize;
    law_resolution_is_recorded(known[i].1, index, n);
    law_resolves_to_a_record(map_records(known[i].1), index, n);
    let r = resolution(line_groups(map_records(known[i].1)), index, n)->0;
    let key = breakpoint_for(spec, known, tables)->Ok_0;
    assert(map_records_line(known[i].1, key.function, key.context, key.index, index, r.line));
}

proof fn lemma_first_breakpoint(
    known: Seq<(Seq<char>, ProgramDebugMap)>,
    tables: Seq<Seq<Option<Seq<char>>>>,
    filter: Option<Seq<char>>,
    file: Seq<char>,
    line: u32,
    from: int,
) -> (i: int)
    requires
        0 <= from,
        first_breakpoint(known, tables, filter, file, line, from) is Some,
    ensures
        from <= i < known.len(),
        breakpoint_in(known[i], tables[i], filter, file, line) == first_breakpoint(
            known,
            tables,
            filter,
            file,
            line,
            from,
        ),
    decreases known.len() - from,
{
    if breakpoint_in(known[from], tables[from], filter, file, line) is Some {
        from
    } else {
        lemma_first_breakpoint(known, tables, filter, file, line, from + 1)
    }
}

} // verus!
