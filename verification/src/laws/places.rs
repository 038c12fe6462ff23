//! Which instruction a breakpoint stands for.
use vstd::prelude::*;

use crate::breakpoints::{first_file, KeyView};
use crate::debug_map::{section_entries, sections_unique, DebugInstructions, ProgramDebugMap};
use crate::hook::{
    law_resolution_is_recorded, records_line, stops, Context, DebugPoint, DebugPointKind, HookState,
    PendingStep,
};
use crate::laws::reading::{law_cut_at_the_first_separator, law_nothing_to_cut};
use crate::laws::stops::{breaks_at, law_where_execution_stops};
use crate::locate::{breakpoint_for, breakpoint_in, breakpoint_parts, first_breakpoint};
use crate::precedence::{
    all_lists, law_first_function_wins, lemma_list_is_recorded, lemma_map_records, names_apart,
    record_of, wins_in, CodeList,
};
use crate::records::{law_resolves_to_a_record, line_groups, map_records, resolution};
use crate::text::{number, pieces, texts};

verus! {

/// Whether instruction `k` of a list comes from that line of that file.
pub open spec fn comes_from(list: DebugInstructions, k: usize, file: usize, line: u32) -> bool {
    &&& k < list.instructions@.len()
    &&& list.instructions@[k as int] is Some
    &&& list.instructions@[k as int]->0.file == file
    &&& list.instructions@[k as int]->0.line == line
}

/// Whether one of the entries has the name, and its instruction `k` comes from that line of that file.
pub open spec fn held_under(
    entries: Seq<(Seq<char>, DebugInstructions)>,
    name: Seq<char>,
    k: usize,
    file: usize,
    line: u32,
) -> bool {
    exists|e: int|
        0 <= e < entries.len() && (#[trigger] entries[e]).0 == name && comes_from(
            entries[e].1,
            k,
            file,
            line,
        )
}

/// Whether a program has an instruction that comes from that line of that file: an instruction of a
/// function, a closure or a view, or, in the finalize phase, a command of a finalize block or of the
/// constructor.
pub open spec fn has_instruction(
    map: ProgramDebugMap,
    function: Seq<char>,
    context: Context,
    k: usize,
    file: usize,
    line: u32,
) -> bool {
    ||| context == Context::Transition && held_under(
        section_entries(map.functions),
        function,
        k,
        file,
        line,
    )
    ||| context == Context::Transition && held_under(
        section_entries(map.closures),
        function,
        k,
        file,
        line,
    )
    ||| context == Context::Transition && held_under(
        section_entries(map.views),
        function,
        k,
        file,
        line,
    )
    ||| context == Context::Finalize && held_under(
        section_entries(map.finalizes),
        function,
        k,
        file,
        line,
    )
    ||| context == Context::Finalize && function == "constructor"@ && map.constructor is Some
        && comes_from(map.constructor->0, k, file, line)
}

/// Whether a source file is the first one that the user's name for it fits: it is the file's path, or
/// the file's name.
pub open spec fn is_meant(
    paths: Seq<String>,
    names: Seq<Option<Seq<char>>>,
    file: Seq<char>,
    f: usize,
) -> bool {
    &&& f < paths.len()
    &&& paths[f as int]@ == file || names[f as int] == Some(file)
    &&& forall|g: int|
        #![trigger paths[g]]
        0 <= g < f ==> paths[g]@ != file && names[g] != Some(file)
}

/// Whether a program can be stopped at the line or behind it: it is the wanted one, if one is wanted,
/// it has the file, and any of its instructions comes from a line of the file from there on.
pub open spec fn can_stop(
    program: (Seq<char>, ProgramDebugMap),
    names: Seq<Option<Seq<char>>>,
    wanted: Option<Seq<char>>,
    file: Seq<char>,
    line: u32,
) -> bool {
    &&& wanted is Some ==> wanted->0 == program.0
    &&& exists|f: usize, function: Seq<char>, context: Context, k: usize, l: u32|
        {
            &&& #[trigger] has_instruction(program.1, function, context, k, f, l)
            &&& l >= line
            &&& is_meant(program.1.source_files@, names, file, f)
        }
}

/// Whether a breakpoint is the nearest instruction of a program at the line or behind it.
pub open spec fn is_nearest_stop(
    program: (Seq<char>, ProgramDebugMap),
    names: Seq<Option<Seq<char>>>,
    file: Seq<char>,
    line: u32,
    key: KeyView,
    f: usize,
    l: u32,
) -> bool {
    &&& key.program == program.0
    &&& is_meant(program.1.source_files@, names, file, f)
    &&& has_instruction(program.1, key.function, key.context, key.index, f, l)
    &&& l >= line
    &&& forall|function: Seq<char>, context: Context, k: usize, other: u32|
        #[trigger] has_instruction(program.1, function, context, k, f, other) && other >= line
            ==> l <= other
}

/// How the user writes a breakpoint: the program if one is wanted, the file, and the line.
pub open spec fn written(wanted: Option<Seq<char>>, file: Seq<char>, line: Seq<char>) -> Seq<char> {
    match wanted {
        Some(program) => program + ":"@ + file + ":"@ + line,
        None => file + ":"@ + line,
    }
}

/// The file that a name stands for is the first one whose path or file name it is.
pub proof fn law_file_is_the_first_that_fits(
    paths: Seq<String>,
    names: Seq<Option<Seq<char>>>,
    file: Seq<char>,
)
    requires
        paths.len() <= usize::MAX,
    ensures
        match first_file(texts(paths), names, file, 0) {
            Some(f) => 0 <= f < paths.len() && is_meant(paths, names, file, f as usize),
            None => forall|g: usize| !#[trigger] is_meant(paths, names, file, g),
        },
{
    lemma_first_file(paths, names, file, 0);
    if let Some(f) = first_file(texts(paths), names, file, 0) {
        let g = f as usize;
        assert(g == f);
        assert forall|h: int| #![trigger paths[h]] 0 <= h < g implies paths[h]@ != file && names[h]
            != Some(file) by {}
        assert(is_meant(paths, names, file, g));
    } else {
        assert forall|g: usize| !#[trigger] is_meant(paths, names, file, g) by {
            if g < paths.len() {
                assert(paths[g as int]@ != file);
            }
        }
    }
}

proof fn lemma_first_file(
    paths: Seq<String>,
    names: Seq<Option<Seq<char>>>,
    file: Seq<char>,
    from: int,
)
    requires
        0 <= from,
    ensures
        match first_file(texts(paths), names, file, from) {
            Some(f) => from <= f < paths.len() && (paths[f]@ == file || names[f] == Some(file)) && (
            forall|g: int|
                #![trigger paths[g]]
                from <= g < f ==> paths[g]@ != file && names[g] != Some(file)),
            None => forall|g: int|
                #![trigger paths[g]]
                from <= g < paths.len() ==> paths[g]@ != file && names[g] != Some(file),
        },
    decreases paths.len() - from,
{
    if from < paths.len() {
        assert(texts(paths)[from] == paths[from]@);
        lemma_first_file(paths, names, file, from + 1);
    }
}

/// Every instruction of a program that comes from a line is among the records of its debug map.
proof fn lemma_is_recorded(
    map: ProgramDebugMap,
    function: Seq<char>,
    context: Context,
    k: usize,
    file: usize,
    line: u32,
)
    requires
        has_instruction(map, function, context, k, file, line),
    ensures
        exists|i: int|
            0 <= i < map_records(map).len() && (#[trigger] map_records(map)[i]).key.file == file
                && map_records(map)[i].line == line,
{
    let functions = section_entries(map.functions);
    let closures = section_entries(map.closures);
    let views = section_entries(map.views);
    let finalizes = section_entries(map.finalizes);
    let lists = all_lists(map);
    let b = functions.len() as int;
    let c = b + closures.len();
    let d = c + views.len();
    let e = d + finalizes.len();
    let at: int = if context == Context::Transition && held_under(functions, function, k, file, line) {
        let i = choose|i: int|
            0 <= i < functions.len() && (#[trigger] functions[i]).0 == function && comes_from(
                functions[i].1,
                k,
                file,
                line,
            );
        assert(lists[i].list == functions[i].1);
        i
    } else if context == Context::Transition && held_under(closures, function, k, file, line) {
        let i = choose|i: int|
            0 <= i < closures.len() && (#[trigger] closures[i]).0 == function && comes_from(
                closures[i].1,
                k,
                file,
                line,
            );
        assert(lists[b + i].list == closures[i].1);
        b + i
    } else if context == Context::Transition && held_under(views, function, k, file, line) {
        let i = choose|i: int|
            0 <= i < views.len() && (#[trigger] views[i]).0 == function && comes_from(
                views[i].1,
                k,
                file,
                line,
            );
        assert(lists[c + i].list == views[i].1);
        c + i
    } else if held_under(finalizes, function, k, file, line) && context == Context::Finalize {
        let i = choose|i: int|
            0 <= i < finalizes.len() && (#[trigger] finalizes[i]).0 == function && comes_from(
                finalizes[i].1,
                k,
                file,
                line,
            );
        assert(lists[d + i].list == finalizes[i].1);
        d + i
    } else {
        assert(lists[e].list == map.constructor->0);
        e
    };
    lemma_map_records(map);
    lemma_list_is_recorded(lists, lists.len() as int, at, k, file, line);
    let record = record_of(lists[at], k, file, line);
    assert(map_records(map).contains(record));
}

/// A line of a file resolves to the nearest instruction of the program, of whatever kind, that comes
/// from that line or from one behind it, and to none only if there is none.
pub proof fn law_line_resolves_to_the_nearest_instruction(
    map: ProgramDebugMap,
    file: usize,
    line: u32,
)
    ensures
        match resolution(line_groups(map_records(map)), file, line) {
            Some(r) => {
                &&& has_instruction(map, r.function, r.context, r.index, file, r.line)
                &&& r.line >= line
                &&& forall|function: Seq<char>, context: Context, k: usize, other: u32|
                    #[trigger] has_instruction(map, function, context, k, file, other) && other
                        >= line ==> r.line <= other
            },
            None => forall|function: Seq<char>, context: Context, k: usize, other: u32|
                #[trigger] has_instruction(map, function, context, k, file, other) ==> other < line,
        },
{
    let r = resolution(line_groups(map_records(map)), file, line);
    law_resolves_to_a_record(map_records(map), file, line);
    assert forall|function: Seq<char>, context: Context, k: usize, other: u32| #[trigger]
        has_instruction(map, function, context, k, file, other) && other >= line implies r is Some
        && r->0.line <= other by {
        lemma_is_recorded(map, function, context, k, file, other);
        let i = choose|i: int|
            0 <= i < map_records(map).len() && (#[trigger] map_records(map)[i]).key.file == file
                && map_records(map)[i].line == other;
        assert(map_records(map)[i].key.file == file);
    }
    if let Some(one) = r {
        law_resolution_is_recorded(map, file, line);
    }
}

/// One program: the breakpoint is its nearest instruction, and there is none exactly if the program
/// cannot be stopped there.
proof fn lemma_breakpoint_in(
    program: (Seq<char>, ProgramDebugMap),
    names: Seq<Option<Seq<char>>>,
    wanted: Option<Seq<char>>,
    file: Seq<char>,
    line: u32,
)
    ensures
        match breakpoint_in(program, names, wanted, file, line) {
            Some(key) => can_stop(program, names, wanted, file, line) && exists|f: usize, l: u32|
                #[trigger] is_nearest_stop(program, names, file, line, key, f, l),
            None => !can_stop(program, names, wanted, file, line),
        },
{
    let map = program.1;
    let paths = map.source_files@;
    assert(map.source_files.len() <= usize::MAX);
    law_file_is_the_first_that_fits(paths, names, file);
    let found = first_file(texts(paths), names, file, 0);
    if found is Some {
        let f = found->0 as usize;
        assert(is_meant(paths, names, file, f));
        law_line_resolves_to_the_nearest_instruction(map, f, line);
        let r = resolution(line_groups(map_records(map)), f, line);
        assert forall|g: usize| is_meant(paths, names, file, g) implies g == f by {
            assert(paths[f as int]@ == paths[f as int]@);
            assert(paths[g as int]@ == paths[g as int]@);
        }
        if let Some(one) = r {
            assert(has_instruction(map, one.function, one.context, one.index, f, one.line));
            if wanted is Some ==> wanted->0 == program.0 {
                let key = breakpoint_in(program, names, wanted, file, line)->0;
                assert(is_nearest_stop(program, names, file, line, key, f, one.line));
            }
        } else if can_stop(program, names, wanted, file, line) {
            let (g, function, context, k, l) = choose|
                g: usize,
                function: Seq<char>,
                context: Context,
                k: usize,
                l: u32,
            |
                {
                    &&& #[trigger] has_instruction(map, function, context, k, g, l)
                    &&& l >= line
                    &&& is_meant(paths, names, file, g)
                };
            assert(has_instruction(map, function, context, k, f, l));
        }
    } else if can_stop(program, names, wanted, file, line) {
        let (g, function, context, k, l) = choose|
            g: usize,
            function: Seq<char>,
            context: Context,
            k: usize,
            l: u32,
        |
            {
                &&& #[trigger] has_instruction(map, function, context, k, g, l)
                &&& l >= line
                &&& is_meant(paths, names, file, g)
            };
        assert(!is_meant(paths, names, file, g));
    }
}

proof fn lemma_first_breakpoint(
    known: Seq<(Seq<char>, ProgramDebugMap)>,
    tables: Seq<Seq<Option<Seq<char>>>>,
    wanted: Option<Seq<char>>,
    file: Seq<char>,
    line: u32,
    from: int,
)
    requires
        0 <= from,
    ensures
        match first_breakpoint(known, tables, wanted, file, line, from) {
            Some(key) => exists|i: int|
                {
                    &&& from <= i < known.len()
                    &&& #[trigger] can_stop(known[i], tables[i], wanted, file, line)
                    &&& exists|f: usize, l: u32|
                        #[trigger] is_nearest_stop(known[i], tables[i], file, line, key, f, l)
                    &&& forall|j: int|
                        from <= j < i ==> !#[trigger] can_stop(
                            known[j],
                            tables[j],
                            wanted,
                            file,
                            line,
                        )
                },
            None => forall|i: int|
                from <= i < known.len() ==> !#[trigger] can_stop(
                    known[i],
                    tables[i],
                    wanted,
                    file,
                    line,
                ),
        },
    decreases known.len() - from,
{
    if from < known.len() {
        lemma_breakpoint_in(known[from], tables[from], wanted, file, line);
        lemma_first_breakpoint(known, tables, wanted, file, line, from + 1);
        if let Some(key) = breakpoint_in(known[from], tables[from], wanted, file, line) {
            assert(can_stop(known[from], tables[from], wanted, file, line));
        } else if let Some(key) = first_breakpoint(known, tables, wanted, file, line, from + 1) {
            let i = choose|i: int|
                {
                    &&& from + 1 <= i < known.len()
                    &&& #[trigger] can_stop(known[i], tables[i], wanted, file, line)
                    &&& exists|f: usize, l: u32|
                        #[trigger] is_nearest_stop(known[i], tables[i], file, line, key, f, l)
                    &&& forall|j: int|
                        from + 1 <= j < i ==> !#[trigger] can_stop(
                            known[j],
                            tables[j],
                            wanted,
                            file,
                            line,
                        )
                };
            assert(can_stop(known[i], tables[i], wanted, file, line));
        }
    }
}

/// A breakpoint parts into the program, if one is written, the file, and the line.
pub proof fn law_breakpoint_parts(wanted: Option<Seq<char>>, file: Seq<char>, line: Seq<char>)
    requires
        wanted is Some ==> !wanted->0.contains(':'),
        !file.contains(':'),
        wanted is None ==> !line.contains(':'),
    ensures
        breakpoint_parts(written(wanted, file, line)) == Some((wanted, file, line)),
{
    reveal_strlit(":");
    let text = written(wanted, file, line);
    if let Some(program) = wanted {
        assert(text =~= program.push(':') + (file.push(':') + line));
        law_cut_at_the_first_separator(program, ':', file.push(':') + line, 3);
        law_cut_at_the_first_separator(file, ':', line, 2);
        assert(pieces(line, ':', 1) =~= seq![line]);
        assert(pieces(text, ':', 3) =~= seq![program, file, line]);
    } else {
        assert(text =~= file.push(':') + line);
        law_cut_at_the_first_separator(file, ':', line, 3);
        law_nothing_to_cut(line, ':', 2);
        assert(pieces(text, ':', 3) =~= seq![file, line]);
    }
}

proof fn lemma_number_has_no_colon(line: Seq<char>, max: nat)
    requires
        number(line, max) is Some,
    ensures
        !line.contains(':'),
{
    if line.contains(':') {
        let i = choose|i: int| 0 <= i < line.len() && line[i] == ':';
        let digits = crate::text::unsigned(line);
        let k = if line[0] == '+' {
            i - 1
        } else {
            i
        };
        assert(digits[k] == ':');
        assert(crate::text::is_digit(digits[k]));
    }
}

/// A breakpoint resolves if any of the loaded programs can be stopped there, by an instruction of
/// whatever kind. The first such program decides, and its nearest instruction at the line or behind
/// it is what the breakpoint stands for. Only if there is no such program the breakpoint is refused.
pub proof fn law_breakpoint_resolves(
    wanted: Option<Seq<char>>,
    file: Seq<char>,
    line: Seq<char>,
    n: u32,
    known: Seq<(Seq<char>, ProgramDebugMap)>,
    tables: Seq<Seq<Option<Seq<char>>>>,
)
    requires
        wanted is Some ==> !wanted->0.contains(':'),
        !file.contains(':'),
        number(line, u32::MAX as nat) == Some(n as nat),
    ensures
        ({
            let spec = written(wanted, file, line);
            match breakpoint_for(spec, known, tables) {
                Ok(key) => exists|i: int|
                    {
                        &&& 0 <= i < known.len()
                        &&& #[trigger] can_stop(known[i], tables[i], wanted, file, n)
                        &&& exists|f: usize, l: u32|
                            #[trigger] is_nearest_stop(known[i], tables[i], file, n, key, f, l)
                        &&& forall|j: int|
                            0 <= j < i ==> !#[trigger] can_stop(
                                known[j],
                                tables[j],
                                wanted,
                                file,
                                n,
                            )
                    },
                Err(text) => {
                    &&& forall|i: int|
                        0 <= i < known.len() ==> !#[trigger] can_stop(
                            known[i],
                            tables[i],
                            wanted,
                            file,
                            n,
                        )
                    &&& text == "Could not resolve breakpoint '"@ + spec
                        + "' against any loaded program's debug info"@
                },
            }
        }),
        (exists|i: int|
            0 <= i < known.len() && #[trigger] can_stop(known[i], tables[i], wanted, file, n))
            ==> breakpoint_for(written(wanted, file, line), known, tables) is Ok,
{
    lemma_number_has_no_colon(line, u32::MAX as nat);
    law_breakpoint_parts(wanted, file, line);
    lemma_first_breakpoint(known, tables, wanted, file, n, 0);
}

/// A text without a colon is no breakpoint.
pub proof fn law_breakpoint_needs_a_colon(
    text: Seq<char>,
    known: Seq<(Seq<char>, ProgramDebugMap)>,
    tables: Seq<Seq<Option<Seq<char>>>>,
)
    requires
        !text.contains(':'),
    ensures
        breakpoint_for(text, known, tables) == Err::<KeyView, Seq<char>>(
            "Invalid breakpoint '"@ + text + "': expected 'file:line' or 'program.aleo:file:line'"@,
        ),
{
    law_nothing_to_cut(text, ':', 3);
}

/// A breakpoint whose last part is no number is refused as such, whatever is loaded.
pub proof fn law_breakpoint_needs_a_line_number(
    wanted: Option<Seq<char>>,
    file: Seq<char>,
    line: Seq<char>,
    known: Seq<(Seq<char>, ProgramDebugMap)>,
    tables: Seq<Seq<Option<Seq<char>>>>,
)
    requires
        wanted is Some ==> !wanted->0.contains(':'),
        !file.contains(':'),
        wanted is None ==> !line.contains(':'),
        number(line, u32::MAX as nat) is None,
    ensures
        breakpoint_for(written(wanted, file, line), known, tables) == Err::<KeyView, Seq<char>>(
            "Invalid line number in breakpoint '"@ + written(wanted, file, line) + "'"@,
        ),
{
    law_breakpoint_parts(wanted, file, line);
}

/// Whether instruction `k` of entry `e` is the first instruction of the section that comes from the
/// line: no instruction of an earlier entry does, and no earlier one of the entry.
pub open spec fn comes_first(
    entries: Seq<(Seq<char>, DebugInstructions)>,
    e: int,
    k: usize,
    file: usize,
    line: u32,
) -> bool {
    &&& 0 <= e < entries.len()
    &&& comes_from(entries[e].1, k, file, line)
    &&& forall|j: usize| j < k ==> !#[trigger] comes_from(entries[e].1, j, file, line)
    &&& forall|d: int, j: usize|
        0 <= d < e ==> !#[trigger] comes_from(entries[d].1, j, file, line)
}

/// Whether no instruction of the section comes from the line.
pub open spec fn passes_by(
    entries: Seq<(Seq<char>, DebugInstructions)>,
    file: usize,
    line: u32,
) -> bool {
    forall|d: int, j: usize|
        0 <= d < entries.len() ==> !#[trigger] comes_from(entries[d].1, j, file, line)
}

/// Of the instructions that come from the line that a breakpoint resolves to, the first one counts:
/// those of functions come before those of closures, these before those of views, these before those
/// of finalize blocks, and the constructor's come last; each section has its own order.
pub proof fn law_first_instruction_on_the_line_counts(
    map: ProgramDebugMap,
    file: usize,
    line: u32,
    e: int,
    k: usize,
)
    requires
        sections_unique(map),
        names_apart(map),
        resolution(line_groups(map_records(map)), file, line) is Some,
    ensures
        ({
            let r = resolution(line_groups(map_records(map)), file, line)->0;
            let functions = section_entries(map.functions);
            let closures = section_entries(map.closures);
            let views = section_entries(map.views);
            let finalizes = section_entries(map.finalizes);
            let none_before_closures = passes_by(functions, file, r.line);
            let none_before_views = none_before_closures && passes_by(closures, file, r.line);
            let none_before_finalizes = none_before_views && passes_by(views, file, r.line);
            let none_before_constructor = none_before_finalizes && passes_by(
                finalizes,
                file,
                r.line,
            );
            &&& comes_first(functions, e, k, file, r.line) ==> r.function == functions[e].0
                && r.context == Context::Transition && r.index == k
            &&& none_before_closures && comes_first(closures, e, k, file, r.line) ==> r.function
                == closures[e].0 && r.context == Context::Transition && r.index == k
            &&& none_before_views && comes_first(views, e, k, file, r.line) ==> r.function
                == views[e].0 && r.context == Context::Transition && r.index == k
            &&& none_before_finalizes && comes_first(finalizes, e, k, file, r.line) ==> r.function
                == finalizes[e].0 && r.context == Context::Finalize && r.index == k
            &&& none_before_constructor ==> r.function == "constructor"@ && r.context
                == Context::Finalize && map.constructor is Some && comes_from(
                map.constructor->0,
                r.index,
                file,
                r.line,
            ) && forall|j: usize|
                j < r.index ==> !#[trigger] comes_from(map.constructor->0, j, file, r.line)
        }),
{
    let r = resolution(line_groups(map_records(map)), file, line)->0;
    law_first_function_wins(map, file, line);
    let functions = section_entries(map.functions);
    let closures = section_entries(map.closures);
    let views = section_entries(map.views);
    let finalizes = section_entries(map.finalizes);
    let lists = all_lists(map);
    let b = functions.len() as int;
    let c = b + closures.len();
    let d = c + views.len();
    let f = d + finalizes.len();
    let at = choose|at: int| wins_in(map, file, r, at);
    let one = lists[at];
    assert(comes_from(one.list, r.index, file, r.line));
    assert forall|h: int, j: usize| 0 <= h < at implies !#[trigger] comes_from(
        lists[h].list,
        j,
        file,
        r.line,
    ) by {
        assert(!records_line(lists[h].list, j, file, r.line));
    }
    assert forall|j: usize| j < r.index implies !#[trigger] comes_from(
        one.list,
        j,
        file,
        r.line,
    ) by {
        assert(!records_line(one.list, j, file, r.line));
    }
    assert forall|i: int| 0 <= i < b implies lists[i] == (CodeList {
        function: functions[i].0,
        context: Context::Transition,
        list: (#[trigger] functions[i]).1,
    }) by {}
    assert forall|i: int| 0 <= i < closures.len() implies lists[b + i] == (CodeList {
        function: closures[i].0,
        context: Context::Transition,
        list: (#[trigger] closures[i]).1,
    }) by {}
    assert forall|i: int| 0 <= i < views.len() implies lists[c + i] == (CodeList {
        function: views[i].0,
        context: Context::Transition,
        list: (#[trigger] views[i]).1,
    }) by {}
    assert forall|i: int| 0 <= i < finalizes.len() implies lists[d + i] == (CodeList {
        function: finalizes[i].0,
        context: Context::Finalize,
        list: (#[trigger] finalizes[i]).1,
    }) by {}
    if at < b {
        assert(one.list == functions[at].1);
        lemma_same_place(functions, lists, 0, at, r.index, e, k, file, r.line);
    } else if at < c {
        assert(one.list == closures[at - b].1);
        lemma_none_first(functions, lists, 0, at, file, r.line);
        lemma_same_place(closures, lists, b, at - b, r.index, e, k, file, r.line);
    } else if at < d {
        assert(one.list == views[at - c].1);
        lemma_none_first(functions, lists, 0, at, file, r.line);
        lemma_none_first(closures, lists, b, at, file, r.line);
        lemma_same_place(views, lists, c, at - c, r.index, e, k, file, r.line);
    } else if at < f {
        assert(one.list == finalizes[at - d].1);
        lemma_none_first(functions, lists, 0, at, file, r.line);
        lemma_none_first(closures, lists, b, at, file, r.line);
        lemma_none_first(views, lists, c, at, file, r.line);
        lemma_same_place(finalizes, lists, d, at - d, r.index, e, k, file, r.line);
    } else {
        lemma_none_first(functions, lists, 0, at, file, r.line);
        lemma_none_first(closures, lists, b, at, file, r.line);
        lemma_none_first(views, lists, c, at, file, r.line);
        lemma_none_first(finalizes, lists, d, at, file, r.line);
        assert(one.list == map.constructor->0);
    }
}

/// A section whose entries all stand before the list that wins passes the line by.
proof fn lemma_none_first(
    entries: Seq<(Seq<char>, DebugInstructions)>,
    lists: Seq<CodeList>,
    start: int,
    at: int,
    file: usize,
    line: u32,
)
    requires
        0 <= start,
        start + entries.len() <= at <= lists.len(),
        forall|i: int|
            0 <= i < entries.len() ==> lists[start + i].list == (#[trigger] entries[i]).1,
        forall|h: int, j: usize|
            0 <= h < at ==> !#[trigger] comes_from(lists[h].list, j, file, line),
    ensures
        passes_by(entries, file, line),
{
    assert forall|d: int, j: usize| 0 <= d < entries.len() implies !#[trigger] comes_from(
        entries[d].1,
        j,
        file,
        line,
    ) by {
        assert(!comes_from(lists[start + d].list, j, file, line));
    }
}

/// There is one first instruction, and none where the section passes the line by.
proof fn lemma_same_place(
    entries: Seq<(Seq<char>, DebugInstructions)>,
    lists: Seq<CodeList>,
    start: int,
    at: int,
    index: usize,
    e: int,
    k: usize,
    file: usize,
    line: u32,
)
    requires
        0 <= at < entries.len(),
        0 <= start,
        start + entries.len() <= lists.len(),
        forall|i: int|
            0 <= i < entries.len() ==> lists[start + i].list == (#[trigger] entries[i]).1,
        comes_from(entries[at].1, index, file, line),
        forall|h: int, j: usize|
            0 <= h < start + at ==> !#[trigger] comes_from(lists[h].list, j, file, line),
        forall|j: usize| j < index ==> !#[trigger] comes_from(entries[at].1, j, file, line),
    ensures
        !passes_by(entries, file, line),
        comes_first(entries, e, k, file, line) ==> e == at && k == index,
{
    if comes_first(entries, e, k, file, line) && e < at {
        assert(lists[start + e].list == entries[e].1);
        assert(!comes_from(lists[start + e].list, k, file, line));
    }
}

/// A breakpoint on a line stops execution when the instruction that it stands for is reached, and that
/// instruction is the nearest one at the line or behind it in the first program that has one.
pub proof fn law_line_breakpoint_stops(
    wanted: Option<Seq<char>>,
    file: Seq<char>,
    line: Seq<char>,
    n: u32,
    known: Seq<(Seq<char>, ProgramDebugMap)>,
    tables: Seq<Seq<Option<Seq<char>>>>,
    pending: Option<PendingStep>,
    state: HookState,
    point: DebugPoint,
    p: int,
    f: usize,
    l: u32,
)
    requires
        wanted is Some ==> !wanted->0.contains(':'),
        !file.contains(':'),
        number(line, u32::MAX as nat) == Some(n as nat),
        0 <= p < known.len(),
        can_stop(known[p], tables[p], wanted, file, n),
        forall|j: int|
            0 <= j < p ==> !#[trigger] can_stop(known[j], tables[j], wanted, file, n),
        breakpoint_for(written(wanted, file, line), known, tables) is Ok
            ==> state.breakpoints@.contains(
            breakpoint_for(written(wanted, file, line), known, tables)->Ok_0,
        ),
        ({
            let context = if point.kind == DebugPointKind::Instruction {
                Context::Transition
            } else {
                Context::Finalize
            };
            &&& point.program_id@ == known[p].0
            &&& is_meant(known[p].1.source_files@, tables[p], file, f)
            &&& l >= n
            &&& has_instruction(
                known[p].1,
                point.function_name@,
                context,
                point.index,
                f,
                l,
            )
            &&& forall|function: Seq<char>, other: Context, k: usize, m: u32|
                #[trigger] has_instruction(known[p].1, function, other, k, f, m) && m >= n ==> m > l
                    || (function == point.function_name@ && other == context && k == point.index)
        }),
    ensures
        stops(pending, state, point),
{
    law_breakpoint_resolves(wanted, file, line, n, known, tables);
    let key = breakpoint_for(written(wanted, file, line), known, tables)->Ok_0;
    let i = choose|i: int|
        {
            &&& 0 <= i < known.len()
            &&& #[trigger] can_stop(known[i], tables[i], wanted, file, n)
            &&& exists|g: usize, m: u32|
                #[trigger] is_nearest_stop(known[i], tables[i], file, n, key, g, m)
            &&& forall|j: int|
                0 <= j < i ==> !#[trigger] can_stop(known[j], tables[j], wanted, file, n)
        };
    assert(i == p);
    let (g, m) = choose|g: usize, m: u32|
        #[trigger] is_nearest_stop(known[p], tables[p], file, n, key, g, m);
    assert(known[p].1.source_files@[f as int]@ == known[p].1.source_files@[f as int]@);
    assert(known[p].1.source_files@[g as int]@ == known[p].1.source_files@[g as int]@);
    assert(g == f);
    law_where_execution_stops(state, point, point, pending);
    assert(breaks_at(state.breakpoints@, point));
}

} // verus!
