//! Which instruction wins where a source line is recorded more than once.
use vstd::prelude::*;

use crate::debug_map::{section_entries, sections_unique, DebugInstructions, ProgramDebugMap};
use crate::hook::{lemma_function_record, lemma_vec_len, records_line, Context};
use crate::records::{
    constructor_name, constructor_records, entries_of, function_records, group_keys,
    instruction_records, is_nearest_in, law_resolution_is_nearest, law_resolves_to_a_record,
    lemma_entries_of, lemma_group_keys, lemma_line_groups_sorted, lemma_sorted_entries, line_groups,
    map_records, resolution, section_records, sorted_entries, GroupKey, LineRecord, Resolution,
};

verus! {

/// The instructions of one function, in one part of the call.
pub struct CodeList {
    pub function: Seq<char>,
    pub context: Context,
    pub list: DebugInstructions,
}

/// The functions of a section, in its order.
pub open spec fn section_lists(
    entries: Seq<(Seq<char>, DebugInstructions)>,
    context: Context,
) -> Seq<CodeList> {
    Seq::new(
        entries.len(),
        |i: int| CodeList { function: entries[i].0, context, list: entries[i].1 },
    )
}

/// The constructor, if there is one.
pub open spec fn constructor_lists(constructor: Option<DebugInstructions>) -> Seq<CodeList> {
    match constructor {
        Some(list) => seq![
            CodeList { function: constructor_name(), context: Context::Finalize, list },
        ],
        None => Seq::empty(),
    }
}

/// Everything that a debug map holds: functions, closures, views, finalize blocks, and last the
/// constructor, each section in its own order.
pub open spec fn all_lists(map: ProgramDebugMap) -> Seq<CodeList> {
    section_lists(section_entries(map.functions), Context::Transition) + section_lists(
        section_entries(map.closures),
        Context::Transition,
    ) + section_lists(section_entries(map.views), Context::Transition) + section_lists(
        section_entries(map.finalizes),
        Context::Finalize,
    ) + constructor_lists(map.constructor)
}

/// Whether no name stands in both sections.
pub open spec fn no_common_name(
    a: Seq<(Seq<char>, DebugInstructions)>,
    b: Seq<(Seq<char>, DebugInstructions)>,
) -> bool {
    forall|i: int, j: int|
        0 <= i < a.len() && 0 <= j < b.len() ==> (#[trigger] a[i]).0 != (#[trigger] b[j]).0
}

/// Whether a debug map tells its functions apart by name: functions, closures and views share no
/// name, and no finalize block is named like the constructor.
pub open spec fn names_apart(map: ProgramDebugMap) -> bool {
    let functions = section_entries(map.functions);
    let closures = section_entries(map.closures);
    let views = section_entries(map.views);
    let finalizes = section_entries(map.finalizes);
    &&& no_common_name(functions, closures)
    &&& no_common_name(functions, views)
    &&& no_common_name(closures, views)
    &&& map.constructor is Some ==> forall|i: int|
        0 <= i < finalizes.len() ==> (#[trigger] finalizes[i]).0 != constructor_name()
}

/// Whether the resolution lies in list `k` of the debug map and wins there: the list records the line
/// for the instruction and for none before it, and no earlier list records the line at all.
pub open spec fn wins_in(map: ProgramDebugMap, file: usize, r: Resolution, k: int) -> bool {
    let lists = all_lists(map);
    &&& 0 <= k < lists.len()
    &&& lists[k].function == r.function
    &&& lists[k].context == r.context
    &&& records_line(lists[k].list, r.index, file, r.line)
    &&& forall|j: usize| j < r.index ==> !#[trigger] records_line(lists[k].list, j, file, r.line)
    &&& forall|h: int, j: usize|
        0 <= h < k ==> !#[trigger] records_line(lists[h].list, j, file, r.line)
}

/// Whether the resolution is the first instruction on its line, in the order of the debug map.
pub open spec fn wins(map: ProgramDebugMap, file: usize, r: Resolution) -> bool {
    exists|k: int| wins_in(map, file, r, k)
}

/// What the first `n` lists record.
pub open spec fn list_records(lists: Seq<CodeList>, n: int) -> Seq<LineRecord>
    decreases n,
{
    if n <= 0 {
        Seq::empty()
    } else {
        list_records(lists, n - 1) + function_records(
            lists[n - 1].function,
            lists[n - 1].context,
            lists[n - 1].list,
        )
    }
}

proof fn lemma_same_lists(a: Seq<CodeList>, b: Seq<CodeList>, n: int)
    requires
        0 <= n <= a.len(),
        n <= b.len(),
        forall|i: int| 0 <= i < n ==> a[i] == b[i],
    ensures
        list_records(a, n) == list_records(b, n),
    decreases n,
{
    if n > 0 {
        lemma_same_lists(a, b, n - 1);
    }
}

proof fn lemma_lists_one_after_the_other(a: Seq<CodeList>, b: Seq<CodeList>, n: int)
    requires
        0 <= n <= b.len(),
    ensures
        list_records(a + b, a.len() + n) == list_records(a, a.len() as int) + list_records(b, n),
    decreases n,
{
    if n == 0 {
        lemma_same_lists(a + b, a, a.len() as int);
        assert(list_records(b, 0) == Seq::<LineRecord>::empty());
        assert(list_records(a, a.len() as int) + list_records(b, 0) == list_records(
            a,
            a.len() as int,
        ));
    } else {
        lemma_lists_one_after_the_other(a, b, n - 1);
        let last = b[n - 1];
        let tail = function_records(last.function, last.context, last.list);
        assert((a + b)[a.len() + n - 1] == last);
        assert(list_records(a, a.len() as int) + list_records(b, n - 1) + tail == list_records(
            a,
            a.len() as int,
        ) + (list_records(b, n - 1) + tail));
    }
}

proof fn lemma_section_lists(
    entries: Seq<(Seq<char>, DebugInstructions)>,
    context: Context,
    n: int,
)
    requires
        0 <= n <= entries.len(),
    ensures
        list_records(section_lists(entries, context), n) == section_records(entries, context, n),
    decreases n,
{
    if n > 0 {
        lemma_section_lists(entries, context, n - 1);
    }
}

/// The records of a debug map are those of its lists, one after the other.
pub proof fn lemma_map_records(map: ProgramDebugMap)
    ensures
        map_records(map) == list_records(all_lists(map), all_lists(map).len() as int),
{
    let functions = section_entries(map.functions);
    let closures = section_entries(map.closures);
    let views = section_entries(map.views);
    let finalizes = section_entries(map.finalizes);
    let a = section_lists(functions, Context::Transition);
    let b = section_lists(closures, Context::Transition);
    let c = section_lists(views, Context::Transition);
    let d = section_lists(finalizes, Context::Finalize);
    let e = constructor_lists(map.constructor);
    lemma_section_lists(functions, Context::Transition, functions.len() as int);
    lemma_section_lists(closures, Context::Transition, closures.len() as int);
    lemma_section_lists(views, Context::Transition, views.len() as int);
    lemma_section_lists(finalizes, Context::Finalize, finalizes.len() as int);
    lemma_lists_one_after_the_other(a, b, b.len() as int);
    lemma_lists_one_after_the_other(a + b, c, c.len() as int);
    lemma_lists_one_after_the_other(a + b + c, d, d.len() as int);
    lemma_lists_one_after_the_other(a + b + c + d, e, e.len() as int);
    reveal_with_fuel(list_records, 2);
    assert(list_records(e, e.len() as int) == constructor_records(map.constructor));
}

/// Whether no two lists stand for the same function in the same part of the call.
spec fn lists_apart(lists: Seq<CodeList>) -> bool {
    forall|i: int, j: int|
        0 <= i < j < lists.len() ==> !((#[trigger] lists[i]).function == (
        #[trigger] lists[j]).function && lists[i].context == lists[j].context)
}

proof fn lemma_lists_apart(map: ProgramDebugMap)
    requires
        sections_unique(map),
        names_apart(map),
    ensures
        lists_apart(all_lists(map)),
{
    let functions = section_entries(map.functions);
    let closures = section_entries(map.closures);
    let views = section_entries(map.views);
    let finalizes = section_entries(map.finalizes);
    let lists = all_lists(map);
    let b = functions.len() as int;
    let c = b + closures.len();
    let d = c + views.len();
    let e = d + finalizes.len();
    assert forall|i: int| 0 <= i < lists.len() implies {
        let one = #[trigger] lists[i];
        if i < b {
            one.function == functions[i].0 && one.context == Context::Transition
        } else if i < c {
            one.function == closures[i - b].0 && one.context == Context::Transition
        } else if i < d {
            one.function == views[i - c].0 && one.context == Context::Transition
        } else if i < e {
            one.function == finalizes[i - d].0 && one.context == Context::Finalize
        } else {
            one.function == constructor_name() && one.context == Context::Finalize && i == e
                && map.constructor is Some
        }
    } by {}
}

/// A record belongs to one of the lists.
proof fn lemma_record_has_list(lists: Seq<CodeList>, n: int, record: LineRecord) -> (k: int)
    requires
        0 <= n <= lists.len(),
        list_records(lists, n).contains(record),
    ensures
        0 <= k < n,
        lists[k].function == record.key.function,
        lists[k].context == record.key.context,
        records_line(lists[k].list, record.index, record.key.file, record.line),
    decreases n,
{
    let before = list_records(lists, n - 1);
    let last = lists[n - 1];
    let tail = function_records(last.function, last.context, last.list);
    let i = choose|i: int| 0 <= i < (before + tail).len() && (before + tail)[i] == record;
    if i < before.len() {
        assert(before[i] == record);
        lemma_record_has_list(lists, n - 1, record)
    } else {
        assert(tail[i - before.len()] == record);
        lemma_vec_len(last.list);
        lemma_function_record(
            last.function,
            last.context,
            last.list,
            last.list.instructions@.len() as int,
            record,
        );
        n - 1
    }
}

/// The record of an instruction.
pub open spec fn record_of(one: CodeList, index: usize, file: usize, line: u32) -> LineRecord {
    LineRecord {
        key: GroupKey { file, function: one.function, context: one.context },
        line,
        index,
    }
}

proof fn lemma_instruction_is_recorded(
    one: CodeList,
    n: int,
    index: usize,
    file: usize,
    line: u32,
)
    requires
        records_line(one.list, index, file, line),
        index < n <= one.list.instructions@.len(),
    ensures
        instruction_records(one.function, one.context, one.list.instructions@, n).contains(
            record_of(one, index, file, line),
        ),
    decreases n,
{
    let record = record_of(one, index, file, line);
    let instructions = one.list.instructions@;
    let all = instruction_records(one.function, one.context, instructions, n);
    if index == n - 1 {
        assert(all.last() == record);
    } else {
        let before = instruction_records(one.function, one.context, instructions, n - 1);
        lemma_instruction_is_recorded(one, n - 1, index, file, line);
        let i = choose|i: int| 0 <= i < before.len() && before[i] == record;
        assert(all[i] == record);
    }
}

/// An instruction for which a list records a line is among the records.
pub proof fn lemma_list_is_recorded(
    lists: Seq<CodeList>,
    n: int,
    k: int,
    index: usize,
    file: usize,
    line: u32,
)
    requires
        0 <= k < n <= lists.len(),
        records_line(lists[k].list, index, file, line),
    ensures
        list_records(lists, n).contains(record_of(lists[k], index, file, line)),
    decreases n,
{
    let record = record_of(lists[k], index, file, line);
    let before = list_records(lists, n - 1);
    let last = lists[n - 1];
    let tail = function_records(last.function, last.context, last.list);
    if k == n - 1 {
        lemma_instruction_is_recorded(
            last,
            last.list.instructions@.len() as int,
            index,
            file,
            line,
        );
        let i = choose|i: int| 0 <= i < tail.len() && tail[i] == record;
        assert((before + tail)[before.len() + i] == record);
    } else {
        lemma_list_is_recorded(lists, n - 1, k, index, file, line);
        let i = choose|i: int| 0 <= i < before.len() && before[i] == record;
        assert((before + tail)[i] == record);
    }
}

/// What the first lists record comes first.
proof fn lemma_first_records(lists: Seq<CodeList>, m: int, n: int)
    requires
        0 <= m <= n <= lists.len(),
    ensures
        list_records(lists, m).len() <= list_records(lists, n).len(),
        list_records(lists, n).take(list_records(lists, m).len() as int) == list_records(lists, m),
    decreases n,
{
    if m < n {
        lemma_first_records(lists, m, n - 1);
        let before = list_records(lists, n - 1);
        let len = list_records(lists, m).len() as int;
        assert(list_records(lists, n).take(len) =~= before.take(len));
    }
}

/// The groups of the first records come first.
proof fn lemma_first_keys(records: Seq<LineRecord>, m: int)
    requires
        0 <= m <= records.len(),
    ensures
        group_keys(records.take(m)).is_prefix_of(group_keys(records)),
    decreases records.len(),
{
    if m == records.len() {
        assert(records.take(m) =~= records);
    } else {
        let before = records.drop_last();
        lemma_first_keys(before, m);
        assert(before.take(m) =~= records.take(m));
    }
}

/// Where a line is recorded more than once, the function that comes first in the debug map wins:
/// functions before closures, closures before views, views before finalize blocks, the constructor
/// last, and each section in its own order. Of its instructions on that line the first one wins.
pub proof fn law_first_function_wins(map: ProgramDebugMap, file: usize, line: u32)
    requires
        sections_unique(map),
        names_apart(map),
        resolution(line_groups(map_records(map)), file, line) is Some,
    ensures
        wins(map, file, resolution(line_groups(map_records(map)), file, line)->0),
{
    let lists = all_lists(map);
    let n = lists.len() as int;
    let records = map_records(map);
    let groups = line_groups(records);
    let keys = group_keys(records);
    let r = resolution(groups, file, line)->0;
    let key = GroupKey { file, function: r.function, context: r.context };
    let record = LineRecord { key, line: r.line, index: r.index };
    lemma_map_records(map);
    lemma_lists_apart(map);
    law_resolves_to_a_record(records, file, line);
    lemma_line_groups_sorted(records);
    law_resolution_is_nearest(groups, file, line);
    let g = choose|g: int| is_nearest_in(groups, file, line, r, g);
    let k = lemma_record_has_list(lists, n, record);
    assert forall|j: usize| j < r.index implies !#[trigger] records_line(
        lists[k].list,
        j,
        file,
        r.line,
    ) by {
        if records_line(lists[k].list, j, file, r.line) {
            lemma_list_is_recorded(lists, n, k, j, file, r.line);
            let e = lemma_entry_of(records, g, key, r.line, j);
            assert(groups[g].entries[e].0 == r.line);
        }
    }
    assert forall|h: int, j: usize| 0 <= h < k implies !#[trigger] records_line(
        lists[h].list,
        j,
        file,
        r.line,
    ) by {
        if records_line(lists[h].list, j, file, r.line) {
            let earlier = record_of(lists[h], j, file, r.line);
            let first = list_records(lists, k);
            let m = first.len() as int;
            lemma_list_is_recorded(lists, n, h, j, file, r.line);
            lemma_list_is_recorded(lists, k, h, j, file, r.line);
            lemma_first_records(lists, k, n);
            lemma_first_keys(records, m);
            lemma_group_keys(first, earlier.key);
            lemma_group_keys(first, key);
            lemma_group_keys(records, key);
            let some = choose|i: int| 0 <= i < first.len() && first[i] == earlier;
            assert(first[some].key == earlier.key);
            let p = choose|p: int|
                0 <= p < group_keys(first).len() && group_keys(first)[p] == earlier.key;
            assert(keys[p] == group_keys(first)[p]);
            if g <= p {
                assert(group_keys(first)[g] == keys[g]);
                assert(group_keys(first).contains(key));
                let i = choose|i: int| 0 <= i < first.len() && (#[trigger] first[i]).key == key;
                assert(first.contains(first[i]));
                let other = lemma_record_has_list(lists, k, first[i]);
                assert(lists[other].function == lists[k].function);
            }
            let e = lemma_entry_of(records, p, earlier.key, r.line, j);
            assert(groups[p].entries[e].0 == r.line);
        }
    }
    assert(wins_in(map, file, r, k));
}

/// A record is an entry of its group.
proof fn lemma_entry_of(
    records: Seq<LineRecord>,
    g: int,
    key: GroupKey,
    line: u32,
    index: usize,
) -> (e: int)
    requires
        0 <= g < group_keys(records).len(),
        group_keys(records)[g] == key,
        records.contains(LineRecord { key, line, index }),
    ensures
        0 <= e < line_groups(records)[g].entries.len(),
        line_groups(records)[g].entries[e] == (line, index),
{
    lemma_entries_of(records, key, line, index);
    lemma_sorted_entries(records, key);
    assert(entries_of(records, key).contains((line, index)));
    let entries = sorted_entries(records, key);
    choose|e: int| 0 <= e < entries.len() && entries[e] == (line, index)
}

} // verus!
