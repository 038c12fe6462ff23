//! What a debug map records, line by line, and which recorded instruction is nearest to a line.
use vstd::prelude::*;
use vstd::relations::{sorted_by, total_ordering};

use crate::debug_map::{section_entries, DebugInstructions, DebugLoc, ProgramDebugMap};
use crate::hook::Context;

verus! {

/// One recorded instruction: the function it belongs to, its index there, and its source line.
pub struct LineRecord {
    pub key: GroupKey,
    pub line: u32,
    pub index: usize,
}

/// A function, in one of its two parts, as far as it comes from one source file.
pub struct GroupKey {
    pub file: usize,
    pub function: Seq<char>,
    pub context: Context,
}

/// The recorded lines of one function in one file, each with its instruction's index.
pub struct LineGroup {
    pub key: GroupKey,
    pub entries: Seq<(u32, usize)>,
}

/// The instruction that a line was resolved to.
pub struct Resolution {
    pub function: Seq<char>,
    pub context: Context,
    pub index: usize,
    pub line: u32,
}

/// The name under which a program's constructor is recorded.
pub open spec fn constructor_name() -> Seq<char> {
    "constructor"@
}

/// What the first `n` instructions of one function record.
pub open spec fn instruction_records(
    function: Seq<char>,
    context: Context,
    instructions: Seq<Option<DebugLoc>>,
    n: int,
) -> Seq<LineRecord>
    decreases n,
{
    if n <= 0 {
        Seq::empty()
    } else {
        let before = instruction_records(function, context, instructions, n - 1);
        match instructions[n - 1] {
            Some(loc) => before.push(
                LineRecord {
                    key: GroupKey { file: loc.file, function, context },
                    line: loc.line,
                    index: (n - 1) as usize,
                },
            ),
            None => before,
        }
    }
}

/// What all the instructions of one function record.
pub open spec fn function_records(
    function: Seq<char>,
    context: Context,
    instructions: DebugInstructions,
) -> Seq<LineRecord> {
    instruction_records(
        function,
        context,
        instructions.instructions@,
        instructions.instructions@.len() as int,
    )
}

/// What the first `n` functions of a section record.
pub open spec fn section_records(
    entries: Seq<(Seq<char>, DebugInstructions)>,
    context: Context,
    n: int,
) -> Seq<LineRecord>
    decreases n,
{
    if n <= 0 {
        Seq::empty()
    } else {
        section_records(entries, context, n - 1) + function_records(
            entries[n - 1].0,
            context,
            entries[n - 1].1,
        )
    }
}

/// What a whole section records.
pub open spec fn whole_section_records(
    entries: Seq<(Seq<char>, DebugInstructions)>,
    context: Context,
) -> Seq<LineRecord> {
    section_records(entries, context, entries.len() as int)
}

/// What the constructor records.
pub open spec fn constructor_records(constructor: Option<DebugInstructions>) -> Seq<LineRecord> {
    match constructor {
        Some(instructions) => function_records(
            constructor_name(),
            Context::Finalize,
            instructions,
        ),
        None => Seq::empty(),
    }
}

/// Everything that a debug map records: functions, closures, views, finalize blocks, and last the
/// constructor, each section in its own order.
pub open spec fn map_records(map: ProgramDebugMap) -> Seq<LineRecord> {
    whole_section_records(section_entries(map.functions), Context::Transition)
        + whole_section_records(section_entries(map.closures), Context::Transition)
        + whole_section_records(section_entries(map.views), Context::Transition)
        + whole_section_records(section_entries(map.finalizes), Context::Finalize)
        + constructor_records(map.constructor)
}

/// The functions of the records, in the order in which they first occur.
pub open spec fn group_keys(records: Seq<LineRecord>) -> Seq<GroupKey>
    decreases records.len(),
{
    if records.len() == 0 {
        Seq::empty()
    } else {
        let before = group_keys(records.drop_last());
        if before.contains(records.last().key) {
            before
        } else {
            before.push(records.last().key)
        }
    }
}

/// The lines and indices of the records of one function, in the order of the records.
pub open spec fn entries_of(records: Seq<LineRecord>, key: GroupKey) -> Seq<(u32, usize)>
    decreases records.len(),
{
    if records.len() == 0 {
        Seq::empty()
    } else {
        let before = entries_of(records.drop_last(), key);
        if records.last().key == key {
            before.push((records.last().line, records.last().index))
        } else {
            before
        }
    }
}

/// The order of the entries of a group: by line, and on one line by index.
pub open spec fn entry_le(a: (u32, usize), b: (u32, usize)) -> bool {
    a.0 < b.0 || (a.0 == b.0 && a.1 <= b.1)
}

/// `entry_le`, as a value.
pub open spec fn entry_order() -> spec_fn((u32, usize), (u32, usize)) -> bool {
    |a: (u32, usize), b: (u32, usize)| entry_le(a, b)
}

/// The entries of one function, sorted.
pub open spec fn sorted_entries(records: Seq<LineRecord>, key: GroupKey) -> Seq<(u32, usize)> {
    entries_of(records, key).sort_by(entry_order())
}

/// The records grouped by function, with the entries of each function sorted.
pub open spec fn line_groups(records: Seq<LineRecord>) -> Seq<LineGroup> {
    Seq::new(
        group_keys(records).len(),
        |i: int|
            LineGroup {
                key: group_keys(records)[i],
                entries: sorted_entries(records, group_keys(records)[i]),
            },
    )
}

/// The first entry at the line or behind it.
pub open spec fn first_from(entries: Seq<(u32, usize)>, line: u32) -> Option<(u32, usize)>
    decreases entries.len(),
{
    if entries.len() == 0 {
        None
    } else if entries[0].0 >= line {
        Some(entries[0])
    } else {
        first_from(entries.skip(1), line)
    }
}

/// The instruction that a line of a file resolves to: the nearest one at the line or behind it. Of
/// several groups with an equally near line the first one counts.
pub open spec fn resolution(groups: Seq<LineGroup>, file: usize, line: u32) -> Option<Resolution>
    decreases groups.len(),
{
    if groups.len() == 0 {
        None
    } else {
        let best = resolution(groups.drop_last(), file, line);
        let group = groups.last();
        if group.key.file != file {
            best
        } else {
            match first_from(group.entries, line) {
                None => best,
                Some((found, index)) => if best is Some && best->0.line <= found {
                    best
                } else {
                    Some(
                        Resolution {
                            function: group.key.function,
                            context: group.key.context,
                            index,
                            line: found,
                        },
                    )
                },
            }
        }
    }
}

/// The order of the entries is total.
pub proof fn lemma_entry_order_total()
    ensures
        total_ordering(entry_order()),
{
}

/// The groups' entries are sorted and hold what the records say of the function, no more and no
/// less.
pub proof fn lemma_sorted_entries(records: Seq<LineRecord>, key: GroupKey)
    ensures
        sorted_by(sorted_entries(records, key), entry_order()),
        sorted_entries(records, key).to_multiset() == entries_of(records, key).to_multiset(),
        forall|e: (u32, usize)|
            sorted_entries(records, key).contains(e) <==> #[trigger] entries_of(
                records,
                key,
            ).contains(e),
{
    lemma_entry_order_total();
    let plain = entries_of(records, key);
    plain.lemma_sort_by_ensures(entry_order());
    plain.to_multiset_ensures();
    plain.sort_by(entry_order()).to_multiset_ensures();
    assert forall|e: (u32, usize)| plain.sort_by(entry_order()).contains(e) <==> #[trigger]
        plain.contains(e) by {
        assert(plain.to_multiset().count(e) == plain.sort_by(entry_order()).to_multiset().count(e));
    }
}

/// The entries of a function are those of its records.
pub proof fn lemma_entries_of(records: Seq<LineRecord>, key: GroupKey, line: u32, index: usize)
    ensures
        entries_of(records, key).contains((line, index)) <==> records.contains(
            LineRecord { key, line, index },
        ),
    decreases records.len(),
{
    let record = LineRecord { key, line, index };
    if records.len() > 0 {
        let before = records.drop_last();
        let rest = entries_of(before, key);
        lemma_entries_of(before, key, line, index);
        assert(records =~= before.push(records.last()));
        if before.contains(record) {
            let i = choose|i: int| 0 <= i < before.len() && before[i] == record;
            assert(records[i] == record);
        }
        if records.contains(record) && !before.contains(record) {
            let i = choose|i: int| 0 <= i < records.len() && records[i] == record;
            if i < before.len() {
                assert(before[i] == record);
            }
            assert(entries_of(records, key).last() == (line, index));
            assert(entries_of(records, key)[rest.len() as int] == (line, index));
        }
        if rest.contains((line, index)) {
            let i = choose|i: int| 0 <= i < rest.len() && rest[i] == (line, index);
            assert(entries_of(records, key)[i] == (line, index));
        }
        if entries_of(records, key).contains((line, index)) && !rest.contains((line, index)) {
            let all = entries_of(records, key);
            let i = choose|i: int| 0 <= i < all.len() && all[i] == (line, index);
            if i < rest.len() {
                assert(rest[i] == (line, index));
            }
            assert(records.last() == record);
            assert(records[records.len() - 1] == record);
        }
    }
}

/// A function has a group exactly if a record belongs to it.
pub proof fn lemma_group_keys(records: Seq<LineRecord>, key: GroupKey)
    ensures
        group_keys(records).contains(key) <==> exists|i: int|
            0 <= i < records.len() && (#[trigger] records[i]).key == key,
        group_keys(records).no_duplicates(),
    decreases records.len(),
{
    if records.len() > 0 {
        let before = records.drop_last();
        let keys = group_keys(before);
        let last = records.last().key;
        lemma_group_keys(before, key);
        lemma_group_keys(before, last);
        let all = group_keys(records);
        if keys.contains(key) {
            let k = choose|k: int| 0 <= k < keys.len() && keys[k] == key;
            assert(all[k] == key);
            let i = choose|i: int| 0 <= i < before.len() && (#[trigger] before[i]).key == key;
            assert(records[i].key == key);
        }
        if last == key {
            assert(records[records.len() - 1].key == key);
            if !keys.contains(last) {
                assert(all[keys.len() as int] == key);
            }
        }
        if all.contains(key) && !keys.contains(key) {
            let k = choose|k: int| 0 <= k < all.len() && all[k] == key;
            if k < keys.len() {
                assert(keys[k] == key);
            }
        }
        if exists|i: int| 0 <= i < records.len() && (#[trigger] records[i]).key == key {
            let i = choose|i: int| 0 <= i < records.len() && (#[trigger] records[i]).key == key;
            if i < before.len() {
                assert(before[i].key == key);
            }
        }
        assert forall|a: int, b: int| 0 <= a < b < all.len() implies all[a] != all[b] by {
            if b == keys.len() {
                assert(keys.contains(keys[a]));
            }
        }
    }
}

/// Whether every group of the list is sorted.
pub open spec fn groups_sorted(groups: Seq<LineGroup>) -> bool {
    forall|i: int|
        0 <= i < groups.len() ==> sorted_by((#[trigger] groups[i]).entries, entry_order())
}

/// What `first_from` finds in sorted entries: the least entry at the line or behind it.
pub proof fn lemma_first_from(entries: Seq<(u32, usize)>, line: u32)
    requires
        sorted_by(entries, entry_order()),
    ensures
        match first_from(entries, line) {
            None => forall|i: int| 0 <= i < entries.len() ==> (#[trigger] entries[i]).0 < line,
            Some(e) => entries.contains(e) && e.0 >= line && forall|i: int|
                0 <= i < entries.len() && (#[trigger] entries[i]).0 >= line ==> entry_le(
                    e,
                    entries[i],
                ),
        },
    decreases entries.len(),
{
    if entries.len() > 0 {
        if entries[0].0 >= line {
            assert(entries.contains(entries[0]));
            assert forall|i: int|
                0 <= i < entries.len() && (#[trigger] entries[i]).0 >= line implies entry_le(
                entries[0],
                entries[i],
            ) by {
                if i > 0 {
                    assert(entry_order()(entries[0], entries[i]));
                }
            }
        } else {
            let rest = entries.skip(1);
            assert forall|i: int, j: int| 0 <= i < j < rest.len() implies #[trigger] entry_order()(
                rest[i],
                rest[j],
            ) by {
                assert(entry_order()(entries[i + 1], entries[j + 1]));
            }
            lemma_first_from(rest, line);
            assert forall|i: int| 0 < i < entries.len() implies #[trigger] entries[i] == rest[i
                - 1] by {}
            if let Some(e) = first_from(rest, line) {
                let k = choose|k: int| 0 <= k < rest.len() && rest[k] == e;
                assert(entries[k + 1] == e);
            }
        }
    }
}

/// Whether the resolution lies in group `g` and nothing is nearer: no entry of the file at the line
/// or behind it has a smaller line, no earlier group reaches the same line, and no entry of the
/// group has a smaller index on it.
pub open spec fn is_nearest_in(
    groups: Seq<LineGroup>,
    file: usize,
    line: u32,
    r: Resolution,
    g: int,
) -> bool {
    &&& 0 <= g < groups.len()
    &&& groups[g].key == (GroupKey { file, function: r.function, context: r.context })
    &&& groups[g].entries.contains((r.line, r.index))
    &&& r.line >= line
    &&& forall|h: int, e: int|
        #![trigger groups[h].entries[e]]
        0 <= h < groups.len() && groups[h].key.file == file && 0 <= e < groups[h].entries.len()
            && groups[h].entries[e].0 >= line ==> {
            &&& r.line <= groups[h].entries[e].0
            &&& h < g ==> r.line < groups[h].entries[e].0
            &&& h == g && r.line == groups[h].entries[e].0 ==> r.index <= groups[h].entries[e].1
        }
}

/// Whether `r` is what the line resolves to: the nearest instruction, or none if no entry of the
/// file lies at the line or behind it.
pub open spec fn is_nearest(
    groups: Seq<LineGroup>,
    file: usize,
    line: u32,
    r: Option<Resolution>,
) -> bool {
    match r {
        Some(r) => exists|g: int| is_nearest_in(groups, file, line, r, g),
        None => forall|h: int, e: int|
            #![trigger groups[h].entries[e]]
            0 <= h < groups.len() && groups[h].key.file == file && 0 <= e < groups[h].entries.len()
                ==> groups[h].entries[e].0 < line,
    }
}

/// A line resolves to the nearest instruction at it or behind it.
pub proof fn law_resolution_is_nearest(groups: Seq<LineGroup>, file: usize, line: u32)
    requires
        groups_sorted(groups),
    ensures
        is_nearest(groups, file, line, resolution(groups, file, line)),
    decreases groups.len(),
{
    if groups.len() > 0 {
        let rest = groups.drop_last();
        let last = groups.last();
        let n = rest.len() as int;
        law_resolution_is_nearest(rest, file, line);
        assert(groups[n] == last);
        lemma_first_from(last.entries, line);
        let best = resolution(rest, file, line);
        let r = resolution(groups, file, line);
        assert forall|h: int| 0 <= h < n implies groups[h] == #[trigger] rest[h] by {}
        if r == best {
            if let Some(b) = best {
                let g = choose|g: int| is_nearest_in(rest, file, line, b, g);
                assert(groups[g] == rest[g]);
                assert forall|h: int, e: int|
                    #![trigger groups[h].entries[e]]
                    0 <= h < groups.len() && groups[h].key.file == file && 0 <= e
                        < groups[h].entries.len() && groups[h].entries[e].0 >= line implies {
                    &&& b.line <= groups[h].entries[e].0
                    &&& h < g ==> b.line < groups[h].entries[e].0
                    &&& h == g && b.line == groups[h].entries[e].0 ==> b.index
                        <= groups[h].entries[e].1
                } by {
                    if h < n {
                        assert(rest[h].entries[e] == groups[h].entries[e]);
                    }
                }
                assert(is_nearest_in(groups, file, line, b, g));
            } else {
                assert forall|h: int, e: int|
                    #![trigger groups[h].entries[e]]
                    0 <= h < groups.len() && groups[h].key.file == file && 0 <= e
                        < groups[h].entries.len() implies groups[h].entries[e].0 < line by {
                    if h < n {
                        assert(rest[h].entries[e] == groups[h].entries[e]);
                    }
                }
            }
        } else {
            let found = r->0;
            assert(last.entries.contains((found.line, found.index)));
            assert forall|h: int, e: int|
                #![trigger groups[h].entries[e]]
                0 <= h < groups.len() && groups[h].key.file == file && 0 <= e
                    < groups[h].entries.len() && groups[h].entries[e].0 >= line implies {
                &&& found.line <= groups[h].entries[e].0
                &&& h < n ==> found.line < groups[h].entries[e].0
                &&& h == n && found.line == groups[h].entries[e].0 ==> found.index
                    <= groups[h].entries[e].1
            } by {
                if h < n {
                    assert(rest[h].entries[e] == groups[h].entries[e]);
                }
            }
            assert(is_nearest_in(groups, file, line, found, n));
        }
    }
}

/// There is only one nearest instruction.
pub proof fn law_nearest_is_unique(
    groups: Seq<LineGroup>,
    file: usize,
    line: u32,
    a: Option<Resolution>,
    b: Option<Resolution>,
)
    requires
        is_nearest(groups, file, line, a),
        is_nearest(groups, file, line, b),
    ensures
        a == b,
{
    if let Some(x) = a {
        let g = choose|g: int| is_nearest_in(groups, file, line, x, g);
        let e = choose|e: int|
            0 <= e < groups[g].entries.len() && groups[g].entries[e] == (x.line, x.index);
        assert(groups[g].entries[e].0 >= line);
        if let Some(y) = b {
            let h = choose|h: int| is_nearest_in(groups, file, line, y, h);
            let d = choose|d: int|
                0 <= d < groups[h].entries.len() && groups[h].entries[d] == (y.line, y.index);
            assert(groups[h].entries[d].0 >= line);
        }
    } else if let Some(y) = b {
        let h = choose|h: int| is_nearest_in(groups, file, line, y, h);
        let d = choose|d: int|
            0 <= d < groups[h].entries.len() && groups[h].entries[d] == (y.line, y.index);
        assert(groups[h].entries[d].0 >= line);
    }
}

/// Every line from the one that was asked for to the one that it resolved to resolves to the same
/// instruction.
pub proof fn law_resolution_is_stable(
    groups: Seq<LineGroup>,
    file: usize,
    line: u32,
    between: u32,
)
    requires
        groups_sorted(groups),
        resolution(groups, file, line) is Some,
        line <= between <= resolution(groups, file, line)->0.line,
    ensures
        resolution(groups, file, between) == resolution(groups, file, line),
{
    law_resolution_is_nearest(groups, file, line);
    let r = resolution(groups, file, line)->0;
    law_resolution_is_nearest(groups, file, between);
    let g = choose|g: int| is_nearest_in(groups, file, line, r, g);
    assert(is_nearest_in(groups, file, between, r, g));
    law_nearest_is_unique(groups, file, between, Some(r), resolution(groups, file, between));
}

/// A debug map's groups are sorted.
pub proof fn lemma_line_groups_sorted(records: Seq<LineRecord>)
    ensures
        groups_sorted(line_groups(records)),
{
    assert forall|i: int| 0 <= i < line_groups(records).len() implies sorted_by(
        (#[trigger] line_groups(records)[i]).entries,
        entry_order(),
    ) by {
        lemma_sorted_entries(records, group_keys(records)[i]);
    }
}

/// A line resolves to a recorded instruction of its file, at the line or behind it, and no recorded
/// instruction of the file lies between; it resolves to none exactly if the file records nothing
/// from the line on.
pub proof fn law_resolves_to_a_record(records: Seq<LineRecord>, file: usize, line: u32)
    ensures
        match resolution(line_groups(records), file, line) {
            Some(r) => {
                &&& r.line >= line
                &&& records.contains(
                    LineRecord {
                        key: GroupKey { file, function: r.function, context: r.context },
                        line: r.line,
                        index: r.index,
                    },
                )
                &&& forall|i: int|
                    0 <= i < records.len() && (#[trigger] records[i]).key.file == file
                        && records[i].line >= line ==> r.line <= records[i].line
            },
            None => forall|i: int|
                0 <= i < records.len() && (#[trigger] records[i]).key.file == file
                    ==> records[i].line < line,
        },
{
    let groups = line_groups(records);
    let keys = group_keys(records);
    lemma_line_groups_sorted(records);
    law_resolution_is_nearest(groups, file, line);
    let found = resolution(groups, file, line);
    assert forall|i: int|
        0 <= i < records.len() && (#[trigger] records[i]).key.file == file implies match found {
        Some(r) => records[i].line >= line ==> r.line <= records[i].line,
        None => records[i].line < line,
    } by {
        let record = records[i];
        lemma_group_keys(records, record.key);
        let h = choose|h: int| 0 <= h < keys.len() && keys[h] == record.key;
        lemma_entries_of(records, record.key, record.line, record.index);
        lemma_sorted_entries(records, record.key);
        assert(records.contains(record));
        assert(entries_of(records, record.key).contains((record.line, record.index)));
        assert(groups[h].entries == sorted_entries(records, record.key));
        let e = choose|e: int|
            0 <= e < groups[h].entries.len() && groups[h].entries[e] == (record.line, record.index);
        assert(groups[h].entries[e].0 == record.line);
    }
    if let Some(r) = found {
        let g = choose|g: int| is_nearest_in(groups, file, line, r, g);
        lemma_sorted_entries(records, keys[g]);
        assert(entries_of(records, keys[g]).contains((r.line, r.index)));
        lemma_entries_of(records, keys[g], r.line, r.index);
    }
}

} // verus!
