//! Breakpoints, and the way from a source line to the instruction to break at.
use indexmap::IndexMap;
use vstd::prelude::*;
use vstd::relations::sorted_by;

use crate::debug_map::{
    is_only_place, section_entries, section_entry, section_len, sections_unique, unique_names,
    DebugInstructions, ProgramDebugMap,
};
use crate::hook::Context;
use crate::paths::{are_file_names, file_names, optional_texts};
use crate::precedence::{law_first_function_wins, names_apart, wins};
use crate::records::{
    constructor_records, entries_of, entry_le, entry_order, first_from, function_records,
    group_keys, groups_sorted, instruction_records, is_nearest, law_resolution_is_nearest,
    lemma_entry_order_total, lemma_group_keys, lemma_sorted_entries, line_groups, map_records,
    resolution, section_records, sorted_entries, whole_section_records, GroupKey, LineGroup,
    LineRecord, Resolution,
};
use crate::text::{same, texts};

verus! {

/// The instruction at which to stop.
#[derive(Debug, PartialEq, Eq, Hash)]
pub struct BreakpointKey {
    pub program: String,
    pub function: String,
    pub context: Context,
    pub index: usize,
}

/// What a `BreakpointKey` says.
pub struct KeyView {
    pub program: Seq<char>,
    pub function: Seq<char>,
    pub context: Context,
    pub index: usize,
}

impl View for BreakpointKey {
    type V = KeyView;

    open spec fn view(&self) -> KeyView {
        KeyView {
            program: self.program@,
            function: self.function@,
            context: self.context,
            index: self.index,
        }
    }
}

impl Clone for BreakpointKey {
    fn clone(&self) -> (copy: Self)
        ensures
            copy@ == self@,
    {
        BreakpointKey {
            program: self.program.clone(),
            function: self.function.clone(),
            context: self.context,
            index: self.index,
        }
    }
}

/// What the keys of a list say, in order.
pub open spec fn key_views(keys: Seq<BreakpointKey>) -> Seq<KeyView> {
    Seq::new(keys.len(), |i: int| keys[i]@)
}

/// A set of breakpoints.
pub struct BreakpointSet {
    keys: Vec<BreakpointKey>,
}

impl View for BreakpointSet {
    type V = Set<KeyView>;

    closed spec fn view(&self) -> Set<KeyView> {
        key_views(self.keys@).to_set()
    }
}

impl Default for BreakpointSet {
    /// The set without breakpoints.
    fn default() -> (set: Self)
        ensures
            set.well_formed(),
            set@ == Set::<KeyView>::empty(),
    {
        let set = BreakpointSet { keys: Vec::new() };
        assert(set@ =~= Set::<KeyView>::empty());
        set
    }
}

impl BreakpointSet {
    /// No breakpoint is held twice.
    pub closed spec fn well_formed(&self) -> bool {
        key_views(self.keys@).no_duplicates()
    }

    /// Where the breakpoint is held, if it is.
    fn position(&self, program: &str, function: &str, context: Context, index: usize) -> (found:
        Option<usize>)
        ensures
            match found {
                Some(i) => i < self.keys.len() && self.keys[i as int]@ == (KeyView {
                    program: program@,
                    function: function@,
                    context,
                    index,
                }),
                None => !self@.contains(
                    KeyView { program: program@, function: function@, context, index },
                ),
            },
    {
        let ghost wanted = KeyView { program: program@, function: function@, context, index };
        let mut i: usize = 0;
        while i < self.keys.len()
            invariant
                i <= self.keys.len(),
                wanted == (KeyView { program: program@, function: function@, context, index }),
                forall|j: int| 0 <= j < i ==> #[trigger] self.keys[j]@ != wanted,
            decreases self.keys.len() - i,
        {
            let key = &self.keys[i];
            if key.index == index && key.context == context && same(key.function.as_str(), function)
                && same(key.program.as_str(), program) {
                return Some(i);
            }
            i += 1;
        }
        assert forall|j: int| 0 <= j < self.keys.len() implies key_views(self.keys@)[j]
            != wanted by {
            assert(self.keys[j]@ != wanted);
        }
        None
    }

    /// Adds a breakpoint. Says whether it was not in the set before.
    pub fn insert(&mut self, key: BreakpointKey) -> (added: bool)
        requires
            old(self).well_formed(),
        ensures
            final(self).well_formed(),
            final(self)@ == old(self)@.insert(key@),
            added == !old(self)@.contains(key@),
    {
        let ghost before = key_views(self.keys@);
        let found = self.position(
            key.program.as_str(),
            key.function.as_str(),
            key.context,
            key.index,
        );
        if let Some(i) = found {
            proof {
                assert(before[i as int] == key@);
                assert(self@.insert(key@) =~= self@);
            }
            return false;
        }
        let ghost added = key@;
        self.keys.push(key);
        proof {
            let after = key_views(self.keys@);
            assert(after =~= before.push(added));
            assert forall|i: int, j: int| 0 <= i < j < after.len() implies after[i] != after[j] by {
                if j == before.len() {
                    assert(before.contains(before[i]));
                }
            }
            assert(after.to_set() =~= before.to_set().insert(added)) by {
                assert(after[before.len() as int] == added);
                assert forall|k: KeyView| before.contains(k) implies after.contains(k) by {
                    let i = choose|i: int| 0 <= i < before.len() && before[i] == k;
                    assert(after[i] == k);
                }
            }
        }
        true
    }

    /// Takes a breakpoint away. Says whether it was in the set.
    pub fn remove(&mut self, key: &BreakpointKey) -> (removed: bool)
        requires
            old(self).well_formed(),
        ensures
            final(self).well_formed(),
            final(self)@ == old(self)@.remove(key@),
            removed == old(self)@.contains(key@),
    {
        let ghost before = key_views(self.keys@);
        let found = self.position(
            key.program.as_str(),
            key.function.as_str(),
            key.context,
            key.index,
        );
        match found {
            None => {
                assert(self@.remove(key@) =~= self@);
                false
            },
            Some(i) => {
                assert(before[i as int] == key@);
                self.keys.remove(i);
                proof {
                    let after = key_views(self.keys@);
                    assert(after =~= before.remove(i as int));
                    assert forall|a: int, b: int| 0 <= a < b < after.len() implies after[a]
                        != after[b] by {
                        let c = if a < i { a } else { a + 1 };
                        let d = if b < i { b } else { b + 1 };
                        assert(after[a] == before[c] && after[b] == before[d]);
                    }
                    assert(after.to_set() =~= before.to_set().remove(key@)) by {
                        assert forall|k: KeyView| after.contains(k) implies before.contains(k) && k
                            != key@ by {
                            let a = choose|a: int| 0 <= a < after.len() && after[a] == k;
                            let c = if a < i { a } else { a + 1 };
                            assert(before[c] == k);
                        }
                        assert forall|k: KeyView| before.contains(k) && k != key@ implies
                            after.contains(k) by {
                            let c = choose|c: int| 0 <= c < before.len() && before[c] == k;
                            let a = if c < i { c } else { c - 1 };
                            assert(after[a] == k);
                        }
                    }
                }
                true
            },
        }
    }

    /// Whether the set holds a breakpoint at that instruction.
    pub fn contains(&self, program: &str, function: &str, context: Context, index: usize) -> (held:
        bool)
        ensures
            held == self@.contains(
                KeyView { program: program@, function: function@, context, index },
            ),
    {
        match self.position(program, function, context, index) {
            Some(i) => {
                assert(key_views(self.keys@)[i as int] == self.keys[i as int]@);
                true
            },
            None => false,
        }
    }

    /// The breakpoints of the set, each once.
    pub fn iter(&self) -> (it: std::slice::Iter<'_, BreakpointKey>)
        requires
            self.well_formed(),
        ensures
            key_views(vstd::std_specs::iter::IteratorSpec::remaining(&it).unref()).no_duplicates(),
            key_views(vstd::std_specs::iter::IteratorSpec::remaining(&it).unref()).to_set() == self@,
    {
        let it = self.keys.iter();
        assert(vstd::std_specs::iter::IteratorSpec::remaining(&it).unref() =~= self.keys@);
        it
    }
}

/// The recorded lines of one function in one file.
struct Group {
    file: usize,
    function: String,
    context: Context,
    entries: Vec<(u32, usize)>,
}

impl Group {
    spec fn key(&self) -> GroupKey {
        GroupKey { file: self.file, function: self.function@, context: self.context }
    }

    spec fn model(&self) -> LineGroup {
        LineGroup { key: self.key(), entries: self.entries@ }
    }
}

/// For each function of a program, the source lines of its instructions.
pub struct ReverseIndex {
    by_file_function_context: Vec<Group>,
}

impl View for ReverseIndex {
    type V = Seq<LineGroup>;

    closed spec fn view(&self) -> Seq<LineGroup> {
        let groups = self.by_file_function_context@;
        Seq::new(groups.len(), |i: int| groups[i].model())
    }
}

/// Whether the groups hold the records, with each group's entries sorted.
spec fn holds_records(groups: Seq<Group>, records: Seq<LineRecord>) -> bool {
    &&& groups.len() == group_keys(records).len()
    &&& forall|i: int|
        #![trigger groups[i]]
        0 <= i < groups.len() ==> {
            &&& groups[i].key() == group_keys(records)[i]
            &&& sorted_by(groups[i].entries@, entry_order())
            &&& groups[i].entries@.to_multiset() == entries_of(
                records,
                groups[i].key(),
            ).to_multiset()
        }
}

/// Puts an entry at its place among sorted ones.
fn insert_sorted(entries: &mut Vec<(u32, usize)>, line: u32, index: usize)
    requires
        sorted_by(old(entries)@, entry_order()),
    ensures
        sorted_by(final(entries)@, entry_order()),
        final(entries)@.to_multiset() == old(entries)@.to_multiset().insert((line, index)),
{
    let ghost before = entries@;
    let ghost entry = (line, index);
    let mut pos: usize = entries.len();
    while pos > 0 && (entries[pos - 1].0 > line || (entries[pos - 1].0 == line && entries[pos - 1].1
        > index))
        invariant
            entries@ == before,
            entry == (line, index),
            pos <= entries.len(),
            forall|j: int| pos <= j < entries.len() ==> entry_le(entry, #[trigger] entries[j]),
        decreases pos,
    {
        pos -= 1;
    }
    entries.insert(pos, (line, index));
    proof {
        let after = entries@;
        assert(after =~= before.insert(pos as int, entry));
        assert forall|i: int, j: int| 0 <= i < j < after.len() implies #[trigger] entry_order()(
            after[i],
            after[j],
        ) by {
            let a = if i < pos { i } else { i - 1 };
            let b = if j < pos { j } else { j - 1 };
            if i != pos && j != pos {
                assert(entry_order()(before[a], before[b]));
            } else if j == pos {
                if i < pos - 1 {
                    assert(entry_order()(before[i], before[pos - 1]));
                }
                assert(entry_le(before[pos - 1], entry));
            } else {
                assert(entry_le(entry, before[b]));
            }
        }
        after.to_multiset_ensures();
        before.to_multiset_ensures();
        assert(after.remove(pos as int) =~= before);
        assert(after[pos as int] == entry);
        assert(after.contains(entry));
        assert(after.to_multiset() =~= before.to_multiset().insert(entry));
    }
}

/// How many entries lie before the line.
fn entries_before(entries: &Vec<(u32, usize)>, line: u32) -> (n: usize)
    requires
        sorted_by(entries@, entry_order()),
    ensures
        n <= entries.len(),
        forall|j: int| 0 <= j < n ==> (#[trigger] entries[j]).0 < line,
        n < entries.len() ==> entries[n as int].0 >= line,
{
    let mut low: usize = 0;
    let mut high: usize = entries.len();
    while low < high
        invariant
            sorted_by(entries@, entry_order()),
            low <= high <= entries.len(),
            forall|j: int| 0 <= j < low ==> (#[trigger] entries[j]).0 < line,
            high < entries.len() ==> entries[high as int].0 >= line,
        decreases high - low,
    {
        let mid: usize = low + (high - low) / 2;
        if entries[mid].0 < line {
            assert forall|j: int| 0 <= j < mid + 1 implies (#[trigger] entries[j]).0 < line by {
                if j < mid {
                    assert(entry_order()(entries[j], entries[mid as int]));
                }
            }
            low = mid + 1;
        } else {
            high = mid;
        }
    }
    low
}

/// The entry behind those that lie before the line is the one that `first_from` finds.
proof fn lemma_first_from_is(entries: Seq<(u32, usize)>, line: u32, n: int)
    requires
        0 <= n <= entries.len(),
        forall|j: int| 0 <= j < n ==> (#[trigger] entries[j]).0 < line,
        n < entries.len() ==> entries[n].0 >= line,
    ensures
        first_from(entries, line) == if n < entries.len() {
            Some(entries[n])
        } else {
            None
        },
    decreases entries.len(),
{
    if n > 0 {
        assert(entries[0].0 < line);
        let rest = entries.skip(1);
        assert forall|j: int| 0 <= j < n - 1 implies (#[trigger] rest[j]).0 < line by {
            assert(entries[j + 1].0 < line);
        }
        lemma_first_from_is(rest, line, n - 1);
    }
}

/// What a line was resolved to, as a model.
pub open spec fn resolved(found: Option<(String, Context, usize, u32)>) -> Option<Resolution> {
    match found {
        Some((function, context, index, line)) => Some(
            Resolution { function: function@, context, index, line },
        ),
        None => None,
    }
}

impl ReverseIndex {
    /// The entries of every group are sorted.
    pub open spec fn well_formed(&self) -> bool {
        groups_sorted(self@)
    }

    /// Adds one record.
    fn add(
        &mut self,
        file: usize,
        function: &str,
        context: Context,
        line: u32,
        index: usize,
        Ghost(records): Ghost<Seq<LineRecord>>,
    )
        requires
            holds_records(old(self).by_file_function_context@, records),
        ensures
            holds_records(
                final(self).by_file_function_context@,
                records.push(
                    LineRecord {
                        key: GroupKey { file, function: function@, context },
                        line,
                        index,
                    },
                ),
            ),
    {
        let ghost before = self.by_file_function_context@;
        let ghost key = GroupKey { file, function: function@, context };
        let ghost record = LineRecord { key, line, index };
        let ghost more = records.push(record);
        proof {
            assert(more.drop_last() =~= records);
            lemma_group_keys(records, key);
            entries_of(records, key).to_multiset_ensures();
        }
        let mut i: usize = 0;
        while i < self.by_file_function_context.len()
            invariant
                self.by_file_function_context@ == before,
                i <= before.len(),
                key == (GroupKey { file, function: function@, context }),
                record == (LineRecord { key, line, index }),
                more == records.push(record),
                more.drop_last() == records,
                holds_records(before, records),
                group_keys(records).no_duplicates(),
                forall|e: (u32, usize)| #[trigger]
                    entries_of(records, key).push(e).to_multiset() =~= entries_of(
                        records,
                        key,
                    ).to_multiset().insert(e),
                forall|j: int| 0 <= j < i ==> (#[trigger] before[j]).key() != key,
            decreases before.len() - i,
        {
            let group = &self.by_file_function_context[i];
            if group.file == file && group.context == context && same(
                group.function.as_str(),
                function,
            ) {
                insert_sorted(&mut self.by_file_function_context[i].entries, line, index);
                proof {
                    let after = self.by_file_function_context@;
                    assert(before[i as int].key() == key);
                    assert(group_keys(records)[i as int] == key);
                    assert(group_keys(records).contains(key));
                    assert(group_keys(more) == group_keys(records));
                    assert(entries_of(more, key) == entries_of(records, key).push((line, index)));
                    assert forall|j: int| #![trigger after[j]] 0 <= j < after.len() implies {
                        &&& after[j].key() == group_keys(more)[j]
                        &&& sorted_by(after[j].entries@, entry_order())
                        &&& after[j].entries@.to_multiset() == entries_of(
                            more,
                            after[j].key(),
                        ).to_multiset()
                    } by {
                        assert(before[j].key() == group_keys(records)[j]);
                        if j != i {
                            assert(after[j] == before[j]);
                            assert(group_keys(records)[j] != group_keys(records)[i as int]);
                        }
                    }
                }
                return;
            }
            i += 1;
        }
        let mut entries: Vec<(u32, usize)> = Vec::new();
        entries.push((line, index));
        self.by_file_function_context.push(
            Group { file, function: function.to_string(), context, entries },
        );
        proof {
            let after = self.by_file_function_context@;
            let keys = group_keys(records);
            if keys.contains(key) {
                let k = choose|k: int| 0 <= k < keys.len() && keys[k] == key;
                assert(before[k].key() == key);
            }
            assert(group_keys(more) == keys.push(key));
            assert(entries_of(records, key).len() == 0) by {
                if entries_of(records, key).len() > 0 {
                    let e = entries_of(records, key)[0];
                    assert(entries_of(records, key).contains(e));
                    crate::records::lemma_entries_of(records, key, e.0, e.1);
                    let r = LineRecord { key, line: e.0, index: e.1 };
                    let m = choose|m: int| 0 <= m < records.len() && records[m] == r;
                    assert(records[m].key == key);
                }
            }
            assert(entries_of(more, key) =~= seq![(line, index)]);
            assert(entries@ =~= seq![(line, index)]);
            assert forall|j: int| #![trigger after[j]] 0 <= j < after.len() implies {
                &&& after[j].key() == group_keys(more)[j]
                &&& sorted_by(after[j].entries@, entry_order())
                &&& after[j].entries@.to_multiset() == entries_of(
                    more,
                    after[j].key(),
                ).to_multiset()
            } by {
                if j < before.len() {
                    assert(after[j] == before[j]);
                    assert(before[j].key() == keys[j]);
                    assert(before[j].key() != key);
                } else {
                    assert(after[j].key() == key);
                }
            }
        }
    }

    /// Adds what the instructions of one function record.
    fn add_function(
        &mut self,
        function: &str,
        context: Context,
        instructions: &DebugInstructions,
        Ghost(records): Ghost<Seq<LineRecord>>,
    )
        requires
            holds_records(old(self).by_file_function_context@, records),
        ensures
            holds_records(
                final(self).by_file_function_context@,
                records + function_records(function@, context, *instructions),
            ),
    {
        let mut index: usize = 0;
        let ghost list = instructions.instructions@;
        assert(records + instruction_records(function@, context, list, 0) =~= records);
        while index < instructions.instructions.len()
            invariant
                list == instructions.instructions@,
                index <= list.len(),
                holds_records(
                    self.by_file_function_context@,
                    records + instruction_records(function@, context, list, index as int),
                ),
            decreases list.len() - index,
        {
            let ghost now = records + instruction_records(function@, context, list, index as int);
            if let Some(loc) = instructions.instructions[index] {
                self.add(loc.file, function, context, loc.line, index, Ghost(now));
                assert(records + instruction_records(function@, context, list, index + 1)
                    =~= now.push(
                    LineRecord {
                        key: GroupKey { file: loc.file, function: function@, context },
                        line: loc.line,
                        index,
                    },
                ));
            }
            index += 1;
        }
    }

    /// Adds what a section of a debug map records.
    fn add_section(
        &mut self,
        section: &IndexMap<String, DebugInstructions>,
        context: Context,
        Ghost(records): Ghost<Seq<LineRecord>>,
    )
        requires
            holds_records(old(self).by_file_function_context@, records),
        ensures
            holds_records(
                final(self).by_file_function_context@,
                records + whole_section_records(section_entries(*section), context),
            ),
            unique_names(section_entries(*section)),
    {
        let ghost entries = section_entries(*section);
        let mut i: usize = 0;
        assert(records + section_records(entries, context, 0) =~= records);
        let n: usize = section_len(section);
        while i < n
            invariant
                entries == section_entries(*section),
                n == entries.len(),
                i <= n,
                holds_records(
                    self.by_file_function_context@,
                    records + section_records(entries, context, i as int),
                ),
                forall|j: int|
                    0 <= j < i ==> is_only_place(entries, (#[trigger] entries[j]).0, j),
            decreases n - i,
        {
            if let Some((name, instructions)) = section_entry(section, i) {
                let ghost now = records + section_records(entries, context, i as int);
                self.add_function(name.as_str(), context, instructions, Ghost(now));
                assert(records + section_records(entries, context, i + 1) =~= now
                    + function_records(name@, context, *instructions));
            }
            i += 1;
        }
    }

    /// The index of a program's debug map. If the map tells its functions apart by name, then of the
    /// instructions on a line the one that comes first in the map is what the line resolves to.
    pub fn build(debug_map: &ProgramDebugMap) -> (index: Self)
        ensures
            index.well_formed(),
            index@ == line_groups(map_records(*debug_map)),
            sections_unique(*debug_map),
            names_apart(*debug_map) ==> forall|file: usize, line: u32|
                (#[trigger] resolution(index@, file, line)) is Some ==> wins(
                    *debug_map,
                    file,
                    resolution(index@, file, line)->0,
                ),
    {
        let mut index = ReverseIndex { by_file_function_context: Vec::new() };
        let ghost none = Seq::<LineRecord>::empty();
        let ghost functions = whole_section_records(
            section_entries(debug_map.functions),
            Context::Transition,
        );
        index.add_section(&debug_map.functions, Context::Transition, Ghost(none));
        let ghost first = none + functions;
        index.add_section(&debug_map.closures, Context::Transition, Ghost(first));
        let ghost second = first + whole_section_records(
            section_entries(debug_map.closures),
            Context::Transition,
        );
        index.add_section(&debug_map.views, Context::Transition, Ghost(second));
        let ghost third = second + whole_section_records(
            section_entries(debug_map.views),
            Context::Transition,
        );
        index.add_section(&debug_map.finalizes, Context::Finalize, Ghost(third));
        let ghost fourth = third + whole_section_records(
            section_entries(debug_map.finalizes),
            Context::Finalize,
        );
        if let Some(constructor) = &debug_map.constructor {
            index.add_function("constructor", Context::Finalize, constructor, Ghost(fourth));
        }
        proof {
            let records = map_records(*debug_map);
            assert(first =~= functions);
            assert(fourth + constructor_records(debug_map.constructor) =~= records);
            assert(fourth + Seq::<LineRecord>::empty() =~= fourth);
            let groups = index.by_file_function_context@;
            assert(holds_records(groups, records));
            lemma_entry_order_total();
            assert forall|i: int| 0 <= i < groups.len() implies #[trigger] index@[i] == line_groups(
                records,
            )[i] by {
                let key = groups[i].key();
                lemma_sorted_entries(records, key);
                vstd::seq_lib::lemma_sorted_unique(
                    groups[i].entries@,
                    sorted_entries(records, key),
                    entry_order(),
                );
            }
            assert(index@ =~= line_groups(records));
            if names_apart(*debug_map) {
                assert forall|file: usize, line: u32|
                    (#[trigger] resolution(index@, file, line)) is Some implies wins(
                    *debug_map,
                    file,
                    resolution(index@, file, line)->0,
                ) by {
                    law_first_function_wins(*debug_map, file, line);
                }
            }
        }
        index
    }

    /// The instruction to break at for a line of a file: its function, the part of the call, its
    /// index there, and the line that it is on.
    pub fn resolve(&self, file: usize, line: u32) -> (found: Option<(String, Context, usize, u32)>)
        requires
            self.well_formed(),
        ensures
            resolved(found) == resolution(self@, file, line),
            is_nearest(self@, file, line, resolved(found)),
    {
        let groups = &self.by_file_function_context;
        let mut best: Option<(u32, usize, usize)> = None;
        let mut i: usize = 0;
        assert(self@.take(0) =~= Seq::<LineGroup>::empty());
        while i < groups.len()
            invariant
                self.well_formed(),
                groups == self.by_file_function_context,
                i <= groups.len(),
                match (best, resolution(self@.take(i as int), file, line)) {
                    (Some((found, g, index)), Some(r)) => g < groups.len() && r == (Resolution {
                        function: groups[g as int].function@,
                        context: groups[g as int].context,
                        index,
                        line: found,
                    }),
                    (None, None) => true,
                    _ => false,
                },
            decreases groups.len() - i,
        {
            let group = &groups[i];
            proof {
                assert(self@.take(i + 1).drop_last() =~= self@.take(i as int));
                assert(self@.take(i + 1).last() == group.model());
                assert(self@[i as int] == group.model());
            }
            if group.file == file {
                let position: usize = entries_before(&group.entries, line);
                proof {
                    lemma_first_from_is(group.entries@, line, position as int);
                }
                if position < group.entries.len() {
                    let (found, index) = group.entries[position];
                    let nearer = match best {
                        None => true,
                        Some((best_line, _, _)) => found < best_line,
                    };
                    if nearer {
                        best = Some((found, i, index));
                    }
                }
            }
            i += 1;
        }
        assert(self@.take(i as int) =~= self@);
        proof {
            law_resolution_is_nearest(self@, file, line);
        }
        match best {
            None => None,
            Some((found, g, index)) => Some(
                (groups[g].function.clone(), groups[g].context, index, found),
            ),
        }
    }
}

/// Whether the file name matches the path: it is the whole path, or the path's file name.
pub open spec fn file_matches(
    path: Seq<char>,
    name: Option<Seq<char>>,
    filename: Seq<char>,
) -> bool {
    path == filename || name == Some(filename)
}

/// The first of the paths that the file name matches, from index `from` on.
pub open spec fn first_file(
    paths: Seq<Seq<char>>,
    names: Seq<Option<Seq<char>>>,
    filename: Seq<char>,
    from: int,
) -> Option<int>
    decreases paths.len() - from,
{
    if from >= paths.len() {
        None
    } else if file_matches(paths[from], names[from], filename) {
        Some(from)
    } else {
        first_file(paths, names, filename, from + 1)
    }
}

/// Which of the paths the file name matches first, where `names` holds the file name of each path.
pub fn match_file(paths: &Vec<String>, names: &Vec<Option<String>>, filename: &str) -> (found:
    Option<usize>)
    requires
        names.len() == paths.len(),
    ensures
        match (found, first_file(texts(paths@), optional_texts(names@), filename@, 0)) {
            (Some(i), Some(j)) => i == j && i < paths.len(),
            (None, None) => true,
            _ => false,
        },
{
    let mut i: usize = 0;
    while i < paths.len()
        invariant
            i <= paths.len(),
            names.len() == paths.len(),
            first_file(texts(paths@), optional_texts(names@), filename@, 0) == first_file(
                texts(paths@),
                optional_texts(names@),
                filename@,
                i as int,
            ),
        decreases paths.len() - i,
    {
        if same(paths[i].as_str(), filename) {
            return Some(i);
        }
        if let Some(name) = &names[i] {
            if same(name.as_str(), filename) {
                return Some(i);
            }
        }
        i += 1;
    }
    None
}

/// The index of the source file that a name stands for: a path as the debug map has it, or the file
/// name of such a path. The first source file that fits is taken. Where the parts of a path end
/// rests with the platform, as far as `may_be_file_name` leaves it open.
pub fn resolve_file_index(debug_map: &ProgramDebugMap, filename: &str) -> (found: Option<usize>)
    ensures
        exists|names: Seq<Option<Seq<char>>>|
            {
                &&& #[trigger] are_file_names(texts(debug_map.source_files@), names)
                &&& match (found, first_file(texts(debug_map.source_files@), names, filename@, 0)) {
                    (Some(i), Some(j)) => i == j && i < debug_map.source_files.len(),
                    (None, None) => true,
                    _ => false,
                }
            },
{
    let names = file_names(&debug_map.source_files);
    match_file(&debug_map.source_files, &names, filename)
}

/// Removing a breakpoint that was set anew leads back to the set as it was, and setting one again
/// changes nothing.
pub proof fn law_removing_undoes_inserting(set: Set<KeyView>, key: KeyView)
    ensures
        !set.contains(key) ==> set.insert(key).remove(key) == set,
        set.contains(key) ==> set.insert(key) == set,
        set.contains(key) ==> set.remove(key).insert(key) == set,
{
    assert(!set.contains(key) ==> set.insert(key).remove(key) =~= set);
    assert(set.contains(key) ==> set.insert(key) =~= set);
    assert(set.contains(key) ==> set.remove(key).insert(key) =~= set);
}

} // verus!
