//! What the panes of the terminal interface show.
use vstd::prelude::*;

use crate::hook::Context;
use crate::layout::{
    are_rows, fixed_on_top, in_quarters, least, lines_of, split_input_line, split_screen,
    split_title_bar, stacked, Area,
};
use crate::paths::{file_name, may_be_file_name};
use crate::text::{
    chars_of, decimal, decimal_text, ends_with, is_space, optional_text, same, space, starts_with,
    texts, trim, trimmed,
};
use crate::tui::{
    clamp_scroll, clamped, find_program, max_scroll, program_index, source_lines, source_path, App,
    AppView, Pane, StopView, Viewport,
};

verus! {

/// How a line is set off.
#[derive(Clone, Copy, Debug, PartialEq, Eq, Structural)]
pub enum LineStyle {
    Plain,
    /// Where execution is.
    Highlight,
    Header,
}

/// A line in a pane.
pub struct PaneLine {
    pub text: String,
    pub style: LineStyle,
}

/// What the lines say, and how each of them is set off.
pub open spec fn line_views(list: Seq<PaneLine>) -> Seq<(Seq<char>, LineStyle)> {
    Seq::new(list.len(), |i: int| (list[i].text@, list[i].style))
}

/// What stands below the title of a pane: a remark, or a text with the line at which it starts.
pub enum PaneBody {
    Note(String),
    Lines(Vec<PaneLine>, u16),
}

/// What a `PaneBody` says.
pub enum BodyView {
    Note(Seq<char>),
    Lines(Seq<(Seq<char>, LineStyle)>, u16),
}

impl View for PaneBody {
    type V = BodyView;

    open spec fn view(&self) -> BodyView {
        match self {
            PaneBody::Note(text) => BodyView::Note(text@),
            PaneBody::Lines(list, scroll) => BodyView::Lines(line_views(list@), *scroll),
        }
    }
}

/// What a pane above the console shows.
pub struct PaneContent {
    pub title: String,
    pub focused: bool,
    pub body: PaneBody,
}

/// What a `PaneContent` says.
pub struct ContentView {
    pub title: Seq<char>,
    pub focused: bool,
    pub body: BodyView,
}

impl View for PaneContent {
    type V = ContentView;

    open spec fn view(&self) -> ContentView {
        ContentView { title: self.title@, focused: self.focused, body: self.body@ }
    }
}

/// The title of a pane, with a marker where the pane is in focus.
pub open spec fn title_text(title: Seq<char>, focused: bool) -> Seq<char> {
    (if focused {
        "▸"@
    } else {
        " "@
    }) + " "@ + title
}

/// The title of a pane, with a marker where the pane is in focus.
pub fn title_line(title: &str, focused: bool) -> (line: String)
    ensures
        line@ == title_text(title@, focused),
{
    let mut line = if focused {
        "▸".to_string()
    } else {
        " ".to_string()
    };
    line.append(" ");
    line.append(title);
    line
}

/// A number, with blanks before it where it has fewer than five digits.
pub open spec fn padded(n: nat) -> Seq<char> {
    let digits = decimal(n);
    if digits.len() < 5 {
        Seq::new((5 - digits.len()) as nat, |i: int| ' ') + digits
    } else {
        digits
    }
}

/// The number of the line with that index; it has thirty-two bits.
pub open spec fn line_number(index: int) -> int {
    (index + 1) % 0x1_0000_0000
}

/// A source line with its number.
pub open spec fn numbered(index: int, line: Seq<char>) -> Seq<char> {
    padded(line_number(index) as nat) + " | "@ + line
}

/// Source lines with their numbers; the line where execution is is set off.
pub open spec fn numbered_lines(list: Seq<Seq<char>>, highlight: u32) -> Seq<
    (Seq<char>, LineStyle),
> {
    Seq::new(
        list.len(),
        |i: int|
            (
                numbered(i, list[i]),
                if line_number(i) == highlight {
                    LineStyle::Highlight
                } else {
                    LineStyle::Plain
                },
            ),
    )
}

/// The scroll position that has the line with the index in the middle of what is visible.
pub open spec fn centred(index: int, height: u16) -> int {
    if index > height as int / 2 {
        (index - height as int / 2) % 0x10000
    } else {
        0
    }
}

/// The title of the source pane for a file: the file's name, or its path if that has none.
pub open spec fn source_title(
    app: AppView,
    program: Seq<char>,
    file: usize,
    name: Option<Seq<char>>,
) -> Seq<char> {
    match source_path(app.programs, program, file) {
        None => "Leo source"@,
        Some(path) => match name {
            Some(label) => label,
            None => path,
        },
    }
}

/// A viewport on a text of `len` lines when it is drawn with that height: it is brought to the target
/// if it follows, and held to the text.
pub open spec fn brought(view: Viewport, target: int, len: int, height: u16) -> Viewport {
    let scroll = if view.follow {
        target
    } else {
        view.scroll as int
    };
    Viewport { scroll: clamped(scroll, len, height) as u16, follow: view.follow, height }
}

/// The state after the source pane has been drawn with that height, and what the pane shows. The
/// name is that of the source file of the last stop.
pub open spec fn source_pane(app: AppView, height: u16, name: Option<Seq<char>>) -> (
    AppView,
    ContentView,
) {
    let focused = app.focus == Pane::Source;
    let bare = AppView {
        source: Viewport { height, ..app.source },
        source_len: 1,
        ..app
    };
    match app.last_stop {
        None => (
            bare,
            ContentView {
                title: "Leo source"@,
                focused,
                body: BodyView::Note("(not running)"@),
            },
        ),
        Some(stop) => match stop.loc {
            None => (
                bare,
                ContentView {
                    title: "Leo source"@,
                    focused,
                    body: BodyView::Note(
                        "(no source location for "@ + stop.program + "::"@ + stop.function
                            + " — synthetic scaffolding)"@,
                    ),
                },
            ),
            Some(loc) => {
                let list = match source_lines(app.programs, stop.program, loc.file) {
                    Some(list) => list,
                    None => Seq::empty(),
                };
                let target = centred(
                    if loc.line > 0 {
                        loc.line - 1
                    } else {
                        0
                    },
                    height,
                );
                let view = brought(app.source, target, list.len() as int, height);
                (
                    AppView { source: view, source_len: list.len() as usize, ..app },
                    ContentView {
                        title: source_title(app, stop.program, loc.file, name),
                        focused,
                        body: BodyView::Lines(numbered_lines(list, loc.line), view.scroll),
                    },
                )
            },
        },
    }
}

/// Whether a line is the head of the block of a function, in that part of the call.
pub open spec fn heads_block(line: Seq<char>, function: Seq<char>, context: Context) -> bool {
    let text = trimmed(line);
    match context {
        Context::Transition => text == "function "@ + function + ":"@ || text == "closure "@
            + function + ":"@,
        Context::Finalize => if function == "constructor"@ {
            text == "constructor:"@
        } else {
            text == "finalize "@ + function + ":"@
        },
    }
}

/// The first line, from index `from` on, that is the head of the block.
pub open spec fn block_head(
    list: Seq<Seq<char>>,
    function: Seq<char>,
    context: Context,
    from: int,
) -> Option<int>
    decreases list.len() - from,
{
    if from >= list.len() {
        None
    } else if heads_block(list[from], function, context) {
        Some(from)
    } else {
        block_head(list, function, context, from + 1)
    }
}

/// Whether a line begins another block: it is not indented and ends with a colon.
pub open spec fn begins_block(line: Seq<char>) -> bool {
    &&& trimmed(line).len() > 0
    &&& trimmed(line).last() == ':'
    &&& !is_space(line[0])
}

/// Whether a line of a block is one of its instructions: neither blank nor an input nor an output.
pub open spec fn is_instruction(line: Seq<char>) -> bool {
    let text = trimmed(line);
    &&& text.len() > 0
    &&& !"input "@.is_prefix_of(text)
    &&& !"output "@.is_prefix_of(text)
}

/// The line of the instruction with that index among those from line `from` to the end of the block.
pub open spec fn instruction_line(list: Seq<Seq<char>>, from: int, index: int) -> Option<int>
    decreases list.len() - from,
{
    if from >= list.len() || begins_block(list[from]) {
        None
    } else if !is_instruction(list[from]) {
        instruction_line(list, from + 1, index)
    } else if index == 0 {
        Some(from)
    } else {
        instruction_line(list, from + 1, index - 1)
    }
}

/// The line of an instruction of a function, in that part of the call.
pub open spec fn bytecode_line(
    list: Seq<Seq<char>>,
    function: Seq<char>,
    context: Context,
    index: int,
) -> Option<int> {
    match block_head(list, function, context, 0) {
        None => None,
        Some(head) => instruction_line(list, head + 1, index),
    }
}

/// The name of a part of the call.
pub open spec fn context_text(context: Context) -> Seq<char> {
    match context {
        Context::Transition => "transition"@,
        Context::Finalize => "finalize"@,
    }
}

/// The line above the bytecode: where execution is.
pub open spec fn bytecode_header(stop: StopView) -> Seq<char> {
    stop.program + "::"@ + stop.function + "  ["@ + context_text(stop.context) + " #"@ + decimal(
        stop.index as nat,
    ) + "]"@
}

/// The bytecode below its header; the line where execution is is set off.
pub open spec fn bytecode_lines(
    header: Seq<char>,
    list: Seq<Seq<char>>,
    highlight: Option<int>,
) -> Seq<(Seq<char>, LineStyle)> {
    seq![(header, LineStyle::Header)] + Seq::new(
        list.len(),
        |i: int|
            (
                list[i],
                if highlight == Some(i) {
                    LineStyle::Highlight
                } else {
                    LineStyle::Plain
                },
            ),
    )
}

/// The state after the bytecode pane has been drawn with that height, and what the pane shows.
pub open spec fn bytecode_pane(app: AppView, height: u16) -> (AppView, ContentView) {
    let focused = app.focus == Pane::Bytecode;
    let bare = AppView {
        bytecode: Viewport { height, ..app.bytecode },
        bytecode_len: 1,
        ..app
    };
    match app.last_stop {
        None => (
            bare,
            ContentView {
                title: "Aleo bytecode"@,
                focused,
                body: BodyView::Note("(not running)"@),
            },
        ),
        Some(stop) => match program_index(app.programs, stop.program, 0) {
            None => (
                bare,
                ContentView {
                    title: stop.program,
                    focused,
                    body: BodyView::Note("(program not loaded)"@),
                },
            ),
            Some(i) => {
                let list = app.programs[i].bytecode_lines;
                let highlight = bytecode_line(
                    list,
                    stop.function,
                    stop.context,
                    stop.index as int,
                );
                let target = centred(
                    match highlight {
                        Some(k) => (k + 1) % 0x1_0000_0000,
                        None => 0,
                    },
                    height,
                );
                let view = brought(app.bytecode, target, list.len() as int + 1, height);
                (
                    AppView { bytecode: view, bytecode_len: (list.len() + 1) as usize, ..app },
                    ContentView {
                        title: stop.program,
                        focused,
                        body: BodyView::Lines(
                            bytecode_lines(bytecode_header(stop), list, highlight),
                            view.scroll,
                        ),
                    },
                )
            },
        },
    }
}

/// The state after the console has been drawn with a log of that height, and the lines that the log
/// shows.
pub open spec fn console_pane(app: AppView, height: u16) -> (AppView, Seq<Seq<char>>) {
    let len = app.console.len() as int;
    let view = brought(app.log, max_scroll(len, height), len, height);
    let end = if view.scroll + height < len {
        view.scroll + height
    } else {
        len
    };
    (AppView { log: view, ..app }, app.console.subrange(view.scroll as int, end))
}

/// Whether `name` is what the platform takes for the name of the last stop's source file.
pub open spec fn names_source(app: AppView, name: Option<Seq<char>>) -> bool {
    match app.last_stop {
        None => true,
        Some(stop) => match stop.loc {
            None => true,
            Some(loc) => match source_path(app.programs, stop.program, loc.file) {
                None => true,
                Some(path) => may_be_file_name(path, name),
            },
        },
    }
}

/// The number of the line with that index.
fn number_of(index: usize) -> (number: u32)
    requires
        index < usize::MAX,
    ensures
        number == line_number(index as int),
{
    let n: u64 = (index + 1) as u64;
    assert(n as u32 == n % 0x1_0000_0000) by (bit_vector);
    #[verifier::truncate]
    let number: u32 = n as u32;
    number
}

/// The scroll position that has the line with the index in the middle of what is visible.
fn centre(index: u32, height: u16) -> (scroll: u16)
    ensures
        scroll == centred(index as int, height),
{
    let half: u32 = height as u32 / 2;
    if index > half {
        let rest: u32 = index - half;
        assert(rest as u16 == rest % 0x10000) by (bit_vector);
        #[verifier::truncate]
        let scroll: u16 = rest as u16;
        scroll
    } else {
        0
    }
}

fn bring(view: Viewport, target: u16, len: usize, height: u16) -> (after: Viewport)
    ensures
        after == brought(view, target as int, len as int, height),
{
    let scroll: u16 = if view.follow {
        target
    } else {
        view.scroll
    };
    Viewport { scroll: clamp_scroll(scroll, len, height), follow: view.follow, height }
}

/// A source line with its number.
fn number_line(index: usize, line: &str) -> (text: String)
    requires
        index < usize::MAX,
    ensures
        text@ == numbered(index as int, line@),
{
    let number: u32 = number_of(index);
    let digits = decimal_text(number as u64);
    let mut text = String::new();
    let count: usize = digits.as_str().unicode_len();
    let mut i: usize = count;
    assert(text@ == Seq::new((i - count) as nat, |k: int| ' '));
    while i < 5
        invariant
            count <= i,
            count < 5 ==> i <= 5,
            count >= 5 ==> i == count,
            text@ == Seq::new((i - count) as nat, |k: int| ' '),
        decreases 5 - i,
    {
        text.push(' ');
        i += 1;
        assert(text@ == Seq::new((i - count) as nat, |k: int| ' '));
    }
    text.append(digits.as_str());
    assert(text@ == padded(number as nat));
    text.append(" | ");
    text.append(line);
    text
}

/// Source lines with their numbers.
fn number_lines(list: &Vec<String>, highlight: u32) -> (numbered: Vec<PaneLine>)
    ensures
        line_views(numbered@) == numbered_lines(texts(list@), highlight),
{
    let mut out: Vec<PaneLine> = Vec::new();
    let mut i: usize = 0;
    while i < list.len()
        invariant
            i <= list.len(),
            out.len() == i,
            forall|j: int|
                0 <= j < i ==> {
                    &&& (#[trigger] out[j]).text@ == numbered(j, list[j]@)
                    &&& out[j].style == (if line_number(j) == highlight {
                        LineStyle::Highlight
                    } else {
                        LineStyle::Plain
                    })
                },
        decreases list.len() - i,
    {
        let style = if number_of(i) == highlight {
            LineStyle::Highlight
        } else {
            LineStyle::Plain
        };
        out.push(PaneLine { text: number_line(i, list[i].as_str()), style });
        i += 1;
    }
    assert(line_views(out@) == numbered_lines(texts(list@), highlight));
    out
}

fn head_text(word: &str, function: &str) -> (text: String)
    ensures
        text@ == word@ + function@ + ":"@,
{
    let mut text = word.to_string();
    text.append(function);
    text.append(":");
    text
}

/// Whether a line is the head of the block of a function.
fn is_block_head(line: &str, function: &str, context: Context) -> (head: bool)
    ensures
        head == heads_block(line@, function@, context),
{
    let text = trim(line);
    match context {
        Context::Transition => same(text, head_text("function ", function).as_str()) || same(
            text,
            head_text("closure ", function).as_str(),
        ),
        Context::Finalize => if same(function, "constructor") {
            same(text, "constructor:")
        } else {
            same(text, head_text("finalize ", function).as_str())
        },
    }
}

/// Whether a line begins another block.
fn is_block_start(line: &str) -> (begins: bool)
    ensures
        begins == begins_block(line@),
{
    let text = trim(line);
    if text.is_empty() {
        return false;
    }
    proof {
        reveal_strlit(":");
        lemma_trimmed_is_part(line@);
        if ":"@.is_suffix_of(text@) {
            let n = text@.len() as int;
            assert(text@.subrange(n - 1, n)[0] == ':');
        } else if text@.last() == ':' {
            let n = text@.len() as int;
            assert(text@.subrange(n - 1, n) == ":"@);
        }
    }
    let chars = chars_of(line);
    ends_with(text, ":") && !space(chars[0])
}

/// A text that has more than white space is not empty.
proof fn lemma_trimmed_is_part(s: Seq<char>)
    requires
        trimmed(s).len() > 0,
    ensures
        s.len() > 0,
{
}

/// Which line holds an instruction of a function, in that part of the call.
pub fn locate_bytecode_line(
    list: &Vec<String>,
    function: &str,
    context: Context,
    index: usize,
) -> (found: Option<usize>)
    ensures
        match found {
            Some(i) => i < list.len() && bytecode_line(
                texts(list@),
                function@,
                context,
                index as int,
            ) == Some(i as int),
            None => bytecode_line(texts(list@), function@, context, index as int) is None,
        },
{
    let ghost all = texts(list@);
    let mut head: usize = 0;
    while head < list.len() && !is_block_head(list[head].as_str(), function, context)
        invariant
            head <= list.len(),
            all == texts(list@),
            block_head(all, function@, context, 0) == block_head(
                all,
                function@,
                context,
                head as int,
            ),
        decreases list.len() - head,
    {
        assert(all[head as int] == list[head as int]@);
        head += 1;
    }
    if head >= list.len() {
        return None;
    }
    assert(all[head as int] == list[head as int]@);
    assert(block_head(all, function@, context, 0) == Some(head as int));
    let mut seen: usize = 0;
    let mut i: usize = head + 1;
    while i < list.len()
        invariant
            head < i <= list.len(),
            seen <= index,
            all == texts(list@),
            block_head(all, function@, context, 0) == Some(head as int),
            bytecode_line(all, function@, context, index as int) == instruction_line(
                all,
                i as int,
                index - seen,
            ),
        decreases list.len() - i,
    {
        let line = list[i].as_str();
        assert(line@ == all[i as int]);
        if is_block_start(line) {
            return None;
        }
        let text = trim(line);
        if !text.is_empty() && !starts_with(text, "input ") && !starts_with(text, "output ") {
            if seen == index {
                return Some(i);
            }
            seen += 1;
        }
        i += 1;
    }
    None
}

/// The bytecode below its header.
fn mark_bytecode(header: String, list: &Vec<String>, highlight: Option<usize>) -> (marked: Vec<
    PaneLine,
>)
    ensures
        line_views(marked@) == bytecode_lines(
            header@,
            texts(list@),
            match highlight {
                Some(i) => Some(i as int),
                None => None,
            },
        ),
{
    let mut out: Vec<PaneLine> = Vec::new();
    out.push(PaneLine { text: header, style: LineStyle::Header });
    let mut i: usize = 0;
    while i < list.len()
        invariant
            i <= list.len(),
            out.len() == i + 1,
            out[0].text@ == header@,
            out[0].style == LineStyle::Header,
            forall|j: int|
                1 <= j <= i ==> {
                    &&& (#[trigger] out[j]).text@ == list[j - 1]@
                    &&& out[j].style == (if highlight == Some((j - 1) as usize) {
                        LineStyle::Highlight
                    } else {
                        LineStyle::Plain
                    })
                },
        decreases list.len() - i,
    {
        let style = match highlight {
            Some(k) => if k == i {
                LineStyle::Highlight
            } else {
                LineStyle::Plain
            },
            None => LineStyle::Plain,
        };
        out.push(PaneLine { text: list[i].clone(), style });
        i += 1;
    }
    assert(line_views(out@) == bytecode_lines(
        header@,
        texts(list@),
        match highlight {
            Some(i) => Some(i as int),
            None => None,
        },
    ));
    out
}

fn copy_lines(list: &Vec<String>, from: usize, to: usize) -> (part: Vec<String>)
    requires
        from <= to <= list.len(),
    ensures
        texts(part@) == texts(list@).subrange(from as int, to as int),
{
    let mut part: Vec<String> = Vec::new();
    let mut i: usize = from;
    while i < to
        invariant
            from <= i <= to <= list.len(),
            part.len() == i - from,
            forall|j: int| 0 <= j < part.len() ==> (#[trigger] part[j])@ == list[from + j]@,
        decreases to - i,
    {
        part.push(list[i].clone());
        i += 1;
    }
    assert(texts(part@) == texts(list@).subrange(from as int, to as int));
    part
}

/// What the console shows: the lines of its log, and below them the input.
pub struct ConsoleContent {
    pub title: String,
    pub focused: bool,
    pub log: Vec<String>,
    pub prompt: String,
}

/// A pane above the console, drawn: the areas of its title and of what is below it, and the content.
pub struct DrawnPane {
    pub bar: Area,
    pub body: Area,
    pub content: PaneContent,
}

/// The console, drawn: the areas of its title, of its log and of its input, and the content.
pub struct DrawnConsole {
    pub bar: Area,
    pub log: Area,
    pub input: Area,
    pub content: ConsoleContent,
}

/// Whether the console fills the area: a line for the title, the log, and a line for the input, as far
/// as there is room, in that order from the top.
pub open spec fn console_laid_out(bar: Area, log: Area, input: Area, area: Area) -> bool {
    &&& stacked(seq![bar, log, input], area)
    &&& bar.height == least(1, lines_of(area))
    &&& input.height == least(1, lines_of(area) - bar.height)
    &&& bar.height + log.height + input.height == lines_of(area)
}

/// The whole screen, drawn.
pub struct Screen {
    pub source: DrawnPane,
    pub bytecode: DrawnPane,
    pub console: DrawnConsole,
}

impl App {
    /// The path of a source file of a program.
    fn path_of(&self, program: &str, file: usize) -> (path: Option<&String>)
        ensures
            match path {
                Some(path) => Some(path@),
                None => None,
            } == source_path(self@.programs, program@, file),
    {
        match find_program(&self.programs, program) {
            None => None,
            Some(i) => {
                assert(self@.programs[i as int] == self.programs[i as int]@);
                match &self.programs[i].debug_info {
                    None => None,
                    Some(map) => if file < map.source_files.len() {
                        Some(&map.source_files[file])
                    } else {
                        None
                    },
                }
            },
        }
    }

    /// The name of the last stop's source file, as the platform takes it from the path.
    pub fn source_name(&self) -> (name: Option<String>)
        ensures
            names_source(self@, optional_text(name)),
    {
        match &self.last_stop {
            None => None,
            Some(stop) => match stop.loc {
                None => None,
                Some(loc) => match self.path_of(stop.program.as_str(), loc.file) {
                    None => None,
                    Some(path) => file_name(path.as_str()),
                },
            },
        }
    }

    /// What the title of the source pane calls a source file of a program, given its name: the name,
    /// or the path if there is none; nothing where the file is not known.
    pub fn source_file_label(&self, program: &str, file: usize, name: &Option<String>) -> (label:
        Option<String>)
        ensures
            match source_path(self@.programs, program@, file) {
                None => label is None,
                Some(path) => optional_text(label) == Some(
                    match optional_text(*name) {
                        Some(known) => known,
                        None => path,
                    },
                ),
            },
    {
        match self.path_of(program, file) {
            None => None,
            Some(path) => match name {
                Some(known) => Some(known.clone()),
                None => Some(path.clone()),
            },
        }
    }

    /// Draws the source pane with that height; the name is that of the last stop's source file.
    pub fn source_content(&mut self, height: u16, name: &Option<String>) -> (content: PaneContent)
        ensures
            (final(self)@, content@) == source_pane(old(self)@, height, optional_text(*name)),
    {
        let focused = self.focus == Pane::Source;
        self.source.height = height;
        let stop = match &self.last_stop {
            Some(stop) => stop,
            None => {
                self.source_len = 1;
                return PaneContent {
                    title: "Leo source".to_string(),
                    focused,
                    body: PaneBody::Note("(not running)".to_string()),
                };
            },
        };
        let loc = match stop.loc {
            Some(loc) => loc,
            None => {
                let mut text = "(no source location for ".to_string();
                text.append(stop.program.as_str());
                text.append("::");
                text.append(stop.function.as_str());
                text.append(" — synthetic scaffolding)");
                self.source_len = 1;
                return PaneContent {
                    title: "Leo source".to_string(),
                    focused,
                    body: PaneBody::Note(text),
                };
            },
        };
        let title = match self.source_file_label(stop.program.as_str(), loc.file, name) {
            Some(label) => label,
            None => "Leo source".to_string(),
        };
        let empty: Vec<String> = Vec::new();
        let list: &Vec<String> = match self.program_view(stop.program.as_str(), loc.file) {
            Some(list) => list,
            None => &empty,
        };
        assert(texts(empty@) == Seq::<Seq<char>>::empty());
        let len: usize = list.len();
        let line: u32 = if loc.line > 0 {
            loc.line - 1
        } else {
            0
        };
        let view = bring(self.source, centre(line, height), len, height);
        let shown = number_lines(list, loc.line);
        self.source_len = len;
        self.source = view;
        PaneContent { title, focused, body: PaneBody::Lines(shown, view.scroll) }
    }

    /// Draws the bytecode pane with that height.
    pub fn bytecode_content(&mut self, height: u16) -> (content: PaneContent)
        ensures
            (final(self)@, content@) == bytecode_pane(old(self)@, height),
    {
        let focused = self.focus == Pane::Bytecode;
        self.bytecode.height = height;
        let stop = match &self.last_stop {
            Some(stop) => stop,
            None => {
                self.bytecode_len = 1;
                return PaneContent {
                    title: "Aleo bytecode".to_string(),
                    focused,
                    body: PaneBody::Note("(not running)".to_string()),
                };
            },
        };
        let title = stop.program.clone();
        let i: usize = match find_program(&self.programs, stop.program.as_str()) {
            Some(i) => i,
            None => {
                self.bytecode_len = 1;
                return PaneContent {
                    title,
                    focused,
                    body: PaneBody::Note("(program not loaded)".to_string()),
                };
            },
        };
        assert(self@.programs[i as int] == self.programs[i as int]@);
        let mut header = stop.program.clone();
        header.append("::");
        header.append(stop.function.as_str());
        header.append("  [");
        header.append(
            match stop.context {
                Context::Transition => "transition",
                Context::Finalize => "finalize",
            },
        );
        header.append(" #");
        header.append(decimal_text(stop.index as u64).as_str());
        header.append("]");
        let list = &self.programs[i].bytecode_lines;
        let highlight = locate_bytecode_line(list, stop.function.as_str(), stop.context, stop.index);
        let target: u32 = match highlight {
            Some(k) => number_of(k),
            None => 0,
        };
        let shown = mark_bytecode(header, list, highlight);
        assert(line_views(shown@).len() == shown@.len());
        let len: usize = shown.len();
        let view = bring(self.bytecode, centre(target, height), len, height);
        self.bytecode_len = len;
        self.bytecode = view;
        PaneContent { title, focused, body: PaneBody::Lines(shown, view.scroll) }
    }

    /// Draws the console with a log of that height.
    pub fn console_content(&mut self, height: u16) -> (content: ConsoleContent)
        ensures
            (final(self)@, texts(content.log@)) == console_pane(old(self)@, height),
            content.title@ == "Console (help for commands)"@,
            content.focused == (old(self)@.focus == Pane::Console),
            content.prompt@ == "(leo-debug) "@ + old(self)@.input,
    {
        let len: usize = self.console.len();
        let max: u16 = clamp_scroll(u16::MAX, len, height);
        self.log = bring(self.log, max, len, height);
        let start: usize = self.log.scroll as usize;
        let rest: usize = len - start;
        let end: usize = if (height as usize) < rest {
            start + height as usize
        } else {
            len
        };
        let log = copy_lines(&self.console, start, end);
        let mut prompt = "(leo-debug) ".to_string();
        prompt.append(self.input.as_str());
        ConsoleContent {
            title: "Console (help for commands)".to_string(),
            focused: self.focus == Pane::Console,
            log,
            prompt,
        }
    }

    /// Draws the source pane into the area.
    pub fn draw_source_pane(&mut self, area: Area) -> (drawn: DrawnPane)
        ensures
            are_rows(seq![drawn.bar, drawn.body], area, 2),
            fixed_on_top(drawn.bar, drawn.body, 1, area),
            exists|name: Option<Seq<char>>|
                {
                    &&& #[trigger] names_source(old(self)@, name)
                    &&& (final(self)@, drawn.content@) == source_pane(
                        old(self)@,
                        drawn.body.height,
                        name,
                    )
                },
    {
        let (bar, body) = split_title_bar(area);
        let name = self.source_name();
        let content = self.source_content(body.height, &name);
        DrawnPane { bar, body, content }
    }

    /// Draws the bytecode pane into the area.
    pub fn draw_bytecode_pane(&mut self, area: Area) -> (drawn: DrawnPane)
        ensures
            are_rows(seq![drawn.bar, drawn.body], area, 2),
            fixed_on_top(drawn.bar, drawn.body, 1, area),
            (final(self)@, drawn.content@) == bytecode_pane(old(self)@, drawn.body.height),
    {
        let (bar, body) = split_title_bar(area);
        let content = self.bytecode_content(body.height);
        DrawnPane { bar, body, content }
    }

    /// Draws the console into the area.
    pub fn draw_console_pane(&mut self, area: Area) -> (drawn: DrawnConsole)
        ensures
            are_rows(seq![drawn.bar, drawn.log, drawn.input], area, 3),
            console_laid_out(drawn.bar, drawn.log, drawn.input, area),
            (final(self)@, texts(drawn.content.log@)) == console_pane(
                old(self)@,
                drawn.log.height,
            ),
            drawn.content.title@ == "Console (help for commands)"@,
            drawn.content.focused == (old(self)@.focus == Pane::Console),
            drawn.content.prompt@ == "(leo-debug) "@ + old(self)@.input,
    {
        let (bar, body) = split_title_bar(area);
        let (log, input) = split_input_line(body);
        let content = self.console_content(log.height);
        assert(seq![bar, body][1] == body);
        assert(seq![log, input][0] == log && seq![log, input][1] == input);
        DrawnConsole { bar, log, input, content }
    }

    /// Draws the whole screen: the source, the bytecode, and the console, in that order from the top.
    pub fn draw(&mut self, area: Area) -> (screen: Screen)
        ensures
            are_rows(
                seq![
                    screen.source.bar,
                    screen.source.body,
                    screen.bytecode.bar,
                    screen.bytecode.body,
                    screen.console.bar,
                    screen.console.log,
                    screen.console.input,
                ],
                area,
                7,
            ),
            exists|first: Area, second: Area, third: Area|
                {
                    &&& #[trigger] in_quarters(first, second, third, area)
                    &&& fixed_on_top(screen.source.bar, screen.source.body, 1, first)
                    &&& fixed_on_top(screen.bytecode.bar, screen.bytecode.body, 1, second)
                    &&& console_laid_out(
                        screen.console.bar,
                        screen.console.log,
                        screen.console.input,
                        third,
                    )
                },
            exists|name: Option<Seq<char>>|
                {
                    let (one, source) = source_pane(old(self)@, screen.source.body.height, name);
                    let (two, bytecode) = bytecode_pane(one, screen.bytecode.body.height);
                    &&& #[trigger] names_source(old(self)@, name)
                    &&& screen.source.content@ == source
                    &&& screen.bytecode.content@ == bytecode
                    &&& (final(self)@, texts(screen.console.content.log@)) == console_pane(
                        two,
                        screen.console.log.height,
                    )
                },
            screen.console.content.title@ == "Console (help for commands)"@,
            screen.console.content.focused == (old(self)@.focus == Pane::Console),
            screen.console.content.prompt@ == "(leo-debug) "@ + old(self)@.input,
    {
        let (first, second, third) = split_screen(area);
        let source = self.draw_source_pane(first);
        let bytecode = self.draw_bytecode_pane(second);
        let console = self.draw_console_pane(third);
        Screen { source, bytecode, console }
    }
}

/// How many of the lines from `from` to before `to` are instructions.
pub open spec fn instruction_count(list: Seq<Seq<char>>, from: int, to: int) -> int
    decreases to - from,
{
    if from >= to {
        0
    } else {
        instruction_count(list, from + 1, to) + (if is_instruction(list[from]) {
            1int
        } else {
            0
        })
    }
}

/// The line that is found for an instruction is an instruction of the function's block, the first one
/// in the list, and there are as many instructions before it in the block as its index says.
pub proof fn law_located_line(
    list: Seq<Seq<char>>,
    function: Seq<char>,
    context: Context,
    index: int,
)
    requires
        0 <= index,
        bytecode_line(list, function, context, index) is Some,
    ensures
        ({
            let line = bytecode_line(list, function, context, index)->0;
            let head = block_head(list, function, context, 0)->0;
            &&& 0 <= head < line < list.len()
            &&& heads_block(list[head], function, context)
            &&& forall|i: int|
                0 <= i < head ==> !heads_block(#[trigger] list[i], function, context)
            &&& is_instruction(list[line])
            &&& forall|i: int| head < i <= line ==> !begins_block(#[trigger] list[i])
            &&& instruction_count(list, head + 1, line) == index
        }),
{
    lemma_block_head(list, function, context, 0);
    let head = block_head(list, function, context, 0)->0;
    lemma_instruction_line(list, head + 1, index);
}

/// A later instruction of a block stands on a later line.
pub proof fn law_instructions_are_in_order(
    list: Seq<Seq<char>>,
    function: Seq<char>,
    context: Context,
    i: int,
    j: int,
)
    requires
        0 <= i < j,
        bytecode_line(list, function, context, j) is Some,
    ensures
        bytecode_line(list, function, context, i) is Some,
        bytecode_line(list, function, context, i)->0 < bytecode_line(
            list,
            function,
            context,
            j,
        )->0,
{
    lemma_earlier_instruction(list, block_head(list, function, context, 0)->0 + 1, i, j);
}

proof fn lemma_earlier_instruction(list: Seq<Seq<char>>, from: int, i: int, j: int)
    requires
        0 <= i < j,
        instruction_line(list, from, j) is Some,
    ensures
        instruction_line(list, from, i) is Some,
        from <= instruction_line(list, from, i)->0 < instruction_line(list, from, j)->0,
    decreases list.len() - from,
{
    if is_instruction(list[from]) {
        if i == 0 {
            lemma_instruction_line_after(list, from + 1, j - 1);
        } else {
            lemma_earlier_instruction(list, from + 1, i - 1, j - 1);
        }
    } else {
        lemma_earlier_instruction(list, from + 1, i, j);
    }
}

proof fn lemma_instruction_line_after(list: Seq<Seq<char>>, from: int, index: int)
    requires
        instruction_line(list, from, index) is Some,
    ensures
        from <= instruction_line(list, from, index)->0 < list.len(),
    decreases list.len() - from,
{
    if !is_instruction(list[from]) {
        lemma_instruction_line_after(list, from + 1, index);
    } else if index != 0 {
        lemma_instruction_line_after(list, from + 1, index - 1);
    }
}

pub proof fn lemma_block_head(list: Seq<Seq<char>>, function: Seq<char>, context: Context, from: int)
    requires
        0 <= from,
        block_head(list, function, context, from) is Some,
    ensures
        ({
            let head = block_head(list, function, context, from)->0;
            &&& from <= head < list.len()
            &&& heads_block(list[head], function, context)
            &&& forall|i: int|
                from <= i < head ==> !heads_block(#[trigger] list[i], function, context)
        }),
    decreases list.len() - from,
{
    if !heads_block(list[from], function, context) {
        lemma_block_head(list, function, context, from + 1);
    }
}

pub proof fn lemma_instruction_line(list: Seq<Seq<char>>, from: int, index: int)
    requires
        0 <= from,
        0 <= index,
        instruction_line(list, from, index) is Some,
    ensures
        ({
            let line = instruction_line(list, from, index)->0;
            &&& from <= line < list.len()
            &&& is_instruction(list[line])
            &&& forall|i: int| from <= i <= line ==> !begins_block(#[trigger] list[i])
            &&& instruction_count(list, from, line) == index
        }),
    decreases list.len() - from,
{
    if !is_instruction(list[from]) {
        lemma_instruction_line(list, from + 1, index);
    } else if index != 0 {
        lemma_instruction_line(list, from + 1, index - 1);
    }
}

/// Whether scroll positions, which have sixteen bits, can bring the line with that index to the middle
/// of what is visible.
pub open spec fn within_reach(index: int, len: int, height: u16) -> bool {
    &&& index - height as int / 2 < 0x10000
    &&& index < max_scroll(len, height) + height
}

/// In a text whose length has sixteen bits every line is within reach.
pub proof fn law_short_texts_are_within_reach(index: int, len: int, height: u16)
    requires
        0 <= index < len < 0x10000,
    ensures
        within_reach(index, len, height),
{
}

/// A source pane that follows execution shows the line where execution is, and sets it off, if scroll
/// positions can reach that line.
pub proof fn law_source_line_is_shown(app: AppView, height: u16, name: Option<Seq<char>>)
    requires
        app.source.follow,
        height > 0,
        app.last_stop is Some,
        app.last_stop->0.loc is Some,
        ({
            let stop = app.last_stop->0;
            let loc = stop.loc->0;
            let list = source_lines(app.programs, stop.program, loc.file);
            &&& list is Some
            &&& 1 <= loc.line <= list->0.len()
            &&& within_reach(loc.line - 1, list->0.len() as int, height)
        }),
    ensures
        ({
            let loc = app.last_stop->0.loc->0;
            let (after, content) = source_pane(app, height, name);
            &&& content.body is Lines
            &&& after.source.scroll <= loc.line - 1 < after.source.scroll + height
            &&& content.body->1 == after.source.scroll
            &&& content.body->Lines_0[loc.line - 1].1 == LineStyle::Highlight
        }),
{
}

/// A bytecode pane that follows execution shows the instruction that is executed, below the header,
/// and sets it off, if scroll positions can reach its line.
pub proof fn law_bytecode_line_is_shown(app: AppView, height: u16)
    requires
        app.bytecode.follow,
        height > 0,
        app.last_stop is Some,
        ({
            let stop = app.last_stop->0;
            let i = program_index(app.programs, stop.program, 0);
            let list = app.programs[i->0].bytecode_lines;
            let line = bytecode_line(list, stop.function, stop.context, stop.index as int);
            &&& i is Some
            &&& line is Some
            &&& within_reach(line->0 + 1, list.len() as int + 1, height)
        }),
    ensures
        ({
            let stop = app.last_stop->0;
            let i = program_index(app.programs, stop.program, 0)->0;
            let line = bytecode_line(
                app.programs[i].bytecode_lines,
                stop.function,
                stop.context,
                stop.index as int,
            )->0;
            let (after, content) = bytecode_pane(app, height);
            &&& content.body is Lines
            &&& after.bytecode.scroll <= line + 1 < after.bytecode.scroll + height
            &&& content.body->1 == after.bytecode.scroll
            &&& content.body->Lines_0[line + 1].1 == LineStyle::Highlight
        }),
{
    let stop = app.last_stop->0;
    let i = program_index(app.programs, stop.program, 0)->0;
    let list = app.programs[i].bytecode_lines;
    law_located_line(list, stop.function, stop.context, stop.index as int);
}

/// A console that follows shows its last lines, if scroll positions can reach them.
pub proof fn law_console_shows_its_end(app: AppView, height: u16)
    requires
        app.log.follow,
        app.console.len() - height < 0x10000,
    ensures
        console_pane(app, height).1.len() == (if app.console.len() < height {
            app.console.len() as int
        } else {
            height as int
        }),
        console_pane(app, height).1.is_suffix_of(app.console),
{
    let shown = console_pane(app, height).1;
    assert(app.console.subrange(app.console.len() - shown.len(), app.console.len() as int)
        =~= shown);
}

/// Drawing changes nothing but the viewports and the lengths of the texts in them.
pub proof fn law_drawing_changes_only_viewports(app: AppView, height: u16, name: Option<Seq<char>>)
    ensures
        ({
            let after = source_pane(app, height, name).0;
            after == (AppView { source: after.source, source_len: after.source_len, ..app })
        }),
        ({
            let after = bytecode_pane(app, height).0;
            after == (AppView {
                bytecode: after.bytecode,
                bytecode_len: after.bytecode_len,
                ..app
            })
        }),
        console_pane(app, height).0 == (AppView { log: console_pane(app, height).0.log, ..app }),
{
}

} // verus!
