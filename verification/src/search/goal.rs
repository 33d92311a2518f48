//! Open goals of a source and the tactics that are tried on them.
use crate::failure::{refuse, Failure};
use crate::order::positions;
use crate::search::groups::file_spans;
use crate::search::limits::SOURCE_PREVIEW_LINES;
use crate::search::locations::{
    find_location, location_answer, location_part, numeral, source_location_result, LocationView,
    SourceLocation,
};
use crate::search::lines::{name_shown, path_shown, show_name};
use crate::search::modules::{module_of, SourceKind};
use crate::search::records::{
    hit_views, hit_views_push, usage_views, HitView, ResultView, SearchHit, SearchResult,
    SearchUsage,
};
use crate::search::source::{line_positions, starts_of};
use crate::search::tree::{
    goal_at, missing_source, missing_source_message, opt_tree, resolve_goal_path, SourceTree,
    TreeView,
};
use crate::text::class::{any_of, is_any, is_whitespace, whitespace, Class};
use crate::text::layout::{back, one_line, single_line, take_back};
use crate::text::make::{
    alike, byte_length, cat2, cat3, cat4, copy_opt, join_strs, joined, own, prefix_all, prefix_step,
    push_str, same, same_ignoring_case, strings, strings_push, strs, strs_push, to_chars,
};
use crate::text::number::{decimal, number, parse_u64, show_size};
use crate::text::pieces::{
    has_string, keep_nonempty, line_list, lines, nonempty_of, pieces, split, split_words, words,
};
use crate::text::scan::{
    after_chars, after_prefix, bare, bare_end, begins, char_index, contains, cut, ends, ends_with,
    first_chars, has_text, index_of_byte,
    opt_str, opt_string, rcut, rsplit_once, skip_chars, slice, split_once, starts_with,
    strip_prefix, subtext, take_chars, trim, trim_end, trimmed_to_nothing,
    trimming_end_cuts_the_class,
};
use vstd::prelude::*;

verus! {

broadcast use {strings_push, strs_push, hit_views_push};

/// Marks the beginning of a goal in the output of Lean.
pub open spec fn goal_begin() -> Seq<char> {
    "MATHMUX_GOAL_BEGIN"@
}

/// Marks the end of a goal in the output of Lean.
pub open spec fn goal_end() -> Seq<char> {
    "MATHMUX_GOAL_END"@
}

/// The line `i` of a source with its line break.
pub open spec fn whole_line(source: Seq<char>, i: int) -> Seq<char> {
    let starts = starts_of(source);
    subtext(
        source,
        starts[i],
        if i + 1 < starts.len() {
            starts[i + 1]
        } else {
            source.len() as int
        },
    )
}

fn take_line<'a>(source: &'a str, starts: &Vec<usize>, i: usize) -> (r: &'a str)
    requires
        positions(starts@) == starts_of(source@),
        i < starts.len(),
    ensures
        r@ == whole_line(source@, i as int),
{
    let ghost views = positions(starts@);
    assert(views.len() == starts.len());
    assert(views[i as int] == starts@[i as int] as int);
    let end = if i + 1 < starts.len() {
        assert(views[i + 1] == starts@[i + 1] as int);
        starts[i + 1]
    } else {
        source.unicode_len()
    };
    slice(source, starts[i], end)
}

/// How many white space characters a text begins with.
pub open spec fn indent_width(text: Seq<char>) -> nat
    decreases text.len(),
{
    if text.len() == 0 || !whitespace(text[0]) {
        0
    } else {
        1 + indent_width(text.skip(1))
    }
}

/// Computes [`indent_width`].
pub fn count_indent(text: &str) -> (r: usize)
    ensures
        r == indent_width(text@),
        r <= text@.len(),
{
    let chars = to_chars(text);
    let mut n: usize = 0;
    assert(text@.skip(0) =~= text@);
    while n < chars.len() && is_whitespace(chars[n])
        invariant
            chars@ == text@,
            n <= chars.len(),
            indent_width(text@) == n + indent_width(text@.skip(n as int)),
        decreases chars.len() - n,
    {
        assert(text@.skip(n as int)[0] == chars@[n as int]);
        assert(text@.skip(n as int).skip(1) =~= text@.skip(n + 1));
        n += 1;
    }
    proof {
        if n < chars.len() {
            assert(text@.skip(n as int)[0] == chars@[n as int]);
        }
    }
    n
}

/// A goal that a source leaves open: where the placeholder stands, in bytes, whether a
/// proof by tactics stands before it, and how far its line is indented.
pub struct OpenGoal {
    pub start: usize,
    pub end: usize,
    pub in_tactic: bool,
    pub indent: String,
}

/// The contents of an [`OpenGoal`].
pub struct OpenGoalView {
    pub start: int,
    pub end: int,
    pub in_tactic: bool,
    pub indent: Seq<char>,
}

impl View for OpenGoal {
    type V = OpenGoalView;

    open spec fn view(&self) -> OpenGoalView {
        OpenGoalView {
            start: self.start as int,
            end: self.end as int,
            in_tactic: self.in_tactic,
            indent: self.indent@,
        }
    }
}

/// The view of an optional goal.
pub open spec fn opt_goal(g: Option<OpenGoal>) -> Option<OpenGoalView> {
    match g {
        Some(goal) => Some(goal@),
        None => None,
    }
}

/// The last of the first `n` lines that is not blank.
pub open spec fn last_unblank(list: Seq<Seq<char>>, n: nat) -> Option<Seq<char>>
    decreases n,
{
    if n == 0 {
        None
    } else if bare(list[n - 1]).len() > 0 {
        Some(list[n - 1])
    } else {
        last_unblank(list, (n - 1) as nat)
    }
}

fn find_last_unblank<'a>(list: &Vec<&'a str>) -> (r: Option<&'a str>)
    ensures
        opt_str(r) == last_unblank(strs(list@), list.len() as nat),
{
    let mut n = list.len();
    while n > 0
        invariant
            n <= list.len(),
            last_unblank(strs(list@), list.len() as nat) == last_unblank(strs(list@), n as nat),
        decreases n,
    {
        n -= 1;
        assert(strs(list@)[n as int] == list@[n as int]@);
        if !trim(list[n]).is_empty() {
            return Some(list[n]);
        }
    }
    None
}

/// Whether a source ends in the opening of a proof by tactics.
pub open spec fn tactics_open(source: Seq<char>) -> bool {
    match last_unblank(line_list(source), line_list(source).len()) {
        Some(line) => ends(bare_end(line), "by"@),
        None => false,
    }
}

fn are_tactics_open(source: &str) -> (r: bool)
    ensures
        r == tactics_open(source@),
{
    let list = lines(source);
    assert(strs(list@).len() == list.len());
    match find_last_unblank(&list) {
        Some(line) => ends_with(trim_end(line), "by"),
        None => false,
    }
}

/// The placeholder of a line.
pub open spec fn placeholder_in(line: Seq<char>) -> Option<(Seq<char>, Seq<char>)> {
    match cut(line, "sorry"@) {
        Some(sides) => Some((sides.0, "sorry"@)),
        None => match cut(line, "admit"@) {
            Some(sides) => Some((sides.0, "admit"@)),
            None => None,
        },
    }
}

/// The goal that line `i` leaves open.
pub open spec fn goal_on_line(source: Seq<char>, i: int) -> Option<OpenGoalView> {
    match placeholder_in(whole_line(source, i)) {
        None => None,
        Some((before, placeholder)) => {
            let at = starts_of(source)[i] + before.len();
            Some(
                OpenGoalView {
                    start: byte_length(first_chars(source, at)) as int,
                    end: byte_length(first_chars(source, at + placeholder.len())) as int,
                    in_tactic: tactics_open(subtext(source, 0, at)),
                    indent: before.take(indent_width(before) as int),
                },
            )
        },
    }
}

fn find_goal_on_line(source: &str, starts: &Vec<usize>, i: usize) -> (r: Option<OpenGoal>)
    requires
        positions(starts@) == starts_of(source@),
        i < starts.len(),
        forall|k: int| 0 <= k < starts.len() ==> (#[trigger] starts@[k]) <= source@.len(),
    ensures
        opt_goal(r) == goal_on_line(source@, i as int),
{
    assert(positions(starts@)[i as int] == starts@[i as int] as int);
    let line = take_line(source, starts, i);
    let length = source.unicode_len();
    proof {
        reveal_strlit("sorry");
        reveal_strlit("admit");
    }
    let (before, size): (&str, usize) = match split_once(line, "sorry") {
        Some((before, _)) => (before, 5),
        None => match split_once(line, "admit") {
            Some((before, _)) => (before, 5),
            None => {
                return None;
            },
        },
    };
    proof {
        let needle = if cut(line@, "sorry"@) is Some {
            "sorry"@
        } else {
            "admit"@
        };
        crate::text::scan::find_from_is_first(line@, needle, 0);
    }
    assert(before@.len() + 5 <= line@.len());
    assert(line@.len() <= length - starts@[i as int]);
    let at = starts[i] + before.unicode_len();
    let width = count_indent(before);
    let indent = before.substring_char(0, width);
    assert(indent@ =~= before@.take(width as int));
    let in_tactic = are_tactics_open(slice(source, 0, at));
    Some(
        OpenGoal {
            start: take_chars(source, at).len(),
            end: take_chars(source, at + size).len(),
            in_tactic,
            indent: own(indent),
        },
    )
}

/// The lines on which an open goal is looked for: the one asked for, then those one and
/// two lines away.
pub open spec fn goal_lines(line: int) -> Seq<int> {
    seq![
        line,
        line,
        if line < 1 {
            0
        } else {
            line - 1
        },
        line + 1,
        if line < 2 {
            0
        } else {
            line - 2
        },
        line + 2,
    ]
}

/// The first open goal among some lines from `k` on, unless a line before it does not
/// exist.
pub open spec fn goal_among(source: Seq<char>, list: Seq<int>, k: int) -> Option<OpenGoalView>
    decreases list.len() - k,
{
    if k >= list.len() || list[k] >= starts_of(source).len() {
        None
    } else {
        match goal_on_line(source, list[k]) {
            Some(goal) => Some(goal),
            None => goal_among(source, list, k + 1),
        }
    }
}

/// The line counted from zero.
pub open spec fn line_index(line: u64) -> int {
    if line == 0 {
        0
    } else {
        line - 1
    }
}

/// The open goal near a line.
pub open spec fn goal_near(source: Seq<char>, line: u64) -> Option<OpenGoalView> {
    goal_among(source, goal_lines(line_index(line)), 0)
}

proof fn starts_are_bounded(source: Seq<char>)
    ensures
        starts_of(source).len() > 0,
        starts_of(source).len() <= source.len() + 1,
        forall|k: int|
            0 <= k < starts_of(source).len() ==> 0 <= (#[trigger] starts_of(source)[k])
                <= source.len(),
    decreases source.len(),
{
    if source.len() > 0 {
        starts_are_bounded(source.drop_last());
    }
}

/// Computes [`goal_near`].
pub fn goal_probe(source: &str, requested_line: u64) -> (r: Option<OpenGoal>)
    ensures
        opt_goal(r) == goal_near(source@, requested_line),
{
    let starts = line_positions(source);
    let count = starts.len();
    proof {
        starts_are_bounded(source@);
        assert(positions(starts@).len() == starts.len());
        assert forall|k: int| 0 <= k < starts.len() implies (#[trigger] starts@[k])
            <= source@.len() by {
            assert(positions(starts@)[k] == starts@[k] as int);
        }
    }
    let line: u64 = if requested_line == 0 {
        0
    } else {
        requested_line - 1
    };
    let ghost wanted = goal_lines(line as int);
    if line >= count as u64 {
        return None;
    }
    let index = line as usize;
    let mut list: Vec<usize> = Vec::new();
    list.push(index);
    list.push(index);
    list.push(
        if index < 1 {
            0
        } else {
            index - 1
        },
    );
    list.push(index + 1);
    list.push(
        if index < 2 {
            0
        } else {
            index - 2
        },
    );
    let length = source.unicode_len();
    if index + 1 < count {
        list.push(index + 2);
    } else {
        list.push(index + 1);
    }
    for k in 0..list.len()
        invariant
            positions(starts@) == starts_of(source@),
            positions(starts@).len() == starts.len(),
            forall|j: int| 0 <= j < starts.len() ==> (#[trigger] starts@[j]) <= source@.len(),
            count == starts.len(),
            wanted.len() == 6,
            list.len() == 6,
            wanted == goal_lines(line_index(requested_line)),
            forall|j: int| 0 <= j < 5 ==> list@[j] == #[trigger] wanted[j],
            list@[5] == wanted[5] || (list@[3] >= count && wanted[3] == list@[3]),
            k == 5 ==> list@[3] < count,
            k >= 4 ==> list@[3] < count,
            goal_near(source@, requested_line) == goal_among(source@, wanted, k as int),
    {
        assert(list@[k as int] == wanted[k as int]);
        let i = list[k];
        if i >= count {
            return None;
        }
        if let Some(goal) = find_goal_on_line(source, &starts, i) {
            return Some(goal);
        }
    }
    None
}

/// What a placeholder is replaced by to learn the goal and to try a tactic on it.
pub open spec fn probe_text(in_tactic: bool, indent: Seq<char>, tactic: Seq<char>) -> Seq<char> {
    if in_tactic {
        "run_tac\n"@ + indent + "  let goal ← Lean.Elab.Tactic.getMainGoal\n"@ + indent
            + "  let state ← Lean.Meta.ppGoal goal\n"@ + indent
            + "  Lean.logInfo m!\"MATHMUX_GOAL_BEGIN\\n{state}\\nMATHMUX_GOAL_END\"\n"@
            + indent + tactic
    } else {
        "by\n"@ + indent + "  run_tac\n"@ + indent
            + "    let goal ← Lean.Elab.Tactic.getMainGoal\n"@ + indent
            + "    let state ← Lean.Meta.ppGoal goal\n"@ + indent
            + "    Lean.logInfo m!\"MATHMUX_GOAL_BEGIN\\n{state}\\nMATHMUX_GOAL_END\"\n"@
            + indent + "  "@ + tactic
    }
}

/// Computes [`probe_text`].
pub fn goal_probe_replacement(in_tactic: bool, indent: &str, tactic: &str) -> (r: String)
    ensures
        r@ == probe_text(in_tactic, indent@, tactic@),
{
    if in_tactic {
        let mut out = cat2("run_tac\n", indent);
        push_str(&mut out, "  let goal ← Lean.Elab.Tactic.getMainGoal\n");
        push_str(&mut out, indent);
        push_str(&mut out, "  let state ← Lean.Meta.ppGoal goal\n");
        push_str(&mut out, indent);
        push_str(
            &mut out,
            "  Lean.logInfo m!\"MATHMUX_GOAL_BEGIN\\n{state}\\nMATHMUX_GOAL_END\"\n",
        );
        push_str(&mut out, indent);
        push_str(&mut out, tactic);
        out
    } else {
        let mut out = cat3("by\n", indent, "  run_tac\n");
        push_str(&mut out, indent);
        push_str(&mut out, "    let goal ← Lean.Elab.Tactic.getMainGoal\n");
        push_str(&mut out, indent);
        push_str(&mut out, "    let state ← Lean.Meta.ppGoal goal\n");
        push_str(&mut out, indent);
        push_str(
            &mut out,
            "    Lean.logInfo m!\"MATHMUX_GOAL_BEGIN\\n{state}\\nMATHMUX_GOAL_END\"\n",
        );
        push_str(&mut out, indent);
        push_str(&mut out, "  ");
        push_str(&mut out, tactic);
        out
    }
}

/// A source in which a tactic is tried in place of an open goal.
pub open spec fn probed(source: Seq<char>, goal: OpenGoalView, tactic: Seq<char>) -> Seq<char> {
    first_chars(source, char_index(source, goal.start) as int) + probe_text(
        goal.in_tactic,
        goal.indent,
        tactic,
    ) + after_chars(source, char_index(source, goal.end) as int)
}

/// Computes [`probed`].
pub fn probe_with(source: &str, goal: &OpenGoal, tactic: &str) -> (r: String)
    ensures
        r@ == probed(source@, goal@, tactic@),
{
    let middle = goal_probe_replacement(goal.in_tactic, goal.indent.as_str(), tactic);
    let before = take_chars(source, index_of_byte(source, goal.start));
    let after = skip_chars(source, index_of_byte(source, goal.end));
    cat3(before, middle.as_str(), after)
}

/// A line that opens a block of tactics or of declarations.
pub open spec fn opening_line(line: Seq<char>) -> bool {
    let t = bare_end(line);
    t == "by"@ || ends(t, ":= by"@) || ends(t, " where"@)
}

/// The first opening line from `i` up to `stop`.
pub open spec fn opening_from(source: Seq<char>, i: int, stop: int) -> Option<int>
    decreases stop - i + 1,
{
    if i > stop || i >= starts_of(source).len() {
        None
    } else if opening_line(whole_line(source, i)) {
        Some(i)
    } else {
        opening_from(source, i + 1, stop)
    }
}

/// The last opening line before `i`, not before `stop`.
pub open spec fn opening_before(source: Seq<char>, i: int, stop: int) -> Option<int>
    decreases i - stop,
{
    if i <= stop {
        None
    } else if i - 1 < starts_of(source).len() && opening_line(whole_line(source, i - 1)) {
        Some(i - 1)
    } else {
        opening_before(source, i - 1, stop)
    }
}

/// The block that a line belongs to: the next one within twenty lines, or else the last
/// one within eighty lines before.
pub open spec fn block_line(source: Seq<char>, line: int) -> Option<int> {
    match opening_from(source, line, line + 20) {
        Some(i) => Some(i),
        None => opening_before(
            source,
            line,
            if line < 80 {
                0
            } else {
                line - 80
            },
        ),
    }
}

/// Where a block ends: at the first line from `i` on that is not blank and not indented
/// further than its opening.
pub open spec fn block_end(source: Seq<char>, i: int, width: nat) -> int
    decreases starts_of(source).len() - i,
{
    if i >= starts_of(source).len() {
        source.len() as int
    } else if bare(whole_line(source, i)).len() > 0 && indent_width(whole_line(source, i))
        <= width {
        starts_of(source)[i]
    } else {
        block_end(source, i + 1, width)
    }
}

/// A source with a tactic at the end of the block of a line.
pub open spec fn with_tactic(source: Seq<char>, line: u64, tactic: Seq<char>) -> Option<Seq<char>> {
    match block_line(source, line_index(line)) {
        None => None,
        Some(at) => {
            let opening = whole_line(source, at);
            let width = indent_width(opening);
            let end = block_end(source, at + 1, width);
            let before = subtext(source, 0, end);
            Some(
                before + (if end > 0 && !ends(before, "\n"@) {
                    "\n"@
                } else {
                    ""@
                }) + opening.take(width as int) + "  "@ + tactic + "\n"@ + subtext(
                    source,
                    end,
                    source.len() as int,
                ),
            )
        },
    }
}

fn is_opening_line(line: &str) -> (r: bool)
    ensures
        r == opening_line(line@),
{
    let t = trim_end(line);
    same(t, "by") || ends_with(t, ":= by") || ends_with(t, " where")
}

fn find_block(source: &str, starts: &Vec<usize>, line: u64) -> (r: Option<usize>)
    requires
        positions(starts@) == starts_of(source@),
    ensures
        match r {
            Some(i) => i < starts.len() && block_line(source@, line as int) == Some(i as int),
            None => block_line(source@, line as int) is None,
        },
{
    assert(positions(starts@).len() == starts.len());
    let count = starts.len() as u64;
    let mut i: u64 = line;
    while i < count && i - line <= 20
        invariant
            positions(starts@) == starts_of(source@),
            positions(starts@).len() == starts.len(),
            count == starts.len(),
            line <= i,
            opening_from(source@, line as int, line + 20) == opening_from(
                source@,
                i as int,
                line + 20,
            ),
        decreases count - i,
    {
        if is_opening_line(take_line(source, starts, i as usize)) {
            return Some(i as usize);
        }
        i += 1;
    }
    let stop = if line < 80 {
        0
    } else {
        line - 80
    };
    let mut n = line;
    while n > stop
        invariant
            positions(starts@) == starts_of(source@),
            positions(starts@).len() == starts.len(),
            count == starts.len(),
            n <= line,
            opening_from(source@, line as int, line + 20) is None,
            stop == if line < 80 {
                0
            } else {
                line - 80
            },
            opening_before(source@, line as int, stop as int) == opening_before(
                source@,
                n as int,
                stop as int,
            ),
        decreases n,
    {
        if n - 1 < count && is_opening_line(take_line(source, starts, (n - 1) as usize)) {
            return Some((n - 1) as usize);
        }
        n -= 1;
    }
    None
}

fn find_block_end(source: &str, starts: &Vec<usize>, from: usize, width: usize) -> (r: usize)
    requires
        positions(starts@) == starts_of(source@),
        from <= starts.len(),
    ensures
        r == block_end(source@, from as int, width as nat),
{
    assert(positions(starts@).len() == starts.len());
    for i in from..starts.len()
        invariant
            from <= i,
            positions(starts@) == starts_of(source@),
            positions(starts@).len() == starts.len(),
            block_end(source@, from as int, width as nat) == block_end(
                source@,
                i as int,
                width as nat,
            ),
    {
        let line = take_line(source, starts, i);
        if !trim(line).is_empty() && count_indent(line) <= width {
            assert(positions(starts@)[i as int] == starts@[i as int] as int);
            return starts[i];
        }
    }
    source.unicode_len()
}

/// Computes [`with_tactic`].
pub fn append_goal_tactic(source: &str, requested_line: u64, tactic: &str) -> (r: Option<String>)
    ensures
        opt_string(r) == with_tactic(source@, requested_line, tactic@),
{
    let starts = line_positions(source);
    assert(positions(starts@).len() == starts.len());
    let line: u64 = if requested_line == 0 {
        0
    } else {
        requested_line - 1
    };
    let at = find_block(source, &starts, line)?;
    let opening = take_line(source, &starts, at);
    let width = count_indent(opening);
    let end = find_block_end(source, &starts, at + 1, width);
    let before = slice(source, 0, end);
    let after = slice(source, end, source.unicode_len());
    let indent = opening.substring_char(0, width);
    assert(indent@ =~= opening@.take(width as int));
    let mut out = own(before);
    push_str(
        &mut out,
        if end > 0 && !ends_with(before, "\n") {
            "\n"
        } else {
            ""
        },
    );
    push_str(&mut out, indent);
    push_str(&mut out, "  ");
    push_str(&mut out, tactic);
    push_str(&mut out, "\n");
    push_str(&mut out, after);
    Some(out)
}

/// A word that leaves a proof open.
pub open spec fn leaves_open(word: Seq<char>) -> bool {
    word == "sorry"@ || word == "admit"@
}

/// Whether a tactic leaves a proof open.
pub open spec fn has_placeholder(tactic: Seq<char>) -> bool {
    let list = pieces(tactic, Class::Outside("_"));
    exists|i: int| 0 <= i < list.len() && leaves_open(#[trigger] list[i])
}

fn is_left_open(tactic: &str) -> (r: bool)
    ensures
        r == has_placeholder(tactic@),
{
    let list = split(tactic, Class::Outside("_"));
    assert(strs(list@).len() == list.len());
    for i in 0..list.len()
        invariant
            strs(list@) == pieces(tactic@, Class::Outside("_")),
            strs(list@).len() == list.len(),
            forall|j: int| 0 <= j < i ==> !leaves_open(#[trigger] strs(list@)[j]),
    {
        assert(strs(list@)[i as int] == list@[i as int]@);
        if same(list[i], "sorry") || same(list[i], "admit") {
            assert(leaves_open(strs(list@)[i as int]));
            return true;
        }
    }
    false
}

/// A suggestion without the mark of what it does.
pub open spec fn unmarked(suggestion: Seq<char>) -> Seq<char> {
    match after_prefix(suggestion, "[apply] "@) {
        Some(rest) => rest,
        None => match after_prefix(suggestion, "[exact] "@) {
            Some(rest) => rest,
            None => suggestion,
        },
    }
}

fn unmark<'a>(suggestion: &'a str) -> (r: &'a str)
    ensures
        r@ == unmarked(suggestion@),
{
    match strip_prefix(suggestion, "[apply] ") {
        Some(rest) => rest,
        None => match strip_prefix(suggestion, "[exact] ") {
            Some(rest) => rest,
            None => suggestion,
        },
    }
}

/// Suggestions with one more, unless it leaves a proof open or is known.
pub open spec fn suggested(list: Seq<Seq<char>>, suggestion: Seq<char>) -> Seq<Seq<char>> {
    let s = unmarked(suggestion);
    if has_placeholder(s) || list.contains(s) {
        list
    } else {
        list.push(s)
    }
}

/// Computes [`suggested`].
pub fn push_suggestion(suggestions: &mut Vec<String>, suggestion: &str)
    ensures
        strings(final(suggestions)@) == suggested(strings(old(suggestions)@), suggestion@),
{
    let s = unmark(suggestion);
    if !is_left_open(s) && !has_string(suggestions, s) {
        suggestions.push(own(s));
    }
}

/// The first line from `i` on that is not blank, or the number of lines.
pub open spec fn past_blank(list: Seq<Seq<char>>, i: int) -> int
    decreases list.len() - i,
{
    if i < list.len() && bare(list[i]).len() == 0 {
        past_blank(list, i + 1)
    } else {
        i
    }
}

/// Whether a line goes on with a block of suggestions.
pub open spec fn block_goes_on(line: Seq<char>, indent: int, block: Seq<Seq<char>>, length: int) -> bool {
    &&& indent_width(line) >= indent
    &&& block.len() < 8
    &&& length < 1200
    &&& !begins(bare_end(after_chars(line, indent)), "-- Remaining subgoals:"@)
}

/// The block of a suggestion from line `k` on, and the line after it. A blank line ends
/// it and is passed over.
pub open spec fn suggestion_block(
    list: Seq<Seq<char>>,
    k: int,
    indent: int,
    block: Seq<Seq<char>>,
    length: int,
) -> (Seq<Seq<char>>, int)
    decreases list.len() - k,
{
    if k >= list.len() {
        (block, k)
    } else if bare(list[k]).len() == 0 {
        (block, k + 1)
    } else if !block_goes_on(list[k], indent, block, length) {
        (block, k)
    } else {
        let text = bare_end(after_chars(list[k], indent));
        suggestion_block(list, k + 1, indent, block.push(text), length + byte_length(text))
    }
}

/// Where the next suggestion is looked for after line `i`, and the suggestions with the
/// one that line `i` announces.
pub open spec fn suggestion_step(list: Seq<Seq<char>>, i: int, known: Seq<Seq<char>>) -> (
    int,
    Seq<Seq<char>>,
) {
    match cut(list[i], "Try this:"@) {
        None => (i + 1, known),
        Some((_, after)) => if bare(after).len() > 0 {
            (i + 1, suggested(known, bare(after)))
        } else {
            let first = past_blank(list, i + 1);
            if first >= list.len() {
                (list.len() as int, known)
            } else if indent_width(list[first]) == 0 {
                (first, known)
            } else {
                let (block, next) = suggestion_block(
                    list,
                    first,
                    indent_width(list[first]) as int,
                    Seq::empty(),
                    0,
                );
                if block.len() == 0 {
                    (next, known)
                } else {
                    (next, suggested(known, joined(block, "\n"@)))
                }
            }
        },
    }
}

/// The suggestions from line `i` on, after those that are known.
pub open spec fn suggestions_from(list: Seq<Seq<char>>, i: int, known: Seq<Seq<char>>) -> Seq<
    Seq<char>,
>
    decreases list.len() - i,
{
    if i < 0 || i >= list.len() {
        known
    } else {
        let (next, more) = suggestion_step(list, i, known);
        if i < next <= list.len() {
            suggestions_from(list, next, more)
        } else {
            more
        }
    }
}

proof fn blanks_are_passed(list: Seq<Seq<char>>, i: int)
    ensures
        past_blank(list, i) >= i,
        i <= list.len() ==> past_blank(list, i) <= list.len(),
    decreases list.len() - i,
{
    if i < list.len() && bare(list[i]).len() == 0 {
        blanks_are_passed(list, i + 1);
    }
}

fn skip_blank(list: &Vec<&str>, from: usize) -> (r: usize)
    requires
        from <= list.len(),
    ensures
        r == past_blank(strs(list@), from as int),
        from <= r <= list.len(),
{
    assert(strs(list@).len() == list.len());
    let mut i = from;
    while i < list.len() && trim(list[i]).is_empty()
        invariant
            from <= i <= list.len(),
            strs(list@).len() == list.len(),
            past_blank(strs(list@), from as int) == past_blank(strs(list@), i as int),
        decreases list.len() - i,
    {
        assert(strs(list@)[i as int] == list@[i as int]@);
        i += 1;
    }
    proof {
        if i < list.len() {
            assert(strs(list@)[i as int] == list@[i as int]@);
        }
    }
    i
}

fn collect_block<'a>(list: &Vec<&'a str>, from: usize, indent: usize) -> (r: (Vec<&'a str>, usize))
    requires
        from < list.len(),
    ensures
        (strs(r.0@), r.1 as int) == suggestion_block(
            strs(list@),
            from as int,
            indent as int,
            Seq::empty(),
            0,
        ),
        from <= r.1 <= list.len(),
{
    let ghost views = strs(list@);
    assert(views.len() == list.len());
    let mut block: Vec<&'a str> = Vec::new();
    let mut length: usize = 0;
    let ghost mut total: int = 0;
    let mut k = from;
    assert(strs(block@) =~= Seq::empty());
    while k < list.len()
        invariant
            from <= k <= list.len(),
            views == strs(list@),
            views.len() == list.len(),
            total == length || (length == usize::MAX && total >= 1200),
            strs(block@).len() == block.len(),
            suggestion_block(views, from as int, indent as int, Seq::empty(), 0)
                == suggestion_block(views, k as int, indent as int, strs(block@), total),
        decreases list.len() - k,
    {
        assert(views[k as int] == list@[k as int]@);
        let line = list[k];
        if trim(line).is_empty() {
            return (block, k + 1);
        }
        let text = trim_end(skip_chars(line, indent));
        if count_indent(line) < indent || block.len() >= 8 || length >= 1200 || starts_with(
            text,
            "-- Remaining subgoals:",
        ) {
            return (block, k);
        }
        let ghost before = strs(block@);
        block.push(text);
        assert(strs(block@) =~= before.push(text@));
        proof {
            total = total + byte_length(text@);
        }
        length = length.saturating_add(text.len());
        k += 1;
    }
    (block, k)
}

/// The tactics that the output of Lean suggests.
pub fn try_this_suggestions(output: &str) -> (r: Vec<String>)
    ensures
        strings(r@) == suggestions_from(line_list(output@), 0, Seq::empty()),
{
    let list = lines(output);
    let ghost views = strs(list@);
    assert(views.len() == list.len());
    let mut known: Vec<String> = Vec::new();
    assert(strings(known@) =~= Seq::empty());
    let mut i: usize = 0;
    while i < list.len()
        invariant
            i <= list.len(),
            views == strs(list@),
            views.len() == list.len(),
            views == line_list(output@),
            suggestions_from(views, 0, Seq::empty()) == suggestions_from(
                views,
                i as int,
                strings(known@),
            ),
        decreases list.len() - i,
    {
        assert(views[i as int] == list@[i as int]@);
        let ghost before = strings(known@);
        let ghost step = suggestion_step(views, i as int, before);
        let mut next = i + 1;
        if let Some((_, after)) = split_once(list[i], "Try this:") {
            let text = trim(after);
            if !text.is_empty() {
                push_suggestion(&mut known, text);
            } else {
                let first = skip_blank(&list, i + 1);
                if first >= list.len() {
                    next = list.len();
                } else {
                    assert(views[first as int] == list@[first as int]@);
                    let indent = count_indent(list[first]);
                    if indent == 0 {
                        next = first;
                    } else {
                        let (block, stop) = collect_block(&list, first, indent);
                        assert(strs(block@).len() == block.len());
                        next = stop;
                        if block.len() > 0 {
                            push_suggestion(&mut known, join_strs(&block, "\n").as_str());
                        }
                    }
                }
            }
        }
        assert(step == (next as int, strings(known@)));
        i = next;
    }
    known
}

/// Lines without white space at their ends, and without blank ones.
pub open spec fn solid_lines(list: Seq<Seq<char>>) -> Seq<Seq<char>>
    decreases list.len(),
{
    if list.len() == 0 {
        Seq::empty()
    } else if bare(bare_end(list.last())).len() == 0 {
        solid_lines(list.drop_last())
    } else {
        solid_lines(list.drop_last()).push(bare_end(list.last()))
    }
}

/// The first line from `i` on that holds a text, or the number of lines.
pub open spec fn mark_from(list: Seq<Seq<char>>, mark: Seq<char>, i: int) -> int
    decreases list.len() - i,
{
    if i >= list.len() || has_text(list[i], mark) {
        i
    } else {
        mark_from(list, mark, i + 1)
    }
}

fn find_mark(list: &Vec<&str>, mark: &str, from: usize) -> (r: usize)
    requires
        from <= list.len(),
    ensures
        r == mark_from(strs(list@), mark@, from as int),
        from <= r <= list.len(),
{
    assert(strs(list@).len() == list.len());
    for i in from..list.len()
        invariant
            from <= i,
            strs(list@).len() == list.len(),
            mark_from(strs(list@), mark@, from as int) == mark_from(
                strs(list@),
                mark@,
                i as int,
            ),
    {
        assert(strs(list@)[i as int] == list@[i as int]@);
        if contains(list[i], mark) {
            return i;
        }
    }
    list.len()
}

/// The goal between the marks of some output, its last lines where it is long.
pub open spec fn goal_in_output(output: Seq<char>) -> Option<Seq<char>> {
    let list = line_list(output);
    let begin = mark_from(list, goal_begin(), 0);
    if begin >= list.len() {
        None
    } else {
        let end = mark_from(list, goal_end(), begin + 1);
        if end >= list.len() {
            None
        } else {
            let state = solid_lines(list.subrange(begin + 1, end));
            let shown = joined(back(state, SOURCE_PREVIEW_LINES as int), "\n"@);
            if state.len() == 0 {
                None
            } else if state.len() > SOURCE_PREVIEW_LINES {
                Some(
                    "+"@ + decimal((state.len() - SOURCE_PREVIEW_LINES) as nat)
                        + " context lines omitted\n"@ + shown,
                )
            } else {
                Some(shown)
            }
        }
    }
}

/// Computes [`goal_in_output`].
pub fn traced_goal_state(output: &str) -> (r: Option<String>)
    ensures
        opt_string(r) == goal_in_output(output@),
{
    let list = lines(output);
    let ghost views = strs(list@);
    assert(views.len() == list.len());
    let begin = find_mark(&list, "MATHMUX_GOAL_BEGIN", 0);
    if begin >= list.len() {
        return None;
    }
    let end = find_mark(&list, "MATHMUX_GOAL_END", begin + 1);
    if end >= list.len() {
        return None;
    }
    let ghost part = views.subrange(begin + 1, end as int);
    let mut state: Vec<&str> = Vec::new();
    assert(strs(state@) =~= Seq::empty());
    for i in begin + 1..end
        invariant
            begin + 1 <= i,
            end < list.len(),
            views == strs(list@),
            part == views.subrange(begin + 1, end as int),
            strs(state@) == solid_lines(part.take(i - begin - 1)),
    {
        proof {
            prefix_step(part, i - begin - 1);
        }
        assert(part[i - begin - 1] == list@[i as int]@);
        let line = trim_end(list[i]);
        if !trim(line).is_empty() {
            state.push(line);
        }
    }
    proof {
        prefix_all(part);
    }
    assert(strs(state@).len() == state.len());
    if state.len() == 0 {
        return None;
    }
    let shown = join_strs(&take_back(&state, SOURCE_PREVIEW_LINES), "\n");
    if state.len() > SOURCE_PREVIEW_LINES {
        let more = show_size(state.len() - SOURCE_PREVIEW_LINES);
        Some(cat4("+", more.as_str(), " context lines omitted\n", shown.as_str()))
    } else {
        Some(shown)
    }
}

/// Places of the lines of a list that are not blank, in order and without a gap.
pub open spec fn marks_solid(list: Seq<Seq<char>>, places: Seq<int>) -> bool {
    &&& forall|i: int|
        0 <= i < places.len() ==> 0 <= #[trigger] places[i] < list.len() && bare(
            list[places[i]],
        ).len() > 0
    &&& forall|i: int, j: int|
        0 <= i < j < places.len() ==> #[trigger] places[i] < #[trigger] places[j]
    &&& forall|k: int|
        0 <= k < list.len() && bare(#[trigger] list[k]).len() > 0 ==> places.contains(k)
}

proof fn solid_lines_stand(list: Seq<Seq<char>>, places: Seq<int>)
    requires
        marks_solid(list, places),
    ensures
        solid_lines(list) == places.map_values(|k: int| bare_end(list[k])),
    decreases list.len(),
{
    let wanted = places.map_values(|k: int| bare_end(list[k]));
    if list.len() == 0 {
        if places.len() > 0 {
            assert(0 <= places[0] < list.len());
        }
        assert(wanted =~= Seq::empty());
    } else {
        let shorter = list.drop_last();
        let n = list.len() - 1;
        bare_of_bare_end(list[n]);
        if bare(list[n]).len() > 0 {
            assert(places.contains(n));
            let at = places.index_of(n);
            if at < places.len() - 1 {
                assert(places[at] < places[places.len() - 1]);
                assert(places[places.len() - 1] < list.len());
            }
            let fewer = places.drop_last();
            assert forall|i: int| 0 <= i < fewer.len() implies 0 <= #[trigger] fewer[i]
                < shorter.len() && bare(shorter[fewer[i]]).len() > 0 by {
                assert(fewer[i] == places[i]);
                assert(places[i] < places[places.len() - 1]);
            }
            assert forall|k: int| 0 <= k < shorter.len() && bare(
                #[trigger] shorter[k],
            ).len() > 0 implies fewer.contains(k) by {
                assert(list[k] == shorter[k]);
                assert(places.contains(k));
                assert(fewer[places.index_of(k)] == k);
            }
            solid_lines_stand(shorter, fewer);
            assert(wanted =~= fewer.map_values(|k: int| bare_end(shorter[k])).push(
                bare_end(list[n]),
            ));
        } else {
            assert forall|i: int| 0 <= i < places.len() implies 0 <= #[trigger] places[i]
                < shorter.len() && bare(shorter[places[i]]).len() > 0 by {
                assert(bare(list[places[i]]).len() > 0);
            }
            assert forall|k: int| 0 <= k < shorter.len() && bare(
                #[trigger] shorter[k],
            ).len() > 0 implies places.contains(k) by {
                assert(list[k] == shorter[k]);
            }
            solid_lines_stand(shorter, places);
            assert(wanted =~= places.map_values(|k: int| bare_end(shorter[k])));
        }
    }
}

proof fn mark_is_first(list: Seq<Seq<char>>, mark: Seq<char>, from: int, at: int)
    requires
        0 <= from <= at <= list.len(),
        at < list.len() ==> has_text(list[at], mark),
        forall|k: int| from <= k < at ==> !has_text(#[trigger] list[k], mark),
    ensures
        mark_from(list, mark, from) == at,
    decreases at - from,
{
    if from < at {
        mark_is_first(list, mark, from + 1, at);
    }
}

/// The goal that Lean traces is shown with all its lines that are not blank, white space
/// at their ends aside, where there are at most sixteen; else with its last sixteen,
/// behind a line that counts the others. So the last line of the state, which holds the
/// goal, always ends what is shown.
pub proof fn traced_goals_end_what_is_shown(
    output: Seq<char>,
    begin: int,
    end: int,
    places: Seq<int>,
)
    requires
        ({
            let list = line_list(output);
            &&& 0 <= begin < end < list.len()
            &&& has_text(list[begin], "MATHMUX_GOAL_BEGIN"@)
            &&& forall|k: int|
                0 <= k < begin ==> !has_text(#[trigger] list[k], "MATHMUX_GOAL_BEGIN"@)
            &&& has_text(list[end], "MATHMUX_GOAL_END"@)
            &&& forall|k: int|
                begin < k < end ==> !has_text(#[trigger] list[k], "MATHMUX_GOAL_END"@)
            &&& marks_solid(list.subrange(begin + 1, end), places)
        }),
    ensures
        ({
            let inside = line_list(output).subrange(begin + 1, end);
            let state = places.map_values(|k: int| bare_end(inside[k]));
            let n = places.len() as int;
            let tail = joined(state.skip(n - 16), "\n"@);
            &&& n == 0 <==> goal_in_output(output) is None
            &&& 0 < n <= 16 ==> goal_in_output(output) == Some(joined(state, "\n"@))
            &&& n > 16 ==> goal_in_output(output) == Some(
                "+"@ + decimal((n - 16) as nat) + " context lines omitted\n"@ + tail,
            )
            &&& goal_in_output(output) matches Some(text) ==> ends(text, state.last())
        }),
{
    let list = line_list(output);
    let inside = list.subrange(begin + 1, end);
    let state = places.map_values(|k: int| bare_end(inside[k]));
    mark_is_first(list, goal_begin(), 0, begin);
    mark_is_first(list, goal_end(), begin + 1, end);
    solid_lines_stand(inside, places);
    let n = places.len() as int;
    if n > 0 {
        let shown = if n <= 16 {
            state
        } else {
            state.skip(n - 16)
        };
        assert(shown.last() == state.last());
        joined_ends(shown, "\n"@);
        if n > 16 {
            let head = "+"@ + decimal((n - 16) as nat) + " context lines omitted\n"@;
            ends_of_longer(head, joined(shown, "\n"@), state.last());
        }
    }
}

proof fn joined_ends(list: Seq<Seq<char>>, separator: Seq<char>)
    requires
        list.len() > 0,
    ensures
        ends(joined(list, separator), list.last()),
{
    if list.len() == 1 {
        assert(list[0].skip(0) =~= list[0]);
    } else {
        let front = joined(list.drop_last(), separator) + separator;
        assert((front + list.last()).skip(front.len() as int) =~= list.last());
    }
}

proof fn ends_of_longer(head: Seq<char>, text: Seq<char>, tail: Seq<char>)
    requires
        ends(text, tail),
    ensures
        ends(head + text, tail),
{
    assert((head + text).skip((head + text).len() - tail.len()) =~= text.skip(
        text.len() - tail.len(),
    ));
}

/// Without both marks, in order, no goal was traced.
pub proof fn untraced_goals_are_not_shown(output: Seq<char>)
    requires
        forall|b: int, e: int|
            0 <= b < e < line_list(output).len() ==> !(has_text(
                #[trigger] line_list(output)[b],
                "MATHMUX_GOAL_BEGIN"@,
            ) && has_text(#[trigger] line_list(output)[e], "MATHMUX_GOAL_END"@)),
    ensures
        goal_in_output(output) is None,
{
    let list = line_list(output);
    mark_found(list, goal_begin(), 0);
    let begin = mark_from(list, goal_begin(), 0);
    if begin < list.len() {
        mark_found(list, goal_end(), begin + 1);
    }
}

proof fn mark_found(list: Seq<Seq<char>>, mark: Seq<char>, from: int)
    requires
        0 <= from <= list.len(),
    ensures
        from <= mark_from(list, mark, from) <= list.len(),
        mark_from(list, mark, from) < list.len() ==> has_text(
            list[mark_from(list, mark, from)],
            mark,
        ),
    decreases list.len() - from,
{
    if from < list.len() && !has_text(list[from], mark) {
        mark_found(list, mark, from + 1);
    }
}

proof fn bare_of_bare_end(text: Seq<char>)
    ensures
        bare(bare_end(text)).len() == 0 <==> bare(text).len() == 0,
{
    trimmed_to_nothing(text, Class::Space);
    trimmed_to_nothing(bare_end(text), Class::Space);
    let i = trimming_end_cuts_the_class(text, Class::Space);
    if bare(bare_end(text)).len() == 0 {
        assert forall|j: int| 0 <= j < text.len() implies Class::Space.has(#[trigger] text[j]) by {
            if j < i {
                assert(Class::Space.has(bare_end(text)[j]));
            }
        }
    }
    if bare(text).len() == 0 {
        assert forall|j: int| 0 <= j < bare_end(text).len() implies Class::Space.has(
            #[trigger] bare_end(text)[j],
        ) by {
            assert(Class::Space.has(text[j]));
        }
    }
}

/// What a goal states, by the first line from `i` on that has its mark.
pub open spec fn stated_goal(list: Seq<Seq<char>>, i: int) -> Option<Seq<char>>
    decreases list.len() - i,
{
    if i >= list.len() {
        None
    } else {
        match after_prefix(bare(list[i]), "⊢"@) {
            Some(rest) => Some(bare(rest)),
            None => stated_goal(list, i + 1),
        }
    }
}

fn find_stated_goal<'a>(list: &Vec<&'a str>) -> (r: Option<&'a str>)
    ensures
        opt_str(r) == stated_goal(strs(list@), 0),
{
    for i in 0..list.len()
        invariant
            stated_goal(strs(list@), 0) == stated_goal(strs(list@), i as int),
    {
        assert(strs(list@)[i as int] == list@[i as int]@);
        if let Some(rest) = strip_prefix(trim(list[i]), "⊢") {
            return Some(trim(rest));
        }
    }
    None
}

/// The first word of a type.
pub open spec fn type_head(text: Seq<char>) -> Option<Seq<char>> {
    let parts = nonempty_of(pieces(text, Class::SpaceOr("(")));
    if parts.len() == 0 {
        None
    } else {
        Some(parts[0])
    }
}

fn head_of_type<'a>(text: &'a str) -> (r: Option<&'a str>)
    ensures
        opt_str(r) == type_head(text@),
{
    let parts = keep_nonempty(split(text, Class::SpaceOr("(")));
    assert(strs(parts@).len() == parts.len());
    if parts.len() == 0 {
        None
    } else {
        assert(strs(parts@)[0] == parts@[0]@);
        Some(parts[0])
    }
}

/// The hypothesis on a line whose type has a given first word.
pub open spec fn hypothesis_on(line: Seq<char>, head: Seq<char>) -> Option<Seq<char>> {
    match cut(bare(line), ":"@) {
        Some((name, ty)) => if type_head(bare(ty)) == Some(head) && words(name).len() > 0 {
            Some(words(name).last())
        } else {
            None
        },
        None => None,
    }
}

fn find_hypothesis<'a>(line: &'a str, head: &str) -> (r: Option<&'a str>)
    ensures
        opt_str(r) == hypothesis_on(line@, head@),
{
    let (name, ty) = split_once(trim(line), ":")?;
    let found = head_of_type(trim(ty))?;
    if !same(found, head) {
        return None;
    }
    let list = split_words(name);
    assert(strs(list@).len() == list.len());
    if list.len() == 0 {
        return None;
    }
    assert(strs(list@).last() == list@[list.len() - 1]@);
    Some(list[list.len() - 1])
}

/// The first six hypotheses whose types have a given first word.
pub open spec fn hypotheses(list: Seq<Seq<char>>, head: Seq<char>) -> Seq<Seq<char>>
    decreases list.len(),
{
    if list.len() == 0 {
        Seq::empty()
    } else {
        let before = hypotheses(list.drop_last(), head);
        match hypothesis_on(list.last(), head) {
            Some(name) => if before.len() < 6 {
                before.push(name)
            } else {
                before
            },
            None => before,
        }
    }
}

fn collect_hypotheses<'a>(list: &Vec<&'a str>, head: &str) -> (r: Vec<&'a str>)
    ensures
        strs(r@) == hypotheses(strs(list@), head@),
{
    let ghost views = strs(list@);
    let mut out: Vec<&'a str> = Vec::new();
    assert(strs(out@) =~= Seq::empty());
    for i in 0..list.len()
        invariant
            views == strs(list@),
            strs(out@) == hypotheses(views.take(i as int), head@),
    {
        proof {
            prefix_step(views, i as int);
        }
        assert(views[i as int] == list@[i as int]@);
        assert(strs(out@).len() == out.len());
        if let Some(name) = find_hypothesis(list[i], head) {
            if out.len() < 6 {
                out.push(name);
            }
        }
    }
    proof {
        prefix_all(views);
    }
    out
}

/// A goal that arithmetic may close.
pub open spec fn arithmetic_goal(goal: Seq<char>) -> bool {
    any_of(goal, Class::Only("=≤<")) && any_of(goal, Class::Only("+-*"))
}

/// The tactics that compose two hypotheses, over pairs from `(i, j)` on. No more are
/// added once there are eight.
pub open spec fn compositions(names: Seq<Seq<char>>, i: int, j: int, known: Seq<Seq<char>>) -> Seq<
    Seq<char>,
>
    decreases names.len() - i, names.len() - j,
{
    if i < 0 || j < 0 || i >= names.len() {
        known
    } else if j >= names.len() {
        compositions(names, i + 1, 0, known)
    } else if names[i] == names[j] {
        compositions(names, i, j + 1, known)
    } else {
        let more = known.push("exact "@ + names[i] + ".comp "@ + names[j]).push(
            "exact "@ + names[i] + ".trans "@ + names[j],
        );
        if more.len() >= 8 {
            more
        } else {
            compositions(names, i, j + 1, more)
        }
    }
}

/// The tactics that are tried on a goal because of what it states.
pub open spec fn method_candidates(state: Seq<char>) -> Seq<Seq<char>> {
    let list = line_list(state);
    match stated_goal(list, 0) {
        None => Seq::empty(),
        Some(goal) => match type_head(goal) {
            None => Seq::empty(),
            Some(head) => compositions(
                hypotheses(list, head),
                0,
                0,
                if arithmetic_goal(goal) {
                    seq!["omega"@]
                } else {
                    Seq::empty()
                },
            ),
        },
    }
}

/// Computes [`method_candidates`].
pub fn local_method_candidates(goal_state: &str) -> (r: Vec<String>)
    ensures
        strings(r@) == method_candidates(goal_state@),
{
    let list = lines(goal_state);
    let mut out: Vec<String> = Vec::new();
    assert(strings(out@) =~= Seq::empty());
    let Some(goal) = find_stated_goal(&list) else {
        return out;
    };
    let Some(head) = head_of_type(goal) else {
        return out;
    };
    let names = collect_hypotheses(&list, head);
    let ghost views = strs(names@);
    assert(views.len() == names.len());
    if is_any(goal, Class::Only("=≤<")) && is_any(goal, Class::Only("+-*")) {
        out.push(own("omega"));
        assert(strings(out@) =~= seq!["omega"@]);
    }
    let ghost first = strings(out@);
    let mut i: usize = 0;
    let mut j: usize = 0;
    while i < names.len()
        invariant
            i <= names.len(),
            j <= names.len(),
            views == strs(names@),
            views.len() == names.len(),
            compositions(views, 0, 0, first) == compositions(
                views,
                i as int,
                j as int,
                strings(out@),
            ),
            method_candidates(goal_state@) == compositions(views, 0, 0, first),
        decreases names.len() - i, names.len() - j,
    {
        if j >= names.len() {
            i += 1;
            j = 0;
        } else {
            assert(views[i as int] == names@[i as int]@);
            assert(views[j as int] == names@[j as int]@);
            if !same(names[i], names[j]) {
                out.push(cat4("exact ", names[i], ".comp ", names[j]));
                out.push(cat4("exact ", names[i], ".trans ", names[j]));
                assert(strings(out@).len() == out.len());
                if out.len() >= 8 {
                    return out;
                }
            }
            j += 1;
        }
    }
    out
}

/// A place in a source whose goal is asked for.
#[derive(Debug)]
pub struct GoalLocation {
    pub path: String,
    pub display_path: Option<String>,
    /// The line, or nothing for the end of the file.
    pub line: Option<u64>,
    /// More of the source is asked for.
    pub more: bool,
    /// The file belongs to the project, so that a goal in it can be tried.
    pub probe: bool,
}

/// The contents of a [`GoalLocation`].
pub struct GoalLocationView {
    pub path: Seq<char>,
    pub display_path: Option<Seq<char>>,
    pub line: Option<u64>,
    pub more: bool,
    pub probe: bool,
}

impl View for GoalLocation {
    type V = GoalLocationView;

    open spec fn view(&self) -> GoalLocationView {
        GoalLocationView {
            path: self.path@,
            display_path: opt_string(self.display_path),
            line: self.line,
            more: self.more,
            probe: self.probe,
        }
    }
}

/// The view of an optional place.
pub open spec fn goal_location_view(r: Result<Option<GoalLocation>, Failure>) -> Result<
    Option<GoalLocationView>,
    Seq<char>,
> {
    match r {
        Ok(Some(q)) => Ok(Some(q@)),
        Ok(None) => Ok(None),
        Err(e) => Err(e@),
    }
}

/// The last white space character of the first `n`.
pub open spec fn last_space(text: Seq<char>, n: nat) -> Option<int>
    decreases n,
{
    if n == 0 {
        None
    } else if whitespace(text[n - 1]) {
        Some(n - 1)
    } else {
        last_space(text, (n - 1) as nat)
    }
}

fn find_last_space(text: &Vec<char>) -> (r: Option<usize>)
    ensures
        match r {
            Some(i) => i < text.len() && last_space(text@, text@.len()) == Some(i as int),
            None => last_space(text@, text@.len()) is None,
        },
{
    let mut n = text.len();
    while n > 0
        invariant
            n <= text.len(),
            last_space(text@, text@.len()) == last_space(text@, n as nat),
        decreases n,
    {
        n -= 1;
        if is_whitespace(text[n]) {
            return Some(n);
        }
    }
    None
}

/// A request without the word that asks for more, and whether that word was there.
pub open spec fn sans_more(query: Seq<char>) -> (Seq<char>, bool) {
    match last_space(query, query.len()) {
        Some(i) => if alike(query.skip(i + 1), "more"@) {
            (bare_end(query.take(i)), true)
        } else {
            (query, false)
        },
        None => (query, false),
    }
}

fn drop_more<'a>(query: &'a str) -> (r: (&'a str, bool))
    ensures
        (r.0@, r.1) == sans_more(query@),
{
    let chars = to_chars(query);
    match find_last_space(&chars) {
        Some(i) => {
            let length = query.unicode_len();
            let last = query.substring_char(i + 1, length);
            assert(last@ =~= query@.skip(i + 1));
            if same_ignoring_case(last, "more") {
                let first = query.substring_char(0, i);
                assert(first@ =~= query@.take(i as int));
                (trim_end(first), true)
            } else {
                (query, false)
            }
        },
        None => (query, false),
    }
}

/// The file and the line that a place names. A column behind the line is passed over.
pub open spec fn place_parts(place: Seq<char>) -> Option<(Seq<char>, Option<u64>)> {
    match rcut(place, ":"@) {
        None => None,
        Some((before, last)) => if alike(last, "tail"@) {
            Some((before, None))
        } else if !numeral(last) {
            None
        } else {
            let end = Some(number(last, u64::MAX as nat)->0 as u64);
            match rcut(before, ":"@) {
                Some((path, line)) => if numeral(line) {
                    Some((path, Some(number(line, u64::MAX as nat)->0 as u64)))
                } else {
                    Some((line, end))
                },
                None => if numeral(before) {
                    None
                } else {
                    Some((before, end))
                },
            }
        },
    }
}

fn split_place<'a>(place: &'a str) -> (r: Option<(&'a str, Option<u64>)>)
    ensures
        match r {
            Some(p) => place_parts(place@) == Some((p.0@, p.1)),
            None => place_parts(place@) is None,
        },
{
    let (before, last) = rsplit_once(place, ":")?;
    if same_ignoring_case(last, "tail") {
        return Some((before, None));
    }
    let end = parse_u64(last)?;
    match rsplit_once(before, ":") {
        Some((path, line)) => match parse_u64(line) {
            Some(n) => Some((path, Some(n))),
            None => Some((line, Some(end))),
        },
        None => if parse_u64(before).is_some() {
            None
        } else {
            Some((before, Some(end)))
        },
    }
}

/// What a request for a goal asks for, unless it is no such request.
pub open spec fn goal_request(tree: TreeView, main: Option<TreeView>, query: Seq<char>) -> Result<
    Option<GoalLocationView>,
    Seq<char>,
> {
    let (asked, more) = sans_more(query);
    match place_parts(location_part(asked)) {
        None => Ok(None),
        Some((path, line)) => match goal_at(tree, path) {
            None => Err(missing_source(tree, main, path)),
            Some(source) => if line == Some(0u64) {
                Err("goal line starts at 1"@)
            } else {
                Ok(
                    Some(
                        GoalLocationView {
                            path: source.path,
                            display_path: source.display,
                            line,
                            more,
                            probe: source.project,
                        },
                    ),
                )
            },
        },
    }
}

/// Computes [`goal_request`].
pub fn parse_goal_location(tree: &SourceTree, main: Option<&SourceTree>, query: &str) -> (r: Result<
    Option<GoalLocation>,
    Failure,
>)
    ensures
        goal_location_view(r) == goal_request(tree@, opt_tree(main), query@),
{
    let (asked, more) = drop_more(query);
    let Some((path, line)) = split_place(find_location(asked)) else {
        return Ok(None);
    };
    let Some(source) = resolve_goal_path(tree, path) else {
        return refuse(missing_source_message(tree, main, path).as_str());
    };
    if let Some(n) = line {
        if n == 0 {
            return refuse("goal line starts at 1");
        }
    }
    Ok(
        Some(
            GoalLocation {
                path: source.path,
                display_path: source.display,
                line,
                more,
                probe: source.project,
            },
        ),
    )
}

/// The place of a goal as a place in a source.
pub open spec fn goal_place(at: GoalLocationView, source: Seq<char>) -> LocationView {
    LocationView {
        path: at.path,
        display_path: at.display_path,
        line: match at.line {
            Some(n) => n,
            None => crate::search::spans::last_line(source),
        },
        tail: at.line is None,
        expanded: at.more,
    }
}

fn place_of_goal(at: &GoalLocation, source: &str) -> (r: SourceLocation)
    ensures
        r@ == goal_place(at@, source@),
{
    let list = lines(source);
    assert(strs(list@).len() == list.len());
    let line = match at.line {
        Some(n) => n,
        None => if list.len() < 1 {
            1
        } else {
            list.len() as u64
        },
    };
    SourceLocation {
        path: at.path.clone(),
        display_path: copy_opt(&at.display_path),
        line,
        tail: at.line.is_none(),
        expanded: at.more,
    }
}

/// The answer that shows the source at the place of a goal.
pub open spec fn source_instead(
    at: GoalLocationView,
    source: Seq<char>,
    workspace: Seq<char>,
    note: Option<Seq<char>>,
    ok: bool,
) -> ResultView {
    ResultView {
        ok,
        ..location_answer(
            goal_place(at, source),
            source,
            file_spans(source, module_of(at.path, workspace, SourceKind::Project)),
            name_shown(at.display_path, at.path, workspace),
            note,
            !ok,
        )
    }
}

/// Computes [`source_instead`].
pub fn show_source_instead(
    at: &GoalLocation,
    source: &str,
    workspace: &str,
    note: Option<&str>,
    ok: bool,
) -> (r: SearchResult)
    ensures
        r@ == source_instead(at@, source@, workspace@, opt_str(note), ok),
{
    let place = place_of_goal(at, source);
    let mut answer = source_location_result(&place, source, workspace, note, !ok);
    answer.ok = ok;
    answer
}

/// What is done first for a goal.
pub enum GoalStep {
    /// The answer is known.
    Done(SearchResult),
    /// The source is to be elaborated with tactics in place of an open goal.
    Try(OpenGoal),
}

/// The contents of a [`GoalStep`].
pub enum GoalStepView {
    Done(ResultView),
    Try(OpenGoalView),
}

impl View for GoalStep {
    type V = GoalStepView;

    open spec fn view(&self) -> GoalStepView {
        match self {
            GoalStep::Done(r) => GoalStepView::Done(r@),
            GoalStep::Try(g) => GoalStepView::Try(g@),
        }
    }
}

/// A goal is tried only in a file of the project, on a given line, with a placeholder
/// near it; else the source is shown.
pub open spec fn goal_start(at: GoalLocationView, source: Seq<char>, workspace: Seq<char>) -> GoalStepView {
    if at.line is None || at.more {
        GoalStepView::Done(source_instead(at, source, workspace, None, true))
    } else if !at.probe {
        GoalStepView::Done(source_instead(at, source, workspace, Some("source only"@), true))
    } else {
        match goal_near(source, at.line->0) {
            Some(goal) => GoalStepView::Try(goal),
            None => GoalStepView::Done(
                source_instead(at, source, workspace, Some("source only"@), false),
            ),
        }
    }
}

/// Computes [`goal_start`].
pub fn start_goal_search(at: &GoalLocation, source: &str, workspace: &str) -> (r: GoalStep)
    ensures
        r@ == goal_start(at@, source@, workspace@),
{
    let Some(line) = at.line else {
        return GoalStep::Done(show_source_instead(at, source, workspace, None, true));
    };
    if at.more {
        return GoalStep::Done(show_source_instead(at, source, workspace, None, true));
    }
    if !at.probe {
        return GoalStep::Done(
            show_source_instead(at, source, workspace, Some("source only"), true),
        );
    }
    match goal_probe(source, line) {
        Some(goal) => GoalStep::Try(goal),
        None => GoalStep::Done(
            show_source_instead(at, source, workspace, Some("source only"), false),
        ),
    }
}

/// A result with a goal or a tactic.
pub open spec fn goal_hit(
    name: Seq<char>,
    kind: Seq<char>,
    path: Seq<char>,
    line: u64,
    text: Seq<char>,
    applicable: bool,
) -> HitView {
    HitView {
        name,
        kind,
        signature: None,
        module: ""@,
        path,
        line,
        doc: None,
        source: Some(text),
        usages: Seq::empty(),
        applicable,
        required_import: None,
    }
}

fn make_goal_hit(name: &str, kind: &str, path: &str, line: u64, text: &str, applicable: bool) -> (r:
    SearchHit)
    ensures
        r@ == goal_hit(name@, kind@, path@, line, text@, applicable),
{
    let usages: Vec<SearchUsage> = Vec::new();
    assert(usage_views(usages@) =~= Seq::empty());
    SearchHit {
        name: own(name),
        kind: own(kind),
        signature: None,
        module: own(""),
        path: own(path),
        line,
        doc: None,
        source: Some(own(text)),
        usages,
        applicable,
        required_import: None,
    }
}

/// The results for tactics.
pub open spec fn tactic_hits(list: Seq<Seq<char>>, path: Seq<char>, line: u64) -> Seq<HitView> {
    list.map_values(|t: Seq<char>| goal_hit(one_line(t), "goal"@, path, line, t, true))
}

/// Suggestions added to those that are known, without the marks of what they do.
pub open spec fn all_suggested(known: Seq<Seq<char>>, list: Seq<Seq<char>>) -> Seq<Seq<char>>
    decreases list.len(),
{
    if list.len() == 0 {
        known
    } else {
        suggested(all_suggested(known, list.drop_last()), list.last())
    }
}

/// The tactics that an answer lists: the one that was tried and closed the goal, then
/// those that Lean suggested.
pub open spec fn goal_tactics(rendered: Seq<char>, accepted: Option<Seq<char>>) -> Seq<Seq<char>> {
    all_suggested(
        match accepted {
            Some(t) => seq![t],
            None => Seq::empty(),
        },
        suggestions_from(line_list(rendered), 0, Seq::empty()),
    )
}

/// The answer to a request for a goal, after Lean has elaborated the source, with the
/// tactic that was found to close the goal.
pub open spec fn goal_answer(
    at: GoalLocationView,
    source: Seq<char>,
    workspace: Seq<char>,
    rendered: Seq<char>,
    accepted: Option<Seq<char>>,
) -> ResultView {
    let state = goal_in_output(rendered);
    let tactics = goal_tactics(rendered, accepted);
    let path = path_shown(at.path, workspace);
    let line = match at.line {
        Some(n) => n,
        None => 0,
    };
    if tactics.len() == 0 && state is None {
        let list = line_list(rendered);
        source_instead(
            at,
            source,
            workspace,
            Some(
                match last_unblank(list, list.len()) {
                    Some(text) => "goal search returned no tactic suggestion: "@ + one_line(text),
                    None => "goal search returned no tactic suggestion"@,
                },
            ),
            false,
        )
    } else {
        ResultView {
            hits: (match state {
                Some(text) => seq![goal_hit("goal"@, "goal-state"@, path, line, text, false)],
                None => Seq::empty(),
            }) + tactic_hits(tactics, path, line),
            inference: "goal"@,
            note: if tactics.len() == 0 {
                Some("no tactic suggestion"@)
            } else {
                None
            },
            ok: true,
        }
    }
}

/// Computes [`goal_answer`].
pub fn goal_search(
    at: &GoalLocation,
    source: &str,
    workspace: &str,
    rendered: &str,
    accepted: Option<&str>,
) -> (r: SearchResult)
    ensures
        r@ == goal_answer(at@, source@, workspace@, rendered@, opt_str(accepted)),
{
    let state = traced_goal_state(rendered);
    let mut tactics: Vec<String> = Vec::new();
    if let Some(t) = accepted {
        tactics.push(own(t));
        assert(strings(tactics@) =~= seq![t@]);
    } else {
        assert(strings(tactics@) =~= Seq::empty());
    }
    let found = try_this_suggestions(rendered);
    let ghost views = strings(found@);
    let ghost first = strings(tactics@);
    for i in 0..found.len()
        invariant
            views == strings(found@),
            strings(tactics@) == all_suggested(first, views.take(i as int)),
    {
        proof {
            prefix_step(views, i as int);
        }
        assert(views[i as int] == found@[i as int]@);
        push_suggestion(&mut tactics, found[i].as_str());
    }
    proof {
        prefix_all(views);
    }
    assert(strings(tactics@).len() == tactics.len());
    if tactics.len() == 0 && state.is_none() {
        let list = lines(rendered);
        assert(strs(list@).len() == list.len());
        let detail = match find_last_unblank(&list) {
            Some(text) => cat2(
                "goal search returned no tactic suggestion: ",
                single_line(text).as_str(),
            ),
            None => own("goal search returned no tactic suggestion"),
        };
        return show_source_instead(at, source, workspace, Some(detail.as_str()), false);
    }
    let path = show_name(&None, at.path.as_str(), workspace);
    let line = match at.line {
        Some(n) => n,
        None => 0,
    };
    let mut hits: Vec<SearchHit> = Vec::new();
    if let Some(text) = &state {
        hits.push(make_goal_hit("goal", "goal-state", path.as_str(), line, text.as_str(), false));
        assert(hit_views(hits@) =~= seq![
            goal_hit("goal"@, "goal-state"@, path@, line, text@, false),
        ]);
    } else {
        assert(hit_views(hits@) =~= Seq::empty());
    }
    let ghost head = hit_views(hits@);
    let ghost wanted = tactic_hits(strings(tactics@), path@, line);
    assert(hit_views(hits@) =~= head + wanted.take(0));
    for i in 0..tactics.len()
        invariant
            wanted == tactic_hits(strings(tactics@), path@, line),
            hit_views(hits@) == head + wanted.take(i as int),
    {
        proof {
            prefix_step(wanted, i as int);
        }
        let text = tactics[i].as_str();
        let name = single_line(text);
        hits.push(make_goal_hit(name.as_str(), "goal", path.as_str(), line, text, true));
        assert(hit_views(hits@) =~= head + wanted.take(i + 1));
    }
    proof {
        prefix_all(wanted);
    }
    SearchResult {
        hits,
        inference: own("goal"),
        note: if tactics.len() == 0 {
            Some(own("no tactic suggestion"))
        } else {
            None
        },
        ok: true,
    }
}

/// No suggestion leaves a proof open, and none is listed twice.
pub proof fn suggestions_close_their_goals(known: Seq<Seq<char>>, suggestion: Seq<char>)
    requires
        forall|i: int| 0 <= i < known.len() ==> !has_placeholder(#[trigger] known[i]),
        forall|i: int, j: int|
            0 <= i < j < known.len() ==> (#[trigger] known[i]) != (#[trigger] known[j]),
    ensures
        forall|i: int|
            0 <= i < suggested(known, suggestion).len() ==> !has_placeholder(
                #[trigger] suggested(known, suggestion)[i],
            ),
        forall|i: int, j: int|
            0 <= i < j < suggested(known, suggestion).len() ==> (#[trigger] suggested(
                known,
                suggestion,
            )[i]) != (#[trigger] suggested(known, suggestion)[j]),
{
}

} // verus!
