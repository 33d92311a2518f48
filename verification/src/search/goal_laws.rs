//! What a search for a goal tries and tells, on every input.
use crate::search::goal::{
    all_suggested, arithmetic_goal, compositions, goal_among, goal_answer, goal_in_output,
    goal_near, goal_on_line, goal_start, goal_tactics, has_placeholder, hypotheses, last_space,
    line_index, method_candidates, place_parts, placeholder_in, probe_text, probed, sans_more,
    stated_goal, suggested, suggestion_step, suggestions_from, type_head, unmarked, whole_line,
    with_tactic, GoalLocationView, GoalStepView,
};
use crate::search::source::starts_of;
use crate::text::chain::{label_begins, part_ends};
use crate::text::class::{any_of, Class};
use crate::text::make::{alike, byte_length};
use crate::text::number::{decimal, decimal_reads_back, number};
use crate::text::pieces::line_list;
use crate::text::scan::{
    bare, bare_end, begins, char_index, cut, ends, find_from_is_first, found_in_part, has_text,
    occurs_at, rcut, rfind_from_is_last, rfind_text, subtext,
};
use crate::text::utf8::bytes_of_concatenation;
use vstd::prelude::*;
use vstd::utf8::encode_utf8;

verus! {

/// The character that as many bytes lead to as the first characters take is the one
/// behind them.
pub proof fn bytes_lead_back(text: Seq<char>, n: int)
    requires
        0 <= n <= text.len(),
        encode_utf8(text).len() <= usize::MAX,
    ensures
        char_index(text, byte_length(text.take(n)) as int) == n,
    decreases n,
{
    bytes_of_concatenation(text.take(n), text.skip(n));
    assert(text.take(n) + text.skip(n) =~= text);
    if n == 0 {
        assert(text.take(0) =~= Seq::empty());
        assert(encode_utf8(Seq::<char>::empty()) =~= Seq::empty());
    } else {
        let rest = text.skip(1);
        bytes_of_concatenation(seq![text[0]], rest);
        assert(seq![text[0]] + rest =~= text);
        bytes_lead_back(rest, n - 1);
        assert(text.take(n) =~= seq![text[0]] + rest.take(n - 1));
        bytes_of_concatenation(seq![text[0]], rest.take(n - 1));
        crate::text::utf8::bytes_of_character(text[0]);
        crate::text::utf8::width_counts_bytes(text[0]);
    }
}

proof fn starts_stand(source: Seq<char>, i: int)
    requires
        0 <= i < starts_of(source).len(),
    ensures
        0 <= starts_of(source)[i] <= source.len(),
        i + 1 < starts_of(source).len() ==> starts_of(source)[i] <= starts_of(source)[i + 1],
    decreases source.len(),
{
    if source.len() > 0 {
        let shorter = source.drop_last();
        if i < starts_of(shorter).len() {
            starts_stand(shorter, i);
            if i + 1 < starts_of(shorter).len() {
                starts_stand(shorter, i + 1);
            }
        }
    }
}

proof fn placeholder_stands(line: Seq<char>)
    requires
        placeholder_in(line) is Some,
    ensures
        ({
            let (before, placeholder) = placeholder_in(line)->0;
            &&& placeholder == "sorry"@ || placeholder == "admit"@
            &&& before.len() + placeholder.len() <= line.len()
            &&& before == line.take(before.len() as int)
            &&& line.subrange(before.len() as int, (before.len() + placeholder.len()) as int)
                == placeholder
        }),
{
    find_from_is_first(line, "sorry"@, 0);
    find_from_is_first(line, "admit"@, 0);
}

/// An open goal stands where the source has a placeholder, and a tactic is tried in just
/// its place: what stands before and behind it stays.
pub proof fn tactics_replace_placeholders(
    source: Seq<char>,
    line: int,
    tactic: Seq<char>,
) -> (at: int)
    requires
        0 <= line < starts_of(source).len(),
        goal_on_line(source, line) is Some,
        encode_utf8(source).len() <= usize::MAX,
    ensures
        ({
            let goal = goal_on_line(source, line)->0;
            let text = probe_text(goal.in_tactic, goal.indent, tactic);
            &&& starts_of(source)[line] <= at
            &&& at + 5 <= source.len()
            &&& source.subrange(at, at + 5) == "sorry"@ || source.subrange(at, at + 5) == "admit"@
            &&& goal.start == byte_length(source.take(at))
            &&& goal.end == byte_length(source.take(at + 5))
            &&& probed(source, goal, tactic) == source.take(at) + text + source.skip(at + 5)
        }),
{
    let text = whole_line(source, line);
    let (before, placeholder) = placeholder_in(text)->0;
    let start = starts_of(source)[line];
    starts_stand(source, line);
    if line + 1 < starts_of(source).len() {
        starts_stand(source, line + 1);
    }
    placeholder_stands(text);
    reveal_strlit("sorry");
    reveal_strlit("admit");
    let at = start + before.len();
    assert(text =~= source.subrange(start, start + text.len()));
    assert(source.subrange(at, at + 5) =~= text.subrange(
        before.len() as int,
        (before.len() + 5) as int,
    ));
    bytes_lead_back(source, at);
    bytes_lead_back(source, at + 5);
    at
}

/// Where the line that is asked for has a placeholder, the goal there is meant; else one
/// on the line before, then on the line after, then two lines before, and then two lines
/// after.
pub proof fn the_nearest_goal_is_meant(source: Seq<char>, line: u64)
    ensures
        ({
            let n = starts_of(source).len();
            let here = line_index(line);
            let open = |i: int| goal_on_line(source, i) is Some;
            &&& here >= n ==> goal_near(source, line) is None
            &&& here < n && open(here) ==> goal_near(source, line) == goal_on_line(source, here)
            &&& 1 <= here < n && !open(here) && open(here - 1) ==> goal_near(source, line)
                == goal_on_line(source, here - 1)
            &&& 1 <= here && here + 1 < n && !open(here) && !open(here - 1) && open(here + 1)
                ==> goal_near(source, line) == goal_on_line(source, here + 1)
            &&& 2 <= here && here + 1 < n && !open(here) && !open(here - 1) && !open(here + 1)
                && open(here - 2) ==> goal_near(source, line) == goal_on_line(source, here - 2)
            &&& 2 <= here && here + 2 < n && !open(here) && !open(here - 1) && !open(here + 1)
                && !open(here - 2) && open(here + 2) ==> goal_near(source, line) == goal_on_line(
                source,
                here + 2,
            )
        }),
{
    reveal_with_fuel(goal_among, 7);
}

/// A line with a placeholder leaves a goal open.
pub proof fn placeholders_leave_goals_open(source: Seq<char>, line: int)
    ensures
        goal_on_line(source, line) is Some <==> has_text(whole_line(source, line), "sorry"@)
            || has_text(whole_line(source, line), "admit"@),
{
    crate::text::scan::find_iff_has(whole_line(source, line), "sorry"@);
    crate::text::scan::find_iff_has(whole_line(source, line), "admit"@);
}

/// What takes the place of a goal ends with the tactic, and has Lean tell the goal between
/// its marks before; outside of a proof by tactics it opens one.
pub proof fn probes_tell_the_goal_first(in_tactic: bool, indent: Seq<char>, tactic: Seq<char>)
    ensures
        ends(probe_text(in_tactic, indent, tactic), tactic),
        has_text(
            probe_text(in_tactic, indent, tactic),
            "MATHMUX_GOAL_BEGIN\\n{state}\\nMATHMUX_GOAL_END"@,
        ),
        in_tactic ==> begins(probe_text(in_tactic, indent, tactic), "run_tac\n"@),
        !in_tactic ==> begins(probe_text(in_tactic, indent, tactic), "by\n"@),
{
    let text = probe_text(in_tactic, indent, tactic);
    let marks = "MATHMUX_GOAL_BEGIN\\n{state}\\nMATHMUX_GOAL_END"@;
    reveal_strlit("MATHMUX_GOAL_BEGIN\\n{state}\\nMATHMUX_GOAL_END");
    if in_tactic {
        let first = "run_tac\n"@;
        let log = "  Lean.logInfo m!\"MATHMUX_GOAL_BEGIN\\n{state}\\nMATHMUX_GOAL_END\"\n"@;
        reveal_strlit("  Lean.logInfo m!\"MATHMUX_GOAL_BEGIN\\n{state}\\nMATHMUX_GOAL_END\"\n");
        let i = 18int;
        assert(log.subrange(i, i + marks.len()) =~= marks);
        assert(occurs_at(log, marks, i));
        let front = "run_tac\n"@ + indent + "  let goal ← Lean.Elab.Tactic.getMainGoal\n"@ + indent
            + "  let state ← Lean.Meta.ppGoal goal\n"@ + indent;
        found_in_part(front, log, indent + tactic, marks);
        assert(text =~= front + log + (indent + tactic));
        part_ends(front + log + indent, tactic);
        assert(text.take(first.len() as int) =~= first);
    } else {
        let first = "by\n"@;
        let log = "    Lean.logInfo m!\"MATHMUX_GOAL_BEGIN\\n{state}\\nMATHMUX_GOAL_END\"\n"@;
        reveal_strlit("    Lean.logInfo m!\"MATHMUX_GOAL_BEGIN\\n{state}\\nMATHMUX_GOAL_END\"\n");
        let i = 20int;
        assert(log.subrange(i, i + marks.len()) =~= marks);
        assert(occurs_at(log, marks, i));
        let front = "by\n"@ + indent + "  run_tac\n"@ + indent
            + "    let goal ← Lean.Elab.Tactic.getMainGoal\n"@ + indent
            + "    let state ← Lean.Meta.ppGoal goal\n"@ + indent;
        found_in_part(front, log, indent + "  "@ + tactic, marks);
        assert(text =~= front + log + (indent + "  "@ + tactic));
        part_ends(front + log + indent + "  "@, tactic);
        assert(text.take(first.len() as int) =~= first);
    }
}

proof fn block_end_stands(source: Seq<char>, i: int, width: nat)
    requires
        0 <= i,
    ensures
        0 <= crate::search::goal::block_end(source, i, width) <= source.len(),
    decreases starts_of(source).len() - i,
{
    if i < starts_of(source).len() {
        starts_stand(source, i);
        block_end_stands(source, i + 1, width);
    }
}

proof fn opening_stands(source: Seq<char>, i: int, stop: int)
    requires
        0 <= i,
    ensures
        crate::search::goal::opening_from(source, i, stop) matches Some(k) ==> i <= k
            < starts_of(source).len(),
    decreases stop - i + 1,
{
    if i <= stop && i < starts_of(source).len() {
        opening_stands(source, i + 1, stop);
    }
}

proof fn opening_before_stands(source: Seq<char>, i: int, stop: int)
    requires
        0 <= stop,
    ensures
        crate::search::goal::opening_before(source, i, stop) matches Some(k) ==> stop <= k < i && k
            < starts_of(source).len(),
    decreases i - stop,
{
    if i > stop {
        opening_before_stands(source, i - 1, stop);
    }
}

/// A tactic that is added to a block goes on a line of its own, and nothing of the source
/// changes: it is cut in two, and the line put between.
pub proof fn added_tactics_keep_the_source(source: Seq<char>, line: u64, tactic: Seq<char>) -> (
    end: int)
    requires
        with_tactic(source, line, tactic) is Some,
    ensures
        0 <= end <= source.len(),
        begins(with_tactic(source, line, tactic)->0, source.take(end)),
        ends(with_tactic(source, line, tactic)->0, tactic + "\n"@ + source.skip(end)),
        with_tactic(source, line, tactic)->0.len() > source.len() + tactic.len(),
{
    let here = line_index(line);
    opening_stands(source, here, here + 20);
    opening_before_stands(
        source,
        here,
        if here < 80 {
            0
        } else {
            here - 80
        },
    );
    let at = crate::search::goal::block_line(source, here)->0;
    let opening = whole_line(source, at);
    let width = crate::search::goal::indent_width(opening);
    let end = crate::search::goal::block_end(source, at + 1, width);
    block_end_stands(source, at + 1, width);
    let before = subtext(source, 0, end);
    assert(before =~= source.take(end));
    assert(subtext(source, end, source.len() as int) =~= source.skip(end));
    let text = with_tactic(source, line, tactic)->0;
    let gap = if end > 0 && !ends(before, "\n"@) {
        "\n"@
    } else {
        ""@
    };
    let front = before + gap + opening.take(width as int) + "  "@;
    reveal_strlit("  ");
    reveal_strlit("\n");
    reveal_strlit("");
    assert(text =~= front + (tactic + "\n"@ + source.skip(end)));
    part_ends(front, tactic + "\n"@ + source.skip(end));
    assert(text.take(end) =~= source.take(end));
    end
}

proof fn known_stay(list: Seq<Seq<char>>, i: int, known: Seq<Seq<char>>, k: int)
    requires
        0 <= k < known.len(),
    ensures
        suggestions_from(list, i, known).len() >= known.len(),
        suggestions_from(list, i, known)[k] == known[k],
    decreases list.len() - i,
{
    if 0 <= i < list.len() {
        let (next, more) = suggestion_step(list, i, known);
        if i < next <= list.len() {
            known_stay(list, next, more, k);
        }
    }
}

proof fn passed_over(list: Seq<Seq<char>>, i: int, at: int)
    requires
        0 <= i <= at < list.len(),
        forall|k: int| i <= k < at ==> !has_text(#[trigger] list[k], "Try this:"@),
    ensures
        suggestions_from(list, i, Seq::empty()) == suggestions_from(list, at, Seq::empty()),
    decreases at - i,
{
    if i < at {
        crate::text::scan::find_iff_has(list[i], "Try this:"@);
        passed_over(list, i + 1, at);
    }
}

/// The first suggestion of some output that stands on the line of its announcement is the
/// first that is listed, unless it leaves a proof open.
pub proof fn the_first_suggestion_is_listed(list: Seq<Seq<char>>, at: int)
    requires
        0 <= at < list.len(),
        forall|k: int| 0 <= k < at ==> !has_text(#[trigger] list[k], "Try this:"@),
        cut(list[at], "Try this:"@) is Some,
        bare((cut(list[at], "Try this:"@)->0).1).len() > 0,
        !has_placeholder(unmarked(bare((cut(list[at], "Try this:"@)->0).1))),
    ensures
        suggestions_from(list, 0, Seq::empty()).len() > 0,
        suggestions_from(list, 0, Seq::empty())[0] == unmarked(
            bare((cut(list[at], "Try this:"@)->0).1),
        ),
{
    passed_over(list, 0, at);
    let s = unmarked(bare((cut(list[at], "Try this:"@)->0).1));
    let known = suggested(Seq::empty(), bare((cut(list[at], "Try this:"@)->0).1));
    assert(known =~= seq![s]);
    known_stay(list, at + 1, known, 0);
}

/// A suggestion is taken without the mark of what it does.
pub proof fn suggestions_lose_their_marks(tactic: Seq<char>)
    ensures
        unmarked("[apply] "@ + tactic) == tactic,
        unmarked("[exact] "@ + tactic) == tactic,
        !begins(tactic, "[apply] "@) && !begins(tactic, "[exact] "@) ==> unmarked(tactic) == tactic,
{
    label_begins("[apply] "@, tactic);
    label_begins("[exact] "@, tactic);
    assert(("[apply] "@ + tactic).skip("[apply] "@.len() as int) =~= tactic);
    assert(("[exact] "@ + tactic).skip("[exact] "@.len() as int) =~= tactic);
    reveal_strlit("[apply] ");
    reveal_strlit("[exact] ");
    let text = "[exact] "@ + tactic;
    if begins(text, "[apply] "@) {
        assert(text.take(8)[1] == "[apply] "@[1]);
    }
}

/// A tactic composes two hypotheses.
pub open spec fn composes(tactic: Seq<char>, a: Seq<char>, b: Seq<char>) -> bool {
    tactic == "exact "@ + a + ".comp "@ + b || tactic == "exact "@ + a + ".trans "@ + b
}

proof fn compositions_compose(
    names: Seq<Seq<char>>,
    i: int,
    j: int,
    known: Seq<Seq<char>>,
    k: int,
)
    requires
        0 <= i,
        0 <= j,
        0 <= k < compositions(names, i, j, known).len(),
    ensures
        compositions(names, i, j, known).len() >= known.len(),
        k < known.len() ==> compositions(names, i, j, known)[k] == known[k],
        k >= known.len() ==> exists|a: int, b: int|
            0 <= a < names.len() && 0 <= b < names.len() && names[a] != names[b] && composes(
                compositions(names, i, j, known)[k],
                #[trigger] names[a],
                #[trigger] names[b],
            ),
    decreases names.len() - i, names.len() - j,
{
    if i >= names.len() {
    } else if j >= names.len() {
        compositions_compose(names, i + 1, 0, known, k);
    } else if names[i] == names[j] {
        compositions_compose(names, i, j + 1, known, k);
    } else {
        let more = known.push("exact "@ + names[i] + ".comp "@ + names[j]).push(
            "exact "@ + names[i] + ".trans "@ + names[j],
        );
        if more.len() < 8 {
            compositions_compose(names, i, j + 1, more, k);
        }
        if known.len() <= k < more.len() {
            assert(composes(more[k], names[i], names[j]));
        }
    }
}

/// What is tried on a goal is arithmetic, first, just where the goal is a comparison with
/// sums or products, and then compositions of two different hypotheses whose types begin
/// like the goal.
pub proof fn tried_methods_fit_the_goal(state: Seq<char>, k: int)
    requires
        0 <= k < method_candidates(state).len(),
    ensures
        stated_goal(line_list(state), 0) is Some,
        ({
            let goal = stated_goal(line_list(state), 0)->0;
            let compared = any_of(goal, Class::Only("=≤<")) && any_of(goal, Class::Only("+-*"));
            let names = hypotheses(line_list(state), type_head(goal)->0);
            &&& compared ==> method_candidates(state)[0] == "omega"@
            &&& k > 0 || !compared ==> exists|a: int, b: int|
                0 <= a < names.len() && 0 <= b < names.len() && names[a] != names[b] && composes(
                    method_candidates(state)[k],
                    #[trigger] names[a],
                    #[trigger] names[b],
                )
        }),
{
    let goal = stated_goal(line_list(state), 0)->0;
    let names = hypotheses(line_list(state), type_head(goal)->0);
    let known = if arithmetic_goal(goal) {
        seq!["omega"@]
    } else {
        Seq::empty()
    };
    compositions_compose(names, 0, 0, known, k);
    compositions_compose(names, 0, 0, known, 0);
}

proof fn suggested_keeps(known: Seq<Seq<char>>, list: Seq<Seq<char>>, k: int)
    requires
        0 <= k < known.len(),
    ensures
        all_suggested(known, list).len() >= known.len(),
        all_suggested(known, list)[k] == known[k],
    decreases list.len(),
{
    if list.len() > 0 {
        suggested_keeps(known, list.drop_last(), k);
    }
}

/// The answer to a request for a goal: the goal comes first where it was traced, as a state
/// and not to be applied, then the tactic that was found to close it, and then every other
/// suggestion, each to be applied as it stands. It is no failure where there is any of
/// them, and says so where there is a goal but no tactic.
pub proof fn goals_are_answered(
    at: GoalLocationView,
    source: Seq<char>,
    workspace: Seq<char>,
    rendered: Seq<char>,
    accepted: Option<Seq<char>>,
    k: int,
)
    ensures
        ({
            let r = goal_answer(at, source, workspace, rendered, accepted);
            let state = goal_in_output(rendered);
            let tactics = goal_tactics(rendered, accepted);
            let first = if state is Some {
                1int
            } else {
                0
            };
            &&& accepted matches Some(t) ==> tactics.len() > 0 && tactics[0] == t
            &&& state is Some || tactics.len() > 0 ==> r.ok && r.inference == "goal"@
                && r.hits.len() == first + tactics.len()
            &&& state matches Some(text) ==> r.hits[0].kind == "goal-state"@ && r.hits[0].source
                == Some(text) && !r.hits[0].applicable
            &&& 0 <= k < tactics.len() ==> r.hits[first + k].source == Some(tactics[k])
                && r.hits[first + k].applicable && r.hits[first + k].kind == "goal"@
            &&& state is Some && tactics.len() == 0 ==> r.note == Some("no tactic suggestion"@)
            &&& tactics.len() > 0 ==> r.note is None
            &&& state is None && tactics.len() == 0 ==> !r.ok
        }),
{
    if let Some(t) = accepted {
        suggested_keeps(seq![t], suggestions_from(line_list(rendered), 0, Seq::empty()), 0);
    }
}

/// A goal is tried just where a line of a file of the project is asked for, without more,
/// and a placeholder stands near it.
pub proof fn only_open_goals_are_tried(
    at: GoalLocationView,
    source: Seq<char>,
    workspace: Seq<char>,
)
    ensures
        goal_start(at, source, workspace) is Try <==> at.probe && !at.more && at.line is Some
            && goal_near(source, at.line->0) is Some,
        goal_start(at, source, workspace) matches GoalStepView::Try(goal) ==> Some(goal)
            == goal_near(source, at.line->0),
{
}

proof fn last_cut(front: Seq<char>, tail: Seq<char>)
    requires
        !tail.contains(':'),
    ensures
        rcut(front + ":"@ + tail, ":"@) == Some((front, tail)),
{
    reveal_strlit(":");
    let text = front + ":"@ + tail;
    let n = front.len() as int;
    assert(text.subrange(n, n + 1) =~= ":"@);
    assert(occurs_at(text, ":"@, n));
    rfind_from_is_last(text, ":"@, text.len() - 1);
    let found = rfind_text(text, ":"@);
    if let Some(i) = found {
        if i > n && i < text.len() {
            assert(text.subrange(i, i + 1)[0] == ':');
            assert(tail[i - n - 1] == ':');
        }
    }
    assert(text.take(n) =~= front);
    assert(text.skip(n + 1) =~= tail);
}

proof fn numbers_have_no_colon(n: u64)
    ensures
        !decimal(n as nat).contains(':'),
        crate::search::locations::numeral(decimal(n as nat)),
        number(decimal(n as nat), u64::MAX as nat) == Some(n as nat),
{
    decimal_reads_back(n as nat, u64::MAX as nat);
    crate::text::number::decimal_digits(n as nat);
    let text = decimal(n as nat);
    if text.contains(':') {
        let i = text.index_of(':');
        assert(crate::text::class::digit(text[i]));
    }
}

/// A file with a line names that line, with or without a column behind it; a file with
/// `tail` names its end.
pub proof fn places_name_their_lines(path: Seq<char>, line: u64, column: u64)
    requires
        path.len() > 0,
        !path.contains(':'),
        !crate::search::locations::numeral(path),
    ensures
        place_parts(path + ":"@ + decimal(line as nat)) == Some((path, Some(line))),
        place_parts(path + ":"@ + decimal(line as nat) + ":"@ + decimal(column as nat)) == Some(
            (path, Some(line)),
        ),
        place_parts(path + ":"@ + "tail"@) == Some((path, None::<u64>)),
{
    numbers_have_no_colon(line);
    numbers_have_no_colon(column);
    reveal_strlit("tail");
    reveal_strlit(":");
    last_cut(path, decimal(line as nat));
    last_cut(path + ":"@ + decimal(line as nat), decimal(column as nat));
    last_cut(path, "tail"@);
    crate::text::number::decimal_digits(line as nat);
    crate::text::number::decimal_digits(column as nat);
    assert(!alike(decimal(line as nat), "tail"@)) by {
        digits_are_not_tail(line);
    }
    assert(!alike(decimal(column as nat), "tail"@)) by {
        digits_are_not_tail(column);
    }
    no_colon_no_cut(path);
}

proof fn no_colon_no_cut(text: Seq<char>)
    requires
        !text.contains(':'),
    ensures
        rcut(text, ":"@) is None,
{
    reveal_strlit(":");
    rfind_from_is_last(text, ":"@, text.len() - 1);
    if let Some(i) = rfind_text(text, ":"@) {
        assert(text.subrange(i, i + 1)[0] == ':');
        assert(text[i] == ':');
    }
}

proof fn digits_are_not_tail(n: u64)
    ensures
        !alike(decimal(n as nat), "tail"@),
{
    reveal_strlit("tail");
    crate::text::number::decimal_digits(n as nat);
    let text = decimal(n as nat);
    if alike(text, "tail"@) {
        let a = crate::text::make::lower(text);
        let b = crate::text::make::lower("tail"@);
        assert(a[0] == b[0]);
        assert(crate::text::class::digit(text[0]));
    }
}

proof fn space_is_last(text: Seq<char>, n: nat, at: int)
    requires
        0 <= at < n <= text.len(),
        crate::text::class::whitespace(text[at]),
        forall|k: int| at < k < n ==> !crate::text::class::whitespace(#[trigger] text[k]),
    ensures
        last_space(text, n) == Some(at),
    decreases n,
{
    if at < n - 1 {
        space_is_last(text, (n - 1) as nat, at);
    }
}

/// A request asks for more by its last word.
pub proof fn the_last_word_asks_for_more(query: Seq<char>)
    ensures
        sans_more(query + " more"@) == (bare_end(query), true),
{
    reveal_strlit(" more");
    reveal_strlit("more");
    let text = query + " more"@;
    let n = query.len() as int;
    assert(text[n] == ' ');
    space_is_last(text, text.len(), n);
    assert(text.skip(n + 1) =~= "more"@);
    assert(text.take(n) =~= query);
}

} // verus!
