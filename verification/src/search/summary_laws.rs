//! What summaries, groups of lines and messages tell, on every input.
use crate::search::diagnostics::{
    context_body, defeq_detail, expression, goal_detail, last_goal, listing_from, listing_line,
    message_context, middle_cut, position_in, rewrite_detail, same_end_from, same_from, shown_words,
    type_detail, word_difference,
};
use crate::search::display::{
    complete_header, displayed_source, hit_heading, miss_hint, next_focus, place_part,
    plainly_empty, preview_state, range_note, signature_part, source_line_limit, source_lines,
    summary, summary_count, summary_head, tail_head, usage_part, usage_lines, verdict, warming_note,
};
use crate::search::groups::{
    empty_group, group_hit, lines_held, lines_omitted, regex_answer, same_group, with_line,
    GroupView,
};
use crate::search::records::{HitView, RunView};
use crate::search::spans::{span_at, span_at_is_last, spans_line, SpanView};
use crate::search::tokens::{
    camel_from, concept_alias, leaf, passing, wants_body, word_boundary, TokenTest,
};
use crate::text::chain::{
    chain, chain_one, label_begins, no_mark_no_cut, part_ends, pushed_holds, rcut_at_mark,
};
use crate::text::layout::{front, listed};
use crate::text::make::joined;
use crate::text::number::{decimal, number};
use crate::text::pieces::line_list;
use crate::text::scan::{bare_start, begins, cut, ends, found_between, has_text};
use vstd::prelude::*;

verus! {

/// A group counts every line that it is given and shows the first three of them.
pub proof fn groups_count_their_lines(g: GroupView, line: u64, text: Seq<char>)
    requires
        g.count < usize::MAX,
    ensures
        with_line(g, line, text).count == g.count + 1,
        g.matches.len() < 3 ==> with_line(g, line, text).matches.len() == g.matches.len() + 1
            && with_line(g, line, text).matches.drop_last() == g.matches && begins(
            with_line(g, line, text).matches.last(),
            ">"@ + crate::text::number::right_aligned(decimal(line as nat), 5) + " | "@,
        ),
        g.matches.len() >= 3 ==> with_line(g, line, text).matches == g.matches,
        same_group(g, with_line(g, line, text)),
{
    let next = with_line(g, line, text);
    if g.matches.len() < 3 {
        assert(next.matches.drop_last() =~= g.matches);
        label_begins(
            ">"@ + crate::text::number::right_aligned(decimal(line as nat), 5) + " | "@,
            crate::text::scan::bare_end(text),
        );
    }
}

/// A line belongs to the last declaration around it, and to itself where there is none.
pub proof fn lines_belong_to_their_declaration(path: Seq<char>, spans: Seq<SpanView>, line: u64)
    ensures
        ({
            let g = empty_group(path, spans, line);
            &&& g.path == path && g.count == 0 && g.matches.len() == 0
            &&& (forall|i: int|
                0 <= i < spans.len() ==> !((#[trigger] spans[i]).start <= line <= spans[i].end))
                ==> g.start == line && g.end == line && g.name == "source match at "@ + path + ":"@
                + decimal(line as nat)
            &&& (exists|i: int|
                0 <= i < spans.len() && (#[trigger] spans[i]).start <= line <= spans[i].end)
                ==> g.start <= line <= g.end && exists|i: int|
                0 <= i < spans.len() && g.name == (#[trigger] spans[i]).name && g.start
                    == spans[i].start && g.end == spans[i].end
        }),
{
    span_at_is_last(spans, line, spans.len());
    match span_at(spans, line, spans.len()) {
        Some(i) => {
            assert(spans_line(spans[i], line));
            assert(empty_group(path, spans, line).name == spans[i].name);
        },
        None => {
            assert forall|i: int| 0 <= i < spans.len() implies !((#[trigger] spans[i]).start <= line
                <= spans[i].end) by {
                assert(!spans_line(spans[i], line));
            }
        },
    }
}

/// A group is told with its number of lines, in the singular where there is one, and with
/// the lines of its declaration.
pub proof fn groups_are_told(g: GroupView)
    ensures
        ({
            let hit = group_hit(g);
            let place = "; lines "@ + decimal(g.start as nat) + "-"@ + decimal(g.end as nat);
            &&& hit.name == g.name && hit.path == g.path && hit.line == g.start && hit.kind
                == "source-group"@
            &&& hit.source == Some(joined(g.matches, "\n"@))
            &&& g.count == 1 ==> begins(hit.signature->0, decimal(1) + " match"@ + ""@ + place)
            &&& g.count != 1 ==> begins(
                hit.signature->0,
                decimal(g.count as nat) + " match"@ + "es"@ + place,
            )
        }),
{
    let hit = group_hit(g);
    let head = decimal(g.count as nat) + " match"@ + (if g.count == 1 {
        ""@
    } else {
        "es"@
    }) + ("; lines "@ + decimal(g.start as nat) + "-"@ + decimal(g.end as nat));
    assert(hit.signature->0.take(head.len() as int) =~= head);
}

/// A search that ran out of time says so; one without a match says so; twelve groups are
/// shown, or forty where all are asked for, and the others are counted with their lines.
pub proof fn omitted_groups_are_counted(
    groups: Seq<GroupView>,
    total: usize,
    timed_out: bool,
    all: bool,
)
    ensures
        ({
            let answer = regex_answer(groups, total, timed_out, all);
            let limit: int = if all {
                40
            } else {
                12
            };
            &&& timed_out ==> answer.note == Some("source regex scan timed out; narrow the scope"@)
            &&& !timed_out && total == 0 ==> answer.note == Some("no regex source matches"@)
            &&& !timed_out && total > 0 && groups.len() <= limit ==> answer.note is None
            &&& !timed_out && total > 0 && groups.len() > limit ==> answer.note == Some(
                "+"@ + decimal(lines_omitted(groups, limit as nat, total) as nat) + " matches in "@
                    + decimal((groups.len() - limit) as nat)
                    + " declarations omitted; narrow the scope"@,
            )
            &&& groups.len() <= limit ==> answer.hits.len() == groups.len()
            &&& groups.len() > limit ==> answer.hits.len() == limit
            &&& forall|i: int|
                0 <= i < answer.hits.len() ==> #[trigger] answer.hits[i] == group_hit(groups[i])
        }),
{
}

/// The lines that are left out are those that the groups shown do not hold.
pub proof fn lines_are_held_or_left_out(groups: Seq<GroupView>, shown: nat, total: usize)
    ensures
        0 <= lines_held(groups, shown) <= total ==> lines_held(groups, shown) + lines_omitted(
            groups,
            shown,
            total,
        ) == total,
{
}

/// A signature without implicit binders is shown as it is.
pub proof fn plain_signatures_are_shown(text: Seq<char>)
    requires
        !text.contains('{'),
        !text.contains('['),
    ensures
        preview_state(text) == (text, 0nat, 0nat, None::<char>),
    decreases text.len(),
{
    if text.len() > 0 {
        let shorter = text.drop_last();
        if shorter.contains('{') {
            assert(text[shorter.index_of('{')] == '{');
        }
        if shorter.contains('[') {
            assert(text[shorter.index_of('[')] == '[');
        }
        assert(text[text.len() - 1] == text.last());
        plain_signatures_are_shown(shorter);
        assert(text =~= shorter.push(text.last()));
    } else {
        assert(text =~= Seq::<char>::empty());
    }
}

proof fn inside_binders(text: Seq<char>, inner: Seq<char>, open: char)
    requires
        preview_state(text).2 == 1,
        preview_state(text).3 == Some(open),
        open == '{' || open == '[',
        !inner.contains('{'),
        !inner.contains('['),
        !inner.contains('}'),
        !inner.contains(']'),
    ensures
        preview_state(text + inner) == preview_state(text),
    decreases inner.len(),
{
    if inner.len() == 0 {
        assert(text + inner =~= text);
    } else {
        let shorter = inner.drop_last();
        let c = inner.last();
        assert(inner[inner.len() - 1] == c);
        assert forall|d: char| shorter.contains(d) implies inner.contains(d) by {
            assert(inner[shorter.index_of(d)] == d);
        }
        inside_binders(text, shorter, open);
        assert((text + inner).drop_last() =~= text + shorter);
        assert((text + inner).last() == c);
    }
}

/// An implicit binder is hidden and counted, whatever stands in it.
pub proof fn implicit_binders_are_counted(text: Seq<char>, inner: Seq<char>)
    requires
        preview_state(text).2 == 0,
        !inner.contains('{'),
        !inner.contains('['),
        !inner.contains('}'),
        !inner.contains(']'),
    ensures
        ({
            let before = preview_state(text);
            let braced = preview_state(text.push('{') + inner + seq!['}']);
            let bracketed = preview_state(text.push('[') + inner + seq![']']);
            &&& braced.0 == before.0 && braced.1 == before.1 + 1 && braced.2 == 0
            &&& bracketed.0 == before.0 && bracketed.1 == before.1 + 1 && bracketed.2 == 0
        }),
{
    let a = text.push('{');
    let b = text.push('[');
    assert(a.drop_last() =~= text);
    assert(b.drop_last() =~= text);
    inside_binders(a, inner, '{');
    inside_binders(b, inner, '[');
    assert((a + inner + seq!['}']).drop_last() =~= a + inner);
    assert((b + inner + seq![']']).drop_last() =~= b + inner);
}

/// A miss never shows a source; a probe always does; a declaration that was looked up shows
/// it where its text is asked for and for its fields.
pub proof fn sources_are_shown_where_asked(run: RunView, hit: HitView, index: int)
    ensures
        run.inference == "exact-miss"@ ==> displayed_source(run, hit, index) is None,
        run.inference == "probe"@ ==> displayed_source(run, hit, index) == hit.source,
        run.inference == "exact"@ && (wants_body(run.query) || hit.kind == "fields"@)
            ==> displayed_source(run, hit, index) == hit.source,
        run.inference == "exact"@ && !wants_body(run.query) && hit.kind != "fields"@ && hit.kind
            != "class"@ && hit.kind != "inductive"@ && hit.kind != "structure"@
            ==> displayed_source(run, hit, index) is None,
{
    reveal_strlit("exact-miss");
    reveal_strlit("probe");
    reveal_strlit("exact");
    assert("probe"@[0] != "exact"@[0]);
    assert("exact"@.len() != "exact-miss"@.len() && "probe"@.len() != "exact-miss"@.len());
}

/// The first result of a search for a text is shown by forty-eight lines; any other by as
/// many as its kind has.
pub proof fn kinds_limit_their_source(hit: HitView, index: int, body: bool)
    ensures
        index == 0 && body ==> source_line_limit(hit, index, body) == 48,
        !body && (hit.kind == "class"@ || hit.kind == "inductive"@ || hit.kind == "structure"@)
            ==> source_line_limit(hit, index, body) == 16,
        !body && hit.kind == "theorem"@ ==> source_line_limit(hit, index, body) == 16,
        !body && hit.kind == "fields"@ ==> source_line_limit(hit, index, body) == 200,
        !body && hit.kind == "imports"@ ==> source_line_limit(hit, index, body) == 64,
        !body && hit.kind == "outline"@ ==> source_line_limit(hit, index, body) == 40,
        !body && hit.kind == "location"@ ==> source_line_limit(hit, index, body) == 32,
        !body && hit.kind == "source-range"@ ==> source_line_limit(hit, index, body) == 512,
        !body && hit.kind == "source-group"@ ==> source_line_limit(hit, index, body) == 3,
{
    reveal_strlit("class");
    reveal_strlit("inductive");
    reveal_strlit("structure");
    reveal_strlit("theorem");
    reveal_strlit("fields");
    reveal_strlit("imports");
    reveal_strlit("outline");
    reveal_strlit("location");
    reveal_strlit("location-expanded");
    reveal_strlit("source-range");
    reveal_strlit("source-occurrences");
    reveal_strlit("source-group");
    reveal_strlit("proof-outline");
    reveal_strlit("declaration-outline");
    reveal_strlit("declaration-neighborhood");
    reveal_strlit("declaration-dependencies");
    reveal_strlit("declaration-find");
    assert("theorem"@[0] == 't' && "imports"@[0] == 'i' && "outline"@[0] == 'o');
    assert("inductive"@[0] == 'i' && "structure"@[0] == 's');
    assert("source-range"@[7] == 'r' && "source-group"@[7] == 'g');
    assert("class"@.len() == 5 && "fields"@.len() == 6 && "theorem"@.len() == 7 && "location"@.len()
        == 8 && "inductive"@.len() == 9 && "structure"@.len() == 9 && "imports"@.len() == 7
        && "outline"@.len() == 7 && "source-range"@.len() == 12 && "source-group"@.len() == 12
        && "source-occurrences"@.len() == 18 && "location-expanded"@.len() == 17
        && "proof-outline"@.len() == 13 && "declaration-outline"@.len() == 19
        && "declaration-neighborhood"@.len() == 24 && "declaration-dependencies"@.len() == 24
        && "declaration-find"@.len() == 16);
}

/// A source that fits is shown whole; of a longer one a probe shows both ends and says how
/// many lines stand between them.
pub proof fn sources_that_fit_are_shown_whole(run: RunView, source: Seq<char>, limit: int)
    requires
        limit >= 1,
    ensures
        line_list(source).len() <= limit ==> source_lines(run, source, limit) == listed(
            crate::text::layout::short_lines(line_list(source), 200),
            "\n"@,
        ),
        line_list(source).len() > limit && run.inference == "probe"@ ==> has_text(
            source_lines(run, source, limit),
            "\n… "@ + decimal((line_list(source).len() - limit) as nat) + " lines omitted; show "@
                + run.reference + " --all"@,
        ),
{
    let list = line_list(source);
    if list.len() > limit && run.inference == "probe"@ {
        let head = (limit + 1) / 2;
        let first = listed(crate::text::layout::short_lines(front(list, head), 200), "\n"@);
        let own = "\n… "@ + decimal((list.len() - limit) as nat) + " lines omitted; show "@
            + run.reference + " --all"@;
        let rest = listed(
            crate::text::layout::short_lines(
                crate::text::layout::back(list, limit - head),
                200,
            ),
            "\n"@,
        );
        assert(source_lines(run, source, limit) =~= first + own + rest);
        found_between(first, own, rest);
    }
}

/// Usages are counted, in the singular where there is one; a search for usages names the
/// first three and counts the others.
pub proof fn usages_are_counted(run: RunView, hit: HitView, index: int)
    ensures
        run.inference != "usages"@ && hit.usages.len() == 1 ==> usage_part(run, hit, index)
            == "\n  used in "@ + decimal(1) + " place"@ + ""@,
        run.inference != "usages"@ && hit.usages.len() > 1 ==> usage_part(run, hit, index)
            == "\n  used in "@ + decimal(hit.usages.len()) + " place"@ + "s"@,
        run.inference != "usages"@ && hit.usages.len() == 0 ==> usage_part(run, hit, index)
            == ""@,
        run.inference == "usages"@ && !wants_body(run.query) && hit.usages.len() > 3 ==> begins(
            usage_part(run, hit, index),
            usage_lines(hit.usages.take(3), "\n  used: "@) + ("\n  +"@ + decimal(
                (hit.usages.len() - 3) as nat,
            ) + " usages; probe "@),
        ),
{
    if run.inference == "usages"@ && !wants_body(run.query) && hit.usages.len() > 3 {
        let head = usage_lines(hit.usages.take(3), "\n  used: "@) + ("\n  +"@ + decimal(
            (hit.usages.len() - 3) as nat,
        ) + " usages; probe "@);
        assert(usage_part(run, hit, index).take(head.len() as int) =~= head);
    }
}

/// Results are numbered from one under the reference of their search, where there are
/// several; a result of a miss is marked as a suggestion or as not yet merged.
pub proof fn results_are_numbered(run: RunView, hit: HitView, index: nat)
    ensures
        run.hits.len() <= 1 && run.inference != "exact-miss"@ ==> hit_heading(
            run,
            hit,
            index as int,
        ) == "\n"@ + ""@ + ""@ + hit.name,
        run.hits.len() > 1 && run.inference != "exact-miss"@ ==> hit_heading(run, hit, index as int)
            == "\n"@ + (run.reference + "#"@ + decimal(index + 1) + " "@) + ""@ + hit.name,
        run.hits.len() > 1 && run.inference == "exact-miss"@ && !begins(hit.kind, "unmerged:"@)
            ==> hit_heading(run, hit, index as int) == "\n"@ + (run.reference + "#"@ + decimal(
            index + 1,
        ) + " "@) + "suggestion: "@ + hit.name,
        run.inference == "exact-miss"@ && begins(hit.kind, "unmerged:"@) ==> has_text(
            hit_heading(run, hit, index as int),
            "UNMERGED ("@,
        ),
{
    if run.inference == "exact-miss"@ && begins(hit.kind, "unmerged:"@) {
        let number = if run.hits.len() > 1 {
            run.reference + "#"@ + decimal(index + 1) + " "@
        } else {
            ""@
        };
        let rest = hit.kind.skip("unmerged:"@.len() as int);
        let told = hit_heading(run, hit, index as int);
        assert(told =~= ("\n"@ + number) + "UNMERGED ("@ + (rest + "): "@ + hit.name));
        found_between("\n"@ + number, "UNMERGED ("@, rest + "): "@ + hit.name);
    }
}

/// A signature is told unless the source that is shown holds the whole header.
pub proof fn signatures_are_told_once(run: RunView, hit: HitView, index: int)
    ensures
        hit.signature is None ==> signature_part(run, hit, index) == ""@,
        displayed_source(run, hit, index) matches Some(source) ==> complete_header(hit, source)
            ==> signature_part(run, hit, index) == ""@,
        hit.signature is Some && displayed_source(run, hit, index) is None ==> begins(
            signature_part(run, hit, index),
            " : "@,
        ),
{
    if hit.signature is Some && displayed_source(run, hit, index) is None {
        let told = signature_part(run, hit, index);
        assert(told.take(" : "@.len() as int) =~= " : "@);
    }
}

/// A result is told with its place, its line where it has one, and the module that it
/// needs.
pub proof fn places_are_told(hit: HitView)
    ensures
        hit.path.len() > 0 && hit.line > 0 ==> begins(
            place_part(hit),
            "  "@ + hit.path + (":"@ + decimal(hit.line as nat)),
        ),
        hit.required_import matches Some(module) ==> ends(place_part(hit), "\n  import "@ + module),
        hit.path.len() == 0 && !hit.applicable && hit.required_import is None ==> place_part(
            hit,
        ).len() == 0,
{
    reveal_strlit("");
    let told = place_part(hit);
    if hit.path.len() > 0 && hit.line > 0 {
        let head = "  "@ + hit.path + (":"@ + decimal(hit.line as nat));
        assert(told.take(head.len() as int) =~= head);
    }
    if let Some(module) = hit.required_import {
        let tail = "\n  import "@ + module;
        assert(told.skip(told.len() - tail.len()) =~= tail);
    }
}

/// A miss shows three suggestions at most, a search for several names all of them, and any
/// other search five.
pub proof fn summaries_show_a_few(run: RunView)
    ensures
        run.inference == "exact-miss"@ ==> summary_count(run) <= 3,
        run.inference == "exact-batch"@ ==> summary_count(run) == run.hits.len(),
        run.inference != "exact-miss"@ && run.inference != "exact-batch"@ && run.hits.len() < 5
            ==> summary_count(run) == run.hits.len(),
        run.inference != "exact-miss"@ && run.inference != "exact-batch"@ && run.hits.len() >= 5
            ==> summary_count(run) == 5,
        run.inference == "exact-miss"@ && run.hits.len() >= 3 ==> summary_count(run) == 3,
        summary_count(run) <= run.hits.len(),
        run.hits.len() > 0 ==> summary_count(run) > 0,
{
    reveal_strlit("exact-miss");
    reveal_strlit("exact-batch");
    assert("exact-miss"@.len() != "exact-batch"@.len());
}

/// The first line of a summary tells what kind of answer it is.
pub proof fn verdicts_tell_the_kind_of_answer(run: RunView)
    requires
        run.inference != "exact-miss"@,
    ensures
        verdict(run).1 == run.note,
        run.hits.len() == 0 ==> verdict(run).0 == "no results"@,
        run.hits.len() > 0 && (run.inference == "exact"@ || run.inference == "exact-batch"@)
            ==> verdict(run).0 == "exact declaration"@,
        run.hits.len() > 0 && (run.inference == "probe"@ || run.inference == "usages"@) ==> verdict(
            run,
        ).0 == "probe result"@,
        run.hits.len() > 0 && (run.inference == "source"@ || run.inference == "source-only"@
            || run.inference == "source-regex"@ || run.inference == "source-outline"@) ==> verdict(
            run,
        ).0 == "source result"@,
        run.hits.len() == 1 && run.inference == "hybrid"@ ==> verdict(run).0 == decimal(1)
            + " ranked result"@ + ""@,
        run.hits.len() > 1 && run.inference == "hybrid"@ ==> verdict(run).0 == decimal(
            run.hits.len(),
        ) + " ranked result"@ + "s"@,
{
    reveal_strlit("exact");
    reveal_strlit("exact-batch");
    reveal_strlit("probe");
    reveal_strlit("usages");
    reveal_strlit("source");
    reveal_strlit("source-only");
    reveal_strlit("source-regex");
    reveal_strlit("source-outline");
    reveal_strlit("hybrid");
    assert("exact"@[0] == 'e' && "probe"@[0] == 'p' && "usages"@[0] == 'u' && "source"@[0] == 's'
        && "hybrid"@[0] == 'h' && "exact-batch"@[0] == 'e' && "source-only"@[0] == 's');
    assert("exact"@.len() == 5 && "exact-batch"@.len() == 11 && "probe"@.len() == 5 && "usages"@.len()
        == 6 && "source"@.len() == 6 && "source-only"@.len() == 11 && "source-regex"@.len() == 12
        && "source-outline"@.len() == 14 && "hybrid"@.len() == 6);
}

/// Of a used declaration its usages are asked for next, of a proof its outline, and of
/// anything else its source.
pub proof fn the_next_focus_follows_the_result(hit: HitView)
    ensures
        hit.usages.len() > 0 ==> next_focus(hit) == "usages"@,
        hit.usages.len() == 0 && (hit.kind == "lemma"@ || hit.kind == "theorem"@) ==> next_focus(
            hit,
        ) == "outline"@,
        hit.usages.len() == 0 && hit.kind != "lemma"@ && hit.kind != "theorem"@ ==> next_focus(hit)
            == "source"@,
{
}

/// After a miss the first suggestion is looked at, after a synchronisation where it is not
/// merged yet; without one the last part of the name is searched for; and while an index is
/// built nothing is advised.
pub proof fn misses_lead_on(run: RunView)
    ensures
        warming_note(run.note) ==> miss_hint(run) == ""@,
        !warming_note(run.note) && run.hits.len() > 0 && begins(run.hits[0].kind, "unmerged:"@)
            ==> begins(miss_hint(run), "\nnext: sync, then mathmux probe "@),
        !warming_note(run.note) && run.hits.len() > 0 && !begins(run.hits[0].kind, "unmerged:"@)
            ==> begins(miss_hint(run), "\nnext: mathmux probe "@) && ends(
            miss_hint(run),
            " signature"@,
        ),
        !warming_note(run.note) && run.hits.len() == 0 ==> begins(
            miss_hint(run),
            "\nnext: mathmux search "@,
        ),
{
    let told = miss_hint(run);
    if !warming_note(run.note) {
        if run.hits.len() > 0 {
            let head = if begins(run.hits[0].kind, "unmerged:"@) {
                "\nnext: sync, then mathmux probe "@
            } else {
                "\nnext: mathmux probe "@
            };
            assert(told.take(head.len() as int) =~= head);
            let tail = " signature"@;
            assert(told.skip(told.len() - tail.len()) =~= tail);
        } else {
            let head = "\nnext: mathmux search "@;
            assert(told.take(head.len() as int) =~= head);
        }
    }
}

/// A search that found nothing and has nothing to say is told in one line; any other begins
/// with its verdict.
pub proof fn summaries_begin_with_their_verdict(run: RunView, hints: bool)
    ensures
        run.hits.len() == 0 && run.note is None && run.inference != "exact-miss"@ ==> summary(
            run,
            hints,
        ) == run.reference + " no results"@,
        !plainly_empty(run) ==> begins(summary(run, hints), verdict(run).0),
        !plainly_empty(run) ==> has_text(summary(run, hints), "\nref: "@ + run.reference),
{
    if !plainly_empty(run) {
        let told = summary(run, hints);
        let first = verdict(run).0;
        assert(told.take(first.len() as int) =~= first);
        let before = summary_head(run) + tail_head(run, hints);
        let own = "\nref: "@ + run.reference;
        let after = range_note(run);
        assert(told =~= before + own + after);
        found_between(before, own, after);
    }
}

/// A text that is too long loses its middle: it keeps its beginning and its end and is as
/// long as allowed.
pub proof fn long_texts_lose_their_middle(text: Seq<char>, limit: nat)
    requires
        limit >= 3,
    ensures
        text.len() <= limit ==> middle_cut(text, limit) == text,
        text.len() > limit ==> middle_cut(text, limit).len() == limit && begins(
            middle_cut(text, limit),
            text.take((limit / 2) as int),
        ) && ends(middle_cut(text, limit), text.skip(text.len() - (limit - limit / 2 - 1))),
{
    reveal_strlit("…");
    if text.len() > limit {
        let head = text.take((limit / 2) as int);
        let tail = text.skip(text.len() - (limit - limit / 2 - 1));
        let told = middle_cut(text, limit);
        assert(told.take(head.len() as int) =~= head);
        part_ends(head + "…"@, tail);
    }
}

/// The place of a message is its own Lean file and line; a label that is no Lean file gives
/// way to the file that was checked, and a message without a place to its first line.
pub proof fn messages_have_a_place(label: Seq<char>, line: nat, fallback: Option<Seq<char>>)
    requires
        line <= u64::MAX,
    ensures
        position_in(None, fallback) == (fallback, 1u64),
        ends(label, ".lean"@) ==> position_in(
            Some(seq![None, Some(label), Some(decimal(line))]),
            fallback,
        ) == (Some(label), line as u64),
        !ends(label, ".lean"@) ==> position_in(
            Some(seq![None, Some(label), Some(decimal(line))]),
            fallback,
        ) == (fallback, line as u64),
{
    crate::text::number::decimal_reads_back(line, u64::MAX as nat);
}

/// The goal that a message leaves open is the last that it states, up to a listing.
pub proof fn the_last_goal_is_told(list: Seq<Seq<char>>, n: nat, i: int)
    requires
        n <= list.len(),
        0 <= i <= list.len(),
    ensures
        match last_goal(list, n) {
            Some(k) => 0 <= k < n && begins(bare_start(list[k]), "⊢"@) && forall|j: int|
                k < j < n ==> !begins(bare_start(#[trigger] list[j]), "⊢"@),
            None => forall|j: int| 0 <= j < n ==> !begins(bare_start(#[trigger] list[j]), "⊢"@),
        },
        i <= listing_from(list, i) <= list.len(),
        forall|j: int| i <= j < listing_from(list, i) ==> !listing_line(#[trigger] list[j]),
    decreases n, list.len() - i,
{
    if n > 0 && !begins(bare_start(list[n - 1]), "⊢"@) {
        the_last_goal_is_told(list, (n - 1) as nat, list.len() as int);
    }
    if i < list.len() && !listing_line(list[i]) {
        the_last_goal_is_told(list, n, i + 1);
    }
}

/// A goal is told only of a message about unsolved goals.
pub proof fn only_unsolved_goals_are_told(diagnostic: Seq<char>)
    ensures
        goal_detail(diagnostic) is Some ==> has_text(diagnostic, "unsolved goals"@) && begins(
            goal_detail(diagnostic)->0,
            "goal\n"@,
        ),
        !has_text(diagnostic, "unsolved goals"@) ==> goal_detail(diagnostic) is None,
{
    let list = line_list(diagnostic);
    if let Some(start) = last_goal(list, list.len()) {
        label_begins(
            "goal\n"@,
            joined(list.subrange(start, listing_from(list, start)), "\n"@),
        );
    }
}

proof fn shared_words(a: Seq<Seq<char>>, b: Seq<Seq<char>>, i: int)
    requires
        0 <= i <= a.len(),
        i <= b.len(),
    ensures
        i <= same_from(a, b, i) <= a.len(),
        same_from(a, b, i) <= b.len(),
        forall|j: int| i <= j < same_from(a, b, i) ==> #[trigger] a[j] == b[j],
        same_from(a, b, i) < a.len() && same_from(a, b, i) < b.len() ==> a[same_from(a, b, i)]
            != b[same_from(a, b, i)],
    decreases a.len() - i,
{
    if i < a.len() && i < b.len() && a[i] == b[i] {
        shared_words(a, b, i + 1);
    }
}

proof fn shared_end(a: Seq<Seq<char>>, b: Seq<Seq<char>>, prefix: int, i: int)
    requires
        0 <= prefix,
        0 <= i <= a.len() - prefix,
        i <= b.len() - prefix,
    ensures
        i <= same_end_from(a, b, prefix, i) <= a.len() - prefix,
        same_end_from(a, b, prefix, i) <= b.len() - prefix,
        forall|j: int|
            i <= j < same_end_from(a, b, prefix, i) ==> #[trigger] a[a.len() - 1 - j] == b[b.len()
                - 1 - j],
    decreases a.len() - prefix - i,
{
    if i < a.len() - prefix && i < b.len() - prefix && a[a.len() - 1 - i] == b[b.len() - 1 - i] {
        shared_end(a, b, prefix, i + 1);
    }
}

/// Two types differ in what stands between the words that they share at their beginning and
/// at their end; equal types have no difference, and neither has a type that is missing.
pub proof fn differences_stand_between_shared_words(a: Seq<Seq<char>>, b: Seq<Seq<char>>)
    ensures
        word_difference(a, b) is None <==> a.len() == 0 || b.len() == 0 || a == b,
        word_difference(a, b) is Some ==> exists|p: int, s: int|
            0 <= p && 0 <= s && p + s <= a.len() && p + s <= b.len() && #[trigger] a.take(p)
                == b.take(p) && #[trigger] a.skip(a.len() - s) == b.skip(b.len() - s) && (p
                < a.len() && p < b.len() ==> a[p] != b[p]) && word_difference(a, b) == Some(
                "first type difference\nactual: "@ + shown_words(a.subrange(p, a.len() - s))
                    + "\nexpected: "@ + shown_words(b.subrange(p, b.len() - s)),
            ),
{
    if a.len() > 0 && b.len() > 0 && a != b {
        let p = same_from(a, b, 0);
        let s = same_end_from(a, b, p, 0);
        shared_words(a, b, 0);
        shared_end(a, b, p, 0);
        assert(a.take(p) =~= b.take(p));
        assert(a.skip(a.len() - s) =~= b.skip(b.len() - s)) by {
            assert forall|k: int| 0 <= k < s implies #[trigger] a.skip(a.len() - s)[k]
                == b.skip(b.len() - s)[k] by {
                assert(a[a.len() - 1 - (s - 1 - k)] == b[b.len() - 1 - (s - 1 - k)]);
            }
        }
    }
}

/// A message tells of a rewrite just where it names one, or a pattern that was not found;
/// two sides are told just where both are there.
pub proof fn rewrites_and_sides_are_told(diagnostic: Seq<char>, context: Option<Seq<char>>)
    ensures
        rewrite_detail(diagnostic, context) is Some <==> has_text(diagnostic, "rewrite"@)
            || has_text(diagnostic, "Tactic `rw`"@) || has_text(diagnostic, "pattern not found"@),
        rewrite_detail(diagnostic, context) matches Some(t) ==> begins(t, "rewrite\n"@),
        defeq_detail(diagnostic) matches Some(t) ==> begins(t, "left\n"@) && has_text(
            t,
            "\nright\n"@,
        ),
        cut(diagnostic, "left-hand side"@) is None ==> defeq_detail(diagnostic) is None,
{
    if let Some(t) = rewrite_detail(diagnostic, context) {
        assert(t.take("rewrite\n"@.len() as int) =~= "rewrite\n"@);
    }
    if let Some(t) = defeq_detail(diagnostic) {
        let comparison = (cut(diagnostic, "left-hand side"@)->0).1;
        let sides = cut(comparison, "is not definitionally equal to the right-hand side"@)->0;
        assert(t.take("left\n"@.len() as int) =~= "left\n"@);
        let before = "left\n"@ + expression(sides.0);
        assert(t =~= before + "\nright\n"@ + expression(sides.1));
        found_between(before, "\nright\n"@, expression(sides.1));
    }
}

/// A message in its context begins with its own lines and holds what it says of types and
/// of its goal.
pub proof fn messages_are_told_with_their_details(diagnostic: Seq<char>, context: Option<Seq<char>>)
    ensures
        ({
            let told = message_context(diagnostic, context);
            let detailed = type_detail(diagnostic) is Some || goal_detail(diagnostic) is Some;
            &&& detailed ==> begins(told, joined(front(line_list(diagnostic), 8), "\n"@))
            &&& !detailed ==> begins(told, joined(front(line_list(diagnostic), 16), "\n"@))
            &&& type_detail(diagnostic) matches Some(t) ==> has_text(told, "\n"@ + t)
            &&& goal_detail(diagnostic) matches Some(g) ==> has_text(told, "\n"@ + g)
        }),
{
    let types = type_detail(diagnostic);
    let goal = goal_detail(diagnostic);
    let told = message_context(diagnostic, context);
    let head = joined(
        front(
            line_list(diagnostic),
            if types is Some || goal is Some {
                8
            } else {
                16
            },
        ),
        "\n"@,
    );
    let body = context_body(diagnostic, context);
    assert(told.take(head.len() as int) =~= head);
    let hint = told.skip(body.len() as int);
    assert(told =~= body + hint);
    let a = crate::search::diagnostics::detail_part(types);
    let b = crate::search::diagnostics::detail_part(goal);
    let around = body.skip((head + a + b).len() as int);
    assert(body =~= head + a + b + around);
    found_between(head, a, b + around + hint);
    assert(told =~= head + a + (b + around + hint));
    found_between(head + a, b, around + hint);
    assert(told =~= head + a + b + (around + hint));
}

/// Just the tokens that pass a test are kept.
pub proof fn passing_tokens_are_kept(list: Seq<Seq<char>>, test: TokenTest, t: Seq<char>)
    ensures
        passing(list, test).contains(t) <==> list.contains(t) && test.passes(t),
    decreases list.len(),
{
    if list.len() > 0 {
        let shorter = list.drop_last();
        passing_tokens_are_kept(shorter, test, t);
        assert(list =~= shorter.push(list.last()));
        pushed_holds(shorter, list.last(), t);
        pushed_holds(passing(shorter, test), list.last(), t);
    }
}

/// The last component of a name is what stands behind its last dot.
pub proof fn leaves_stand_behind_the_last_dot(owner: Seq<char>, last: Seq<char>)
    requires
        !last.contains('.'),
    ensures
        leaf(owner + "."@ + last) == last,
        leaf(last) == last,
{
    reveal_strlit(".");
    rcut_at_mark(owner, "."@, last);
    no_mark_no_cut(last, "."@);
}

/// The concepts that Lean spells otherwise are searched for in its spelling.
pub proof fn concepts_have_lean_spellings()
    ensures
        concept_alias("addition"@) == Some("add"@),
        concept_alias("composition"@) == Some("comp"@),
        concept_alias("continuity"@) == Some("continuous"@),
        concept_alias("multiplication"@) == Some("mul"@),
        concept_alias("projection"@) == Some("proj"@),
        concept_alias("scaling"@) == Some("smul"@),
{
    reveal_strlit("addition");
    reveal_strlit("composition");
    reveal_strlit("continuity");
    reveal_strlit("multiplication");
    reveal_strlit("projection");
    reveal_strlit("scaling");
    assert("continuity"@[0] != "projection"@[0]);
    assert("addition"@.len() == 8 && "composition"@.len() == 11 && "continuity"@.len() == 10
        && "multiplication"@.len() == 14 && "projection"@.len() == 10 && "scaling"@.len() == 7);
}

/// The words of a compound name are its parts: put together they are the name.
pub proof fn compound_names_are_their_words(t: Seq<char>, start: int, i: int)
    requires
        0 <= start < i,
        start <= t.len(),
    ensures
        chain(camel_from(t, start, i)) == t.skip(start),
    decreases t.len() - i,
{
    if i >= t.len() {
        chain_one(t.skip(start));
        assert(camel_from(t, start, i) =~= seq![t.skip(start)]);
    } else if word_boundary(t, i) {
        compound_names_are_their_words(t, i, i + 1);
        chain_front(t.subrange(start, i), camel_from(t, i, i + 1));
        assert(t.skip(start) =~= t.subrange(start, i) + t.skip(i));
    } else {
        compound_names_are_their_words(t, start, i + 1);
    }
}

proof fn chain_front(first: Seq<char>, rest: Seq<Seq<char>>)
    ensures
        chain(seq![first] + rest) == first + chain(rest),
    decreases rest.len(),
{
    let all = seq![first] + rest;
    if rest.len() == 0 {
        assert(all =~= seq![first]);
        chain_one(first);
        assert(chain(rest) =~= Seq::<char>::empty());
        assert(first + chain(rest) =~= first);
    } else {
        chain_front(first, rest.drop_last());
        assert(all.drop_last() =~= seq![first] + rest.drop_last());
        assert(chain(all) =~= first + chain(rest));
    }
}

} // verus!
