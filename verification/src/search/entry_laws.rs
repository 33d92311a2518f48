//! What the results of a search hold and where their lines are taken from, on every input.
use crate::activity::bounded_sum;
use crate::order::{lex_less_at, ranking, ranking_is_permutation, ranking_is_sorted};
use crate::path::base_name;
use crate::search::api::{exact_names, slashed};
use crate::search::bridge::{alternative_answered, answers_all};
use crate::search::fallback::{fallback_candidate, FallbackFileView, FallbackQueryView};
use crate::search::focus::HitChangeView;
use crate::search::goal::{
    block_goes_on, block_line, opening_before, opening_from, opening_line, suggestion_block,
    whole_line,
};
use crate::search::lines::{first_enclosing, range_hits};
use crate::search::names::alternatives;
use crate::search::occurrences::{sorted_ranges, OccurrenceView};
use crate::search::probe::indexed_answer;
use crate::search::records::HitView;
use crate::search::request::ContextView;
use crate::search::source::{starts_of, EntryView};
use crate::search::spans::SpanView;
use crate::search::tokens::other_digit;
use crate::search::tree::{choice_passing, look_by_name, FileTestView, TreeView};
use crate::search::triage::{warning_entry, ResidualView, WarnedFileView};
use crate::search::warning::warning_headline;
use crate::text::chain::{label_begins, part_ends};
use crate::text::class::{whitespace, Class};
use crate::text::make::byte_length;
use crate::text::number::decimal;
use crate::text::pieces::pieces;
use crate::text::scan::{after_chars, bare, bare_end, begins, blank, ends};
use vstd::prelude::*;

verus! {

/// A digit has a subscript and is had back from it; nothing else changes.
pub proof fn digits_change_and_change_back(c: char)
    ensures
        '0' <= c <= '9' ==> {
            &&& other_digit(c, true) as int - '₀' as int == c as int - '0' as int
            &&& other_digit(other_digit(c, true), false) == c
        },
        '₀' <= c <= '₉' ==> {
            &&& other_digit(c, false) as int - '0' as int == c as int - '₀' as int
            &&& other_digit(other_digit(c, false), true) == c
        },
        !('0' <= c <= '9') ==> other_digit(c, true) == c,
        !('₀' <= c <= '₉') ==> other_digit(c, false) == c,
{
}

/// A sum of seconds is exact where it fits and stops at either end where it does not.
pub proof fn sums_stop_at_the_largest(a: int, b: int)
    ensures
        bounded_sum(a, b) == bounded_sum(b, a),
        i128::MIN <= bounded_sum(a, b) <= i128::MAX,
        i128::MIN <= a + b <= i128::MAX ==> bounded_sum(a, b) == a + b,
        a + b >= i128::MAX ==> bounded_sum(a, b) == i128::MAX,
        a + b <= i128::MIN ==> bounded_sum(a, b) == i128::MIN,
{
}

proof fn opening_from_finds(source: Seq<char>, i: int, stop: int, k: int)
    requires
        i <= k <= stop,
        0 <= i,
        k < starts_of(source).len(),
        opening_line(whole_line(source, k)),
        forall|j: int| i <= j < k ==> !opening_line(#[trigger] whole_line(source, j)),
    ensures
        opening_from(source, i, stop) == Some(k),
    decreases k - i,
{
    if i < k {
        assert(!opening_line(whole_line(source, i)));
        opening_from_finds(source, i + 1, stop, k);
    }
}

proof fn opening_from_stands(source: Seq<char>, i: int, stop: int)
    ensures
        match opening_from(source, i, stop) {
            Some(k) => i <= k <= stop && opening_line(whole_line(source, k)),
            None => forall|j: int|
                i <= j <= stop && j < starts_of(source).len() ==> !opening_line(
                    #[trigger] whole_line(source, j),
                ),
        },
    decreases stop - i + 1,
{
    if i <= stop && i < starts_of(source).len() && !opening_line(whole_line(source, i)) {
        opening_from_stands(source, i + 1, stop);
    }
}

proof fn opening_before_finds(source: Seq<char>, i: int, stop: int)
    ensures
        match opening_before(source, i, stop) {
            Some(k) => stop <= k < i && opening_line(whole_line(source, k)) && forall|j: int|
                k < j < i && j < starts_of(source).len() ==> !opening_line(
                    #[trigger] whole_line(source, j),
                ),
            None => forall|j: int|
                stop <= j < i && j < starts_of(source).len() ==> !opening_line(
                    #[trigger] whole_line(source, j),
                ),
        },
    decreases i - stop,
{
    if i > stop && !(i - 1 < starts_of(source).len() && opening_line(whole_line(source, i - 1))) {
        opening_before_finds(source, i - 1, stop);
    }
}

/// A line belongs to the first block that opens on it or within twenty lines after it; where
/// none does, to the nearest that opens within eighty lines before.
pub proof fn the_next_block_is_meant(source: Seq<char>, line: int, k: int)
    requires
        0 <= line,
    ensures
        line <= k <= line + 20 && k < starts_of(source).len() && opening_line(
            whole_line(source, k),
        ) && (forall|j: int| line <= j < k ==> !opening_line(#[trigger] whole_line(source, j)))
            ==> block_line(source, line) == Some(k),
        match block_line(source, line) {
            Some(i) => {
                &&& line - 80 <= i <= line + 20
                &&& opening_line(whole_line(source, i))
                &&& i < line ==> forall|j: int|
                    i < j <= line + 20 && j < starts_of(source).len() ==> !opening_line(
                        #[trigger] whole_line(source, j),
                    )
            },
            None => forall|j: int|
                0 <= j && line - 80 <= j <= line + 20 && j < starts_of(source).len()
                    ==> !opening_line(#[trigger] whole_line(source, j)),
        },
{
    opening_from_stands(source, line, line + 20);
    let stop = if line < 80 {
        0
    } else {
        line - 80
    };
    opening_before_finds(source, line, stop);
    if line <= k <= line + 20 && k < starts_of(source).len() && opening_line(whole_line(source, k))
        && (forall|j: int| line <= j < k ==> !opening_line(#[trigger] whole_line(source, j))) {
        opening_from_finds(source, line, line + 20, k);
    }
}

/// A suggestion takes the lines from its start on, each without its indentation and the white
/// space behind it, up to the first blank line, which is passed over.
pub proof fn suggestions_end_at_blank_lines(
    list: Seq<Seq<char>>,
    k: int,
    indent: int,
    block: Seq<Seq<char>>,
    length: int,
)
    requires
        0 <= k <= list.len(),
    ensures
        ({
            let r = suggestion_block(list, k, indent, block, length);
            let n = r.0.len() - block.len();
            &&& n >= 0
            &&& r.0.take(block.len() as int) == block
            &&& r.1 == k + n || (r.1 == k + n + 1 && k + n < list.len() && blank(list[k + n]))
            &&& k + n <= list.len()
            &&& forall|p: int|
                block.len() <= p < r.0.len() ==> #[trigger] r.0[p] == bare_end(
                    after_chars(list[k + p - block.len()], indent),
                ) && !blank(list[k + p - block.len()])
        }),
        k < list.len() && blank(list[k]) ==> suggestion_block(list, k, indent, block, length) == (
            block,
            k + 1,
        ),
    decreases list.len() - k,
{
    let r = suggestion_block(list, k, indent, block, length);
    if k < list.len() && bare(list[k]).len() != 0 && block_goes_on(
        list[k],
        indent,
        block,
        length,
    ) {
        let text = bare_end(after_chars(list[k], indent));
        let longer = block.push(text);
        suggestions_end_at_blank_lines(list, k + 1, indent, longer, length + byte_length(text));
        assert(r == suggestion_block(list, k + 1, indent, longer, length + byte_length(text)));
        let m = r.0.len() - longer.len();
        assert(r.1 == k + (m + 1) || (r.1 == k + (m + 1) + 1 && k + (m + 1) < list.len() && blank(
            list[k + (m + 1)],
        ))) by {
            assert(list[k + 1 + m] == list[k + (m + 1)]);
        }
        assert(r.0.take(block.len() as int) =~= block) by {
            assert forall|j: int| 0 <= j < block.len() implies r.0[j] == block[j] by {
                assert(r.0.take(longer.len() as int)[j] == longer[j]);
            }
        }
        assert(r.0[block.len() as int] == text) by {
            assert(r.0.take(longer.len() as int)[block.len() as int] == longer[block.len() as int]);
        }
        assert forall|p: int| block.len() <= p < r.0.len() implies #[trigger] r.0[p] == bare_end(
            after_chars(list[k + p - block.len()], indent),
        ) && !blank(list[k + p - block.len()]) by {
            if p > block.len() {
                assert(list[k + 1 + p - longer.len()] == list[k + p - block.len()]);
            }
        }
    } else {
        assert(r.0 == block);
        assert(block.take(block.len() as int) =~= block);
    }
}

/// Ranges are listed by their first lines, those with the same first line by their last, and
/// none is lost.
pub proof fn ranges_are_listed_in_order(list: Seq<(u64, u64)>, i: int, j: int)
    requires
        0 <= i < j < list.len(),
    ensures
        sorted_ranges(list).len() == list.len(),
        sorted_ranges(list)[i].0 <= sorted_ranges(list)[j].0,
        sorted_ranges(list)[i].0 == sorted_ranges(list)[j].0 ==> sorted_ranges(list)[i].1
            <= sorted_ranges(list)[j].1,
        forall|p: (u64, u64)| list.contains(p) ==> #[trigger] sorted_ranges(list).contains(p),
{
    let keys = list.map_values(|p: (u64, u64)| seq![p.0, p.1]);
    ranking_is_permutation(keys);
    ranking_is_sorted(keys, i, j);
    let order = ranking(keys);
    let a = keys[order[i]];
    let b = keys[order[j]];
    assert(a[0] == list[order[i]].0 && a[1] == list[order[i]].1);
    assert(b[0] == list[order[j]].0 && b[1] == list[order[j]].1);
    if a != b {
        if a[0] == b[0] {
            if a[1] == b[1] {
                assert(a =~= b);
            }
            lex_less_at(a, b, 1);
        } else {
            lex_less_at(a, b, 0);
        }
    }
    assert forall|p: (u64, u64)| list.contains(p) implies #[trigger] sorted_ranges(list).contains(
        p,
    ) by {
        let k = list.index_of(p);
        assert(order.contains(k));
        assert(sorted_ranges(list)[order.index_of(k)] == p);
    }
}

/// Lines make one result, at the first of them, and no lines make none.
pub proof fn lines_make_one_result(
    q: OccurrenceView,
    list: Seq<(u64, Seq<char>)>,
    spans: Seq<SpanView>,
    path: Seq<char>,
    limit: int,
)
    ensures
        list.len() == 0 ==> range_hits(q, list, spans, path, limit).len() == 0,
        list.len() > 0 ==> ({
            let r = range_hits(q, list, spans, path, limit);
            &&& r.len() == 1
            &&& r[0].path == path
            &&& r[0].line == list[0].0
            &&& r[0].source is Some
            &&& q.terms.len() == 0 ==> r[0].kind == "source-range"@
            &&& spans.len() == 0 && q.terms.len() == 0 ==> r[0].name == "source"@
        }),
{
    if list.len() > 0 && spans.len() == 0 {
        assert(first_enclosing(list, spans) is None);
    }
}

/// A candidate stands for its entry: under its name and kind, in its file, with what its
/// documentation says, and a file has no signature of its own.
pub proof fn candidates_stand_for_their_entries(
    q: FallbackQueryView,
    file: FallbackFileView,
    e: EntryView,
    origin: u8,
)
    ensures
        ({
            let c = fallback_candidate(q, file, e, origin);
            &&& c.hit.name == e.name && c.hit.kind == e.kind
            &&& c.hit.path == file.path && c.hit.module == file.module
            &&& c.origins == origin
            &&& c.hit.doc == if blank(e.docs) {
                None
            } else {
                Some(e.docs)
            }
            &&& e.kind != "file"@ ==> c.hit.signature == if blank(e.signature) {
                None
            } else {
                Some(e.signature)
            }
            &&& c.hit.usages.len() == 0 && !c.hit.applicable && c.hit.required_import is None
        }),
{
}

/// A warning is entered under its reference, with its risk and its kind, at its line.
pub proof fn warnings_are_entered_under_their_reference(
    file: WarnedFileView,
    w: ResidualView,
    reference: Seq<char>,
)
    ensures
        ({
            let h = warning_entry(file, w, reference);
            &&& begins(
                h.name,
                reference + " ["@ + w.kind.risk + "] "@ + w.kind.category + " — "@,
            )
            &&& h.kind == "warning-reference"@
            &&& h.path == file.target && h.line == w.line
            &&& h.source is None && h.signature is None && h.doc is None
        }),
{
    let front = reference + " ["@ + w.kind.risk + "] "@ + w.kind.category + " — "@;
    label_begins(front, warning_headline(w.diagnostic.text));
}

/// A change of what is shown never changes what is meant: the name and the place stay, and
/// only what the focus leaves out is dropped.
pub proof fn changes_keep_what_is_meant(change: HitChangeView, hit: HitView)
    ensures
        ({
            let r = change.changed(hit);
            &&& r.name == hit.name && r.path == hit.path && r.line == hit.line
            &&& r.module == hit.module && r.doc == hit.doc
            &&& r.applicable == hit.applicable && r.required_import == hit.required_import
            &&& change is Sourceless || change is Signed ==> r.usages == hit.usages && r.kind
                == hit.kind && r.source is None
            &&& change is Sourceless ==> r.signature == hit.signature
            &&& change is Unused ==> r == (HitView { usages: Seq::empty(), ..hit })
            &&& change is Outline ==> r.usages.len() == 0 && r.kind == "declaration-outline"@
                && r.signature == Some(
                hit.kind + " outline from line "@ + decimal(hit.line as nat),
            )
            &&& change is Find ==> r.usages.len() == 0 && r.kind == "declaration-find"@
                && r.signature == Some("local matches for "@ + change->0)
            &&& change is Outline || change is Find || change is Unused ==> (r.source is Some
                <==> hit.source is Some)
        }),
{
}

/// Alternatives are answered by one hit that answers every word of one of them, and a further
/// hit takes no answer away; a single query has no alternatives.
pub proof fn one_hit_answers_an_alternative(
    query: Seq<char>,
    hits: Seq<HitView>,
    h: HitView,
    i: int,
    j: int,
)
    ensures
        alternatives(query).len() <= 1 || hits.len() == 0 ==> !alternative_answered(query, hits),
        alternatives(query).len() > 1 && 0 <= i < alternatives(query).len() && 0 <= j < hits.len()
            && answers_all(hits[j], alternatives(query)[i]) ==> alternative_answered(query, hits),
        alternative_answered(query, hits) ==> alternative_answered(query, hits.push(h)),
{
    if alternative_answered(query, hits) {
        let (a, b) = choose|a: int, b: int|
            0 <= a < alternatives(query).len() && 0 <= b < hits.len() && #[trigger] answers_all(
                hits[b],
                alternatives(query)[a],
            );
        assert(hits.push(h)[b] == hits[b]);
        assert(answers_all(hits.push(h)[b], alternatives(query)[a]));
    }
}

/// A regular expression stands between two slashes and keeps them, behind the path that it is
/// limited to; anything else is refused.
pub proof fn regular_expressions_stand_between_slashes(path: Seq<char>, regex: Seq<char>)
    ensures
        slashed(None, regex) matches Ok(t) ==> t == bare(regex) && begins(t, "/"@) && ends(t, "/"@)
            && byte_length(t) > 2,
        slashed(None, regex) is Ok <==> slashed(Some(path), regex) is Ok,
        slashed(None, regex) is Ok ==> slashed(Some(path), regex) == Ok::<Seq<char>, Seq<char>>(
            path + " "@ + bare(regex),
        ),
        slashed(None, regex) is Err ==> slashed(Some(path), regex) == Err::<Seq<char>, Seq<char>>(
            "re: expects /REGEX/"@,
        ),
        begins(bare(regex), "/"@) && ends(bare(regex), "/"@) && byte_length(bare(regex)) > 2
            ==> slashed(None, regex) is Ok,
{
}

/// Exact names are what stands between the bars, in their order, and none of them holds white
/// space or repeats the prefix.
pub proof fn exact_names_stand_between_bars(rest: Seq<char>, k: int)
    ensures
        exact_names(rest) matches Ok(names) ==> {
            &&& names.len() == pieces(rest, Class::Is('|')).len()
            &&& 0 <= k < names.len() ==> names[k] == bare(pieces(rest, Class::Is('|'))[k])
            &&& 1 <= k < names.len() ==> !begins(names[k], "name:"@)
        },
        0 <= k < rest.len() && whitespace(rest[k]) ==> exact_names(rest) == Err::<
            Seq<Seq<char>>,
            Seq<char>,
        >("name: accepts one name or a `|` batch"@),
{
}

/// An indexed type is told where the context is a result or a file and the type is known, as
/// the name, a colon and the signature.
pub proof fn indexed_types_are_told(
    reference: Seq<char>,
    workspace_ref: Seq<char>,
    context: ContextView,
    subject: Seq<char>,
    hit: Option<HitView>,
    now: i64,
)
    ensures
        indexed_answer(reference, workspace_ref, context, subject, hit, now) is Some <==> hit
            is Some && (context is Query || context is File),
        indexed_answer(reference, workspace_ref, context, subject, hit, now) matches Some(run) ==> {
            &&& run.reference == reference && run.workspace_ref == workspace_ref
            &&& ends(run.query, " #check "@ + subject)
            &&& run.hits.len() == 1
            &&& run.hits[0].path == hit->0.path && run.hits[0].line == hit->0.line
            &&& run.hits[0].source == Some(hit->0.name + " : "@ + hit->0.signature->0)
        },
{
    let tail = " #check "@ + subject;
    match context {
        ContextView::Query(r, _) => {
            part_ends(r, tail);
            assert(r + " #check "@ + subject =~= r + tail);
        },
        ContextView::File(f) => {
            part_ends(f, tail);
            assert(f + " #check "@ + subject =~= f + tail);
        },
        _ => {},
    }
    if hit is Some && hit->0.path.len() == 0 {
        assert(hit->0.path =~= Seq::<char>::empty());
    }
}

/// A file of the very name that was asked for is meant before any that is only alike, and two
/// of them mean none.
pub proof fn files_of_the_very_name_are_meant(tree: TreeView, requested: Seq<char>)
    ensures
        base_name(requested) is None ==> look_by_name(tree, requested) is None,
        base_name(requested) matches Some(name) ==> {
            let named = choice_passing(
                tree,
                tree.project_files,
                FileTestView::Named(name),
                tree.real_root,
            );
            let similar = choice_passing(
                tree,
                tree.project_files,
                FileTestView::Alike(name),
                tree.real_root,
            );
            &&& named is Several ==> look_by_name(tree, requested) is None
            &&& named is One ==> look_by_name(tree, requested) is Some && look_by_name(
                tree,
                requested,
            )->0.path == named->0 && look_by_name(tree, requested)->0.project
            &&& named is Nothing && similar is Several ==> look_by_name(tree, requested) is None
            &&& named is Nothing && similar is One ==> look_by_name(tree, requested) is Some
                && look_by_name(tree, requested)->0.path == similar->0
        },
{
}

} // verus!
