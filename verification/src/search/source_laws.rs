//! What is answered of the lines of a source, on every input.
use crate::order::{lex_less_at, ranking, ranking_is_permutation, ranking_is_sorted};
use crate::search::groups::RegexQueryView;
use crate::search::lines::{
    filter_terms, import_terms, lines_answer, lines_limit, lines_note, listed_line, listed_lines,
    outline_answer, outline_entries, outline_line, wanted_lines,
};
use crate::search::locations::{
    location_answer, location_in_source, location_limit, location_part, location_request, numbered,
    LocationRequestView, LocationView,
};
use crate::search::occurrences::{
    attached_facet, facet_needed, joined_request, lean_from, request_terms, target_request,
    OccurrenceView,
};
use crate::search::probe_laws::ranges_read_back;
use crate::search::regex_request::{
    backslashes, closing_slash, directory_at, ranged, regex_fault, regex_parts, regex_request,
};
use crate::search::source::EntryView;
use crate::search::spans::{
    closed_spans, heads_in, in_line_order, last_line, matched_bytes, span_at, span_at_is_last,
    spans_line, without_twins, SpanView,
};
use crate::search::tree::{missing_source, source_at, TreeView};
use crate::text::chain::{
    no_mark_no_cut, numbers_hold_digits, part_ends, pushed_holds, rcut_at_mark,
};
use crate::text::class::Class;
use crate::text::layout::front;
use crate::text::make::{alike, byte_length, joined, lower};
use crate::text::number::{decimal, decimal_reads_back, right_aligned};
use crate::text::pieces::{line_list, words};
use crate::text::scan::{bare_start, begins, ends, has_text, trimmed};
use vstd::prelude::*;

verus! {

/// A line is answered just where it is in a range that was asked for and some term stands
/// in it, or no term was given.
pub proof fn lines_with_a_term_are_answered(
    q: OccurrenceView,
    list: Seq<Seq<char>>,
    n: nat,
    k: nat,
)
    requires
        n <= list.len() <= u64::MAX,
        1 <= k <= n,
        !import_terms(q.terms),
    ensures
        wanted_lines(q, list, n).contains((k as u64, list[k - 1])) <==> ((q.first_line <= k
            <= q.last_line || exists|i: int|
            0 <= i < q.additional_ranges.len() && (#[trigger] q.additional_ranges[i]).0 <= k
                <= q.additional_ranges[i].1) && (q.terms.len() == 0 || exists|i: int|
            0 <= i < q.terms.len() && has_text(list[k - 1], #[trigger] q.terms[i]))),
    decreases n,
{
    let m = (n - 1) as nat;
    let before = wanted_lines(q, list, m);
    pushed_holds(before, (n as u64, list[n - 1]), (k as u64, list[k - 1]));
    if k <= m {
        lines_with_a_term_are_answered(q, list, m, k);
    } else {
        crate::search::lines::wanted_lines_are_in_range(q, list, m);
        if before.contains((k as u64, list[k - 1])) {
            let i = before.index_of((k as u64, list[k - 1]));
            assert(before[i].0 <= m);
        }
    }
}

/// Where imports are asked for, just the lines that import something are answered, and of
/// them those that hold one of the other terms.
pub proof fn imports_are_answered(q: OccurrenceView, list: Seq<Seq<char>>, n: nat, k: nat)
    requires
        n <= list.len() <= u64::MAX,
        1 <= k <= n,
        import_terms(q.terms),
        q.first_line <= k <= q.last_line,
    ensures
        wanted_lines(q, list, n).contains((k as u64, list[k - 1])) <==> ((begins(
            bare_start(list[k - 1]),
            "import "@,
        ) || begins(bare_start(list[k - 1]), "public import "@)) && (filter_terms(q.terms).len()
            == 0 || exists|i: int|
            0 <= i < filter_terms(q.terms).len() && has_text(
                list[k - 1],
                #[trigger] filter_terms(q.terms)[i],
            ))),
    decreases n,
{
    let m = (n - 1) as nat;
    let before = wanted_lines(q, list, m);
    pushed_holds(before, (n as u64, list[n - 1]), (k as u64, list[k - 1]));
    if k <= m {
        imports_are_answered(q, list, m, k);
    } else {
        crate::search::lines::wanted_lines_are_in_range(q, list, m);
        if before.contains((k as u64, list[k - 1])) {
            let i = before.index_of((k as u64, list[k - 1]));
            assert(before[i].0 <= m);
        }
    }
}

/// Every term but the word for imports narrows them.
pub proof fn other_terms_narrow_imports(terms: Seq<Seq<char>>, t: Seq<char>)
    ensures
        filter_terms(terms).contains(t) <==> terms.contains(t) && lower(t) != lower("imports"@),
    decreases terms.len(),
{
    if terms.len() > 0 {
        let shorter = terms.drop_last();
        other_terms_narrow_imports(shorter, t);
        assert(terms =~= shorter.push(terms.last()));
        pushed_holds(shorter, terms.last(), t);
        pushed_holds(filter_terms(shorter), terms.last(), t);
    }
}

/// Two hundred lines of a range and forty lines with a term are answered; where everything
/// is asked for, five hundred and twelve and two hundred.
pub proof fn answers_are_limited()
    ensures
        lines_limit(true, false) == 200,
        lines_limit(false, false) == 40,
        lines_limit(true, true) == 512,
        lines_limit(false, true) == 200,
        location_limit(true, false) == 96,
        location_limit(true, true) == 96,
        location_limit(false, true) == 16,
        location_limit(false, false) == 32,
{
}

/// A range of lines is answered in one result, which begins at the first of them and shows
/// them as they stand; where no line is left out there is no note.
pub proof fn ranges_are_shown_as_they_stand(
    q: OccurrenceView,
    source: Seq<char>,
    spans: Seq<SpanView>,
    main_lines: Option<u64>,
    path: Seq<char>,
    all: bool,
    i: int,
)
    requires
        q.terms.len() == 0,
        ({
            let list = wanted_lines(q, line_list(source), line_list(source).len());
            0 <= i < list.len() <= 200
        }),
    ensures
        ({
            let list = wanted_lines(q, line_list(source), line_list(source).len());
            let answer = lines_answer(q, source, spans, main_lines, path, all);
            let shown = Seq::new(list.len(), |k: int| list[k].1);
            &&& answer.hits.len() == 1 && answer.note is None && answer.ok
            &&& answer.hits[0].kind == "source-range"@
            &&& answer.hits[0].path == path
            &&& answer.hits[0].line == list[0].0
            &&& answer.hits[0].source == Some(joined(shown, "\n"@))
        }),
{
    let list = wanted_lines(q, line_list(source), line_list(source).len());
    let shown = Seq::new(list.len(), |k: int| list[k].1);
    let limit = lines_limit(true, all) as int;
    assert(front(list, limit) == list);
    assert(listed_lines(list, true) =~= shown);
    assert(!import_terms(q.terms));
}

/// A line that is found by a term is listed behind its number.
pub proof fn found_lines_are_numbered(number: u64, line: Seq<char>)
    ensures
        listed_line(number, line, true) == line,
        listed_line(number, line, false) == right_aligned(decimal(number as nat), 5) + "  "@ + line,
        ends(listed_line(number, line, false), line),
{
    part_ends(right_aligned(decimal(number as nat), 5) + "  "@, line);
}

/// A range that the file of a workspace is too short for, though the file of the main
/// directory is not, is answered with advice to synchronise; any other that has no line is
/// told to be empty.
pub proof fn stale_sources_are_told(
    q: OccurrenceView,
    source_lines: nat,
    main_lines: Option<u64>,
    listed: bool,
    all: bool,
)
    ensures
        ({
            let note = lines_note(
                q,
                Seq::empty(),
                Seq::empty(),
                source_lines,
                main_lines,
                listed,
                all,
            );
            let stale = source_lines < q.first_line && main_lines is Some && main_lines->0
                >= q.first_line;
            &&& q.terms.len() == 0 && stale ==> note == Some(
                "workspace source is stale; run mathmux sync"@,
            )
            &&& q.terms.len() == 0 && !stale ==> note == Some("no source lines in range"@)
            &&& q.terms.len() > 0 ==> note == Some("no literal source matches"@)
        }),
{
}

/// An outline lists every declaration of a file and neither its fields, its imports nor the
/// file itself.
pub proof fn outlines_list_declarations(entries: Seq<EntryView>, s: SpanView)
    ensures
        outline_entries(entries).contains(s) <==> exists|i: int|
            0 <= i < entries.len() && (#[trigger] entries[i]).kind != "field"@ && entries[i].kind
                != "file"@ && entries[i].kind != "imports"@ && s == (SpanView {
                start: entries[i].line,
                end: entries[i].line,
                name: entries[i].name,
                kind: entries[i].kind,
                signature: entries[i].signature,
            }),
    decreases entries.len(),
{
    if entries.len() > 0 {
        let shorter = entries.drop_last();
        let e = entries.last();
        let own = SpanView {
            start: e.line,
            end: e.line,
            name: e.name,
            kind: e.kind,
            signature: e.signature,
        };
        outlines_list_declarations(shorter, s);
        pushed_holds(outline_entries(shorter), own, s);
        if outline_entries(entries).contains(s) {
            if outline_entries(shorter).contains(s) {
                let i = choose|i: int|
                    0 <= i < shorter.len() && (#[trigger] shorter[i]).kind != "field"@
                        && shorter[i].kind != "file"@ && shorter[i].kind != "imports"@ && s == (
                    SpanView {
                        start: shorter[i].line,
                        end: shorter[i].line,
                        name: shorter[i].name,
                        kind: shorter[i].kind,
                        signature: shorter[i].signature,
                    });
                assert(entries[i] == shorter[i]);
            } else {
                assert(entries[entries.len() - 1] == e);
            }
        }
        if exists|i: int|
            0 <= i < entries.len() && (#[trigger] entries[i]).kind != "field"@ && entries[i].kind
                != "file"@ && entries[i].kind != "imports"@ && s == (SpanView {
                start: entries[i].line,
                end: entries[i].line,
                name: entries[i].name,
                kind: entries[i].kind,
                signature: entries[i].signature,
            }) {
            let i = choose|i: int|
                0 <= i < entries.len() && (#[trigger] entries[i]).kind != "field"@
                    && entries[i].kind != "file"@ && entries[i].kind != "imports"@ && s == (
                SpanView {
                    start: entries[i].line,
                    end: entries[i].line,
                    name: entries[i].name,
                    kind: entries[i].kind,
                    signature: entries[i].signature,
                });
            if i < shorter.len() {
                assert(shorter[i] == entries[i]);
            }
        }
    }
}

/// A line of an outline begins with the number, the kind and the name of its declaration,
/// and is at most a hundred and sixty characters long unless those alone are longer.
pub proof fn outline_lines_are_short(e: SpanView)
    ensures
        ({
            let head = right_aligned(decimal(e.start as nat), 5) + "  "@ + e.kind + " "@ + e.name;
            &&& head.len() >= 160 || e.signature.len() == 0 ==> outline_line(e) == head
            &&& head.len() < 160 ==> outline_line(e).len() <= 160
            &&& head.len() + 3 + e.signature.len() <= 160 && e.signature.len() > 0 ==> outline_line(
                e,
            ) == head + " : "@ + e.signature
        }),
{
    reveal_strlit(" : ");
    reveal_strlit("…");
}

/// The outline of a file counts its declarations and its lines; a file without
/// declarations says so.
pub proof fn outlines_count_declarations(
    entries: Seq<EntryView>,
    source: Seq<char>,
    module: Seq<char>,
    path: Seq<char>,
)
    ensures
        ({
            let answer = outline_answer(entries, source, module, path);
            let count = outline_entries(entries).len();
            &&& count == 0 ==> answer.hits.len() == 0 && answer.note == Some(
                "no declarations in source file"@,
            )
            &&& count > 0 ==> answer.hits.len() == 1 && answer.hits[0].signature == Some(
                decimal(count) + " declarations, "@ + decimal(line_list(source).len()) + " lines"@,
            ) && answer.hits[0].path == path && answer.hits[0].module == module
            &&& 0 < count <= 200 ==> answer.note is None
            &&& count > 200 ==> answer.note == Some(
                "+"@ + decimal((count - 200) as nat) + " declarations omitted"@,
            )
        }),
{
    let heads = outline_entries(entries);
    ranking_is_permutation(heads.map_values(|s: SpanView| seq![s.start]));
}

/// Declarations are listed by their lines, all of them.
pub proof fn spans_are_listed_by_line(list: Seq<SpanView>, i: int, j: int)
    requires
        0 <= i < j < list.len(),
    ensures
        in_line_order(list).len() == list.len(),
        in_line_order(list)[i].start <= in_line_order(list)[j].start,
        forall|s: SpanView| list.contains(s) ==> #[trigger] in_line_order(list).contains(s),
{
    let keys = list.map_values(|s: SpanView| seq![s.start]);
    ranking_is_permutation(keys);
    ranking_is_sorted(keys, i, j);
    let order = ranking(keys);
    let a = order[i];
    let b = order[j];
    if keys[a] != keys[b] {
        if keys[a][0] == keys[b][0] {
            assert(keys[a] =~= keys[b]);
        }
        lex_less_at(keys[a], keys[b], 0);
    } else {
        assert(keys[a][0] == keys[b][0]);
    }
    assert forall|s: SpanView| list.contains(s) implies #[trigger] in_line_order(list).contains(
        s,
    ) by {
        let k = list.index_of(s);
        assert(order.contains(k));
        assert(in_line_order(list)[order.index_of(k)] == s);
    }
}

/// No declaration is listed twice in a row: of two with the same line and name one is kept.
pub proof fn twins_are_dropped(list: Seq<SpanView>, i: int)
    ensures
        0 <= i < without_twins(list).len() - 1 ==> without_twins(list)[i].start != without_twins(
            list,
        )[i + 1].start || without_twins(list)[i].name != without_twins(list)[i + 1].name,
        list.len() > 0 ==> without_twins(list).len() > 0 && without_twins(list).last().start
            == list.last().start && without_twins(list).last().name == list.last().name,
        forall|s: SpanView| #[trigger] without_twins(list).contains(s) ==> list.contains(s),
    decreases list.len(),
{
    if list.len() > 0 {
        let shorter = list.drop_last();
        twins_are_dropped(shorter, i);
        let kept = without_twins(shorter);
        assert forall|s: SpanView| #[trigger] without_twins(list).contains(s) implies list.contains(
            s,
        ) by {
            pushed_holds(kept, list.last(), s);
            assert(list =~= shorter.push(list.last()));
            pushed_holds(shorter, list.last(), s);
        }
    }
}

/// A declaration reaches up to the line before the next one, and the last up to the end of
/// the file; so no line belongs to two declarations that begin on different lines.
pub proof fn declarations_reach_up_to_the_next(list: Seq<SpanView>, last: u64, i: int)
    requires
        0 <= i < list.len(),
    ensures
        closed_spans(list, last).len() == list.len(),
        closed_spans(list, last)[i].name == list[i].name,
        closed_spans(list, last)[i].start == list[i].start,
        i + 1 < list.len() && list[i].start < list[i + 1].start ==> closed_spans(list, last)[i].end
            == list[i + 1].start - 1,
        i + 1 == list.len() && list[i].start <= last ==> closed_spans(list, last)[i].end == last,
{
}

/// Fields, imports, notations and files take no lines of their own; every other entry does.
pub proof fn entries_take_lines(entries: Seq<EntryView>, e: EntryView)
    ensures
        heads_in(entries.push(e)) == (if e.kind == "field"@ || e.kind == "file"@ || e.kind
            == "imports"@ || e.kind == "notation"@ || e.kind == "infix"@ || e.kind == "infixl"@
            || e.kind == "infixr"@ || e.kind == "prefix"@ || e.kind == "postfix"@ {
            heads_in(entries)
        } else {
            heads_in(entries).push(
                SpanView {
                    start: e.line,
                    end: e.line,
                    name: e.name,
                    kind: e.kind,
                    signature: e.signature,
                },
            )
        }),
{
    assert(entries.push(e).drop_last() =~= entries);
}

/// An entry fits better the more bytes of the tokens stand in it.
pub proof fn fitting_counts_tokens(text: Seq<char>, tokens: Seq<Seq<char>>, t: Seq<char>)
    requires
        matched_bytes(text, tokens) + byte_length(t) <= usize::MAX,
    ensures
        has_text(text, t) ==> matched_bytes(text, tokens.push(t)) == matched_bytes(text, tokens)
            + byte_length(t),
        !has_text(text, t) ==> matched_bytes(text, tokens.push(t)) == matched_bytes(text, tokens),
        matched_bytes(text, Seq::empty()) == 0,
{
    assert(tokens.push(t).drop_last() =~= tokens);
}

/// A request for a line of a file that is there is granted, with that file and that line,
/// counted from one; a file that is not there is refused by name, and so is a column.
pub proof fn lines_are_located(
    tree: TreeView,
    main: Option<TreeView>,
    query: Seq<char>,
    path: Seq<char>,
    line: u64,
    column: u64,
)
    requires
        !path.contains(':'),
    ensures
        location_part(query) == path + ":"@ + decimal(line as nat) ==> {
            let r = location_request(tree, main, query);
            &&& source_at(tree, path) is None ==> r == Err::<
                Option<LocationRequestView>,
                Seq<char>,
            >(missing_source(tree, main, path))
            &&& source_at(tree, path) is Some && line == 0 ==> r == Err::<
                Option<LocationRequestView>,
                Seq<char>,
            >("source line starts at 1"@)
            &&& source_at(tree, path) is Some && line > 0 ==> r == Ok::<
                Option<LocationRequestView>,
                Seq<char>,
            >(
                Some(
                    LocationRequestView {
                        path: source_at(tree, path)->0.path,
                        display_path: source_at(tree, path)->0.display,
                        line: Some(line),
                        project: source_at(tree, path)->0.project,
                    },
                ),
            )
        },
        location_part(query) == path + ":"@ + decimal(line as nat) + ":"@ + decimal(column as nat)
            ==> location_request(tree, main, query) == Err::<
            Option<LocationRequestView>,
            Seq<char>,
        >("positions use FILE:LINE; columns are not supported"@),
{
    reveal_strlit(":");
    numbers_hold_digits(line as nat, ':');
    numbers_hold_digits(column as nat, ':');
    decimal_reads_back(line as nat, u64::MAX as nat);
    decimal_reads_back(column as nat, u64::MAX as nat);
    rcut_at_mark(path, ":"@, decimal(line as nat));
    rcut_at_mark(path + ":"@ + decimal(line as nat), ":"@, decimal(column as nat));
    no_mark_no_cut(path, ":"@);
    crate::text::number::decimal_digits(line as nat);
    if alike(decimal(line as nat), "tail"@) {
        digits_are_not_tail(line as nat);
    }
}

proof fn digits_are_not_tail(n: nat)
    ensures
        !alike(decimal(n), "tail"@),
{
    reveal_strlit("tail");
    crate::text::number::decimal_digits(n);
    let low = lower(decimal(n));
    if alike(decimal(n), "tail"@) {
        assert(crate::text::class::digit(decimal(n)[0]));
        assert(low[0] == lower("tail"@)[0]);
    }
}

/// The end of a file is its last line; any other line is as it was asked for.
pub proof fn the_tail_is_the_last_line(q: LocationRequestView, source: Seq<char>, expanded: bool)
    requires
        1 <= line_list(source).len() <= u64::MAX,
    ensures
        q.line is None ==> location_in_source(q, source, expanded).line == line_list(source).len()
            && location_in_source(q, source, expanded).tail,
        q.line matches Some(n) ==> location_in_source(q, source, expanded).line == n
            && !location_in_source(q, source, expanded).tail,
        location_in_source(q, source, expanded).path == q.path,
{
}

/// Every line that is shown stands behind its own number.
pub proof fn shown_lines_are_numbered(list: Seq<Seq<char>>, start: int, end: int, k: int)
    requires
        0 <= start <= k < end <= list.len(),
    ensures
        numbered(list, start, end).len() == end - start,
        numbered(list, start, end)[k - start] == right_aligned(decimal((k + 1) as nat), 5) + "  "@
            + list[k],
{
}

/// A line is shown inside the last declaration that holds it, under its name; without one
/// it is shown as source.
pub proof fn lines_are_shown_inside_their_declaration(
    at: LocationView,
    source: Seq<char>,
    spans: Seq<SpanView>,
    path: Seq<char>,
    note: Option<Seq<char>>,
    source_only: bool,
)
    ensures
        ({
            let answer = location_answer(at, source, spans, path, note, source_only);
            let hit = answer.hits[0];
            &&& answer.hits.len() == 1 && answer.note == note && answer.ok
            &&& hit.path == path && hit.line == at.line
            &&& source_only ==> answer.inference == "source-only"@
            &&& !source_only ==> answer.inference == "source"@
            &&& at.expanded ==> hit.kind == "location-expanded"@
            &&& !at.expanded ==> hit.kind == "location"@
            &&& (forall|i: int|
                0 <= i < spans.len() ==> !((#[trigger] spans[i]).start <= at.line <= spans[i].end))
                ==> hit.name == "source"@
            &&& (exists|i: int|
                0 <= i < spans.len() && (#[trigger] spans[i]).start <= at.line <= spans[i].end)
                ==> exists|i: int|
                0 <= i < spans.len() && (#[trigger] spans[i]).start <= at.line <= spans[i].end
                    && hit.name == spans[i].name && begins(
                    hit.signature->0,
                    "inside "@ + spans[i].kind + " lines "@ + decimal(spans[i].start as nat) + "-"@
                        + decimal(spans[i].end as nat),
                ) && forall|j: int|
                    i < j < spans.len() ==> !((#[trigger] spans[j]).start <= at.line
                        <= spans[j].end)
        }),
{
    span_at_is_last(spans, at.line, spans.len());
    match span_at(spans, at.line, spans.len()) {
        Some(i) => {
            assert(spans_line(spans[i], at.line));
            assert(spans[i].start <= at.line <= spans[i].end);
            assert forall|j: int| i < j < spans.len() implies !((#[trigger] spans[j]).start
                <= at.line <= spans[j].end) by {
                assert(!spans_line(spans[j], at.line));
            }
            let head = "inside "@ + spans[i].kind + " lines "@ + decimal(spans[i].start as nat)
                + "-"@ + decimal(spans[i].end as nat);
            let hit = location_answer(at, source, spans, path, note, source_only).hits[0];
            assert(hit.signature->0.take(head.len() as int) =~= head);
        },
        None => {
            assert forall|i: int| 0 <= i < spans.len() implies !((#[trigger] spans[i]).start
                <= at.line <= spans[i].end) by {
                assert(!spans_line(spans[i], at.line));
            }
        },
    }
}

/// A file with a range of lines asks for those lines; one with terms alone for all lines;
/// and a file of which nothing is asked is refused.
pub proof fn files_are_asked_for_their_lines(
    tree: TreeView,
    main: Option<TreeView>,
    file: Seq<char>,
    first: u64,
    last: u64,
    terms: Seq<Seq<char>>,
)
    requires
        !file.contains(':'),
        crate::path::lean_file(file),
        crate::path::extension_of(file) is Some,
        source_at(tree, file) is Some,
        0 < first <= last,
    ensures
        ({
            let at = file + ":"@ + (decimal(first as nat) + "-"@ + decimal(last as nat));
            let r = target_request(tree, main, at, terms);
            let plain = target_request(tree, main, file, terms);
            &&& r matches Ok(Some(q)) && q.first_line == first && q.last_line == last && q.terms
                == terms && q.path == source_at(tree, file)->0.path && q.additional_ranges.len()
                == 0
            &&& terms.len() > 0 ==> (plain matches Ok(Some(q)) && q.first_line == 1 && q.last_line
                == u64::MAX && q.terms == terms && q.path == source_at(tree, file)->0.path)
            &&& terms.len() == 0 ==> plain == Err::<Option<OccurrenceView>, Seq<char>>(
                facet_needed(file),
            )
        }),
{
    reveal_strlit(":");
    reveal_strlit("-");
    let range = decimal(first as nat) + "-"@ + decimal(last as nat);
    numbers_hold_digits(first as nat, ':');
    numbers_hold_digits(last as nat, ':');
    if range.contains(':') {
        let i = range.index_of(':');
        let n = decimal(first as nat).len() as int;
        if i < n {
            assert(decimal(first as nat)[i] == ':');
            assert(decimal(first as nat).contains(':'));
        } else if i > n {
            assert(decimal(last as nat)[i - n - 1] == ':');
            assert(decimal(last as nat).contains(':'));
        }
    }
    rcut_at_mark(file, ":"@, range);
    no_mark_no_cut(file, ":"@);
    ranges_read_back(first, last);
}

/// The terms of a request are its words but the file, without the quotes around them, and
/// none is empty.
pub proof fn terms_are_the_other_words(parts: Seq<Seq<char>>, target: int, n: nat, t: Seq<char>)
    requires
        n <= parts.len(),
    ensures
        request_terms(parts, target, n).contains(t) <==> exists|i: int|
            0 <= i < n && i != target && t == trimmed(#[trigger] parts[i], Class::Only("'\""))
                && t.len() > 0,
    decreases n,
{
    if n > 0 {
        let m = (n - 1) as nat;
        terms_are_the_other_words(parts, target, m, t);
        let own = trimmed(parts[n - 1], Class::Only("'\""));
        pushed_holds(request_terms(parts, target, m), own, t);
    }
}

/// The file of a request is its first word that names one.
pub proof fn the_first_file_is_meant(parts: Seq<Seq<char>>, i: int)
    requires
        0 <= i <= parts.len(),
    ensures
        i <= lean_from(parts, i) <= parts.len(),
        lean_from(parts, i) < parts.len() ==> crate::search::occurrences::lean_target(
            parts[lean_from(parts, i)],
        ),
        forall|j: int|
            i <= j < lean_from(parts, i) ==> !crate::search::occurrences::lean_target(
                #[trigger] parts[j],
            ),
    decreases parts.len() - i,
{
    if i < parts.len() && !crate::search::occurrences::lean_target(parts[i]) {
        the_first_file_is_meant(parts, i + 1);
    }
}

/// Alternatives are joined only within one file; those with the same range bring their
/// terms together, and those with different ranges only where neither has a term.
pub proof fn alternatives_share_a_file(a: OccurrenceView, b: OccurrenceView)
    ensures
        joined_request(a, b) is Ok <==> b.path == a.path && (b.first_line == a.first_line
            && b.last_line == a.last_line || a.terms.len() == 0 && b.terms.len() == 0),
        joined_request(a, b) matches Ok(q) ==> {
            &&& q.path == a.path && q.first_line == a.first_line && q.last_line == a.last_line
            &&& q.terms == a.terms + b.terms
            &&& b.first_line == a.first_line && b.last_line == a.last_line || exists|i: int|
                0 <= i < q.additional_ranges.len() && #[trigger] q.additional_ranges[i] == (
                    b.first_line,
                    b.last_line,
                )
        },
{
    if let Ok(q) = joined_request(a, b) {
        if !(b.first_line == a.first_line && b.last_line == a.last_line) {
            assert(a.terms + b.terms =~= a.terms);
            assert(q.additional_ranges[a.additional_ranges.len() as int] == (
                b.first_line,
                b.last_line,
            ));
        }
    }
}

/// A facet that a colon binds to a file is refused with the form that is meant.
pub proof fn bound_facets_are_refused(file: Seq<char>, facet: Seq<char>)
    requires
        !facet.contains(':'),
        crate::path::lean_file(file),
        lower(facet) == "outline"@ || lower(facet) == "declarations"@ || lower(facet)
            == "imports"@ || lower(facet) == "dependents"@,
    ensures
        attached_facet(file + ":"@ + facet) == Some(
            "source facets use a space: "@ + file + " "@ + facet,
        ),
{
    reveal_strlit(":");
    rcut_at_mark(file, ":"@, facet);
}

/// An expression and its scope are refused where the expression is too long or not valid,
/// where options stand in the scope, and where the scope is more than one word.
pub proof fn regex_faults(pattern: Seq<char>, scope: Seq<char>)
    ensures
        regex_fault(pattern, scope) is None ==> {
            &&& byte_length(pattern) <= 500
            &&& words(scope).len() <= 1
            &&& words(scope).len() == 1 ==> words(scope)[0] != "--all"@ && words(scope)[0]
                != "--limit"@ && lower(words(scope)[0]) != lower("source"@)
        },
        byte_length(pattern) > 500 ==> regex_fault(pattern, scope) == Some(
            "source regex is too long"@,
        ),
        byte_length(pattern) <= 500 && crate::search::patterns::pattern_valid(pattern) && words(
            scope,
        ).len() == 0 ==> regex_fault(pattern, scope) is None,
{
}

/// A range that a scope names limits the search to its lines; without one all lines are
/// searched; without a scope the whole workspace is.
pub proof fn scopes_limit_the_search(
    tree: TreeView,
    main: Option<TreeView>,
    query: Seq<char>,
)
    ensures
        regex_request(tree, main, query) matches Ok(Some(q)) ==> {
            let parts = regex_parts(query)->0;
            let (scope, range) = ranged(parts.1);
            &&& regex_parts(query) is Some && regex_fault(parts.0, parts.1) is None
            &&& q.pattern == parts.0
            &&& range matches Some(r) ==> q.first_line == r.0 && q.last_line == r.1
            &&& range is None ==> q.first_line == 1 && q.last_line == u64::MAX
            &&& scope.len() == 0 ==> q.scope == tree.real_root
        },
        regex_parts(query) is None ==> regex_request(tree, main, query) == Ok::<
            Option<RegexQueryView>,
            Seq<char>,
        >(None),
{
}

/// A directory is searched only where it lies in the workspace or in its packages.
pub proof fn searches_stay_in_the_workspace(tree: TreeView, scope: Seq<char>)
    ensures
        directory_at(tree, scope) matches Ok(path) ==> crate::path::lies_under(path, tree.real_root)
            || (tree.packages is Some && crate::path::lies_under(path, tree.packages->0)),
{
}

/// The slash that closes an expression is the first that no backslash escapes.
pub proof fn the_first_free_slash_closes(text: Seq<char>, i: int)
    requires
        1 <= i <= text.len(),
    ensures
        match closing_slash(text, i) {
            Some(k) => i <= k < text.len() && text[k] == '/' && backslashes(text, 1, k) % 2 == 0
                && forall|j: int|
                i <= j < k && #[trigger] text[j] == '/' ==> backslashes(text, 1, j) % 2 == 1,
            None => forall|j: int|
                i <= j < text.len() && #[trigger] text[j] == '/' ==> backslashes(text, 1, j) % 2
                    == 1,
        },
    decreases text.len() - i,
{
    if i < text.len() && !(text[i] == '/' && backslashes(text, 1, i) % 2 == 0) {
        the_first_free_slash_closes(text, i + 1);
    }
}

} // verus!
