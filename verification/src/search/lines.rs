//! Lines of a source file, as they are shown.
use crate::path::{join_parts, path_of, remainder, strip_root};
use crate::search::declarations::{entries_of, heads_of, notations_in, parse_source};
use crate::search::groups::{
    add_source_match_group, count_omitted, file_spans, group_hits, grouped, groups_shown,
    hits_of_groups, lines_omitted, match_groups, GroupView, SourceMatchGroup,
};
use crate::search::limits::{
    OUTLINE_LINE_CHARS, SOURCE_OCCURRENCE_ALL_LIMIT, SOURCE_OCCURRENCE_LIMIT,
    SOURCE_RANGE_ALL_LIMIT, SOURCE_RANGE_LIMIT,
};
use crate::search::modules::{module_name, module_of, SourceKind};
use crate::search::occurrences::{
    asks_outline, outline_terms, OccurrenceView, SourceOccurrenceQuery,
};
use crate::search::records::{
    hit_views, hit_views_push, usage_views, HitView, ResultView, SearchHit, SearchResult,
    SearchUsage,
};
use crate::search::source::{entry_views, EntryView, SourceEntry};
use crate::search::spans::{
    declaration_spans, declared_views, enclosing_declaration_span, in_line_order, order_spans,
    span_at, DeclarationSpan, SpanView,
};
use crate::text::layout::{front, shortened, truncate_line};
use crate::text::make::{
    alike, cat2, cat3, cat4, cat5, join, joined, own, prefix_all, prefix_step, push_str, same,
    same_ignoring_case, strings, strings_push, strs,
};
use crate::text::number::{align_right, decimal, right_aligned, show, show_size};
use crate::text::pieces::{line_list, lines};
use crate::text::scan::{
    bare_start, begins, contains, has_text, opt_string, starts_with, trim_start,
};
use vstd::prelude::*;

verus! {

broadcast use {strings_push, hit_views_push};

/// A path without the workspace that it lies in.
pub open spec fn path_shown(path: Seq<char>, workspace: Seq<char>) -> Seq<char> {
    match remainder(path, workspace) {
        Some(parts) => path_of(parts),
        None => path,
    }
}

/// The name that a file is shown under.
pub open spec fn name_shown(display: Option<Seq<char>>, path: Seq<char>, workspace: Seq<char>) -> Seq<
    char,
> {
    match display {
        Some(name) => name,
        None => path_shown(path, workspace),
    }
}

/// Computes [`name_shown`].
pub fn show_name(display: &Option<String>, path: &str, workspace: &str) -> (r: String)
    ensures
        r@ == name_shown(opt_string(*display), path@, workspace@),
{
    match display {
        Some(name) => name.clone(),
        None => match strip_root(path, workspace) {
            Some(parts) => join_parts(&parts),
            None => own(path),
        },
    }
}

/// A number of a line with its text.
pub open spec fn numbered_views(list: Seq<(u64, &str)>) -> Seq<(u64, Seq<char>)> {
    list.map_values(|p: (u64, &str)| (p.0, p.1@))
}

/// Whether some range of a list holds a line.
pub open spec fn ranges_hold(list: Seq<(u64, u64)>, line: int) -> bool {
    exists|i: int| 0 <= i < list.len() && (#[trigger] list[i]).0 <= line <= list[i].1
}

/// Whether a request asks for a line, by its number.
pub open spec fn line_in_ranges(q: OccurrenceView, line: int) -> bool {
    q.first_line <= line <= q.last_line || ranges_hold(q.additional_ranges, line)
}

/// A line that imports a module.
pub open spec fn import_line(line: Seq<char>) -> bool {
    begins(bare_start(line), "import "@) || begins(bare_start(line), "public import "@)
}

/// Whether a line holds some term.
pub open spec fn line_holds(line: Seq<char>, terms: Seq<Seq<char>>) -> bool {
    exists|i: int| 0 <= i < terms.len() && has_text(line, #[trigger] terms[i])
}

/// Terms that ask for imports.
pub open spec fn import_terms(terms: Seq<Seq<char>>) -> bool {
    exists|i: int| 0 <= i < terms.len() && alike(#[trigger] terms[i], "imports"@)
}

/// The terms beside the one that asks for imports.
pub open spec fn filter_terms(terms: Seq<Seq<char>>) -> Seq<Seq<char>>
    decreases terms.len(),
{
    if terms.len() == 0 {
        Seq::empty()
    } else if alike(terms.last(), "imports"@) {
        filter_terms(terms.drop_last())
    } else {
        filter_terms(terms.drop_last()).push(terms.last())
    }
}

/// Whether a request asks for a line.
pub open spec fn line_wanted(q: OccurrenceView, number: int, line: Seq<char>) -> bool {
    line_in_ranges(q, number) && if import_terms(q.terms) {
        import_line(line) && (filter_terms(q.terms).len() == 0 || line_holds(
            line,
            filter_terms(q.terms),
        ))
    } else {
        q.terms.len() == 0 || line_holds(line, q.terms)
    }
}

/// The lines among the first `n` that a request asks for.
pub open spec fn wanted_lines(q: OccurrenceView, list: Seq<Seq<char>>, n: nat) -> Seq<
    (u64, Seq<char>),
>
    decreases n,
{
    if n == 0 {
        Seq::empty()
    } else {
        let before = wanted_lines(q, list, (n - 1) as nat);
        if line_wanted(q, n as int, list[n - 1]) {
            before.push((n as u64, list[n - 1]))
        } else {
            before
        }
    }
}

fn is_in_ranges(q: &SourceOccurrenceQuery, line: u64) -> (r: bool)
    ensures
        r == line_in_ranges(q@, line as int),
{
    if q.first_line <= line && line <= q.last_line {
        return true;
    }
    for i in 0..q.additional_ranges.len()
        invariant
            forall|j: int|
                0 <= j < i ==> !((#[trigger] q.additional_ranges@[j]).0 <= line
                    <= q.additional_ranges@[j].1),
    {
        let range = q.additional_ranges[i];
        if range.0 <= line && line <= range.1 {
            assert(q@.additional_ranges[i as int] == range);
            return true;
        }
    }
    false
}

fn does_line_hold(line: &str, terms: &Vec<String>) -> (r: bool)
    ensures
        r == line_holds(line@, strings(terms@)),
{
    for i in 0..terms.len()
        invariant
            forall|j: int| 0 <= j < i ==> !has_text(line@, #[trigger] strings(terms@)[j]),
    {
        assert(strings(terms@)[i as int] == terms@[i as int]@);
        if contains(line, terms[i].as_str()) {
            return true;
        }
    }
    assert(strings(terms@).len() == terms.len());
    false
}

fn ask_imports(terms: &Vec<String>) -> (r: bool)
    ensures
        r == import_terms(strings(terms@)),
{
    for i in 0..terms.len()
        invariant
            forall|j: int| 0 <= j < i ==> !alike(#[trigger] strings(terms@)[j], "imports"@),
    {
        assert(strings(terms@)[i as int] == terms@[i as int]@);
        if same_ignoring_case(terms[i].as_str(), "imports") {
            return true;
        }
    }
    assert(strings(terms@).len() == terms.len());
    false
}

fn other_terms(terms: &Vec<String>) -> (r: Vec<String>)
    ensures
        strings(r@) == filter_terms(strings(terms@)),
{
    let ghost views = strings(terms@);
    let mut out: Vec<String> = Vec::new();
    assert(strings(out@) =~= Seq::empty());
    for i in 0..terms.len()
        invariant
            views == strings(terms@),
            strings(out@) == filter_terms(views.take(i as int)),
    {
        proof {
            prefix_step(views, i as int);
        }
        if !same_ignoring_case(terms[i].as_str(), "imports") {
            out.push(terms[i].clone());
        }
    }
    proof {
        prefix_all(views);
    }
    out
}

fn collect_wanted<'a>(q: &SourceOccurrenceQuery, list: &Vec<&'a str>) -> (r: Vec<(u64, &'a str)>)
    ensures
        numbered_views(r@) == wanted_lines(q@, strs(list@), list.len() as nat),
{
    let imports = ask_imports(&q.terms);
    let filters = other_terms(&q.terms);
    assert(strings(q.terms@).len() == q.terms.len());
    assert(strings(filters@).len() == filters.len());
    let mut out: Vec<(u64, &'a str)> = Vec::new();
    assert(numbered_views(out@) =~= Seq::empty());
    for i in 0..list.len()
        invariant
            imports == import_terms(q@.terms),
            strings(filters@) == filter_terms(q@.terms),
            strings(q.terms@).len() == q.terms.len(),
            strings(filters@).len() == filters.len(),
            numbered_views(out@) == wanted_lines(q@, strs(list@), i as nat),
    {
        assert(strs(list@)[i as int] == list@[i as int]@);
        let number = i as u64 + 1;
        let line = list[i];
        let start = trim_start(line);
        let wanted = is_in_ranges(q, number) && if imports {
            (starts_with(start, "import ") || starts_with(start, "public import ")) && (
            filters.len() == 0 || does_line_hold(line, &filters))
        } else {
            q.terms.len() == 0 || does_line_hold(line, &q.terms)
        };
        if wanted {
            let ghost before = numbered_views(out@);
            out.push((number, line));
            assert(numbered_views(out@) =~= before.push((number, line@)));
        }
    }
    out
}

/// How many lines a request is answered with.
pub open spec fn lines_limit(no_terms: bool, all: bool) -> usize {
    if all && no_terms {
        SOURCE_RANGE_ALL_LIMIT
    } else if all {
        SOURCE_OCCURRENCE_ALL_LIMIT
    } else if no_terms {
        SOURCE_RANGE_LIMIT
    } else {
        SOURCE_OCCURRENCE_LIMIT
    }
}

/// A line as it is listed: as it stands, or behind its number.
pub open spec fn listed_line(number: u64, line: Seq<char>, plain: bool) -> Seq<char> {
    if plain {
        line
    } else {
        right_aligned(decimal(number as nat), 5) + "  "@ + line
    }
}

/// Lines as they are listed.
pub open spec fn listed_lines(list: Seq<(u64, Seq<char>)>, plain: bool) -> Seq<Seq<char>> {
    list.map_values(|p: (u64, Seq<char>)| listed_line(p.0, p.1, plain))
}

fn list_lines(list: &Vec<(u64, &str)>, limit: usize, plain: bool) -> (r: String)
    ensures
        r@ == joined(
            listed_lines(front(numbered_views(list@), limit as int), plain),
            "\n"@,
        ),
{
    let ghost wanted = listed_lines(front(numbered_views(list@), limit as int), plain);
    let stop = if list.len() < limit {
        list.len()
    } else {
        limit
    };
    let mut out: Vec<String> = Vec::new();
    assert(strings(out@) =~= wanted.take(0));
    for i in 0..stop
        invariant
            stop <= list.len(),
            stop == wanted.len(),
            wanted == listed_lines(front(numbered_views(list@), limit as int), plain),
            strings(out@) == wanted.take(i as int),
    {
        proof {
            prefix_step(wanted, i as int);
            assert(numbered_views(list@)[i as int] == (list@[i as int].0, list@[i as int].1@));
        }
        let entry = if plain {
            own(list[i].1)
        } else {
            let aligned = align_right(show(list[i].0).as_str(), 5);
            cat3(aligned.as_str(), "  ", list[i].1)
        };
        out.push(entry);
    }
    proof {
        prefix_all(wanted);
    }
    join(&out, "\n")
}

/// What the terms of a request for imports are called.
pub open spec fn imports_label(terms: Seq<Seq<char>>) -> Seq<char> {
    let filters = joined(filter_terms(terms), " | "@);
    if filters.len() == 0 {
        "imports"@
    } else {
        "imports "@ + filters
    }
}

/// What is said of a range of lines.
pub open spec fn range_signature(
    q: OccurrenceView,
    count: nat,
    enclosing: Option<SpanView>,
) -> Seq<char> {
    match enclosing {
        None => if import_terms(q.terms) {
            decimal(count) + " for "@ + imports_label(q.terms)
        } else if q.terms.len() > 0 {
            decimal(count) + " for "@ + joined(q.terms, " | "@)
        } else {
            decimal(count) + " source lines"@
        },
        Some(span) => decimal(count) + " lines; inside "@ + span.name + " lines "@ + decimal(
            span.start as nat,
        ) + "-"@ + decimal(span.end as nat),
    }
}

/// The declaration around the first of some lines.
pub open spec fn first_enclosing(list: Seq<(u64, Seq<char>)>, spans: Seq<SpanView>) -> Option<
    SpanView,
> {
    if list.len() == 0 {
        None
    } else {
        match span_at(spans, list[0].0, spans.len()) {
            Some(i) => Some(spans[i]),
            None => None,
        }
    }
}

/// A result that shows a text.
pub open spec fn shown_hit(
    name: Seq<char>,
    kind: Seq<char>,
    signature: Seq<char>,
    module: Seq<char>,
    path: Seq<char>,
    line: u64,
    source: Option<Seq<char>>,
) -> HitView {
    HitView {
        name,
        kind,
        signature: Some(signature),
        module,
        path,
        line,
        doc: None,
        source,
        usages: Seq::empty(),
        applicable: false,
        required_import: None,
    }
}

fn make_shown_hit(
    name: &str,
    kind: &str,
    signature: String,
    module: &str,
    path: &str,
    line: u64,
    source: Option<String>,
) -> (r: SearchHit)
    ensures
        r@ == shown_hit(name@, kind@, signature@, module@, path@, line, opt_string(source)),
{
    let usages: Vec<SearchUsage> = Vec::new();
    assert(usage_views(usages@) =~= Seq::empty());
    SearchHit {
        name: own(name),
        kind: own(kind),
        signature: Some(signature),
        module: own(module),
        path: own(path),
        line,
        doc: None,
        source,
        usages,
        applicable: false,
        required_import: None,
    }
}

/// Lines that are listed because a text stands in them.
pub open spec fn found_lines(terms: Seq<Seq<char>>) -> bool {
    terms.len() > 0 && !import_terms(terms)
}

/// The result that a list of lines makes, if there is one.
pub open spec fn range_hits(
    q: OccurrenceView,
    list: Seq<(u64, Seq<char>)>,
    spans: Seq<SpanView>,
    path: Seq<char>,
    limit: int,
) -> Seq<HitView> {
    let enclosing = first_enclosing(list, spans);
    if list.len() == 0 {
        Seq::empty()
    } else {
        seq![
            shown_hit(
                match enclosing {
                    Some(span) => span.name,
                    None => if found_lines(q.terms) {
                        "matches"@
                    } else {
                        "source"@
                    },
                },
                if found_lines(q.terms) {
                    "source-occurrences"@
                } else {
                    "source-range"@
                },
                range_signature(q, list.len(), enclosing),
                ""@,
                path,
                list[0].0,
                Some(joined(listed_lines(front(list, limit), q.terms.len() == 0), "\n"@)),
            ),
        ]
    }
}

fn make_range_hits(
    q: &SourceOccurrenceQuery,
    list: &Vec<(u64, &str)>,
    spans: &Vec<DeclarationSpan>,
    path: &str,
    limit: usize,
) -> (r: Vec<SearchHit>)
    ensures
        hit_views(r@) == range_hits(
            q@,
            numbered_views(list@),
            declared_views(spans@),
            path@,
            limit as int,
        ),
{
    let ghost views = numbered_views(list@);
    let ghost regions = declared_views(spans@);
    assert(views.len() == list.len());
    assert(regions.len() == spans.len());
    assert(strings(q.terms@).len() == q.terms.len());
    let mut out: Vec<SearchHit> = Vec::new();
    assert(hit_views(out@) =~= Seq::empty());
    if list.len() == 0 {
        return out;
    }
    assert(views[0] == (list@[0].0, list@[0].1@));
    let count = show_size(list.len());
    let imports = ask_imports(&q.terms);
    let found = q.terms.len() > 0 && !imports;
    let mut name = own(
        if found {
            "matches"
        } else {
            "source"
        },
    );
    let mut signature = own("");
    match enclosing_declaration_span(spans, list[0].0) {
        Some(i) => {
            assert(regions[i as int] == spans@[i as int]@);
            name = spans[i].name.clone();
            signature = cat4(count.as_str(), " lines; inside ", name.as_str(), " lines ");
            push_str(&mut signature, show(spans[i].start).as_str());
            push_str(&mut signature, "-");
            push_str(&mut signature, show(spans[i].end).as_str());
        },
        None => {
            if imports {
                let filters = join(&other_terms(&q.terms), " | ");
                let label = if filters.as_str().is_empty() {
                    own("imports")
                } else {
                    cat2("imports ", filters.as_str())
                };
                signature = cat3(count.as_str(), " for ", label.as_str());
            } else if q.terms.len() > 0 {
                signature = cat3(count.as_str(), " for ", join(&q.terms, " | ").as_str());
            } else {
                signature = cat2(count.as_str(), " source lines");
            }
        },
    }
    let text = list_lines(list, limit, q.terms.len() == 0);
    out.push(
        make_shown_hit(
            name.as_str(),
            if found {
                "source-occurrences"
            } else {
                "source-range"
            },
            signature,
            "",
            path,
            list[0].0,
            Some(text),
        ),
    );
    assert(hit_views(out@) =~= range_hits(q@, views, regions, path@, limit as int));
    out
}

/// Groups of the first `n` of some lines.
pub open spec fn groups_of_lines(
    list: Seq<(u64, Seq<char>)>,
    path: Seq<char>,
    spans: Seq<SpanView>,
    n: nat,
) -> Seq<GroupView>
    decreases n,
{
    if n == 0 {
        Seq::empty()
    } else {
        grouped(
            groups_of_lines(list, path, spans, (n - 1) as nat),
            path,
            spans,
            list[n - 1].0,
            list[n - 1].1,
        )
    }
}

fn collect_groups(list: &Vec<(u64, &str)>, path: &str, spans: &Vec<DeclarationSpan>) -> (r: Vec<
    SourceMatchGroup,
>)
    ensures
        match_groups(r@) == groups_of_lines(
            numbered_views(list@),
            path@,
            declared_views(spans@),
            list.len() as nat,
        ),
{
    let mut out: Vec<SourceMatchGroup> = Vec::new();
    assert(match_groups(out@) =~= Seq::empty());
    for i in 0..list.len()
        invariant
            match_groups(out@) == groups_of_lines(
                numbered_views(list@),
                path@,
                declared_views(spans@),
                i as nat,
            ),
    {
        assert(numbered_views(list@)[i as int] == (list@[i as int].0, list@[i as int].1@));
        add_source_match_group(&mut out, path, spans, list[i].0, list[i].1);
    }
    out
}

/// How many groups a request is answered with.
pub open spec fn groups_limit(all: bool) -> usize {
    if all {
        SOURCE_OCCURRENCE_LIMIT
    } else {
        12
    }
}

/// The note under an answer. A workspace whose file is too short for a range that the
/// project's main directory has is out of date.
pub open spec fn lines_note(
    q: OccurrenceView,
    list: Seq<(u64, Seq<char>)>,
    groups: Seq<GroupView>,
    source_lines: nat,
    main_lines: Option<u64>,
    listed: bool,
    all: bool,
) -> Option<Seq<char>> {
    let no_terms = q.terms.len() == 0;
    let limit = lines_limit(no_terms, all);
    let shown = groups_shown(groups.len(), groups_limit(all) as int);
    let omitted: nat = if listed {
        if list.len() > limit {
            (list.len() - limit) as nat
        } else {
            0
        }
    } else {
        lines_omitted(groups, shown, list.len() as usize) as nat
    };
    if list.len() == 0 && no_terms && source_lines < q.first_line && main_lines is Some
        && main_lines->0 >= q.first_line {
        Some("workspace source is stale; run mathmux sync"@)
    } else if list.len() == 0 {
        Some(
            if no_terms {
                "no source lines in range"@
            } else {
                "no literal source matches"@
            },
        )
    } else if omitted == 0 {
        None
    } else if no_terms {
        Some("+"@ + decimal(omitted) + " lines omitted; narrow the range"@)
    } else {
        Some(
            "+"@ + decimal(omitted) + " matches in "@ + decimal(
                if listed {
                    0nat
                } else {
                    (groups.len() - shown) as nat
                },
            ) + " declarations omitted; narrow the query"@,
        )
    }
}

/// An answer lists its lines in one result: where a range or imports are asked for, and
/// in a file without declarations. Elsewhere it groups them by declaration.
pub open spec fn answer_listed(terms: Seq<Seq<char>>, spans: Seq<SpanView>) -> bool {
    terms.len() == 0 || import_terms(terms) || spans.len() == 0
}

/// The answer to a request for lines.
pub open spec fn lines_answer(
    q: OccurrenceView,
    source: Seq<char>,
    spans: Seq<SpanView>,
    main_lines: Option<u64>,
    path: Seq<char>,
    all: bool,
) -> ResultView {
    let list = wanted_lines(q, line_list(source), line_list(source).len());
    let groups = groups_of_lines(list, path, spans, list.len());
    ResultView {
        hits: if answer_listed(q.terms, spans) {
            range_hits(q, list, spans, path, lines_limit(q.terms.len() == 0, all) as int)
        } else {
            group_hits(front(groups, groups_limit(all) as int))
        },
        inference: "source"@,
        note: lines_note(
            q,
            list,
            groups,
            line_list(source).len(),
            main_lines,
            answer_listed(q.terms, spans),
            all,
        ),
        ok: true,
    }
}

/// Computes [`lines_answer`].
pub fn answer_lines(
    q: &SourceOccurrenceQuery,
    source: &str,
    spans: &Vec<DeclarationSpan>,
    main_lines: Option<u64>,
    path: &str,
    all: bool,
) -> (r: SearchResult)
    ensures
        r@ == lines_answer(q@, source@, declared_views(spans@), main_lines, path@, all),
{
    let text = lines(source);
    assert(strs(text@).len() == text.len());
    let list = collect_wanted(q, &text);
    let ghost views = numbered_views(list@);
    assert(views.len() == list.len());
    assert(strings(q.terms@).len() == q.terms.len());
    let no_terms = q.terms.len() == 0;
    assert(declared_views(spans@).len() == spans.len());
    let listed = no_terms || ask_imports(&q.terms) || spans.len() == 0;
    let limit: usize = if all && no_terms {
        SOURCE_RANGE_ALL_LIMIT
    } else if all {
        SOURCE_OCCURRENCE_ALL_LIMIT
    } else if no_terms {
        SOURCE_RANGE_LIMIT
    } else {
        SOURCE_OCCURRENCE_LIMIT
    };
    let group_limit: usize = if all {
        SOURCE_OCCURRENCE_LIMIT
    } else {
        12
    };
    let groups = collect_groups(&list, path, spans);
    assert(match_groups(groups@).len() == groups.len());
    let mut omitted: usize = 0;
    let mut omitted_groups: usize = 0;
    if listed {
        if list.len() > limit {
            omitted = list.len() - limit;
        }
    } else {
        let counted = count_omitted(&groups, group_limit, list.len());
        omitted = counted.0;
        omitted_groups = counted.1;
    }
    let hits = if listed {
        make_range_hits(q, &list, spans, path, limit)
    } else {
        hits_of_groups(&groups, group_limit)
    };
    let stale = match main_lines {
        Some(n) => list.len() == 0 && no_terms && (text.len() as u64) < q.first_line && n
            >= q.first_line,
        None => false,
    };
    let count = show_size(omitted);
    let note = if stale {
        Some(own("workspace source is stale; run mathmux sync"))
    } else if list.len() == 0 {
        Some(
            own(
                if no_terms {
                    "no source lines in range"
                } else {
                    "no literal source matches"
                },
            ),
        )
    } else if omitted == 0 {
        None
    } else if no_terms {
        Some(cat3("+", count.as_str(), " lines omitted; narrow the range"))
    } else {
        let second = show_size(omitted_groups);
        Some(
            cat5(
                "+",
                count.as_str(),
                " matches in ",
                second.as_str(),
                " declarations omitted; narrow the query",
            ),
        )
    };
    SearchResult { hits, inference: own("source"), note, ok: true }
}

/// An entry that an outline lists.
pub open spec fn outlined(kind: Seq<char>) -> bool {
    !(kind == "field"@ || kind == "file"@ || kind == "imports"@)
}

/// The entries that an outline lists.
pub open spec fn outline_entries(entries: Seq<EntryView>) -> Seq<SpanView>
    decreases entries.len(),
{
    if entries.len() == 0 {
        Seq::empty()
    } else {
        let e = entries.last();
        let before = outline_entries(entries.drop_last());
        if outlined(e.kind) {
            before.push(
                SpanView {
                    start: e.line,
                    end: e.line,
                    name: e.name,
                    kind: e.kind,
                    signature: e.signature,
                },
            )
        } else {
            before
        }
    }
}

fn collect_outline(entries: &Vec<SourceEntry>) -> (r: Vec<DeclarationSpan>)
    ensures
        declared_views(r@) == outline_entries(entry_views(entries@)),
{
    let ghost views = entry_views(entries@);
    let mut out: Vec<DeclarationSpan> = Vec::new();
    assert(declared_views(out@) =~= Seq::empty());
    for i in 0..entries.len()
        invariant
            views == entry_views(entries@),
            declared_views(out@) == outline_entries(views.take(i as int)),
    {
        proof {
            prefix_step(views, i as int);
        }
        assert(views[i as int] == entries@[i as int]@);
        let kind = entries[i].kind.as_str();
        if !(same(kind, "field") || same(kind, "file") || same(kind, "imports")) {
            let ghost before = declared_views(out@);
            let head = DeclarationSpan {
                start: entries[i].line,
                end: entries[i].line,
                name: entries[i].name.clone(),
                kind: entries[i].kind.clone(),
                signature: entries[i].signature.clone(),
            };
            out.push(head);
            assert(declared_views(out@) =~= before.push(head@));
        }
    }
    proof {
        prefix_all(views);
    }
    out
}

/// A line of an outline.
pub open spec fn outline_line(e: SpanView) -> Seq<char> {
    let prefix = right_aligned(decimal(e.start as nat), 5) + "  "@ + e.kind + " "@ + e.name;
    if e.signature.len() == 0 || prefix.len() >= OUTLINE_LINE_CHARS {
        prefix
    } else {
        shortened(prefix + " : "@ + e.signature, OUTLINE_LINE_CHARS as nat)
    }
}

fn show_outline_line(e: &DeclarationSpan) -> (r: String)
    ensures
        r@ == outline_line(e@),
{
    let number = align_right(show(e.start).as_str(), 5);
    let prefix = cat5(number.as_str(), "  ", e.kind.as_str(), " ", e.name.as_str());
    if e.signature.as_str().is_empty() || prefix.as_str().unicode_len() >= OUTLINE_LINE_CHARS {
        prefix
    } else {
        let whole = cat3(prefix.as_str(), " : ", e.signature.as_str());
        truncate_line(whole.as_str(), OUTLINE_LINE_CHARS)
    }
}

/// The lines of an outline.
pub open spec fn outline_lines(list: Seq<SpanView>) -> Seq<Seq<char>> {
    list.map_values(|e: SpanView| outline_line(e))
}

/// The outline of a file with given entries.
pub open spec fn outline_answer(
    entries: Seq<EntryView>,
    source: Seq<char>,
    module: Seq<char>,
    path: Seq<char>,
) -> ResultView {
    let list = in_line_order(outline_entries(entries));
    ResultView {
        hits: if list.len() == 0 {
            Seq::empty()
        } else {
            seq![
                shown_hit(
                    "outline"@,
                    "outline"@,
                    decimal(list.len()) + " declarations, "@ + decimal(line_list(source).len())
                        + " lines"@,
                    module,
                    path,
                    list[0].start,
                    Some(
                        joined(
                            outline_lines(front(list, SOURCE_OCCURRENCE_ALL_LIMIT as int)),
                            "\n"@,
                        ),
                    ),
                ),
            ]
        },
        inference: "source"@,
        note: if list.len() == 0 {
            Some("no declarations in source file"@)
        } else if list.len() > SOURCE_OCCURRENCE_ALL_LIMIT {
            Some(
                "+"@ + decimal((list.len() - SOURCE_OCCURRENCE_ALL_LIMIT) as nat)
                    + " declarations omitted"@,
            )
        } else {
            None
        },
        ok: true,
    }
}

/// Computes [`outline_answer`].
pub fn source_outline_result(
    entries: &Vec<SourceEntry>,
    source: &str,
    module: &str,
    path: &str,
) -> (r: SearchResult)
    ensures
        r@ == outline_answer(entry_views(entries@), source@, module@, path@),
{
    let list = order_spans(&collect_outline(entries));
    let ghost views = declared_views(list@);
    assert(views.len() == list.len());
    let mut hits: Vec<SearchHit> = Vec::new();
    assert(hit_views(hits@) =~= Seq::empty());
    if list.len() == 0 {
        return SearchResult {
            hits,
            inference: own("source"),
            note: Some(own("no declarations in source file")),
            ok: true,
        };
    }
    let stop = if list.len() < SOURCE_OCCURRENCE_ALL_LIMIT {
        list.len()
    } else {
        SOURCE_OCCURRENCE_ALL_LIMIT
    };
    let ghost wanted = outline_lines(front(views, SOURCE_OCCURRENCE_ALL_LIMIT as int));
    let mut shown: Vec<String> = Vec::new();
    assert(strings(shown@) =~= wanted.take(0));
    for i in 0..stop
        invariant
            views == declared_views(list@),
            stop <= list.len(),
            stop == wanted.len(),
            wanted == outline_lines(front(views, SOURCE_OCCURRENCE_ALL_LIMIT as int)),
            strings(shown@) == wanted.take(i as int),
    {
        proof {
            prefix_step(wanted, i as int);
        }
        assert(views[i as int] == list@[i as int]@);
        shown.push(show_outline_line(&list[i]));
    }
    proof {
        prefix_all(wanted);
    }
    let text = lines(source);
    assert(strs(text@).len() == text.len());
    assert(views[0] == list@[0]@);
    let total = show_size(list.len());
    let length = show_size(text.len());
    let signature = cat4(total.as_str(), " declarations, ", length.as_str(), " lines");
    hits.push(
        make_shown_hit(
            "outline",
            "outline",
            signature,
            module,
            path,
            list[0].start,
            Some(join(&shown, "\n")),
        ),
    );
    let note = if list.len() > SOURCE_OCCURRENCE_ALL_LIMIT {
        let more = show_size(list.len() - SOURCE_OCCURRENCE_ALL_LIMIT);
        Some(cat3("+", more.as_str(), " declarations omitted"))
    } else {
        None
    };
    let r = SearchResult { hits, inference: own("source"), note, ok: true };
    assert(r@.hits =~= outline_answer(entry_views(entries@), source@, module@, path@).hits);
    r
}

/// The answer to a request for lines of a source: its outline where that is asked for.
pub open spec fn occurrence_answer(
    q: OccurrenceView,
    source: Seq<char>,
    workspace: Seq<char>,
    main_lines: Option<u64>,
    all: bool,
) -> ResultView {
    let path = name_shown(q.display_path, q.path, workspace);
    let module = module_of(q.path, workspace, SourceKind::Project);
    if outline_terms(q.terms) {
        outline_answer(
            entries_of(source, heads_of(source), notations_in(source), module, 16_000),
            source,
            module,
            path,
        )
    } else {
        lines_answer(q, source, file_spans(source, module), main_lines, path, all)
    }
}

/// Computes [`occurrence_answer`].
pub fn source_occurrence_result(
    query: &SourceOccurrenceQuery,
    source: &str,
    workspace: &str,
    main_lines: Option<u64>,
    all: bool,
) -> (r: SearchResult)
    ensures
        r@ == occurrence_answer(query@, source@, workspace@, main_lines, all),
{
    let path = show_name(&query.display_path, query.path.as_str(), workspace);
    let module = module_name(query.path.as_str(), workspace, SourceKind::Project);
    if asks_outline(&query.terms) {
        return source_outline_result(
            &parse_source(source, module.as_str()),
            source,
            module.as_str(),
            path.as_str(),
        );
    }
    let spans = declaration_spans(source, module.as_str());
    answer_lines(query, source, &spans, main_lines, path.as_str(), all)
}

/// Every line of an answer is in a range that was asked for.
pub proof fn wanted_lines_are_in_range(q: OccurrenceView, list: Seq<Seq<char>>, n: nat)
    requires
        n <= list.len(),
        list.len() <= u64::MAX,
    ensures
        forall|i: int|
            0 <= i < wanted_lines(q, list, n).len() ==> {
                let p = #[trigger] wanted_lines(q, list, n)[i];
                &&& 1 <= p.0 <= n
                &&& line_in_ranges(q, p.0 as int)
                &&& p.1 == list[p.0 - 1]
            },
    decreases n,
{
    if n > 0 {
        wanted_lines_are_in_range(q, list, (n - 1) as nat);
        let before = wanted_lines(q, list, (n - 1) as nat);
        assert forall|i: int| 0 <= i < wanted_lines(q, list, n).len() implies {
            let p = #[trigger] wanted_lines(q, list, n)[i];
            &&& 1 <= p.0 <= n
            &&& line_in_ranges(q, p.0 as int)
            &&& p.1 == list[p.0 - 1]
        } by {
            if i < before.len() {
                assert(wanted_lines(q, list, n)[i] == before[i]);
            }
        }
    }
}

/// Without terms and with one range, an answer has every line of that range.
pub proof fn a_range_is_answered_whole(q: OccurrenceView, list: Seq<Seq<char>>, n: nat, line: nat)
    requires
        q.terms.len() == 0,
        n <= list.len(),
        list.len() <= u64::MAX,
        1 <= line <= n,
        q.first_line <= line <= q.last_line,
    ensures
        wanted_lines(q, list, n).contains((line as u64, list[line - 1])),
    decreases n,
{
    assert(!import_terms(q.terms));
    if line == n {
        assert(line_wanted(q, n as int, list[n - 1]));
        assert(wanted_lines(q, list, n).last() == (n as u64, list[n - 1]));
    } else {
        a_range_is_answered_whole(q, list, (n - 1) as nat, line);
        let before = wanted_lines(q, list, (n - 1) as nat);
        let i = before.index_of((line as u64, list[line - 1]));
        assert(wanted_lines(q, list, n)[i] == before[i]);
    }
}

} // verus!
