//! The summary of a search.
use crate::search::limits::{
    DECLARATION_DETAIL_LINES, LOCATION_EXPANDED_LINES, LOCATION_PREVIEW_LINES,
    OUTLINE_PREVIEW_LINES, SOURCE_OCCURRENCE_ALL_LIMIT, SOURCE_OCCURRENCE_LIMIT,
    SOURCE_PREVIEW_LINES, SOURCE_RANGE_ALL_LIMIT, SOURCE_RANGE_LIMIT,
};
use crate::search::names::{canonical, canonical_declaration_name};
use crate::search::rank::SUMMARY_LIMIT;
use crate::search::records::{
    hit_views, usage_views, HitView, RunView, SearchHit, SearchRun, SearchUsage, UsageView,
};
use crate::search::score::{declaration_leaf_matches, leaf_match};
use crate::search::tokens::{leaf, leaf_of, query_requests_proof_body, wants_body};
use crate::text::class::Class;
use crate::text::layout::{
    back, front, listed, one_line, push_list, shell_argument, shell_quoted, short_lines,
    shorten_lines, shortened, single_line, sublist, take_back, take_front, truncate_line,
};
use crate::text::make::{
    cat2, cat3, from_chars, join_strs, joined, own, prefix_all, prefix_step, push_str, same, strs,
    strs_push, to_chars,
};
use crate::text::number::{decimal, show, show_size};
use crate::text::pieces::{first_word, line_list, lines, next_word, split_words, words};
use crate::text::scan::{
    bare_start, begins, contains, cut, has_text, opt_string, sans_prefix, split_once, starts_with,
    strip_prefix, after_prefix, opt_str, trim_start, trim_start_of, trimmed_start, without_prefix,
};
use vstd::prelude::*;

verus! {

broadcast use strs_push;

/// What a signature shows outside its implicit binders, how many those are, how deep in
/// one its end is, and the bracket that opened it.
pub open spec fn preview_state(text: Seq<char>) -> (Seq<char>, nat, nat, Option<char>)
    decreases text.len(),
{
    if text.len() == 0 {
        (Seq::empty(), 0, 0, None)
    } else {
        let (shown, binders, depth, opening) = preview_state(text.drop_last());
        let c = text.last();
        if c == '{' || c == '[' {
            if depth == 0 {
                (shown, binders + 1, 1, Some(c))
            } else {
                (shown, binders, depth + 1, opening)
            }
        } else if depth > 0 && ((c == '}' && opening == Some('{')) || (c == ']' && opening == Some(
            '[',
        ))) {
            (
                shown,
                binders,
                (depth - 1) as nat,
                if depth == 1 {
                    None
                } else {
                    opening
                },
            )
        } else if depth == 0 {
            (shown.push(c), binders, depth, None)
        } else {
            (shown, binders, depth, opening)
        }
    }
}

/// A signature without its implicit binders, which are counted instead.
pub open spec fn signature_preview(signature: Seq<char>) -> Seq<char> {
    let state = preview_state(one_line(signature));
    let shown = one_line(state.0);
    if state.1 == 0 {
        shown
    } else {
        shown + " [context: "@ + decimal(state.1) + " implicit/typeclass]"@
    }
}

/// Computes [`signature_preview`].
pub fn compact_signature_preview(signature: &str) -> (r: String)
    ensures
        r@ == signature_preview(signature@),
{
    let line = single_line(signature);
    let chars = to_chars(line.as_str());
    let mut shown: Vec<char> = Vec::new();
    let mut binders: usize = 0;
    let mut depth: usize = 0;
    let mut opening: Option<char> = None;
    for i in 0..chars.len()
        invariant
            chars@ == line@,
            binders <= i,
            depth <= i,
            (shown@, binders as nat, depth as nat, opening) == preview_state(line@.take(i as int)),
    {
        proof {
            prefix_step(line@, i as int);
        }
        let c = chars[i];
        if c == '{' || c == '[' {
            if depth == 0 {
                binders += 1;
                depth = 1;
                opening = Some(c);
            } else {
                depth += 1;
            }
        } else {
            let closes = match opening {
                Some(o) => (c == '}' && o == '{') || (c == ']' && o == '['),
                None => false,
            };
            if depth > 0 && closes {
                if depth == 1 {
                    opening = None;
                }
                depth -= 1;
            } else if depth == 0 {
                shown.push(c);
                opening = None;
            }
        }
    }
    proof {
        prefix_all(line@);
    }
    let text = single_line(from_chars(&shown).as_str());
    if binders == 0 {
        text
    } else {
        let mut out = cat3(text.as_str(), " [context: ", show_size(binders).as_str());
        push_str(&mut out, " implicit/typeclass]");
        out
    }
}

/// A search for one declaration, or for several by name.
pub open spec fn exact_inference(inference: Seq<char>) -> bool {
    inference == "exact"@ || inference == "exact-batch"@
}

/// Decides [`exact_inference`].
pub fn is_exact_inference(inference: &str) -> (r: bool)
    ensures
        r == exact_inference(inference@),
{
    same(inference, "exact") || same(inference, "exact-batch")
}

/// The note says that the results are only related.
pub open spec fn only_related(note: Option<Seq<char>>) -> bool {
    note is Some && has_text(note->0, "related results"@)
}

fn is_only_related(note: &Option<String>) -> (r: bool)
    ensures
        r == only_related(opt_string(*note)),
{
    match note {
        Some(text) => contains(text.as_str(), "related results"),
        None => false,
    }
}

/// A kind of declaration that is shown with its parts.
pub open spec fn data_kind(t: Seq<char>) -> bool {
    ||| t == "class"@ || t == "inductive"@ || t == "structure"@
}

/// Decides [`data_kind`].
pub fn is_data_kind(t: &str) -> (r: bool)
    ensures
        r == data_kind(t@),
{
    same(t, "class")
        || same(t, "inductive")
        || same(t, "structure")
}

/// A kind of hit that is its source.
pub open spec fn shown_kind(t: Seq<char>) -> bool {
    ||| t == "fields"@ || t == "file"@ || t == "imports"@ || t == "location"@
    ||| t == "location-expanded"@ || t == "outline"@ || t == "proof-outline"@ || t == "source-group"@
    ||| t == "source-occurrences"@ || t == "source-range"@
}

/// Decides [`shown_kind`].
pub fn is_shown_kind(t: &str) -> (r: bool)
    ensures
        r == shown_kind(t@),
{
    same(t, "fields")
        || same(t, "file")
        || same(t, "imports")
        || same(t, "location")
        || same(t, "location-expanded")
        || same(t, "outline")
        || same(t, "proof-outline")
        || same(t, "source-group")
        || same(t, "source-occurrences")
        || same(t, "source-range")
}

/// A kind of hit whose source needs no label.
pub open spec fn unlabelled_kind(t: Seq<char>) -> bool {
    ||| t == "file"@ || t == "fields"@ || t == "imports"@ || t == "location"@
    ||| t == "location-expanded"@ || t == "outline"@ || t == "proof-outline"@ || t == "declaration-outline"@
    ||| t == "declaration-neighborhood"@ || t == "declaration-dependencies"@ || t == "declaration-find"@ || t == "source-group"@
    ||| t == "source-occurrences"@ || t == "source-range"@
}

/// Decides [`unlabelled_kind`].
pub fn is_unlabelled_kind(t: &str) -> (r: bool)
    ensures
        r == unlabelled_kind(t@),
{
    same(t, "file")
        || same(t, "fields")
        || same(t, "imports")
        || same(t, "location")
        || same(t, "location-expanded")
        || same(t, "outline")
        || same(t, "proof-outline")
        || same(t, "declaration-outline")
        || same(t, "declaration-neighborhood")
        || same(t, "declaration-dependencies")
        || same(t, "declaration-find")
        || same(t, "source-group")
        || same(t, "source-occurrences")
        || same(t, "source-range")
}

/// The source of a hit is shown in a summary.
pub open spec fn shows_source(run: RunView, hit: HitView, index: int) -> bool {
    let body = wants_body(run.query);
    if run.inference == "exact-miss"@ {
        false
    } else if run.inference == "probe"@ {
        true
    } else if exact_inference(run.inference) {
        body || hit.kind == "fields"@ || (index < 3 && data_kind(hit.kind))
    } else {
        !only_related(run.note) && if body {
            index == 0
        } else {
            leaf_match(hit.name, run.query) || (index < 3 && data_kind(hit.kind)) || shown_kind(
                hit.kind,
            )
        }
    }
}

/// The source of a hit that a summary shows.
pub open spec fn displayed_source(run: RunView, hit: HitView, index: int) -> Option<Seq<char>> {
    if shows_source(run, hit, index) {
        hit.source
    } else {
        None
    }
}

fn find_displayed_source<'a>(run: &SearchRun, hit: &'a SearchHit, index: usize) -> (r: Option<
    &'a str,
>)
    ensures
        opt_str(r) == displayed_source(run@, hit@, index as int),
{
    let body = query_requests_proof_body(run.query.as_str());
    let inference = run.inference.as_str();
    let kind = hit.kind.as_str();
    let shown = if same(inference, "exact-miss") {
        false
    } else if same(inference, "probe") {
        true
    } else if is_exact_inference(inference) {
        body || same(kind, "fields") || (index < 3 && is_data_kind(kind))
    } else {
        !is_only_related(&run.note) && if body {
            index == 0
        } else {
            declaration_leaf_matches(hit.name.as_str(), run.query.as_str()) || (index < 3
                && is_data_kind(kind)) || is_shown_kind(kind)
        }
    };
    if shown {
        match &hit.source {
            Some(source) => Some(source.as_str()),
            None => None,
        }
    } else {
        None
    }
}

/// A line that has the last component of a name and the kind of its declaration.
pub open spec fn header_line(line: Seq<char>, last: Seq<char>, kind: Seq<char>) -> bool {
    has_text(bare_start(line), last) && words(bare_start(line)).contains(kind)
}

/// The first header line from `i` on, or the number of lines.
pub open spec fn header_from(
    list: Seq<Seq<char>>,
    last: Seq<char>,
    kind: Seq<char>,
    i: int,
) -> int
    decreases list.len() - i,
{
    if i >= list.len() || header_line(list[i], last, kind) {
        i
    } else {
        header_from(list, last, kind, i + 1)
    }
}

fn has_word(text: &str, word: &str) -> (r: bool)
    ensures
        r == words(text@).contains(word@),
{
    let list = split_words(text);
    for i in 0..list.len()
        invariant
            strs(list@) == words(text@),
            forall|j: int| 0 <= j < i ==> strs(list@)[j] != word@,
    {
        assert(strs(list@)[i as int] == list@[i as int]@);
        if same(list[i], word) {
            return true;
        }
    }
    false
}

/// The source of a hit from its header on.
pub open spec fn from_header(hit: HitView, source: Seq<char>) -> Seq<char> {
    let list = line_list(source);
    let at = header_from(list, leaf(hit.name), hit.kind, 0);
    joined(
        if 0 <= at <= list.len() {
            list.skip(at)
        } else {
            Seq::empty()
        },
        "\n"@,
    )
}

/// The source of a hit holds its header to the end, so that its signature can be read
/// there.
pub open spec fn complete_header(hit: HitView, source: Seq<char>) -> bool {
    let header = from_header(hit, source);
    has_text(header, ":="@) || ((data_kind(hit.kind) || hit.kind == "instance"@) && words(
        header,
    ).contains("where"@))
}

/// Decides [`complete_header`].
pub fn source_has_complete_declaration_header(hit: &SearchHit, source: &str) -> (r: bool)
    ensures
        r == complete_header(hit@, source@),
{
    let list = lines(source);
    let ghost views = strs(list@);
    let last = leaf_of(hit.name.as_str());
    let kind = hit.kind.as_str();
    let mut at: usize = 0;
    while at < list.len() && !(contains(trim_start(list[at]), last) && has_word(
        trim_start(list[at]),
        kind,
    ))
        invariant
            at <= list.len(),
            views == strs(list@),
            views == line_list(source@),
            header_from(views, last@, kind@, 0) == header_from(views, last@, kind@, at as int),
        decreases list.len() - at,
    {
        assert(views[at as int] == list@[at as int]@);
        at += 1;
    }
    proof {
        if at < list.len() {
            assert(views[at as int] == list@[at as int]@);
        }
        assert(views.len() == list.len());
    }
    let rest = sublist(&list, at, list.len());
    assert(views.subrange(at as int, list.len() as int) =~= views.skip(at as int));
    let header = join_strs(&rest, "\n");
    contains(header.as_str(), ":=") || ((is_data_kind(kind) || same(kind, "instance")) && has_word(
        header.as_str(),
        "where",
    ))
}

/// How many lines of the source of a hit are shown.
pub open spec fn source_line_limit(hit: HitView, index: int, body: bool) -> usize {
    if index == 0 && body {
        DECLARATION_DETAIL_LINES
    } else if data_kind(hit.kind) {
        16
    } else if hit.kind == "fields"@ {
        SOURCE_OCCURRENCE_ALL_LIMIT
    } else if hit.kind == "imports"@ {
        64
    } else if hit.kind == "outline"@ {
        OUTLINE_PREVIEW_LINES
    } else if hit.kind == "location"@ {
        LOCATION_PREVIEW_LINES
    } else if hit.kind == "location-expanded"@ {
        LOCATION_EXPANDED_LINES
    } else if hit.kind == "source-range"@ {
        SOURCE_RANGE_ALL_LIMIT
    } else if hit.kind == "source-occurrences"@ {
        SOURCE_OCCURRENCE_LIMIT
    } else if hit.kind == "source-group"@ {
        3
    } else if hit.kind == "proof-outline"@ || hit.kind == "declaration-outline"@ {
        80
    } else if hit.kind == "declaration-neighborhood"@ || hit.kind == "declaration-dependencies"@
        || hit.kind == "declaration-find"@ {
        24
    } else {
        SOURCE_PREVIEW_LINES
    }
}

fn limit_of_source(hit: &SearchHit, index: usize, body: bool) -> (r: usize)
    ensures
        r == source_line_limit(hit@, index as int, body),
        0 < r <= 512,
{
    let kind = hit.kind.as_str();
    if index == 0 && body {
        DECLARATION_DETAIL_LINES
    } else if is_data_kind(kind) {
        16
    } else if same(kind, "fields") {
        SOURCE_OCCURRENCE_ALL_LIMIT
    } else if same(kind, "imports") {
        64
    } else if same(kind, "outline") {
        OUTLINE_PREVIEW_LINES
    } else if same(kind, "location") {
        LOCATION_PREVIEW_LINES
    } else if same(kind, "location-expanded") {
        LOCATION_EXPANDED_LINES
    } else if same(kind, "source-range") {
        SOURCE_RANGE_ALL_LIMIT
    } else if same(kind, "source-occurrences") {
        SOURCE_OCCURRENCE_LIMIT
    } else if same(kind, "source-group") {
        3
    } else if same(kind, "proof-outline") || same(kind, "declaration-outline") {
        80
    } else if same(kind, "declaration-neighborhood") || same(kind, "declaration-dependencies")
        || same(kind, "declaration-find") {
        24
    } else {
        SOURCE_PREVIEW_LINES
    }
}

/// The lines of a source within a limit: from its beginning, or in a probe from both
/// ends.
pub open spec fn source_lines(run: RunView, source: Seq<char>, limit: int) -> Seq<char> {
    let list = line_list(source);
    let omitted = list.len() - limit;
    if run.inference == "probe"@ && omitted > 0 {
        let head = (limit + 1) / 2;
        listed(short_lines(front(list, head), 200), "\n"@) + "\n… "@ + decimal(omitted as nat)
            + " lines omitted; show "@ + run.reference + " --all"@ + listed(
            short_lines(back(list, limit - head), 200),
            "\n"@,
        )
    } else {
        listed(short_lines(front(list, limit), 200), "\n"@)
    }
}

/// What a summary says of the lines that it leaves out.
pub open spec fn omission(run: RunView, hit: HitView, omitted: int) -> Seq<char> {
    if omitted <= 0 {
        ""@
    } else if hit.kind == "class"@ || hit.kind == "structure"@ {
        "\n+"@ + decimal(omitted as nat) + " lines; search "@ + hit.name + " fields"@
    } else if hit.kind == "outline"@ {
        "\n+"@ + decimal(omitted as nat) + " declarations; show "@ + run.reference + " --all"@
    } else {
        ""@
    }
}

/// The source of a hit in a summary.
pub open spec fn rendered_source(
    run: RunView,
    hit: HitView,
    source: Seq<char>,
    index: int,
) -> Seq<char> {
    let limit = source_line_limit(hit, index, wants_body(run.query));
    source_lines(run, source, limit as int) + omission(
        run,
        hit,
        line_list(source).len() - limit,
    )
}

fn render_omission(run: &SearchRun, hit: &SearchHit, omitted: usize) -> (r: String)
    ensures
        r@ == omission(run@, hit@, omitted as int),
{
    if omitted == 0 {
        return own("");
    }
    let count = show_size(omitted);
    if same(hit.kind.as_str(), "class") || same(hit.kind.as_str(), "structure") {
        let mut out = cat3("\n+", count.as_str(), " lines; search ");
        push_str(&mut out, hit.name.as_str());
        push_str(&mut out, " fields");
        out
    } else if same(hit.kind.as_str(), "outline") {
        let mut out = cat3("\n+", count.as_str(), " declarations; show ");
        push_str(&mut out, run.reference.as_str());
        push_str(&mut out, " --all");
        out
    } else {
        own("")
    }
}

fn render_source(run: &SearchRun, hit: &SearchHit, source: &str, index: usize) -> (r: String)
    ensures
        r@ == rendered_source(run@, hit@, source@, index as int),
{
    let limit = limit_of_source(hit, index, query_requests_proof_body(run.query.as_str()));
    let list = lines(source);
    assert(strs(list@).len() == list.len());
    let omitted: usize = if list.len() > limit {
        list.len() - limit
    } else {
        0
    };
    let mut out = String::new();
    if same(run.inference.as_str(), "probe") && omitted > 0 {
        let head = (limit + 1) / 2;
        push_list(&mut out, &shorten_lines(&take_front(&list, head), 200), "\n");
        push_str(&mut out, "\n… ");
        push_str(&mut out, show_size(omitted).as_str());
        push_str(&mut out, " lines omitted; show ");
        push_str(&mut out, run.reference.as_str());
        push_str(&mut out, " --all");
        push_list(&mut out, &shorten_lines(&take_back(&list, limit - head), 200), "\n");
        assert(out@ =~= source_lines(run@, source@, limit as int));
    } else {
        push_list(&mut out, &shorten_lines(&take_front(&list, limit), 200), "\n");
        assert(out@ =~= source_lines(run@, source@, limit as int));
    }
    push_str(&mut out, render_omission(run, hit, omitted).as_str());
    out
}

/// One usage in a summary.
pub open spec fn usage_line(usage: UsageView, mark: Seq<char>) -> Seq<char> {
    mark + usage.path + ":"@ + decimal(usage.line as nat) + match usage.context {
        Some(context) => " in "@ + context,
        None => ""@,
    }
}

/// Usages in a summary.
pub open spec fn usage_lines(list: Seq<UsageView>, mark: Seq<char>) -> Seq<char>
    decreases list.len(),
{
    if list.len() == 0 {
        Seq::empty()
    } else {
        usage_lines(list.drop_last(), mark) + usage_line(list.last(), mark)
    }
}

/// Appends the first usages, see [`usage_lines`].
pub fn push_usages(out: &mut String, list: &Vec<SearchUsage>, limit: usize, mark: &str)
    ensures
        final(out)@ == old(out)@ + usage_lines(front(usage_views(list@), limit as int), mark@),
{
    let ghost before = out@;
    let ghost shown = front(usage_views(list@), limit as int);
    let count: usize = if list.len() < limit {
        list.len()
    } else {
        limit
    };
    assert(usage_views(list@).len() == list.len());
    assert(shown.len() == count);
    assert(before + usage_lines(shown.take(0), mark@) =~= before);
    for i in 0..count
        invariant
            shown == front(usage_views(list@), limit as int),
            shown.len() == count,
            count <= list.len(),
            out@ == before + usage_lines(shown.take(i as int), mark@),
    {
        proof {
            prefix_step(shown, i as int);
        }
        assert(shown[i as int] == list@[i as int]@);
        push_str(out, mark);
        push_str(out, list[i].path.as_str());
        push_str(out, ":");
        push_str(out, show(list[i].line).as_str());
        match &list[i].context {
            Some(context) => {
                push_str(out, " in ");
                push_str(out, context.as_str());
            },
            None => push_str(out, ""),
        }
        assert(out@ =~= before + usage_lines(shown.take(i + 1), mark@));
    }
    proof {
        prefix_all(shown);
    }
}

/// What a summary says of the usages of a hit.
pub open spec fn usage_part(run: RunView, hit: HitView, index: int) -> Seq<char> {
    if run.inference == "usages"@ && !(wants_body(run.query) && index == 0) {
        usage_lines(front(hit.usages, 3), "\n  used: "@) + if hit.usages.len() > 3 {
            "\n  +"@ + decimal((hit.usages.len() - 3) as nat) + " usages; probe "@ + shell_quoted(
                canonical(hit.name),
            ) + " usages"@
        } else {
            ""@
        }
    } else if hit.usages.len() > 0 {
        "\n  used in "@ + decimal(hit.usages.len()) + " place"@ + if hit.usages.len() == 1 {
            ""@
        } else {
            "s"@
        }
    } else {
        ""@
    }
}

fn render_usage_part(run: &SearchRun, hit: &SearchHit, index: usize) -> (r: String)
    ensures
        r@ == usage_part(run@, hit@, index as int),
{
    let mut out = String::new();
    let count = hit.usages.len();
    assert(usage_views(hit.usages@).len() == count);
    if same(run.inference.as_str(), "usages") && !(query_requests_proof_body(run.query.as_str())
        && index == 0) {
        push_usages(&mut out, &hit.usages, 3, "\n  used: ");
        if count > 3 {
            push_str(&mut out, "\n  +");
            push_str(&mut out, show_size(count - 3).as_str());
            push_str(&mut out, " usages; probe ");
            push_str(
                &mut out,
                shell_argument(canonical_declaration_name(hit.name.as_str())).as_str(),
            );
            push_str(&mut out, " usages");
        } else {
            push_str(&mut out, "");
        }
        assert(out@ =~= usage_part(run@, hit@, index as int));
    } else if count > 0 {
        push_str(&mut out, "\n  used in ");
        push_str(&mut out, show_size(count).as_str());
        push_str(&mut out, " place");
        if count == 1 {
            push_str(&mut out, "");
        } else {
            push_str(&mut out, "s");
        }
        assert(out@ =~= usage_part(run@, hit@, index as int));
    } else {
        push_str(&mut out, "");
        assert(out@ =~= usage_part(run@, hit@, index as int));
    }
    out
}

/// How a hit is introduced: by its number among several, and in a miss by what it is
/// worth.
pub open spec fn hit_heading(run: RunView, hit: HitView, index: int) -> Seq<char> {
    "\n"@ + (if run.hits.len() > 1 {
        run.reference + "#"@ + decimal((index + 1) as nat) + " "@
    } else {
        ""@
    }) + (if run.inference == "exact-miss"@ {
        match after_prefix(hit.kind, "unmerged:"@) {
            Some(provenance) => "UNMERGED ("@ + provenance + "): "@,
            None => "suggestion: "@,
        }
    } else {
        ""@
    }) + hit.name
}

fn render_heading(run: &SearchRun, hit: &SearchHit, index: usize) -> (r: String)
    requires
        index < run.hits.len(),
    ensures
        r@ == hit_heading(run@, hit@, index as int),
{
    let mut out = own("\n");
    assert(hit_views(run.hits@).len() == run.hits.len());
    if run.hits.len() > 1 {
        let mut number = cat3(run.reference.as_str(), "#", show_size(index + 1).as_str());
        push_str(&mut number, " ");
        push_str(&mut out, number.as_str());
    } else {
        push_str(&mut out, "");
    }
    if same(run.inference.as_str(), "exact-miss") {
        match strip_prefix(hit.kind.as_str(), "unmerged:") {
            Some(provenance) => push_str(
                &mut out,
                cat3("UNMERGED (", provenance, "): ").as_str(),
            ),
            None => push_str(&mut out, "suggestion: "),
        }
    } else {
        push_str(&mut out, "");
    }
    push_str(&mut out, hit.name.as_str());
    out
}

/// The signature of a hit, unless its source shows it.
pub open spec fn signature_part(run: RunView, hit: HitView, index: int) -> Seq<char> {
    let source = displayed_source(run, hit, index);
    if hit.signature is None || (source is Some && complete_header(hit, source->0)) {
        ""@
    } else if exact_inference(run.inference) {
        " : "@ + signature_preview(hit.signature->0)
    } else {
        " : "@ + shortened(one_line(hit.signature->0), 240)
    }
}

fn render_signature_part(run: &SearchRun, hit: &SearchHit, source: Option<&str>, index: usize) -> (r:
    String)
    requires
        opt_str(source) == displayed_source(run@, hit@, index as int),
    ensures
        r@ == signature_part(run@, hit@, index as int),
{
    let told = match source {
        Some(text) => source_has_complete_declaration_header(hit, text),
        None => false,
    };
    match &hit.signature {
        Some(signature) => if told {
            own("")
        } else if is_exact_inference(run.inference.as_str()) {
            cat2(" : ", compact_signature_preview(signature.as_str()).as_str())
        } else {
            cat2(
                " : ",
                truncate_line(single_line(signature.as_str()).as_str(), 240).as_str(),
            )
        },
        None => own(""),
    }
}

/// Where a hit stands, and what it needs.
pub open spec fn place_part(hit: HitView) -> Seq<char> {
    (if hit.path.len() > 0 {
        "  "@ + hit.path + if hit.line > 0 {
            ":"@ + decimal(hit.line as nat)
        } else {
            ""@
        }
    } else {
        ""@
    }) + (if hit.applicable {
        "  applicable"@
    } else {
        ""@
    }) + (match hit.required_import {
        Some(module) => "\n  import "@ + module,
        None => ""@,
    })
}

fn render_place_part(hit: &SearchHit) -> (r: String)
    ensures
        r@ == place_part(hit@),
{
    let mut out = if hit.path.as_str().is_empty() {
        own("")
    } else if hit.line > 0 {
        let place = cat2(":", show(hit.line).as_str());
        cat3("  ", hit.path.as_str(), place.as_str())
    } else {
        cat3("  ", hit.path.as_str(), "")
    };
    if hit.applicable {
        push_str(&mut out, "  applicable");
    } else {
        push_str(&mut out, "");
    }
    match &hit.required_import {
        Some(module) => push_str(&mut out, cat2("\n  import ", module.as_str()).as_str()),
        None => push_str(&mut out, ""),
    }
    out
}

/// The source of a hit with its label.
pub open spec fn source_part(run: RunView, hit: HitView, index: int) -> Seq<char> {
    match displayed_source(run, hit, index) {
        Some(source) => (if run.inference != "probe"@ && !unlabelled_kind(hit.kind) {
            "\nsource:"@
        } else {
            ""@
        }) + rendered_source(run, hit, source, index),
        None => ""@,
    }
}

/// One hit in a summary.
pub open spec fn rendered_hit(run: RunView, hit: HitView, index: int) -> Seq<char> {
    hit_heading(run, hit, index) + signature_part(run, hit, index) + place_part(hit) + usage_part(
        run,
        hit,
        index,
    ) + source_part(run, hit, index)
}

fn render_hit(run: &SearchRun, index: usize) -> (r: String)
    requires
        index < run.hits.len(),
    ensures
        r@ == rendered_hit(run@, run@.hits[index as int], index as int),
{
    let hit = &run.hits[index];
    assert(run@.hits[index as int] == hit@);
    let source = find_displayed_source(run, hit, index);
    let mut out = render_heading(run, hit, index);
    push_str(&mut out, render_signature_part(run, hit, source, index).as_str());
    push_str(&mut out, render_place_part(hit).as_str());
    push_str(&mut out, render_usage_part(run, hit, index).as_str());
    let part = match source {
        Some(text) => {
            let body = render_source(run, hit, text, index);
            if !same(run.inference.as_str(), "probe") && !is_unlabelled_kind(hit.kind.as_str()) {
                cat2("\nsource:", body.as_str())
            } else {
                cat2("", body.as_str())
            }
        },
        None => own(""),
    };
    push_str(&mut out, part.as_str());
    out
}

/// The first `n` hits in a summary.
pub open spec fn rendered_hits(run: RunView, n: nat) -> Seq<char>
    decreases n,
{
    if n == 0 {
        Seq::empty()
    } else {
        rendered_hits(run, (n - 1) as nat) + rendered_hit(run, run.hits[n - 1], n - 1)
    }
}

/// How many hits a summary shows.
pub open spec fn summary_count(run: RunView) -> nat {
    let limit: nat = if run.inference == "exact-miss"@ {
        3
    } else if run.inference == "exact-batch"@ {
        run.hits.len()
    } else {
        SUMMARY_LIMIT as nat
    };
    if run.hits.len() < limit {
        run.hits.len()
    } else {
        limit
    }
}

fn count_summary(run: &SearchRun) -> (r: usize)
    ensures
        r == summary_count(run@),
        r <= run.hits.len(),
{
    assert(hit_views(run.hits@).len() == run.hits.len());
    let limit: usize = if same(run.inference.as_str(), "exact-miss") {
        3
    } else if same(run.inference.as_str(), "exact-batch") {
        run.hits.len()
    } else {
        SUMMARY_LIMIT
    };
    if run.hits.len() < limit {
        run.hits.len()
    } else {
        limit
    }
}

/// A search in sources.
pub open spec fn source_inference(t: Seq<char>) -> bool {
    ||| t == "source"@ || t == "source-only"@ || t == "source-regex"@ || t == "source-outline"@
}

/// Decides [`source_inference`].
pub fn is_source_inference(t: &str) -> (r: bool)
    ensures
        r == source_inference(t@),
{
    same(t, "source")
        || same(t, "source-only")
        || same(t, "source-regex")
        || same(t, "source-outline")
}

/// A note says that an index is still being built.
pub open spec fn warming_note(note: Option<Seq<char>>) -> bool {
    note is Some && (has_text(note->0, "source index warming"@) || has_text(
        note->0,
        "search indexes warming"@,
    ))
}

fn is_warming_note(note: &Option<String>) -> (r: bool)
    ensures
        r == warming_note(opt_string(*note)),
{
    match note {
        Some(text) => contains(text.as_str(), "source index warming") || contains(
            text.as_str(),
            "search indexes warming",
        ),
        None => false,
    }
}

/// What a miss says: while an index is still being built, only that absence is not
/// established.
pub open spec fn miss_verdict(first: Seq<char>, warming: bool) -> Seq<char> {
    if warming {
        match after_prefix(first, "exact declaration not found"@) {
            Some(rest) => "absence not established"@ + rest,
            None => first,
        }
    } else {
        first
    }
}

fn render_miss_verdict(first: &str, warming: bool) -> (r: String)
    ensures
        r@ == miss_verdict(first@, warming),
{
    if warming {
        match strip_prefix(first, "exact declaration not found") {
            Some(rest) => cat2("absence not established", rest),
            None => own(first),
        }
    } else {
        own(first)
    }
}

/// The first line of a summary, and the note that is left for later.
pub open spec fn verdict(run: RunView) -> (Seq<char>, Option<Seq<char>>) {
    if run.inference == "exact-miss"@ {
        let note = match run.note {
            Some(text) => text,
            None => "exact declaration not found"@,
        };
        match cut(note, "\n"@) {
            Some(sides) => (miss_verdict(sides.0, warming_note(run.note)), Some(sides.1)),
            None => (miss_verdict(note, warming_note(run.note)), None),
        }
    } else {
        (
            if run.hits.len() == 0 {
                "no results"@
            } else if exact_inference(run.inference) {
                "exact declaration"@
            } else if run.inference == "probe"@ || run.inference == "usages"@ {
                "probe result"@
            } else if source_inference(run.inference) {
                "source result"@
            } else {
                decimal(run.hits.len()) + " ranked result"@ + if run.hits.len() == 1 {
                    ""@
                } else {
                    "s"@
                }
            },
            run.note,
        )
    }
}

fn split_verdict_and_note(run: &SearchRun) -> (r: (String, Option<String>))
    ensures
        (r.0@, opt_string(r.1)) == verdict(run@),
{
    if same(run.inference.as_str(), "exact-miss") {
        let note = match &run.note {
            Some(text) => text.as_str(),
            None => "exact declaration not found",
        };
        let warming = is_warming_note(&run.note);
        return match split_once(note, "\n") {
            Some(sides) => (render_miss_verdict(sides.0, warming), Some(own(sides.1))),
            None => (render_miss_verdict(note, warming), None),
        };
    }
    assert(hit_views(run.hits@).len() == run.hits.len());
    let text = if run.hits.len() == 0 {
        own("no results")
    } else if is_exact_inference(run.inference.as_str()) {
        own("exact declaration")
    } else if same(run.inference.as_str(), "probe") || same(run.inference.as_str(), "usages") {
        own("probe result")
    } else if is_source_inference(run.inference.as_str()) {
        own("source result")
    } else {
        cat3(
            show_size(run.hits.len()).as_str(),
            " ranked result",
            if run.hits.len() == 1 {
                ""
            } else {
                "s"
            },
        )
    };
    (text, crate::text::make::copy_opt(&run.note))
}

/// A kind of declaration that can be probed.
pub open spec fn probeable_kind(t: Seq<char>) -> bool {
    ||| t == "abbrev"@ || t == "class"@ || t == "def"@ || t == "generated"@
    ||| t == "inductive"@ || t == "instance"@ || t == "lemma"@ || t == "structure"@
    ||| t == "theorem"@
}

/// Decides [`probeable_kind`].
pub fn is_probeable_kind(t: &str) -> (r: bool)
    ensures
        r == probeable_kind(t@),
{
    same(t, "abbrev")
        || same(t, "class")
        || same(t, "def")
        || same(t, "generated")
        || same(t, "inductive")
        || same(t, "instance")
        || same(t, "lemma")
        || same(t, "structure")
        || same(t, "theorem")
}

/// What is best asked of a hit next.
pub open spec fn next_focus(hit: HitView) -> Seq<char> {
    if hit.usages.len() > 0 {
        "usages"@
    } else if hit.kind == "lemma"@ || hit.kind == "theorem"@ {
        "outline"@
    } else {
        "source"@
    }
}

/// Computes [`next_focus`].
pub fn next_probe_focus(hit: &SearchHit) -> (r: &'static str)
    ensures
        r@ == next_focus(hit@),
{
    assert(usage_views(hit.usages@).len() == hit.usages.len());
    if hit.usages.len() > 0 {
        "usages"
    } else if same(hit.kind.as_str(), "lemma") || same(hit.kind.as_str(), "theorem") {
        "outline"
    } else {
        "source"
    }
}

/// A hit that stands for a place in a file.
pub open spec fn place_kind(kind: Seq<char>) -> bool {
    kind == "source-group"@ || kind == "location"@ || kind == "location-expanded"@
}

fn is_place_kind(kind: &str) -> (r: bool)
    ensures
        r == place_kind(kind@),
{
    same(kind, "source-group") || same(kind, "location") || same(kind, "location-expanded")
}

/// The name to search for after a miss.
pub open spec fn missed_leaf(query: Seq<char>) -> Seq<char> {
    let first = match first_word(query) {
        Some(word) => word,
        None => query,
    };
    leaf(trimmed_start(sans_prefix(first, "name:"@), Class::Is('@')))
}

/// What to do after a miss, once the indexes are complete.
pub open spec fn miss_hint(run: RunView) -> Seq<char> {
    if warming_note(run.note) {
        ""@
    } else if run.hits.len() > 0 {
        (if begins(run.hits[0].kind, "unmerged:"@) {
            "\nnext: sync, then mathmux probe "@
        } else {
            "\nnext: mathmux probe "@
        }) + shell_quoted(canonical(run.hits[0].name)) + " signature"@
    } else {
        "\nnext: mathmux search "@ + shell_quoted(missed_leaf(run.query))
    }
}

fn render_miss_hint(run: &SearchRun) -> (r: String)
    ensures
        r@ == miss_hint(run@),
{
    assert(hit_views(run.hits@).len() == run.hits.len());
    if is_warming_note(&run.note) {
        own("")
    } else if run.hits.len() > 0 {
        assert(run@.hits[0] == run.hits@[0]@);
        let hit = &run.hits[0];
        let name = shell_argument(canonical_declaration_name(hit.name.as_str()));
        if starts_with(hit.kind.as_str(), "unmerged:") {
            cat3("\nnext: sync, then mathmux probe ", name.as_str(), " signature")
        } else {
            cat3("\nnext: mathmux probe ", name.as_str(), " signature")
        }
    } else {
        let first = match next_word(run.query.as_str()) {
            Some(word) => word,
            None => run.query.as_str(),
        };
        let plain = trim_start_of(without_prefix(first, "name:"), Class::Is('@'));
        cat2("\nnext: mathmux search ", shell_argument(leaf_of(plain)).as_str())
    }
}

/// What to do where a summary leaves hits out.
pub open spec fn more_hint(run: RunView) -> Seq<char> {
    if wants_body(run.query) {
        "\nnext: mathmux show "@ + run.reference + " --all"@
    } else if only_related(run.note) {
        "\nnext: refine query"@
    } else if probeable_kind(run.hits[0].kind) {
        "\nnext: mathmux probe "@ + run.reference + "#1 "@ + next_focus(run.hits[0])
    } else if place_kind(run.hits[0].kind) {
        "\nnext: mathmux probe "@ + run.reference + "#1 outline"@
    } else {
        "\nnext: refine query"@
    }
}

fn render_more_hint(run: &SearchRun) -> (r: String)
    requires
        run.hits.len() > 0,
    ensures
        r@ == more_hint(run@),
{
    let hit = &run.hits[0];
    assert(run@.hits[0] == hit@);
    if query_requests_proof_body(run.query.as_str()) {
        cat3("\nnext: mathmux show ", run.reference.as_str(), " --all")
    } else if is_only_related(&run.note) {
        own("\nnext: refine query")
    } else if is_probeable_kind(hit.kind.as_str()) {
        let mut out = cat3("\nnext: mathmux probe ", run.reference.as_str(), "#1 ");
        push_str(&mut out, next_probe_focus(hit));
        out
    } else if is_place_kind(hit.kind.as_str()) {
        cat3("\nnext: mathmux probe ", run.reference.as_str(), "#1 outline")
    } else {
        own("\nnext: refine query")
    }
}

/// A search whose single declaration is worth a probe.
pub open spec fn probing_inference(inference: Seq<char>) -> bool {
    exact_inference(inference) || inference == "hybrid"@ || inference == "hybrid+applicability"@
}

/// What to do with a single result.
pub open spec fn single_hint(run: RunView) -> Seq<char> {
    if wants_body(run.query) || run.hits.len() != 1 || only_related(run.note) {
        ""@
    } else {
        let hit = run.hits[0];
        let name = shell_quoted(canonical(hit.name));
        if probeable_kind(hit.kind) && probing_inference(run.inference) {
            "\nnext: mathmux probe "@ + name + " "@ + next_focus(hit)
        } else if place_kind(hit.kind) {
            "\nnext: mathmux probe "@ + name + " outline"@
        } else if hit.kind == "proof-outline"@ || hit.kind == "declaration-outline"@ {
            "\nnext: mathmux probe "@ + name + " source"@
        } else {
            ""@
        }
    }
}

fn render_single_hint(run: &SearchRun) -> (r: String)
    ensures
        r@ == single_hint(run@),
{
    assert(hit_views(run.hits@).len() == run.hits.len());
    if query_requests_proof_body(run.query.as_str()) || run.hits.len() != 1 || is_only_related(
        &run.note,
    ) {
        return own("");
    }
    let hit = &run.hits[0];
    assert(run@.hits[0] == hit@);
    let name = shell_argument(canonical_declaration_name(hit.name.as_str()));
    let inference = run.inference.as_str();
    if is_probeable_kind(hit.kind.as_str()) && (is_exact_inference(inference) || same(
        inference,
        "hybrid",
    ) || same(inference, "hybrid+applicability")) {
        let mut out = cat3("\nnext: mathmux probe ", name.as_str(), " ");
        push_str(&mut out, next_probe_focus(hit));
        out
    } else if is_place_kind(hit.kind.as_str()) {
        cat3("\nnext: mathmux probe ", name.as_str(), " outline")
    } else if same(hit.kind.as_str(), "proof-outline") || same(
        hit.kind.as_str(),
        "declaration-outline",
    ) {
        cat3("\nnext: mathmux probe ", name.as_str(), " source")
    } else {
        own("")
    }
}

/// The first hit is a range of a file, and nothing of it is missing.
pub open spec fn range_complete(run: RunView) -> bool {
    &&& run.hits.len() > 0
    &&& run.hits[0].kind == "source-range"@
    &&& run.hits[0].source is Some
    &&& line_list(run.hits[0].source->0).len() <= SOURCE_RANGE_LIMIT
    &&& !(run.note is Some && has_text(run.note->0, "lines omitted"@))
}

fn is_range_complete(run: &SearchRun) -> (r: bool)
    ensures
        r == range_complete(run@),
{
    assert(hit_views(run.hits@).len() == run.hits.len());
    if run.hits.len() == 0 {
        return false;
    }
    let hit = &run.hits[0];
    assert(run@.hits[0] == hit@);
    let short = match &hit.source {
        Some(source) => {
            let list = lines(source.as_str());
            assert(strs(list@).len() == list.len());
            list.len() <= SOURCE_RANGE_LIMIT
        },
        None => false,
    };
    let cut_off = match &run.note {
        Some(note) => contains(note.as_str(), "lines omitted"),
        None => false,
    };
    same(hit.kind.as_str(), "source-range") && short && !cut_off
}

/// The first hit is a range of a file that has a note: the note is the last thing said.
pub open spec fn range_noted(run: RunView) -> bool {
    run.hits.len() > 0 && run.hits[0].kind == "source-range"@ && run.note is Some && run.inference
        != "exact-miss"@
}

fn is_range_noted(run: &SearchRun) -> (r: bool)
    ensures
        r == range_noted(run@),
{
    assert(hit_views(run.hits@).len() == run.hits.len());
    if run.hits.len() == 0 {
        return false;
    }
    assert(run@.hits[0] == run.hits@[0]@);
    same(run.hits[0].kind.as_str(), "source-range") && run.note.is_some() && !same(
        run.inference.as_str(),
        "exact-miss",
    )
}

/// What follows the hits of a summary up to the reference: what is left out, the note, and
/// what to do next.
pub open spec fn tail_head(run: RunView, hints: bool) -> Seq<char> {
    let count = summary_count(run);
    let miss = run.inference == "exact-miss"@;
    (if run.hits.len() > count {
        "\n+"@ + decimal((run.hits.len() - count) as nat) + " results"@
    } else if range_complete(run) {
        "\ncomplete range"@
    } else {
        ""@
    }) + (if !miss && verdict(run).1 is Some && !range_noted(run) {
        "\n"@ + verdict(run).1->0
    } else {
        ""@
    }) + (if miss {
        miss_hint(run)
    } else if run.hits.len() > count {
        if hints {
            more_hint(run)
        } else {
            "\nnext: mathmux show "@ + run.reference + " --all"@
        }
    } else if hints {
        single_hint(run)
    } else {
        ""@
    })
}

/// The note of a range, which comes last.
pub open spec fn range_note(run: RunView) -> Seq<char> {
    if range_noted(run) {
        "\n"@ + run.note->0
    } else {
        ""@
    }
}

/// What follows the hits of a summary.
pub open spec fn summary_tail(run: RunView, hints: bool) -> Seq<char> {
    tail_head(run, hints) + "\nref: "@ + run.reference + range_note(run)
}

fn render_tail(run: &SearchRun, note: &Option<String>, hints: bool) -> (r: String)
    requires
        opt_string(*note) == verdict(run@).1,
    ensures
        r@ == summary_tail(run@, hints),
{
    assert(hit_views(run.hits@).len() == run.hits.len());
    let count = count_summary(run);
    let miss = same(run.inference.as_str(), "exact-miss");
    let mut out = if run.hits.len() > count {
        cat3("\n+", show_size(run.hits.len() - count).as_str(), " results")
    } else if is_range_complete(run) {
        own("\ncomplete range")
    } else {
        own("")
    };
    let noted = is_range_noted(run);
    let said = match note {
        Some(text) => if miss || noted {
            own("")
        } else {
            cat2("\n", text.as_str())
        },
        None => own(""),
    };
    push_str(&mut out, said.as_str());
    let hint = if miss {
        render_miss_hint(run)
    } else if run.hits.len() > count {
        if hints {
            render_more_hint(run)
        } else {
            cat3("\nnext: mathmux show ", run.reference.as_str(), " --all")
        }
    } else if hints {
        render_single_hint(run)
    } else {
        own("")
    };
    push_str(&mut out, hint.as_str());
    push_str(&mut out, "\nref: ");
    push_str(&mut out, run.reference.as_str());
    let last = match &run.note {
        Some(text) => if noted {
            cat2("\n", text.as_str())
        } else {
            own("")
        },
        None => own(""),
    };
    push_str(&mut out, last.as_str());
    out
}

/// A search that found nothing and has nothing to say about it.
pub open spec fn plainly_empty(run: RunView) -> bool {
    run.hits.len() == 0 && run.note is None && run.inference != "exact-miss"@
}

/// What a summary says first: the verdict, and the hits.
pub open spec fn summary_head(run: RunView) -> Seq<char> {
    verdict(run).0 + (if run.inference == "exact-miss"@ && verdict(run).1 is Some {
        "\n"@ + verdict(run).1->0
    } else {
        ""@
    }) + rendered_hits(run, summary_count(run))
}

/// The summary of a search.
pub open spec fn summary(run: RunView, hints: bool) -> Seq<char> {
    if plainly_empty(run) {
        run.reference + " no results"@
    } else {
        summary_head(run) + summary_tail(run, hints)
    }
}

fn render_summary_inner(run: &SearchRun, hints: bool) -> (r: String)
    ensures
        r@ == summary(run@, hints),
{
    assert(hit_views(run.hits@).len() == run.hits.len());
    let miss = same(run.inference.as_str(), "exact-miss");
    if run.hits.len() == 0 && run.note.is_none() && !miss {
        return cat2(run.reference.as_str(), " no results");
    }
    let (first, note) = split_verdict_and_note(run);
    let mut out = first;
    match &note {
        Some(text) => if miss {
            push_str(&mut out, cat2("\n", text.as_str()).as_str());
        } else {
            push_str(&mut out, "");
        },
        None => push_str(&mut out, ""),
    }
    let ghost before = out@;
    let count = count_summary(run);
    assert(before + rendered_hits(run@, 0) =~= before);
    for i in 0..count
        invariant
            count <= run.hits.len(),
            out@ == before + rendered_hits(run@, i as nat),
    {
        push_str(&mut out, render_hit(run, i).as_str());
        assert(out@ =~= before + rendered_hits(run@, (i + 1) as nat));
    }
    push_str(&mut out, render_tail(run, &note, hints).as_str());
    out
}

/// The summary of a search with what to do next.
pub fn render_summary(run: &SearchRun) -> (r: String)
    ensures
        r@ == summary(run@, true),
{
    render_summary_inner(run, true)
}

/// The summary of a search that leaves what to do next to its caller.
pub fn render_summary_without_hints(run: &SearchRun) -> (r: String)
    ensures
        r@ == summary(run@, false),
{
    render_summary_inner(run, false)
}

/// While an index is still being built, a miss never claims that a declaration does not
/// exist, and sends nobody after another name.
pub proof fn warming_misses_claim_nothing(run: RunView)
    requires
        run.inference == "exact-miss"@,
        warming_note(run.note),
    ensures
        !begins(verdict(run).0, "exact declaration not found"@),
        miss_hint(run) == ""@,
{
    reveal_strlit("exact declaration not found");
    reveal_strlit("absence not established");
    let note = run.note->0;
    let first = match cut(note, "\n"@) {
        Some(sides) => sides.0,
        None => note,
    };
    match after_prefix(first, "exact declaration not found"@) {
        Some(rest) => {
            let said = "absence not established"@ + rest;
            assert(said[0] == 'a');
            if begins(said, "exact declaration not found"@) {
                assert(said.subrange(0, "exact declaration not found"@.len() as int)[0] == 'e');
            }
        },
        None => {},
    }
}

} // verus!
