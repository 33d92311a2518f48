//! Matching lines of sources, grouped by the declarations that they stand in.
use crate::failure::{refuse, Failure};
use crate::path::{join_parts, path_of, remainder, strip_root};
use crate::search::declarations::{entries_of, heads_of, notations_in};
use crate::search::limits::SOURCE_OCCURRENCE_LIMIT;
use crate::search::patterns::{is_pattern, match_each, pattern_matches, pattern_valid};
use crate::search::records::{
    hit_views, hit_views_push, usage_views, HitView, ResultView, SearchHit, SearchResult,
    SearchUsage,
};
use crate::search::spans::{
    declaration_spans, declared_views, enclosing_declaration_span, last_line, span_at, spans_of,
    DeclarationSpan, SpanView,
};
use crate::text::layout::{shortened, sublist, truncate_line};
use crate::text::make::{
    cat2, cat4, cat5, join, join_strs, joined, own, prefix_all, prefix_step, push_str, same,
    strings, strings_push, strs,
};
use crate::text::number::{align_right, decimal, right_aligned, show, show_size};
use crate::text::pieces::{line_list, lines};
use crate::text::scan::{bare_end, opt_str, trim_end};
use vstd::prelude::*;

verus! {

broadcast use {strings_push, hit_views_push};

/// Matching lines that stand in one declaration.
#[derive(Debug)]
pub struct SourceMatchGroup {
    pub name: String,
    pub signature: String,
    pub path: String,
    pub start: u64,
    pub end: u64,
    pub count: usize,
    pub matches: Vec<String>,
}

/// The contents of a [`SourceMatchGroup`].
pub struct GroupView {
    pub name: Seq<char>,
    pub signature: Seq<char>,
    pub path: Seq<char>,
    pub start: u64,
    pub end: u64,
    pub count: usize,
    pub matches: Seq<Seq<char>>,
}

impl View for SourceMatchGroup {
    type V = GroupView;

    open spec fn view(&self) -> GroupView {
        GroupView {
            name: self.name@,
            signature: self.signature@,
            path: self.path@,
            start: self.start,
            end: self.end,
            count: self.count,
            matches: strings(self.matches@),
        }
    }
}

/// The contents of a list of groups.
pub open spec fn match_groups(list: Seq<SourceMatchGroup>) -> Seq<GroupView> {
    list.map_values(|g: SourceMatchGroup| g@)
}

/// The result that a group makes.
pub open spec fn group_hit(g: GroupView) -> HitView {
    HitView {
        name: g.name,
        kind: "source-group"@,
        signature: Some(
            decimal(g.count as nat) + " match"@ + (if g.count == 1 {
                ""@
            } else {
                "es"@
            }) + "; lines "@ + decimal(g.start as nat) + "-"@ + decimal(g.end as nat) + (
            if g.signature.len() == 0 {
                ""@
            } else {
                "; "@ + shortened(g.signature, 160)
            }),
        ),
        module: ""@,
        path: g.path,
        line: g.start,
        doc: None,
        source: Some(joined(g.matches, "\n"@)),
        usages: Seq::empty(),
        applicable: false,
        required_import: None,
    }
}

impl SourceMatchGroup {
    /// Computes [`group_hit`].
    pub fn to_hit(&self) -> (r: SearchHit)
        ensures
            r@ == group_hit(self@),
    {
        let mut signature = show_size(self.count);
        push_str(&mut signature, " match");
        push_str(
            &mut signature,
            if self.count == 1 {
                ""
            } else {
                "es"
            },
        );
        push_str(&mut signature, "; lines ");
        push_str(&mut signature, show(self.start).as_str());
        push_str(&mut signature, "-");
        push_str(&mut signature, show(self.end).as_str());
        if self.signature.as_str().is_empty() {
            push_str(&mut signature, "");
        } else {
            let short = truncate_line(self.signature.as_str(), 160);
            push_str(&mut signature, cat2("; ", short.as_str()).as_str());
        }
        let usages: Vec<SearchUsage> = Vec::new();
        assert(usage_views(usages@) =~= Seq::empty());
        SearchHit {
            name: self.name.clone(),
            kind: own("source-group"),
            signature: Some(signature),
            module: own(""),
            path: self.path.clone(),
            line: self.start,
            doc: None,
            source: Some(join(&self.matches, "\n")),
            usages,
            applicable: false,
            required_import: None,
        }
    }
}

/// The group that a line would begin: that of the declaration around it, or one of its
/// own.
pub open spec fn empty_group(path: Seq<char>, spans: Seq<SpanView>, line: u64) -> GroupView {
    match span_at(spans, line, spans.len()) {
        Some(i) => GroupView {
            name: spans[i].name,
            signature: spans[i].signature,
            path,
            start: spans[i].start,
            end: spans[i].end,
            count: 0,
            matches: Seq::empty(),
        },
        None => GroupView {
            name: "source match at "@ + path + ":"@ + decimal(line as nat),
            signature: ""@,
            path,
            start: line,
            end: line,
            count: 0,
            matches: Seq::empty(),
        },
    }
}

/// The same declaration of the same file.
pub open spec fn same_group(a: GroupView, b: GroupView) -> bool {
    a.path == b.path && a.start == b.start && a.name == b.name
}

/// The first group from `i` on for a declaration, or the number of groups.
pub open spec fn group_from(groups: Seq<GroupView>, g: GroupView, i: int) -> int
    decreases groups.len() - i,
{
    if i >= groups.len() || same_group(groups[i], g) {
        i
    } else {
        group_from(groups, g, i + 1)
    }
}

/// A group with one more line. At most three lines are kept.
pub open spec fn with_line(g: GroupView, line: u64, text: Seq<char>) -> GroupView {
    GroupView {
        count: if g.count == usize::MAX {
            usize::MAX
        } else {
            (g.count + 1) as usize
        },
        matches: if g.matches.len() < 3 {
            g.matches.push(">"@ + right_aligned(decimal(line as nat), 5) + " | "@ + bare_end(text))
        } else {
            g.matches
        },
        ..g
    }
}

/// Groups with one more line.
pub open spec fn grouped(
    groups: Seq<GroupView>,
    path: Seq<char>,
    spans: Seq<SpanView>,
    line: u64,
    text: Seq<char>,
) -> Seq<GroupView> {
    let fresh = empty_group(path, spans, line);
    let at = group_from(groups, fresh, 0);
    if at < groups.len() {
        groups.update(at, with_line(groups[at], line, text))
    } else {
        groups.push(with_line(fresh, line, text))
    }
}

fn start_group(path: &str, spans: &Vec<DeclarationSpan>, line: u64) -> (r: SourceMatchGroup)
    ensures
        r@ == empty_group(path@, declared_views(spans@), line),
{
    let ghost views = declared_views(spans@);
    assert(views.len() == spans.len());
    let matches: Vec<String> = Vec::new();
    assert(strings(matches@) =~= Seq::empty());
    match enclosing_declaration_span(spans, line) {
        Some(i) => {
            assert(views[i as int] == spans@[i as int]@);
            SourceMatchGroup {
                name: spans[i].name.clone(),
                signature: spans[i].signature.clone(),
                path: own(path),
                start: spans[i].start,
                end: spans[i].end,
                count: 0,
                matches,
            }
        },
        None => SourceMatchGroup {
            name: cat4("source match at ", path, ":", show(line).as_str()),
            signature: own(""),
            path: own(path),
            start: line,
            end: line,
            count: 0,
            matches,
        },
    }
}

fn find_group(groups: &Vec<SourceMatchGroup>, g: &SourceMatchGroup) -> (r: usize)
    ensures
        r == group_from(match_groups(groups@), g@, 0),
        r <= groups.len(),
{
    let ghost views = match_groups(groups@);
    for i in 0..groups.len()
        invariant
            views == match_groups(groups@),
            group_from(views, g@, 0) == group_from(views, g@, i as int),
    {
        assert(views[i as int] == groups@[i as int]@);
        if same(groups[i].path.as_str(), g.path.as_str()) && groups[i].start == g.start && same(
            groups[i].name.as_str(),
            g.name.as_str(),
        ) {
            return i;
        }
    }
    assert(views.len() == groups.len());
    groups.len()
}

fn add_line(group: &mut SourceMatchGroup, line: u64, text: &str)
    ensures
        final(group)@ == with_line(old(group)@, line, text@),
{
    if group.count < usize::MAX {
        group.count = group.count + 1;
    }
    assert(strings(group.matches@).len() == group.matches.len());
    if group.matches.len() < 3 {
        let number = align_right(show(line).as_str(), 5);
        let entry = cat4(">", number.as_str(), " | ", trim_end(text));
        let ghost before = strings(group.matches@);
        group.matches.push(entry);
        assert(strings(group.matches@) =~= before.push(entry@));
    }
}

/// Computes [`grouped`].
pub fn add_source_match_group(
    groups: &mut Vec<SourceMatchGroup>,
    path: &str,
    spans: &Vec<DeclarationSpan>,
    line_number: u64,
    line: &str,
)
    ensures
        match_groups(final(groups)@) == grouped(
            match_groups(old(groups)@),
            path@,
            declared_views(spans@),
            line_number,
            line@,
        ),
{
    let mut fresh = start_group(path, spans, line_number);
    let at = find_group(groups, &fresh);
    let ghost before = match_groups(groups@);
    assert(before.len() == groups.len());
    if at < groups.len() {
        let mut group = groups.remove(at);
        assert(group@ == before[at as int]);
        add_line(&mut group, line_number, line);
        groups.insert(at, group);
        assert(match_groups(groups@) =~= before.update(at as int, group@));
    } else {
        add_line(&mut fresh, line_number, line);
        groups.push(fresh);
        assert(match_groups(groups@) =~= before.push(fresh@));
    }
}

/// The results that some groups make.
pub open spec fn group_hits(groups: Seq<GroupView>) -> Seq<HitView> {
    groups.map_values(|g: GroupView| group_hit(g))
}

/// The first groups as results.
pub fn hits_of_groups(groups: &Vec<SourceMatchGroup>, limit: usize) -> (r: Vec<SearchHit>)
    ensures
        hit_views(r@) == group_hits(crate::text::layout::front(match_groups(groups@), limit as int)),
{
    let ghost wanted = group_hits(
        crate::text::layout::front(match_groups(groups@), limit as int),
    );
    let stop = if groups.len() < limit {
        groups.len()
    } else {
        limit
    };
    let mut out: Vec<SearchHit> = Vec::new();
    assert(hit_views(out@) =~= wanted.take(0));
    for i in 0..stop
        invariant
            stop <= groups.len(),
            stop == wanted.len(),
            wanted == group_hits(
                crate::text::layout::front(match_groups(groups@), limit as int),
            ),
            hit_views(out@) == wanted.take(i as int),
    {
        proof {
            prefix_step(wanted, i as int);
        }
        assert(match_groups(groups@)[i as int] == groups@[i as int]@);
        out.push(groups[i].to_hit());
    }
    proof {
        prefix_all(wanted);
    }
    out
}

/// How many lines the first `n` groups hold.
pub open spec fn lines_held(groups: Seq<GroupView>, n: nat) -> int
    decreases n,
{
    if n == 0 {
        0
    } else {
        lines_held(groups, (n - 1) as nat) + groups[n - 1].count
    }
}

/// How many lines are not shown when only the first groups are.
pub open spec fn lines_omitted(groups: Seq<GroupView>, shown: nat, total: usize) -> usize {
    if lines_held(groups, shown) < total {
        (total - lines_held(groups, shown)) as usize
    } else {
        0
    }
}

/// The number of the groups that are shown.
pub open spec fn groups_shown(count: nat, limit: int) -> nat {
    if count < limit {
        count
    } else {
        limit as nat
    }
}

/// Counts the lines and the groups that are not shown.
pub fn count_omitted(groups: &Vec<SourceMatchGroup>, limit: usize, total: usize) -> (r: (
    usize,
    usize,
))
    ensures
        r.0 == lines_omitted(
            match_groups(groups@),
            groups_shown(groups.len() as nat, limit as int),
            total,
        ),
        r.1 == groups.len() - groups_shown(groups.len() as nat, limit as int),
{
    let shown = if groups.len() < limit {
        groups.len()
    } else {
        limit
    };
    let ghost views = match_groups(groups@);
    let mut left: usize = total;
    for i in 0..shown
        invariant
            shown <= groups.len(),
            views == match_groups(groups@),
            lines_held(views, i as nat) >= 0,
            left == lines_omitted(views, i as nat, total),
    {
        assert(views[i as int] == groups@[i as int]@);
        assert(lines_held(views, (i + 1) as nat) == lines_held(views, i as nat)
            + views[i as int].count);
        let count = groups[i].count;
        left = if count < left {
            left - count
        } else {
            0
        };
    }
    (left, groups.len() - shown)
}

/// A file that is searched.
#[derive(Debug)]
pub struct ScannedFile {
    /// The path as it is shown.
    pub path: String,
    pub module: String,
    pub source: String,
}

/// The contents of a [`ScannedFile`].
pub struct ScannedView {
    pub path: Seq<char>,
    pub module: Seq<char>,
    pub source: Seq<char>,
}

impl View for ScannedFile {
    type V = ScannedView;

    open spec fn view(&self) -> ScannedView {
        ScannedView { path: self.path@, module: self.module@, source: self.source@ }
    }
}

/// The contents of a list of files.
pub open spec fn scanned_views(list: Seq<ScannedFile>) -> Seq<ScannedView> {
    list.map_values(|f: ScannedFile| f@)
}

/// A search of sources with a regular expression, between two lines.
#[derive(Debug)]
pub struct SourceRegexQuery {
    pub scope: String,
    pub pattern: String,
    pub first_line: u64,
    pub last_line: u64,
}

/// The contents of a [`SourceRegexQuery`].
pub struct RegexQueryView {
    pub scope: Seq<char>,
    pub pattern: Seq<char>,
    pub first_line: u64,
    pub last_line: u64,
}

impl View for SourceRegexQuery {
    type V = RegexQueryView;

    open spec fn view(&self) -> RegexQueryView {
        RegexQueryView {
            scope: self.scope@,
            pattern: self.pattern@,
            first_line: self.first_line,
            last_line: self.last_line,
        }
    }
}

/// Whether a line is asked for, given whether the expression matches each line.
pub open spec fn line_asked(answers: Seq<bool>, first: u64, last: u64, i: int) -> bool {
    answers[i] && first <= i + 1 <= last
}

/// Groups with the first `n` lines of a file that match, and their number.
pub open spec fn grouped_lines(
    start: (Seq<GroupView>, usize),
    path: Seq<char>,
    spans: Seq<SpanView>,
    list: Seq<Seq<char>>,
    answers: Seq<bool>,
    first: u64,
    last: u64,
    n: nat,
) -> (Seq<GroupView>, usize)
    decreases n,
{
    if n == 0 {
        start
    } else {
        let before = grouped_lines(start, path, spans, list, answers, first, last, (n - 1) as nat);
        if line_asked(answers, first, last, n - 1) {
            (
                grouped(before.0, path, spans, n as u64, list[n - 1]),
                if before.1 == usize::MAX {
                    usize::MAX
                } else {
                    (before.1 + 1) as usize
                },
            )
        } else {
            before
        }
    }
}

fn group_lines(
    groups: &mut Vec<SourceMatchGroup>,
    total: usize,
    path: &str,
    spans: &Vec<DeclarationSpan>,
    list: &Vec<&str>,
    answers: &Vec<bool>,
    first: u64,
    last: u64,
) -> (r: usize)
    requires
        answers.len() == list.len(),
    ensures
        (match_groups(final(groups)@), r) == grouped_lines(
            (match_groups(old(groups)@), total),
            path@,
            declared_views(spans@),
            strs(list@),
            answers@,
            first,
            last,
            list.len() as nat,
        ),
{
    let ghost start = (match_groups(groups@), total);
    let mut count = total;
    for i in 0..list.len()
        invariant
            answers.len() == list.len(),
            (match_groups(groups@), count) == grouped_lines(
                start,
                path@,
                declared_views(spans@),
                strs(list@),
                answers@,
                first,
                last,
                i as nat,
            ),
    {
        assert(strs(list@)[i as int] == list@[i as int]@);
        let number = i as u64 + 1;
        if answers[i] && first <= number && number <= last {
            add_source_match_group(groups, path, spans, number, list[i]);
            if count < usize::MAX {
                count += 1;
            }
        }
    }
    count
}

/// Which lines of a file an expression matches.
pub open spec fn line_answers(pattern: Seq<char>, source: Seq<char>) -> Seq<bool> {
    line_list(source).map_values(|l: Seq<char>| pattern_matches(pattern, l))
}

/// The spans of the declarations of a file.
pub open spec fn file_spans(source: Seq<char>, module: Seq<char>) -> Seq<SpanView> {
    spans_of(
        entries_of(source, heads_of(source), notations_in(source), module, 16_000),
        last_line(source),
    )
}

/// Groups with the matching lines of some files, and their number.
pub open spec fn grouped_files(query: RegexQueryView, files: Seq<ScannedView>) -> (
    Seq<GroupView>,
    usize,
)
    decreases files.len(),
{
    if files.len() == 0 {
        (Seq::empty(), 0)
    } else {
        let f = files.last();
        grouped_lines(
            grouped_files(query, files.drop_last()),
            f.path,
            file_spans(f.source, f.module),
            line_list(f.source),
            line_answers(query.pattern, f.source),
            query.first_line,
            query.last_line,
            line_list(f.source).len(),
        )
    }
}

/// The answer that groups of matching lines make.
pub open spec fn regex_answer(
    groups: Seq<GroupView>,
    total: usize,
    timed_out: bool,
    all: bool,
) -> ResultView {
    let limit = if all {
        SOURCE_OCCURRENCE_LIMIT as int
    } else {
        12
    };
    let shown = groups_shown(groups.len(), limit);
    ResultView {
        hits: group_hits(crate::text::layout::front(groups, limit)),
        inference: "source-regex"@,
        note: if timed_out {
            Some("source regex scan timed out; narrow the scope"@)
        } else if total == 0 {
            Some("no regex source matches"@)
        } else if groups.len() > shown {
            Some(
                "+"@ + decimal(lines_omitted(groups, shown, total) as nat) + " matches in "@
                    + decimal((groups.len() - shown) as nat)
                    + " declarations omitted; narrow the scope"@,
            )
        } else {
            None
        },
        ok: true,
    }
}

/// Computes [`regex_answer`].
pub fn answer_regex(
    groups: &Vec<SourceMatchGroup>,
    total: usize,
    timed_out: bool,
    all: bool,
) -> (r: SearchResult)
    ensures
        r@ == regex_answer(match_groups(groups@), total, timed_out, all),
{
    let limit: usize = if all {
        SOURCE_OCCURRENCE_LIMIT
    } else {
        12
    };
    assert(match_groups(groups@).len() == groups.len());
    let (omitted, omitted_groups) = count_omitted(groups, limit, total);
    let note = if timed_out {
        Some(own("source regex scan timed out; narrow the scope"))
    } else if total == 0 {
        Some(own("no regex source matches"))
    } else if omitted_groups > 0 {
        let first = show_size(omitted);
        let second = show_size(omitted_groups);
        Some(
            cat5(
                "+",
                first.as_str(),
                " matches in ",
                second.as_str(),
                " declarations omitted; narrow the scope",
            ),
        )
    } else {
        None
    };
    SearchResult {
        hits: hits_of_groups(groups, limit),
        inference: own("source-regex"),
        note,
        ok: true,
    }
}

/// The view of an answer.
pub open spec fn answer_view(r: Result<SearchResult, Failure>) -> Result<ResultView, Seq<char>> {
    match r {
        Ok(s) => Ok(s@),
        Err(e) => Err(e@),
    }
}

/// The lines of some files that a regular expression matches, grouped by declaration.
pub fn source_regex_result(
    query: &SourceRegexQuery,
    files: &Vec<ScannedFile>,
    timed_out: bool,
    all: bool,
) -> (r: Result<SearchResult, Failure>)
    ensures
        answer_view(r) == if pattern_valid(query.pattern@) {
            let found = grouped_files(query@, scanned_views(files@));
            Ok(regex_answer(found.0, found.1, timed_out, all))
        } else {
            Err("invalid source regex"@)
        },
{
    if !is_pattern(query.pattern.as_str()) {
        return refuse("invalid source regex");
    }
    let ghost views = scanned_views(files@);
    let mut groups: Vec<SourceMatchGroup> = Vec::new();
    let mut total: usize = 0;
    assert(match_groups(groups@) =~= Seq::empty());
    for i in 0..files.len()
        invariant
            views == scanned_views(files@),
            (match_groups(groups@), total) == grouped_files(query@, views.take(i as int)),
    {
        proof {
            prefix_step(views, i as int);
        }
        assert(views[i as int] == files@[i as int]@);
        let file = &files[i];
        let list = lines(file.source.as_str());
        let answers = match_each(query.pattern.as_str(), &list);
        assert(answers@ =~= line_answers(query.pattern@, file.source@)) by {
            assert(strs(list@).len() == list.len());
            assert forall|k: int| 0 <= k < list.len() implies answers@[k] == line_answers(
                query.pattern@,
                file.source@,
            )[k] by {
                assert(strs(list@)[k] == list@[k]@);
            }
        }
        assert(strs(list@).len() == list.len());
        let spans = declaration_spans(file.source.as_str(), file.module.as_str());
        total = group_lines(
            &mut groups,
            total,
            file.path.as_str(),
            &spans,
            &list,
            &answers,
            query.first_line,
            query.last_line,
        );
    }
    proof {
        prefix_all(views);
    }
    Ok(answer_regex(&groups, total, timed_out, all))
}

/// The path that a searched file is shown under.
pub open spec fn scanned_path(
    path: Seq<char>,
    workspace: Seq<char>,
    dependency_root: Option<Seq<char>>,
) -> Seq<char> {
    match remainder(path, workspace) {
        Some(parts) => path_of(parts),
        None => match dependency_root {
            Some(root) => match remainder(path, root) {
                Some(parts) => if parts.len() > 1 {
                    "<dependency>/"@ + joined(parts.skip(1), "/"@)
                } else {
                    path
                },
                None => path,
            },
            None => path,
        },
    }
}

/// Computes [`scanned_path`].
pub fn source_display_path(path: &str, workspace: &str, dependency_root: Option<&str>) -> (r: String)
    ensures
        r@ == scanned_path(path@, workspace@, opt_str(dependency_root)),
{
    if let Some(parts) = strip_root(path, workspace) {
        return join_parts(&parts);
    }
    if let Some(root) = dependency_root {
        if let Some(parts) = strip_root(path, root) {
            assert(strs(parts@).len() == parts.len());
            if parts.len() > 1 {
                let rest = sublist(&parts, 1, parts.len());
                assert(strs(rest@) =~= strs(parts@).skip(1));
                return cat2("<dependency>/", join_strs(&rest, "/").as_str());
            }
        }
    }
    own(path)
}

/// Groups that hold some number of lines: each holds at least one and shows at most
/// three of its lines, and no declaration has two.
pub open spec fn groups_account(groups: Seq<GroupView>, total: usize) -> bool {
    &&& total < usize::MAX ==> lines_held(groups, groups.len()) == total
    &&& forall|i: int|
        0 <= i < groups.len() ==> 1 <= (#[trigger] groups[i]).matches.len() <= 3
            && groups[i].matches.len() <= groups[i].count
    &&& forall|i: int, j: int|
        0 <= i < j < groups.len() ==> !same_group(#[trigger] groups[i], #[trigger] groups[j])
}

proof fn holding_more(groups: Seq<GroupView>, changed: Seq<GroupView>, n: nat)
    requires
        n <= groups.len() <= changed.len(),
        forall|i: int| 0 <= i < n ==> (#[trigger] groups[i]).count == changed[i].count,
    ensures
        lines_held(changed, n) == lines_held(groups, n),
    decreases n,
{
    if n > 0 {
        holding_more(groups, changed, (n - 1) as nat);
    }
}

proof fn holding_one_more(groups: Seq<GroupView>, at: int, g: GroupView, n: nat)
    requires
        0 <= at < groups.len(),
        n <= groups.len(),
        g.count == groups[at].count + 1,
    ensures
        lines_held(groups.update(at, g), n) == lines_held(groups, n) + if at < n {
            1int
        } else {
            0
        },
    decreases n,
{
    if n > 0 {
        holding_one_more(groups, at, g, (n - 1) as nat);
    }
}

proof fn each_is_held(groups: Seq<GroupView>, at: int, n: nat)
    requires
        0 <= at < n <= groups.len(),
    ensures
        groups[at].count <= lines_held(groups, n),
    decreases n,
{
    held_is_positive(groups, (n - 1) as nat);
    if at < n - 1 {
        each_is_held(groups, at, (n - 1) as nat);
    }
}

proof fn held_is_positive(groups: Seq<GroupView>, n: nat)
    ensures
        0 <= lines_held(groups, n),
    decreases n,
{
    if n > 0 {
        held_is_positive(groups, (n - 1) as nat);
    }
}

proof fn group_from_is_first(groups: Seq<GroupView>, g: GroupView, i: int)
    requires
        0 <= i <= groups.len(),
    ensures
        i <= group_from(groups, g, i) <= groups.len(),
        group_from(groups, g, i) < groups.len() ==> same_group(
            groups[group_from(groups, g, i)],
            g,
        ),
        forall|k: int| i <= k < group_from(groups, g, i) ==> !same_group(#[trigger] groups[k], g),
    decreases groups.len() - i,
{
    if i < groups.len() && !same_group(groups[i], g) {
        group_from_is_first(groups, g, i + 1);
    }
}

proof fn one_line_is_counted(
    groups: Seq<GroupView>,
    total: usize,
    path: Seq<char>,
    spans: Seq<SpanView>,
    line: u64,
    text: Seq<char>,
)
    requires
        groups_account(groups, total),
    ensures
        groups_account(
            grouped(groups, path, spans, line, text),
            if total == usize::MAX {
                usize::MAX
            } else {
                (total + 1) as usize
            },
        ),
{
    let fresh = empty_group(path, spans, line);
    let at = group_from(groups, fresh, 0);
    group_from_is_first(groups, fresh, 0);
    let after = grouped(groups, path, spans, line, text);
    if at < groups.len() {
        let more = with_line(groups[at], line, text);
        assert forall|i: int| 0 <= i < after.len() implies 1 <= (#[trigger] after[i]).matches.len()
            <= 3 && after[i].matches.len() <= after[i].count by {
            assert(groups[i].matches.len() >= 1);
        }
        assert forall|i: int, j: int| 0 <= i < j < after.len() implies !same_group(
            #[trigger] after[i],
            #[trigger] after[j],
        ) by {
            assert(!same_group(groups[i], groups[j]));
        }
        if total < usize::MAX {
            each_is_held(groups, at, groups.len());
            holding_one_more(groups, at, more, groups.len());
        }
    } else {
        let last = with_line(fresh, line, text);
        assert(after =~= groups.push(last));
        holding_more(groups, after, groups.len());
        assert forall|i: int, j: int| 0 <= i < j < after.len() implies !same_group(
            #[trigger] after[i],
            #[trigger] after[j],
        ) by {
            if j == groups.len() {
                assert(!same_group(groups[i], fresh));
            }
        }
    }
}

proof fn each_line_is_counted(
    start: (Seq<GroupView>, usize),
    path: Seq<char>,
    spans: Seq<SpanView>,
    list: Seq<Seq<char>>,
    answers: Seq<bool>,
    first: u64,
    last: u64,
    n: nat,
)
    requires
        groups_account(start.0, start.1),
    ensures
        ({
            let r = grouped_lines(start, path, spans, list, answers, first, last, n);
            groups_account(r.0, r.1)
        }),
    decreases n,
{
    if n > 0 {
        let k = (n - 1) as nat;
        each_line_is_counted(start, path, spans, list, answers, first, last, k);
        let before = grouped_lines(start, path, spans, list, answers, first, last, k);
        if line_asked(answers, first, last, n - 1) {
            one_line_is_counted(before.0, before.1, path, spans, n as u64, list[n - 1]);
        }
    }
}

/// The groups of a regular expression hold every line that matches, each in one
/// declaration, and show no more than three lines of a declaration.
pub proof fn matches_are_grouped_whole(query: RegexQueryView, files: Seq<ScannedView>)
    ensures
        groups_account(grouped_files(query, files).0, grouped_files(query, files).1),
    decreases files.len(),
{
    if files.len() > 0 {
        let f = files.last();
        matches_are_grouped_whole(query, files.drop_last());
        each_line_is_counted(
            grouped_files(query, files.drop_last()),
            f.path,
            file_spans(f.source, f.module),
            line_list(f.source),
            line_answers(query.pattern, f.source),
            query.first_line,
            query.last_line,
            line_list(f.source).len(),
        );
    }
}

} // verus!
