//! The warnings of a file: which of them need judgment, and what is told of each.
use crate::failure::{refuse, text_view, Failure};
use crate::order::{key_list, positions, rank, ranking, ranking_is_permutation, ranking_is_sorted};
use crate::path::{join_parts, path_of, remainder, strip_root};
use crate::search::limits::SEARCH_USAGE_LIMIT;
use crate::search::names::{qualified_match, qualified_name_matches};
use crate::search::records::{
    diagnostic_views, hit_views, hit_views_push, usage_views, Diagnostic, DiagnosticView, HitView,
    RunView, SearchHit, SearchRun, SearchUsage, UsageView,
};
use crate::search::warning::{
    classify_warning, diagnostic_path_matches, dossier, enclosing, enclosing_declaration,
    path_reported, risk_order, risk_rank, warning_dossier, warning_headline, warning_kind,
    warning_location, warning_place, warning_summary, WarningClassification, WarningView,
};
use crate::state::profile::{CheckRun, CheckRunView};
use crate::state::store::{counter, State, StateView};
use crate::text::layout::front;
use crate::text::make::{cat2, cat3, cat4, cat5, own, prefix_all, prefix_step, push_str, same};
use crate::text::number::{decimal, show, show_size};
use crate::text::scan::opt_string;
use vstd::prelude::*;

verus! {

broadcast use hit_views_push;

/// A warning that was given a reference of its own.
#[derive(Debug)]
pub struct WarningProbe {
    pub reference: String,
    pub workspace_ref: String,
    pub check_ref: String,
    pub path: String,
    pub line: u64,
    pub column: u64,
    pub source_hash: String,
    pub category: String,
    pub risk: String,
    pub subject: Option<String>,
    pub diagnostic: Diagnostic,
    pub created_at: i64,
}

/// The contents of a [`WarningProbe`].
pub struct WarningProbeView {
    pub reference: Seq<char>,
    pub workspace_ref: Seq<char>,
    pub check_ref: Seq<char>,
    pub path: Seq<char>,
    pub line: u64,
    pub column: u64,
    pub source_hash: Seq<char>,
    pub category: Seq<char>,
    pub risk: Seq<char>,
    pub subject: Option<Seq<char>>,
    pub diagnostic: DiagnosticView,
    pub created_at: i64,
}

impl View for WarningProbe {
    type V = WarningProbeView;

    open spec fn view(&self) -> WarningProbeView {
        WarningProbeView {
            reference: self.reference@,
            workspace_ref: self.workspace_ref@,
            check_ref: self.check_ref@,
            path: self.path@,
            line: self.line,
            column: self.column,
            source_hash: self.source_hash@,
            category: self.category@,
            risk: self.risk@,
            subject: opt_string(self.subject),
            diagnostic: self.diagnostic@,
            created_at: self.created_at,
        }
    }
}

/// The contents of a list of warnings.
pub open spec fn probe_views(list: Seq<WarningProbe>) -> Seq<WarningProbeView> {
    list.map_values(|p: WarningProbe| p@)
}

/// The contents of a list of runs.
pub open spec fn run_views(list: Seq<SearchRun>) -> Seq<RunView> {
    list.map_values(|r: SearchRun| r@)
}

/// A warning that needs judgment, with its place.
pub struct Residual {
    pub kind: WarningClassification,
    pub diagnostic: Diagnostic,
    pub line: u64,
    pub column: u64,
}

/// The contents of a [`Residual`].
pub struct ResidualView {
    pub kind: WarningView,
    pub diagnostic: DiagnosticView,
    pub line: u64,
    pub column: u64,
}

impl View for Residual {
    type V = ResidualView;

    open spec fn view(&self) -> ResidualView {
        ResidualView {
            kind: self.kind@,
            diagnostic: self.diagnostic@,
            line: self.line,
            column: self.column,
        }
    }
}

/// The contents of a list of residual warnings.
pub open spec fn residual_views(list: Seq<Residual>) -> Seq<ResidualView> {
    list.map_values(|r: Residual| r@)
}

proof fn residual_views_push(list: Seq<Residual>, r: Residual)
    ensures
        residual_views(list.push(r)) == residual_views(list).push(r@),
{
    assert(residual_views(list.push(r)) =~= residual_views(list).push(r@));
}

/// A place that a warning reports: a file if it names one, a line and a column.
pub open spec fn place_views(list: Seq<(Option<String>, u64, u64)>) -> Seq<
    (Option<Seq<char>>, u64, u64),
> {
    list.map_values(|p: (Option<String>, u64, u64)| (opt_string(p.0), p.1, p.2))
}

/// Whether a warning is one of the file.
pub open spec fn concerns(place: (Option<Seq<char>>, u64, u64), target: Seq<char>) -> bool {
    place.0 is None || path_reported(place.0->0, target)
}

/// At least one.
pub open spec fn from_one(n: u64) -> u64 {
    if n < 1 {
        1
    } else {
        n
    }
}

/// The first `n` warnings as far as they concern the file and need judgment.
pub open spec fn residual_of(
    list: Seq<DiagnosticView>,
    places: Seq<(Option<Seq<char>>, u64, u64)>,
    target: Seq<char>,
    n: nat,
) -> Seq<ResidualView>
    decreases n,
{
    if n == 0 {
        Seq::empty()
    } else {
        let earlier = residual_of(list, places, target, (n - 1) as nat);
        let kind = warning_kind(list[n - 1].text);
        if concerns(places[n - 1], target) && !kind.mechanical {
            earlier.push(
                ResidualView {
                    kind,
                    diagnostic: list[n - 1],
                    line: from_one(places[n - 1].1),
                    column: from_one(places[n - 1].2),
                },
            )
        } else {
            earlier
        }
    }
}

/// How many of the first `n` warnings concern the file and are left to automation.
pub open spec fn mechanical_of(
    list: Seq<DiagnosticView>,
    places: Seq<(Option<Seq<char>>, u64, u64)>,
    target: Seq<char>,
    n: nat,
) -> nat
    decreases n,
{
    if n == 0 {
        0
    } else {
        mechanical_of(list, places, target, (n - 1) as nat) + if concerns(places[n - 1], target)
            && warning_kind(list[n - 1].text).mechanical {
            1nat
        } else {
            0nat
        }
    }
}

/// How many of the first `n` warnings concern another file.
pub open spec fn elsewhere_of(
    places: Seq<(Option<Seq<char>>, u64, u64)>,
    target: Seq<char>,
    n: nat,
) -> nat
    decreases n,
{
    if n == 0 {
        0
    } else {
        elsewhere_of(places, target, (n - 1) as nat) + if concerns(places[n - 1], target) {
            0nat
        } else {
            1nat
        }
    }
}

/// Every warning of the file is accounted for: it needs judgment or is left to
/// automation. Only those of other files are left out.
pub proof fn warnings_are_accounted_for(
    list: Seq<DiagnosticView>,
    places: Seq<(Option<Seq<char>>, u64, u64)>,
    target: Seq<char>,
    n: nat,
)
    ensures
        residual_of(list, places, target, n).len() + mechanical_of(list, places, target, n)
            + elsewhere_of(places, target, n) == n,
    decreases n,
{
    if n > 0 {
        warnings_are_accounted_for(list, places, target, (n - 1) as nat);
    }
}

/// What automation can settle is never put before a person.
pub proof fn residual_warnings_need_judgment(
    list: Seq<DiagnosticView>,
    places: Seq<(Option<Seq<char>>, u64, u64)>,
    target: Seq<char>,
    n: nat,
    i: int,
)
    requires
        0 <= i < residual_of(list, places, target, n).len(),
    ensures
        !residual_of(list, places, target, n)[i].kind.mechanical,
        residual_of(list, places, target, n)[i].line >= 1,
        residual_of(list, places, target, n)[i].column >= 1,
    decreases n,
{
    if n > 0 && i < residual_of(list, places, target, (n - 1) as nat).len() {
        residual_warnings_need_judgment(list, places, target, (n - 1) as nat, i);
    }
}

/// Sorts warnings into those that need judgment and a number of others, see
/// [`residual_of`] and [`mechanical_of`].
pub fn triage_warnings(
    list: &Vec<Diagnostic>,
    places: &Vec<(Option<String>, u64, u64)>,
    target: &str,
) -> (r: (Vec<Residual>, usize))
    requires
        list.len() == places.len(),
    ensures
        residual_views(r.0@) == residual_of(
            diagnostic_views(list@),
            place_views(places@),
            target@,
            list.len() as nat,
        ),
        r.1 == mechanical_of(
            diagnostic_views(list@),
            place_views(places@),
            target@,
            list.len() as nat,
        ),
        r.0.len() <= list.len(),
{
    let ghost views = diagnostic_views(list@);
    let ghost at = place_views(places@);
    let mut residual: Vec<Residual> = Vec::new();
    let mut mechanical: usize = 0;
    assert(residual_views(residual@) =~= Seq::<ResidualView>::empty());
    for i in 0..list.len()
        invariant
            list.len() == places.len(),
            views == diagnostic_views(list@),
            at == place_views(places@),
            mechanical <= i,
            residual.len() <= i,
            residual_views(residual@) == residual_of(views, at, target@, i as nat),
            mechanical == mechanical_of(views, at, target@, i as nat),
    {
        assert(views[i as int] == list@[i as int]@);
        let (reported, line, column) = (&places[i].0, places[i].1, places[i].2);
        assert(at[i as int] == (opt_string(places@[i as int].0), line, column));
        let ours = match reported {
            Some(path) => diagnostic_path_matches(path.as_str(), target),
            None => true,
        };
        if ours {
            let kind = classify_warning(list[i].text.as_str());
            if kind.mechanical {
                mechanical += 1;
            } else {
                let found = Residual {
                    kind,
                    diagnostic: list[i].copy(),
                    line: if line < 1 {
                        1
                    } else {
                        line
                    },
                    column: if column < 1 {
                        1
                    } else {
                        column
                    },
                };
                let ghost before = residual@;
                residual.push(found);
                proof {
                    residual_views_push(before, found);
                }
            }
        }
    }
    (residual, mechanical)
}

/// What residual warnings are ordered by: risk, line and column.
pub open spec fn residual_keys(list: Seq<ResidualView>) -> Seq<Seq<u64>> {
    list.map_values(
        |r: ResidualView| seq![risk_order(r.kind.risk) as u64, r.line, r.column],
    )
}

/// Residual warnings in the order in which they are listed.
pub open spec fn by_risk(list: Seq<ResidualView>) -> Seq<ResidualView> {
    ranking(residual_keys(list)).map_values(|i: int| list[i])
}

/// Warnings are listed by risk, and those of one risk from the top of the file down.
pub proof fn risks_are_listed_in_order(list: Seq<ResidualView>, i: int, j: int)
    requires
        0 <= i < j < list.len(),
    ensures
        by_risk(list).len() == list.len(),
        risk_order(by_risk(list)[i].kind.risk) <= risk_order(by_risk(list)[j].kind.risk),
        risk_order(by_risk(list)[i].kind.risk) == risk_order(by_risk(list)[j].kind.risk)
            ==> by_risk(list)[i].line <= by_risk(list)[j].line,
{
    let keys = residual_keys(list);
    ranking_is_permutation(keys);
    ranking_is_sorted(keys, i, j);
    let a = ranking(keys)[i];
    let b = ranking(keys)[j];
    let x = keys[a];
    let y = keys[b];
    assert(x == seq![risk_order(list[a].kind.risk) as u64, list[a].line, list[a].column]);
    assert(y == seq![risk_order(list[b].kind.risk) as u64, list[b].line, list[b].column]);
    if x != y {
        reveal_with_fuel(crate::order::lex_less, 3);
        assert(x.skip(1)[0] == list[a].line);
        assert(y.skip(1)[0] == list[b].line);
    } else {
        assert(x[0] == y[0] && x[1] == y[1]);
    }
}

fn order_by_risk(list: &Vec<Residual>) -> (r: Vec<usize>)
    ensures
        positions(r@) == ranking(residual_keys(residual_views(list@))),
        r.len() == list.len(),
        forall|i: int| 0 <= i < r.len() ==> (#[trigger] r@[i]) < list.len(),
{
    let ghost views = residual_views(list@);
    let ghost wanted = residual_keys(views);
    let mut keys: Vec<Vec<u64>> = Vec::new();
    assert(key_list(keys@) =~= wanted.take(0));
    for i in 0..list.len()
        invariant
            views == residual_views(list@),
            wanted == residual_keys(views),
            key_list(keys@) == wanted.take(i as int),
    {
        proof {
            prefix_step(wanted, i as int);
        }
        assert(views[i as int] == list@[i as int]@);
        let mut key: Vec<u64> = Vec::new();
        key.push(risk_rank(list[i].kind.risk) as u64);
        key.push(list[i].line);
        key.push(list[i].column);
        assert(key@ =~= wanted[i as int]);
        let ghost before = keys@;
        keys.push(key);
        assert(key_list(keys@) =~= key_list(before).push(key@));
    }
    proof {
        prefix_all(wanted);
        ranking_is_permutation(wanted);
    }
    let order = rank(&keys);
    proof {
        assert(positions(order@) == ranking(wanted));
        assert forall|i: int| 0 <= i < order.len() implies (#[trigger] order@[i]) < list.len() by {
            assert(positions(order@)[i] == order@[i] as int);
        }
    }
    order
}

/// What the warnings of a file are told about.
pub struct WarnedFile<'a> {
    pub workspace_ref: &'a str,
    pub target: &'a str,
    pub source: &'a str,
    pub source_hash: &'a str,
    pub now: i64,
}

/// The contents of a [`WarnedFile`].
pub struct WarnedFileView {
    pub workspace_ref: Seq<char>,
    pub target: Seq<char>,
    pub source: Seq<char>,
    pub source_hash: Seq<char>,
    pub now: i64,
}

impl<'a> WarnedFile<'a> {
    /// The contents of a file.
    pub open spec fn view(&self) -> WarnedFileView {
        WarnedFileView {
            workspace_ref: self.workspace_ref@,
            target: self.target@,
            source: self.source@,
            source_hash: self.source_hash@,
            now: self.now,
        }
    }
}

/// A hit that only shows where something stands.
pub open spec fn bare_hit(
    name: Seq<char>,
    kind: Seq<char>,
    path: Seq<char>,
    line: u64,
    source: Option<Seq<char>>,
) -> HitView {
    HitView {
        name,
        kind,
        signature: None,
        module: Seq::empty(),
        path,
        line,
        doc: None,
        source,
        usages: Seq::empty(),
        applicable: false,
        required_import: None,
    }
}

/// Computes [`bare_hit`].
pub fn make_bare_hit(
    name: String,
    kind: &str,
    path: &str,
    line: u64,
    source: Option<String>,
) -> (r: SearchHit)
    ensures
        r@ == bare_hit(name@, kind@, path@, line, opt_string(source)),
{
    let usages: Vec<SearchUsage> = Vec::new();
    assert(usage_views(usages@) =~= Seq::empty());
    SearchHit {
        name,
        kind: own(kind),
        signature: None,
        module: String::new(),
        path: own(path),
        line,
        doc: None,
        source,
        usages,
        applicable: false,
        required_import: None,
    }
}

/// The run under which the dossier of a warning is kept.
pub open spec fn warning_run(
    check: Seq<char>,
    file: WarnedFileView,
    w: ResidualView,
    reference: Seq<char>,
) -> RunView {
    RunView {
        reference,
        workspace_ref: file.workspace_ref,
        query: check + " warning "@ + file.target + ":"@ + decimal(w.line as nat),
        inference: "probe"@,
        hits: seq![
            bare_hit(
                w.kind.category + " warning"@,
                "warning-dossier"@,
                file.target,
                w.line,
                Some(
                    dossier(
                        check,
                        file.target,
                        w.line as nat,
                        w.column as nat,
                        w.kind,
                        w.diagnostic.text,
                        enclosing(file.source, w.line as nat),
                        file.source,
                    ),
                ),
            ),
        ],
        note: None,
        duration_ms: 0,
        created_at: file.now,
    }
}

/// The record of a warning.
pub open spec fn warning_record(
    check: Seq<char>,
    file: WarnedFileView,
    w: ResidualView,
    reference: Seq<char>,
) -> WarningProbeView {
    WarningProbeView {
        reference,
        workspace_ref: file.workspace_ref,
        check_ref: check,
        path: file.target,
        line: w.line,
        column: w.column,
        source_hash: file.source_hash,
        category: w.kind.category,
        risk: w.kind.risk,
        subject: match enclosing(file.source, w.line as nat) {
            Some(d) => if d.name.len() > 0 {
                Some(d.name)
            } else {
                None
            },
            None => None,
        },
        diagnostic: w.diagnostic,
        created_at: file.now,
    }
}

/// The entry of a warning in the list of a file.
pub open spec fn warning_entry(
    file: WarnedFileView,
    w: ResidualView,
    reference: Seq<char>,
) -> HitView {
    bare_hit(
        reference + " ["@ + w.kind.risk + "] "@ + w.kind.category + " — "@ + warning_headline(
            w.diagnostic.text,
        ),
        "warning-reference"@,
        file.target,
        w.line,
        None,
    )
}

/// The run, the record and the entry of one warning.
pub fn describe_warning(
    check: &str,
    file: &WarnedFile,
    w: &Residual,
    reference: &str,
) -> (r: (SearchRun, WarningProbe, SearchHit))
    ensures
        r.0@ == warning_run(check@, file@, w@, reference@),
        r.1@ == warning_record(check@, file@, w@, reference@),
        r.2@ == warning_entry(file@, w@, reference@),
{
    let declaration = enclosing_declaration(file.source, w.line);
    let detail = warning_dossier(
        check,
        (file.target, w.line, w.column),
        &w.kind,
        &w.diagnostic,
        declaration.as_ref(),
        file.source,
    );
    let subject = match &declaration {
        Some(d) => if !d.name.as_str().is_empty() {
            Some(own(d.name.as_str()))
        } else {
            None
        },
        None => None,
    };
    let mut query = cat4(check, " warning ", file.target, ":");
    push_str(&mut query, show(w.line).as_str());
    let mut hits: Vec<SearchHit> = Vec::new();
    hits.push(
        make_bare_hit(
            cat2(w.kind.category, " warning"),
            "warning-dossier",
            file.target,
            w.line,
            Some(detail),
        ),
    );
    assert(hit_views(hits@) =~= warning_run(check@, file@, w@, reference@).hits);
    let run = SearchRun {
        reference: own(reference),
        workspace_ref: own(file.workspace_ref),
        query,
        inference: own("probe"),
        hits,
        note: None,
        duration_ms: 0,
        created_at: file.now,
    };
    let record = WarningProbe {
        reference: own(reference),
        workspace_ref: own(file.workspace_ref),
        check_ref: own(check),
        path: own(file.target),
        line: w.line,
        column: w.column,
        source_hash: own(file.source_hash),
        category: own(w.kind.category),
        risk: own(w.kind.risk),
        subject,
        diagnostic: w.diagnostic.copy(),
        created_at: file.now,
    };
    let mut name = cat4(reference, " [", w.kind.risk, "] ");
    push_str(&mut name, w.kind.category);
    push_str(&mut name, " — ");
    push_str(&mut name, warning_summary(w.diagnostic.text.as_str()).as_str());
    let entry = make_bare_hit(name, "warning-reference", file.target, w.line, None);
    (run, record, entry)
}

/// What is noted on the list of warnings of a file.
pub open spec fn triage_note(check: Seq<char>, residual: nat, mechanical: nat) -> Seq<char> {
    if residual == 0 && mechanical == 0 {
        "no warnings in current check "@ + check
    } else if residual == 0 {
        "no residual warnings; "@ + decimal(mechanical)
            + " mechanical warning(s) belong to Lean automation"@
    } else if mechanical == 0 {
        decimal(residual) + " residual warning(s) from "@ + check
            + "; probe a listed qREF for its dossier"@
    } else {
        decimal(residual) + " residual warning(s) from "@ + check + "; "@ + decimal(mechanical)
            + " mechanical warning(s) omitted for Lean automation; probe a listed qREF"@
    }
}

fn render_triage_note(check: &str, residual: usize, mechanical: usize) -> (r: String)
    ensures
        r@ == triage_note(check@, residual as nat, mechanical as nat),
{
    if residual == 0 && mechanical == 0 {
        cat2("no warnings in current check ", check)
    } else if residual == 0 {
        cat3(
            "no residual warnings; ",
            show_size(mechanical).as_str(),
            " mechanical warning(s) belong to Lean automation",
        )
    } else if mechanical == 0 {
        cat4(
            show_size(residual).as_str(),
            " residual warning(s) from ",
            check,
            "; probe a listed qREF for its dossier",
        )
    } else {
        let mut out = cat4(show_size(residual).as_str(), " residual warning(s) from ", check, "; ");
        push_str(&mut out, show_size(mechanical).as_str());
        push_str(
            &mut out,
            " mechanical warning(s) omitted for Lean automation; probe a listed qREF",
        );
        out
    }
}

/// The reference that a query gets as the `n`th after `last`.
pub open spec fn query_reference(last: int, n: int) -> Seq<char> {
    seq!['q'] + decimal((last + n) as nat)
}

/// The list of the warnings of a file.
pub open spec fn warning_index(
    check: Seq<char>,
    file: WarnedFileView,
    sorted: Seq<ResidualView>,
    mechanical: nat,
    last: int,
    duration_ms: u64,
) -> RunView {
    RunView {
        reference: query_reference(last, sorted.len() as int + 1),
        workspace_ref: file.workspace_ref,
        query: file.target + " warnings"@,
        inference: "warning-index"@,
        hits: entries_of(file, sorted, last),
        note: Some(triage_note(check, sorted.len(), mechanical)),
        duration_ms,
        created_at: file.now,
    }
}

/// The entries of the warnings of a file.
pub open spec fn entries_of(file: WarnedFileView, sorted: Seq<ResidualView>, last: int) -> Seq<
    HitView,
> {
    Seq::new(
        sorted.len(),
        |i: int| warning_entry(file, sorted[i], query_reference(last, i + 1)),
    )
}

/// The runs of the warnings of a file.
pub open spec fn runs_of(
    check: Seq<char>,
    file: WarnedFileView,
    sorted: Seq<ResidualView>,
    last: int,
) -> Seq<RunView> {
    Seq::new(
        sorted.len(),
        |i: int| warning_run(check, file, sorted[i], query_reference(last, i + 1)),
    )
}

/// The records of the warnings of a file.
pub open spec fn records_of(
    check: Seq<char>,
    file: WarnedFileView,
    sorted: Seq<ResidualView>,
    last: int,
) -> Seq<WarningProbeView> {
    Seq::new(
        sorted.len(),
        |i: int| warning_record(check, file, sorted[i], query_reference(last, i + 1)),
    )
}

/// Everything that is kept of the warnings of a file.
pub struct FileWarnings {
    pub runs: Vec<SearchRun>,
    pub records: Vec<WarningProbe>,
    pub index: SearchRun,
}

/// Lists warnings that were sorted out, each under a reference of its own.
pub fn list_warnings(
    state: &mut State,
    check: &str,
    file: &WarnedFile,
    residual: &Vec<Residual>,
    mechanical: usize,
    duration_ms: u64,
) -> (r: FileWarnings)
    requires
        old(state)@.valid(),
        counter(old(state)@.counters, 'q') + residual.len() + 1 <= u64::MAX,
    ensures
        ({
            let sorted = by_risk(residual_views(residual@));
            let last = counter(old(state)@.counters, 'q') as int;
            &&& run_views(r.runs@) == runs_of(check@, file@, sorted, last)
            &&& probe_views(r.records@) == records_of(check@, file@, sorted, last)
            &&& r.index@ == warning_index(
                check@,
                file@,
                sorted,
                mechanical as nat,
                last,
                duration_ms,
            )
        }),
        final(state)@.valid(),
        final(state)@ == (StateView { counters: final(state)@.counters, ..old(state)@ }),
        counter(final(state)@.counters, 'q') == counter(old(state)@.counters, 'q')
            + residual.len() + 1,
        forall|other: char|
            other != 'q' ==> #[trigger] counter(final(state)@.counters, other) == counter(
                old(state)@.counters,
                other,
            ),
{
    let ghost views = residual_views(residual@);
    let ghost sorted = by_risk(views);
    let ghost start = old(state)@;
    let ghost last = counter(start.counters, 'q') as int;
    let order = order_by_risk(residual);
    assert(positions(order@).len() == order.len());
    assert(sorted.len() == order.len());
    let ghost wanted_runs = runs_of(check@, file@, sorted, last);
    let ghost wanted_records = records_of(check@, file@, sorted, last);
    let ghost wanted_entries = entries_of(file@, sorted, last);
    let mut runs: Vec<SearchRun> = Vec::new();
    let mut records: Vec<WarningProbe> = Vec::new();
    let mut hits: Vec<SearchHit> = Vec::new();
    assert(run_views(runs@) =~= wanted_runs.take(0));
    assert(probe_views(records@) =~= wanted_records.take(0));
    assert(hit_views(hits@) =~= wanted_entries.take(0));
    for i in 0..order.len()
        invariant
            views == residual_views(residual@),
            sorted == by_risk(views),
            positions(order@) == ranking(residual_keys(views)),
            order.len() == residual.len(),
            sorted.len() == order.len(),
            forall|k: int| 0 <= k < order.len() ==> (#[trigger] order@[k]) < residual.len(),
            start == old(state)@,
            last == counter(start.counters, 'q'),
            last + residual.len() + 1 <= u64::MAX,
            state@.valid(),
            state@ == (StateView { counters: state@.counters, ..start }),
            counter(state@.counters, 'q') == last + i,
            forall|other: char|
                other != 'q' ==> #[trigger] counter(state@.counters, other) == counter(
                    start.counters,
                    other,
                ),
            wanted_runs == runs_of(check@, file@, sorted, last),
            wanted_records == records_of(check@, file@, sorted, last),
            wanted_entries == entries_of(file@, sorted, last),
            run_views(runs@) == wanted_runs.take(i as int),
            probe_views(records@) == wanted_records.take(i as int),
            hit_views(hits@) == wanted_entries.take(i as int),
    {
        proof {
            prefix_step(wanted_runs, i as int);
            prefix_step(wanted_records, i as int);
            prefix_step(wanted_entries, i as int);
            assert(positions(order@)[i as int] == order@[i as int] as int);
            assert(views[order@[i as int] as int] == residual@[order@[i as int] as int]@);
            assert(sorted[i as int] == views[order@[i as int] as int]);
        }
        let reference = state.next_ref('q');
        assert(reference@ == query_reference(last, i + 1));
        let (run, record, entry) = describe_warning(
            check,
            file,
            &residual[order[i]],
            reference.as_str(),
        );
        let ghost before_runs = runs@;
        let ghost before_records = records@;
        runs.push(run);
        records.push(record);
        hits.push(entry);
        assert(run_views(runs@) =~= run_views(before_runs).push(run@));
        assert(probe_views(records@) =~= probe_views(before_records).push(record@));
    }
    proof {
        prefix_all(wanted_runs);
        prefix_all(wanted_records);
        prefix_all(wanted_entries);
    }
    let reference = state.next_ref('q');
    let note = render_triage_note(check, residual.len(), mechanical);
    let index = SearchRun {
        reference,
        workspace_ref: own(file.workspace_ref),
        query: cat2(file.target, " warnings"),
        inference: own("warning-index"),
        hits,
        note: Some(note),
        duration_ms,
        created_at: file.now,
    };
    FileWarnings { runs, records, index }
}

/// The places that some warnings report.
pub open spec fn reported_places(list: Seq<DiagnosticView>) -> Seq<(Option<Seq<char>>, u64, u64)> {
    list.map_values(|d: DiagnosticView| warning_place(d.text))
}

fn locate_all(list: &Vec<Diagnostic>) -> (r: Vec<(Option<String>, u64, u64)>)
    ensures
        place_views(r@) == reported_places(diagnostic_views(list@)),
        r.len() == list.len(),
{
    let ghost views = diagnostic_views(list@);
    let ghost wanted = reported_places(views);
    let mut out: Vec<(Option<String>, u64, u64)> = Vec::new();
    assert(place_views(out@) =~= wanted.take(0));
    for i in 0..list.len()
        invariant
            out.len() == i,
            views == diagnostic_views(list@),
            wanted == reported_places(views),
            place_views(out@) == wanted.take(i as int),
    {
        proof {
            prefix_step(wanted, i as int);
        }
        assert(views[i as int] == list@[i as int]@);
        let place = warning_location(list[i].text.as_str());
        let ghost before = out@;
        out.push(place);
        assert(place_views(out@) =~= place_views(before).push(
            (opt_string(place.0), place.1, place.2),
        ));
    }
    proof {
        prefix_all(wanted);
    }
    out
}

/// The warnings of a check: those of its linters first.
pub open spec fn warnings_of(check: CheckRunView) -> Seq<DiagnosticView> {
    check.linters + check.warnings
}

fn collect_warnings(check: &CheckRun) -> (r: Vec<Diagnostic>)
    ensures
        diagnostic_views(r@) == warnings_of(check@),
{
    let mut out = crate::search::records::copy_diagnostics(&check.linters);
    let ghost first = diagnostic_views(check.linters@);
    let ghost second = diagnostic_views(check.warnings@);
    assert(diagnostic_views(out@) =~= first + second.take(0));
    for i in 0..check.warnings.len()
        invariant
            first == diagnostic_views(check.linters@),
            second == diagnostic_views(check.warnings@),
            diagnostic_views(out@) == first + second.take(i as int),
    {
        proof {
            prefix_step(second, i as int);
        }
        assert(second[i as int] == check.warnings@[i as int]@);
        let item = check.warnings[i].copy();
        let ghost before = out@;
        out.push(item);
        assert(diagnostic_views(out@) =~= diagnostic_views(before).push(item@));
        assert(diagnostic_views(out@) =~= first + second.take(i + 1));
    }
    proof {
        prefix_all(second);
    }
    out
}

/// The residual warnings of a file in a check.
pub open spec fn file_residual(check: CheckRunView, target: Seq<char>) -> Seq<ResidualView> {
    let list = warnings_of(check);
    by_risk(residual_of(list, reported_places(list), target, list.len()))
}

/// The number of warnings of a file in a check that are left to automation.
pub open spec fn file_mechanical(check: CheckRunView, target: Seq<char>) -> nat {
    let list = warnings_of(check);
    mechanical_of(list, reported_places(list), target, list.len())
}

/// Lists the warnings of a file in a check that is still current. Nothing is listed
/// where the references have run out.
pub fn probe_file_warnings(
    state: &mut State,
    check: &CheckRun,
    file: &WarnedFile,
    duration_ms: u64,
) -> (r: Option<FileWarnings>)
    requires
        old(state)@.valid(),
    ensures
        final(state)@.valid(),
        final(state)@ == (StateView { counters: final(state)@.counters, ..old(state)@ }),
        ({
            let sorted = file_residual(check@, file@.target);
            let last = counter(old(state)@.counters, 'q') as int;
            match r {
                Some(told) => {
                    &&& run_views(told.runs@) == runs_of(check@.reference, file@, sorted, last)
                    &&& probe_views(told.records@) == records_of(
                        check@.reference,
                        file@,
                        sorted,
                        last,
                    )
                    &&& told.index@ == warning_index(
                        check@.reference,
                        file@,
                        sorted,
                        file_mechanical(check@, file@.target),
                        last,
                        duration_ms,
                    )
                    &&& counter(final(state)@.counters, 'q') == last + sorted.len() + 1
                    &&& forall|other: char|
                        other != 'q' ==> #[trigger] counter(final(state)@.counters, other)
                            == counter(old(state)@.counters, other)
                },
                None => last + sorted.len() + 1 > u64::MAX && *final(state) == *old(state),
            }
        }),
{
    let list = collect_warnings(check);
    let places = locate_all(&list);
    let (residual, mechanical) = triage_warnings(&list, &places, file.target);
    assert(diagnostic_views(list@).len() == list.len());
    proof {
        ranking_is_permutation(residual_keys(residual_views(residual@)));
        assert(residual_views(residual@).len() == residual.len());
    }
    let used = state.last_number('q');
    if residual.len() as u128 + used as u128 + 1 > u64::MAX as u128 {
        return None;
    }
    Some(
        list_warnings(
            state,
            check.reference.as_str(),
            file,
            &residual,
            mechanical,
            duration_ms,
        ),
    )
}

/// A check that tells the warnings of a file, or why there is none.
pub open spec fn check_refusal(
    current: bool,
    stale: Option<Seq<char>>,
    target: Seq<char>,
) -> Option<Seq<char>> {
    if current {
        None
    } else {
        match stale {
            Some(reference) => Some(
                "latest successful check "@ + reference + " is stale because "@ + target
                    + " or its dependencies changed; run `mathmux check "@ + target + "` again"@,
            ),
            None => Some(
                target + " has no successful check; run `mathmux check "@ + target + "` first"@,
            ),
        }
    }
}

/// The view of an optional text.
pub open spec fn opt_text(o: Option<&String>) -> Option<Seq<char>> {
    match o {
        Some(t) => Some(t@),
        None => None,
    }
}

/// Refuses to tell warnings without a current check, see [`check_refusal`].
pub fn require_current_check(current: bool, stale: Option<&String>, target: &str) -> (r: Result<
    (),
    Failure,
>)
    ensures
        match check_refusal(current, opt_text(stale), target@) {
            Some(message) => r is Err && r->Err_0@ == message,
            None => r is Ok,
        },
{
    if current {
        return Ok(());
    }
    match stale {
        Some(reference) => {
            let mut out = cat5(
                "latest successful check ",
                reference.as_str(),
                " is stale because ",
                target,
                " or its dependencies changed; run `mathmux check ",
            );
            push_str(&mut out, target);
            push_str(&mut out, "` again");
            refuse(out.as_str())
        },
        None => refuse(
            cat4(
                target,
                " has no successful check; run `mathmux check ",
                target,
                "` first",
            ).as_str(),
        ),
    }
}

/// The path of a file in a workspace, unless it stands outside.
pub open spec fn path_in_workspace(path: Seq<char>, root: Seq<char>) -> Result<
    Seq<char>,
    Seq<char>,
> {
    match remainder(path, root) {
        Some(parts) => Ok(path_of(parts)),
        None => Err(path + " is outside the active workspace"@),
    }
}

/// Computes [`path_in_workspace`].
pub fn workspace_target(path: &str, root: &str) -> (r: Result<String, Failure>)
    ensures
        text_view(r) == path_in_workspace(path@, root@),
{
    match strip_root(path, root) {
        Some(parts) => Ok(join_parts(&parts)),
        None => refuse(cat2(path, " is outside the active workspace").as_str()),
    }
}

/// The usages of the first hit that is meant by a name.
pub open spec fn meant_usages(hits: Seq<HitView>, subject: Seq<char>, i: int) -> Seq<UsageView>
    decreases hits.len() - i,
{
    if i >= hits.len() {
        Seq::empty()
    } else if qualified_match(hits[i].name, subject) {
        hits[i].usages
    } else {
        meant_usages(hits, subject, i + 1)
    }
}

fn find_usages(hits: &Vec<SearchHit>, subject: &str) -> (r: Vec<SearchUsage>)
    ensures
        usage_views(r@) == meant_usages(hit_views(hits@), subject@, 0),
{
    let ghost views = hit_views(hits@);
    assert(views.len() == hits.len());
    for i in 0..hits.len()
        invariant
            views == hit_views(hits@),
            views.len() == hits.len(),
            meant_usages(views, subject@, 0) == meant_usages(views, subject@, i as int),
    {
        assert(views[i as int] == hits@[i as int]@);
        if qualified_name_matches(hits[i].name.as_str(), subject) {
            return crate::search::records::copy_usages(&hits[i].usages);
        }
    }
    let out: Vec<SearchUsage> = Vec::new();
    assert(usage_views(out@) =~= Seq::<UsageView>::empty());
    out
}

/// Usages, one to a line.
pub open spec fn usage_places(list: Seq<UsageView>) -> Seq<char>
    decreases list.len(),
{
    if list.len() == 0 {
        Seq::empty()
    } else {
        usage_places(list.drop_last()) + "\n  "@ + list.last().path + ":"@ + decimal(
            list.last().line as nat,
        ) + (match list.last().context {
            Some(context) => " in "@ + context,
            None => Seq::empty(),
        })
    }
}

/// What is told of the usages of the declaration around a warning.
pub open spec fn dependency_part(subject: Seq<char>, usages: Seq<UsageView>) -> Seq<char> {
    "\nAPI/dependency evidence for "@ + subject + ":"@ + (if usages.len() == 0 {
        " no indexed downstream usages found"@
    } else {
        usage_places(front(usages, SEARCH_USAGE_LIMIT as int)) + (if usages.len()
            > SEARCH_USAGE_LIMIT {
            "\n  +"@ + decimal((usages.len() - SEARCH_USAGE_LIMIT) as nat)
                + " indexed usages omitted"@
        } else {
            Seq::empty()
        })
    })
}

fn render_usage_places(list: &Vec<SearchUsage>, n: usize) -> (r: String)
    requires
        n <= list.len(),
    ensures
        r@ == usage_places(usage_views(list@).take(n as int)),
{
    let ghost views = usage_views(list@);
    let mut out = String::new();
    assert(views.take(0) =~= Seq::<UsageView>::empty());
    for i in 0..n
        invariant
            n <= list.len(),
            views == usage_views(list@),
            out@ == usage_places(views.take(i as int)),
    {
        proof {
            prefix_step(views, i as int);
        }
        assert(views[i as int] == list@[i as int]@);
        push_str(&mut out, "\n  ");
        push_str(&mut out, list[i].path.as_str());
        push_str(&mut out, ":");
        push_str(&mut out, show(list[i].line).as_str());
        let context = match &list[i].context {
            Some(context) => cat2(" in ", context.as_str()),
            None => String::new(),
        };
        push_str(&mut out, context.as_str());
    }
    out
}

fn render_dependency_part(subject: &str, usages: &Vec<SearchUsage>) -> (r: String)
    ensures
        r@ == dependency_part(subject@, usage_views(usages@)),
{
    let ghost views = usage_views(usages@);
    assert(views.len() == usages.len());
    let body = if usages.len() == 0 {
        own(" no indexed downstream usages found")
    } else if usages.len() <= SEARCH_USAGE_LIMIT {
        proof {
            prefix_all(views);
        }
        let shown = render_usage_places(usages, usages.len());
        assert(shown@ + Seq::<char>::empty() =~= shown@);
        shown
    } else {
        let shown = render_usage_places(usages, SEARCH_USAGE_LIMIT);
        cat2(
            shown.as_str(),
            cat3(
                "\n  +",
                show_size(usages.len() - SEARCH_USAGE_LIMIT).as_str(),
                " indexed usages omitted",
            ).as_str(),
        )
    };
    cat4("\nAPI/dependency evidence for ", subject, ":", body.as_str())
}

/// The dossier of a warning as it is shown, or why it cannot be.
pub open spec fn warning_answer(
    warning: WarningProbeView,
    workspace: Seq<char>,
    current_hash: Seq<char>,
    stored: Option<RunView>,
    hits: Seq<HitView>,
) -> Result<Seq<char>, Seq<char>> {
    if warning.workspace_ref != workspace {
        Err(
            warning.reference + " belongs to "@ + warning.workspace_ref
                + "; probe it from that workspace"@,
        )
    } else if current_hash != warning.source_hash {
        Err(
            warning.reference + " is stale because "@ + warning.path
                + " changed; run check, then `mathmux probe "@ + warning.path
                + " warnings` again"@,
        )
    } else {
        match stored {
            None => Err("unknown warning reference "@ + warning.reference),
            Some(run) => if run.hits.len() == 0 || run.hits[0].source is None {
                Err(warning.reference + " has no stored warning dossier"@)
            } else {
                Ok(
                    run.hits[0].source->0 + (match warning.subject {
                        Some(subject) => dependency_part(
                            subject,
                            meant_usages(hits, subject, 0),
                        ),
                        None => Seq::empty(),
                    }) + "\nVerification: edit a coherent packet in "@ + warning.path
                        + ", then run `mathmux check "@ + warning.path + "`."@,
                )
            },
        }
    }
}

/// The view of an optional run.
pub open spec fn opt_run(run: Option<&SearchRun>) -> Option<RunView> {
    match run {
        Some(r) => Some(r@),
        None => None,
    }
}

/// Computes [`warning_answer`]. `hits` is what a search for the subject found.
pub fn probe_warning_reference(
    warning: &WarningProbe,
    workspace: &str,
    current_hash: &str,
    stored: Option<&SearchRun>,
    hits: &Vec<SearchHit>,
) -> (r: Result<String, Failure>)
    ensures
        text_view(r) == warning_answer(
            warning@,
            workspace@,
            current_hash@,
            opt_run(stored),
            hit_views(hits@),
        ),
{
    if !same(warning.workspace_ref.as_str(), workspace) {
        return refuse(
            cat4(
                warning.reference.as_str(),
                " belongs to ",
                warning.workspace_ref.as_str(),
                "; probe it from that workspace",
            ).as_str(),
        );
    }
    if !same(current_hash, warning.source_hash.as_str()) {
        let mut out = cat5(
            warning.reference.as_str(),
            " is stale because ",
            warning.path.as_str(),
            " changed; run check, then `mathmux probe ",
            warning.path.as_str(),
        );
        push_str(&mut out, " warnings` again");
        return refuse(out.as_str());
    }
    let Some(run) = stored else {
        return refuse(cat2("unknown warning reference ", warning.reference.as_str()).as_str());
    };
    assert(hit_views(run.hits@).len() == run.hits.len());
    if run.hits.len() > 0 {
        assert(hit_views(run.hits@)[0] == run.hits@[0]@);
        if let Some(detail) = &run.hits[0].source {
            let part = match &warning.subject {
                Some(subject) => render_dependency_part(
                    subject.as_str(),
                    &find_usages(hits, subject.as_str()),
                ),
                None => String::new(),
            };
            let mut out = cat4(
                detail.as_str(),
                part.as_str(),
                "\nVerification: edit a coherent packet in ",
                warning.path.as_str(),
            );
            push_str(&mut out, ", then run `mathmux check ");
            push_str(&mut out, warning.path.as_str());
            push_str(&mut out, "`.");
            return Ok(out);
        }
    }
    refuse(cat2(warning.reference.as_str(), " has no stored warning dossier").as_str())
}

/// A warning is never told from a file that has changed since.
pub proof fn stale_warnings_are_refused(
    warning: WarningProbeView,
    workspace: Seq<char>,
    current_hash: Seq<char>,
    stored: Option<RunView>,
    hits: Seq<HitView>,
)
    requires
        current_hash != warning.source_hash,
    ensures
        warning_answer(warning, workspace, current_hash, stored, hits) is Err,
{
}

} // verus!
