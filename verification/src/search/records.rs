//! What searches find and keep.
use crate::text::make::{copy_opt, prefix_all, prefix_step};
use crate::text::scan::opt_string;
use vstd::prelude::*;

verus! {

/// A place where a declaration is used.
#[derive(Debug)]
pub struct SearchUsage {
    pub path: String,
    pub line: u64,
    pub context: Option<String>,
}

/// The contents of a [`SearchUsage`].
pub struct UsageView {
    pub path: Seq<char>,
    pub line: u64,
    pub context: Option<Seq<char>>,
}

impl View for SearchUsage {
    type V = UsageView;

    open spec fn view(&self) -> UsageView {
        UsageView {
            path: self.path@,
            line: self.line,
            context: opt_string(self.context),
        }
    }
}

impl SearchUsage {
    /// A copy.
    pub fn copy(&self) -> (r: Self)
        ensures
            r@ == self@,
    {
        SearchUsage {
            path: self.path.clone(),
            line: self.line,
            context: copy_opt(&self.context),
        }
    }
}
/// The contents of a list of usages.
pub open spec fn usage_views(list: Seq<SearchUsage>) -> Seq<UsageView> {
    list.map_values(|x: SearchUsage| x@)
}

pub broadcast proof fn usage_views_push(list: Seq<SearchUsage>, x: SearchUsage)
    ensures
        #[trigger] usage_views(list.push(x)) == usage_views(list).push(x@),
{
    assert(usage_views(list.push(x)) =~= usage_views(list).push(x@));
}

/// A copy of a list of usages.
pub fn copy_usages(list: &Vec<SearchUsage>) -> (r: Vec<SearchUsage>)
    ensures
        usage_views(r@) == usage_views(list@),
        r.len() == list.len(),
{
    let mut out: Vec<SearchUsage> = Vec::new();
    for i in 0..list.len()
        invariant
            out.len() == i,
            usage_views(out@) == usage_views(list@).take(i as int),
    {
        proof {
            prefix_step(usage_views(list@), i as int);
            usage_views_push(out@, list[i as int]);
        }
        let copied = list[i].copy();
        let ghost before = out@;
        out.push(copied);
        proof {
            usage_views_push(before, copied);
        }
    }
    proof {
        prefix_all(usage_views(list@));
    }
    out
}

/// One result of a search.
#[derive(Debug)]
pub struct SearchHit {
    pub name: String,
    pub kind: String,
    pub signature: Option<String>,
    pub module: String,
    pub path: String,
    pub line: u64,
    pub doc: Option<String>,
    pub source: Option<String>,
    pub usages: Vec<SearchUsage>,
    pub applicable: bool,
    pub required_import: Option<String>,
}

/// The contents of a [`SearchHit`].
pub struct HitView {
    pub name: Seq<char>,
    pub kind: Seq<char>,
    pub signature: Option<Seq<char>>,
    pub module: Seq<char>,
    pub path: Seq<char>,
    pub line: u64,
    pub doc: Option<Seq<char>>,
    pub source: Option<Seq<char>>,
    pub usages: Seq<UsageView>,
    pub applicable: bool,
    pub required_import: Option<Seq<char>>,
}

impl View for SearchHit {
    type V = HitView;

    open spec fn view(&self) -> HitView {
        HitView {
            name: self.name@,
            kind: self.kind@,
            signature: opt_string(self.signature),
            module: self.module@,
            path: self.path@,
            line: self.line,
            doc: opt_string(self.doc),
            source: opt_string(self.source),
            usages: usage_views(self.usages@),
            applicable: self.applicable,
            required_import: opt_string(self.required_import),
        }
    }
}

impl SearchHit {
    /// A copy.
    pub fn copy(&self) -> (r: Self)
        ensures
            r@ == self@,
    {
        SearchHit {
            name: self.name.clone(),
            kind: self.kind.clone(),
            signature: copy_opt(&self.signature),
            module: self.module.clone(),
            path: self.path.clone(),
            line: self.line,
            doc: copy_opt(&self.doc),
            source: copy_opt(&self.source),
            usages: copy_usages(&self.usages),
            applicable: self.applicable,
            required_import: copy_opt(&self.required_import),
        }
    }
}
/// The contents of a list of results.
pub open spec fn hit_views(list: Seq<SearchHit>) -> Seq<HitView> {
    list.map_values(|x: SearchHit| x@)
}

pub broadcast proof fn hit_views_push(list: Seq<SearchHit>, x: SearchHit)
    ensures
        #[trigger] hit_views(list.push(x)) == hit_views(list).push(x@),
{
    assert(hit_views(list.push(x)) =~= hit_views(list).push(x@));
}

/// A copy of a list of results.
pub fn copy_hits(list: &Vec<SearchHit>) -> (r: Vec<SearchHit>)
    ensures
        hit_views(r@) == hit_views(list@),
        r.len() == list.len(),
{
    let mut out: Vec<SearchHit> = Vec::new();
    for i in 0..list.len()
        invariant
            out.len() == i,
            hit_views(out@) == hit_views(list@).take(i as int),
    {
        proof {
            prefix_step(hit_views(list@), i as int);
            hit_views_push(out@, list[i as int]);
        }
        let copied = list[i].copy();
        let ghost before = out@;
        out.push(copied);
        proof {
            hit_views_push(before, copied);
        }
    }
    proof {
        prefix_all(hit_views(list@));
    }
    out
}

/// A search with its results, as it is kept for later reference.
#[derive(Debug)]
pub struct SearchRun {
    pub reference: String,
    pub workspace_ref: String,
    pub query: String,
    pub inference: String,
    pub hits: Vec<SearchHit>,
    pub note: Option<String>,
    pub duration_ms: u64,
    pub created_at: i64,
}

/// The contents of a [`SearchRun`].
pub struct RunView {
    pub reference: Seq<char>,
    pub workspace_ref: Seq<char>,
    pub query: Seq<char>,
    pub inference: Seq<char>,
    pub hits: Seq<HitView>,
    pub note: Option<Seq<char>>,
    pub duration_ms: u64,
    pub created_at: i64,
}

impl View for SearchRun {
    type V = RunView;

    open spec fn view(&self) -> RunView {
        RunView {
            reference: self.reference@,
            workspace_ref: self.workspace_ref@,
            query: self.query@,
            inference: self.inference@,
            hits: hit_views(self.hits@),
            note: opt_string(self.note),
            duration_ms: self.duration_ms,
            created_at: self.created_at,
        }
    }
}

impl SearchRun {
    /// A copy.
    pub fn copy(&self) -> (r: Self)
        ensures
            r@ == self@,
    {
        SearchRun {
            reference: self.reference.clone(),
            workspace_ref: self.workspace_ref.clone(),
            query: self.query.clone(),
            inference: self.inference.clone(),
            hits: copy_hits(&self.hits),
            note: copy_opt(&self.note),
            duration_ms: self.duration_ms,
            created_at: self.created_at,
        }
    }
}
/// The outcome of a search before it is kept.
#[derive(Debug)]
pub struct SearchResult {
    pub hits: Vec<SearchHit>,
    pub inference: String,
    pub note: Option<String>,
    pub ok: bool,
}

/// The contents of a [`SearchResult`].
pub struct ResultView {
    pub hits: Seq<HitView>,
    pub inference: Seq<char>,
    pub note: Option<Seq<char>>,
    pub ok: bool,
}

impl View for SearchResult {
    type V = ResultView;

    open spec fn view(&self) -> ResultView {
        ResultView {
            hits: hit_views(self.hits@),
            inference: self.inference@,
            note: opt_string(self.note),
            ok: self.ok,
        }
    }
}

impl SearchResult {
    /// A copy.
    pub fn copy(&self) -> (r: Self)
        ensures
            r@ == self@,
    {
        SearchResult {
            hits: copy_hits(&self.hits),
            inference: self.inference.clone(),
            note: copy_opt(&self.note),
            ok: self.ok,
        }
    }
}
/// A message of Lean.
#[derive(Debug)]
pub struct Diagnostic {
    pub kind: String,
    pub text: String,
    pub context: Option<String>,
}

/// The contents of a [`Diagnostic`].
pub struct DiagnosticView {
    pub kind: Seq<char>,
    pub text: Seq<char>,
    pub context: Option<Seq<char>>,
}

impl View for Diagnostic {
    type V = DiagnosticView;

    open spec fn view(&self) -> DiagnosticView {
        DiagnosticView {
            kind: self.kind@,
            text: self.text@,
            context: opt_string(self.context),
        }
    }
}

impl Diagnostic {
    /// A copy.
    pub fn copy(&self) -> (r: Self)
        ensures
            r@ == self@,
    {
        Diagnostic {
            kind: self.kind.clone(),
            text: self.text.clone(),
            context: copy_opt(&self.context),
        }
    }
}
/// The contents of a list of messages.
pub open spec fn diagnostic_views(list: Seq<Diagnostic>) -> Seq<DiagnosticView> {
    list.map_values(|x: Diagnostic| x@)
}

pub broadcast proof fn diagnostic_views_push(list: Seq<Diagnostic>, x: Diagnostic)
    ensures
        #[trigger] diagnostic_views(list.push(x)) == diagnostic_views(list).push(x@),
{
    assert(diagnostic_views(list.push(x)) =~= diagnostic_views(list).push(x@));
}

/// A copy of a list of messages.
pub fn copy_diagnostics(list: &Vec<Diagnostic>) -> (r: Vec<Diagnostic>)
    ensures
        diagnostic_views(r@) == diagnostic_views(list@),
        r.len() == list.len(),
{
    let mut out: Vec<Diagnostic> = Vec::new();
    for i in 0..list.len()
        invariant
            out.len() == i,
            diagnostic_views(out@) == diagnostic_views(list@).take(i as int),
    {
        proof {
            prefix_step(diagnostic_views(list@), i as int);
            diagnostic_views_push(out@, list[i as int]);
        }
        let copied = list[i].copy();
        let ghost before = out@;
        out.push(copied);
        proof {
            diagnostic_views_push(before, copied);
        }
    }
    proof {
        prefix_all(diagnostic_views(list@));
    }
    out
}

/// A row of the declaration index.
#[derive(Debug)]
pub struct IndexedRow {
    pub owner: String,
    pub path: String,
    pub module: String,
    pub line: u64,
    pub name: String,
    pub kind: String,
    pub signature: String,
    pub docs: String,
    pub body: String,
}

/// The contents of a [`IndexedRow`].
pub struct RowView {
    pub owner: Seq<char>,
    pub path: Seq<char>,
    pub module: Seq<char>,
    pub line: u64,
    pub name: Seq<char>,
    pub kind: Seq<char>,
    pub signature: Seq<char>,
    pub docs: Seq<char>,
    pub body: Seq<char>,
}

impl View for IndexedRow {
    type V = RowView;

    open spec fn view(&self) -> RowView {
        RowView {
            owner: self.owner@,
            path: self.path@,
            module: self.module@,
            line: self.line,
            name: self.name@,
            kind: self.kind@,
            signature: self.signature@,
            docs: self.docs@,
            body: self.body@,
        }
    }
}

impl IndexedRow {
    /// A copy.
    pub fn copy(&self) -> (r: Self)
        ensures
            r@ == self@,
    {
        IndexedRow {
            owner: self.owner.clone(),
            path: self.path.clone(),
            module: self.module.clone(),
            line: self.line,
            name: self.name.clone(),
            kind: self.kind.clone(),
            signature: self.signature.clone(),
            docs: self.docs.clone(),
            body: self.body.clone(),
        }
    }
}
/// The contents of a list of index rows.
pub open spec fn row_views(list: Seq<IndexedRow>) -> Seq<RowView> {
    list.map_values(|x: IndexedRow| x@)
}

pub broadcast proof fn row_views_push(list: Seq<IndexedRow>, x: IndexedRow)
    ensures
        #[trigger] row_views(list.push(x)) == row_views(list).push(x@),
{
    assert(row_views(list.push(x)) =~= row_views(list).push(x@));
}

/// A copy of a list of index rows.
pub fn copy_rows(list: &Vec<IndexedRow>) -> (r: Vec<IndexedRow>)
    ensures
        row_views(r@) == row_views(list@),
        r.len() == list.len(),
{
    let mut out: Vec<IndexedRow> = Vec::new();
    for i in 0..list.len()
        invariant
            out.len() == i,
            row_views(out@) == row_views(list@).take(i as int),
    {
        proof {
            prefix_step(row_views(list@), i as int);
            row_views_push(out@, list[i as int]);
        }
        let copied = list[i].copy();
        let ghost before = out@;
        out.push(copied);
        proof {
            row_views_push(before, copied);
        }
    }
    proof {
        prefix_all(row_views(list@));
    }
    out
}

/// A result with the score it was found with and the sources it came from.
#[derive(Debug)]
pub struct Candidate {
    pub hit: SearchHit,
    pub score: i64,
    pub origins: u8,
}

/// The contents of a [`Candidate`].
pub struct CandidateView {
    pub hit: HitView,
    pub score: i64,
    pub origins: u8,
}

impl View for Candidate {
    type V = CandidateView;

    open spec fn view(&self) -> CandidateView {
        CandidateView {
            hit: self.hit@,
            score: self.score,
            origins: self.origins,
        }
    }
}

impl Candidate {
    /// A copy.
    pub fn copy(&self) -> (r: Self)
        ensures
            r@ == self@,
    {
        Candidate {
            hit: self.hit.copy(),
            score: self.score,
            origins: self.origins,
        }
    }
}
/// The contents of a list of candidates.
pub open spec fn candidate_views(list: Seq<Candidate>) -> Seq<CandidateView> {
    list.map_values(|x: Candidate| x@)
}

pub broadcast proof fn candidate_views_push(list: Seq<Candidate>, x: Candidate)
    ensures
        #[trigger] candidate_views(list.push(x)) == candidate_views(list).push(x@),
{
    assert(candidate_views(list.push(x)) =~= candidate_views(list).push(x@));
}

} // verus!
