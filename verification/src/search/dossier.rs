//! What the index knows of the contract of a declaration.
use crate::failure::{refuse, Failure};
use crate::order::{key_list, positions, rank, ranking};
use crate::search::contract::{
    assumption_signature, assumptions, bearing, binder_list, bound_input_names, bound_names,
    conclusion, construction_needs_subject, head_list, identifier_list, identifiers, input_heads,
    needs_subject, relation, rootless, signature_binders, stated, without_root,
};
use crate::search::evidence::{
    authored_route_detail, route_views, routes_text, trustworthy, LeanEvidence, Route, RouteView,
};
use crate::search::exact::{
    codes_of, exact_row_score, merge_exact_candidates, resolved, resolved_exact_candidates,
    row_points,
};
use crate::search::excerpt::{detail_of, detailed_source_excerpt, unless_blank};
use crate::search::names::nonempty;
use crate::search::rank::{codes, sorted_and_merged};
use crate::search::records::{
    candidate_views, candidate_views_push, hit_views, hit_views_push, row_views, row_views_push,
    usage_views, Candidate, CandidateView, HitView, IndexedRow, RowView, RunView, SearchHit,
    SearchRun, SearchUsage,
};
use crate::search::score::narrowed;
use crate::search::tokens::{leaf, leaf_of, meaningful_query_tokens, search_tokens};
use crate::search::warning::{replace_char, replaced};
use crate::text::class::{is_uppercase, uppercase};
use crate::text::layout::{front, shortened, truncate_line};
use crate::text::make::{
    alike, byte_length, cat2, cat3, cat4, cat5, join, joined, lower, own, prefix_all, prefix_step,
    push_str, same, same_ignoring_case, strings, strings_push, strs, to_lower,
};
use crate::text::number::{decimal, show, show_size};
use crate::text::pieces::{has_string, split_words, words};
use crate::text::scan::{
    bare, begins, contains, cut, has_text, opt_str, opt_string, split_once, starts_with, trim,
};
use vstd::prelude::*;

verus! {

broadcast use {strings_push, candidate_views_push, hit_views_push, row_views_push};

/// The candidate that an index row makes.
pub open spec fn row_candidate(
    row: RowView,
    query: Seq<char>,
    tokens: Seq<Seq<char>>,
    score: i64,
    origin: u8,
) -> CandidateView {
    let detail = detail_of(row.body, query, tokens, row.line, row.kind, row.name);
    CandidateView {
        hit: HitView {
            name: row.name,
            kind: row.kind,
            signature: unless_blank(row.signature),
            module: row.module,
            path: row.path,
            line: detail.1,
            doc: unless_blank(row.docs),
            source: detail.0,
            usages: Seq::empty(),
            applicable: false,
            required_import: None,
        },
        score,
        origins: origin,
    }
}

/// Computes [`row_candidate`].
pub fn indexed_candidate(
    row: &IndexedRow,
    query: &str,
    tokens: &Vec<String>,
    score: i64,
    origin: u8,
) -> (r: Candidate)
    ensures
        r@ == row_candidate(row@, query@, strings(tokens@), score, origin),
{
    let (source, line) = detailed_source_excerpt(
        row.body.as_str(),
        query,
        tokens,
        row.line,
        row.kind.as_str(),
        row.name.as_str(),
    );
    let usages: Vec<SearchUsage> = Vec::new();
    assert(usage_views(usages@) =~= Seq::empty());
    Candidate {
        hit: SearchHit {
            name: row.name.clone(),
            kind: row.kind.clone(),
            signature: nonempty(row.signature.clone()),
            module: row.module.clone(),
            path: row.path.clone(),
            line,
            doc: nonempty(row.docs.clone()),
            source,
            usages,
            applicable: false,
            required_import: None,
        },
        score,
        origins: origin,
    }
}

/// The candidates that index rows make for the name of a declaration.
pub open spec fn exact_row_candidates(
    rows: Seq<RowView>,
    query: Seq<char>,
    workspace: Seq<char>,
    origin: u8,
) -> Seq<CandidateView> {
    rows.map_values(
        |row: RowView|
            row_candidate(
                row,
                query,
                search_tokens(query),
                narrowed(row_points(query, row, workspace)),
                origin,
            ),
    )
}

/// Computes [`exact_row_candidates`].
pub fn ranked_exact_candidates(
    rows: &Vec<IndexedRow>,
    query: &str,
    workspace: &str,
    origin: u8,
) -> (r: Vec<Candidate>)
    ensures
        candidate_views(r@) == exact_row_candidates(row_views(rows@), query@, workspace@, origin),
{
    let tokens = meaningful_query_tokens(query);
    let ghost wanted = exact_row_candidates(row_views(rows@), query@, workspace@, origin);
    let mut out: Vec<Candidate> = Vec::new();
    assert(candidate_views(out@) =~= wanted.take(0));
    for i in 0..rows.len()
        invariant
            strings(tokens@) == search_tokens(query@),
            wanted == exact_row_candidates(row_views(rows@), query@, workspace@, origin),
            candidate_views(out@) == wanted.take(i as int),
    {
        proof {
            prefix_step(wanted, i as int);
        }
        assert(row_views(rows@)[i as int] == rows@[i as int]@);
        let score = exact_row_score(query, &rows[i], workspace);
        out.push(indexed_candidate(&rows[i], query, &tokens, score, origin));
    }
    proof {
        prefix_all(wanted);
    }
    out
}

/// Rows of declarations.
pub open spec fn declaration_rows(rows: Seq<RowView>) -> Seq<RowView>
    decreases rows.len(),
{
    if rows.len() == 0 {
        Seq::empty()
    } else if rows.last().kind == "file"@ || rows.last().kind == "imports"@ {
        declaration_rows(rows.drop_last())
    } else {
        declaration_rows(rows.drop_last()).push(rows.last())
    }
}

fn keep_declarations(rows: &Vec<IndexedRow>) -> (r: Vec<IndexedRow>)
    ensures
        row_views(r@) == declaration_rows(row_views(rows@)),
{
    let ghost views = row_views(rows@);
    let mut out: Vec<IndexedRow> = Vec::new();
    assert(row_views(out@) =~= Seq::empty());
    for i in 0..rows.len()
        invariant
            views == row_views(rows@),
            row_views(out@) == declaration_rows(views.take(i as int)),
    {
        proof {
            prefix_step(views, i as int);
        }
        assert(views[i as int] == rows@[i as int]@);
        if !(same(rows[i].kind.as_str(), "file") || same(rows[i].kind.as_str(), "imports")) {
            out.push(rows[i].copy());
        }
    }
    proof {
        prefix_all(views);
    }
    out
}

/// The one declaration that index rows have under a name.
pub open spec fn sole_declaration(rows: Seq<RowView>, subject: Seq<char>, workspace: Seq<char>) -> Option<
    HitView,
> {
    match resolved(
        exact_row_candidates(declaration_rows(rows), subject, workspace, 0),
        subject,
    ) {
        Some(list) => if sorted_and_merged(list).len() > 0 {
            Some(sorted_and_merged(list)[0].hit)
        } else {
            None
        },
        None => None,
    }
}

/// What is said when a name has no one declaration.
pub open spec fn no_sole_declaration(subject: Seq<char>) -> Seq<char> {
    "exact declaration unavailable or ambiguous: "@ + subject
        + "; search the qualified name first"@
}

/// The view of a result.
pub open spec fn hit_result(r: Result<SearchHit, Failure>) -> Result<HitView, Seq<char>> {
    match r {
        Ok(h) => Ok(h@),
        Err(e) => Err(e@),
    }
}

/// Finds [`sole_declaration`].
pub fn contract_exact_hit(rows: &Vec<IndexedRow>, subject: &str, workspace: &str) -> (r: Result<
    SearchHit,
    Failure,
>)
    ensures
        hit_result(r) == match sole_declaration(row_views(rows@), subject@, workspace@) {
            Some(h) => Ok(h),
            None => Err(no_sole_declaration(subject@)),
        },
{
    let list = ranked_exact_candidates(&keep_declarations(rows), subject, workspace, 0);
    if let Some(found) = resolved_exact_candidates(&list, subject) {
        if let Some(candidate) = merge_exact_candidates(&found) {
            return Ok(candidate.hit);
        }
    }
    refuse(
        cat3(
            "exact declaration unavailable or ambiguous: ",
            subject,
            "; search the qualified name first",
        ).as_str(),
    )
}

/// A text with its quotes doubled, in quotes.
pub open spec fn index_phrase(text: Seq<char>) -> Seq<char> {
    "signature : \""@ + replaced(text, '"', "\"\""@) + "\""@
}

fn phrase_for_index(text: &str) -> (r: String)
    ensures
        r@ == index_phrase(text@),
{
    let doubled = replace_char(text, '"', "\"\"");
    cat3("signature : \"", doubled.as_str(), "\"")
}

/// Some texts, each as a phrase of a signature.
pub open spec fn index_phrases(terms: Seq<Seq<char>>) -> Seq<Seq<char>> {
    terms.map_values(|t: Seq<char>| index_phrase(t))
}

/// Computes [`index_phrases`].
pub fn collect_phrases(terms: &Vec<String>) -> (r: Vec<String>)
    ensures
        strings(r@) == index_phrases(strings(terms@)),
{
    let ghost wanted = index_phrases(strings(terms@));
    let mut out: Vec<String> = Vec::new();
    assert(strings(out@) =~= wanted.take(0));
    for i in 0..terms.len()
        invariant
            wanted == index_phrases(strings(terms@)),
            strings(out@) == wanted.take(i as int),
    {
        proof {
            prefix_step(wanted, i as int);
        }
        out.push(phrase_for_index(terms[i].as_str()));
    }
    proof {
        prefix_all(wanted);
    }
    out
}

/// The query of the index for signatures with one of some terms, of which the first
/// eight count.
pub open spec fn signature_query(terms: Seq<Seq<char>>) -> Seq<char> {
    joined(front(index_phrases(terms), 8), " OR "@)
}

/// Computes [`signature_query`].
pub fn contract_rows_query(terms: &Vec<String>) -> (r: String)
    ensures
        r@ == signature_query(strings(terms@)),
{
    let mut list = collect_phrases(terms);
    let ghost all = strings(list@);
    assert(all.len() == list.len());
    if list.len() > 8 {
        list.truncate(8);
        assert(strings(list@) =~= all.take(8));
    }
    join(&list, " OR ")
}

/// The query of the index for statements about the inhabitants of a type.
pub open spec fn inhabitant_query(subject: Seq<char>) -> Seq<char> {
    index_phrase(leaf(subject)) + " AND signature : (Nonempty OR Subsingleton OR IsEmpty)"@
}

/// Computes [`inhabitant_query`].
pub fn risk_rows_query(subject: &str) -> (r: String)
    ensures
        r@ == inhabitant_query(subject@),
{
    let phrase = phrase_for_index(leaf_of(subject));
    cat2(phrase.as_str(), " AND signature : (Nonempty OR Subsingleton OR IsEmpty)")
}

/// A bearing on a type that may rule out what is planned with it.
pub open spec fn risky(kind: Option<Seq<char>>) -> bool {
    ||| kind == Some("obstruction candidate"@)
    ||| kind == Some("subsingleton candidate"@)
    ||| kind == Some("emptiness candidate"@)
}

fn is_risky(kind: Option<&str>) -> (r: bool)
    ensures
        r == risky(opt_str(kind)),
{
    match kind {
        Some(k) => same(k, "obstruction candidate") || same(k, "subsingleton candidate") || same(
            k,
            "emptiness candidate",
        ),
        None => false,
    }
}

/// The rows that may rule out what is planned with a type.
pub open spec fn risks(rows: Seq<RowView>, subject: Seq<char>) -> Seq<RowView>
    decreases rows.len(),
{
    if rows.len() == 0 {
        Seq::empty()
    } else if risky(bearing(rows.last().signature, subject)) {
        risks(rows.drop_last(), subject).push(rows.last())
    } else {
        risks(rows.drop_last(), subject)
    }
}

/// Computes [`risks`].
pub fn risk_rows(rows: &Vec<IndexedRow>, subject: &str) -> (r: Vec<IndexedRow>)
    ensures
        row_views(r@) == risks(row_views(rows@), subject@),
{
    let ghost views = row_views(rows@);
    let mut out: Vec<IndexedRow> = Vec::new();
    assert(row_views(out@) =~= Seq::empty());
    for i in 0..rows.len()
        invariant
            views == row_views(rows@),
            row_views(out@) == risks(views.take(i as int), subject@),
    {
        proof {
            prefix_step(views, i as int);
        }
        assert(views[i as int] == rows@[i as int]@);
        if is_risky(relation(rows[i].signature.as_str(), subject)) {
            out.push(rows[i].copy());
        }
    }
    proof {
        prefix_all(views);
    }
    out
}

/// The rows whose statement has a bearing of one kind on a type.
pub open spec fn rows_bearing(rows: Seq<RowView>, subject: Seq<char>, kind: Seq<char>) -> Seq<RowView>
    decreases rows.len(),
{
    if rows.len() == 0 {
        Seq::empty()
    } else if bearing(rows.last().signature, subject) == Some(kind) {
        rows_bearing(rows.drop_last(), subject, kind).push(rows.last())
    } else {
        rows_bearing(rows.drop_last(), subject, kind)
    }
}

/// Computes [`rows_bearing`].
pub fn keep_bearing(rows: &Vec<IndexedRow>, subject: &str, kind: &str) -> (r: Vec<IndexedRow>)
    ensures
        row_views(r@) == rows_bearing(row_views(rows@), subject@, kind@),
{
    let ghost views = row_views(rows@);
    let mut out: Vec<IndexedRow> = Vec::new();
    assert(row_views(out@) =~= Seq::empty());
    for i in 0..rows.len()
        invariant
            views == row_views(rows@),
            row_views(out@) == rows_bearing(views.take(i as int), subject@, kind@),
    {
        proof {
            prefix_step(views, i as int);
        }
        assert(views[i as int] == rows@[i as int]@);
        if let Some(k) = relation(rows[i].signature.as_str(), subject) {
            if same(k, kind) {
                out.push(rows[i].copy());
            }
        }
    }
    proof {
        prefix_all(views);
    }
    out
}

/// A word that asks how many inhabitants a type has.
pub open spec fn property_word(word: Seq<char>) -> bool {
    lower(word) == "subsingleton"@ || lower(word) == "isempty"@
}

fn is_property_word(word: &str) -> (r: bool)
    ensures
        r == property_word(word@),
{
    let low = to_lower(word);
    same(low.as_str(), "subsingleton") || same(low.as_str(), "isempty")
}

/// A kind of declaration that is a type.
pub open spec fn subject_kind(kind: Seq<char>) -> bool {
    ||| kind == "def"@ || kind == "abbrev"@ || kind == "structure"@
    ||| kind == "class"@ || kind == "inductive"@
}

fn is_subject_kind(kind: &str) -> (r: bool)
    ensures
        r == subject_kind(kind@),
{
    same(kind, "def") || same(kind, "abbrev") || same(kind, "structure") || same(kind, "class")
        || same(kind, "inductive")
}

/// Whether a name, or its last component, is a text, letter case aside.
pub open spec fn named_alike(name: Seq<char>, text: Seq<char>) -> bool {
    alike(name, text) || alike(leaf(name), text)
}

/// The types among some results that a word names.
pub open spec fn subjects_named(hits: Seq<HitView>, word: Seq<char>) -> Seq<Seq<char>>
    decreases hits.len(),
{
    if hits.len() == 0 {
        Seq::empty()
    } else {
        let before = subjects_named(hits.drop_last(), word);
        let name = rootless(hits.last().name);
        if subject_kind(hits.last().kind) && named_alike(name, word) {
            before.push(name)
        } else {
            before
        }
    }
}

fn collect_subjects(hits: &Vec<SearchHit>, word: &str) -> (r: Vec<String>)
    ensures
        strings(r@) == subjects_named(hit_views(hits@), word@),
{
    let ghost views = hit_views(hits@);
    let mut out: Vec<String> = Vec::new();
    assert(strings(out@) =~= Seq::empty());
    for i in 0..hits.len()
        invariant
            views == hit_views(hits@),
            strings(out@) == subjects_named(views.take(i as int), word@),
    {
        proof {
            prefix_step(views, i as int);
        }
        assert(views[i as int] == hits@[i as int]@);
        let name = without_root(hits[i].name.as_str());
        if is_subject_kind(hits[i].kind.as_str()) && (same_ignoring_case(name, word)
            || same_ignoring_case(leaf_of(name), word)) {
            out.push(own(name));
        }
    }
    proof {
        prefix_all(views);
    }
    out
}

/// The type and the kind of statement that a query of two words asks for.
pub open spec fn property_request(query: Seq<char>, hits: Seq<HitView>) -> Option<
    (Seq<char>, Seq<char>),
> {
    let terms = words(query);
    if terms.len() != 2 || !(property_word(terms[0]) || property_word(terms[1])) {
        None
    } else {
        let at: int = if property_word(terms[0]) {
            0
        } else {
            1
        };
        match crate::search::tree::choice_of(subjects_named(hits, terms[1 - at])) {
            crate::search::tree::ChoiceView::One(name) => Some(
                (
                    name,
                    if alike(terms[at], "subsingleton"@) {
                        "subsingleton candidate"@
                    } else {
                        "emptiness candidate"@
                    },
                ),
            ),
            _ => None,
        }
    }
}

/// The contents of an optional pair.
pub open spec fn opt_request(o: Option<(String, &str)>) -> Option<(Seq<char>, Seq<char>)> {
    match o {
        Some(p) => Some((p.0@, p.1@)),
        None => None,
    }
}

/// Computes [`property_request`].
pub fn requested_risk(query: &str, hits: &Vec<SearchHit>) -> (r: Option<(String, &'static str)>)
    ensures
        opt_request(r) == property_request(query@, hit_views(hits@)),
{
    let terms = split_words(query);
    assert(strs(terms@).len() == terms.len());
    if terms.len() != 2 {
        return None;
    }
    assert(strs(terms@)[0] == terms@[0]@);
    assert(strs(terms@)[1] == terms@[1]@);
    let at: usize = if is_property_word(terms[0]) {
        0
    } else if is_property_word(terms[1]) {
        1
    } else {
        return None;
    };
    match crate::search::tree::choose_sole(&collect_subjects(hits, terms[1 - at])) {
        crate::search::tree::Choice::One(name) => Some(
            (
                name,
                if same_ignoring_case(terms[at], "subsingleton") {
                    "subsingleton candidate"
                } else {
                    "emptiness candidate"
                },
            ),
        ),
        _ => None,
    }
}

/// The result that a row makes, with its text and a remark.
pub open spec fn source_hit(row: RowView, doc: Option<Seq<char>>) -> HitView {
    HitView {
        name: row.name,
        kind: row.kind,
        signature: Some(row.signature),
        module: row.module,
        path: row.path,
        line: row.line,
        doc,
        source: Some(row.body),
        usages: Seq::empty(),
        applicable: false,
        required_import: None,
    }
}

fn make_source_hit(row: &IndexedRow, doc: Option<String>) -> (r: SearchHit)
    ensures
        r@ == source_hit(row@, opt_string(doc)),
{
    let usages: Vec<SearchUsage> = Vec::new();
    assert(usage_views(usages@) =~= Seq::empty());
    SearchHit {
        name: row.name.clone(),
        kind: row.kind.clone(),
        signature: Some(row.signature.clone()),
        module: row.module.clone(),
        path: row.path.clone(),
        line: row.line,
        doc,
        source: Some(row.body.clone()),
        usages,
        applicable: false,
        required_import: None,
    }
}

/// The results for statements that were asked for.
pub open spec fn risk_hits(rows: Seq<RowView>) -> Seq<HitView> {
    rows.map_values(
        |row: RowView|
            source_hit(
                row,
                Some("source candidate; specialization and premises require verification"@),
            ),
    )
}

/// A search with the statements that it asked for in place of its results.
pub open spec fn with_risks(run: RunView, rows: Seq<RowView>, name: Seq<char>, kind: Seq<char>) -> RunView {
    let hits = risk_hits(front(rows_bearing(risks(rows, name), name, kind), 3));
    let prior = match run.note {
        Some(text) => text,
        None => ""@,
    };
    if hits.len() == 0 {
        run
    } else {
        RunView {
            hits,
            inference: "contract-property"@,
            note: Some(
                bare(
                    prior + "\n"@
                        + "Requested property found in source; not verified applicability.\nInspect: mathmux search "@
                        + hits[0].path + ":"@ + decimal(hits[0].line as nat)
                        + "; use #synth in the relevant Lean context."@,
                ),
            ),
            ..run
        }
    }
}

fn make_risk_hits(rows: &Vec<IndexedRow>) -> (r: Vec<SearchHit>)
    ensures
        hit_views(r@) == risk_hits(front(row_views(rows@), 3)),
        r.len() <= rows.len(),
{
    let ghost wanted = risk_hits(front(row_views(rows@), 3));
    let stop: usize = if rows.len() < 3 {
        rows.len()
    } else {
        3
    };
    let mut out: Vec<SearchHit> = Vec::new();
    assert(hit_views(out@) =~= wanted.take(0));
    for i in 0..stop
        invariant
            stop <= rows.len(),
            stop == wanted.len(),
            wanted == risk_hits(front(row_views(rows@), 3)),
            out.len() == i,
            hit_views(out@) == wanted.take(i as int),
    {
        proof {
            prefix_step(wanted, i as int);
        }
        assert(row_views(rows@)[i as int] == rows@[i as int]@);
        let remark = own("source candidate; specialization and premises require verification");
        out.push(make_source_hit(&rows[i], Some(remark)));
    }
    proof {
        prefix_all(wanted);
    }
    out
}

/// Computes [`with_risks`], given the rows that [`risk_rows_query`] finds.
pub fn prioritize_requested_risk(run: &mut SearchRun, rows: &Vec<IndexedRow>, name: &str, kind: &str)
    ensures
        final(run)@ == with_risks(old(run)@, row_views(rows@), name@, kind@),
{
    let chosen = keep_bearing(&risk_rows(rows, name), name, kind);
    let hits = make_risk_hits(&chosen);
    let ghost views = hit_views(hits@);
    assert(views.len() == hits.len());
    if hits.len() == 0 {
        return;
    }
    assert(views[0] == hits@[0]@);
    let mut text = match &run.note {
        Some(prior) => prior.clone(),
        None => own(""),
    };
    push_str(&mut text, "\n");
    push_str(
        &mut text,
        "Requested property found in source; not verified applicability.\nInspect: mathmux search ",
    );
    push_str(&mut text, hits[0].path.as_str());
    push_str(&mut text, ":");
    push_str(&mut text, show(hits[0].line).as_str());
    push_str(&mut text, "; use #synth in the relevant Lean context.");
    run.note = Some(own(trim(text.as_str())));
    run.inference = own("contract-property");
    run.hits = hits;
}

/// Rows in the order of their keys.
pub open spec fn rows_arranged(rows: Seq<RowView>, keys: Seq<Seq<u64>>) -> Seq<RowView> {
    ranking(keys).map_values(|i: int| rows[i])
}

/// Computes [`rows_arranged`].
pub fn arrange_rows(rows: &Vec<IndexedRow>, keys: &Vec<Vec<u64>>) -> (r: Vec<IndexedRow>)
    requires
        rows.len() == keys.len(),
    ensures
        row_views(r@) == rows_arranged(row_views(rows@), key_list(keys@)),
{
    let order = rank(keys);
    let ghost wanted = rows_arranged(row_views(rows@), key_list(keys@));
    assert(positions(order@).len() == order.len());
    let mut out: Vec<IndexedRow> = Vec::new();
    assert(row_views(out@) =~= wanted.take(0));
    for i in 0..order.len()
        invariant
            order.len() == keys.len(),
            rows.len() == keys.len(),
            forall|j: int| 0 <= j < order.len() ==> (#[trigger] order@[j]) < keys.len(),
            positions(order@) == ranking(key_list(keys@)),
            wanted == rows_arranged(row_views(rows@), key_list(keys@)),
            wanted.len() == order.len(),
            row_views(out@) == wanted.take(i as int),
    {
        proof {
            prefix_step(wanted, i as int);
            assert(positions(order@)[i as int] == order@[i as int] as int);
        }
        out.push(rows[order[i]].copy());
    }
    proof {
        prefix_all(wanted);
    }
    out
}

/// Whether some row has a name.
pub open spec fn has_row_named(rows: Seq<RowView>, name: Seq<char>) -> bool {
    exists|i: int| 0 <= i < rows.len() && (#[trigger] rows[i]).name == name
}

/// The first row of each name.
pub open spec fn once_named(rows: Seq<RowView>) -> Seq<RowView>
    decreases rows.len(),
{
    if rows.len() == 0 {
        Seq::empty()
    } else {
        let before = once_named(rows.drop_last());
        if has_row_named(before, rows.last().name) {
            before
        } else {
            before.push(rows.last())
        }
    }
}

fn is_row_named(rows: &Vec<IndexedRow>, name: &str) -> (r: bool)
    ensures
        r == has_row_named(row_views(rows@), name@),
{
    let ghost views = row_views(rows@);
    for i in 0..rows.len()
        invariant
            views == row_views(rows@),
            forall|j: int| 0 <= j < i ==> (#[trigger] views[j]).name != name@,
    {
        assert(views[i as int] == rows@[i as int]@);
        if same(rows[i].name.as_str(), name) {
            return true;
        }
    }
    assert(views.len() == rows.len());
    false
}

/// Computes [`once_named`].
pub fn keep_once_named(rows: &Vec<IndexedRow>) -> (r: Vec<IndexedRow>)
    ensures
        row_views(r@) == once_named(row_views(rows@)),
{
    let ghost views = row_views(rows@);
    let mut out: Vec<IndexedRow> = Vec::new();
    assert(row_views(out@) =~= Seq::empty());
    for i in 0..rows.len()
        invariant
            views == row_views(rows@),
            row_views(out@) == once_named(views.take(i as int)),
    {
        proof {
            prefix_step(views, i as int);
        }
        assert(views[i as int] == rows@[i as int]@);
        if !is_row_named(&out, rows[i].name.as_str()) {
            out.push(rows[i].copy());
        }
    }
    proof {
        prefix_all(views);
    }
    out
}

/// No name is listed twice.
pub proof fn names_are_listed_once(rows: Seq<RowView>)
    ensures
        forall|i: int, j: int|
            0 <= i < j < once_named(rows).len() ==> (#[trigger] once_named(rows)[i]).name != (
            #[trigger] once_named(rows)[j]).name,
    decreases rows.len(),
{
    if rows.len() > 0 {
        names_are_listed_once(rows.drop_last());
        let before = once_named(rows.drop_last());
        let all = once_named(rows);
        assert forall|i: int, j: int| 0 <= i < j < all.len() implies (#[trigger] all[i]).name != (
        #[trigger] all[j]).name by {
            assert(all[i] == before[i]);
            if j < before.len() {
                assert(all[j] == before[j]);
            }
        }
    }
}

/// The order of the kinds of bearing: what rules out a plan comes first, then what
/// makes an inhabitant.
pub open spec fn bearing_order(kind: Option<Seq<char>>) -> u64 {
    if risky(kind) {
        0
    } else if kind == Some("construction candidate"@) {
        1
    } else {
        2
    }
}

/// Related rows are ordered by their bearing, then by name.
pub open spec fn related_key(row: RowView, name: Seq<char>) -> Seq<u64> {
    seq![bearing_order(bearing(row.signature, name))] + codes(row.name)
}

/// The rows, other than those of a type itself, that have a bearing on it.
pub open spec fn related_rows(rows: Seq<RowView>, name: Seq<char>) -> Seq<RowView>
    decreases rows.len(),
{
    if rows.len() == 0 {
        Seq::empty()
    } else {
        let before = related_rows(rows.drop_last(), name);
        if rootless(rows.last().name) != name && bearing(rows.last().signature, name) is Some {
            before.push(rows.last())
        } else {
            before
        }
    }
}

/// The related rows in order, each name once.
pub open spec fn related_in_order(rows: Seq<RowView>, name: Seq<char>) -> Seq<RowView> {
    let list = related_rows(rows, name);
    once_named(rows_arranged(list, list.map_values(|row: RowView| related_key(row, name))))
}

fn key_of_related(row: &IndexedRow, name: &str) -> (r: Vec<u64>)
    ensures
        r@ == related_key(row@, name@),
{
    let kind = relation(row.signature.as_str(), name);
    let mut out: Vec<u64> = Vec::new();
    let place: u64 = if is_risky(kind) {
        0
    } else {
        match kind {
            Some(k) => if same(k, "construction candidate") {
                1
            } else {
                2
            },
            None => 2,
        }
    };
    out.push(place);
    let mut rest = codes_of(row.name.as_str());
    out.append(&mut rest);
    assert(out@ =~= related_key(row@, name@));
    out
}

fn order_related(rows: &Vec<IndexedRow>, name: &str) -> (r: Vec<IndexedRow>)
    ensures
        row_views(r@) == related_in_order(row_views(rows@), name@),
{
    let ghost all = row_views(rows@);
    let mut list: Vec<IndexedRow> = Vec::new();
    assert(row_views(list@) =~= Seq::empty());
    for i in 0..rows.len()
        invariant
            all == row_views(rows@),
            row_views(list@) == related_rows(all.take(i as int), name@),
    {
        proof {
            prefix_step(all, i as int);
        }
        assert(all[i as int] == rows@[i as int]@);
        if !same(without_root(rows[i].name.as_str()), name) && relation(
            rows[i].signature.as_str(),
            name,
        ).is_some() {
            list.push(rows[i].copy());
        }
    }
    proof {
        prefix_all(all);
    }
    let ghost views = row_views(list@);
    let ghost wanted = views.map_values(|row: RowView| related_key(row, name@));
    let mut keys: Vec<Vec<u64>> = Vec::new();
    assert(key_list(keys@) =~= wanted.take(0));
    for i in 0..list.len()
        invariant
            views == row_views(list@),
            wanted == views.map_values(|row: RowView| related_key(row, name@)),
            keys.len() == i,
            key_list(keys@) == wanted.take(i as int),
    {
        proof {
            prefix_step(wanted, i as int);
        }
        assert(views[i as int] == list@[i as int]@);
        let ghost before = key_list(keys@);
        keys.push(key_of_related(&list[i], name));
        assert(key_list(keys@) =~= before.push(wanted[i as int]));
    }
    proof {
        prefix_all(wanted);
    }
    keep_once_named(&arrange_rows(&list, &keys))
}

/// What is shown of a related row.
pub open spec fn related_text(row: RowView, name: Seq<char>) -> Seq<char> {
    let kind = match bearing(row.signature, name) {
        Some(k) => k,
        None => ""@,
    };
    "\n"@ + kind + ": "@ + row.name + "\n"@ + row.path + ":"@ + decimal(row.line as nat) + "\n"@
        + row.signature + "\n"@ + if row.kind == "instance"@ && has_text(row.name, "instance@"@) {
        "verify: mathmux probe "@ + row.path + ":"@ + decimal(row.line as nat) + " '#synth "@
            + stated(row.signature) + "'\n"@
    } else {
        ""@
    }
}

/// What is shown of the first `n` related rows.
pub open spec fn related_texts(rows: Seq<RowView>, name: Seq<char>, n: nat) -> Seq<char>
    decreases n,
{
    if n == 0 {
        ""@
    } else {
        related_texts(rows, name, (n - 1) as nat) + related_text(rows[n - 1], name)
    }
}

fn show_related(row: &IndexedRow, name: &str) -> (r: String)
    ensures
        r@ == related_text(row@, name@),
{
    let kind = match relation(row.signature.as_str(), name) {
        Some(k) => k,
        None => "",
    };
    let line = show(row.line);
    let mut out = cat5("\n", kind, ": ", row.name.as_str(), "\n");
    push_str(&mut out, row.path.as_str());
    push_str(&mut out, ":");
    push_str(&mut out, line.as_str());
    push_str(&mut out, "\n");
    push_str(&mut out, row.signature.as_str());
    push_str(&mut out, "\n");
    if same(row.kind.as_str(), "instance") && contains(row.name.as_str(), "instance@") {
        let mut part = cat5(
            "verify: mathmux probe ",
            row.path.as_str(),
            ":",
            line.as_str(),
            " '#synth ",
        );
        push_str(&mut part, conclusion(row.signature.as_str()));
        push_str(&mut part, "'\n");
        push_str(&mut out, part.as_str());
    } else {
        push_str(&mut out, "");
    }
    out
}

/// What the index says for and against a type.
pub open spec fn evidence_text(rows: Seq<RowView>, name: Seq<char>) -> Seq<char> {
    let list = related_in_order(rows, name);
    related_texts(
        list,
        name,
        if list.len() < 3 {
            list.len()
        } else {
            3
        },
    ) + (if list.len() == 0 {
        "No construction or obstruction found in this bounded index search; this is not an existence verdict.\n"@
    } else {
        ""@
    })
        + "Candidates are indexed source, not verified applicability. Hypotheses and namespace resolution matter. Verify a candidate in your exact Lean context with #inspect and #apply; check remains certification.\n"@
}

fn show_evidence(rows: &Vec<IndexedRow>, name: &str) -> (r: String)
    ensures
        r@ == evidence_text(row_views(rows@), name@),
{
    let list = order_related(rows, name);
    let ghost views = row_views(list@);
    assert(views.len() == list.len());
    let stop: usize = if list.len() < 3 {
        list.len()
    } else {
        3
    };
    let mut out = own("");
    for i in 0..stop
        invariant
            stop <= list.len(),
            views == row_views(list@),
            out@ == related_texts(views, name@, i as nat),
    {
        assert(views[i as int] == list@[i as int]@);
        let part = show_related(&list[i], name);
        push_str(&mut out, part.as_str());
    }
    push_str(
        &mut out,
        if list.len() == 0 {
            "No construction or obstruction found in this bounded index search; this is not an existence verdict.\n"
        } else {
            ""
        },
    );
    push_str(
        &mut out,
        "Candidates are indexed source, not verified applicability. Hypotheses and namespace resolution matter. Verify a candidate in your exact Lean context with #inspect and #apply; check remains certification.\n",
    );
    out
}

/// A term that may name a type.
pub open spec fn type_like_name(term: Seq<char>) -> bool {
    has_text(term, "."@) || term.len() > 0 && uppercase(term[0])
}

/// Decides [`type_like_name`].
pub fn is_type_like_name(term: &str) -> (r: bool)
    ensures
        r == type_like_name(term@),
{
    contains(term, ".") || term.unicode_len() > 0 && is_uppercase(term.get_char(0))
}

/// The terms that may name types.
pub open spec fn type_like_names(list: Seq<Seq<char>>) -> Seq<Seq<char>>
    decreases list.len(),
{
    if list.len() == 0 {
        Seq::empty()
    } else if type_like_name(list.last()) {
        type_like_names(list.drop_last()).push(list.last())
    } else {
        type_like_names(list.drop_last())
    }
}

/// The types of the inputs of a signature, of which the first eight are looked up.
pub open spec fn input_types(signature: Seq<char>) -> Seq<Seq<char>> {
    front(type_like_names(head_list(signature)), 8)
}

/// Computes [`input_types`].
pub fn inputs_to_resolve(signature: &str) -> (r: Vec<String>)
    ensures
        strings(r@) == input_types(signature@),
{
    let list = input_heads(signature);
    let ghost views = strings(list@);
    let mut out: Vec<String> = Vec::new();
    assert(strings(out@) =~= Seq::empty());
    for i in 0..list.len()
        invariant
            views == strings(list@),
            strings(out@) == type_like_names(views.take(i as int)),
    {
        proof {
            prefix_step(views, i as int);
        }
        assert(views[i as int] == list@[i as int]@);
        if is_type_like_name(list[i].as_str()) {
            out.push(list[i].clone());
        }
    }
    proof {
        prefix_all(views);
    }
    let ghost all = strings(out@);
    assert(all.len() == out.len());
    if out.len() > 8 {
        out.truncate(8);
        assert(strings(out@) =~= all.take(8));
    }
    out
}

/// A kind of declaration that has fields.
pub open spec fn fielded_kind(kind: Seq<char>) -> bool {
    kind == "structure"@ || kind == "class"@ || kind == "abbrev"@
}

fn is_fielded_kind(kind: &str) -> (r: bool)
    ensures
        r == fielded_kind(kind@),
{
    same(kind, "structure") || same(kind, "class") || same(kind, "abbrev")
}

/// Rows for each of some terms.
pub open spec fn row_lists(lists: Seq<Vec<IndexedRow>>) -> Seq<Seq<RowView>> {
    lists.map_values(|l: Vec<IndexedRow>| row_views(l@))
}

/// The first three types with fields among the first `n` inputs of a declaration.
pub open spec fn input_apis(
    own_name: Seq<char>,
    terms: Seq<Seq<char>>,
    rows: Seq<Seq<RowView>>,
    workspace: Seq<char>,
    n: nat,
) -> Seq<Seq<char>>
    decreases n,
{
    if n == 0 {
        Seq::empty()
    } else {
        let before = input_apis(own_name, terms, rows, workspace, (n - 1) as nat);
        match sole_declaration(rows[n - 1], terms[n - 1], workspace) {
            Some(h) => if before.len() < 3 && h.name != own_name && fielded_kind(h.kind) {
                before.push(h.name)
            } else {
                before
            },
            None => before,
        }
    }
}

/// How the fields of some types are shown.
pub open spec fn api_lines(names: Seq<Seq<char>>) -> Seq<char>
    decreases names.len(),
{
    if names.len() == 0 {
        ""@
    } else {
        api_lines(names.drop_last()) + "input API: "@ + names.last() + " — mathmux probe "@
            + names.last() + " fields\n"@
    }
}

fn push_api_lines(
    out: &mut String,
    own_name: &str,
    terms: &Vec<String>,
    rows: &Vec<Vec<IndexedRow>>,
    workspace: &str,
)
    requires
        terms.len() == rows.len(),
    ensures
        final(out)@ == old(out)@ + api_lines(
            input_apis(
                own_name@,
                strings(terms@),
                row_lists(rows@),
                workspace@,
                terms.len() as nat,
            ),
        ),
{
    let ghost views = strings(terms@);
    let ghost lists = row_lists(rows@);
    let ghost start = out@;
    let mut count: usize = 0;
    let mut text = own("");
    for i in 0..terms.len()
        invariant
            terms.len() == rows.len(),
            views == strings(terms@),
            lists == row_lists(rows@),
            count == input_apis(own_name@, views, lists, workspace@, i as nat).len(),
            count <= 3,
            text@ == api_lines(input_apis(own_name@, views, lists, workspace@, i as nat)),
    {
        assert(views[i as int] == terms@[i as int]@);
        assert(lists[i as int] == row_views(rows@[i as int]@));
        let ghost before = input_apis(own_name@, views, lists, workspace@, i as nat);
        if let Ok(input) = contract_exact_hit(&rows[i], terms[i].as_str(), workspace) {
            if count < 3 && !same(input.name.as_str(), own_name) && is_fielded_kind(
                input.kind.as_str(),
            ) {
                push_str(&mut text, "input API: ");
                push_str(&mut text, input.name.as_str());
                push_str(&mut text, " — mathmux probe ");
                push_str(&mut text, input.name.as_str());
                push_str(&mut text, " fields\n");
                count += 1;
                assert(before.push(input.name@).drop_last() =~= before);
            }
        }
    }
    push_str(out, text.as_str());
}

/// What is said of the inputs of a declaration.
pub open spec fn assumptions_text(
    hit: HitView,
    name: Seq<char>,
    rows: Seq<Seq<RowView>>,
    workspace: Seq<char>,
) -> Seq<char> {
    let signature = match hit.signature {
        Some(s) => s,
        None => ""@,
    };
    let terms = input_types(signature);
    assumptions(
        match hit.signature {
            Some(s) => s,
            None => "unavailable"@,
        },
    )
        + "A conditional signature does not construct its inputs. Inspect selected input types and fields, then test the intended application.\n"@
        + (if fielded_kind(hit.kind) {
        "fields: mathmux probe "@ + name + " fields\n"@
    } else {
        ""@
    }) + api_lines(input_apis(hit.name, terms, rows, workspace, terms.len()))
        + "next: mathmux probe FILE:LINE '#inspect NAME_OR_TERM' for full premises; #apply TERM tests the intended use.\n"@
}

fn show_assumptions(
    hit: &SearchHit,
    name: &str,
    terms: &Vec<String>,
    rows: &Vec<Vec<IndexedRow>>,
    workspace: &str,
) -> (r: String)
    requires
        terms.len() == rows.len(),
        strings(terms@) == input_types(
            match opt_string(hit.signature) {
                Some(s) => s,
                None => ""@,
            },
        ),
    ensures
        r@ == assumptions_text(hit@, name@, row_lists(rows@), workspace@),
{
    let mut out = match &hit.signature {
        Some(s) => assumption_signature(s.as_str()),
        None => assumption_signature("unavailable"),
    };
    push_str(
        &mut out,
        "A conditional signature does not construct its inputs. Inspect selected input types and fields, then test the intended application.\n",
    );
    if is_fielded_kind(hit.kind.as_str()) {
        push_str(&mut out, cat3("fields: mathmux probe ", name, " fields\n").as_str());
    } else {
        push_str(&mut out, "");
    }
    assert(strings(terms@).len() == terms.len());
    push_api_lines(&mut out, hit.name.as_str(), terms, rows, workspace);
    push_str(
        &mut out,
        "next: mathmux probe FILE:LINE '#inspect NAME_OR_TERM' for full premises; #apply TERM tests the intended use.\n",
    );
    out
}

/// The first lines of a dossier.
pub open spec fn dossier_head(hit: HitView, name: Seq<char>, warming: bool) -> Seq<char> {
    name + "\nsource evidence: "@ + hit.path + ":"@ + decimal(hit.line as nat)
        + "; index warming: "@ + (if warming {
        "true"@
    } else {
        "false"@
    }) + "\n"@
}

/// The last lines of a dossier: what was verified, and the routes that the project
/// documents.
pub open spec fn dossier_tail(notice: Option<Seq<char>>, routes: Seq<RouteView>) -> Seq<char> {
    (match notice {
        Some(text) => "\n"@ + text + "\n"@,
        None => ""@,
    }) + routes_text(routes)
}

fn push_dossier_head(out: &mut String, hit: &SearchHit, name: &str, warming: bool)
    ensures
        final(out)@ == old(out)@ + dossier_head(hit@, name@, warming),
{
    let line = show(hit.line);
    let mut part = cat5(name, "\nsource evidence: ", hit.path.as_str(), ":", line.as_str());
    push_str(&mut part, "; index warming: ");
    push_str(
        &mut part,
        if warming {
            "true"
        } else {
            "false"
        },
    );
    push_str(&mut part, "\n");
    push_str(out, part.as_str());
}

fn push_dossier_tail(out: &mut String, notice: Option<&str>, routes: &Vec<Route>)
    ensures
        final(out)@ == old(out)@ + dossier_tail(opt_str(notice), route_views(routes@)),
{
    let mut part = match notice {
        Some(text) => cat3("\n", text, "\n"),
        None => own(""),
    };
    push_str(&mut part, authored_route_detail(routes).as_str());
    push_str(out, part.as_str());
}

/// The dossier on the inputs of a declaration.
pub fn probe_assumptions(
    hit: &SearchHit,
    terms: &Vec<String>,
    rows: &Vec<Vec<IndexedRow>>,
    workspace: &str,
    warming: bool,
    notice: Option<&str>,
    routes: &Vec<Route>,
) -> (r: String)
    requires
        terms.len() == rows.len(),
        strings(terms@) == input_types(
            match opt_string(hit.signature) {
                Some(s) => s,
                None => ""@,
            },
        ),
    ensures
        r@ == dossier_head(hit@, rootless(hit.name@), warming) + assumptions_text(
            hit@,
            rootless(hit.name@),
            row_lists(rows@),
            workspace@,
        ) + dossier_tail(opt_str(notice), route_views(routes@)),
{
    let name = without_root(hit.name.as_str());
    let mut head = own("");
    push_dossier_head(&mut head, hit, name, warming);
    proof {
        reveal_strlit("");
    }
    assert(head@ =~= dossier_head(hit@, name@, warming));
    push_str(&mut head, show_assumptions(hit, name, terms, rows, workspace).as_str());
    push_dossier_tail(&mut head, notice, routes);
    head
}

/// The dossier on what the index says for and against a declaration, given the rows that
/// [`risk_rows_query`] and [`contract_rows_query`] find.
pub fn probe_contract(
    hit: &SearchHit,
    risk: &Vec<IndexedRow>,
    related: &Vec<IndexedRow>,
    warming: bool,
    notice: Option<&str>,
    routes: &Vec<Route>,
) -> (r: String)
    ensures
        r@ == dossier_head(hit@, rootless(hit.name@), warming) + ("signature (premises retained):\n"@
            + match opt_string(hit.signature) {
            Some(s) => s,
            None => "unavailable"@,
        } + "\n"@) + evidence_text(
            risks(row_views(risk@), rootless(hit.name@)) + row_views(related@),
            rootless(hit.name@),
        ) + dossier_tail(opt_str(notice), route_views(routes@)),
{
    let name = without_root(hit.name.as_str());
    let mut out = own("");
    push_dossier_head(&mut out, hit, name, warming);
    proof {
        reveal_strlit("");
    }
    assert(out@ =~= dossier_head(hit@, name@, warming));
    let signature = match &hit.signature {
        Some(s) => s.as_str(),
        None => "unavailable",
    };
    push_str(&mut out, cat3("signature (premises retained):\n", signature, "\n").as_str());
    let mut rows = risk_rows(risk, name);
    let mut more = crate::search::records::copy_rows(related);
    let ghost first = row_views(rows@);
    let ghost second = row_views(more@);
    rows.append(&mut more);
    assert(row_views(rows@) =~= first + second);
    push_str(&mut out, show_evidence(&rows, name).as_str());
    push_dossier_tail(&mut out, notice, routes);
    out
}

/// How many brackets open in a signature.
pub open spec fn openings(text: Seq<char>) -> nat
    decreases text.len(),
{
    if text.len() == 0 {
        0
    } else {
        openings(text.drop_last()) + if crate::search::contract::opening(text.last()) {
            1nat
        } else {
            0nat
        }
    }
}

fn count_openings(text: &str) -> (r: usize)
    ensures
        r == openings(text@),
        r <= text@.len(),
{
    let chars = crate::text::make::to_chars(text);
    let mut n: usize = 0;
    for i in 0..chars.len()
        invariant
            chars@ == text@,
            n <= i,
            n == openings(chars@.take(i as int)),
    {
        proof {
            prefix_step(chars@, i as int);
        }
        if crate::search::contract::is_opening(chars[i]) {
            n += 1;
        }
    }
    proof {
        prefix_all(chars@);
    }
    n
}

/// An example that the index offers counts the less the more it asks for; what needs an
/// inhabitant of the type itself comes after what does not, and what is private last.
pub open spec fn example_cost(signature: Seq<char>, name: Seq<char>) -> int {
    10 + (if begins(signature, "[private]"@) {
        2000int
    } else {
        0
    }) + (if needs_subject(signature, name) {
        1000int
    } else {
        0
    }) + openings(signature)
}

/// A row that makes an inhabitant of a type.
pub open spec fn makes_subject(row: RowView, name: Seq<char>) -> bool {
    bearing(row.signature, name) == Some("construction candidate"@) && rootless(row.name) != name
}

/// The rows of examples that a project names, which are no fields.
pub open spec fn named_examples(rows: Seq<RowView>) -> Seq<RowView>
    decreases rows.len(),
{
    if rows.len() == 0 {
        Seq::empty()
    } else if rows.last().kind == "field"@ {
        named_examples(rows.drop_last())
    } else {
        named_examples(rows.drop_last()).push(rows.last())
    }
}

/// The rows that make an inhabitant of a type.
pub open spec fn found_examples(rows: Seq<RowView>, name: Seq<char>) -> Seq<RowView>
    decreases rows.len(),
{
    if rows.len() == 0 {
        Seq::empty()
    } else if makes_subject(rows.last(), name) {
        found_examples(rows.drop_last(), name).push(rows.last())
    } else {
        found_examples(rows.drop_last(), name)
    }
}

/// Examples are ordered by their cost, then by the length of their signature, then by
/// name.
pub open spec fn example_key(cost: int, row: RowView) -> Seq<u64> {
    seq![cost as u64, byte_length(row.signature) as u64] + codes(row.name)
}

/// The keys of examples: those that a project names cost nothing.
pub open spec fn example_keys(
    named: Seq<RowView>,
    found: Seq<RowView>,
    name: Seq<char>,
) -> Seq<Seq<u64>> {
    named.map_values(|row: RowView| example_key(0, row)) + found.map_values(
        |row: RowView| example_key(example_cost(row.signature, name), row),
    )
}

/// Rows with a signature.
pub open spec fn signed_rows(rows: Seq<RowView>) -> Seq<RowView>
    decreases rows.len(),
{
    if rows.len() == 0 {
        Seq::empty()
    } else if rows.last().signature.len() == 0 {
        signed_rows(rows.drop_last())
    } else {
        signed_rows(rows.drop_last()).push(rows.last())
    }
}

/// The examples of a type, the simplest first, each name once.
pub open spec fn examples(rows: Seq<RowView>, related: Seq<RowView>, name: Seq<char>) -> Seq<RowView> {
    let named = named_examples(rows);
    let found = found_examples(related, name);
    once_named(signed_rows(rows_arranged(named + found, example_keys(named, found, name))))
}

fn key_of_example(cost: u64, row: &IndexedRow) -> (r: Vec<u64>)
    ensures
        r@ == example_key(cost as int, row@),
{
    let mut out: Vec<u64> = Vec::new();
    out.push(cost);
    out.push(row.signature.as_str().len() as u64);
    let mut rest = codes_of(row.name.as_str());
    out.append(&mut rest);
    assert(out@ =~= example_key(cost as int, row@));
    out
}

fn cost_of_example(signature: &str, name: &str) -> (r: u64)
    ensures
        r == example_cost(signature@, name@) as u64,
{
    let mut cost: u128 = 10;
    if starts_with(signature, "[private]") {
        cost += 2000;
    }
    if construction_needs_subject(signature, name) {
        cost += 1000;
    }
    let opened = count_openings(signature);
    cost += opened as u128;
    #[verifier::truncate]
    let low = cost as u64;
    low
}

fn keep_signed(rows: &Vec<IndexedRow>) -> (r: Vec<IndexedRow>)
    ensures
        row_views(r@) == signed_rows(row_views(rows@)),
{
    let ghost views = row_views(rows@);
    let mut out: Vec<IndexedRow> = Vec::new();
    assert(row_views(out@) =~= Seq::empty());
    for i in 0..rows.len()
        invariant
            views == row_views(rows@),
            row_views(out@) == signed_rows(views.take(i as int)),
    {
        proof {
            prefix_step(views, i as int);
        }
        assert(views[i as int] == rows@[i as int]@);
        if !rows[i].signature.as_str().is_empty() {
            out.push(rows[i].copy());
        }
    }
    proof {
        prefix_all(views);
    }
    out
}

/// Computes [`examples`], given the rows of the examples that the project names and those
/// that [`contract_rows_query`] finds.
pub fn order_examples(rows: &Vec<IndexedRow>, related: &Vec<IndexedRow>, name: &str) -> (r: Vec<
    IndexedRow,
>)
    ensures
        row_views(r@) == examples(row_views(rows@), row_views(related@), name@),
{
    let ghost a = row_views(rows@);
    let ghost b = row_views(related@);
    let ghost named = named_examples(a);
    let ghost found = found_examples(b, name@);
    let mut list: Vec<IndexedRow> = Vec::new();
    let mut keys: Vec<Vec<u64>> = Vec::new();
    assert(row_views(list@) =~= Seq::empty());
    assert(key_list(keys@) =~= Seq::empty());
    for i in 0..rows.len()
        invariant
            a == row_views(rows@),
            keys.len() == list.len(),
            row_views(list@) == named_examples(a.take(i as int)),
            key_list(keys@) == row_views(list@).map_values(|row: RowView| example_key(0, row)),
    {
        proof {
            prefix_step(a, i as int);
        }
        assert(a[i as int] == rows@[i as int]@);
        if !same(rows[i].kind.as_str(), "field") {
            let ghost before = key_list(keys@);
            let key = key_of_example(0, &rows[i]);
            keys.push(key);
            list.push(rows[i].copy());
            assert(key_list(keys@) =~= before.push(key@));
            assert(key_list(keys@) =~= row_views(list@).map_values(
                |row: RowView| example_key(0, row),
            ));
        }
    }
    proof {
        prefix_all(a);
    }
    let ghost head = row_views(list@);
    let ghost head_keys = key_list(keys@);
    assert(row_views(list@) =~= head + found_examples(b.take(0), name@));
    assert(key_list(keys@) =~= head_keys + found_examples(b.take(0), name@).map_values(
        |row: RowView| example_key(example_cost(row.signature, name@), row),
    ));
    for i in 0..related.len()
        invariant
            b == row_views(related@),
            keys.len() == list.len(),
            row_views(list@) == head + found_examples(b.take(i as int), name@),
            key_list(keys@) == head_keys + found_examples(b.take(i as int), name@).map_values(
                |row: RowView| example_key(example_cost(row.signature, name@), row),
            ),
    {
        proof {
            prefix_step(b, i as int);
        }
        assert(b[i as int] == related@[i as int]@);
        let row = &related[i];
        let made = match relation(row.signature.as_str(), name) {
            Some(kind) => same(kind, "construction candidate") && !same(
                without_root(row.name.as_str()),
                name,
            ),
            None => false,
        };
        if made {
            let ghost before = key_list(keys@);
            let ghost kept = found_examples(b.take(i as int), name@);
            let cost = cost_of_example(row.signature.as_str(), name);
            let key = key_of_example(cost, row);
            assert(key@ == example_key(example_cost(row.signature@, name@), row@));
            keys.push(key);
            list.push(row.copy());
            assert(key_list(keys@) =~= before.push(key@));
            assert(row_views(list@) =~= head + kept.push(row@));
            assert(key_list(keys@) =~= head_keys + kept.push(row@).map_values(
                |row: RowView| example_key(example_cost(row.signature, name@), row),
            ));
        }
    }
    proof {
        prefix_all(b);
    }
    assert(row_views(list@).len() == list.len());
    keep_once_named(&keep_signed(&arrange_rows(&list, &keys)))
}

/// The results for examples.
pub open spec fn example_hits(rows: Seq<RowView>) -> Seq<HitView> {
    rows.map_values(
        |row: RowView|
            source_hit(
                row,
                if row.docs.len() == 0 {
                    None
                } else {
                    Some(row.docs)
                },
            ),
    )
}

/// The first three examples as results.
pub fn examples_as_hits(rows: &Vec<IndexedRow>) -> (r: Vec<SearchHit>)
    ensures
        hit_views(r@) == example_hits(front(row_views(rows@), 3)),
{
    let ghost wanted = example_hits(front(row_views(rows@), 3));
    let stop: usize = if rows.len() < 3 {
        rows.len()
    } else {
        3
    };
    let mut out: Vec<SearchHit> = Vec::new();
    assert(hit_views(out@) =~= wanted.take(0));
    for i in 0..stop
        invariant
            stop <= rows.len(),
            stop == wanted.len(),
            wanted == example_hits(front(row_views(rows@), 3)),
            hit_views(out@) == wanted.take(i as int),
    {
        proof {
            prefix_step(wanted, i as int);
        }
        assert(row_views(rows@)[i as int] == rows@[i as int]@);
        let doc = if rows[i].docs.as_str().is_empty() {
            None
        } else {
            Some(rows[i].docs.clone())
        };
        out.push(make_source_hit(&rows[i], doc));
    }
    proof {
        prefix_all(wanted);
    }
    out
}

/// What is said of example `i`, counted from zero.
pub open spec fn example_remark(hit: HitView, i: int, reference: Seq<char>, name: Seq<char>) -> Seq<char> {
    (if hit.signature is Some && begins(hit.signature->0, "[private]"@) {
        "\n"@ + reference + "#"@ + decimal((i + 1) as nat)
            + " is private: inspect its source for a public construction; its displayed name is not a public API in importing modules."@
    } else {
        ""@
    }) + (if hit.signature is Some && needs_subject(hit.signature->0, name) {
        "\n"@ + reference + "#"@ + decimal((i + 1) as nat) + " requires an existing "@ + name
            + " input."@
    } else {
        ""@
    })
}

/// What is said of the first `n` examples.
pub open spec fn example_remarks(
    hits: Seq<HitView>,
    reference: Seq<char>,
    name: Seq<char>,
    n: nat,
) -> Seq<char>
    decreases n,
{
    if n == 0 {
        ""@
    } else {
        example_remarks(hits, reference, name, (n - 1) as nat) + example_remark(
            hits[n - 1],
            n - 1,
            reference,
            name,
        )
    }
}

/// The note under the examples of a type.
pub open spec fn examples_note(
    hits: Seq<HitView>,
    reference: Seq<char>,
    name: Seq<char>,
    context: Seq<char>,
) -> Seq<char> {
    if hits.len() == 0 {
        "No construction found in the bounded index for "@ + name
            + "; this is not an inhabitability verdict. Try "@ + context
            + " '#check (TERM : EXPECTED_TYPE)'."@
    } else {
        "Existing construction candidates for "@ + name
            + "; project selections are advisory.\nRanked by indexed inputs; hidden prerequisites remain. No inhabitability conclusion follows from absence.\nInspect one: mathmux probe "@
            + reference + "#1 assumptions; test "@ + context + " '#check (TERM : EXPECTED_TYPE)'."@
            + example_remarks(hits, reference, name, hits.len())
    }
}

fn remark_on_example(hit: &SearchHit, i: usize, reference: &str, name: &str) -> (r: String)
    requires
        i < usize::MAX,
    ensures
        r@ == example_remark(hit@, i as int, reference@, name@),
{
    let number = show_size(i + 1);
    let mut out = own("");
    let mut first = own("");
    let mut second = own("");
    if let Some(signature) = &hit.signature {
        if starts_with(signature.as_str(), "[private]") {
            first = cat5(
                "\n",
                reference,
                "#",
                number.as_str(),
                " is private: inspect its source for a public construction; its displayed name is not a public API in importing modules.",
            );
        }
        if construction_needs_subject(signature.as_str(), name) {
            second = cat5("\n", reference, "#", number.as_str(), " requires an existing ");
            push_str(&mut second, name);
            push_str(&mut second, " input.");
        }
    }
    cat2(first.as_str(), second.as_str())
}

/// Computes [`examples_note`].
pub fn note_on_examples(hits: &Vec<SearchHit>, reference: &str, name: &str, context: &str) -> (r:
    String)
    ensures
        r@ == examples_note(hit_views(hits@), reference@, name@, context@),
{
    let ghost views = hit_views(hits@);
    assert(views.len() == hits.len());
    if hits.len() == 0 {
        return cat5(
            "No construction found in the bounded index for ",
            name,
            "; this is not an inhabitability verdict. Try ",
            context,
            " '#check (TERM : EXPECTED_TYPE)'.",
        );
    }
    let mut out = cat4(
        "Existing construction candidates for ",
        name,
        "; project selections are advisory.\nRanked by indexed inputs; hidden prerequisites remain. No inhabitability conclusion follows from absence.\nInspect one: mathmux probe ",
        reference,
    );
    push_str(&mut out, "#1 assumptions; test ");
    push_str(&mut out, context);
    push_str(&mut out, " '#check (TERM : EXPECTED_TYPE)'.");
    let mut remarks = own("");
    for i in 0..hits.len()
        invariant
            views == hit_views(hits@),
            remarks@ == example_remarks(views, reference@, name@, i as nat),
    {
        assert(views[i as int] == hits@[i as int]@);
        let part = remark_on_example(&hits[i], i, reference, name);
        push_str(&mut remarks, part.as_str());
    }
    push_str(&mut out, remarks.as_str());
    out
}

/// The place that stands for the one that an example is tried at.
pub open spec fn context_of(location: Option<Seq<char>>) -> Seq<char> {
    match location {
        Some(text) => text,
        None => "FILE:LINE"@,
    }
}

/// The search that lists examples of a type.
pub fn probe_examples(
    hit: &SearchHit,
    rows: &Vec<IndexedRow>,
    related: &Vec<IndexedRow>,
    subject: &str,
    location: Option<&str>,
    reference: &str,
    workspace_ref: &str,
    now_ms: i64,
) -> (r: SearchRun)
    ensures
        ({
            let name = rootless(hit.name@);
            let hits = example_hits(front(examples(row_views(rows@), row_views(related@), name), 3));
            r@ == RunView {
                reference: reference@,
                workspace_ref: workspace_ref@,
                query: subject@ + " examples"@,
                inference: "probe-examples"@,
                hits,
                note: Some(
                    examples_note(hits, reference@, name, context_of(opt_str(location))),
                ),
                duration_ms: 0,
                created_at: now_ms,
            }
        }),
{
    let name = without_root(hit.name.as_str());
    let hits = examples_as_hits(&order_examples(rows, related, name));
    let context = match location {
        Some(text) => text,
        None => "FILE:LINE",
    };
    let note = note_on_examples(&hits, reference, name, context);
    SearchRun {
        reference: own(reference),
        workspace_ref: own(workspace_ref),
        query: cat2(subject, " examples"),
        inference: own("probe-examples"),
        hits,
        note: Some(note),
        duration_ms: 0,
        created_at: now_ms,
    }
}

/// The explicit binders among some.
pub open spec fn explicit_binders(list: Seq<Seq<char>>) -> Seq<Seq<char>>
    decreases list.len(),
{
    if list.len() == 0 {
        Seq::empty()
    } else if begins(list.last(), "("@) {
        explicit_binders(list.drop_last()).push(list.last())
    } else {
        explicit_binders(list.drop_last())
    }
}

/// The head of the type of a binder.
pub open spec fn binder_head(binder: Seq<char>) -> Option<Seq<char>> {
    match cut(binder, ":"@) {
        Some((_, ty)) => if identifier_list(ty).len() > 0 {
            Some(identifier_list(ty)[0])
        } else {
            None
        },
        None => None,
    }
}

/// Whether the commands around a declaration are not all known.
pub open spec fn context_open(source: Option<Seq<char>>) -> bool {
    match source {
        Some(text) => has_text(text, "earlier ambient commands omitted"@),
        None => true,
    }
}

/// The types of some binders that are looked up, each once: not those that are bound, and
/// only qualified ones where the commands around are not all known.
pub open spec fn heads_to_try(
    binders: Seq<Seq<char>>,
    bound: Seq<Seq<char>>,
    open_context: bool,
) -> Seq<Seq<char>>
    decreases binders.len(),
{
    if binders.len() == 0 {
        Seq::empty()
    } else {
        let before = heads_to_try(binders.drop_last(), bound, open_context);
        match binder_head(binders.last()) {
            Some(head) => if (open_context && !has_text(head, "."@)) || bound.contains(head)
                || before.contains(head) {
                before
            } else {
                before.push(head)
            },
            None => before,
        }
    }
}

/// The types of the first three explicit inputs of a signature that are looked up.
pub open spec fn obstruction_heads(signature: Seq<char>, source: Option<Seq<char>>) -> Seq<Seq<char>> {
    heads_to_try(
        front(explicit_binders(binder_list(signature)), 3),
        bound_names(signature, source),
        context_open(source),
    )
}

/// Computes [`obstruction_heads`].
pub fn input_obstruction_heads(signature: &str, source: Option<&str>) -> (r: Vec<String>)
    ensures
        strings(r@) == obstruction_heads(signature@, opt_str(source)),
{
    let bound = bound_input_names(signature, source);
    let all = signature_binders(signature);
    let ghost views = strs(all@);
    let mut explicit: Vec<&str> = Vec::new();
    assert(strs(explicit@) =~= Seq::empty());
    for i in 0..all.len()
        invariant
            views == strs(all@),
            strs(explicit@) == explicit_binders(views.take(i as int)),
    {
        proof {
            prefix_step(views, i as int);
        }
        assert(views[i as int] == all@[i as int]@);
        if starts_with(all[i], "(") {
            let ghost before = strs(explicit@);
            explicit.push(all[i]);
            assert(strs(explicit@) =~= before.push(all@[i as int]@));
        }
    }
    proof {
        prefix_all(views);
    }
    let list = crate::text::layout::take_front(&explicit, 3);
    let ghost chosen = strs(list@);
    let open_context = match source {
        Some(text) => contains(text, "earlier ambient commands omitted"),
        None => true,
    };
    let mut out: Vec<String> = Vec::new();
    assert(strings(out@) =~= Seq::empty());
    for i in 0..list.len()
        invariant
            chosen == strs(list@),
            strings(out@) == heads_to_try(chosen.take(i as int), strings(bound@), open_context),
    {
        proof {
            prefix_step(chosen, i as int);
        }
        assert(chosen[i as int] == list@[i as int]@);
        if let Some((_, ty)) = split_once(list[i], ":") {
            let names = identifiers(ty);
            assert(strings(names@).len() == names.len());
            if names.len() > 0 {
                assert(strings(names@)[0] == names@[0]@);
                let head = names[0].as_str();
                if !((open_context && !contains(head, ".")) || has_string(&bound, head)
                    || has_string(&out, head)) {
                    out.push(own(head));
                }
            }
        }
    }
    proof {
        prefix_all(chosen);
    }
    out
}

/// What the index has against a type: where it stands and what it states.
pub open spec fn obstruction(rows: Seq<RowView>, subject: Seq<char>) -> Option<
    (Seq<char>, Seq<char>),
> {
    let list = risks(rows, subject);
    if list.len() == 0 {
        None
    } else {
        let row = list[0];
        Some(
            (
                (match bearing(row.signature, subject) {
                    Some(kind) => kind,
                    None => "source candidate"@,
                }) + ": "@ + row.name + " ("@ + row.path + ":"@ + decimal(row.line as nat) + ")"@,
                row.signature,
            ),
        )
    }
}

/// Computes [`obstruction`], given the rows that [`risk_rows_query`] finds.
pub fn direct_obstruction_candidate(rows: &Vec<IndexedRow>, subject: &str) -> (r: Option<
    (String, String),
>)
    ensures
        crate::search::regex_request::opt_strings(r) == obstruction(row_views(rows@), subject@),
{
    let list = risk_rows(rows, subject);
    let ghost views = row_views(list@);
    assert(views.len() == list.len());
    if list.len() == 0 {
        return None;
    }
    assert(views[0] == list@[0]@);
    let row = &list[0];
    let label = match relation(row.signature.as_str(), subject) {
        Some(kind) => kind,
        None => "source candidate",
    };
    let mut text = cat5(label, ": ", row.name.as_str(), " (", row.path.as_str());
    push_str(&mut text, ":");
    push_str(&mut text, show(row.line).as_str());
    push_str(&mut text, ")");
    Some((text, row.signature.clone()))
}

/// What is said of an input whose type has something against it.
pub open spec fn obstruction_notice(
    name: Seq<char>,
    evidence: Seq<char>,
    statement: Seq<char>,
) -> Seq<char> {
    "input type "@ + name + " has source contract evidence (unverified): "@ + evidence + "\n"@
        + shortened(statement, 240)
        + "\nCompare the specialization and premises with your inputs; probe "@ + name
        + " evidence"@
}

/// The notice for a type that [`input_obstruction_heads`] lists, given the index rows of
/// its name and those that [`risk_rows_query`] finds.
pub fn input_obstruction_notice(
    head: &str,
    rows: &Vec<IndexedRow>,
    risk: &Vec<IndexedRow>,
    workspace: &str,
) -> (r: Option<String>)
    ensures
        opt_string(r) == match sole_declaration(row_views(rows@), head@, workspace@) {
            Some(h) => match obstruction(row_views(risk@), h.name) {
                Some((evidence, statement)) => Some(
                    obstruction_notice(h.name, evidence, statement),
                ),
                None => None,
            },
            None => None,
        },
{
    let Ok(hit) = contract_exact_hit(rows, head, workspace) else {
        return None;
    };
    let name = hit.name.as_str();
    let (evidence, statement) = direct_obstruction_candidate(risk, name)?;
    let mut out = cat4(
        "input type ",
        name,
        " has source contract evidence (unverified): ",
        evidence.as_str(),
    );
    push_str(&mut out, "\n");
    push_str(&mut out, truncate_line(statement.as_str(), 240).as_str());
    push_str(&mut out, "\nCompare the specialization and premises with your inputs; probe ");
    push_str(&mut out, name);
    push_str(&mut out, " evidence");
    Some(out)
}

/// Rows in the order of their names, each name once.
pub open spec fn rows_by_name(rows: Seq<RowView>) -> Seq<RowView> {
    once_named(rows_arranged(rows, rows.map_values(|row: RowView| codes(row.name))))
}

/// Computes [`rows_by_name`].
pub fn order_by_name(rows: &Vec<IndexedRow>) -> (r: Vec<IndexedRow>)
    ensures
        row_views(r@) == rows_by_name(row_views(rows@)),
{
    let ghost views = row_views(rows@);
    let ghost wanted = views.map_values(|row: RowView| codes(row.name));
    let mut keys: Vec<Vec<u64>> = Vec::new();
    assert(key_list(keys@) =~= wanted.take(0));
    for i in 0..rows.len()
        invariant
            views == row_views(rows@),
            wanted == views.map_values(|row: RowView| codes(row.name)),
            keys.len() == i,
            key_list(keys@) == wanted.take(i as int),
    {
        proof {
            prefix_step(wanted, i as int);
        }
        assert(views[i as int] == rows@[i as int]@);
        let ghost before = key_list(keys@);
        keys.push(codes_of(rows[i].name.as_str()));
        assert(key_list(keys@) =~= before.push(wanted[i as int]));
    }
    proof {
        prefix_all(wanted);
    }
    keep_once_named(&arrange_rows(rows, &keys))
}

/// The declarations that are inspected for an obstruction: those that the index finds and
/// those that the project names, in the order of their names, and no more than three.
pub fn evidence_candidates(risk: &Vec<IndexedRow>, named: &Vec<IndexedRow>, subject: &str) -> (r: Vec<
    IndexedRow,
>)
    ensures
        row_views(r@) == rows_by_name(
            rows_bearing(risks(row_views(risk@), subject@), subject@, "obstruction candidate"@)
                + row_views(named@),
        ),
{
    let mut rows = keep_bearing(&risk_rows(risk, subject), subject, "obstruction candidate");
    let mut more = crate::search::records::copy_rows(named);
    let ghost first = row_views(rows@);
    let ghost second = row_views(more@);
    rows.append(&mut more);
    assert(row_views(rows@) =~= first + second);
    order_by_name(&rows)
}

/// What Lean answered on an inspection.
pub enum Inspection {
    /// The evidence that it found.
    Found(LeanEvidence),
    /// The message with which it failed.
    Failed(String),
}

/// Whether a subject that Lean reports is the one that was asked for.
pub open spec fn asked_subject(reported: Option<Seq<char>>, subject: Seq<char>) -> bool {
    match reported {
        Some(s) => s == rootless(subject) || leaf(s) == subject,
        None => false,
    }
}

/// Whether evidence counts as a verified obstruction to what was asked for.
pub open spec fn counts_as_verified(evidence: LeanEvidence, subject: Seq<char>) -> bool {
    trustworthy(opt_string(evidence.subject), strings(evidence.axioms@)) && asked_subject(
        opt_string(evidence.subject),
        subject,
    )
}

/// What is said of an inspection.
pub open spec fn inspection_text(name: Seq<char>, outcome: Inspection, subject: Seq<char>) -> Seq<char> {
    match outcome {
        Inspection::Found(evidence) => "candidate: "@ + name + "\nLean inspection succeeded:\n"@
            + evidence.detail@ + "\n"@ + (if counts_as_verified(evidence, subject) {
            ""@
        } else {
            "Not cached as a verified obstruction: inspect the actual subject and axiom dependencies.\n"@
        }),
        Inspection::Failed(payload) => "Lean inspection failed:\n"@ + payload@ + "\n"@,
    }
}

/// Adds what an inspection showed to a report, and says whether it verified an
/// obstruction.
pub fn record_inspection(detail: &mut String, name: &str, outcome: &Inspection, subject: &str) -> (r:
    bool)
    ensures
        final(detail)@ == old(detail)@ + inspection_text(name@, *outcome, subject@),
        r == (match *outcome {
            Inspection::Found(evidence) => counts_as_verified(evidence, subject@),
            Inspection::Failed(_) => false,
        }),
{
    match outcome {
        Inspection::Found(evidence) => {
            let mut text = cat5(
                "candidate: ",
                name,
                "\nLean inspection succeeded:\n",
                evidence.detail.as_str(),
                "\n",
            );
            let asked = match &evidence.subject {
                Some(s) => same(s.as_str(), without_root(subject)) || same(
                    leaf_of(s.as_str()),
                    subject,
                ),
                None => false,
            };
            let verified = evidence.trusted() && asked;
            push_str(
                &mut text,
                if verified {
                    ""
                } else {
                    "Not cached as a verified obstruction: inspect the actual subject and axiom dependencies.\n"
                },
            );
            push_str(detail, text.as_str());
            verified
        },
        Inspection::Failed(payload) => {
            push_str(
                detail,
                cat3("Lean inspection failed:\n", payload.as_str(), "\n").as_str(),
            );
            false
        },
    }
}

/// The first line of a report on an inspection.
pub fn begin_inspection(path: &str, line: u64) -> (r: Result<String, Failure>)
    ensures
        crate::failure::text_view(r) == if line == 0 {
            Err("evidence verification requires an explicit position"@)
        } else {
            Ok("Obstruction inspection at "@ + path@ + ":"@ + decimal(line as nat) + "\n"@)
        },
{
    if line == 0 {
        return refuse("evidence verification requires an explicit position");
    }
    let number = show(line);
    Ok(cat5("Obstruction inspection at ", path, ":", number.as_str(), "\n"))
}

/// The last lines of a report on an inspection.
pub open spec fn inspection_end(
    out_of_time: bool,
    nothing_found: bool,
    routes: Seq<RouteView>,
) -> Seq<char> {
    (if out_of_time {
        "Candidate inspection budget exhausted; remaining candidates were not tried.\n"@
    } else {
        ""@
    })
        + "Match every hypothesis and specialization; this inspection is not a check certificate.\n"@
        + (if nothing_found {
        "No direct negative-existence candidate found in the bounded index. This is not evidence of inhabitability.\n"@
    } else {
        ""@
    }) + routes_text(routes)
}

/// Adds [`inspection_end`] to a report.
pub fn probe_verified_evidence(
    detail: &mut String,
    out_of_time: bool,
    nothing_found: bool,
    routes: &Vec<Route>,
)
    ensures
        final(detail)@ == old(detail)@ + inspection_end(
            out_of_time,
            nothing_found,
            route_views(routes@),
        ),
{
    let mut text = own(
        if out_of_time {
            "Candidate inspection budget exhausted; remaining candidates were not tried.\n"
        } else {
            ""
        },
    );
    push_str(
        &mut text,
        "Match every hypothesis and specialization; this inspection is not a check certificate.\n",
    );
    push_str(
        &mut text,
        if nothing_found {
            "No direct negative-existence candidate found in the bounded index. This is not evidence of inhabitability.\n"
        } else {
            ""
        },
    );
    push_str(&mut text, authored_route_detail(routes).as_str());
    push_str(detail, text.as_str());
}

/// What is kept of verified evidence.
pub open spec fn evidence_summary(premises: Seq<Seq<char>>, result: Seq<char>) -> Seq<char> {
    "premises: "@ + joined(premises, "; "@) + "\nconclusion: "@ + result
}

/// Computes [`evidence_summary`].
pub fn summarize_evidence(evidence: &LeanEvidence) -> (r: String)
    ensures
        r@ == evidence_summary(strings(evidence.premises@), evidence.conclusion@),
{
    let premises = join(&evidence.premises, "; ");
    cat4(
        "premises: ",
        premises.as_str(),
        "\nconclusion: ",
        evidence.conclusion.as_str(),
    )
}

/// Evidence with an axiom beyond the standard ones is never kept as verified.
pub proof fn only_trusted_evidence_counts(evidence: LeanEvidence, subject: Seq<char>)
    ensures
        counts_as_verified(evidence, subject) ==> trustworthy(
            opt_string(evidence.subject),
            strings(evidence.axioms@),
        ),
        evidence.subject is None ==> !counts_as_verified(evidence, subject),
{
}

} // verus!
