//! Evidence that Lean has checked, and routes that a project has written down.
use crate::failure::{refuse, text_view, Failure};
use crate::path::{
    absolute, components, full_parts, is_absolute, join_parts, lies_under, path_of, split_path,
    strip_root,
};
use crate::text::class::{all_of, alphabetic, is_all, is_alphabetic, Class};
use crate::text::layout::{one_line, shortened, single_line, truncate_line};
use crate::text::make::{
    byte_length, cat3, copy_opt, copy_strings, join, joined, own, prefix_all, prefix_step, push_str,
    same, strings, strings_push, strs,
};
use crate::text::pieces::{pieces, split};
use crate::text::scan::{bare, opt_string, sans_prefixes, trim, without_prefixes};
use vstd::prelude::*;

verus! {

broadcast use strings_push;

/// What Lean says of a declaration as evidence about a subject.
#[derive(Debug)]
pub struct LeanEvidence {
    pub declaration: String,
    pub subject: Option<String>,
    pub conclusion: String,
    pub premises: Vec<String>,
    pub axioms: Vec<String>,
    pub detail: String,
}

/// An axiom that Lean itself provides.
pub open spec fn standard_axiom(name: Seq<char>) -> bool {
    name == "propext"@ || name == "Classical.choice"@ || name == "Quot.sound"@
}

fn is_standard_axiom(name: &str) -> (r: bool)
    ensures
        r == standard_axiom(name@),
{
    same(name, "propext") || same(name, "Classical.choice") || same(name, "Quot.sound")
}

/// Evidence counts where it is about a subject and rests on standard axioms alone.
pub open spec fn trustworthy(subject: Option<Seq<char>>, axioms: Seq<Seq<char>>) -> bool {
    subject is Some && forall|i: int| 0 <= i < axioms.len() ==> standard_axiom(#[trigger] axioms[i])
}

impl LeanEvidence {
    /// Decides [`trustworthy`].
    pub fn trusted(&self) -> (r: bool)
        ensures
            r == trustworthy(opt_string(self.subject), strings(self.axioms@)),
    {
        if self.subject.is_none() {
            return false;
        }
        for i in 0..self.axioms.len()
            invariant
                forall|j: int|
                    0 <= j < i ==> standard_axiom(#[trigger] strings(self.axioms@)[j]),
        {
            assert(strings(self.axioms@)[i as int] == self.axioms@[i as int]@);
            if !is_standard_axiom(self.axioms[i].as_str()) {
                return false;
            }
        }
        true
    }
}

/// Evidence that uses any other axiom is never trusted.
pub proof fn other_axioms_are_never_trusted(
    subject: Option<Seq<char>>,
    axioms: Seq<Seq<char>>,
    i: int,
)
    requires
        0 <= i < axioms.len(),
        !standard_axiom(axioms[i]),
    ensures
        !trustworthy(subject, axioms),
{
}

/// Adding an axiom never makes evidence trusted.
pub proof fn axioms_never_add_trust(
    subject: Option<Seq<char>>,
    axioms: Seq<Seq<char>>,
    more: Seq<char>,
)
    requires
        trustworthy(subject, axioms.push(more)),
    ensures
        trustworthy(subject, axioms),
{
    assert forall|i: int| 0 <= i < axioms.len() implies standard_axiom(#[trigger] axioms[i]) by {
        assert(axioms.push(more)[i] == axioms[i]);
    }
}

/// A route that a project recommends for a subject.
#[derive(Debug)]
pub struct Route {
    pub subject: String,
    pub obstruction: Option<String>,
    pub replacement: Option<String>,
    pub examples: Vec<String>,
    pub explanation: String,
}

/// The contents of a [`Route`].
pub struct RouteView {
    pub subject: Seq<char>,
    pub obstruction: Option<Seq<char>>,
    pub replacement: Option<Seq<char>>,
    pub examples: Seq<Seq<char>>,
    pub explanation: Seq<char>,
}

impl View for Route {
    type V = RouteView;

    open spec fn view(&self) -> RouteView {
        RouteView {
            subject: self.subject@,
            obstruction: opt_string(self.obstruction),
            replacement: opt_string(self.replacement),
            examples: strings(self.examples@),
            explanation: self.explanation@,
        }
    }
}

impl Route {
    /// A copy.
    pub fn copy(&self) -> (r: Self)
        ensures
            r@ == self@,
    {
        Route {
            subject: self.subject.clone(),
            obstruction: copy_opt(&self.obstruction),
            replacement: copy_opt(&self.replacement),
            examples: copy_strings(&self.examples),
            explanation: self.explanation.clone(),
        }
    }
}

/// The contents of a list of routes.
pub open spec fn route_views(list: Seq<Route>) -> Seq<RouteView> {
    list.map_values(|r: Route| r@)
}

pub broadcast proof fn route_views_push(list: Seq<Route>, r: Route)
    ensures
        #[trigger] route_views(list.push(r)) == route_views(list).push(r@),
{
    assert(route_views(list.push(r)) =~= route_views(list).push(r@));
}

/// A component of a declaration's name: a letter or an underscore, then letters, numbers,
/// underscores and apostrophes.
pub open spec fn name_component(part: Seq<char>) -> bool {
    part.len() > 0 && (alphabetic(part[0]) || part[0] == '_') && all_of(part, Class::Word("_'"))
}

/// The name of a declaration, of no more than 512 bytes.
pub open spec fn plain_name(name: Seq<char>) -> bool {
    0 < byte_length(name) <= 512 && forall|i: int|
        0 <= i < pieces(name, Class::Is('.')).len() ==> name_component(
            #[trigger] pieces(name, Class::Is('.'))[i],
        )
}

/// Decides [`plain_name`].
pub fn is_plain_name(name: &str) -> (r: bool)
    ensures
        r == plain_name(name@),
{
    if name.len() == 0 || name.len() > 512 {
        return false;
    }
    let parts = split(name, Class::Is('.'));
    for i in 0..parts.len()
        invariant
            strs(parts@) == pieces(name@, Class::Is('.')),
            forall|j: int| 0 <= j < i ==> name_component(#[trigger] strs(parts@)[j]),
    {
        let part = parts[i];
        assert(strs(parts@)[i as int] == part@);
        if part.unicode_len() == 0 {
            return false;
        }
        let first = part.get_char(0);
        if !((is_alphabetic(first) || first == '_') && is_all(part, Class::Word("_'"))) {
            return false;
        }
    }
    true
}

/// A route within its bounds: names of declarations, at most four examples, and a short
/// explanation.
pub open spec fn sound_route(r: RouteView) -> bool {
    &&& plain_name(r.subject)
    &&& r.obstruction is Some ==> plain_name(r.obstruction->0)
    &&& r.replacement is Some ==> plain_name(r.replacement->0)
    &&& r.examples.len() <= 4
    &&& forall|i: int| 0 <= i < r.examples.len() ==> plain_name(#[trigger] r.examples[i])
    &&& byte_length(r.explanation) <= 1000
}

fn is_opt_name(name: &Option<String>) -> (r: bool)
    ensures
        r == (opt_string(*name) is Some ==> plain_name(opt_string(*name)->0)),
{
    match name {
        Some(text) => is_plain_name(text.as_str()),
        None => true,
    }
}

fn is_sound_route(r: &Route) -> (b: bool)
    ensures
        b == sound_route(r@),
{
    assert(strings(r.examples@).len() == r.examples.len());
    if !(is_plain_name(r.subject.as_str()) && is_opt_name(&r.obstruction) && is_opt_name(
        &r.replacement,
    ) && r.examples.len() <= 4 && r.explanation.as_str().len() <= 1000) {
        return false;
    }
    for i in 0..r.examples.len()
        invariant
            forall|j: int| 0 <= j < i ==> plain_name(#[trigger] strings(r.examples@)[j]),
    {
        assert(strings(r.examples@)[i as int] == r.examples@[i as int]@);
        if !is_plain_name(r.examples[i].as_str()) {
            return false;
        }
    }
    true
}

/// The routes for a subject.
pub open spec fn routes_for(list: Seq<RouteView>, subject: Seq<char>) -> Seq<RouteView>
    decreases list.len(),
{
    if list.len() == 0 {
        Seq::empty()
    } else {
        let earlier = routes_for(list.drop_last(), subject);
        if sans_prefixes(list.last().subject, "_root_."@) == sans_prefixes(subject, "_root_."@) {
            earlier.push(list.last())
        } else {
            earlier
        }
    }
}

/// The routes that a registry gives for a subject: none where the registry is of another
/// version, too large or unsound, and at most three.
pub open spec fn selected_routes(
    version: u32,
    links: Seq<RouteView>,
    subject: Seq<char>,
) -> Result<Seq<RouteView>, Seq<char>> {
    if version != 1 || links.len() > 256 {
        Err("evidence registry requires version 1 and at most 256 links"@)
    } else if exists|i: int| 0 <= i < links.len() && !sound_route(#[trigger] links[i]) {
        Err("invalid or oversized evidence route"@)
    } else {
        Ok(crate::text::layout::front(routes_for(links, subject), 3))
    }
}

/// The contents of selected routes.
pub open spec fn routes_view(r: Result<Vec<Route>, Failure>) -> Result<Seq<RouteView>, Seq<char>> {
    match r {
        Ok(list) => Ok(route_views(list@)),
        Err(failure) => Err(failure@),
    }
}

/// Computes [`selected_routes`].
pub fn routes(version: u32, links: &Vec<Route>, subject: &str) -> (r: Result<Vec<Route>, Failure>)
    ensures
        routes_view(r) == selected_routes(version, route_views(links@), subject@),
{
    broadcast use route_views_push;

    let ghost views = route_views(links@);
    assert(views.len() == links.len());
    if version != 1 || links.len() > 256 {
        return refuse("evidence registry requires version 1 and at most 256 links");
    }
    for i in 0..links.len()
        invariant
            views == route_views(links@),
            views.len() == links.len(),
            version == 1,
            links.len() <= 256,
            forall|j: int| 0 <= j < i ==> sound_route(#[trigger] views[j]),
    {
        assert(views[i as int] == links@[i as int]@);
        if !is_sound_route(&links[i]) {
            return refuse("invalid or oversized evidence route");
        }
    }
    proof {
        reveal_strlit("_root_.");
    }
    let plain = without_prefixes(subject, "_root_.");
    let mut out: Vec<Route> = Vec::new();
    assert(route_views(out@) =~= Seq::empty());
    for i in 0..links.len()
        invariant
            views == route_views(links@),
            plain@ == sans_prefixes(subject@, "_root_."@),
            "_root_."@.len() > 0,
            route_views(out@) == routes_for(views.take(i as int), subject@),
    {
        proof {
            prefix_step(views, i as int);
        }
        assert(views[i as int] == links@[i as int]@);
        if same(without_prefixes(links[i].subject.as_str(), "_root_."), plain) {
            out.push(links[i].copy());
        }
    }
    proof {
        prefix_all(views);
    }
    let ghost whole = route_views(out@);
    assert(whole.len() == out.len());
    if out.len() > 3 {
        out.truncate(3);
        assert(route_views(out@) =~= whole.take(3));
    }
    Ok(out)
}

/// The examples of a route.
pub open spec fn example_lines(list: Seq<Seq<char>>) -> Seq<char>
    decreases list.len(),
{
    if list.len() == 0 {
        Seq::empty()
    } else {
        example_lines(list.drop_last()) + ("  selected example: "@ + list.last() + "; probe "@
            + list.last() + " source\n"@)
    }
}

/// How a route is shown.
pub open spec fn route_text(r: RouteView) -> Seq<char> {
    "\nproject-authored route (advisory, not an equivalence proof):\n"@ + (match r.obstruction {
        Some(name) => "  obstruction: "@ + name + "; verify in your Lean context\n"@,
        None => ""@,
    }) + (match r.replacement {
        Some(name) => "  replacement: "@ + name + "; probe "@ + name + " assumptions\n"@,
        None => ""@,
    }) + example_lines(r.examples) + (if r.explanation.len() > 0 {
        "  "@ + shortened(one_line(r.explanation), 240) + "\n"@
    } else {
        ""@
    })
}

fn render_route(r: &Route) -> (s: String)
    ensures
        s@ == route_text(r@),
{
    let mut out = own("\nproject-authored route (advisory, not an equivalence proof):\n");
    match &r.obstruction {
        Some(name) => push_str(
            &mut out,
            cat3("  obstruction: ", name.as_str(), "; verify in your Lean context\n").as_str(),
        ),
        None => push_str(&mut out, ""),
    }
    match &r.replacement {
        Some(name) => {
            let mut part = cat3("  replacement: ", name.as_str(), "; probe ");
            push_str(&mut part, name.as_str());
            push_str(&mut part, " assumptions\n");
            push_str(&mut out, part.as_str());
        },
        None => push_str(&mut out, ""),
    }
    let ghost views = strings(r.examples@);
    let mut list = String::new();
    for i in 0..r.examples.len()
        invariant
            views == strings(r.examples@),
            list@ == example_lines(views.take(i as int)),
    {
        proof {
            prefix_step(views, i as int);
        }
        assert(views[i as int] == r.examples@[i as int]@);
        let mut part = cat3("  selected example: ", r.examples[i].as_str(), "; probe ");
        push_str(&mut part, r.examples[i].as_str());
        push_str(&mut part, " source\n");
        push_str(&mut list, part.as_str());
    }
    proof {
        prefix_all(views);
    }
    push_str(&mut out, list.as_str());
    if r.explanation.as_str().is_empty() {
        push_str(&mut out, "");
    } else {
        let line = truncate_line(single_line(r.explanation.as_str()).as_str(), 240);
        push_str(&mut out, cat3("  ", line.as_str(), "\n").as_str());
    }
    out
}

/// How routes are shown.
pub open spec fn routes_text(list: Seq<RouteView>) -> Seq<char>
    decreases list.len(),
{
    if list.len() == 0 {
        Seq::empty()
    } else {
        routes_text(list.drop_last()) + route_text(list.last())
    }
}

/// Computes [`routes_text`].
pub fn authored_route_detail(list: &Vec<Route>) -> (r: String)
    ensures
        r@ == routes_text(route_views(list@)),
{
    let ghost views = route_views(list@);
    let mut out = String::new();
    for i in 0..list.len()
        invariant
            views == route_views(list@),
            out@ == routes_text(views.take(i as int)),
    {
        proof {
            prefix_step(views, i as int);
        }
        assert(views[i as int] == list@[i as int]@);
        push_str(&mut out, render_route(&list[i]).as_str());
    }
    proof {
        prefix_all(views);
    }
    out
}

/// Evidence that was verified before, with the snapshot of the sources it was verified
/// at.
#[derive(Debug)]
pub struct ContractEvidenceRecord {
    pub reference: String,
    pub theorem: String,
    pub path: String,
    pub fingerprint: String,
    pub details: String,
}

/// The contents of a [`ContractEvidenceRecord`].
pub struct EvidenceView {
    pub reference: Seq<char>,
    pub theorem: Seq<char>,
    pub path: Seq<char>,
    pub fingerprint: Seq<char>,
    pub details: Seq<char>,
}

impl View for ContractEvidenceRecord {
    type V = EvidenceView;

    open spec fn view(&self) -> EvidenceView {
        EvidenceView {
            reference: self.reference@,
            theorem: self.theorem@,
            path: self.path@,
            fingerprint: self.fingerprint@,
            details: self.details@,
        }
    }
}

/// What verified evidence says, where the sources are still those it was verified at.
pub open spec fn evidence_notice(e: EvidenceView, current: Option<Seq<char>>) -> Option<Seq<char>> {
    if current == Some(e.fingerprint) {
        Some(
            "Lean-verified obstruction at matching project-source/configuration snapshot: "@
                + e.theorem + "\n"@ + shortened(e.details, 400)
                + "\nHypotheses/specialization still apply; probe "@ + e.reference,
        )
    } else {
        None
    }
}

/// Computes [`evidence_notice`]: `current` is the fingerprint of the sources as they are.
pub fn verified_contract_notice(record: &ContractEvidenceRecord, current: &Option<String>) -> (r:
    Option<String>)
    ensures
        opt_string(r) == evidence_notice(record@, opt_string(*current)),
{
    let fresh = match current {
        Some(fingerprint) => same(fingerprint.as_str(), record.fingerprint.as_str()),
        None => false,
    };
    if !fresh {
        return None;
    }
    let mut out = cat3(
        "Lean-verified obstruction at matching project-source/configuration snapshot: ",
        record.theorem.as_str(),
        "\n",
    );
    push_str(&mut out, truncate_line(record.details.as_str(), 400).as_str());
    push_str(&mut out, "\nHypotheses/specialization still apply; probe ");
    push_str(&mut out, record.reference.as_str());
    Some(out)
}

/// Where the file that evidence is about stands in a workspace.
pub open spec fn watched_path(workspace: Seq<char>, path: Seq<char>) -> Result<
    Seq<char>,
    Seq<char>,
> {
    if absolute(path) && !lies_under(path, workspace) {
        Err("prefix not found"@)
    } else {
        let parts = if absolute(path) {
            full_parts(path).skip(full_parts(workspace).len() as int)
        } else {
            components(path)
        };
        if parts.contains(".."@) {
            Err("evidence path escapes workspace"@)
        } else if absolute(path) {
            Ok(path_of(parts))
        } else {
            Ok(path)
        }
    }
}

fn leads_upwards(parts: &Vec<&str>) -> (r: bool)
    ensures
        r == strs(parts@).contains(".."@),
{
    for i in 0..parts.len()
        invariant
            forall|j: int| 0 <= j < i ==> #[trigger] strs(parts@)[j] != ".."@,
    {
        assert(strs(parts@)[i as int] == parts@[i as int]@);
        if same(parts[i], "..") {
            return true;
        }
    }
    assert(strs(parts@).len() == parts.len());
    false
}

/// The path by which a snapshot of a file is taken, or why none is.
pub fn snapshot_path(workspace: &str, path: &str) -> (r: Result<String, Failure>)
    ensures
        text_view(r) == watched_path(workspace@, path@),
{
    if is_absolute(path) {
        let Some(parts) = strip_root(path, workspace) else {
            return refuse("prefix not found");
        };
        if leads_upwards(&parts) {
            return refuse("evidence path escapes workspace");
        }
        return Ok(join_parts(&parts));
    }
    if leads_upwards(&split_path(path)) {
        return refuse("evidence path escapes workspace");
    }
    Ok(own(path))
}

/// A snapshot is only taken of a file whose path does not leave its workspace.
pub proof fn snapshots_stay_in_the_workspace(workspace: Seq<char>, path: Seq<char>)
    requires
        watched_path(workspace, path) is Ok,
    ensures
        absolute(path) ==> lies_under(path, workspace),
        !absolute(path) ==> !components(path).contains(".."@),
{
}

/// Evidence verified at another snapshot is not shown.
pub proof fn stale_evidence_is_silent(e: EvidenceView, current: Seq<char>)
    requires
        current != e.fingerprint,
    ensures
        evidence_notice(e, Some(current)) is None,
        evidence_notice(e, None) is None,
{
}

/// What is known of a subject beside its declaration: verified evidence, or else an
/// unverified candidate, and the routes of the project.
pub open spec fn discovery_notes(
    verified: Option<Seq<char>>,
    candidate: Option<(Seq<char>, Seq<char>)>,
    subject: Seq<char>,
    routes: Option<Seq<char>>,
) -> Seq<Seq<char>> {
    (match verified {
        Some(text) => seq![text],
        None => match candidate {
            Some((name, signature)) => seq![
                "source obstruction candidate (unverified): "@ + name + "\n"@ + shortened(
                    signature,
                    240,
                ) + "\nInspect hypotheses: mathmux probe "@ + subject + " evidence"@,
            ],
            None => Seq::empty(),
        },
    }) + (match routes {
        Some(text) => if text.len() > 0 {
            seq![text]
        } else {
            Seq::empty()
        },
        None => seq![
            "project route registry invalid; probe NAME evidence for the diagnostic"@,
        ],
    })
}

/// A note with what is known of a subject added.
pub open spec fn with_discovery(note: Option<Seq<char>>, notes: Seq<Seq<char>>) -> Option<
    Seq<char>,
> {
    if notes.len() == 0 {
        note
    } else {
        Some(
            bare(
                (match note {
                    Some(text) => text,
                    None => ""@,
                }) + "\n"@ + joined(notes, "\n"@),
            ),
        )
    }
}

/// The contents of an optional candidate.
pub open spec fn opt_candidate(o: Option<(&str, &str)>) -> Option<(Seq<char>, Seq<char>)> {
    match o {
        Some(p) => Some((p.0@, p.1@)),
        None => None,
    }
}

/// The note of a search for one declaration with what is known of it, see
/// [`discovery_notes`]: `routes` is missing where the registry cannot be read.
pub fn append_discovery_contract(
    note: &Option<String>,
    verified: &Option<String>,
    candidate: Option<(&str, &str)>,
    subject: &str,
    routes: &Option<String>,
) -> (r: Option<String>)
    ensures
        opt_string(r) == with_discovery(
            opt_string(*note),
            discovery_notes(
                opt_string(*verified),
                opt_candidate(candidate),
                subject@,
                opt_string(*routes),
            ),
        ),
{
    let mut notes: Vec<String> = Vec::new();
    match verified {
        Some(text) => {
            notes.push(text.clone());
            assert(strings(notes@) =~= seq![text@]);
        },
        None => match candidate {
            Some((name, signature)) => {
                let mut text = cat3("source obstruction candidate (unverified): ", name, "\n");
                push_str(&mut text, truncate_line(signature, 240).as_str());
                push_str(&mut text, "\nInspect hypotheses: mathmux probe ");
                push_str(&mut text, subject);
                push_str(&mut text, " evidence");
                notes.push(text);
                assert(strings(notes@) =~= seq![text@]);
            },
            None => {
                assert(strings(notes@) =~= Seq::empty());
            },
        },
    }
    let ghost first = strings(notes@);
    match routes {
        Some(text) => if !text.as_str().is_empty() {
            notes.push(text.clone());
            assert(strings(notes@) =~= first + seq![text@]);
        } else {
            assert(first + Seq::<Seq<char>>::empty() =~= first);
        },
        None => {
            notes.push(
                own("project route registry invalid; probe NAME evidence for the diagnostic"),
            );
            assert(strings(notes@) =~= first + seq![
                "project route registry invalid; probe NAME evidence for the diagnostic"@,
            ]);
        },
    }
    assert(strings(notes@).len() == notes.len());
    if notes.len() == 0 {
        return copy_opt(note);
    }
    let prior = match note {
        Some(text) => text.as_str(),
        None => "",
    };
    let all = cat3(prior, "\n", join(&notes, "\n").as_str());
    Some(own(trim(all.as_str())))
}

} // verus!
