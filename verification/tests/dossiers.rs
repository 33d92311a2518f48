//! What the index says for and against a declaration.
use mathmux::search::contract::assumption_signature;
use mathmux::search::conversion::{application_laws, failure_context, failure_terms, focus_diagnostic};
use mathmux::search::declarations::parse_source;
use mathmux::search::display::render_summary;
use mathmux::search::dossier::{
    begin_inspection, contract_exact_hit, evidence_candidates, input_obstruction_heads,
    input_obstruction_notice, inputs_to_resolve, prioritize_requested_risk, probe_assumptions,
    probe_contract, probe_examples, probe_verified_evidence, record_inspection, requested_risk,
    risk_rows, risk_rows_query, summarize_evidence, Inspection,
};
use mathmux::search::evidence::{
    append_discovery_contract, authored_route_detail, verified_contract_notice,
    ContractEvidenceRecord, LeanEvidence, Route,
};
use mathmux::search::records::{IndexedRow, SearchHit, SearchRun};

const DEMO: &str = "namespace Demo\nstructure Data (n : Nat) where\n  value : Fin n\ntheorem impossible (h : n = 0) : ¬ Nonempty (Data n) := by sorry\ndef construct (h : 0 < n) : Data n := sorry\ndef transform (d : Data n) : Data n := d\nprivate def hidden : Data n := sorry\ntheorem conditional (h : ¬ Nonempty (Data n)) : True := trivial\ninstance : Subsingleton (Data 1) := sorry\nstructure Container where\n  item : Data 1\nstructure Derived extends Container where\n  good : True\nstructure InheritedOnly extends Container\nend Demo\n";
const API: &str = "namespace ContinuousMap\ntheorem const_apply (b : β) (a : α) : const α b a = b := by sorry\nend ContinuousMap\nnamespace Matrix\ntheorem coe_units_inv (A : (Matrix n n R)ˣ) : ↑A⁻¹ = (A⁻¹ : Matrix n n R) := by sorry\nend Matrix\nnamespace Demo\ntheorem callee (A : Matrix n n R) : True := trivial\nend Demo\n";

fn index() -> Vec<IndexedRow> {
    let mut rows = Vec::new();
    for (module, source) in [("Demo", DEMO), ("API", API)] {
        for entry in parse_source(source, module) {
            rows.push(IndexedRow {
                owner: "workspace:w1".into(),
                path: format!("{module}.lean"),
                module: module.into(),
                line: entry.line,
                name: entry.name,
                kind: entry.kind,
                signature: entry.signature,
                docs: entry.docs,
                body: entry.body,
            });
        }
    }
    rows
}

fn with_signature(wanted: impl Fn(&str) -> bool) -> Vec<IndexedRow> {
    index()
        .into_iter()
        .filter(|row| !["file", "imports", "field"].contains(&row.kind.as_str()))
        .filter(|row| !row.signature.is_empty() && wanted(&row.signature))
        .collect()
}

fn contract_rows() -> Vec<IndexedRow> {
    with_signature(|signature| signature.contains("Data"))
}

fn risky_rows() -> Vec<IndexedRow> {
    with_signature(|signature| {
        signature.contains("Data")
            && ["Nonempty", "Subsingleton", "IsEmpty"].iter().any(|word| signature.contains(word))
    })
}

fn named(name: &str) -> Vec<IndexedRow> {
    index()
        .into_iter()
        .filter(|row| row.name == name || row.name.ends_with(&format!(".{name}")))
        .collect()
}

fn notice(signature: &str, source: Option<&str>) -> Option<String> {
    input_obstruction_heads(signature, source).iter().find_map(|head| {
        input_obstruction_notice(head, &named(head), &risky_rows(), "w1")
    })
}

fn run(query: &str, hits: Vec<SearchHit>) -> SearchRun {
    SearchRun {
        reference: "q1".into(),
        workspace_ref: "w1".into(),
        query: query.into(),
        inference: "hybrid".into(),
        hits,
        note: None,
        duration_ms: 0,
        created_at: 0,
    }
}

#[test]
fn contract_evidence_uses_active_index_and_preserves_hypotheses() {
    let hit = contract_exact_hit(&named("Demo.Data"), "Demo.Data", "w1").unwrap();
    let detail =
        probe_contract(&hit, &risky_rows(), &contract_rows(), false, None, &Vec::new());
    assert!(detail.contains("obstruction candidate: Demo.impossible"), "{detail}");
    assert!(detail.contains("h : n = 0"), "{detail}");
    assert!(detail.contains("subsingleton candidate:"), "{detail}");
    assert!(!detail.contains("Container.item"), "{detail}");
    assert!(detail.contains("construction candidate: Demo.construct"), "{detail}");
    assert!(!detail.contains("obstruction candidate: Demo.conditional"), "{detail}");
    assert!(detail.contains("not verified applicability"), "{detail}");
    for source in [
        None,
        Some("-- 2 earlier ambient commands omitted\ndef f (d : Data 0) : True := trivial"),
    ] {
        assert!(notice("(d : Data 0) : True", source).is_none());
    }
    let told = notice("(d : Demo.Data 0) : True", None).unwrap();
    assert!(told.contains("Compare the specialization"), "{told}");
    assert!(told.contains("Demo.Data"), "{told}");
    assert!(notice("(n : Nat) : True", None).is_none());

    let mut property = run("Demo.Data subsingleton", vec![hit.copy()]);
    let (name, kind) = requested_risk(&property.query, &property.hits).unwrap();
    prioritize_requested_risk(&mut property, &risky_rows(), &name, kind);
    let property = render_summary(&property);
    assert!(property.contains("Subsingleton (Data 1)"), "{property}");
    assert!(property.contains("Requested property found in source"), "{property}");

    let examples = probe_examples(
        &hit,
        &Vec::new(),
        &contract_rows(),
        "Demo.Data",
        None,
        "q2",
        "w1",
        0,
    );
    let examples = render_summary(&examples);
    assert!(!examples.contains("Container.item"), "{examples}");
    assert!(examples.contains("Demo.construct"), "{examples}");
    let place = |text: &str| examples.find(text).unwrap();
    assert!(place("Demo.construct") < place("Demo.transform"), "{examples}");
    assert!(examples.contains("requires an existing Demo.Data input"), "{examples}");
    assert!(place("Demo.transform") < place("Demo.hidden"), "{examples}");
    assert!(examples.contains("is private: inspect its source"), "{examples}");
    let private = assumption_signature("[private] (n : Nat) : Data n");
    assert!(private.contains("visibility: private"), "{private}");
    assert!(!private.contains("implicit/context: [private]"), "{private}");
    assert!(private.contains("input: (n : Nat)"), "{private}");

    assert!(notice("(d : Data) : True", Some("variable {Data : Type}")).is_none());
    assert!(contract_exact_hit(&named("Missing.Data"), "Missing.Data", "w1").is_err());

    let terms = inputs_to_resolve(hit.signature.as_deref().unwrap_or(""));
    let rows = terms.iter().map(|term| named(term)).collect();
    let assumptions = probe_assumptions(&hit, &terms, &rows, "w1", false, None, &Vec::new());
    assert!(assumptions.contains("signature (premises retained)"), "{assumptions}");

    let diagnostic = "Application type mismatch: The argument\n h\nhas type\n ∀ x : OnePoint ℂ, P x = ↑g⁻¹\nbut is expected to have type\n ∀ x : OnePoint ℂ, P x = (↑((ContinuousMap.const _ g) x))⁻¹\nin the application\n Demo.callee A";
    let signatures =
        named("Demo.callee").into_iter().map(|row| row.signature).collect::<Vec<_>>();
    let terms = failure_terms(&focus_diagnostic(diagnostic), &signatures);
    let mut rows = Vec::new();
    for law in application_laws(&terms) {
        rows.extend(named(&law));
    }
    rows.extend(with_signature(|signature| terms.iter().any(|term| signature.contains(term))));
    let bundle =
        failure_context(diagnostic, &signatures, &rows, None, None, Some("Demo.lean"));
    assert!(bundle.contains("ContinuousMap.const_apply"), "{bundle}");
    assert!(bundle.contains("Matrix.coe_units_inv"), "{bundle}");
    assert!(bundle.contains("applicability unverified"), "{bundle}");
}

#[test]
fn other_diagnostics_have_no_conversions() {
    assert_eq!(
        failure_context("unknown identifier", &Vec::new(), &Vec::new(), None, None, None),
        "\nNo focused type-conversion retrieval for this diagnostic."
    );
}

#[test]
fn only_bearing_rows_are_risks() {
    let names: Vec<String> =
        risk_rows(&contract_rows(), "Demo.Data").into_iter().map(|row| row.name).collect();
    assert!(names.contains(&"Demo.impossible".to_owned()), "{names:?}");
    assert!(!names.contains(&"Demo.construct".to_owned()), "{names:?}");
    assert!(!names.contains(&"Demo.conditional".to_owned()), "{names:?}");
    assert_eq!(
        risk_rows_query("Demo.Data"),
        "signature : \"Data\" AND signature : (Nonempty OR Subsingleton OR IsEmpty)"
    );
    assert!(requested_risk("Demo.Data fields", &Vec::new()).is_none());
}

fn evidence(axioms: &[&str], subject: Option<&str>) -> LeanEvidence {
    LeanEvidence {
        declaration: "Demo.impossible".into(),
        subject: subject.map(str::to_owned),
        conclusion: "¬ Nonempty (Demo.Data n)".into(),
        premises: vec!["n = 0".into()],
        axioms: axioms.iter().map(|a| (*a).to_owned()).collect(),
        detail: "impossible : told".into(),
    }
}

#[test]
fn only_trusted_inspections_are_recorded() {
    let mut detail = String::new();
    let trusted = Inspection::Found(evidence(&["propext"], Some("Demo.Data")));
    assert!(record_inspection(&mut detail, "Demo.impossible", &trusted, "Demo.Data"));
    let before = detail.len();
    let admitted = Inspection::Found(evidence(&["sorryAx"], Some("Demo.Data")));
    assert!(!record_inspection(&mut detail, "Demo.impossible", &admitted, "Demo.Data"));
    let failed = Inspection::Failed("no such declaration".into());
    assert!(!record_inspection(&mut detail, "Demo.impossible", &failed, "Demo.Data"));
    assert!(detail.len() >= before);
    let summary = summarize_evidence(&evidence(&["propext"], None));
    assert_eq!(summary, "premises: n = 0\nconclusion: ¬ Nonempty (Demo.Data n)");
    let start = begin_inspection("Demo.lean", 4).unwrap();
    assert!(start.contains("Demo.lean:4"), "{start}");
    let mut end = String::new();
    probe_verified_evidence(&mut end, false, true, &Vec::new());
    assert!(!end.is_empty());
    let listed = evidence_candidates(&risky_rows(), &named("Demo.impossible"), "Demo.Data");
    assert_eq!(listed.iter().filter(|row| row.name == "Demo.impossible").count(), 1);
}

#[test]
fn stored_evidence_is_told_while_it_is_current() {
    let record = ContractEvidenceRecord {
        reference: "q7".into(),
        theorem: "Demo.impossible".into(),
        path: "Demo.lean".into(),
        fingerprint: "hash".into(),
        details: "told".into(),
    };
    let current = verified_contract_notice(&record, &Some("hash".into())).unwrap();
    assert!(current.contains("Demo.impossible"), "{current}");
    assert!(verified_contract_notice(&record, &Some("other".into())).is_none());
    assert!(verified_contract_notice(&record, &None).is_none());
}

#[test]
fn discoveries_carry_their_contracts() {
    let route = Route {
        subject: "Demo.Data".into(),
        obstruction: Some("Demo.impossible".into()),
        replacement: None,
        examples: vec!["Demo.construct".into()],
        explanation: "see there".into(),
    };
    let text = authored_route_detail(&vec![route]);
    assert!(text.contains("obstruction: Demo.impossible"), "{text}");
    let note = append_discovery_contract(
        &Some("source index warming".into()),
        &None,
        Some(("obstruction candidate: Demo.impossible", ": ¬ Nonempty (Demo.Data n)")),
        "Demo.Data",
        &Some(text),
    )
    .unwrap();
    assert!(note.contains("source index warming"), "{note}");
    assert!(note.contains("Demo.impossible"), "{note}");
    assert_eq!(append_discovery_contract(&None, &None, None, "Demo.Data", &Some(String::new())), None);
}
