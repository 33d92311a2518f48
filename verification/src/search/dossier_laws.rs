//! What the index says for and against a type, and what helps where types do not fit, on
//! every input.
use crate::order::{ranking, ranking_is_permutation, ranking_is_sorted};
use crate::search::contract::{bearing, binders_by_kind, needs_subject, rootless};
use crate::search::conversion::{
    availability, best_laws, conflict_report, is_law_of, law_key, law_listed, law_points, law_text,
    law_texts, laws_listed, overlap, reachable, shared_conversions, usage_text,
};
use crate::search::dossier::{
    bearing_order, evidence_text, example_cost, example_keys, examples, found_examples,
    has_row_named, named_examples, obstruction, once_named, openings, related_in_order, related_key,
    related_rows, related_text, related_texts, risks, rows_arranged, rows_bearing, signed_rows,
    with_risks,
};
use crate::search::evidence::{
    discovery_notes, evidence_notice, routes_for, selected_routes, sound_route, standard_axiom,
    trustworthy, EvidenceView, RouteView,
};
use crate::search::records::{RowView, RunView, UsageView};
use crate::text::chain::{part_ends, pushed_holds};
use crate::text::layout::{front, shortened};
use crate::text::number::decimal;
use crate::text::scan::{begins, ends, found_between, found_in_part, has_text};
use vstd::prelude::*;

verus! {

/// Just those rows may rule out what is planned with a type that bear on it as an
/// obstruction, as a subsingleton or as empty.
pub proof fn risks_rule_out(rows: Seq<RowView>, subject: Seq<char>, row: RowView)
    ensures
        risks(rows, subject).contains(row) <==> rows.contains(row) && (bearing(
            row.signature,
            subject,
        ) == Some("obstruction candidate"@) || bearing(row.signature, subject) == Some(
            "subsingleton candidate"@,
        ) || bearing(row.signature, subject) == Some("emptiness candidate"@)),
    decreases rows.len(),
{
    if rows.len() > 0 {
        risks_rule_out(rows.drop_last(), subject, row);
        assert(rows =~= rows.drop_last().push(rows.last()));
        pushed_holds(rows.drop_last(), rows.last(), row);
        pushed_holds(risks(rows.drop_last(), subject), rows.last(), row);
    }
}

/// The rows of one bearing are all those of a list that have it.
pub proof fn bearings_are_picked(
    rows: Seq<RowView>,
    subject: Seq<char>,
    kind: Seq<char>,
    row: RowView,
)
    ensures
        rows_bearing(rows, subject, kind).contains(row) <==> rows.contains(row) && bearing(
            row.signature,
            subject,
        ) == Some(kind),
    decreases rows.len(),
{
    if rows.len() > 0 {
        bearings_are_picked(rows.drop_last(), subject, kind, row);
        assert(rows =~= rows.drop_last().push(rows.last()));
        pushed_holds(rows.drop_last(), rows.last(), row);
        pushed_holds(rows_bearing(rows.drop_last(), subject, kind), rows.last(), row);
    }
}

proof fn related_rows_hold(rows: Seq<RowView>, name: Seq<char>, row: RowView)
    ensures
        related_rows(rows, name).contains(row) <==> rows.contains(row) && rootless(row.name) != name
            && bearing(row.signature, name) is Some,
    decreases rows.len(),
{
    if rows.len() > 0 {
        related_rows_hold(rows.drop_last(), name, row);
        assert(rows =~= rows.drop_last().push(rows.last()));
        pushed_holds(rows.drop_last(), rows.last(), row);
        pushed_holds(related_rows(rows.drop_last(), name), rows.last(), row);
    }
}

proof fn arranged_rows_hold(rows: Seq<RowView>, keys: Seq<Seq<u64>>, row: RowView)
    requires
        rows.len() == keys.len(),
    ensures
        rows_arranged(rows, keys).contains(row) <==> rows.contains(row),
{
    let order = ranking(keys);
    let all = rows_arranged(rows, keys);
    ranking_is_permutation(keys);
    if all.contains(row) {
        assert(rows[order[all.index_of(row)]] == row);
    }
    if rows.contains(row) {
        let i = rows.index_of(row);
        assert(order.contains(i));
        assert(all[order.index_of(i)] == row);
    }
}

/// Dropping repeated names keeps rows of the list, and one of every name.
proof fn once_named_holds(rows: Seq<RowView>, row: RowView)
    ensures
        once_named(rows).contains(row) ==> rows.contains(row),
        rows.contains(row) ==> has_row_named(once_named(rows), row.name),
    decreases rows.len(),
{
    if rows.len() > 0 {
        let before = once_named(rows.drop_last());
        let all = once_named(rows);
        once_named_holds(rows.drop_last(), row);
        assert(rows =~= rows.drop_last().push(rows.last()));
        pushed_holds(rows.drop_last(), rows.last(), row);
        pushed_holds(before, rows.last(), row);
        if rows.contains(row) {
            if has_row_named(before, row.name) {
                let i = choose|i: int| 0 <= i < before.len() && (#[trigger] before[i]).name
                    == row.name;
                assert(all[i].name == row.name);
            } else {
                assert(row == rows.last());
                assert(all[before.len() as int].name == row.name);
            }
        }
    }
}

/// Dropping repeated names keeps the order of a list.
proof fn once_named_keeps_order(rows: Seq<RowView>, rank_of: spec_fn(RowView) -> int)
    requires
        forall|i: int, j: int|
            0 <= i <= j < rows.len() ==> rank_of(#[trigger] rows[i]) <= rank_of(#[trigger] rows[j]),
    ensures
        forall|i: int, j: int|
            0 <= i <= j < once_named(rows).len() ==> rank_of(#[trigger] once_named(rows)[i])
                <= rank_of(#[trigger] once_named(rows)[j]),
        rows.len() > 0 ==> forall|i: int|
            0 <= i < once_named(rows).len() ==> rank_of(#[trigger] once_named(rows)[i]) <= rank_of(
                rows.last(),
            ),
    decreases rows.len(),
{
    if rows.len() > 0 {
        let shorter = rows.drop_last();
        assert forall|i: int, j: int| 0 <= i <= j < shorter.len() implies rank_of(
            #[trigger] shorter[i],
        ) <= rank_of(#[trigger] shorter[j]) by {
            assert(rank_of(rows[i]) <= rank_of(rows[j]));
        }
        once_named_keeps_order(shorter, rank_of);
        let before = once_named(shorter);
        let all = once_named(rows);
        if shorter.len() > 0 {
            assert(rank_of(rows[shorter.len() - 1]) <= rank_of(rows[rows.len() - 1]));
            assert(shorter.last() == rows[shorter.len() - 1]);
        }
        assert forall|i: int| 0 <= i < all.len() implies rank_of(#[trigger] all[i]) <= rank_of(
            rows.last(),
        ) by {
            if i < before.len() {
                assert(all[i] == before[i]);
                assert(rank_of(before[i]) <= rank_of(shorter.last()));
            }
        }
        assert forall|i: int, j: int| 0 <= i <= j < all.len() implies rank_of(#[trigger] all[i])
            <= rank_of(#[trigger] all[j]) by {
            if j < before.len() {
                assert(all[i] == before[i] && all[j] == before[j]);
            } else {
                assert(all[j] == rows.last());
            }
        }
    }
}

proof fn arranged_by_first(
    rows: Seq<RowView>,
    keys: Seq<Seq<u64>>,
    rank_of: spec_fn(RowView) -> int,
)
    requires
        rows.len() == keys.len(),
        forall|i: int|
            0 <= i < rows.len() ==> (#[trigger] keys[i]).len() > 0 && keys[i][0] as int == rank_of(
                rows[i],
            ),
    ensures
        forall|i: int, j: int|
            0 <= i <= j < rows_arranged(rows, keys).len() ==> rank_of(
                #[trigger] rows_arranged(rows, keys)[i],
            ) <= rank_of(#[trigger] rows_arranged(rows, keys)[j]),
{
    let all = rows_arranged(rows, keys);
    ranking_is_permutation(keys);
    assert forall|i: int, j: int| 0 <= i <= j < all.len() implies rank_of(#[trigger] all[i])
        <= rank_of(#[trigger] all[j]) by {
        if i < j {
            ranking_is_sorted(keys, i, j);
            let a = ranking(keys)[i];
            let b = ranking(keys)[j];
            assert(keys[a].len() > 0 && keys[b].len() > 0);
        }
    }
}

/// What bears on a type is listed with what rules out a plan first, then what constructs
/// it, and then the rest. Every listed row bears on the type and is not the type itself,
/// and every name that does so is listed.
pub proof fn what_rules_out_comes_first(
    rows: Seq<RowView>,
    name: Seq<char>,
    i: int,
    j: int,
    row: RowView,
)
    requires
        0 <= i <= j < related_in_order(rows, name).len(),
    ensures
        ({
            let list = related_in_order(rows, name);
            let kind = |k: int| bearing(list[k].signature, name);
            let rules_out = |k: int|
                kind(k) == Some("obstruction candidate"@) || kind(k) == Some(
                    "subsingleton candidate"@,
                ) || kind(k) == Some("emptiness candidate"@);
            &&& rules_out(j) ==> rules_out(i)
            &&& kind(j) == Some("construction candidate"@) ==> rules_out(i) || kind(i) == Some(
                "construction candidate"@,
            )
            &&& kind(i) is Some && rootless(list[i].name) != name && rows.contains(list[i])
            &&& rows.contains(row) && rootless(row.name) != name && bearing(row.signature, name)
                is Some ==> has_row_named(list, row.name)
        }),
{
    let found = related_rows(rows, name);
    let keys = found.map_values(|r: RowView| related_key(r, name));
    let sorted = rows_arranged(found, keys);
    let rank_of = |r: RowView| bearing_order(bearing(r.signature, name)) as int;
    assert forall|k: int| 0 <= k < found.len() implies (#[trigger] keys[k]).len() > 0 && keys[k][0]
        as int == rank_of(found[k]) by {
        assert(keys[k] == related_key(found[k], name));
    }
    arranged_by_first(found, keys, rank_of);
    once_named_keeps_order(sorted, rank_of);
    let list = related_in_order(rows, name);
    assert(rank_of(list[i]) <= rank_of(list[j]));
    once_named_holds(sorted, list[i]);
    assert(list.contains(list[i]));
    arranged_rows_hold(found, keys, list[i]);
    related_rows_hold(rows, name, list[i]);
    once_named_holds(sorted, row);
    arranged_rows_hold(found, keys, row);
    related_rows_hold(rows, name, row);
    reveal_strlit("construction candidate");
    reveal_strlit("obstruction candidate");
    reveal_strlit("subsingleton candidate");
    reveal_strlit("emptiness candidate");
    assert("construction candidate"@[0] == 'c');
    assert("obstruction candidate"@[0] == 'o');
    assert("subsingleton candidate"@[0] == 's');
    assert("emptiness candidate"@[0] == 'e');
}

proof fn related_texts_hold(rows: Seq<RowView>, name: Seq<char>, n: nat, i: int)
    requires
        0 <= i < n <= rows.len(),
    ensures
        has_text(related_texts(rows, name, n), related_text(rows[i], name)),
    decreases n,
{
    let before = related_texts(rows, name, (n - 1) as nat);
    let last = related_text(rows[n - 1], name);
    if i < n - 1 {
        related_texts_hold(rows, name, (n - 1) as nat, i);
        found_in_part(Seq::empty(), before, last, related_text(rows[i], name));
        assert(Seq::<char>::empty() + before + last =~= before + last);
    } else {
        found_between(before, last, Seq::empty());
        assert(before + last + Seq::<char>::empty() =~= before + last);
    }
}

/// The first three of what bears on a type are told, each with its bearing, its name,
/// where it stands and its whole signature; and where there is none, that this is no
/// verdict.
pub proof fn what_bears_is_told(rows: Seq<RowView>, name: Seq<char>, i: int)
    ensures
        ({
            let list = related_in_order(rows, name);
            let text = evidence_text(rows, name);
            &&& 0 <= i < list.len() && i < 3 ==> has_text(
                text,
                "\n"@ + bearing(list[i].signature, name)->0 + ": "@ + list[i].name + "\n"@
                    + list[i].path + ":"@ + decimal(list[i].line as nat) + "\n"@
                    + list[i].signature + "\n"@,
            )
            &&& list.len() == 0 ==> has_text(
                text,
                "No construction or obstruction found in this bounded index search; this is not an existence verdict.\n"@,
            )
        }),
{
    let list = related_in_order(rows, name);
    let n: nat = if list.len() < 3 {
        list.len()
    } else {
        3
    };
    let none = if list.len() == 0 {
        "No construction or obstruction found in this bounded index search; this is not an existence verdict.\n"@
    } else {
        ""@
    };
    let tail = "Candidates are indexed source, not verified applicability. Hypotheses and namespace resolution matter. Verify a candidate in your exact Lean context with #inspect and #apply; check remains certification.\n"@;
    let texts = related_texts(list, name, n);
    let text = evidence_text(rows, name);
    assert(text == texts + none + tail);
    if list.len() == 0 {
        found_between(texts, none, tail);
    }
    if 0 <= i < list.len() && i < 3 {
        what_rules_out_comes_first(rows, name, i, i, list[i]);
        related_texts_hold(list, name, n, i);
        let row = list[i];
        let head = "\n"@ + bearing(row.signature, name)->0 + ": "@ + row.name + "\n"@ + row.path
            + ":"@ + decimal(row.line as nat) + "\n"@ + row.signature + "\n"@;
        let rest = if row.kind == "instance"@ && has_text(row.name, "instance@"@) {
            "verify: mathmux probe "@ + row.path + ":"@ + decimal(row.line as nat) + " '#synth "@
                + crate::search::contract::stated(row.signature) + "'\n"@
        } else {
            ""@
        };
        assert(related_text(row, name) == head + rest);
        let full = head + rest;
        let at = choose|at: int| crate::text::scan::occurs_at(texts, full, at);
        assert(texts.subrange(at, at + head.len()) =~= full.take(head.len() as int)) by {
            assert(texts.subrange(at, at + full.len()).take(head.len() as int) =~= texts.subrange(
                at,
                at + head.len(),
            ));
        }
        assert(full.take(head.len() as int) =~= head);
        assert(crate::text::scan::occurs_at(texts, head, at));
        found_in_part(Seq::empty(), texts, none + tail, head);
        assert(Seq::<char>::empty() + texts + (none + tail) =~= text);
    }
}

/// Examples that a project names cost nothing, and what the index offers costs the more
/// the more it asks for: a public one that needs no value of the type costs less than one
/// that needs one, and that less than a private one, as long as their brackets are fewer
/// than a thousand.
pub proof fn simpler_examples_cost_less(a: Seq<char>, b: Seq<char>, name: Seq<char>)
    requires
        openings(a) < 1000,
        openings(b) < 1000,
    ensures
        example_cost(a, name) > 0,
        begins(b, "[private]"@) && !begins(a, "[private]"@) ==> example_cost(a, name)
            < example_cost(b, name),
        begins(a, "[private]"@) == begins(b, "[private]"@) && !needs_subject(a, name)
            && needs_subject(b, name) ==> example_cost(a, name) < example_cost(b, name),
        begins(a, "[private]"@) == begins(b, "[private]"@) && needs_subject(a, name)
            == needs_subject(b, name) && openings(a) < openings(b) ==> example_cost(a, name)
            < example_cost(b, name),
{
}

proof fn found_examples_hold(rows: Seq<RowView>, name: Seq<char>, row: RowView)
    ensures
        found_examples(rows, name).contains(row) <==> rows.contains(row) && bearing(
            row.signature,
            name,
        ) == Some("construction candidate"@) && rootless(row.name) != name,
    decreases rows.len(),
{
    if rows.len() > 0 {
        found_examples_hold(rows.drop_last(), name, row);
        assert(rows =~= rows.drop_last().push(rows.last()));
        pushed_holds(rows.drop_last(), rows.last(), row);
        pushed_holds(found_examples(rows.drop_last(), name), rows.last(), row);
    }
}

proof fn named_examples_hold(rows: Seq<RowView>, row: RowView)
    ensures
        named_examples(rows).contains(row) <==> rows.contains(row) && row.kind != "field"@,
    decreases rows.len(),
{
    if rows.len() > 0 {
        named_examples_hold(rows.drop_last(), row);
        assert(rows =~= rows.drop_last().push(rows.last()));
        pushed_holds(rows.drop_last(), rows.last(), row);
        pushed_holds(named_examples(rows.drop_last()), rows.last(), row);
    }
}

proof fn signed_rows_hold(rows: Seq<RowView>, row: RowView)
    ensures
        signed_rows(rows).contains(row) <==> rows.contains(row) && row.signature.len() > 0,
    decreases rows.len(),
{
    if rows.len() > 0 {
        signed_rows_hold(rows.drop_last(), row);
        assert(rows =~= rows.drop_last().push(rows.last()));
        pushed_holds(rows.drop_last(), rows.last(), row);
        pushed_holds(signed_rows(rows.drop_last()), rows.last(), row);
    }
}

/// Every example of a type has a signature, and is one that the project names and no
/// field, or constructs the type without being it. Every name with such a row is listed.
pub proof fn examples_construct(
    rows: Seq<RowView>,
    related: Seq<RowView>,
    name: Seq<char>,
    row: RowView,
)
    ensures
        ({
            let fit = row.signature.len() > 0 && ((rows.contains(row) && row.kind != "field"@) || (
            related.contains(row) && bearing(row.signature, name) == Some(
                "construction candidate"@,
            ) && rootless(row.name) != name));
            &&& examples(rows, related, name).contains(row) ==> fit
            &&& fit ==> has_row_named(examples(rows, related, name), row.name)
        }),
{
    let named = named_examples(rows);
    let found = found_examples(related, name);
    let keys = example_keys(named, found, name);
    let sorted = rows_arranged(named + found, keys);
    named_examples_hold(rows, row);
    found_examples_hold(related, name, row);
    crate::text::chain::appended_holds(named, found, row);
    arranged_rows_hold(named + found, keys, row);
    signed_rows_hold(sorted, row);
    once_named_holds(signed_rows(sorted), row);
}

/// Explicit inputs are just those in round brackets.
pub proof fn explicit_inputs_are_round(list: Seq<Seq<char>>, binder: Seq<char>)
    ensures
        binders_by_kind(list, true).contains(binder) <==> list.contains(binder) && begins(
            binder,
            "("@,
        ),
        binders_by_kind(list, false).contains(binder) <==> list.contains(binder) && !begins(
            binder,
            "("@,
        ),
    decreases list.len(),
{
    if list.len() > 0 {
        explicit_inputs_are_round(list.drop_last(), binder);
        assert(list =~= list.drop_last().push(list.last()));
        pushed_holds(list.drop_last(), list.last(), binder);
        pushed_holds(binders_by_kind(list.drop_last(), true), list.last(), binder);
        pushed_holds(binders_by_kind(list.drop_last(), false), list.last(), binder);
    }
}

/// Evidence is trusted just where it is about a subject and every axiom that it uses is
/// one of the three that Lean provides.
pub proof fn standard_axioms_are_trusted(subject: Option<Seq<char>>, axioms: Seq<Seq<char>>)
    ensures
        trustworthy(subject, axioms) <==> subject is Some && forall|i: int|
            0 <= i < axioms.len() ==> {
                let a = #[trigger] axioms[i];
                a == "propext"@ || a == "Classical.choice"@ || a == "Quot.sound"@
            },
{
    if subject is Some && forall|i: int|
        0 <= i < axioms.len() ==> {
            let a = #[trigger] axioms[i];
            a == "propext"@ || a == "Classical.choice"@ || a == "Quot.sound"@
        } {
        assert forall|i: int| 0 <= i < axioms.len() implies standard_axiom(#[trigger] axioms[i]) by {
            let a = axioms[i];
            assert(a == "propext"@ || a == "Classical.choice"@ || a == "Quot.sound"@);
        }
    }
    if trustworthy(subject, axioms) {
        assert forall|i: int| 0 <= i < axioms.len() implies {
            let a = #[trigger] axioms[i];
            a == "propext"@ || a == "Classical.choice"@ || a == "Quot.sound"@
        } by {
            assert(standard_axiom(axioms[i]));
        }
    }
}

proof fn routes_for_hold(list: Seq<RouteView>, subject: Seq<char>, r: RouteView)
    ensures
        routes_for(list, subject).contains(r) <==> list.contains(r) && rootless(r.subject)
            == rootless(subject),
    decreases list.len(),
{
    if list.len() > 0 {
        routes_for_hold(list.drop_last(), subject, r);
        assert(list =~= list.drop_last().push(list.last()));
        pushed_holds(list.drop_last(), list.last(), r);
        pushed_holds(routes_for(list.drop_last(), subject), list.last(), r);
    }
}

/// A registry of the right version, within its size and with sound routes only gives at
/// most three routes, each of them about the subject; and all of them where there are no
/// more than three. Any other registry is refused.
pub proof fn routes_are_about_the_subject(
    version: u32,
    links: Seq<RouteView>,
    subject: Seq<char>,
    r: RouteView,
)
    ensures
        selected_routes(version, links, subject) is Ok <==> version == 1 && links.len() <= 256
            && forall|i: int| 0 <= i < links.len() ==> sound_route(#[trigger] links[i]),
        selected_routes(version, links, subject) matches Ok(list) ==> {
            &&& list.len() <= 3
            &&& list.contains(r) ==> links.contains(r) && rootless(r.subject) == rootless(subject)
            &&& list.len() < 3 && links.contains(r) && rootless(r.subject) == rootless(subject)
                ==> list.contains(r)
        },
{
    routes_for_hold(links, subject, r);
    let all = routes_for(links, subject);
    if front(all, 3).contains(r) {
        let i = front(all, 3).index_of(r);
        assert(all[i] == r);
    }
}

/// Verified evidence is told just where the sources are those that it was verified at,
/// with the theorem and the reference to look it up by.
pub proof fn verified_evidence_is_told(e: EvidenceView, current: Option<Seq<char>>)
    ensures
        evidence_notice(e, current) is Some <==> current == Some(e.fingerprint),
        evidence_notice(e, current) matches Some(text) ==> {
            &&& begins(
                text,
                "Lean-verified obstruction at matching project-source/configuration snapshot: "@
                    + e.theorem + "\n"@,
            )
            &&& ends(text, "; probe "@ + e.reference)
        },
{
    if let Some(text) = evidence_notice(e, current) {
        let head = "Lean-verified obstruction at matching project-source/configuration snapshot: "@
            + e.theorem + "\n"@;
        let middle = shortened(e.details, 400);
        let tail = "\nHypotheses/specialization still apply; probe "@;
        let mark = "; probe "@;
        reveal_strlit("\nHypotheses/specialization still apply; probe ");
        reveal_strlit("; probe ");
        assert(text =~= head + middle + tail + e.reference);
        assert(text.take(head.len() as int) =~= head);
        let n = tail.len() - mark.len();
        assert(tail =~= tail.take(n) + mark);
        assert(text =~= (head + middle + tail.take(n)) + (mark + e.reference));
        part_ends(head + middle + tail.take(n), mark + e.reference);
    }
}

/// An unverified candidate is only told where nothing is verified, and says that it is
/// unverified.
pub proof fn verified_evidence_comes_first(
    verified: Option<Seq<char>>,
    candidate: Option<(Seq<char>, Seq<char>)>,
    subject: Seq<char>,
    routes: Option<Seq<char>>,
)
    ensures
        ({
            let notes = discovery_notes(verified, candidate, subject, routes);
            &&& verified matches Some(text) ==> notes.len() > 0 && notes[0] == text
                && discovery_notes(verified, candidate, subject, routes) == discovery_notes(
                verified,
                None,
                subject,
                routes,
            )
            &&& verified is None && candidate is Some ==> notes.len() > 0 && begins(
                notes[0],
                "source obstruction candidate (unverified): "@ + (candidate->0).0 + "\n"@,
            )
            &&& routes is Some && routes->0.len() > 0 ==> notes.len() > 0 && notes.last()
                == routes->0
            &&& routes is None ==> notes.len() > 0 && notes.last()
                == "project route registry invalid; probe NAME evidence for the diagnostic"@
        }),
{
    if verified is None && candidate is Some {
        let (name, signature) = candidate->0;
        let head = "source obstruction candidate (unverified): "@ + name + "\n"@;
        let note = discovery_notes(verified, candidate, subject, routes)[0];
        assert(note.take(head.len() as int) =~= head);
    }
}

/// The more terms a signature mentions, the more it has in common with a message: one term
/// more counts once where it is mentioned and not otherwise.
pub proof fn mentioned_terms_are_counted(
    signature: Seq<char>,
    terms: Seq<Seq<char>>,
    term: Seq<char>,
)
    ensures
        overlap(signature, Seq::empty()) == 0,
        crate::search::contract::mentioned(signature, term) ==> overlap(signature, terms.push(term))
            == overlap(signature, terms) + 1,
        !crate::search::contract::mentioned(signature, term) ==> overlap(
            signature,
            terms.push(term),
        ) == overlap(signature, terms),
{
    assert(terms.push(term).drop_last() =~= terms);
}

/// Of two laws with signatures of like length, one that is the law of application of a
/// term has more points than one that is not and has as much in common otherwise; and so
/// has one that shares more symbols of conversion; and a law that can be used as the
/// imports stand has more points than if it could not.
pub proof fn laws_gain_by_what_they_share(
    a: RowView,
    b: RowView,
    terms: Seq<Seq<char>>,
    focused: Seq<char>,
    accessible: bool,
)
    requires
        a.signature.len() / 200 == b.signature.len() / 200,
        overlap(a.signature, terms) == overlap(b.signature, terms),
    ensures
        law_points(a, terms, focused, true) > law_points(a, terms, focused, false),
        is_law_of(a.name, terms) && !is_law_of(b.name, terms) && shared_conversions(
            focused,
            a.signature,
        ) == shared_conversions(focused, b.signature) ==> law_points(a, terms, focused, accessible)
            > law_points(b, terms, focused, accessible),
        is_law_of(a.name, terms) == is_law_of(b.name, terms) && shared_conversions(
            focused,
            a.signature,
        ) > shared_conversions(focused, b.signature) ==> law_points(a, terms, focused, accessible)
            >= law_points(b, terms, focused, accessible),
{
}

/// Symbols of conversion that a message and a signature share are counted, each once.
pub proof fn shared_symbols_are_counted(focused: Seq<char>, signature: Seq<char>)
    ensures
        ({
            let both = |symbol: Seq<char>| has_text(focused, symbol) && has_text(signature, symbol);
            shared_conversions(focused, signature) == (if both("↑"@) {
                1int
            } else {
                0
            }) + (if both("⁻¹"@) {
                1int
            } else {
                0
            }) + (if both("⇑"@) {
                1int
            } else {
                0
            })
        }),
{
}

proof fn laws_listed_hold(
    rows: Seq<RowView>,
    terms: Seq<Seq<char>>,
    focused: Seq<char>,
    imports: Option<Seq<Seq<char>>>,
    row: RowView,
)
    ensures
        laws_listed(rows, terms, focused, imports).contains(row) <==> rows.contains(row)
            && law_listed(row, terms, focused, imports),
    decreases rows.len(),
{
    if rows.len() > 0 {
        let before = laws_listed(rows.drop_last(), terms, focused, imports);
        laws_listed_hold(rows.drop_last(), terms, focused, imports, row);
        assert(rows =~= rows.drop_last().push(rows.last()));
        pushed_holds(rows.drop_last(), rows.last(), row);
        pushed_holds(before, rows.last(), row);
    }
}

proof fn law_points_are_few(
    row: RowView,
    terms: Seq<Seq<char>>,
    focused: Seq<char>,
    accessible: bool,
)
    ensures
        0 <= law_points(row, terms, focused, accessible) <= 30,
{
}

/// The laws that may bridge a gap are theorems or lemmas that mention a term or are the
/// law of application of one, with at least four points; the one with more points comes
/// first, and every name of such a law is listed once.
pub proof fn the_best_laws_come_first(
    rows: Seq<RowView>,
    terms: Seq<Seq<char>>,
    focused: Seq<char>,
    imports: Option<Seq<Seq<char>>>,
    i: int,
    j: int,
    row: RowView,
)
    requires
        0 <= i <= j < best_laws(rows, terms, focused, imports).len(),
    ensures
        ({
            let list = best_laws(rows, terms, focused, imports);
            let points = |r: RowView|
                law_points(r, terms, focused, imports is Some && imports->0.contains(r.module));
            let fit = |r: RowView|
                (r.kind == "theorem"@ || r.kind == "lemma"@) && (overlap(r.signature, terms) > 0
                    || is_law_of(r.name, terms)) && points(r) >= 4;
            &&& points(list[i]) >= points(list[j])
            &&& rows.contains(list[i]) && fit(list[i])
            &&& i < j ==> list[i].name != list[j].name
            &&& rows.contains(row) && fit(row) ==> has_row_named(list, row.name)
        }),
{
    let found = laws_listed(rows, terms, focused, imports);
    let keys = found.map_values(|r: RowView| law_key(r, terms, focused, imports));
    let sorted = rows_arranged(found, keys);
    let list = best_laws(rows, terms, focused, imports);
    let rank_of = |r: RowView|
        1000 - law_points(r, terms, focused, reachable(r.module, imports));
    assert forall|k: int| 0 <= k < found.len() implies (#[trigger] keys[k]).len() > 0 && keys[k][0]
        as int == rank_of(found[k]) by {
        assert(keys[k] == law_key(found[k], terms, focused, imports));
        law_points_are_few(found[k], terms, focused, reachable(found[k].module, imports));
    }
    arranged_by_first(found, keys, rank_of);
    once_named_keeps_order(sorted, rank_of);
    assert(rank_of(list[i]) <= rank_of(list[j]));
    crate::search::dossier::names_are_listed_once(sorted);
    once_named_holds(sorted, list[i]);
    assert(list.contains(list[i]));
    arranged_rows_hold(found, keys, list[i]);
    laws_listed_hold(rows, terms, focused, imports, list[i]);
    once_named_holds(sorted, row);
    arranged_rows_hold(found, keys, row);
    laws_listed_hold(rows, terms, focused, imports, row);
}

proof fn law_texts_hold(rows: Seq<RowView>, imports: Option<Seq<Seq<char>>>, n: nat, i: int)
    requires
        0 <= i < n <= rows.len(),
    ensures
        has_text(law_texts(rows, imports, n), law_text(rows[i], imports)),
    decreases n,
{
    let before = law_texts(rows, imports, (n - 1) as nat);
    let last = law_text(rows[n - 1], imports);
    if i < n - 1 {
        law_texts_hold(rows, imports, (n - 1) as nat, i);
        found_in_part(Seq::empty(), before, last, law_text(rows[i], imports));
        assert(Seq::<char>::empty() + before + last =~= before + last);
    } else {
        found_between(before, last, Seq::empty());
        assert(before + last + Seq::<char>::empty() =~= before + last);
    }
}

/// The report on a message begins with what matters of it, and tells the three best laws,
/// each with its signature, where it stands, and whether it can be used as the imports
/// stand.
pub proof fn conflicts_are_reported_with_laws(
    focused: Seq<char>,
    laws: Seq<RowView>,
    imports: Option<Seq<Seq<char>>>,
    usage: Option<(UsageView, Option<Seq<char>>)>,
    path: Option<Seq<char>>,
    i: int,
)
    ensures
        ({
            let text = conflict_report(focused, laws, imports, usage, path);
            &&& begins(text, "\n"@ + focused + "\n"@)
            &&& 0 <= i < laws.len() && i < 3 ==> has_text(
                text,
                laws[i].name + " : "@ + shortened(laws[i].signature, 250) + "\n  "@ + laws[i].path
                    + ":"@ + decimal(laws[i].line as nat) + "; "@ + availability(
                    laws[i].module,
                    imports,
                ) + "; probe "@ + laws[i].name + " source\n"@,
            )
            &&& path matches Some(p) ==> ends(
                text,
                "\nTest in explicit context: mathmux probe "@ + p + ":LINE '#apply TERM'\n"@,
            )
        }),
{
    let text = conflict_report(focused, laws, imports, usage, path);
    let head = "\n"@ + focused + "\n"@;
    let n: nat = if laws.len() < 3 {
        laws.len()
    } else {
        3
    };
    let label = "\nConversion/law candidates (signature overlap; applicability unverified):\n"@;
    let listing = if laws.len() == 0 {
        ""@
    } else {
        label + law_texts(laws, imports, n)
    };
    let used = match usage {
        Some((u, line)) => if laws.len() == 0 {
            ""@
        } else {
            usage_text(u, line)
        },
        None => ""@,
    };
    let tested = match path {
        Some(p) => "\nTest in explicit context: mathmux probe "@ + p + ":LINE '#apply TERM'\n"@,
        None => ""@,
    };
    assert(text == head + listing + used + tested);
    assert(text.take(head.len() as int) =~= head);
    part_ends(head + listing + used, tested);
    if 0 <= i < laws.len() && i < 3 {
        law_texts_hold(laws, imports, n, i);
        found_in_part(
            head + label,
            law_texts(laws, imports, n),
            used + tested,
            law_text(laws[i], imports),
        );
        assert(head + label + law_texts(laws, imports, n) + (used + tested) =~= text);
    }
}

/// What is said of the use of a law under the imports of a file.
pub proof fn availability_follows_imports(module: Seq<char>, imports: Seq<Seq<char>>)
    ensures
        imports.contains(module) ==> availability(module, Some(imports))
            == "available through imports"@,
        !imports.contains(module) ==> availability(module, Some(imports))
            == "import may be required: "@ + module,
        availability(module, None) == "import availability unknown"@,
{
}

/// A search for a property of a type shows, where the index has statements of just that
/// property, at most three of them instead of what it found, and says that they are not
/// verified; and else stays as it is.
pub proof fn requested_properties_are_shown(
    run: RunView,
    rows: Seq<RowView>,
    name: Seq<char>,
    kind: Seq<char>,
    i: int,
)
    requires
        kind == "subsingleton candidate"@ || kind == "emptiness candidate"@,
    ensures
        ({
            let after = with_risks(run, rows, name, kind);
            let some = crate::text::chain::some_item(
                rows,
                |r: RowView| bearing(r.signature, name) == Some(kind),
            );
            &&& !some ==> after == run
            &&& some ==> {
                &&& 0 < after.hits.len() <= 3
                &&& after.inference == "contract-property"@
                &&& after.note is Some
                &&& 0 <= i < after.hits.len() ==> after.hits[i].signature is Some && bearing(
                    after.hits[i].signature->0,
                    name,
                ) == Some(kind)
            }
        }),
{
    let picked = rows_bearing(risks(rows, name), name, kind);
    let wanted = |r: RowView| bearing(r.signature, name) == Some(kind);
    if crate::text::chain::some_item(rows, wanted) {
        let k = choose|k: int| 0 <= k < rows.len() && wanted(#[trigger] rows[k]);
        assert(rows.contains(rows[k]));
        risks_rule_out(rows, name, rows[k]);
        bearings_are_picked(risks(rows, name), name, kind, rows[k]);
        assert(picked.len() > 0);
    }
    if picked.len() > 0 {
        assert(picked.contains(picked[0]));
        bearings_are_picked(risks(rows, name), name, kind, picked[0]);
        risks_rule_out(rows, name, picked[0]);
        let k = rows.index_of(picked[0]);
        assert(wanted(rows[k]));
        let shown = front(picked, 3);
        let after = with_risks(run, rows, name, kind);
        assert(after.hits.len() == shown.len());
        if 0 <= i < after.hits.len() {
            assert(shown[i] == picked[i]);
            assert(picked.contains(picked[i]));
            bearings_are_picked(risks(rows, name), name, kind, picked[i]);
        }
    }
}

/// What the index has against a type is its first risk, told with its bearing, its name
/// and where it stands, and with what it states; and nothing where there is no risk.
pub proof fn the_first_risk_obstructs(rows: Seq<RowView>, subject: Seq<char>)
    ensures
        obstruction(rows, subject) is None <==> risks(rows, subject).len() == 0,
        obstruction(rows, subject) matches Some((told, statement)) ==> {
            let row = risks(rows, subject)[0];
            &&& statement == row.signature
            &&& bearing(row.signature, subject) is Some
            &&& told == bearing(row.signature, subject)->0 + ": "@ + row.name + " ("@ + row.path
                + ":"@ + decimal(row.line as nat) + ")"@
        },
{
    let list = risks(rows, subject);
    if list.len() > 0 {
        assert(list.contains(list[0]));
        risks_rule_out(rows, subject, list[0]);
    }
}

} // verus!
