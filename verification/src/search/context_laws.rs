//! What is told of evidence, conversions, excerpts and modules, on every input.
use crate::search::conversion::{
    conflict_report, conflict_terms, inverse_query, law_text, law_texts, qualified_of,
    signature_term, type_conflict, with_signature_terms,
};
use crate::search::evidence::{
    discovery_notes, example_lines, plain_name, route_text, selected_routes, sound_route, RouteView,
};
use crate::search::excerpt::{
    before_text, detail_of, excerpt_of, first_holding, found_count, lowered, matched_line,
    numbered_window, other_tokens, unless_blank, uncovered,
};
use crate::search::modules::{
    library_from, library_name, module_of, module_parts, parts_in, sans_extension, searched,
    shown_path, SourceKind,
};
use crate::search::records::{RowView, UsageView};
use crate::text::chain::{
    chain, chain_holds, chain_one, chain_push, label_begins, part_ends, pushed_holds,
};
use crate::text::layout::front;
use crate::text::make::{joined, lowercased};
use crate::text::number::decimal;
use crate::text::pieces::line_list;
use crate::text::scan::{begins, blank, ends, found_between, found_in_part, has_text};
use vstd::prelude::*;

verus! {

proof fn example_is_told(list: Seq<Seq<char>>, i: int)
    requires
        0 <= i < list.len(),
    ensures
        has_text(
            example_lines(list),
            "  selected example: "@ + list[i] + "; probe "@ + list[i] + " source\n"@,
        ),
    decreases list.len(),
{
    let before = example_lines(list.drop_last());
    let last = "  selected example: "@ + list.last() + "; probe "@ + list.last() + " source\n"@;
    let own = "  selected example: "@ + list[i] + "; probe "@ + list[i] + " source\n"@;
    if i == list.len() - 1 {
        found_between(before, last, Seq::empty());
        assert(before + last + Seq::<char>::empty() =~= example_lines(list));
    } else {
        example_is_told(list.drop_last(), i);
        found_in_part(Seq::empty(), before, last, own);
        assert(Seq::<char>::empty() + before + last =~= example_lines(list));
    }
}

/// A route is always told as advice; its obstruction is to be verified, and its replacement
/// and its examples are told with how to look at them.
pub proof fn routes_are_told_as_advice(r: RouteView, i: int)
    ensures
        begins(
            route_text(r),
            "\nproject-authored route (advisory, not an equivalence proof):\n"@,
        ),
        r.obstruction matches Some(name) ==> has_text(
            route_text(r),
            "  obstruction: "@ + name + "; verify in your Lean context\n"@,
        ),
        r.replacement matches Some(name) ==> has_text(
            route_text(r),
            "  replacement: "@ + name + "; probe "@ + name + " assumptions\n"@,
        ),
        0 <= i < r.examples.len() ==> has_text(
            route_text(r),
            "  selected example: "@ + r.examples[i] + "; probe "@ + r.examples[i] + " source\n"@,
        ),
{
    let head = "\nproject-authored route (advisory, not an equivalence proof):\n"@;
    let obstruction = match r.obstruction {
        Some(name) => "  obstruction: "@ + name + "; verify in your Lean context\n"@,
        None => ""@,
    };
    let replacement = match r.replacement {
        Some(name) => "  replacement: "@ + name + "; probe "@ + name + " assumptions\n"@,
        None => ""@,
    };
    let examples = example_lines(r.examples);
    let told = route_text(r);
    assert(told.take(head.len() as int) =~= head);
    chain_one(head);
    let p1 = seq![head].push(obstruction);
    chain_push(seq![head], obstruction);
    let p2 = p1.push(replacement);
    chain_push(p1, replacement);
    let p3 = p2.push(examples);
    chain_push(p2, examples);
    let tail = told.skip(chain(p3).len() as int);
    let p4 = p3.push(tail);
    chain_push(p3, tail);
    assert(told =~= chain(p4));
    chain_holds(p4, 1);
    chain_holds(p4, 2);
    if 0 <= i < r.examples.len() {
        example_is_told(r.examples, i);
        let own = "  selected example: "@ + r.examples[i] + "; probe "@ + r.examples[i]
            + " source\n"@;
        found_in_part(chain(p2), examples, tail, own);
        assert(told =~= chain(p2) + examples + tail);
    }
}

/// Routes are given only of the first version, of at most two hundred and fifty-six links,
/// and where every link is sound; at most three are given.
pub proof fn only_sound_routes_are_given(version: u32, links: Seq<RouteView>, subject: Seq<char>)
    ensures
        selected_routes(version, links, subject) matches Ok(list) ==> version == 1 && links.len()
            <= 256 && list.len() <= 3 && forall|i: int|
            0 <= i < links.len() ==> (#[trigger] links[i]).examples.len() <= 4 && plain_name(
                links[i].subject,
            ),
        version != 1 ==> selected_routes(version, links, subject) is Err,
        links.len() > 256 ==> selected_routes(version, links, subject) is Err,
{
    if let Ok(list) = selected_routes(version, links, subject) {
        assert forall|i: int| 0 <= i < links.len() implies (#[trigger] links[i]).examples.len() <= 4
            && plain_name(links[i].subject) by {
            assert(sound_route(links[i]));
        }
    }
}

/// What was verified comes before what is only suspected; a registry that cannot be read is
/// told.
pub proof fn verified_evidence_takes_precedence(
    verified: Seq<char>,
    candidate: Option<(Seq<char>, Seq<char>)>,
    name: Seq<char>,
    signature: Seq<char>,
    subject: Seq<char>,
)
    ensures
        discovery_notes(Some(verified), candidate, subject, Some(Seq::empty())) == seq![verified],
        discovery_notes(None, Some((name, signature)), subject, Some(Seq::empty())).len() == 1
            && begins(
            discovery_notes(None, Some((name, signature)), subject, Some(Seq::empty()))[0],
            "source obstruction candidate (unverified): "@ + name,
        ),
        discovery_notes(None, None, subject, Some(Seq::empty())).len() == 0,
        discovery_notes(None, None, subject, None) == seq![
            "project route registry invalid; probe NAME evidence for the diagnostic"@,
        ],
{
    assert(discovery_notes(Some(verified), candidate, subject, Some(Seq::empty())) =~= seq![
        verified,
    ]);
    assert(discovery_notes(None, None, subject, None) =~= seq![
        "project route registry invalid; probe NAME evidence for the diagnostic"@,
    ]);
    let told = discovery_notes(None, Some((name, signature)), subject, Some(Seq::empty()))[0];
    let head = "source obstruction candidate (unverified): "@ + name;
    assert(told.take(head.len() as int) =~= head);
}

/// A message is about types that do not fit just where it says so.
pub proof fn conflicts_say_so(diagnostic: Seq<char>)
    ensures
        type_conflict(diagnostic) <==> has_text(diagnostic, "type mismatch"@) || has_text(
            diagnostic,
            "Type mismatch"@,
        ) || has_text(diagnostic, "definitionally equal"@) || has_text(
            diagnostic,
            "failed to synthesize"@,
        ),
{
}

/// Of the names of a message just those are looked up that can be types or qualified, are
/// longer than a letter, and are neither a file nor a word of every message.
pub proof fn telling_names_are_looked_up(list: Seq<Seq<char>>, t: Seq<char>)
    ensures
        conflict_terms(list).contains(t) <==> list.contains(t)
            && crate::search::dossier::type_like_name(t) && t.len() > 1 && !ends(t, "lean"@) && t
            != "Type"@ && t != "Sort"@ && t != "Prop"@ && t != "Hint"@ && t != "Application"@,
        qualified_of(list).contains(t) <==> list.contains(t) && has_text(t, "."@),
    decreases list.len(),
{
    if list.len() > 0 {
        let shorter = list.drop_last();
        telling_names_are_looked_up(shorter, t);
        assert(list =~= shorter.push(list.last()));
        pushed_holds(shorter, list.last(), t);
        pushed_holds(conflict_terms(shorter), list.last(), t);
        pushed_holds(qualified_of(shorter), list.last(), t);
    }
}

/// The types of a signature are added behind the terms that there are, up to eight.
pub proof fn types_are_added_up_to_eight(terms: Seq<Seq<char>>, names: Seq<Seq<char>>, i: int)
    requires
        0 <= i <= names.len(),
        terms.len() < 8,
    ensures
        terms.len() <= with_signature_terms(terms, names, i).len() <= 8,
        with_signature_terms(terms, names, i).take(terms.len() as int) == terms,
        with_signature_terms(terms, names, i).len() < 8 ==> forall|k: int|
            i <= k < names.len() && signature_term(#[trigger] names[k]) ==> with_signature_terms(
                terms,
                names,
                i,
            ).contains(names[k]),
    decreases names.len() - i,
{
    let all = with_signature_terms(terms, names, i);
    if i >= names.len() {
        assert(terms.take(terms.len() as int) =~= terms);
    } else if !signature_term(names[i]) {
        types_are_added_up_to_eight(terms, names, i + 1);
    } else {
        let more = if terms.contains(names[i]) {
            terms
        } else {
            terms.push(names[i])
        };
        assert(more.take(terms.len() as int) =~= terms);
        pushed_holds(terms, names[i], names[i]);
        if more.len() < 8 {
            types_are_added_up_to_eight(more, names, i + 1);
            assert(all.take(terms.len() as int) =~= all.take(more.len() as int).take(
                terms.len() as int,
            ));
            if all.len() < 8 {
                let k = more.index_of(names[i]);
                assert(all.take(more.len() as int)[k] == names[i]);
                assert(all[k] == names[i]);
            }
        }
    }
}

/// A law is told with its place, whether it can be used, and how to look at it.
pub proof fn laws_are_told_with_their_place(row: RowView, imports: Option<Seq<Seq<char>>>)
    ensures
        begins(law_text(row, imports), row.name + " : "@),
        has_text(
            law_text(row, imports),
            "\n  "@ + row.path + ":"@ + decimal(row.line as nat) + "; "@,
        ),
        ends(law_text(row, imports), "; probe "@ + row.name + " source\n"@),
        imports matches Some(list) ==> list.contains(row.module) ==> has_text(
            law_text(row, imports),
            "available through imports"@,
        ),
{
    let told = law_text(row, imports);
    let head = row.name + " : "@;
    assert(told.take(head.len() as int) =~= head);
    let front_part = head + crate::text::layout::shortened(row.signature, 250);
    let place = "\n  "@ + row.path + ":"@ + decimal(row.line as nat) + "; "@;
    let usable = crate::search::conversion::availability(row.module, imports);
    let last = "; probe "@ + row.name + " source\n"@;
    assert(told =~= front_part + place + (usable + last));
    found_between(front_part, place, usable + last);
    assert(told =~= (front_part + place) + usable + last);
    found_between(front_part + place, usable, last);
    part_ends(front_part + place + usable, last);
}

/// A report begins with what matters of the message; without laws it offers none and tells
/// no use.
pub proof fn reports_begin_with_the_message(
    focused: Seq<char>,
    laws: Seq<RowView>,
    imports: Option<Seq<Seq<char>>>,
    usage: Option<(UsageView, Option<Seq<char>>)>,
    path: Seq<char>,
)
    ensures
        begins(conflict_report(focused, laws, imports, usage, Some(path)), "\n"@ + focused + "\n"@),
        ends(
            conflict_report(focused, laws, imports, usage, Some(path)),
            "\nTest in explicit context: mathmux probe "@ + path + ":LINE '#apply TERM'\n"@,
        ),
        conflict_report(focused, Seq::empty(), imports, usage, None) == "\n"@ + focused + "\n"@,
        laws.len() > 0 ==> has_text(
            conflict_report(focused, laws, imports, usage, Some(path)),
            law_text(laws[0], imports),
        ),
{
    reveal_strlit("");
    let told = conflict_report(focused, laws, imports, usage, Some(path));
    let head = "\n"@ + focused + "\n"@;
    assert(told.take(head.len() as int) =~= head);
    let last = "\nTest in explicit context: mathmux probe "@ + path + ":LINE '#apply TERM'\n"@;
    assert(told.skip(told.len() - last.len()) =~= last);
    assert(conflict_report(focused, Seq::empty(), imports, usage, None) =~= head);
    if laws.len() > 0 {
        let n: nat = if laws.len() < 3 {
            laws.len()
        } else {
            3
        };
        first_law_is_told(laws, imports, n);
        let before = head
            + "\nConversion/law candidates (signature overlap; applicability unverified):\n"@;
        let texts = law_texts(laws, imports, n);
        let rest = told.skip((before + texts).len() as int);
        assert(told =~= before + texts + rest);
        found_in_part(before, texts, rest, law_text(laws[0], imports));
    }
}

proof fn first_law_is_told(laws: Seq<RowView>, imports: Option<Seq<Seq<char>>>, n: nat)
    requires
        0 < n <= laws.len(),
    ensures
        has_text(law_texts(laws, imports, n), law_text(laws[0], imports)),
    decreases n,
{
    let m = (n - 1) as nat;
    let before = law_texts(laws, imports, m);
    let last = law_text(laws[n - 1], imports);
    if n == 1 {
        found_between(before, last, Seq::empty());
        assert(before + last + Seq::<char>::empty() =~= law_texts(laws, imports, n));
    } else {
        first_law_is_told(laws, imports, m);
        found_in_part(Seq::empty(), before, last, law_text(laws[0], imports));
        assert(Seq::<char>::empty() + before + last =~= law_texts(laws, imports, n));
    }
}

/// Laws on coerced inverses are looked for just where a message shows both.
pub proof fn inverses_are_looked_for(terms: Seq<Seq<char>>, focused: Seq<char>)
    ensures
        inverse_query(terms, focused) is Some <==> terms.len() > 0 && has_text(focused, "↑"@)
            && has_text(focused, "⁻¹"@),
{
}

/// Every token that some line holds is counted, and every other is left uncovered.
pub proof fn tokens_are_found_or_uncovered(
    list: Seq<Seq<char>>,
    tokens: Seq<Seq<char>>,
    t: Seq<char>,
)
    ensures
        uncovered(list, tokens).contains(t) <==> tokens.contains(t) && !(exists|i: int|
            0 <= i < list.len() && has_text(#[trigger] list[i], t)),
        found_count(list, tokens) + uncovered(list, tokens).len() == tokens.len(),
    decreases tokens.len(),
{
    if tokens.len() > 0 {
        let shorter = tokens.drop_last();
        tokens_are_found_or_uncovered(list, shorter, t);
        assert(tokens =~= shorter.push(tokens.last()));
        pushed_holds(shorter, tokens.last(), t);
        pushed_holds(uncovered(list, shorter), tokens.last(), t);
    }
}

/// A window is told with the numbers of its first and its last line.
pub proof fn windows_are_numbered(list: Seq<Seq<char>>, center: int, length: int)
    requires
        1 <= center < list.len(),
        length >= 2,
        center - 1 + length <= list.len(),
    ensures
        numbered_window(list, center, length) == "[lines "@ + decimal(center as nat) + "-"@
            + decimal((center - 1 + length) as nat) + "]\n"@ + joined(
            list.subrange(center - 1, center - 1 + length),
            "\n"@,
        ),
{
    let end = center - 1 + length;
    assert(crate::search::excerpt::window_start(center, 1) == center - 1);
    assert(crate::search::excerpt::window_end(list.len() as int, center - 1, length) == end);
}

/// A line that holds the whole query is meant before one that holds its tokens, and of such
/// lines the first.
pub proof fn the_whole_query_comes_first(
    list: Seq<Seq<char>>,
    query: Seq<char>,
    tokens: Seq<Seq<char>>,
    k: int,
)
    requires
        0 <= k < list.len(),
        has_text(lowercased(list[k]), lowercased(query)),
        forall|j: int|
            0 <= j < k ==> !has_text(lowercased(#[trigger] list[j]), lowercased(query)),
    ensures
        matched_line(list, query, tokens) == k,
{
    let low = lowered(list);
    assert forall|j: int| 0 <= j < k implies !has_text(#[trigger] low[j], lowercased(query)) by {
        assert(low[j] == lowercased(list[j]));
    }
    holding_is_first(low, lowercased(query), 0, k);
}

proof fn holding_is_first(low: Seq<Seq<char>>, text: Seq<char>, i: int, k: int)
    requires
        0 <= i <= k < low.len(),
        has_text(low[k], text),
        forall|j: int| i <= j < k ==> !has_text(#[trigger] low[j], text),
    ensures
        first_holding(low, text, i) == k,
    decreases k - i,
{
    if i < k {
        holding_is_first(low, text, i + 1, k);
    }
}

/// A file is listed under the line that matched, and a declaration under its own line; a
/// blank source shows nothing.
pub proof fn files_are_listed_under_their_match(
    source: Seq<char>,
    query: Seq<char>,
    tokens: Seq<Seq<char>>,
    line: u64,
    limit: int,
)
    ensures
        blank(source) ==> excerpt_of(source, query, tokens, line, true, limit) == (
            None::<Seq<char>>,
            line,
        ),
        excerpt_of(source, query, tokens, line, false, limit).1 == line,
        !blank(source) && line_list(source).len() > 0 ==> excerpt_of(
            source,
            query,
            tokens,
            line,
            true,
            limit,
        ).1 == (matched_line(line_list(source), query, tokens) + 1) as u64,
{
}

/// A type is shown from its start up to the next documentation, by forty-eight lines at
/// most, and a list of imports by sixty-four; both under their own line.
pub proof fn types_are_shown_from_their_start(
    body: Seq<char>,
    query: Seq<char>,
    tokens: Seq<Seq<char>>,
    line: u64,
    kind: Seq<char>,
    name: Seq<char>,
)
    ensures
        kind == "class"@ || kind == "inductive"@ || kind == "structure"@ ==> detail_of(
            body,
            query,
            tokens,
            line,
            kind,
            name,
        ) == (
            unless_blank(
                joined(
                    front(
                        line_list(before_text(before_text(body, "\n\n/--"@), "\n\n/-!"@)),
                        48,
                    ),
                    "\n"@,
                ),
            ),
            line,
        ),
        kind == "imports"@ ==> detail_of(body, query, tokens, line, kind, name) == (
            unless_blank(joined(front(line_list(body), 64), "\n"@)),
            line,
        ),
        kind != "file"@ ==> detail_of(body, query, tokens, line, kind, name).1 == line,
{
    reveal_strlit("class");
    reveal_strlit("inductive");
    reveal_strlit("structure");
    reveal_strlit("imports");
    assert("imports"@.len() == 7 && "class"@.len() == 5 && "inductive"@.len() == 9
        && "structure"@.len() == 9);
}

/// The names of a declaration itself say nothing of where in it to look.
pub proof fn own_names_are_no_tokens(
    tokens: Seq<Seq<char>>,
    a: Seq<char>,
    b: Seq<char>,
    t: Seq<char>,
)
    ensures
        other_tokens(tokens, a, b).contains(t) <==> tokens.contains(t) && t != a && t != b,
    decreases tokens.len(),
{
    if tokens.len() > 0 {
        let shorter = tokens.drop_last();
        own_names_are_no_tokens(shorter, a, b, t);
        assert(tokens =~= shorter.push(tokens.last()));
        pushed_holds(shorter, tokens.last(), t);
        pushed_holds(other_tokens(shorter, a, b), tokens.last(), t);
    }
}

/// Build products and repositories are not searched; the standard library has its own.
pub proof fn build_products_are_not_searched(name: Seq<char>)
    ensures
        !searched(Some(".git"@), SourceKind::Project) && !searched(
            Some(".lake"@),
            SourceKind::Project,
        ) && !searched(Some("target"@), SourceKind::Project),
        !searched(Some(".git"@), SourceKind::Stdlib) && !searched(
            Some("build"@),
            SourceKind::Stdlib,
        ),
        name != ".git"@ && name != ".lake"@ && name != "target"@ ==> searched(
            Some(name),
            SourceKind::Project,
        ) && searched(Some(name), SourceKind::Dependency),
        name != ".git"@ && name != "build"@ ==> searched(Some(name), SourceKind::Stdlib),
        searched(None, SourceKind::Project),
{
}

/// A path in the workspace is shown from there; one of the standard library under a name of
/// its own, whatever the workspace.
pub proof fn paths_are_shown_from_their_root(path: Seq<char>, workspace: Seq<char>, root: Seq<char>)
    ensures
        crate::path::remainder(path, workspace) matches Some(parts) ==> shown_path(
            path,
            workspace,
            root,
            SourceKind::Project,
        ) == crate::path::path_of(parts),
        crate::path::remainder(path, workspace) is None ==> (crate::path::remainder(path, root)
            matches Some(parts) ==> shown_path(path, workspace, root, SourceKind::Dependency)
            == crate::path::path_of(parts)),
        begins(shown_path(path, workspace, root, SourceKind::Stdlib), "<stdlib>/"@),
{
    let in_root = match crate::path::remainder(path, root) {
        Some(parts) => crate::path::path_of(parts),
        None => path,
    };
    label_begins("<stdlib>/"@, in_root);
}

/// A module is named by the components of its file; in a package they begin at the library.
pub proof fn modules_are_named_by_their_file(path: Seq<char>, root: Seq<char>, kind: SourceKind)
    ensures
        ({
            let parts = parts_in(path, root);
            &&& kind != SourceKind::Dependency && parts.len() > 0 ==> module_of(path, root, kind)
                == joined(parts.drop_last().push(sans_extension(parts.last())), "."@)
            &&& kind == SourceKind::Dependency ==> (module_parts(path, root, kind) == parts
                || module_parts(path, root, kind).len() > 0 && library_name(
                module_parts(path, root, kind)[0],
            ))
            &&& library_name("Mathlib"@) && library_name("Batteries"@)
        }),
{
    first_library(parts_in(path, root), 0);
}

proof fn first_library(parts: Seq<Seq<char>>, i: int)
    requires
        0 <= i <= parts.len(),
    ensures
        i <= library_from(parts, i) <= parts.len(),
        library_from(parts, i) < parts.len() ==> library_name(parts[library_from(parts, i)]),
    decreases parts.len() - i,
{
    if i < parts.len() && !library_name(parts[i]) {
        first_library(parts, i + 1);
    }
}

} // verus!
