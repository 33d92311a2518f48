//! How sources, files and pairs of declarations are found, on every input.
use crate::order::{lex_less, lex_less_at, ranking, ranking_is_permutation, ranking_is_sorted};
use crate::path::lies_under;
use crate::search::bridge::{
    best_bridge, bridge_note, bridge_score, joint_coverage, related, sans_command, shared_usage,
    used_within,
};
use crate::search::diagnostics::{distance, distance_is_zero_iff_equal};
use crate::search::fallback::{
    declaration_word, fallback_bonus, fallback_in, named_files, partial_match, related_terms,
    rows_by_name, scan_key, scanned_line, source_alias, stem_before, symbol, telling_of, term_count,
    FallbackFileView, FallbackQueryView,
};
use crate::search::records::{CandidateView, HitView, RowView};
use crate::search::score::{coverage, hit_match};
use crate::search::source::EntryView;
use crate::search::tokens::distinct;
use crate::search::tree::{
    choice_of, close_name, has_file_named, leads_from, leads_to, missing_source, near, near_files,
    near_keys, nearby, nearest, not_found, requested_file, resolved, source_at, ChoiceView,
    ResolvedView, TreeView,
};
use crate::search::type_worker::{outcome, startup_parts, startup_text, ResponseView};
use crate::text::chain::{
    label_begins, listed_holds, numbers_hold_digits, part_ends, pushed_holds, rcut_at_mark,
};
use crate::text::class::{any_of, Class};
use crate::text::make::{byte_length, lower, lowercased};
use crate::text::number::{decimal, decimal_reads_back};
use crate::text::scan::{bare, begins, ends, found_in_part, has_text};
use vstd::prelude::*;

verus! {

/// A symbol is a single word that cannot be a name; a word of plain letters is none.
pub proof fn symbols_are_no_names(query: Seq<char>)
    ensures
        symbol(query) is Some ==> bare(query).len() > 0 && !any_of(bare(query), Class::Space)
            && any_of(bare(query), Class::Outside("_.'")) && symbol(query) == Some(
            lowercased(bare(query)),
        ),
        any_of(bare(query), Class::Space) ==> symbol(query) is None,
        !any_of(bare(query), Class::Outside("_.'")) ==> symbol(query) is None,
{
}

/// The words that sources spell otherwise are looked for in their spelling.
pub proof fn sources_spell_otherwise()
    ensures
        source_alias("addition"@) == Some("add"@),
        source_alias("continuity"@) == Some("continuous"@),
        source_alias("positive"@) == Some("pos"@),
        source_alias("projection"@) == Some("proj"@),
        source_alias("scaling"@) == Some("smul"@),
        source_alias("weighted"@) == Some("weight"@),
{
    reveal_strlit("addition");
    reveal_strlit("continuity");
    reveal_strlit("islinear");
    reveal_strlit("positive");
    reveal_strlit("projection");
    reveal_strlit("scaling");
    reveal_strlit("trivializationat");
    reveal_strlit("weighted");
    assert("addition"@[0] == 'a' && "islinear"@[0] == 'i' && "positive"@[0] == 'p' && "weighted"@[0]
        == 'w' && "continuity"@[0] == 'c' && "projection"@[0] == 'p');
    assert("addition"@.len() == 8 && "continuity"@.len() == 10 && "islinear"@.len() == 8
        && "positive"@.len() == 8 && "projection"@.len() == 10 && "scaling"@.len() == 7
        && "trivializationat"@.len() == 16 && "weighted"@.len() == 8);
}

/// A law on the values of something is also looked for under its name.
pub proof fn laws_on_values_are_found_by_name(stem: Seq<char>)
    requires
        byte_length(stem) >= 3,
    ensures
        related_terms(stem + "_apply"@).contains(stem),
        related_terms(stem + "_symm_apply"@).contains(stem),
{
    let t = stem + "_apply"@;
    part_ends(stem, "_apply"@);
    assert(t.take(t.len() - "_apply"@.len()) =~= stem);
    assert(stem_before(t, "_apply"@)[0] == stem);
    let before = stem_before(t, "_symm_apply"@);
    assert(related_terms(t)[before.len() as int] == stem);
    let u = stem + "_symm_apply"@;
    part_ends(stem, "_symm_apply"@);
    assert(u.take(u.len() - "_symm_apply"@.len()) =~= stem);
    assert(related_terms(u)[0] == stem);
}

/// A term is telling where it is long enough and does not just say what is declared.
pub proof fn telling_terms_are_kept(list: Seq<Seq<char>>, t: Seq<char>)
    ensures
        telling_of(list.push(t)) == (if byte_length(lowercased(t)) >= 3 && !declaration_word(
            lowercased(t),
        ) {
            telling_of(list).push(lowercased(t))
        } else {
            telling_of(list)
        }),
        declaration_word("class"@) && declaration_word("def"@) && declaration_word("instance"@)
            && declaration_word("lemma"@) && declaration_word("structure"@) && declaration_word(
            "theorem"@,
        ),
{
    assert(list.push(t).drop_last() =~= list);
}

/// Every term that a text holds is counted once.
pub proof fn held_terms_are_counted(text: Seq<char>, terms: Seq<Seq<char>>, t: Seq<char>)
    ensures
        term_count(text, terms.push(t)) == term_count(text, terms) + (if has_text(text, t) {
            1nat
        } else {
            0nat
        }),
        term_count(text, Seq::empty()) == 0,
{
    assert(terms.push(t).drop_last() =~= terms);
}

proof fn count_is_whole(text: Seq<char>, terms: Seq<Seq<char>>)
    ensures
        term_count(text, terms) <= terms.len(),
        term_count(text, terms) == terms.len() <==> forall|i: int|
            0 <= i < terms.len() ==> has_text(text, #[trigger] terms[i]),
    decreases terms.len(),
{
    if terms.len() > 0 {
        let shorter = terms.drop_last();
        count_is_whole(text, shorter);
        if forall|i: int| 0 <= i < terms.len() ==> has_text(text, #[trigger] terms[i]) {
            assert forall|i: int| 0 <= i < shorter.len() implies has_text(
                text,
                #[trigger] shorter[i],
            ) by {
                assert(terms[i] == shorter[i]);
            }
            assert(terms[terms.len() - 1] == terms.last());
        }
        if term_count(text, terms) == terms.len() {
            assert forall|i: int| 0 <= i < terms.len() implies has_text(text, #[trigger] terms[i]) by {
                if i < shorter.len() {
                    assert(terms[i] == shorter[i]);
                }
            }
        }
    }
}

/// A file that holds every token is not told to match in part.
pub proof fn whole_matches_are_not_partial(source: Seq<char>, tokens: Seq<Seq<char>>)
    ensures
        ({
            let each = distinct(crate::search::exact::sorted_texts(tokens));
            &&& (forall|i: int| 0 <= i < each.len() ==> has_text(source, #[trigger] each[i]))
                ==> partial_match(source, tokens) is None
            &&& each.len() >= 2 && !(forall|i: int|
                0 <= i < each.len() ==> has_text(source, #[trigger] each[i])) ==> partial_match(
                source,
                tokens,
            ) == Some(
                "partial source match "@ + decimal(term_count(source, each)) + "/"@ + decimal(
                    each.len(),
                ),
            )
        }),
{
    count_is_whole(source, distinct(crate::search::exact::sorted_texts(tokens)));
}

/// A file that the query names gains its entries four hundred points, a symbol in a name six
/// hundred, and the list of imports two hundred where imports are asked for.
pub proof fn named_files_gain(q: FallbackQueryView, file: FallbackFileView, e: EntryView)
    ensures
        fallback_bonus(q, FallbackFileView { direct: true, ..file }, e) == fallback_bonus(
            q,
            FallbackFileView { direct: false, ..file },
            e,
        ) + 400,
        q.symbol is Some && has_text(lowercased(e.name), q.symbol->0) ==> fallback_bonus(q, file, e)
            == fallback_bonus(FallbackQueryView { symbol: None, ..q }, file, e) + 600,
        (q.tokens.contains("import"@) || q.tokens.contains("imports"@)) && e.kind == "imports"@
            ==> fallback_bonus(q, file, e) == fallback_bonus(
            FallbackQueryView { tokens: Seq::empty(), ..q },
            file,
            e,
        ) + 200,
{
    let none = Seq::<Seq<char>>::empty();
    assert(!none.contains("import"@) && !none.contains("imports"@));
}

/// Every argument that a signature binds gains two hundred points, and every term that a
/// file holds four.
pub proof fn bound_arguments_gain(
    q: FallbackQueryView,
    file: FallbackFileView,
    e: EntryView,
    t: Seq<char>,
)
    ensures
        has_text(lowercased(e.signature), t) ==> fallback_bonus(
            FallbackQueryView { arguments: q.arguments.push(t), ..q },
            file,
            e,
        ) == fallback_bonus(q, file, e) + 200,
        has_text(lowercased(file.source), t) ==> fallback_bonus(
            FallbackQueryView { terms: q.terms.push(t), ..q },
            file,
            e,
        ) == fallback_bonus(q, file, e) + 4,
{
    held_terms_are_counted(lowercased(e.signature), q.arguments, t);
    held_terms_are_counted(lowercased(file.source), q.terms, t);
}

/// Just the entries that hold some term are candidates, each under its own name and path.
pub proof fn entries_with_a_term_are_candidates(
    q: FallbackQueryView,
    file: FallbackFileView,
    entries: Seq<EntryView>,
    e: EntryView,
    origin: u8,
)
    ensures
        ({
            let before = fallback_in(q, file, entries, origin);
            let then = fallback_in(q, file, entries.push(e), origin);
            let text = lowercased(e.name + " "@ + e.signature + " "@ + e.body);
            let held = exists|i: int|
                0 <= i < q.terms.len() && has_text(text, #[trigger] q.terms[i]);
            &&& !held ==> then == before
            &&& held ==> then.len() == before.len() + 1 && then.drop_last() == before
                && then.last().hit.name == e.name && then.last().hit.path == file.path
                && then.last().hit.kind == e.kind && then.last().origins == origin
        }),
{
    assert(entries.push(e).drop_last() =~= entries);
    let before = fallback_in(q, file, entries, origin);
    let then = fallback_in(q, file, entries.push(e), origin);
    let text = lowercased(e.name + " "@ + e.signature + " "@ + e.body);
    count_is_some(text, q.terms);
    if term_count(text, q.terms) > 0 {
        assert(then.drop_last() =~= before);
    }
}

proof fn count_is_some(text: Seq<char>, terms: Seq<Seq<char>>)
    ensures
        term_count(text, terms) > 0 <==> exists|i: int|
            0 <= i < terms.len() && has_text(text, #[trigger] terms[i]),
    decreases terms.len(),
{
    if terms.len() > 0 {
        let shorter = terms.drop_last();
        count_is_some(text, shorter);
        if term_count(text, shorter) > 0 {
            let i = choose|i: int| 0 <= i < shorter.len() && has_text(text, #[trigger] shorter[i]);
            assert(has_text(text, terms[i]));
        }
        if has_text(text, terms.last()) {
            assert(has_text(text, terms[terms.len() - 1]));
        }
        if exists|i: int| 0 <= i < terms.len() && has_text(text, #[trigger] terms[i]) {
            let i = choose|i: int| 0 <= i < terms.len() && has_text(text, #[trigger] terms[i]);
            if i < shorter.len() {
                assert(has_text(text, shorter[i]));
            }
        }
    }
}

/// Files with more matching lines are read first, and of equal ones those of the project
/// before those of packages.
pub proof fn files_with_more_matches_come_first(
    a: Seq<char>,
    b: Seq<char>,
    m: usize,
    n: usize,
    packages: Option<Seq<char>>,
)
    ensures
        m > n ==> lex_less(scan_key(a, m, packages), scan_key(b, n, packages)),
        m == n && !(packages is Some && lies_under(a, packages->0)) && packages is Some
            && lies_under(b, packages->0) ==> lex_less(
            scan_key(a, m, packages),
            scan_key(b, n, packages),
        ),
{
    let x = scan_key(a, m, packages);
    let y = scan_key(b, n, packages);
    if m > n {
        lex_less_at(x, y, 0);
    }
    if m == n && !(packages is Some && lies_under(a, packages->0)) && packages is Some
        && lies_under(b, packages->0) {
        lex_less_at(x, y, 1);
    }
}

/// The count of a scanned file is read as it was written.
pub proof fn scanned_counts_read_back(path: Seq<char>, n: usize)
    ensures
        scanned_line(path + ":"@ + decimal(n as nat)) == Some((path, n)),
{
    reveal_strlit(":");
    numbers_hold_digits(n as nat, ':');
    rcut_at_mark(path, ":"@, decimal(n as nat));
    decimal_reads_back(n as nat, usize::MAX as nat);
}

/// A dotted word names a file: a Lean file itself, or that of a module; a plain word names
/// none.
pub proof fn dotted_words_name_files(list: Seq<Seq<char>>, word: Seq<char>)
    ensures
        !has_text(word, "."@) ==> named_files(list.push(word)) == named_files(list),
        has_text(word, "."@) && ends(word, ".lean"@) ==> named_files(list.push(word))
            == named_files(list).push(word),
        has_text(word, "."@) && !ends(word, ".lean"@) ==> named_files(list.push(word))
            == named_files(list).push(crate::search::modules::file_of_module(word)),
{
    assert(list.push(word).drop_last() =~= list);
}

/// A row is found by name just where its owner is active and its name holds some word.
pub proof fn rows_are_found_by_name(
    rows: Seq<RowView>,
    scopes: Seq<Seq<char>>,
    tokens: Seq<Seq<char>>,
    row: RowView,
)
    ensures
        rows_by_name(rows, scopes, tokens).contains(row) <==> rows.contains(row)
            && scopes.contains(row.owner) && exists|i: int|
            0 <= i < tokens.len() && has_text(lower(row.name), #[trigger] tokens[i]),
    decreases rows.len(),
{
    if rows.len() > 0 {
        let shorter = rows.drop_last();
        rows_are_found_by_name(shorter, scopes, tokens, row);
        assert(rows =~= shorter.push(rows.last()));
        pushed_holds(shorter, rows.last(), row);
        pushed_holds(rows_by_name(shorter, scopes, tokens), rows.last(), row);
    }
}

/// Two declarations have to do with each other in both directions.
pub proof fn relations_go_both_ways(a: HitView, b: HitView)
    ensures
        related(a, b) == related(b, a),
        used_within(a.usages, crate::search::tokens::leaf(lower(b.name))) ==> related(a, b),
{
    if shared_usage(a.usages, b.usages) {
        let (i, j) = choose|i: int, j: int|
            0 <= i < a.usages.len() && 0 <= j < b.usages.len() && (#[trigger] a.usages[i]).path == (
            #[trigger] b.usages[j]).path && a.usages[i].context == b.usages[j].context;
        assert(b.usages[j].path == a.usages[i].path);
    }
    if shared_usage(b.usages, a.usages) {
        let (i, j) = choose|i: int, j: int|
            0 <= i < b.usages.len() && 0 <= j < a.usages.len() && (#[trigger] b.usages[i]).path == (
            #[trigger] a.usages[j]).path && b.usages[i].context == a.usages[j].context;
        assert(a.usages[j].path == b.usages[i].path);
    }
}

/// A pair answers a token where either of the two does; a pair that belongs together gains
/// half of what a token does.
pub proof fn pairs_answer_together(
    a: HitView,
    b: HitView,
    tokens: Seq<Seq<char>>,
    t: Seq<char>,
)
    ensures
        hit_match(a, t) || hit_match(b, t) ==> bridge_score(a, b, tokens.push(t)) == bridge_score(
            a,
            b,
            tokens,
        ) + 10,
        !hit_match(a, t) && !hit_match(b, t) ==> bridge_score(a, b, tokens.push(t))
            == bridge_score(a, b, tokens),
        related(a, b) ==> bridge_score(a, b, Seq::empty()) == 5,
        !related(a, b) ==> bridge_score(a, b, Seq::empty()) == 0,
{
    assert(tokens.push(t).drop_last() =~= tokens);
}

/// The partner of the first result adds to what it answers, and goes with it better than any
/// earlier one and at least as well as any later one.
pub proof fn the_best_partner_is_taken(ranked: Seq<CandidateView>, tokens: Seq<Seq<char>>, n: nat)
    requires
        n <= ranked.len(),
    ensures
        match best_bridge(ranked, tokens, n) {
            Some(k) => 1 <= k < n && joint_coverage(ranked[0].hit, ranked[k].hit, tokens)
                > coverage(ranked[0].hit, tokens).0 && forall|j: int|
                1 <= j < n && joint_coverage(
                    ranked[0].hit,
                    (#[trigger] ranked[j]).hit,
                    tokens,
                ) > coverage(ranked[0].hit, tokens).0 ==> bridge_score(
                    ranked[0].hit,
                    ranked[k].hit,
                    tokens,
                ) >= bridge_score(ranked[0].hit, ranked[j].hit, tokens) && (j < k ==> bridge_score(
                    ranked[0].hit,
                    ranked[k].hit,
                    tokens,
                ) > bridge_score(ranked[0].hit, ranked[j].hit, tokens)),
            None => forall|j: int|
                1 <= j < n ==> joint_coverage(ranked[0].hit, (#[trigger] ranked[j]).hit, tokens)
                    <= coverage(ranked[0].hit, tokens).0,
        },
    decreases n,
{
    if n > 1 {
        the_best_partner_is_taken(ranked, tokens, (n - 1) as nat);
    }
}

/// A pair is told with both names and how much of the query it answers.
pub proof fn pairs_are_told(ranked: Seq<CandidateView>, tokens: Seq<Seq<char>>)
    requires
        best_bridge(ranked, tokens, ranked.len()) is Some,
    ensures
        ({
            let at = best_bridge(ranked, tokens, ranked.len())->0;
            let note = bridge_note(ranked, tokens)->0;
            &&& begins(note, "bridge pair (inferred"@)
            &&& ends(
                note,
                ranked[0].hit.name + " ↔ "@ + ranked[at].hit.name + " covers "@ + decimal(
                    joint_coverage(ranked[0].hit, ranked[at].hit, tokens),
                ) + "/"@ + decimal(tokens.len()) + " concepts"@,
            )
        }),
{
    let at = best_bridge(ranked, tokens, ranked.len())->0;
    let note = bridge_note(ranked, tokens)->0;
    let head = "bridge pair (inferred"@;
    assert(note.take(head.len() as int) =~= head);
    let tail = ranked[0].hit.name + " ↔ "@ + ranked[at].hit.name + " covers "@ + decimal(
        joint_coverage(ranked[0].hit, ranked[at].hit, tokens),
    ) + "/"@ + decimal(tokens.len()) + " concepts"@;
    assert(note.skip(note.len() - tail.len()) =~= tail);
}

/// A command of Lean is taken off the name that it asks about.
pub proof fn commands_are_taken_off(name: Seq<char>)
    ensures
        sans_command("#check "@ + name) == bare(name),
        sans_command("#print "@ + name) == bare(name),
        sans_command("#synth "@ + name) == bare(name),
{
    reveal_strlit("#check ");
    reveal_strlit("#print ");
    reveal_strlit("#synth ");
    label_begins("#check "@, name);
    label_begins("#print "@, name);
    label_begins("#synth "@, name);
    assert(("#check "@ + name).skip(7) =~= name);
    assert(("#print "@ + name).skip(7) =~= name);
    assert(("#synth "@ + name).skip(7) =~= name);
    let print = "#print "@ + name;
    let synth = "#synth "@ + name;
    if begins(print, "#check "@) {
        assert(print.take(7)[1] == 'p');
    }
    if begins(synth, "#check "@) {
        assert(synth.take(7)[1] == 's');
    }
    if begins(synth, "#print "@) {
        assert(synth.take(7)[1] == 's');
    }
}

/// A path leads where the first entry that lists it says.
pub proof fn the_first_entry_leads(
    known: Seq<(Seq<char>, Seq<char>)>,
    path: Seq<char>,
    i: int,
)
    requires
        0 <= i <= known.len(),
    ensures
        match leads_from(known, path, i) {
            Some(to) => exists|k: int|
                i <= k < known.len() && (#[trigger] known[k]).0 == path && known[k].1 == to
                    && forall|j: int| i <= j < k ==> (#[trigger] known[j]).0 != path,
            None => forall|j: int| i <= j < known.len() ==> (#[trigger] known[j]).0 != path,
        },
    decreases known.len() - i,
{
    if i < known.len() {
        if known[i].0 == path {
            assert(known[i].0 == path);
        } else {
            the_first_entry_leads(known, path, i + 1);
            if let Some(to) = leads_from(known, path, i + 1) {
                let k = choose|k: int|
                    i + 1 <= k < known.len() && (#[trigger] known[k]).0 == path && known[k].1 == to
                        && forall|j: int| i + 1 <= j < k ==> (#[trigger] known[j]).0 != path;
                assert(known[k].0 == path);
            }
        }
    }
}

/// Several files that are the same come down to one; different ones to none in particular.
pub proof fn equal_files_come_down_to_one(list: Seq<Seq<char>>, path: Seq<char>)
    ensures
        choice_of(list) == ChoiceView::One(path) <==> list.len() > 0 && forall|i: int|
            0 <= i < list.len() ==> #[trigger] list[i] == path,
        choice_of(list) == ChoiceView::Nothing <==> list.len() == 0,
{
    if list.len() > 0 && forall|i: int| 0 <= i < list.len() ==> #[trigger] list[i] == path {
        assert(list[0] == path);
    }
}

/// What stands at the path itself in the workspace comes before every other file.
pub proof fn the_path_itself_comes_first(tree: TreeView, display: Seq<char>, requested: Seq<char>)
    ensures
        leads_to(tree.files, crate::path::placed_under(tree.cwd, requested)) matches Some(path)
            ==> lies_under(path, tree.root) ==> resolved(tree, display, requested) == Some(
            ResolvedView { path, display: None, project: true },
        ),
{
}

/// A Lean file is asked for as it is, a dotted name as a module, and a name without an
/// extension as a Lean file.
pub proof fn files_are_asked_for(display: Seq<char>)
    ensures
        crate::path::lean_file(display) && crate::path::extension_of(display) is Some
            ==> requested_file(display) == Some(display),
        !any_of(display, Class::Only("/\\")) && has_text(display, "."@)
            && !crate::path::lean_file(display) ==> requested_file(display) == Some(
            crate::search::modules::file_of_module(display),
        ),
        !has_text(display, "."@) && crate::path::extension_of(display) is None ==> requested_file(
            display,
        ) == Some(display + ".lean"@),
{
}

/// A name is close to itself, and to one that a letter or two make of it.
pub proof fn names_are_close_to_themselves(name: Seq<char>, other: Seq<char>)
    ensures
        close_name(name, name),
        distance(lowercased(name), lowercased(other)) <= 2 ==> close_name(name, other),
{
    distance_is_zero_iff_equal(lowercased(name), lowercased(name));
}

proof fn near_files_are_near(files: Seq<Seq<char>>, requested: Seq<char>, f: Seq<char>)
    ensures
        near_files(files, requested).contains(f) <==> files.contains(f) && near(requested, f),
    decreases files.len(),
{
    if files.len() > 0 {
        let shorter = files.drop_last();
        near_files_are_near(shorter, requested, f);
        assert(files =~= shorter.push(files.last()));
        pushed_holds(shorter, files.last(), f);
        pushed_holds(near_files(shorter, requested), files.last(), f);
    }
}

/// At most five files are offered, each of them near the one asked for, those of its own
/// directory first.
pub proof fn near_files_are_offered(files: Seq<Seq<char>>, requested: Seq<char>, i: int, j: int)
    requires
        0 <= i < j < nearest(files, requested).len(),
    ensures
        nearest(files, requested).len() <= 5,
        files.contains(nearest(files, requested)[i]) && near(
            requested,
            nearest(files, requested)[i],
        ),
        crate::search::tree::directory_parts(nearest(files, requested)[j])
            == crate::search::tree::directory_parts(requested)
            ==> crate::search::tree::directory_parts(nearest(files, requested)[i])
            == crate::search::tree::directory_parts(requested),
{
    let list = near_files(files, requested);
    let keys = near_keys(list, requested);
    ranking_is_permutation(keys);
    ranking_is_sorted(keys, i, j);
    let a = ranking(keys)[i];
    let b = ranking(keys)[j];
    assert(list.contains(list[a]));
    near_files_are_near(files, requested, list[a]);
    if keys[a][0] != keys[b][0] {
        lex_less_at(keys[a], keys[b], 0);
    }
}

/// A file that only the main directory has asks for a synchronisation; any other that is
/// missing is named, with the files near it.
pub proof fn missing_files_are_named(
    tree: TreeView,
    main: Option<TreeView>,
    requested: Seq<char>,
    i: int,
)
    ensures
        ({
            let message = missing_source(tree, main, requested);
            let named = crate::path::base_name(requested) is Some && exists|k: int|
                0 <= k < tree.project_files.len() && crate::path::base_name(
                    #[trigger] tree.project_files[k],
                ) == crate::path::base_name(requested);
            let there = main is Some && source_at(main->0, requested) is Some;
            &&& there && !named ==> message == "source file is on managed main; run mathmux sync"@
            &&& !there || named ==> begins(
                message,
                "source file not found or ambiguous: "@ + requested,
            )
            &&& (!there || named) && 0 <= i < nearby(tree.project_files, requested).len()
                ==> has_text(message, "\n  "@ + nearby(tree.project_files, requested)[i])
        }),
{
    let head = "source file not found or ambiguous: "@ + requested;
    let told = not_found(tree.project_files, requested);
    assert(told.take(head.len() as int) =~= head);
    let list = nearby(tree.project_files, requested);
    if 0 <= i < list.len() {
        let lines = crate::text::layout::listed(list, "\n  "@);
        listed_holds(list, "\n  "@, i);
        let before = head + "\nnearby sources:"@;
        assert(told =~= before + lines + Seq::<char>::empty());
        found_in_part(before, lines, Seq::empty(), "\n  "@ + list[i]);
    }
    let named = crate::path::base_name(requested) is Some && has_file_named(
        tree.project_files,
        crate::path::base_name(requested)->0,
    );
    if crate::path::base_name(requested) is Some && exists|k: int|
        0 <= k < tree.project_files.len() && crate::path::base_name(
            #[trigger] tree.project_files[k],
        ) == crate::path::base_name(requested) {
        let k = choose|k: int|
            0 <= k < tree.project_files.len() && crate::path::base_name(
                #[trigger] tree.project_files[k],
            ) == crate::path::base_name(requested);
        assert(crate::path::base_name(tree.project_files[k]) == Some(
            crate::path::base_name(requested)->0,
        ));
        assert(named);
    }
}

/// An answer that failed gives no results and says why; one that succeeded gives its results
/// and no fault.
pub proof fn failed_answers_give_no_results(response: ResponseView, suggestions: Seq<Seq<char>>)
    ensures
        response.ok ==> outcome(response, suggestions).error is None && outcome(
            response,
            suggestions,
        ).hits == response.hits && outcome(response, suggestions).count == response.count,
        !response.ok ==> outcome(response, suggestions).error == Some(response.detail) && outcome(
            response,
            suggestions,
        ).hits.len() == 0 && outcome(response, suggestions).count == 0,
        outcome(response, suggestions).suggestions == suggestions,
{
}

/// Every part of a start is told with its milliseconds.
pub proof fn starts_are_told_by_part(list: Seq<(Seq<char>, u64)>, i: int)
    requires
        0 <= i < list.len(),
    ensures
        startup_parts(list)[i] == list[i].0 + "="@ + decimal(list[i].1 as nat) + "ms"@,
        startup_text(Seq::empty()) == "type search ready"@,
{
    assert(startup_parts(Seq::empty()) =~= Seq::<Seq<char>>::empty());
}

} // verus!
