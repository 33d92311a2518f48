//! What names mean and what a focus shows, on every input.
use crate::search::exact::{
    absent, anchored, called, exact_result, noted, other_notes, planned, refinement_weight, sole,
    text_plan, ExactPlanView,
};
use crate::search::focus::{
    ambient_lines, blank_from, decisive, found_in_source, in_scope, last_reference, long_signature,
    note_or, probe_search, reference_on, seen_through, settled, simp_hits, stated_from, states_type,
    stored_goal, telling_from, tells_failure, tells_type, term_lines, tidy_path, warned_from,
};
use crate::search::names::{
    announced_name, canonical, exact_match, field_inventory, glob_chars, glob_pattern, glob_query,
    name_query, owner_match, predicate_base, qualified_match, results_kept, suffix_base, tally,
};
use crate::search::records::{CandidateView, HitView, RunView};
use crate::search::request::ContextView;
use crate::search::tokens::{distinct, distinct_keeps_each_once, leaf, wants_body};
use crate::text::chain::{label_begins, part_ends, pushed_holds, rcut_at_mark};
use crate::text::class::{all_of, Class};
use crate::text::make::{joined, lower};
use crate::text::number::decimal;
use crate::text::pieces::{line_list, words};
use crate::text::scan::{bare, bare_start, begins, blank, ends, has_text};
use vstd::prelude::*;

verus! {

/// In a name with wildcards a star stands for anything, a dot for a dot or an underscore,
/// which beside a star may be missing, and any other character for itself.
pub proof fn wildcards_stand_for_anything(query: Seq<char>, n: nat)
    requires
        n < query.len(),
    ensures
        ({
            let c = query[n as int];
            let before = glob_chars(query, n);
            let then = glob_chars(query, n + 1);
            let beside = (n > 0 && query[n - 1] == '*') || (n + 1 < query.len() && query[(n + 1) as int]
                == '*');
            &&& c == '*' ==> then == before + ".*"@
            &&& c == '.' && beside ==> then == before + "[._]?"@
            &&& c == '.' && !beside ==> then == before + "[._]"@
            &&& c != '*' && c != '.' ==> then == before + crate::search::patterns::escaped(seq![c])
        }),
        ends(glob_pattern(query), "$"@),
        begins(query, "*"@) ==> begins(glob_pattern(query), "(?i)"@ + glob_chars(query, query.len())),
        !begins(query, "*"@) ==> begins(
            glob_pattern(query),
            "(?i)(?:^|\\.)"@ + glob_chars(query, query.len()),
        ),
{
    let head = (if begins(query, "*"@) {
        "(?i)"@
    } else {
        "(?i)(?:^|\\.)"@
    }) + glob_chars(query, query.len());
    part_ends(head, "$"@);
    label_begins(head, "$"@);
}

/// The fields of a structure are asked for by its name and a word for them, with or without
/// its kind before the name; by nothing else.
pub proof fn fields_are_asked_for(query: Seq<char>)
    ensures
        ({
            let list = words(query);
            let facet = |t: Seq<char>|
                lower(t) == "field"@ || lower(t) == "fields"@ || lower(t) == "projection"@ || lower(
                    t,
                ) == "projections"@;
            let kind = |t: Seq<char>| lower(t) == "class"@ || lower(t) == "structure"@;
            &&& field_inventory(query) matches Some(name) ==> name_query(name) && ((list.len() == 2
                && name == list[0] && facet(list[1])) || (list.len() == 3 && kind(list[0]) && name
                == list[1] && facet(list[2])))
            &&& list.len() == 2 && name_query(list[0]) && facet(list[1]) ==> field_inventory(query)
                == Some(list[0])
            &&& list.len() == 3 && kind(list[0]) && name_query(list[1]) && facet(list[2])
                ==> field_inventory(query) == Some(list[1])
        }),
{
}

/// The base of a name is what stands before its last underscore.
pub proof fn bases_end_at_the_last_underscore(base: Seq<char>, suffix: Seq<char>)
    requires
        !suffix.contains('_'),
    ensures
        suffix_base(base + "_"@ + suffix) is Some <==> suffix.len() > 0 && all_of(
            suffix,
            Class::Word(""),
        ) && leaf(base).len() >= 4 && name_query(base),
        suffix_base(base + "_"@ + suffix) is Some ==> suffix_base(base + "_"@ + suffix) == Some(
            base,
        ),
{
    reveal_strlit("_");
    rcut_at_mark(base, "_"@, suffix);
}

/// A predicate is about what stands behind its mark, with the same owner.
pub proof fn predicates_are_about_their_rest(owner: Seq<char>, rest: Seq<char>)
    requires
        rest.len() > 0,
        !rest.contains('.'),
    ensures
        predicate_base(owner + "."@ + ("is_"@ + rest)) == Some(owner + "."@ + rest),
{
    reveal_strlit(".");
    reveal_strlit("is_");
    let last = "is_"@ + rest;
    label_begins("is_"@, rest);
    assert(last.skip(3) =~= rest);
    if last.contains('.') {
        let i = last.index_of('.');
        assert(i >= 3);
        assert(rest[i - 3] == '.');
    }
    rcut_at_mark(owner, "."@, last);
}

/// A name is meant by itself, and by its last component alone.
pub proof fn last_components_mean_their_name(owner: Seq<char>, last: Seq<char>)
    requires
        !last.contains('.'),
        bare(last) == last,
        canonical(last) == last,
        canonical(owner + "."@ + last) == owner + "."@ + last,
        bare(owner + "."@ + last) == owner + "."@ + last,
    ensures
        exact_match(owner + "."@ + last, last),
        exact_match(owner + "."@ + last, owner + "."@ + last),
        qualified_match(owner + "."@ + last, owner + "."@ + last),
{
    let name = owner + "."@ + last;
    part_ends(owner + "."@, last);
    assert(name.take(name.len() - last.len()) =~= owner + "."@);
    part_ends(owner, "."@);
}

/// A query with a dot means only a declaration of that whole name, whatever the case.
pub proof fn dotted_names_mean_one_declaration(name: Seq<char>, query: Seq<char>)
    requires
        canonical(bare(query)).contains('.'),
    ensures
        exact_match(name, query) <==> lower(canonical(name)) == lower(canonical(bare(query))),
{
}

/// An owner is itself and every name that ends with it at a component.
pub proof fn owners_are_known_by_their_end(outer: Seq<char>, owner: Seq<char>)
    ensures
        owner_match(owner, owner),
        owner_match(outer + ("."@ + owner), owner),
{
    part_ends(outer, "."@ + owner);
}

/// A kind announces a name; behind the name only words may stand that ask for a part of the
/// declaration.
pub proof fn kinds_announce_names(query: Seq<char>)
    ensures
        announced_name(query) matches Some(name) ==> {
            let list = words(query);
            let kind = lower(list[0]);
            &&& list.len() >= 2 && name == list[1]
            &&& kind == "abbrev"@ || kind == "class"@ || kind == "declaration"@ || kind == "def"@
                || kind == "definition"@ || kind == "inductive"@ || kind == "instance"@ || kind
                == "lemma"@ || kind == "structure"@ || kind == "theorem"@
            &&& name_query(name) || glob_query(name)
            &&& list.len() == 3 ==> lower(list[2]) == "body"@ || lower(list[2]) == "constructors"@
                || lower(list[2]) == "fields"@ || lower(list[2]) == "implementation"@ || lower(
                list[2],
            ) == "proof"@ || lower(list[2]) == "source"@
        },
        words(query).len() == 2 && name_query(words(query)[1]) && (lower(words(query)[0])
            == "theorem"@ || lower(words(query)[0]) == "lemma"@ || lower(words(query)[0])
            == "def"@ || lower(words(query)[0]) == "class"@ || lower(words(query)[0])
            == "structure"@) ==> announced_name(query) == Some(words(query)[1]),
        words(query).len() < 2 ==> announced_name(query) is None,
{
}

/// Eight related results are kept for a name that was missed, and twenty-four otherwise.
pub proof fn fewer_related_results_are_kept()
    ensures
        results_kept(true, false) == 8,
        results_kept(true, true) == 24,
        results_kept(false, false) == 24,
        results_kept(false, true) == 24,
{
}

/// The characters of a class are counted one by one.
pub proof fn characters_are_counted(text: Seq<char>, c: char, class: Class)
    ensures
        class.has(c) ==> tally(text.push(c), class) == tally(text, class) + 1,
        !class.has(c) ==> tally(text.push(c), class) == tally(text, class),
        tally(Seq::empty(), class) == 0,
{
    assert(text.push(c).drop_last() =~= text);
}

/// Texts have one in common just where there is one and all are the same.
pub proof fn the_sole_text_is_every_text(list: Seq<Seq<char>>, t: Seq<char>)
    ensures
        sole(list) == Some(t) <==> list.len() > 0 && forall|i: int|
            0 <= i < list.len() ==> #[trigger] list[i] == t,
{
    let all = distinct(list);
    distinct_keeps_each_once(list);
    if sole(list) == Some(t) {
        assert(all[0] == t);
        assert(all.contains(t));
        assert forall|i: int| 0 <= i < list.len() implies #[trigger] list[i] == t by {
            assert(list.contains(list[i]));
            assert(all.contains(list[i]));
            let k = all.index_of(list[i]);
            assert(k == 0);
        }
        assert(list.contains(t));
    }
    if list.len() > 0 && forall|i: int| 0 <= i < list.len() ==> #[trigger] list[i] == t {
        assert(list.contains(list[0]));
        assert(all.contains(t));
        let k = all.index_of(t);
        if all.len() > 1 {
            assert(all.contains(all[0]) && all.contains(all[1]));
            let i = list.index_of(all[0]);
            let j = list.index_of(all[1]);
            assert(list[i] == t && list[j] == t);
        }
        assert(all.len() == 1);
        assert(all[0] == t);
    }
}

/// Just the candidates of a name are called by it, whatever its case and its root mark.
pub proof fn candidates_are_called_by_name(
    list: Seq<CandidateView>,
    name: Seq<char>,
    c: CandidateView,
)
    ensures
        called(list, name).contains(c) <==> list.contains(c) && lower(canonical(c.hit.name))
            == lower(name),
    decreases list.len(),
{
    if list.len() > 0 {
        let shorter = list.drop_last();
        candidates_are_called_by_name(shorter, name, c);
        assert(list =~= shorter.push(list.last()));
        pushed_holds(shorter, list.last(), c);
        pushed_holds(called(shorter, name), list.last(), c);
    }
}

/// A query is anchored only at a name that cannot be a plain word, of six characters at
/// least, at its beginning; it looks for at most twenty-four tokens around it.
pub proof fn anchors_are_telling_names(query: Seq<char>)
    ensures
        anchored(query) matches Some(a) ==> {
            &&& a.anchor.len() >= 6 && name_query(a.anchor)
            &&& begins(bare(query), a.anchor)
            &&& a.tokens.len() <= 24
            &&& a.tokens.len() == 0 ==> a.requested.len() == 0
        },
{
    let q = bare(query);
    let at = crate::text::pieces::first_in(q, Class::Space);
    crate::text::pieces::first_in_bounds(q, Class::Space);
    if let Some(a) = anchored(query) {
        assert(q.take(a.anchor.len() as int) =~= a.anchor);
    }
}

/// A type is not looked up as a declaration; a name alone is, and may be completed; words
/// that ask for its text ask for its source.
pub proof fn names_are_looked_up(query: Seq<char>)
    ensures
        planned(query, true) is None,
        anchored(query) is None && words(query).len() <= 1 && name_query(query) ==> planned(
            query,
            false,
        ) == Some(
            ExactPlanView {
                anchor: query,
                refinement_tokens: Seq::empty(),
                requested_terms: Seq::empty(),
                recover_continuation: true,
                source_requested: false,
            },
        ),
        anchored(query) matches Some(a) ==> (planned(query, false) matches Some(p) && p.anchor
            == a.anchor && p.refinement_tokens == a.tokens && p.requested_terms == a.requested
            && !p.recover_continuation && p.source_requested == wants_body(query)),
        field_inventory(query) is Some && !crate::search::score::type_like(query) ==> text_plan(
            query,
        ) is ExactFirst,
        crate::search::score::type_like(query) <==> text_plan(query) is Type,
{
}

/// A term is absent just where no text holds it.
pub proof fn absent_terms_are_nowhere(terms: Seq<Seq<char>>, text: Seq<char>, t: Seq<char>)
    ensures
        absent(terms, text).contains(t) <==> terms.contains(t) && !has_text(text, t),
    decreases terms.len(),
{
    if terms.len() > 0 {
        let shorter = terms.drop_last();
        absent_terms_are_nowhere(shorter, text, t);
        assert(terms =~= shorter.push(terms.last()));
        pushed_holds(shorter, terms.last(), t);
        pushed_holds(absent(shorter, text), terms.last(), t);
    }
}

/// Every token that a text holds adds its length, and no other.
pub proof fn refinements_weigh_their_tokens(text: Seq<char>, tokens: Seq<Seq<char>>, t: Seq<char>)
    ensures
        has_text(text, t) ==> refinement_weight(text, tokens.push(t)) == refinement_weight(
            text,
            tokens,
        ) + t.len(),
        !has_text(text, t) ==> refinement_weight(text, tokens.push(t)) == refinement_weight(
            text,
            tokens,
        ),
        refinement_weight(text, Seq::empty()) == 0,
{
    assert(tokens.push(t).drop_last() =~= tokens);
}

/// What is noted comes first and keeps what was noted before; a note without missing terms
/// keeps every other part.
pub proof fn notes_are_put_first(note: Option<Seq<char>>, prefix: Seq<char>, parts: Seq<Seq<char>>, p: Seq<char>)
    ensures
        noted(note, prefix) matches Some(text) && begins(text, prefix),
        note matches Some(old_note) ==> noted(note, prefix) == Some(prefix + "; "@ + old_note),
        other_notes(parts).contains(p) <==> parts.contains(p) && !begins(
            p,
            "no nearby match for "@,
        ),
    decreases parts.len(),
{
    match note {
        Some(text) => {
            assert((prefix + "; "@ + text).take(prefix.len() as int) =~= prefix);
        },
        None => {
            assert(prefix.take(prefix.len() as int) =~= prefix);
        },
    }
    if parts.len() > 0 {
        let shorter = parts.drop_last();
        notes_are_put_first(note, prefix, shorter, p);
        assert(parts =~= shorter.push(parts.last()));
        pushed_holds(shorter, parts.last(), p);
        pushed_holds(other_notes(shorter), parts.last(), p);
    }
}

/// A declaration that was looked up is told by its absolute name first, and the others as
/// they are; the note tells only of an index that is being built.
pub proof fn looked_up_names_are_absolute(hits: Seq<HitView>, warming: bool, i: int)
    requires
        0 <= i < hits.len(),
        hits[0].kind != "fields"@,
        !begins(hits[0].name, "_root_."@),
    ensures
        exact_result(hits, warming).hits.len() == hits.len(),
        exact_result(hits, warming).hits[0].name == "_root_."@ + hits[0].name,
        exact_result(hits, warming).hits[0].path == hits[0].path,
        i > 0 ==> exact_result(hits, warming).hits[i] == hits[i],
        exact_result(hits, true).note == Some("source index warming"@),
        exact_result(hits, false).note is None,
        exact_result(hits, warming).ok,
        exact_result(hits, warming).inference == "exact"@,
{
}

/// A usage is in a scope where it stands in that file, or below that directory.
pub proof fn scopes_hold_what_lies_below(scope: Seq<char>, rest: Seq<char>)
    requires
        tidy_path(scope) == scope,
        tidy_path(scope + "/"@ + rest) == scope + "/"@ + rest,
    ensures
        in_scope(scope, scope),
        in_scope(scope + "/"@ + rest, scope),
{
    let path = scope + "/"@ + rest;
    assert(path =~= scope + ("/"@ + rest));
    label_begins(scope, "/"@ + rest);
    assert(path.skip(scope.len() as int) =~= "/"@ + rest);
    label_begins("/"@, rest);
}

/// The type that is told is that of the first result of the name that has one.
pub proof fn the_first_type_is_told(hits: Seq<HitView>, subject: Seq<char>, i: int, k: int)
    requires
        0 <= i <= k < hits.len(),
        tells_type(hits[k], subject),
        forall|j: int| i <= j < k ==> !tells_type(#[trigger] hits[j], subject),
    ensures
        telling_from(hits, subject, i) == Some(hits[k]),
        hits[k].signature is Some && !blank(hits[k].signature->0) && qualified_match(
            hits[k].name,
            subject,
        ),
    decreases k - i,
{
    if i < k {
        the_first_type_is_told(hits, subject, i + 1, k);
    }
}

/// An answer that names a failure is none, whatever the worker says; a tactic and a goal are
/// judged by the worker alone; and a silent answer counts only where the worker succeeded.
pub proof fn failures_are_no_answers(
    operation: Seq<char>,
    input: Seq<char>,
    worker_ok: bool,
    detail: Seq<char>,
)
    ensures
        operation == "tactic"@ || operation == "goal"@ ==> decisive(
            operation,
            input,
            worker_ok,
            detail,
        ) == (worker_ok, detail),
        operation != "tactic"@ && operation != "goal"@ && operation != "term"@ ==> {
            let r = decisive(operation, input, worker_ok, detail);
            let t = lower(detail);
            &&& r.1 == detail
            &&& has_text(t, "unknown identifier"@) || has_text(t, "failed to synthesize"@)
                || has_text(t, "type mismatch"@) || has_text(t, "declaration has metavariables"@)
                || has_text(t, "error:"@) ==> !r.0
            &&& !tells_failure(detail) && worker_ok ==> r.0
            &&& !worker_ok && blank(detail) ==> !r.0
            &&& !tells_failure(detail) && !blank(detail) ==> r.0
        },
{
}

/// The line that states a type is the first that does, and what is told of it ends before
/// the first warning behind it.
pub proof fn stated_types_end_before_warnings(list: Seq<Seq<char>>, input: Seq<char>, i: int)
    requires
        0 <= i <= list.len(),
    ensures
        match stated_from(list, input, i) {
            Some(k) => i <= k < list.len() && begins(bare_start(list[k]), input) && has_text(
                list[k],
                " : "@,
            ) && forall|j: int| i <= j < k ==> !states_type(#[trigger] list[j], input),
            None => forall|j: int| i <= j < list.len() ==> !states_type(#[trigger] list[j], input),
        },
        i <= warned_from(list, i) <= list.len(),
        warned_from(list, i) < list.len() ==> begins(
            bare_start(list[warned_from(list, i)]),
            "warning:"@,
        ),
        forall|j: int|
            i <= j < warned_from(list, i) ==> !begins(bare_start(#[trigger] list[j]), "warning:"@),
    decreases list.len() - i,
{
    if i < list.len() {
        stated_types_end_before_warnings(list, input, i + 1);
    }
}

/// What surrounds a declaration ends with the first blank line; a source without such a
/// beginning has none.
pub proof fn surroundings_end_at_the_first_blank_line(list: Seq<Seq<char>>, i: int)
    requires
        0 <= i <= list.len(),
    ensures
        match blank_from(list, i) {
            Some(k) => i <= k < list.len() && blank(list[k]) && forall|j: int|
                i <= j < k ==> !blank(#[trigger] list[j]),
            None => forall|j: int| i <= j < list.len() ==> !blank(#[trigger] list[j]),
        },
    decreases list.len() - i,
{
    if i < list.len() && !blank(list[i]) {
        surroundings_end_at_the_first_blank_line(list, i + 1);
    }
}

/// A declaration that does not begin with what surrounds it has no lines before it.
pub proof fn plain_sources_have_no_surroundings(source: Seq<char>)
    requires
        !begins(source, "-- ambient context"@),
    ensures
        ambient_lines(source) == 0,
{
}

/// Just the lines that hold a term are shown, in order, those before the declaration marked
/// as such.
pub proof fn lines_with_the_term_are_shown(
    list: Seq<Seq<char>>,
    header: nat,
    line: u64,
    term: Seq<char>,
    n: nat,
)
    requires
        n < list.len(),
    ensures
        ({
            let before = term_lines(list, header, line, term, n);
            let then = term_lines(list, header, line, term, n + 1);
            &&& !has_text(list[n as int], term) ==> then == before
            &&& has_text(list[n as int], term) ==> then.len() == before.len() + 1 && then.drop_last()
                == before
            &&& has_text(list[n as int], term) && n < header ==> begins(then.last(), "ambient: "@)
            &&& has_text(list[n as int], term) && n >= header && line + (n - header) <= u64::MAX
                ==> begins(
                then.last(),
                crate::text::number::right_aligned(decimal((line + (n - header)) as nat), 5) + "  "@,
            )
        }),
{
    let before = term_lines(list, header, line, term, n);
    let then = term_lines(list, header, line, term, n + 1);
    if has_text(list[n as int], term) {
        assert(then.drop_last() =~= before);
        if n < header {
            label_begins(
                "ambient: "@,
                crate::text::layout::shortened(list[n as int], 180),
            );
        } else if line + (n - header) <= u64::MAX {
            label_begins(
                crate::text::number::right_aligned(decimal((line + (n - header)) as nat), 5)
                    + "  "@,
                crate::text::layout::shortened(list[n as int], 180),
            );
        }
    }
}

/// Twelve lines with a term are shown at most, and the others are counted; where there is
/// none this is said.
pub proof fn at_most_twelve_lines_are_shown(
    source: Seq<char>,
    line: u64,
    term: Seq<char>,
    reference: Seq<char>,
)
    ensures
        ({
            let found = term_lines(
                line_list(source),
                ambient_lines(source),
                line,
                term,
                line_list(source).len(),
            );
            let told = found_in_source(source, line, term, reference);
            &&& found.len() == 0 ==> told == "No literal matches in the available source snapshot."@
            &&& 0 < found.len() <= 12 ==> told == joined(found, "\n"@)
            &&& found.len() > 12 ==> begins(told, joined(found.take(12), "\n"@)) && ends(
                told,
                " --all"@,
            ) && has_text(told, "\n… "@ + decimal((found.len() - 12) as nat))
        }),
{
    let found = term_lines(
        line_list(source),
        ambient_lines(source),
        line,
        term,
        line_list(source).len(),
    );
    if found.len() > 12 {
        let told = found_in_source(source, line, term, reference);
        let head = joined(found.take(12), "\n"@);
        let count = "\n… "@ + decimal((found.len() - 12) as nat);
        let tail = " matching lines not shown; full source: mathmux show "@ + reference + " --all"@;
        assert(told =~= head + count + tail);
        label_begins(head, count + tail);
        assert(told =~= head + (count + tail));
        crate::text::scan::found_between(head, count, tail);
        let last = " --all"@;
        assert(told =~= (head + count + " matching lines not shown; full source: mathmux show "@
            + reference) + last);
        part_ends(
            head + count + " matching lines not shown; full source: mathmux show "@ + reference,
            last,
        );
    }
}

/// A probe of a name searches for the name itself for its signature and its usages, for its
/// source, its fields or its constructor, and for the names that it begins for its
/// extensionality and simplification rules.
pub proof fn focuses_search_for_their_subject(subject: Seq<char>, context: ContextView)
    requires
        !begins(canonical(subject), "type:"@),
    ensures
        ({
            let name = canonical(subject);
            &&& probe_search(None, subject, None) == Ok::<Seq<char>, Seq<char>>(name)
            &&& probe_search(None, subject, Some("usages"@)) == Ok::<Seq<char>, Seq<char>>(name)
            &&& probe_search(None, subject, Some("source"@)) == Ok::<Seq<char>, Seq<char>>(
                name + " source"@,
            )
            &&& probe_search(None, subject, Some("fields"@)) == Ok::<Seq<char>, Seq<char>>(
                name + " fields"@,
            )
            &&& probe_search(None, subject, Some("ext"@)) == Ok::<Seq<char>, Seq<char>>(
                "declaration "@ + name + ".ext*|"@ + name + "_ext*"@,
            )
            &&& probe_search(None, subject, Some("simp"@)) == Ok::<Seq<char>, Seq<char>>(
                "declaration "@ + name + "*"@,
            )
            &&& probe_search(None, subject, Some("types"@)) is Err
            &&& probe_search(Some(context), subject, Some("source"@)) is Err
        }),
{
    reveal_strlit("signature");
    reveal_strlit("usages");
    reveal_strlit("source");
    reveal_strlit("outline");
    reveal_strlit("fields");
    reveal_strlit("constructors");
    reveal_strlit("ext");
    reveal_strlit("simp");
    reveal_strlit("apply");
    reveal_strlit("types");
    reveal_strlit("find:");
    assert("source"@[0] == 's' && "usages"@[0] == 'u' && "fields"@[0] == 'f' && "fields"@[3]
        == 'l' && "apply"@[0] == 'a' && "types"@[0] == 't');
    assert("find:"@[3] == 'd');
    if begins("fields"@, "find:"@) {
        assert("fields"@.take(5)[3] == 'l');
    }
    if begins("ext"@, "find:"@) {
    }
    if begins("simp"@, "find:"@) {
    }
    if begins("types"@, "find:"@) {
        assert("types"@.take(5)[0] == 't');
    }
    assert("signature"@.len() == 9 && "ext"@.len() == 3 && "simp"@.len() == 4 && "constructors"@.len()
        == 12 && "outline"@.len() == 7 && "source"@.len() == 6 && "usages"@.len() == 6
        && "fields"@.len() == 6 && "types"@.len() == 5 && "apply"@.len() == 5);
}

/// The reference of a summary is the last that a line of it gives.
pub proof fn the_last_reference_counts(list: Seq<Seq<char>>, n: nat)
    requires
        n <= list.len(),
    ensures
        match last_reference(list, n) {
            Some(r) => exists|k: int|
                0 <= k < n && reference_on(#[trigger] list[k]) == Some(r) && forall|j: int|
                    k < j < n ==> reference_on(#[trigger] list[j]) is None,
            None => forall|j: int| 0 <= j < n ==> reference_on(#[trigger] list[j]) is None,
        },
    decreases n,
{
    if n > 0 {
        let m = (n - 1) as nat;
        if reference_on(list[n - 1]) is None {
            the_last_reference_counts(list, m);
            if let Some(r) = last_reference(list, m) {
                let k = choose|k: int|
                    0 <= k < m && reference_on(#[trigger] list[k]) == Some(r) && forall|j: int|
                        k < j < m ==> reference_on(#[trigger] list[j]) is None;
                assert(reference_on(list[k]) == Some(r));
            }
        } else {
            assert(reference_on(list[n - 1]) == last_reference(list, n));
        }
    }
}

/// The goal of a failure is told with its context where it has one.
pub proof fn goals_are_told_with_their_context(diagnostic: Seq<char>, context: Seq<char>)
    requires
        !blank(context),
    ensures
        ends(stored_goal(diagnostic, Some(context)), context),
{
    let primary = match crate::search::diagnostics::goal_detail(diagnostic) {
        Some(g) => g,
        None => "primary diagnostic\n"@ + crate::search::diagnostics::message_context(
            diagnostic,
            None,
        ),
    };
    if blank(primary) {
        assert(context.skip(0) =~= context);
    } else {
        part_ends(primary + "\n"@, context);
    }
}

/// Just the results whose source marks them as simplification rules are such rules.
pub proof fn simplification_rules_are_marked(hits: Seq<HitView>, h: HitView)
    ensures
        simp_hits(hits).contains(h) <==> hits.contains(h) && h.source is Some && has_text(
            h.source->0,
            "@[simp"@,
        ),
    decreases hits.len(),
{
    if hits.len() > 0 {
        let shorter = hits.drop_last();
        simplification_rules_are_marked(shorter, h);
        assert(hits =~= shorter.push(hits.last()));
        pushed_holds(shorter, hits.last(), h);
        pushed_holds(simp_hits(shorter), hits.last(), h);
    }
}

/// A signature and usages are shown of every result and without its text; a source is shown
/// of the first result alone, without its usages.
pub proof fn focuses_show_their_part(run: RunView, i: int)
    requires
        0 <= i < run.hits.len(),
    ensures
        ({
            let signed = seen_through(run, "signature"@);
            let used = seen_through(run, "usages"@);
            let source = seen_through(run, "source"@);
            &&& signed.inference == "signature"@ && signed.hits.len() == run.hits.len()
            &&& signed.hits[i].name == run.hits[i].name && signed.hits[i].source is None
            &&& !long_signature(run.hits[i]) ==> signed.hits[i].signature == run.hits[i].signature
            &&& used.inference == "usages"@ && used.hits.len() == run.hits.len()
            &&& used.hits[i].usages == run.hits[i].usages && used.hits[i].source is None
            &&& source.hits.len() == 1 && source.hits[0].source == run.hits[0].source
                && source.hits[0].usages.len() == 0 && source.hits[0].name == run.hits[0].name
            &&& run.inference == "probe-source"@ ==> source.inference == "probe-source"@
            &&& run.inference != "probe-source"@ ==> source.inference == "probe-source-excerpt"@
        }),
{
    reveal_strlit("signature");
    reveal_strlit("usages");
    reveal_strlit("source");
    reveal_strlit("constructors");
    reveal_strlit("apply");
    reveal_strlit("outline");
    reveal_strlit("ext");
    reveal_strlit("simp");
    reveal_strlit("find:");
    assert("usages"@[0] == 'u' && "source"@[0] == 's');
    if begins("usages"@, "find:"@) {
        assert("usages"@.take(5)[0] == 'u');
    }
    assert("find:"@[0] == 'f');
    assert("signature"@.len() == 9 && "ext"@.len() == 3 && "simp"@.len() == 4 && "constructors"@.len()
        == 12 && "outline"@.len() == 7 && "source"@.len() == 6 && "usages"@.len() == 6
        && "apply"@.len() == 5);
}

/// That an index is being built is not told where it takes nothing from what is shown, and
/// is told otherwise; no other note is ever dropped.
pub proof fn only_idle_notes_are_dropped(run: RunView, focus: Seq<char>)
    ensures
        ({
            let idle = run.note == Some("search indexes warming"@) || run.note == Some(
                "source index warming"@,
            );
            let unaffected = focus == "signature"@ || focus == "source"@ || focus == "outline"@
                || focus == "ext"@;
            &&& idle && unaffected ==> settled(run, focus).note is None
            &&& !(idle && unaffected) ==> settled(run, focus) == run
            &&& settled(run, focus).hits == run.hits
        }),
{
}

/// What was not found is noted only where nothing was found and nothing is being built.
pub proof fn misses_are_noted(note: Option<Seq<char>>, hits: Seq<HitView>, miss: Seq<char>)
    ensures
        hits.len() > 0 ==> note_or(note, hits, miss) == note,
        hits.len() == 0 && (note is None || !has_text(note->0, "warming"@)) ==> note_or(
            note,
            hits,
            miss,
        ) == Some(miss),
        note is Some && has_text(note->0, "warming"@) ==> note_or(note, hits, miss) == note,
{
}

} // verus!
