//! What requests ask for, and what is told of warnings, on every input.
use crate::search::api::{search_request, ExpressionView, SearchRequestView};
use crate::search::plan::{search_plan, PlanView};
use crate::search::records::{DiagnosticView, HitView, RunView};
use crate::search::request::{
    context_of, directive_argument, directive_of, focus_word, line_range, probe_request, query_hit,
    ContextView, DirectiveView,
};
use crate::search::triage::{
    by_risk, check_refusal, dependency_part, query_reference, residual_of,
    risks_are_listed_in_order, triage_note, warning_answer, warning_entry, warning_index,
    ResidualView, WarnedFileView, WarningProbeView,
};
use crate::search::tree::TreeView;
use crate::search::warning::{
    declared_at, declared_before, dossier, lesser, marked_lines, path_reported, source_around,
    telling_text, warning_kind, EnclosingView, WarningView,
};
use crate::text::chain::{
    chain, chain_pair, chain_push, chain_tells, cut_at_mark, label_begins, no_mark_no_cut,
    numbers_hold_digits, part_ends, pushed_holds, rcut_at_mark,
};
use crate::text::class::Class;
use crate::text::make::lower;
use crate::text::number::{decimal, decimal_digits, decimal_reads_back, padded};
use crate::text::pieces::{line_list, words};
use crate::text::scan::{bare, begins, ends, found_between, found_in_part, has_text, sans_prefixes};
use vstd::prelude::*;

verus! {

/// A search that is accepted asks for something, with a limit between one and two hundred
/// where it has one; and it keeps its text without white space around it, its limit, and
/// whether everything is asked for.
pub proof fn accepted_searches_are_bounded(query: Seq<char>, limit: Option<usize>, all: bool)
    ensures
        search_request(query, limit, all) matches Ok(r) ==> {
            &&& bare(query).len() > 0
            &&& limit is Some ==> 1 <= limit->0 <= 200
            &&& r.displayed_query == bare(query) && r.limit == limit && r.all == all
        },
        bare(query).len() == 0 ==> search_request(query, limit, all) == Err::<
            SearchRequestView,
            Seq<char>,
        >("search query is empty"@),
        bare(query).len() > 0 && limit is Some && (limit->0 == 0 || limit->0 > 200)
            ==> search_request(query, limit, all) == Err::<SearchRequestView, Seq<char>>(
            "--limit must be between 1 and 200"@,
        ),
{
}

/// The form of a search is told by its prefix: exact names by `name:`, a type by `type:`,
/// which is balanced and not empty, a regular expression between slashes by `re:`, and
/// plain words, which are balanced, without any.
pub proof fn prefixes_tell_the_form(query: Seq<char>, limit: Option<usize>, all: bool)
    requires
        search_request(query, limit, all) is Ok,
    ensures
        ({
            let text = bare(query);
            let found = search_request(query, limit, all)->Ok_0.expression;
            &&& begins(text, "name:"@) ==> found is ExactNames
            &&& begins(text, "type:"@) ==> found == ExpressionView::Type(
                bare(text.skip("type:"@.len() as int)),
            ) && bare(text.skip("type:"@.len() as int)).len() > 0
            &&& begins(text, "re:"@) ==> (found matches ExpressionView::Regex(regex) && begins(
                regex,
                "/"@,
            ) && ends(regex, "/"@))
            &&& !begins(text, "name:"@) && !begins(text, "type:"@) && !begins(text, "re:"@) && !(
            words(text).len() >= 2 && begins(words(text)[1], "re:"@)) ==> found
                == ExpressionView::Query(text)
        }),
{
    let text = bare(query);
    reveal_strlit("name:");
    reveal_strlit("type:");
    reveal_strlit("re:");
    if begins(text, "type:"@) {
        assert(text.take(5)[0] == 't');
        if begins(text, "name:"@) {
            assert(text.take(5)[0] == 'n');
        }
    }
    if begins(text, "re:"@) {
        assert(text.take(3)[0] == 'r');
        if begins(text, "name:"@) {
            assert(text.take(5)[0] == 'n');
        }
        if begins(text, "type:"@) {
            assert(text.take(5)[0] == 't');
        }
    }
}

/// A search goes on from an earlier one only without words of its own; a place in a file
/// comes before every other reading.
pub proof fn the_most_particular_reading_counts(
    tree: TreeView,
    main: Option<TreeView>,
    query: Seq<char>,
    has_context: bool,
)
    ensures
        search_plan(tree, main, query, has_context) matches Ok((text, plan)) ==> {
            let place = crate::search::locations::location_request(tree, main, query);
            &&& text == bare(query)
            &&& plan is StoredContext <==> text.len() == 0
            &&& plan is StoredContext ==> has_context
            &&& text.len() > 0 ==> (plan is Location <==> place is Ok && place->Ok_0 is Some)
            &&& plan matches PlanView::Location(at) ==> place->Ok_0 == Some(at)
        },
{
}

/// A probe that is accepted has a context or a subject; a directive comes alone in a
/// context; and the context is that of the first word.
pub proof fn probes_ask_for_something(query: Seq<char>)
    ensures
        probe_request(query) matches Ok(q) ==> {
            let text = bare(crate::search::request::facets_detached(bare(query)));
            &&& q.context is Some || q.subject is Some
            &&& q.context == context_of(words(text)[0])
            &&& q.directive is Some ==> q.context is Some && q.subject is None && q.focus is None
            &&& q.focus matches Some(word) ==> focus_word(word) || begins(word, "find:"@)
        },
{
    assert forall|rest: Seq<char>| #[trigger] begins("find:"@ + rest, "find:"@) by {
        label_begins("find:"@, rest);
    }
}

proof fn prefix_differs(text: Seq<char>, prefix: Seq<char>, i: int)
    requires
        0 <= i < prefix.len(),
        i < text.len(),
        text[i] != prefix[i],
    ensures
        directive_argument(text, prefix) == Ok::<Option<Seq<char>>, Seq<char>>(None),
{
    if begins(text, prefix) {
        assert(text.take(prefix.len() as int)[i] == prefix[i]);
    }
}

proof fn argument_follows(prefix: Seq<char>, body: Seq<char>)
    requires
        bare(body).len() > 0,
    ensures
        directive_argument(prefix + " "@ + body, prefix) == Ok::<Option<Seq<char>>, Seq<char>>(
            Some(bare(body)),
        ),
{
    reveal_strlit(" ");
    let text = prefix + " "@ + body;
    assert(text.take(prefix.len() as int) =~= prefix);
    let rest = text.skip(prefix.len() as int);
    assert(rest =~= " "@ + body);
    assert(rest[0] == ' ');
    assert(rest.skip(1) =~= body);
}

/// Every directive is known by its word, and takes the rest as its argument; without an
/// argument it is refused.
pub proof fn directives_are_known_by_their_word(body: Seq<char>)
    requires
        bare(body).len() > 0,
    ensures
        directive_of("#check"@ + " "@ + body) == Ok::<Option<DirectiveView>, Seq<char>>(
            Some(DirectiveView::Check(bare(body))),
        ),
        directive_of("#synth"@ + " "@ + body) == Ok::<Option<DirectiveView>, Seq<char>>(
            Some(DirectiveView::Synth(bare(body))),
        ),
        directive_of("#reduce"@ + " "@ + body) == Ok::<Option<DirectiveView>, Seq<char>>(
            Some(DirectiveView::Reduce(bare(body))),
        ),
        directive_of("#inspect"@ + " "@ + body) == Ok::<Option<DirectiveView>, Seq<char>>(
            Some(DirectiveView::Inspect(bare(body))),
        ),
        directive_of("#apply"@ + " "@ + body) == Ok::<Option<DirectiveView>, Seq<char>>(
            Some(DirectiveView::Apply(bare(body))),
        ),
        directive_of("by"@ + " "@ + body) == Ok::<Option<DirectiveView>, Seq<char>>(
            Some(DirectiveView::Tactic(bare(body))),
        ),
        directive_of("#check"@) is Err,
        directive_of("#synth"@) is Err,
        directive_of("#reduce"@) is Err,
        directive_of("#inspect"@) is Err,
        directive_of("#apply"@) is Err,
        directive_of("by"@) is Err,
{
    reveal_strlit("#check");
    reveal_strlit("#synth");
    reveal_strlit("#reduce");
    reveal_strlit("#inspect");
    reveal_strlit("#apply");
    reveal_strlit("by");
    let synth = "#synth"@ + " "@ + body;
    let reduce = "#reduce"@ + " "@ + body;
    let inspect = "#inspect"@ + " "@ + body;
    let apply = "#apply"@ + " "@ + body;
    let by_ = "by"@ + " "@ + body;
    argument_follows("#check"@, body);
    argument_follows("#synth"@, body);
    argument_follows("#reduce"@, body);
    argument_follows("#inspect"@, body);
    argument_follows("#apply"@, body);
    argument_follows("by"@, body);
    prefix_differs(synth, "#check"@, 1);
    prefix_differs("#synth"@, "#check"@, 1);
    prefix_differs(reduce, "#check"@, 1);
    prefix_differs(reduce, "#synth"@, 1);
    prefix_differs("#reduce"@, "#check"@, 1);
    prefix_differs("#reduce"@, "#synth"@, 1);
    prefix_differs(inspect, "#check"@, 1);
    prefix_differs(inspect, "#synth"@, 1);
    prefix_differs(inspect, "#reduce"@, 1);
    prefix_differs("#inspect"@, "#check"@, 1);
    prefix_differs("#inspect"@, "#synth"@, 1);
    prefix_differs("#inspect"@, "#reduce"@, 1);
    prefix_differs(apply, "#check"@, 1);
    prefix_differs(apply, "#synth"@, 1);
    prefix_differs(apply, "#reduce"@, 1);
    prefix_differs(apply, "#inspect"@, 1);
    prefix_differs("#apply"@, "#check"@, 1);
    prefix_differs("#apply"@, "#synth"@, 1);
    prefix_differs("#apply"@, "#reduce"@, 1);
    prefix_differs("#apply"@, "#inspect"@, 1);
    prefix_differs(by_, "#check"@, 0);
    prefix_differs(by_, "#synth"@, 0);
    prefix_differs(by_, "#reduce"@, 0);
    prefix_differs(by_, "#inspect"@, 0);
    prefix_differs(by_, "#apply"@, 0);
    prefix_differs("by"@, "#check"@, 0);
    prefix_differs("by"@, "#synth"@, 0);
    prefix_differs("by"@, "#reduce"@, 0);
    prefix_differs("by"@, "#inspect"@, 0);
    prefix_differs("by"@, "#apply"@, 0);
}

/// A range of lines is read as it is written, where it begins at one or later and does
/// not end before it begins; any other is none.
pub proof fn ranges_read_back(first: u64, last: u64)
    ensures
        0 < first <= last ==> line_range(decimal(first as nat) + "-"@ + decimal(last as nat))
            == Some((first, last)),
        first == 0 || first > last ==> line_range(
            decimal(first as nat) + "-"@ + decimal(last as nat),
        ) is None,
{
    reveal_strlit("-");
    numbers_hold_digits(first as nat, '-');
    cut_at_mark(decimal(first as nat), "-"@, decimal(last as nat));
    decimal_reads_back(first as nat, u64::MAX as nat);
    decimal_reads_back(last as nat, u64::MAX as nat);
}

proof fn numbered_reference(kind: char, n: nat)
    ensures
        crate::reference::well_formed_reference(seq![kind] + decimal(n)),
{
    decimal_digits(n);
    let text = seq![kind] + decimal(n);
    assert(text.skip(1) =~= decimal(n));
}

/// A result of a stored query is read as it is written: results are counted from one, and
/// a query alone stands for its first.
pub proof fn results_read_back(n: nat, k: usize)
    ensures
        query_hit(seq!['q'] + decimal(n)) == Some((seq!['q'] + decimal(n), 0usize)),
        k > 0 ==> query_hit(seq!['q'] + decimal(n) + "#"@ + decimal(k as nat)) == Some(
            (seq!['q'] + decimal(n), (k - 1) as usize),
        ),
        query_hit(seq!['q'] + decimal(n) + "#"@ + decimal(0)) is None,
{
    reveal_strlit("#");
    let text = seq!['q'] + decimal(n);
    numbered_reference('q', n);
    numbers_hold_digits(n, '#');
    if text.contains('#') {
        let i = text.index_of('#');
        assert(i > 0);
        assert(decimal(n)[i - 1] == '#');
        assert(decimal(n).contains('#'));
    }
    no_mark_no_cut(text, "#"@);
    cut_at_mark(text, "#"@, decimal(k as nat));
    cut_at_mark(text, "#"@, decimal(0));
    decimal_reads_back(k as nat, usize::MAX as nat);
    decimal_reads_back(0, usize::MAX as nat);
}

/// The reference of a check is its context, and so is that of a query with one of its
/// results; a file with a line is a position.
pub proof fn contexts_are_read(n: nat, k: usize, path: Seq<char>, line: u64)
    requires
        k > 0,
        path.len() > 0,
        !path.contains('#'),
    ensures
        context_of(seq!['c'] + decimal(n)) == Some(ContextView::Check(seq!['c'] + decimal(n))),
        context_of(seq!['q'] + decimal(n) + "#"@ + decimal(k as nat)) == Some(
            ContextView::Query(seq!['q'] + decimal(n), (k - 1) as usize),
        ),
        context_of(path + ":"@ + decimal(line as nat)) == Some(
            ContextView::Position(path + ":"@ + decimal(line as nat)),
        ),
{
    reveal_strlit(":");
    reveal_strlit("#");
    numbered_reference('c', n);
    results_read_back(n, k);
    let hit = seq!['q'] + decimal(n) + "#"@ + decimal(k as nat);
    assert(hit[0] == 'q');
    let at = path + ":"@ + decimal(line as nat);
    numbers_hold_digits(line as nat, ':');
    numbers_hold_digits(line as nat, '#');
    rcut_at_mark(path, ":"@, decimal(line as nat));
    decimal_reads_back(line as nat, u64::MAX as nat);
    let i = path.len() as int;
    assert(at[i] == ':');
    if crate::reference::well_formed_reference(at) {
        assert(at.skip(1)[i - 1] == ':');
        assert(Class::Digit.has(at.skip(1)[i - 1]));
    }
    if at.contains('#') {
        let j = at.index_of('#');
        if j < i {
            assert(path[j] == '#');
        } else if j > i {
            assert(decimal(line as nat)[j - i - 1] == '#');
            assert(decimal(line as nat).contains('#'));
        }
    }
    no_mark_no_cut(at, "#"@);
}

/// A warning is left to automation just where it is about an unused argument of `simp`,
/// an unnecessary `simpa`, or a local instance of a proposition. Every other one is put
/// before a person: of high risk where it is about a binder that may be part of an
/// interface, about instances or about the design of a declaration, and of low risk only
/// where it is about a step of a proof.
pub proof fn risks_follow_what_is_warned_of(text: Seq<char>)
    ensures
        ({
            let says = |word: Seq<char>| has_text(lower(text), word);
            let kind = warning_kind(text);
            let automatic = (says("unused"@) && says("simp"@) && says("argument"@)) || (says(
                "unnecessary"@,
            ) && says("simpa"@)) || ((says("havei"@) || says("leti"@)) && (says("have"@) || says(
                "let"@,
            )));
            let grave = says("automatically included section variable"@) || says(
                "unused variable"@,
            ) || says("unused argument"@) || (says("duplicate"@) && says("instance"@)) || says(
                "reducib"@,
            ) || (says("class"@) && says("should be"@));
            let local = says("seqfocus"@) || says("seq_focus"@) || says("no-op"@) || says(
                "unused tactic"@,
            ) || says("unnecessary 'change'"@) || says("unnecessary `change`"@);
            &&& kind.mechanical <==> automatic
            &&& automatic ==> kind.risk == "mechanical"@
            &&& !automatic && grave ==> kind.risk == "high"@
            &&& !automatic && !grave && says("deprecated"@) ==> kind.risk == "medium"@
            &&& !automatic && !grave && !says("deprecated"@) && local ==> kind.risk == "low"@
            &&& !automatic && !grave && !says("deprecated"@) && !local ==> kind.risk == "medium"@
        }),
{
}

/// What a warning is called follows what it says, in this order.
pub proof fn warnings_are_called_by_what_they_say(text: Seq<char>)
    ensures
        ({
            let says = |word: Seq<char>| has_text(lower(text), word);
            let kind = warning_kind(text);
            &&& kind.category == "deprecation"@ ==> says("deprecated"@)
            &&& kind.category == "duplicate instance"@ ==> says("duplicate"@) && says("instance"@)
            &&& kind.category == "unused binder"@ ==> says("unused variable"@) || says(
                "unused argument"@,
            )
            &&& kind.category == "implicit section variable"@ ==> says(
                "automatically included section variable"@,
            )
            &&& !kind.mechanical && says("automatically included section variable"@)
                ==> kind.category == "implicit section variable"@
        }),
{
    reveal_strlit("deprecation");
    reveal_strlit("duplicate instance");
    reveal_strlit("unused binder");
    reveal_strlit("implicit section variable");
    reveal_strlit("unused simp argument");
    reveal_strlit("unnecessary simpa");
    reveal_strlit("Prop-only local instance");
    reveal_strlit("declaration design");
    reveal_strlit("local tactic cleanup");
    reveal_strlit("warning requiring judgment");
    assert("deprecation"@[2] == 'p' && "declaration design"@[2] == 'c');
    assert("unused binder"@[7] == 'b' && "unused simp argument"@[7] == 's');
    assert("unnecessary simpa"@[2] == 'n' && "unused binder"@[2] == 'u');
    assert("duplicate instance"@[0] == 'd' && "duplicate instance"@[1] == 'u');
    assert("deprecation"@[1] == 'e' && "declaration design"@[1] == 'e');
    assert("Prop-only local instance"@[0] == 'P' && "local tactic cleanup"@[0] == 'l');
    assert("warning requiring judgment"@[0] == 'w' && "implicit section variable"@[0] == 'i');
    assert("unused binder"@[0] == 'u' && "unused simp argument"@[0] == 'u' && "unnecessary simpa"@[0]
        == 'u');
    assert("deprecation"@[0] == 'd' && "declaration design"@[0] == 'd');
}

/// Warnings are listed with those of low risk first, then those of medium risk, and then
/// the others.
pub proof fn low_risks_are_listed_first(list: Seq<ResidualView>, i: int, j: int)
    requires
        0 <= i < j < list.len(),
    ensures
        by_risk(list)[j].kind.risk == "low"@ ==> by_risk(list)[i].kind.risk == "low"@,
        by_risk(list)[j].kind.risk == "medium"@ ==> by_risk(list)[i].kind.risk == "low"@ || by_risk(
            list,
        )[i].kind.risk == "medium"@,
        by_risk(list)[i].kind.risk == "high"@ ==> by_risk(list)[j].kind.risk != "low"@ && by_risk(
            list,
        )[j].kind.risk != "medium"@,
{
    risks_are_listed_in_order(list, i, j);
    reveal_strlit("low");
    reveal_strlit("medium");
    reveal_strlit("high");
    assert("low"@[0] == 'l' && "medium"@[0] == 'm' && "high"@[0] == 'h');
}

/// Every warning that concerns a file and is not left to automation is put before a
/// person, at its place, and no other is.
pub proof fn warnings_are_put_before_a_person(
    list: Seq<DiagnosticView>,
    places: Seq<(Option<Seq<char>>, u64, u64)>,
    target: Seq<char>,
    n: nat,
    w: ResidualView,
)
    requires
        n <= list.len(),
    ensures
        residual_of(list, places, target, n).contains(w) <==> exists|i: int|
            0 <= i < n && w.diagnostic == #[trigger] list[i] && w.kind == warning_kind(list[i].text)
                && !w.kind.mechanical && (places[i].0 is None || path_reported(
                places[i].0->0,
                target,
            )) && w.line == (if places[i].1 < 1 {
                1
            } else {
                places[i].1
            }) && w.column == (if places[i].2 < 1 {
                1
            } else {
                places[i].2
            }),
    decreases n,
{
    if n > 0 {
        let m = (n - 1) as nat;
        let before = residual_of(list, places, target, m);
        warnings_are_put_before_a_person(list, places, target, m, w);
        let own = ResidualView {
            kind: warning_kind(list[n - 1].text),
            diagnostic: list[n - 1],
            line: crate::search::triage::from_one(places[n - 1].1),
            column: crate::search::triage::from_one(places[n - 1].2),
        };
        pushed_holds(before, own, w);
    }
}

/// What is read about a warning tells its category, its risk, the check, where it stands,
/// what it says, and how to assess it.
pub proof fn warnings_are_told_whole(
    check_ref: Seq<char>,
    path: Seq<char>,
    line: nat,
    column: nat,
    kind: WarningView,
    text: Seq<char>,
    declaration: Option<EnclosingView>,
    source: Seq<char>,
)
    ensures
        ({
            let told = dossier(check_ref, path, line, column, kind, text, declaration, source);
            &&& begins(told, "category: "@ + kind.category + "\nrisk: "@)
            &&& has_text(told, "\nrisk: "@ + kind.risk + "\ncheck: "@)
            &&& has_text(told, "\ncheck: "@ + check_ref + "\nlocation: "@)
            &&& has_text(
                told,
                "\nlocation: "@ + (path + ":"@ + decimal(line) + ":"@ + decimal(column))
                    + "\ndiagnostic:\n"@,
            )
            &&& has_text(told, "\ndiagnostic:\n"@ + telling_text(text))
            &&& declaration matches Some(d) ==> d.public ==> has_text(
                told,
                "\nenclosing declaration ("@ + "public"@ + "):\n"@ + d.header,
            )
            &&& declaration matches Some(d) ==> !d.public ==> has_text(
                told,
                "\nenclosing declaration ("@ + "local/private"@ + "):\n"@ + d.header,
            )
            &&& ends(told, "\nassessment: "@ + kind.guidance)
        }),
{
    let told = dossier(check_ref, path, line, column, kind, text, declaration, source);
    let place = path + ":"@ + decimal(line) + ":"@ + decimal(column);
    let around = match declaration {
        Some(d) => "\nenclosing declaration ("@ + (if d.public {
            "public"@
        } else {
            "local/private"@
        }) + "):\n"@ + d.header,
        None => Seq::empty(),
    };
    let p0 = seq!["category: "@ + kind.category];
    assert(p0.drop_last() =~= Seq::empty());
    assert(chain(p0) =~= "category: "@ + kind.category) by {
        reveal_with_fuel(chain, 2);
    }
    let p1 = p0.push("\nrisk: "@ + kind.risk);
    chain_pair(p0, "\nrisk: "@, kind.risk);
    let p2 = p1.push("\ncheck: "@ + check_ref);
    chain_pair(p1, "\ncheck: "@, check_ref);
    let p3 = p2.push("\nlocation: "@ + place);
    chain_pair(p2, "\nlocation: "@, place);
    assert(chain(p3) =~= chain(p2) + "\nlocation: "@ + path + ":"@ + decimal(line) + ":"@ + decimal(
        column,
    ));
    let p4 = p3.push("\ndiagnostic:\n"@ + telling_text(text));
    chain_pair(p3, "\ndiagnostic:\n"@, telling_text(text));
    let p5 = p4.push(around);
    chain_push(p4, around);
    let p6 = p5.push(source_around(source, line));
    chain_push(p5, source_around(source, line));
    let last = "\nassessment: "@ + kind.guidance;
    let p7 = p6.push(last);
    chain_pair(p6, "\nassessment: "@, kind.guidance);
    chain_push(p6, last);
    assert(told == chain(p7));
    label_begins("\nrisk: "@, kind.risk);
    label_begins("\ncheck: "@, check_ref);
    label_begins("\nlocation: "@, place);
    label_begins("\ndiagnostic:\n"@, telling_text(text));
    chain_tells(p7, 1, "\ncheck: "@);
    chain_tells(p7, 2, "\nlocation: "@);
    chain_tells(p7, 3, "\ndiagnostic:\n"@);
    assert(p7[5].take(0) =~= Seq::<char>::empty());
    chain_tells(p7, 4, Seq::empty());
    assert(p7[4] + Seq::<char>::empty() =~= p7[4]);
    assert(p7[6].take(0) =~= Seq::<char>::empty());
    chain_tells(p7, 5, Seq::empty());
    assert(p7[5] + Seq::<char>::empty() =~= p7[5]);
    part_ends(chain(p6), last);
    dossier_begins(check_ref, path, line, column, kind, text, declaration, source);
}

proof fn dossier_begins(
    check_ref: Seq<char>,
    path: Seq<char>,
    line: nat,
    column: nat,
    kind: WarningView,
    text: Seq<char>,
    declaration: Option<EnclosingView>,
    source: Seq<char>,
)
    ensures
        begins(
            dossier(check_ref, path, line, column, kind, text, declaration, source),
            "category: "@ + kind.category + "\nrisk: "@,
        ),
{
    let told = dossier(check_ref, path, line, column, kind, text, declaration, source);
    let head = "category: "@ + kind.category + "\nrisk: "@;
    assert(told.take(head.len() as int) =~= head);
}

/// The declaration around a line is the last that begins at it or before.
pub proof fn the_last_declaration_encloses(list: Seq<Seq<char>>, i: int, before: int) -> (k: int)
    requires
        0 <= i <= list.len(),
    ensures
        -1 <= k < i,
        k == -1 ==> declared_before(list, i, before) is None,
        k >= 0 ==> declared_at(list, k, before) is Some && declared_before(list, i, before)
            == declared_at(list, k, before),
        forall|j: int| k < j < i ==> #[trigger] declared_at(list, j, before) is None,
    decreases i,
{
    if i <= 0 {
        -1
    } else if declared_at(list, i - 1, before) is Some {
        i - 1
    } else {
        the_last_declaration_encloses(list, i - 1, before)
    }
}

proof fn marked_line_stands(list: Seq<Seq<char>>, current: int, from: int, to: int)
    requires
        from <= current < to <= list.len(),
        0 <= from,
    ensures
        has_text(
            marked_lines(list, current, from, to),
            "\n"@ + ">"@ + " "@ + padded((current + 1) as nat, 4) + " | "@ + list[current],
        ),
    decreases to - from,
{
    let line = "\n"@ + ">"@ + " "@ + padded((current + 1) as nat, 4) + " | "@ + list[current];
    let before = marked_lines(list, current, from, to - 1);
    let all = marked_lines(list, current, from, to);
    if to - 1 == current {
        assert(all =~= before + line);
        found_between(before, line, Seq::empty());
        assert(before + line + Seq::<char>::empty() =~= all);
    } else {
        marked_line_stands(list, current, from, to - 1);
        let last = "\n"@ + " "@ + " "@ + padded(to as nat, 4) + " | "@ + list[to - 1];
        assert(all =~= before + last);
        found_in_part(Seq::empty(), before, last, line);
        assert(Seq::<char>::empty() + before + last =~= all);
    }
}

/// The source around a warning shows its own line, marked.
pub proof fn the_line_of_a_warning_is_marked(source: Seq<char>, line: nat)
    requires
        1 <= line <= line_list(source).len(),
    ensures
        has_text(
            source_around(source, line),
            "\n"@ + ">"@ + " "@ + padded(line, 4) + " | "@ + line_list(source)[line - 1],
        ),
{
    let list = line_list(source);
    let current = line - 1;
    let start = if current < 2 {
        0
    } else {
        current - 2
    };
    let end = lesser(current + 3, list.len() as int);
    marked_line_stands(list, current, start, end);
    let body = marked_lines(list, current, start, end);
    let label = "\nsource context:"@;
    let wanted = "\n"@ + ">"@ + " "@ + padded(line, 4) + " | "@ + list[current];
    found_in_part(label, body, Seq::empty(), wanted);
    assert(label + body + Seq::<char>::empty() =~= source_around(source, line));
}

/// A file is meant by its own path, by that path from the current directory, and by any
/// longer path that ends with it.
pub proof fn files_are_meant_by_their_paths(target: Seq<char>, front: Seq<char>)
    requires
        !begins(target, "./"@),
        !begins(front + "/"@ + target, "./"@),
    ensures
        path_reported(target, target),
        path_reported("./"@ + target, target),
        path_reported(front + "/"@ + target, target),
{
    reveal_strlit("./");
    label_begins("./"@, target);
    assert(("./"@ + target).skip(2) =~= target);
    assert(sans_prefixes(target, "./"@) == target);
    assert(sans_prefixes("./"@ + target, "./"@) == sans_prefixes(target, "./"@));
    let long = front + "/"@ + target;
    assert(long =~= front + ("/"@ + target));
    part_ends(front, "/"@ + target);
}

/// The list of the warnings of a file counts those before a person and those left to
/// automation.
pub proof fn warnings_are_counted(check: Seq<char>, residual: nat, mechanical: nat)
    ensures
        residual == 0 && mechanical == 0 ==> triage_note(check, residual, mechanical)
            == "no warnings in current check "@ + check,
        residual > 0 ==> begins(
            triage_note(check, residual, mechanical),
            decimal(residual) + " residual warning(s) from "@ + check + "; "@,
        ),
        mechanical > 0 ==> has_text(
            triage_note(check, residual, mechanical),
            "; "@ + decimal(mechanical) + " mechanical warning(s) "@,
        ),
{
    let note = triage_note(check, residual, mechanical);
    reveal_strlit("; ");
    if residual > 0 {
        let head = decimal(residual) + " residual warning(s) from "@ + check + "; "@;
        reveal_strlit("; probe a listed qREF for its dossier");
        assert(note.take(head.len() as int) =~= head);
        if mechanical > 0 {
            let front = decimal(residual) + " residual warning(s) from "@ + check;
            let wanted = "; "@ + decimal(mechanical) + " mechanical warning(s) "@;
            reveal_strlit(" mechanical warning(s) ");
            reveal_strlit(
                " mechanical warning(s) omitted for Lean automation; probe a listed qREF",
            );
            let tail =
                " mechanical warning(s) omitted for Lean automation; probe a listed qREF"@.skip(
                23,
            );
            assert(note =~= front + wanted + tail);
            found_between(front, wanted, tail);
        }
    } else if mechanical > 0 {
        let front = "no residual warnings"@;
        let wanted = "; "@ + decimal(mechanical) + " mechanical warning(s) "@;
        reveal_strlit("no residual warnings");
        reveal_strlit("no residual warnings; ");
        reveal_strlit(" mechanical warning(s) ");
        reveal_strlit(" mechanical warning(s) belong to Lean automation");
        let tail = " mechanical warning(s) belong to Lean automation"@.skip(23);
        assert(note =~= front + wanted + tail);
        found_between(front, wanted, tail);
    }
}

/// Every listed warning has a reference of its own, under which its dossier and its record
/// are kept, with the file and the line where it stands.
pub proof fn listed_warnings_are_kept(
    check: Seq<char>,
    file: WarnedFileView,
    sorted: Seq<ResidualView>,
    mechanical: nat,
    last: int,
    duration_ms: u64,
    i: int,
)
    requires
        0 <= i < sorted.len(),
        0 <= last,
    ensures
        ({
            let index = warning_index(check, file, sorted, mechanical, last, duration_ms);
            let run = crate::search::triage::runs_of(check, file, sorted, last)[i];
            let record = crate::search::triage::records_of(check, file, sorted, last)[i];
            let reference = seq!['q'] + decimal((last + i + 1) as nat);
            &&& index.hits.len() == sorted.len()
            &&& index.hits[i].path == file.target && index.hits[i].line == sorted[i].line
            &&& begins(index.hits[i].name, reference + " ["@ + sorted[i].kind.risk + "] "@)
            &&& index.reference == seq!['q'] + decimal((last + sorted.len() + 1) as nat)
            &&& run.reference == reference && run.hits.len() == 1 && run.hits[0].source is Some
            &&& run.hits[0].path == file.target && run.hits[0].line == sorted[i].line
            &&& record.reference == reference && record.path == file.target && record.line
                == sorted[i].line && record.column == sorted[i].column && record.risk
                == sorted[i].kind.risk && record.source_hash == file.source_hash
                && record.diagnostic == sorted[i].diagnostic && record.check_ref == check
        }),
{
    let reference = seq!['q'] + decimal((last + i + 1) as nat);
    let head = reference + " ["@ + sorted[i].kind.risk + "] "@;
    let name = warning_entry(file, sorted[i], query_reference(last, i + 1)).name;
    assert(name.take(head.len() as int) =~= head);
}

/// The warnings of a file are only told of a current check; else what to run is said, and
/// which check is stale.
pub proof fn warnings_need_a_current_check(stale: Option<Seq<char>>, target: Seq<char>)
    ensures
        check_refusal(true, stale, target) is None,
        check_refusal(false, stale, target) matches Some(message) && has_text(
            message,
            "run `mathmux check "@ + target + "` "@,
        ),
        stale matches Some(reference) ==> begins(
            check_refusal(false, stale, target)->0,
            "latest successful check "@ + reference + " is stale because "@,
        ),
{
    let message = check_refusal(false, stale, target)->0;
    let wanted = "run `mathmux check "@ + target + "` "@;
    reveal_strlit("run `mathmux check ");
    reveal_strlit("` ");
    match stale {
        Some(reference) => {
            let label = " or its dependencies changed; run `mathmux check "@;
            reveal_strlit(" or its dependencies changed; run `mathmux check ");
            reveal_strlit("` again");
            let front = "latest successful check "@ + reference + " is stale because "@ + target
                + label.take(30);
            assert(label =~= label.take(30) + "run `mathmux check "@);
            let tail = "` again"@.skip(2);
            assert(message =~= front + wanted + tail);
            found_between(front, wanted, tail);
            let head = "latest successful check "@ + reference + " is stale because "@;
            assert(message.take(head.len() as int) =~= head);
        },
        None => {
            let label = " has no successful check; run `mathmux check "@;
            reveal_strlit(" has no successful check; run `mathmux check ");
            reveal_strlit("` first");
            let front = target + label.take(26);
            assert(label =~= label.take(26) + "run `mathmux check "@);
            let tail = "` first"@.skip(2);
            assert(message =~= front + wanted + tail);
            found_between(front, wanted, tail);
        },
    }
}

/// A warning is told only in its own workspace, of a file that has not changed, and with
/// the dossier that was kept; then it begins with that dossier and says how to verify an
/// edit.
pub proof fn kept_warnings_are_told(
    warning: WarningProbeView,
    workspace: Seq<char>,
    current_hash: Seq<char>,
    stored: Option<RunView>,
    hits: Seq<HitView>,
)
    ensures
        ({
            let answer = warning_answer(warning, workspace, current_hash, stored, hits);
            &&& answer is Ok <==> warning.workspace_ref == workspace && warning.source_hash
                == current_hash && stored is Some && stored->0.hits.len() > 0
                && stored->0.hits[0].source is Some
            &&& answer matches Ok(text) ==> begins(text, stored->0.hits[0].source->0) && ends(
                text,
                ", then run `mathmux check "@ + warning.path + "`."@,
            )
        }),
{
    if let Ok(text) = warning_answer(warning, workspace, current_hash, stored, hits) {
        let kept = stored->0.hits[0].source->0;
        assert(text.take(kept.len() as int) =~= kept);
        let tail = ", then run `mathmux check "@ + warning.path + "`."@;
        let front = kept + (match warning.subject {
            Some(subject) => dependency_part(
                subject,
                crate::search::triage::meant_usages(hits, subject, 0),
            ),
            None => Seq::empty(),
        }) + "\nVerification: edit a coherent packet in "@ + warning.path;
        assert(text =~= front + tail);
        part_ends(front, tail);
    }
}

} // verus!
