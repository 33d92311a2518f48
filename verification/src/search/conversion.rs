//! Laws that may bridge the gap between two types that Lean could not unify.
use crate::order::key_list;
use crate::search::contract::{identifier_list, identifiers, mentioned, mentions};
use crate::search::diagnostics::{
    defeq_detail, diagnostic_defeq_detail, diagnostic_type_detail, type_detail,
};
use crate::search::dossier::{
    arrange_rows, collect_phrases, index_phrases, is_type_like_name, keep_once_named, once_named,
    rows_arranged, type_like_name,
};
use crate::search::exact::codes_of;
use crate::search::rank::codes;
use crate::search::records::{
    row_views, row_views_push, IndexedRow, RowView, SearchUsage, UsageView,
};
use crate::text::class::{is_uppercase, uppercase};
use crate::text::layout::{front, shortened, truncate_line};
use crate::text::make::{
    byte_length, cat2, cat3, cat4, cat5, copy_strings, join, joined, own, prefix_all, prefix_step,
    push_str, same, strings, strings_push,
};
use crate::text::number::{decimal, show};
use crate::text::pieces::has_string;
use crate::text::scan::{
    bare, contains, cut, ends, ends_with, has_text, opt_str, opt_string, split_once, trim,
};
use vstd::prelude::*;

verus! {

broadcast use {strings_push, row_views_push};

/// A message that tells of types that do not fit.
pub open spec fn type_conflict(diagnostic: Seq<char>) -> bool {
    ||| has_text(diagnostic, "type mismatch"@)
    ||| has_text(diagnostic, "definitionally equal"@)
    ||| has_text(diagnostic, "failed to synthesize"@)
    ||| has_text(diagnostic, "Type mismatch"@)
}

/// Decides [`type_conflict`].
pub fn is_type_conflict(diagnostic: &str) -> (r: bool)
    ensures
        r == type_conflict(diagnostic@),
{
    contains(diagnostic, "type mismatch") || contains(diagnostic, "definitionally equal")
        || contains(diagnostic, "failed to synthesize") || contains(diagnostic, "Type mismatch")
}

/// The part of a message that matters.
pub open spec fn focus_of(diagnostic: Seq<char>) -> Seq<char> {
    match type_detail(diagnostic) {
        Some(text) => text,
        None => match defeq_detail(diagnostic) {
            Some(text) => text,
            None => diagnostic,
        },
    }
}

/// Computes [`focus_of`].
pub fn focus_diagnostic(diagnostic: &str) -> (r: String)
    ensures
        r@ == focus_of(diagnostic@),
{
    match diagnostic_type_detail(diagnostic) {
        Some(text) => text,
        None => match diagnostic_defeq_detail(diagnostic) {
            Some(text) => text,
            None => own(diagnostic),
        },
    }
}

/// A name of a message that is worth looking up.
pub open spec fn conflict_term(t: Seq<char>) -> bool {
    &&& type_like_name(t)
    &&& t.len() > 1
    &&& !ends(t, "lean"@)
    &&& !(t == "Type"@ || t == "Sort"@ || t == "Prop"@ || t == "Hint"@ || t == "Application"@)
}

fn is_conflict_term(t: &str) -> (r: bool)
    ensures
        r == conflict_term(t@),
{
    is_type_like_name(t) && t.unicode_len() > 1 && !ends_with(t, "lean") && !(same(t, "Type")
        || same(t, "Sort") || same(t, "Prop") || same(t, "Hint") || same(t, "Application"))
}

/// The names of a list that are worth looking up.
pub open spec fn conflict_terms(list: Seq<Seq<char>>) -> Seq<Seq<char>>
    decreases list.len(),
{
    if list.len() == 0 {
        Seq::empty()
    } else if conflict_term(list.last()) {
        conflict_terms(list.drop_last()).push(list.last())
    } else {
        conflict_terms(list.drop_last())
    }
}

/// The first six names of a message that are worth looking up.
pub open spec fn message_terms(focused: Seq<char>) -> Seq<Seq<char>> {
    front(conflict_terms(identifier_list(focused)), 6)
}

/// Computes [`message_terms`].
pub fn conversion_terms(focused: &str) -> (r: Vec<String>)
    ensures
        strings(r@) == message_terms(focused@),
{
    let list = identifiers(focused);
    let ghost views = strings(list@);
    let mut out: Vec<String> = Vec::new();
    assert(strings(out@) =~= Seq::empty());
    for i in 0..list.len()
        invariant
            views == strings(list@),
            strings(out@) == conflict_terms(views.take(i as int)),
    {
        proof {
            prefix_step(views, i as int);
        }
        assert(views[i as int] == list@[i as int]@);
        if is_conflict_term(list[i].as_str()) {
            out.push(list[i].clone());
        }
    }
    proof {
        prefix_all(views);
    }
    let ghost all = strings(out@);
    assert(all.len() == out.len());
    if out.len() > 6 {
        out.truncate(6);
        assert(strings(out@) =~= all.take(6));
    }
    out
}

/// The qualified names of a list.
pub open spec fn qualified_of(list: Seq<Seq<char>>) -> Seq<Seq<char>>
    decreases list.len(),
{
    if list.len() == 0 {
        Seq::empty()
    } else if has_text(list.last(), "."@) {
        qualified_of(list.drop_last()).push(list.last())
    } else {
        qualified_of(list.drop_last())
    }
}

fn keep_qualified(list: &Vec<String>) -> (r: Vec<String>)
    ensures
        strings(r@) == qualified_of(strings(list@)),
{
    let ghost views = strings(list@);
    let mut out: Vec<String> = Vec::new();
    assert(strings(out@) =~= Seq::empty());
    for i in 0..list.len()
        invariant
            views == strings(list@),
            strings(out@) == qualified_of(views.take(i as int)),
    {
        proof {
            prefix_step(views, i as int);
        }
        assert(views[i as int] == list@[i as int]@);
        if contains(list[i].as_str(), ".") {
            out.push(list[i].clone());
        }
    }
    proof {
        prefix_all(views);
    }
    out
}

/// The first texts of a list.
pub fn take_strings(list: &Vec<String>, n: usize) -> (r: Vec<String>)
    ensures
        strings(r@) == front(strings(list@), n as int),
{
    let ghost all = strings(list@);
    assert(all.len() == list.len());
    let mut out = copy_strings(list);
    assert(strings(out@).len() == out.len());
    if out.len() > n {
        out.truncate(n);
        assert(strings(out@) =~= all.take(n as int));
    }
    out
}

/// The functions that a message says were applied, of which the first two count.
pub open spec fn applied_names(diagnostic: Seq<char>) -> Seq<Seq<char>> {
    match cut(diagnostic, "in the application"@) {
        Some((_, application)) => front(qualified_of(identifier_list(application)), 2),
        None => Seq::empty(),
    }
}

/// Computes [`applied_names`].
pub fn applied_functions(diagnostic: &str) -> (r: Vec<String>)
    ensures
        strings(r@) == applied_names(diagnostic@),
{
    match split_once(diagnostic, "in the application") {
        Some((_, application)) => take_strings(&keep_qualified(&identifiers(application)), 2),
        None => {
            let out: Vec<String> = Vec::new();
            assert(strings(out@) =~= Seq::empty());
            out
        },
    }
}

/// A name of a signature that stands for a type.
pub open spec fn signature_term(t: Seq<char>) -> bool {
    &&& t.len() > 1
    &&& uppercase(t[0])
    &&& !(t == "Type"@ || t == "Sort"@ || t == "Prop"@)
}

/// Terms with the first `n` names of a list that stand for types, as long as there are
/// not eight.
pub open spec fn with_signature_terms(
    terms: Seq<Seq<char>>,
    names: Seq<Seq<char>>,
    i: int,
) -> Seq<Seq<char>>
    decreases names.len() - i,
{
    if i >= names.len() {
        terms
    } else if !signature_term(names[i]) {
        with_signature_terms(terms, names, i + 1)
    } else {
        let more = if terms.contains(names[i]) {
            terms
        } else {
            terms.push(names[i])
        };
        if more.len() >= 8 {
            more
        } else {
            with_signature_terms(more, names, i + 1)
        }
    }
}

/// Adds the types that the signature of an applied function names.
pub fn add_signature_terms(terms: &mut Vec<String>, signature: &str)
    ensures
        strings(final(terms)@) == with_signature_terms(
            strings(old(terms)@),
            identifier_list(signature@),
            0,
        ),
{
    let names = identifiers(signature);
    let ghost views = strings(names@);
    let ghost start = strings(terms@);
    assert(views.len() == names.len());
    for i in 0..names.len()
        invariant
            views == strings(names@),
            views.len() == names.len(),
            views == identifier_list(signature@),
            start == strings(old(terms)@),
            with_signature_terms(start, views, 0) == with_signature_terms(
                strings(terms@),
                views,
                i as int,
            ),
    {
        assert(views[i as int] == names@[i as int]@);
        let t = names[i].as_str();
        if t.unicode_len() > 1 && is_uppercase(t.get_char(0)) && !(same(t, "Type") || same(
            t,
            "Sort",
        ) || same(t, "Prop")) {
            if !has_string(terms, t) {
                terms.push(own(t));
            }
            assert(strings(terms@).len() == terms.len());
            if terms.len() >= 8 {
                return;
            }
        }
    }
}

/// The laws of application of the first three qualified terms.
pub open spec fn law_names(terms: Seq<Seq<char>>) -> Seq<Seq<char>>
    decreases terms.len(),
{
    if terms.len() == 0 {
        Seq::empty()
    } else {
        law_names(terms.drop_last()).push(terms.last() + "_apply"@).push(terms.last() + ".apply"@)
    }
}

/// The names under which laws of application are looked up.
pub fn application_laws(terms: &Vec<String>) -> (r: Vec<String>)
    ensures
        strings(r@) == law_names(front(qualified_of(strings(terms@)), 3)),
{
    let list = take_strings(&keep_qualified(terms), 3);
    let ghost views = strings(list@);
    let mut out: Vec<String> = Vec::new();
    assert(strings(out@) =~= Seq::empty());
    for i in 0..list.len()
        invariant
            views == strings(list@),
            strings(out@) == law_names(views.take(i as int)),
    {
        proof {
            prefix_step(views, i as int);
        }
        out.push(cat2(list[i].as_str(), "_apply"));
        out.push(cat2(list[i].as_str(), ".apply"));
    }
    proof {
        prefix_all(views);
    }
    out
}

/// The query of the index for laws on coercions of inverses, where a message is about
/// one.
pub open spec fn inverse_query(terms: Seq<Seq<char>>, focused: Seq<char>) -> Option<Seq<char>> {
    if terms.len() > 0 && has_text(focused, "↑"@) && has_text(focused, "⁻¹"@) {
        Some("name : (coe AND inv) AND ("@ + joined(index_phrases(terms), " OR "@) + ")"@)
    } else {
        None
    }
}

/// Computes [`inverse_query`].
pub fn coerced_inverse_query(terms: &Vec<String>, focused: &str) -> (r: Option<String>)
    ensures
        opt_string(r) == inverse_query(strings(terms@), focused@),
{
    assert(strings(terms@).len() == terms.len());
    if terms.len() > 0 && contains(focused, "↑") && contains(focused, "⁻¹") {
        let all = join(&collect_phrases(terms), " OR ");
        Some(cat3("name : (coe AND inv) AND (", all.as_str(), ")"))
    } else {
        None
    }
}

/// How many terms a signature mentions.
pub open spec fn overlap(signature: Seq<char>, terms: Seq<Seq<char>>) -> nat
    decreases terms.len(),
{
    if terms.len() == 0 {
        0
    } else {
        overlap(signature, terms.drop_last()) + if mentioned(signature, terms.last()) {
            1nat
        } else {
            0nat
        }
    }
}

fn count_overlap(signature: &str, terms: &Vec<String>) -> (r: usize)
    ensures
        r == overlap(signature@, strings(terms@)),
        r <= terms.len(),
{
    let ghost views = strings(terms@);
    let mut n: usize = 0;
    for i in 0..terms.len()
        invariant
            views == strings(terms@),
            n <= i,
            n == overlap(signature@, views.take(i as int)),
    {
        proof {
            prefix_step(views, i as int);
        }
        if mentions(signature, terms[i].as_str()) {
            n += 1;
        }
    }
    proof {
        prefix_all(views);
    }
    n
}

/// Whether a law is the law of application of some term.
pub open spec fn is_law_of(name: Seq<char>, terms: Seq<Seq<char>>) -> bool {
    exists|i: int|
        0 <= i < terms.len() && (ends(name, #[trigger] terms[i] + "_apply"@) || ends(
            name,
            terms[i] + ".apply"@,
        ))
}

fn law_of_some(name: &str, terms: &Vec<String>) -> (r: bool)
    ensures
        r == is_law_of(name@, strings(terms@)),
{
    let ghost views = strings(terms@);
    for i in 0..terms.len()
        invariant
            views == strings(terms@),
            forall|j: int|
                0 <= j < i ==> !(ends(name@, #[trigger] views[j] + "_apply"@) || ends(
                    name@,
                    views[j] + ".apply"@,
                )),
    {
        assert(views[i as int] == terms@[i as int]@);
        let first = cat2(terms[i].as_str(), "_apply");
        let second = cat2(terms[i].as_str(), ".apply");
        if ends_with(name, first.as_str()) || ends_with(name, second.as_str()) {
            assert(ends(name@, views[i as int] + "_apply"@) || ends(
                name@,
                views[i as int] + ".apply"@,
            ));
            return true;
        }
    }
    assert(views.len() == terms.len());
    false
}

/// Whether a symbol stands both in a message and in a signature.
pub open spec fn shared_symbol(focused: Seq<char>, signature: Seq<char>, symbol: Seq<char>) -> int {
    if has_text(focused, symbol) && has_text(signature, symbol) {
        1
    } else {
        0
    }
}

/// How many symbols of conversion stand both in a message and in a signature.
pub open spec fn shared_conversions(focused: Seq<char>, signature: Seq<char>) -> int {
    shared_symbol(focused, signature, "↑"@) + shared_symbol(focused, signature, "⁻¹"@)
        + shared_symbol(focused, signature, "⇑"@)
}

fn count_symbol(focused: &str, signature: &str, symbol: &str) -> (r: u64)
    ensures
        r == shared_symbol(focused@, signature@, symbol@),
{
    if contains(focused, symbol) && contains(signature, symbol) {
        1
    } else {
        0
    }
}

/// The points of a law for a message. Long signatures lose some.
pub open spec fn law_points(
    row: RowView,
    terms: Seq<Seq<char>>,
    focused: Seq<char>,
    accessible: bool,
) -> int {
    let shared = overlap(row.signature, terms);
    let gained = (if shared < 2 {
        shared as int
    } else {
        2
    }) * 2 + shared_conversions(focused, row.signature) * 4 + if is_law_of(row.name, terms) {
        12int
    } else {
        0
    };
    let length = row.signature.len() / 200;
    let lost = if length < 6 {
        length as int
    } else {
        6
    };
    (if gained < lost {
        0
    } else {
        gained - lost
    }) + if accessible {
        2int
    } else {
        0
    }
}

/// A module that the file imports.
pub open spec fn reachable(module: Seq<char>, imports: Option<Seq<Seq<char>>>) -> bool {
    imports is Some && imports->0.contains(module)
}

/// A law that is listed: a theorem with something in common with the message.
pub open spec fn law_listed(
    row: RowView,
    terms: Seq<Seq<char>>,
    focused: Seq<char>,
    imports: Option<Seq<Seq<char>>>,
) -> bool {
    &&& row.kind == "theorem"@ || row.kind == "lemma"@
    &&& overlap(row.signature, terms) > 0 || is_law_of(row.name, terms)
    &&& law_points(row, terms, focused, reachable(row.module, imports)) >= 4
}

/// The laws that are listed.
pub open spec fn laws_listed(
    rows: Seq<RowView>,
    terms: Seq<Seq<char>>,
    focused: Seq<char>,
    imports: Option<Seq<Seq<char>>>,
) -> Seq<RowView>
    decreases rows.len(),
{
    if rows.len() == 0 {
        Seq::empty()
    } else {
        let before = laws_listed(rows.drop_last(), terms, focused, imports);
        if law_listed(rows.last(), terms, focused, imports) {
            before.push(rows.last())
        } else {
            before
        }
    }
}

/// Laws are ordered by their points, the largest first, then by the length of their
/// signature, then by name.
pub open spec fn law_key(
    row: RowView,
    terms: Seq<Seq<char>>,
    focused: Seq<char>,
    imports: Option<Seq<Seq<char>>>,
) -> Seq<u64> {
    seq![
        (1000 - law_points(row, terms, focused, reachable(row.module, imports))) as u64,
        byte_length(row.signature) as u64,
    ] + codes(row.name)
}

/// The laws that may bridge a gap, the best first, each name once.
pub open spec fn best_laws(
    rows: Seq<RowView>,
    terms: Seq<Seq<char>>,
    focused: Seq<char>,
    imports: Option<Seq<Seq<char>>>,
) -> Seq<RowView> {
    let list = laws_listed(rows, terms, focused, imports);
    once_named(
        rows_arranged(list, list.map_values(|row: RowView| law_key(row, terms, focused, imports))),
    )
}

/// The contents of an optional list.
pub open spec fn opt_list(list: Option<&Vec<String>>) -> Option<Seq<Seq<char>>> {
    match list {
        Some(l) => Some(strings(l@)),
        None => None,
    }
}

fn is_reachable(module: &str, imports: Option<&Vec<String>>) -> (r: bool)
    ensures
        r == reachable(module@, opt_list(imports)),
{
    match imports {
        Some(list) => has_string(list, module),
        None => false,
    }
}

fn points_of_law(row: &IndexedRow, terms: &Vec<String>, focused: &str, accessible: bool) -> (r: u64)
    ensures
        r == law_points(row@, strings(terms@), focused@, accessible),
        r <= 30,
{
    let signature = row.signature.as_str();
    let shared = count_overlap(signature, terms);
    let mut gained: u64 = if shared < 2 {
        shared as u64
    } else {
        2
    };
    gained = gained * 2;
    let symbols = count_symbol(focused, signature, "↑") + count_symbol(focused, signature, "⁻¹")
        + count_symbol(focused, signature, "⇑");
    gained = gained + symbols * 4;
    if law_of_some(row.name.as_str(), terms) {
        gained = gained + 12;
    }
    let length = signature.unicode_len() / 200;
    let lost: u64 = if length < 6 {
        length as u64
    } else {
        6
    };
    let left = if gained < lost {
        0
    } else {
        gained - lost
    };
    if accessible {
        left + 2
    } else {
        left
    }
}

fn is_law_listed(row: &IndexedRow, terms: &Vec<String>, focused: &str, imports: Option<&Vec<String>>) -> (r:
    bool)
    ensures
        r == law_listed(row@, strings(terms@), focused@, opt_list(imports)),
{
    (same(row.kind.as_str(), "theorem") || same(row.kind.as_str(), "lemma")) && (count_overlap(
        row.signature.as_str(),
        terms,
    ) > 0 || law_of_some(row.name.as_str(), terms)) && points_of_law(
        row,
        terms,
        focused,
        is_reachable(row.module.as_str(), imports),
    ) >= 4
}

/// Computes [`best_laws`].
pub fn rank_laws(
    rows: &Vec<IndexedRow>,
    terms: &Vec<String>,
    focused: &str,
    imports: Option<&Vec<String>>,
) -> (r: Vec<IndexedRow>)
    ensures
        row_views(r@) == best_laws(row_views(rows@), strings(terms@), focused@, opt_list(imports)),
{
    let ghost all = row_views(rows@);
    let ghost t = strings(terms@);
    let ghost m = opt_list(imports);
    let mut list: Vec<IndexedRow> = Vec::new();
    assert(row_views(list@) =~= Seq::empty());
    for i in 0..rows.len()
        invariant
            all == row_views(rows@),
            t == strings(terms@),
            m == opt_list(imports),
            row_views(list@) == laws_listed(all.take(i as int), t, focused@, m),
    {
        proof {
            prefix_step(all, i as int);
        }
        assert(all[i as int] == rows@[i as int]@);
        if is_law_listed(&rows[i], terms, focused, imports) {
            list.push(rows[i].copy());
        }
    }
    proof {
        prefix_all(all);
    }
    let ghost views = row_views(list@);
    let ghost wanted = views.map_values(|row: RowView| law_key(row, t, focused@, m));
    let mut keys: Vec<Vec<u64>> = Vec::new();
    assert(key_list(keys@) =~= wanted.take(0));
    for i in 0..list.len()
        invariant
            views == row_views(list@),
            t == strings(terms@),
            m == opt_list(imports),
            wanted == views.map_values(|row: RowView| law_key(row, t, focused@, m)),
            keys.len() == i,
            key_list(keys@) == wanted.take(i as int),
    {
        proof {
            prefix_step(wanted, i as int);
        }
        assert(views[i as int] == list@[i as int]@);
        let row = &list[i];
        let points = points_of_law(
            row,
            terms,
            focused,
            is_reachable(row.module.as_str(), imports),
        );
        let mut key: Vec<u64> = Vec::new();
        key.push(1000 - points);
        key.push(row.signature.as_str().len() as u64);
        let mut rest = codes_of(row.name.as_str());
        key.append(&mut rest);
        assert(key@ =~= law_key(row@, t, focused@, m));
        let ghost before = key_list(keys@);
        keys.push(key);
        assert(key_list(keys@) =~= before.push(wanted[i as int]));
    }
    proof {
        prefix_all(wanted);
    }
    keep_once_named(&arrange_rows(&list, &keys))
}

/// Whether a law can be used as the imports stand.
pub open spec fn availability(module: Seq<char>, imports: Option<Seq<Seq<char>>>) -> Seq<char> {
    match imports {
        Some(list) => if list.contains(module) {
            "available through imports"@
        } else {
            "import may be required: "@ + module
        },
        None => "import availability unknown"@,
    }
}

fn show_availability(module: &str, imports: Option<&Vec<String>>) -> (r: String)
    ensures
        r@ == availability(module@, opt_list(imports)),
{
    match imports {
        Some(list) => if has_string(list, module) {
            own("available through imports")
        } else {
            cat2("import may be required: ", module)
        },
        None => own("import availability unknown"),
    }
}

/// A law as it is listed.
pub open spec fn law_text(row: RowView, imports: Option<Seq<Seq<char>>>) -> Seq<char> {
    row.name + " : "@ + shortened(row.signature, 250) + "\n  "@ + row.path + ":"@ + decimal(
        row.line as nat,
    ) + "; "@ + availability(row.module, imports) + "; probe "@ + row.name + " source\n"@
}

/// The first `n` laws as they are listed.
pub open spec fn law_texts(rows: Seq<RowView>, imports: Option<Seq<Seq<char>>>, n: nat) -> Seq<char>
    decreases n,
{
    if n == 0 {
        ""@
    } else {
        law_texts(rows, imports, (n - 1) as nat) + law_text(rows[n - 1], imports)
    }
}

fn show_law(row: &IndexedRow, imports: Option<&Vec<String>>) -> (r: String)
    ensures
        r@ == law_text(row@, opt_list(imports)),
{
    let short = truncate_line(row.signature.as_str(), 250);
    let mut out = cat5(row.name.as_str(), " : ", short.as_str(), "\n  ", row.path.as_str());
    push_str(&mut out, ":");
    push_str(&mut out, show(row.line).as_str());
    push_str(&mut out, "; ");
    push_str(&mut out, show_availability(row.module.as_str(), imports).as_str());
    push_str(&mut out, "; probe ");
    push_str(&mut out, row.name.as_str());
    push_str(&mut out, " source\n");
    out
}

/// A use of the best law, with the line that it stands on.
pub open spec fn usage_text(usage: UsageView, line: Option<Seq<char>>) -> Seq<char> {
    "usage: "@ + usage.path + ":"@ + decimal(usage.line as nat) + (match usage.context {
        Some(c) => " in "@ + c,
        None => ""@,
    }) + "\n"@ + match line {
        Some(text) => "  "@ + shortened(bare(text), 180) + "\n"@,
        None => ""@,
    }
}

fn show_usage(usage: &SearchUsage, line: Option<&str>) -> (r: String)
    ensures
        r@ == usage_text(usage@, opt_str(line)),
{
    let number = show(usage.line);
    let mut out = cat4("usage: ", usage.path.as_str(), ":", number.as_str());
    match &usage.context {
        Some(c) => push_str(&mut out, cat2(" in ", c.as_str()).as_str()),
        None => push_str(&mut out, ""),
    }
    push_str(&mut out, "\n");
    match line {
        Some(text) => {
            let short = truncate_line(trim(text), 180);
            push_str(&mut out, cat3("  ", short.as_str(), "\n").as_str());
        },
        None => push_str(&mut out, ""),
    }
    out
}

/// The view of a use with its line.
pub open spec fn opt_usage(usage: Option<(&SearchUsage, Option<&str>)>) -> Option<
    (UsageView, Option<Seq<char>>),
> {
    match usage {
        Some(p) => Some((p.0@, opt_str(p.1))),
        None => None,
    }
}

/// The report on a message: what matters of it, the three best laws, a use of the best
/// one, and how to try a term.
pub open spec fn conflict_report(
    focused: Seq<char>,
    laws: Seq<RowView>,
    imports: Option<Seq<Seq<char>>>,
    usage: Option<(UsageView, Option<Seq<char>>)>,
    path: Option<Seq<char>>,
) -> Seq<char> {
    "\n"@ + focused + "\n"@ + (if laws.len() == 0 {
        ""@
    } else {
        "\nConversion/law candidates (signature overlap; applicability unverified):\n"@
            + law_texts(
            laws,
            imports,
            if laws.len() < 3 {
                laws.len()
            } else {
                3
            },
        )
    }) + (match usage {
        Some((u, line)) => if laws.len() == 0 {
            ""@
        } else {
            usage_text(u, line)
        },
        None => ""@,
    }) + match path {
        Some(p) => "\nTest in explicit context: mathmux probe "@ + p + ":LINE '#apply TERM'\n"@,
        None => ""@,
    }
}

/// Computes [`conflict_report`].
pub fn report_conflict(
    focused: &str,
    laws: &Vec<IndexedRow>,
    imports: Option<&Vec<String>>,
    usage: Option<(&SearchUsage, Option<&str>)>,
    path: Option<&str>,
) -> (r: String)
    ensures
        r@ == conflict_report(
            focused@,
            row_views(laws@),
            opt_list(imports),
            opt_usage(usage),
            opt_str(path),
        ),
{
    let ghost views = row_views(laws@);
    assert(views.len() == laws.len());
    let mut out = cat3("\n", focused, "\n");
    if laws.len() == 0 {
        push_str(&mut out, "");
    } else {
        let mut part = own("");
        let stop: usize = if laws.len() < 3 {
            laws.len()
        } else {
            3
        };
        for i in 0..stop
            invariant
                stop <= laws.len(),
                views == row_views(laws@),
                part@ == law_texts(views, opt_list(imports), i as nat),
        {
            assert(views[i as int] == laws@[i as int]@);
            push_str(&mut part, show_law(&laws[i], imports).as_str());
        }
        push_str(
            &mut out,
            cat2(
                "\nConversion/law candidates (signature overlap; applicability unverified):\n",
                part.as_str(),
            ).as_str(),
        );
    }
    match usage {
        Some((u, line)) => if laws.len() == 0 {
            push_str(&mut out, "");
        } else {
            push_str(&mut out, show_usage(u, line).as_str());
        },
        None => push_str(&mut out, ""),
    }
    match path {
        Some(p) => push_str(
            &mut out,
            cat3("\nTest in explicit context: mathmux probe ", p, ":LINE '#apply TERM'\n").as_str(),
        ),
        None => push_str(&mut out, ""),
    }
    out
}

/// The terms that laws are looked up by: those of the message, then the types of the
/// functions that it says were applied, no more than eight.
pub open spec fn all_terms(
    focused: Seq<char>,
    signatures: Seq<Seq<char>>,
    n: nat,
) -> Seq<Seq<char>>
    decreases n,
{
    if n == 0 {
        message_terms(focused)
    } else {
        with_signature_terms(
            all_terms(focused, signatures, (n - 1) as nat),
            identifier_list(signatures[n - 1]),
            0,
        )
    }
}

/// Computes [`all_terms`] for all signatures.
pub fn failure_terms(focused: &str, signatures: &Vec<String>) -> (r: Vec<String>)
    ensures
        strings(r@) == front(
            all_terms(focused@, strings(signatures@), signatures.len() as nat),
            8,
        ),
{
    let mut terms = conversion_terms(focused);
    for i in 0..signatures.len()
        invariant
            strings(terms@) == all_terms(focused@, strings(signatures@), i as nat),
    {
        assert(strings(signatures@)[i as int] == signatures@[i as int]@);
        add_signature_terms(&mut terms, signatures[i].as_str());
    }
    take_strings(&terms, 8)
}

/// The report on a message of Lean: laws that may help where types do not fit, given the
/// signatures of the functions that were applied and the rows that the index finds for
/// the terms.
pub fn failure_context(
    diagnostic: &str,
    signatures: &Vec<String>,
    rows: &Vec<IndexedRow>,
    imports: Option<&Vec<String>>,
    usage: Option<(&SearchUsage, Option<&str>)>,
    path: Option<&str>,
) -> (r: String)
    ensures
        r@ == if type_conflict(diagnostic@) {
            let focused = focus_of(diagnostic@);
            let terms = front(
                all_terms(focused, strings(signatures@), signatures.len() as nat),
                8,
            );
            conflict_report(
                focused,
                best_laws(row_views(rows@), terms, focused, opt_list(imports)),
                opt_list(imports),
                opt_usage(usage),
                opt_str(path),
            )
        } else {
            "\nNo focused type-conversion retrieval for this diagnostic."@
        },
{
    if !is_type_conflict(diagnostic) {
        return own("\nNo focused type-conversion retrieval for this diagnostic.");
    }
    let focused = focus_diagnostic(diagnostic);
    let terms = failure_terms(focused.as_str(), signatures);
    let laws = rank_laws(rows, &terms, focused.as_str(), imports);
    report_conflict(focused.as_str(), &laws, imports, usage, path)
}

} // verus!
