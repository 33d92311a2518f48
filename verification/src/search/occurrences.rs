//! Requests for lines of a source file.
use crate::failure::{refuse, unit_view, Failure};
use crate::order::{key_list, positions, rank, ranking, ranking_is_permutation};
use crate::path::{absolute, extension, extension_of, is_absolute, is_lean_file, lean_file};
use crate::search::exact::{sort_texts, sorted_texts};
use crate::search::regex_request::{ranged, split_range};
use crate::search::tokens::{append_strings, distinct, without_repeats};
use crate::search::tree::{
    missing_source, missing_source_message, opt_tree, resolve_source_path, source_at, SourceTree,
    TreeView,
};
use crate::text::class::Class;
use crate::text::make::{
    alike, cat2, cat4, copy_strings, lower, own, prefix_all, prefix_step, push_str, same,
    same_ignoring_case, strings, strings_push, strs, strs_push, to_lower,
};
use crate::text::pieces::{
    bare_all, keep_nonempty, nonempty_of, pieces, split, split_words, trim_all, words,
};
use crate::text::scan::{opt_string, rcut, rsplit_once, trim_of, trimmed};
use vstd::prelude::*;

verus! {

broadcast use {strings_push, strs_push};

/// A request for lines of a file: those in some ranges that hold one of some terms.
#[derive(Debug)]
pub struct SourceOccurrenceQuery {
    pub path: String,
    pub main_path: Option<String>,
    pub display_path: Option<String>,
    pub first_line: u64,
    pub last_line: u64,
    pub additional_ranges: Vec<(u64, u64)>,
    pub terms: Vec<String>,
}

/// The contents of a [`SourceOccurrenceQuery`].
pub struct OccurrenceView {
    pub path: Seq<char>,
    pub main_path: Option<Seq<char>>,
    pub display_path: Option<Seq<char>>,
    pub first_line: u64,
    pub last_line: u64,
    pub additional_ranges: Seq<(u64, u64)>,
    pub terms: Seq<Seq<char>>,
}

impl View for SourceOccurrenceQuery {
    type V = OccurrenceView;

    open spec fn view(&self) -> OccurrenceView {
        OccurrenceView {
            path: self.path@,
            main_path: opt_string(self.main_path),
            display_path: opt_string(self.display_path),
            first_line: self.first_line,
            last_line: self.last_line,
            additional_ranges: self.additional_ranges@,
            terms: strings(self.terms@),
        }
    }
}

/// The view of an optional request.
pub open spec fn occurrence_view(r: Result<Option<SourceOccurrenceQuery>, Failure>) -> Result<
    Option<OccurrenceView>,
    Seq<char>,
> {
    match r {
        Ok(Some(q)) => Ok(Some(q@)),
        Ok(None) => Ok(None),
        Err(e) => Err(e@),
    }
}

/// A word of a request that names a Lean file.
pub open spec fn lean_target(part: Seq<char>) -> bool {
    lean_file(ranged(part).0)
}

fn is_lean_target(part: &str) -> (r: bool)
    ensures
        r == lean_target(part@),
{
    is_lean_file(split_range(part).0)
}

/// The first word from `i` on that names a Lean file, or the number of words.
pub open spec fn lean_from(parts: Seq<Seq<char>>, i: int) -> int
    decreases parts.len() - i,
{
    if i >= parts.len() || lean_target(parts[i]) {
        i
    } else {
        lean_from(parts, i + 1)
    }
}

fn find_lean(parts: &Vec<&str>, from: usize) -> (r: usize)
    requires
        from <= parts.len(),
    ensures
        r == lean_from(strs(parts@), from as int),
        from <= r <= parts.len(),
{
    for i in from..parts.len()
        invariant
            from <= i,
            lean_from(strs(parts@), from as int) == lean_from(strs(parts@), i as int),
    {
        assert(strs(parts@)[i as int] == parts@[i as int]@);
        if is_lean_target(parts[i]) {
            return i;
        }
    }
    assert(strs(parts@).len() == parts.len());
    parts.len()
}

/// The terms of a request: its first `n` words but one, without quotes.
pub open spec fn request_terms(parts: Seq<Seq<char>>, target: int, n: nat) -> Seq<Seq<char>>
    decreases n,
{
    if n == 0 {
        Seq::empty()
    } else {
        let before = request_terms(parts, target, (n - 1) as nat);
        let term = trimmed(parts[n - 1], Class::Only("'\""));
        if n - 1 == target || term.len() == 0 {
            before
        } else {
            before.push(term)
        }
    }
}

fn collect_request_terms(parts: &Vec<&str>, target: usize) -> (r: Vec<String>)
    ensures
        strings(r@) == request_terms(strs(parts@), target as int, parts.len() as nat),
{
    let mut out: Vec<String> = Vec::new();
    assert(strings(out@) =~= Seq::empty());
    for i in 0..parts.len()
        invariant
            strings(out@) == request_terms(strs(parts@), target as int, i as nat),
    {
        assert(strs(parts@)[i as int] == parts@[i as int]@);
        let term = trim_of(parts[i], Class::Only("'\""));
        if i != target && !term.is_empty() {
            out.push(own(term));
        }
    }
    out
}

/// A term that asks for the declarations of a file.
pub open spec fn outline_word(term: Seq<char>) -> bool {
    lower(term) == "outline"@ || lower(term) == "declarations"@
}

/// Decides [`outline_word`].
pub fn is_outline_word(term: &str) -> (r: bool)
    ensures
        r == outline_word(term@),
{
    let low = to_lower(term);
    same(low.as_str(), "outline") || same(low.as_str(), "declarations")
}

/// Terms that ask for the declarations of a file and nothing else.
pub open spec fn outline_terms(terms: Seq<Seq<char>>) -> bool {
    terms.len() == 1 && outline_word(terms[0])
}

/// Decides [`outline_terms`].
pub fn asks_outline(terms: &Vec<String>) -> (r: bool)
    ensures
        r == outline_terms(strings(terms@)),
{
    assert(strings(terms@).len() == terms.len());
    if terms.len() != 1 {
        return false;
    }
    assert(strings(terms@)[0] == terms@[0]@);
    is_outline_word(terms[0].as_str())
}

/// What is said of a file that nothing is asked of.
pub open spec fn facet_needed(target: Seq<char>) -> Seq<char> {
    "source file query needs a line, range, or facet: "@ + target + "; use "@ + target
        + ":LINE, "@ + target + ":START-END, or "@ + target + " outline/imports/dependents"@
}

fn say_facet_needed(target: &str) -> (r: String)
    ensures
        r@ == facet_needed(target@),
{
    let mut out = cat4(
        "source file query needs a line, range, or facet: ",
        target,
        "; use ",
        target,
    );
    push_str(&mut out, ":LINE, ");
    push_str(&mut out, target);
    push_str(&mut out, ":START-END, or ");
    push_str(&mut out, target);
    push_str(&mut out, " outline/imports/dependents");
    out
}

/// What a request for one file, with given words, asks for.
pub open spec fn target_request(
    tree: TreeView,
    main: Option<TreeView>,
    target: Seq<char>,
    terms: Seq<Seq<char>>,
) -> Result<Option<OccurrenceView>, Seq<char>> {
    let (path, range) = ranged(target);
    let inferred = extension_of(path) is None && outline_terms(terms);
    let file = if inferred {
        path + ".lean"@
    } else {
        path
    };
    if terms.len() == 0 && range is None {
        if lean_file(target) {
            Err(facet_needed(target))
        } else {
            Ok(None)
        }
    } else if inferred && alike(path, "FILE"@) {
        Err("FILE is a help placeholder; replace it with a Lean source path"@)
    } else if !lean_file(file) {
        Ok(None)
    } else {
        match source_at(tree, file) {
            None => if inferred {
                Ok(None)
            } else {
                Err(missing_source(tree, main, path))
            },
            Some(source) => Ok(
                Some(
                    OccurrenceView {
                        path: source.path,
                        main_path: if main is Some && !absolute(path) {
                            match source_at(main->0, file) {
                                Some(other) => Some(other.path),
                                None => None,
                            }
                        } else {
                            None
                        },
                        display_path: source.display,
                        first_line: if range is Some {
                            (range->0).0
                        } else {
                            1
                        },
                        last_line: if range is Some {
                            (range->0).1
                        } else {
                            u64::MAX
                        },
                        additional_ranges: Seq::empty(),
                        terms,
                    },
                ),
            ),
        }
    }
}

fn parse_target(
    tree: &SourceTree,
    main: Option<&SourceTree>,
    target: &str,
    terms: Vec<String>,
) -> (r: Result<Option<SourceOccurrenceQuery>, Failure>)
    ensures
        occurrence_view(r) == target_request(tree@, opt_tree(main), target@, strings(terms@)),
{
    let (path, range) = split_range(target);
    assert(strings(terms@).len() == terms.len());
    if terms.len() == 0 && range.is_none() {
        if is_lean_file(target) {
            return refuse(say_facet_needed(target).as_str());
        }
        return Ok(None);
    }
    let inferred = extension(path).is_none() && asks_outline(&terms);
    if inferred && same_ignoring_case(path, "FILE") {
        return refuse("FILE is a help placeholder; replace it with a Lean source path");
    }
    let file = if inferred {
        cat2(path, ".lean")
    } else {
        own(path)
    };
    if !is_lean_file(file.as_str()) {
        return Ok(None);
    }
    let Some(source) = resolve_source_path(tree, file.as_str()) else {
        if inferred {
            return Ok(None);
        }
        return refuse(missing_source_message(tree, main, path).as_str());
    };
    let mut main_path: Option<String> = None;
    if let Some(other) = main {
        if !is_absolute(path) {
            if let Some(found) = resolve_source_path(other, file.as_str()) {
                main_path = Some(found.path);
            }
        }
    }
    let (first_line, last_line) = match range {
        Some(lines) => lines,
        None => (1, u64::MAX),
    };
    let additional_ranges: Vec<(u64, u64)> = Vec::new();
    assert(additional_ranges@ =~= Seq::empty());
    Ok(
        Some(
            SourceOccurrenceQuery {
                path: source.path,
                main_path,
                display_path: source.display,
                first_line,
                last_line,
                additional_ranges,
                terms,
            },
        ),
    )
}

/// What a request without alternatives asks for.
#[verifier::opaque]
pub open spec fn single_request(tree: TreeView, main: Option<TreeView>, query: Seq<char>) -> Result<
    Option<OccurrenceView>,
    Seq<char>,
> {
    let parts = nonempty_of(pieces(query, Class::SpaceOr("|")));
    let first = lean_from(parts, 0);
    let target = if first < parts.len() {
        first
    } else {
        0
    };
    if parts.len() == 0 {
        Ok(None)
    } else if first < parts.len() && lean_from(parts, first + 1) < parts.len() {
        Err("source queries accept one Lean file; search each file separately"@)
    } else {
        target_request(tree, main, parts[target], request_terms(parts, target, parts.len()))
    }
}

fn parse_single(tree: &SourceTree, main: Option<&SourceTree>, query: &str) -> (r: Result<
    Option<SourceOccurrenceQuery>,
    Failure,
>)
    ensures
        occurrence_view(r) == single_request(tree@, opt_tree(main), query@),
{
    reveal(single_request);
    let parts = keep_nonempty(split(query, Class::SpaceOr("|")));
    assert(strs(parts@).len() == parts.len());
    if parts.len() == 0 {
        return Ok(None);
    }
    let first = find_lean(&parts, 0);
    let mut target: usize = 0;
    if first < parts.len() {
        if find_lean(&parts, first + 1) < parts.len() {
            return refuse("source queries accept one Lean file; search each file separately");
        }
        target = first;
    }
    assert(strs(parts@)[target as int] == parts@[target as int]@);
    parse_target(tree, main, parts[target], collect_request_terms(&parts, target))
}

/// The alternatives of a request.
pub open spec fn request_alternatives(query: Seq<char>) -> Seq<Seq<char>> {
    nonempty_of(bare_all(pieces(query, Class::Is('|'))))
}

/// What the first `n` alternatives ask for: the first refusal counts, and one alternative
/// that is no request makes the list none.
pub open spec fn alternative_requests(
    tree: TreeView,
    main: Option<TreeView>,
    list: Seq<Seq<char>>,
    n: nat,
) -> Result<Option<Seq<OccurrenceView>>, Seq<char>>
    decreases n,
{
    if n == 0 {
        Ok(Some(Seq::empty()))
    } else {
        match alternative_requests(tree, main, list, (n - 1) as nat) {
            Err(fault) => Err(fault),
            Ok(before) => match single_request(tree, main, list[n - 1]) {
                Err(fault) => Err(fault),
                Ok(Some(q)) => match before {
                    Some(known) => Ok(Some(known.push(q))),
                    None => Ok(None),
                },
                Ok(None) => Ok(None),
            },
        }
    }
}

/// The contents of a list of requests.
pub open spec fn occurrence_views(list: Seq<SourceOccurrenceQuery>) -> Seq<OccurrenceView> {
    list.map_values(|q: SourceOccurrenceQuery| q@)
}

/// A request joined by a further alternative: the file must be the same, and either the
/// range is the same or neither holds terms.
pub open spec fn joined_request(a: OccurrenceView, b: OccurrenceView) -> Result<
    OccurrenceView,
    Seq<char>,
> {
    if b.path != a.path {
        Err("source queries accept one Lean file; search each file separately"@)
    } else if b.first_line == a.first_line && b.last_line == a.last_line {
        Ok(OccurrenceView { terms: a.terms + b.terms, ..a })
    } else if a.terms.len() > 0 || b.terms.len() > 0 {
        Err("source alternatives with terms must use one line range"@)
    } else {
        Ok(
            OccurrenceView {
                additional_ranges: a.additional_ranges.push((b.first_line, b.last_line))
                    + b.additional_ranges,
                ..a
            },
        )
    }
}

/// The first `n` requests of a list as one.
pub open spec fn all_joined(list: Seq<OccurrenceView>, n: nat) -> Result<OccurrenceView, Seq<char>>
    decreases n,
{
    if n <= 1 {
        Ok(list[0])
    } else {
        match all_joined(list, (n - 1) as nat) {
            Ok(a) => joined_request(a, list[n - 1]),
            Err(fault) => Err(fault),
        }
    }
}

fn copy_ranges(list: &Vec<(u64, u64)>) -> (r: Vec<(u64, u64)>)
    ensures
        r@ == list@,
{
    let mut out: Vec<(u64, u64)> = Vec::new();
    for i in 0..list.len()
        invariant
            out@ == list@.take(i as int),
    {
        proof {
            prefix_step(list@, i as int);
        }
        out.push(list[i]);
    }
    proof {
        prefix_all(list@);
    }
    out
}

fn join_request(a: &mut SourceOccurrenceQuery, b: &SourceOccurrenceQuery) -> (r: Result<(), Failure>)
    ensures
        match joined_request(old(a)@, b@) {
            Ok(q) => r is Ok && final(a)@ == q,
            Err(fault) => r matches Err(e) && e@ == fault,
        },
{
    if !same(b.path.as_str(), a.path.as_str()) {
        return refuse("source queries accept one Lean file; search each file separately");
    }
    assert(strings(a.terms@).len() == a.terms.len());
    assert(strings(b.terms@).len() == b.terms.len());
    if b.first_line == a.first_line && b.last_line == a.last_line {
        append_strings(&mut a.terms, copy_strings(&b.terms));
        return Ok(());
    }
    if a.terms.len() > 0 || b.terms.len() > 0 {
        return refuse("source alternatives with terms must use one line range");
    }
    let ghost before = a.additional_ranges@;
    a.additional_ranges.push((b.first_line, b.last_line));
    let mut more = copy_ranges(&b.additional_ranges);
    a.additional_ranges.append(&mut more);
    assert(a.additional_ranges@ =~= before.push((b.first_line, b.last_line))
        + b.additional_ranges@);
    Ok(())
}

/// Ranges in order.
pub open spec fn sorted_ranges(list: Seq<(u64, u64)>) -> Seq<(u64, u64)> {
    ranking(list.map_values(|p: (u64, u64)| seq![p.0, p.1])).map_values(|i: int| list[i])
}

/// Ranges without those that repeat the one before.
pub open spec fn squeezed_ranges(list: Seq<(u64, u64)>) -> Seq<(u64, u64)>
    decreases list.len(),
{
    if list.len() == 0 {
        Seq::empty()
    } else {
        let kept = squeezed_ranges(list.drop_last());
        if kept.len() > 0 && kept.last() == list.last() {
            kept
        } else {
            kept.push(list.last())
        }
    }
}

/// The ranges of a request, in order and each once.
pub open spec fn request_ranges(q: OccurrenceView) -> Seq<(u64, u64)> {
    squeezed_ranges(sorted_ranges(seq![(q.first_line, q.last_line)] + q.additional_ranges))
}

fn sort_ranges(list: &Vec<(u64, u64)>) -> (r: Vec<(u64, u64)>)
    ensures
        r@ == sorted_ranges(list@),
{
    let ghost wanted = list@.map_values(|p: (u64, u64)| seq![p.0, p.1]);
    let mut keys: Vec<Vec<u64>> = Vec::new();
    assert(key_list(keys@) =~= wanted.take(0));
    for i in 0..list.len()
        invariant
            wanted == list@.map_values(|p: (u64, u64)| seq![p.0, p.1]),
            keys.len() == i,
            key_list(keys@) == wanted.take(i as int),
    {
        proof {
            prefix_step(wanted, i as int);
        }
        let mut key: Vec<u64> = Vec::new();
        key.push(list[i].0);
        key.push(list[i].1);
        assert(key@ =~= seq![list@[i as int].0, list@[i as int].1]);
        let ghost before = key_list(keys@);
        keys.push(key);
        assert(key_list(keys@) =~= before.push(wanted[i as int]));
    }
    proof {
        prefix_all(wanted);
    }
    let order = rank(&keys);
    let ghost sorted = sorted_ranges(list@);
    assert(positions(order@).len() == order.len());
    let mut out: Vec<(u64, u64)> = Vec::new();
    for i in 0..order.len()
        invariant
            order.len() == keys.len(),
            list.len() == keys.len(),
            forall|j: int| 0 <= j < order.len() ==> (#[trigger] order@[j]) < keys.len(),
            positions(order@) == ranking(key_list(keys@)),
            key_list(keys@) == list@.map_values(|p: (u64, u64)| seq![p.0, p.1]),
            sorted == sorted_ranges(list@),
            sorted.len() == order.len(),
            out@ == sorted.take(i as int),
    {
        proof {
            prefix_step(sorted, i as int);
            assert(positions(order@)[i as int] == order@[i as int] as int);
        }
        out.push(list[order[i]]);
    }
    proof {
        prefix_all(sorted);
    }
    out
}

fn squeeze_ranges(list: &Vec<(u64, u64)>) -> (r: Vec<(u64, u64)>)
    ensures
        r@ == squeezed_ranges(list@),
{
    let mut out: Vec<(u64, u64)> = Vec::new();
    for i in 0..list.len()
        invariant
            out@ == squeezed_ranges(list@.take(i as int)),
    {
        proof {
            prefix_step(list@, i as int);
        }
        let count = out.len();
        let repeats = count > 0 && out[count - 1].0 == list[i].0 && out[count - 1].1 == list[i].1;
        if !repeats {
            out.push(list[i]);
        }
    }
    proof {
        prefix_all(list@);
    }
    out
}

proof fn squeezing_keeps_some(list: Seq<(u64, u64)>)
    requires
        list.len() > 0,
    ensures
        squeezed_ranges(list).len() > 0,
{
}

/// A request with its terms and its ranges in order, each once.
pub open spec fn tidied(q: OccurrenceView) -> OccurrenceView {
    let ranges = request_ranges(q);
    OccurrenceView {
        terms: distinct(sorted_texts(q.terms)),
        first_line: ranges[0].0,
        last_line: ranges[0].1,
        additional_ranges: ranges.skip(1),
        ..q
    }
}

fn tidy(q: SourceOccurrenceQuery) -> (r: SourceOccurrenceQuery)
    ensures
        r@ == tidied(q@),
{
    let mut all: Vec<(u64, u64)> = Vec::new();
    all.push((q.first_line, q.last_line));
    let mut more = copy_ranges(&q.additional_ranges);
    all.append(&mut more);
    assert(all@ =~= seq![(q.first_line, q.last_line)] + q.additional_ranges@);
    let sorted = sort_ranges(&all);
    proof {
        crate::order::ranking_is_permutation(
            all@.map_values(|p: (u64, u64)| seq![p.0, p.1]),
        );
        squeezing_keeps_some(sorted@);
    }
    let mut ranges = squeeze_ranges(&sorted);
    let ghost views = ranges@;
    let first = ranges.remove(0);
    assert(ranges@ =~= views.skip(1));
    let terms = without_repeats(&sort_texts(&q.terms));
    SourceOccurrenceQuery {
        path: q.path,
        main_path: q.main_path,
        display_path: q.display_path,
        first_line: first.0,
        last_line: first.1,
        additional_ranges: ranges,
        terms,
    }
}

/// What a request for lines of a file asks for, unless it is no such request. Alternatives
/// that each ask for lines of one file are joined.
pub open spec fn occurrence_request(
    tree: TreeView,
    main: Option<TreeView>,
    query: Seq<char>,
) -> Result<Option<OccurrenceView>, Seq<char>> {
    let list = request_alternatives(query);
    if list.len() > 1 {
        match alternative_requests(tree, main, list, list.len()) {
            Err(fault) => Err(fault),
            Ok(None) => single_request(tree, main, query),
            Ok(Some(parsed)) => match all_joined(parsed, parsed.len()) {
                Ok(q) => Ok(Some(tidied(q))),
                Err(fault) => Err(fault),
            },
        }
    } else {
        single_request(tree, main, query)
    }
}

proof fn some_requests_keep_their_number(
    tree: TreeView,
    main: Option<TreeView>,
    list: Seq<Seq<char>>,
    n: nat,
)
    ensures
        alternative_requests(tree, main, list, n) matches Ok(Some(parsed)) ==> parsed.len() == n,
    decreases n,
{
    if n > 0 {
        some_requests_keep_their_number(tree, main, list, (n - 1) as nat);
    }
}

/// Computes [`occurrence_request`].
pub fn parse_source_occurrence_query(
    tree: &SourceTree,
    main: Option<&SourceTree>,
    query: &str,
) -> (r: Result<Option<SourceOccurrenceQuery>, Failure>)
    ensures
        occurrence_view(r) == occurrence_request(tree@, opt_tree(main), query@),
{
    let list = keep_nonempty(trim_all(&split(query, Class::Is('|'))));
    let ghost views = strs(list@);
    assert(views.len() == list.len());
    if list.len() <= 1 {
        return parse_single(tree, main, query);
    }
    let mut parsed: Vec<SourceOccurrenceQuery> = Vec::new();
    let mut whole = true;
    assert(occurrence_views(parsed@) =~= Seq::empty());
    for i in 0..list.len()
        invariant
            views == strs(list@),
            views.len() == list.len(),
            views.len() > 1,
            views == request_alternatives(query@),
            alternative_requests(tree@, opt_tree(main), views, i as nat) == Ok::<
                Option<Seq<OccurrenceView>>,
                Seq<char>,
            >(
                if whole {
                    Some(occurrence_views(parsed@))
                } else {
                    None
                },
            ),
    {
        assert(views[i as int] == list@[i as int]@);
        match parse_single(tree, main, list[i]) {
            Err(fault) => {
                proof {
                    refusal_stays(tree@, opt_tree(main), views, (i + 1) as nat, views.len());
                }
                return Err(fault);
            },
            Ok(Some(q)) => {
                let ghost before = occurrence_views(parsed@);
                parsed.push(q);
                assert(occurrence_views(parsed@) =~= before.push(q@));
            },
            Ok(None) => {
                whole = false;
            },
        }
    }
    if !whole {
        return parse_single(tree, main, query);
    }
    let ghost all = occurrence_views(parsed@);
    proof {
        some_requests_keep_their_number(tree@, opt_tree(main), views, views.len());
    }
    assert(all.len() == parsed.len());
    let mut combined = parsed.remove(0);
    assert(combined@ == all[0]);
    for i in 0..parsed.len()
        invariant
            all.len() == parsed.len() + 1,
            occurrence_views(parsed@) == all.skip(1),
            all_joined(all, (i + 1) as nat) == Ok::<OccurrenceView, Seq<char>>(combined@),
            views.len() == all.len(),
            views.len() > 1,
            views == request_alternatives(query@),
            alternative_requests(tree@, opt_tree(main), views, views.len()) == Ok::<
                Option<Seq<OccurrenceView>>,
                Seq<char>,
            >(Some(all)),
    {
        assert(occurrence_views(parsed@)[i as int] == parsed@[i as int]@);
        assert(all[i + 1] == parsed@[i as int]@);
        if let Err(fault) = join_request(&mut combined, &parsed[i]) {
            proof {
                joint_refusal_stays(all, (i + 2) as nat, all.len());
            }
            return Err(fault);
        }
    }
    Ok(Some(tidy(combined)))
}

proof fn refusal_stays(
    tree: TreeView,
    main: Option<TreeView>,
    list: Seq<Seq<char>>,
    n: nat,
    m: nat,
)
    requires
        n <= m,
        alternative_requests(tree, main, list, n) is Err,
    ensures
        alternative_requests(tree, main, list, m) == alternative_requests(tree, main, list, n),
    decreases m - n,
{
    if n < m {
        refusal_stays(tree, main, list, n, (m - 1) as nat);
    }
}

proof fn joint_refusal_stays(list: Seq<OccurrenceView>, n: nat, m: nat)
    requires
        2 <= n <= m,
        all_joined(list, n) is Err,
    ensures
        all_joined(list, m) == all_joined(list, n),
    decreases m - n,
{
    if n < m {
        joint_refusal_stays(list, n, (m - 1) as nat);
    }
}

/// A word that asks for something of a whole file.
pub open spec fn file_facet(word: Seq<char>) -> bool {
    ||| lower(word) == "outline"@ || lower(word) == "declarations"@
    ||| lower(word) == "imports"@ || lower(word) == "dependents"@
}

/// Decides [`file_facet`].
pub fn is_file_facet(word: &str) -> (r: bool)
    ensures
        r == file_facet(word@),
{
    let low = to_lower(word);
    same(low.as_str(), "outline") || same(low.as_str(), "declarations") || same(
        low.as_str(),
        "imports",
    ) || same(low.as_str(), "dependents")
}

/// What is wrong with a word in which a colon binds a facet to a file.
pub open spec fn attached_facet(token: Seq<char>) -> Option<Seq<char>> {
    match rcut(token, ":"@) {
        Some(sides) => if lean_file(sides.0) && file_facet(sides.1) {
            Some("source facets use a space: "@ + sides.0 + " "@ + sides.1)
        } else {
            None
        },
        None => None,
    }
}

/// The first fault of the words from `i` on.
pub open spec fn attached_from(list: Seq<Seq<char>>, i: int) -> Option<Seq<char>>
    decreases list.len() - i,
{
    if i >= list.len() {
        None
    } else {
        match attached_facet(list[i]) {
            Some(fault) => Some(fault),
            None => attached_from(list, i + 1),
        }
    }
}

/// Refuses a request in which a colon binds a facet to a file.
pub fn reject_colon_attached_source_facet(query: &str) -> (r: Result<(), Failure>)
    ensures
        unit_view(r) == match attached_from(words(query@), 0) {
            Some(fault) => Err(fault),
            None => Ok(()),
        },
{
    let list = split_words(query);
    let ghost views = strs(list@);
    assert(views.len() == list.len());
    for i in 0..list.len()
        invariant
            views == strs(list@),
            views.len() == list.len(),
            views == words(query@),
            attached_from(views, 0) == attached_from(views, i as int),
    {
        assert(views[i as int] == list@[i as int]@);
        if let Some((path, facet)) = rsplit_once(list[i], ":") {
            if is_lean_file(path) && is_file_facet(facet) {
                return refuse(cat4("source facets use a space: ", path, " ", facet).as_str());
            }
        }
    }
    Ok(())
}

proof fn squeezing_keeps(list: Seq<(u64, u64)>, range: (u64, u64))
    ensures
        squeezed_ranges(list).contains(range) <==> list.contains(range),
        list.len() > 0 ==> squeezed_ranges(list).len() > 0 && squeezed_ranges(list).last()
            == list.last(),
    decreases list.len(),
{
    if list.len() > 0 {
        let shorter = list.drop_last();
        squeezing_keeps(shorter, range);
        let kept = squeezed_ranges(shorter);
        let all = squeezed_ranges(list);
        if list.contains(range) {
            let i = list.index_of(range);
            if i < shorter.len() {
                assert(shorter[i] == range);
                assert(all[kept.index_of(range)] == range);
            } else {
                assert(all[all.len() - 1] == range);
            }
        }
        if all.contains(range) {
            let i = all.index_of(range);
            if i < kept.len() {
                assert(kept[i] == range);
                assert(list[shorter.index_of(range)] == range);
            } else {
                assert(list[list.len() - 1] == range);
            }
        }
    }
}

/// A request asks for just the ranges that it was given.
pub proof fn requests_keep_their_ranges(q: OccurrenceView, range: (u64, u64))
    ensures
        request_ranges(q).contains(range) <==> range == (q.first_line, q.last_line)
            || q.additional_ranges.contains(range),
{
    let list = seq![(q.first_line, q.last_line)] + q.additional_ranges;
    let keys = list.map_values(|p: (u64, u64)| seq![p.0, p.1]);
    let order = ranking(keys);
    ranking_is_permutation(keys);
    squeezing_keeps(sorted_ranges(list), range);
    if sorted_ranges(list).contains(range) {
        let i = sorted_ranges(list).index_of(range);
        let k = order[i];
        assert(list[k] == range);
        if k > 0 {
            assert(q.additional_ranges[k - 1] == range);
        }
    }
    if range == (q.first_line, q.last_line) || q.additional_ranges.contains(range) {
        let k = if range == (q.first_line, q.last_line) {
            0
        } else {
            q.additional_ranges.index_of(range) + 1
        };
        assert(list[k] == range);
        assert(order.contains(k));
        assert(sorted_ranges(list)[order.index_of(k)] == range);
    }
}

} // verus!
