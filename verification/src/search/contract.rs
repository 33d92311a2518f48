//! What signatures say: their inputs, their results, and how they bear on a type.
//! Indexed text is a lead, never a claim that a theorem applies.
use crate::search::patterns::{all_spans, capture_spans, span_views};
use crate::search::tokens::{distinct, leaf, leaf_of, without_repeats};
use crate::text::class::Class;
use crate::text::make::{
    cat2, own, prefix_all, prefix_step, push_str, same, strings, strings_push, strs, strs_push,
    to_chars,
};
use crate::text::pieces::{split_words, words};
use crate::text::scan::{
    after_prefix, bare, bare_start, begins, char_index, cut, ends, ends_with, from_index,
    index_of_byte, opt_str, sans_prefixes, slice, split_once, starts_with, strip_prefix, subtext,
    trim, trim_end_of, trim_start, trimmed_end, without_prefixes,
};
use vstd::prelude::*;

verus! {

broadcast use {strings_push, strs_push};

/// The regular expression of an identifier.
pub open spec fn identifier_pattern() -> Seq<char> {
    "[\\p{L}_][\\p{L}\\p{N}_'.]*"@
}

/// The text of a group of a match.
pub open spec fn group_text(text: Seq<char>, groups: Seq<Option<(usize, usize)>>, k: int) -> Seq<
    char,
> {
    if k < groups.len() && groups[k] is Some {
        let (a, b) = groups[k]->0;
        subtext(text, char_index(text, a as int) as int, char_index(text, b as int) as int)
    } else {
        ""@
    }
}

/// Computes [`group_text`].
pub fn text_of_group<'a>(text: &'a str, groups: &Vec<Option<(usize, usize)>>, k: usize) -> (r:
    &'a str)
    ensures
        r@ == group_text(text@, groups@, k as int),
{
    if k < groups.len() {
        if let Some((a, b)) = groups[k] {
            return slice(text, index_of_byte(text, a), index_of_byte(text, b));
        }
    }
    ""
}

/// The texts of a group of every match.
pub open spec fn group_texts(
    text: Seq<char>,
    spans: Seq<Seq<Option<(usize, usize)>>>,
    k: int,
) -> Seq<Seq<char>> {
    spans.map_values(|groups: Seq<Option<(usize, usize)>>| group_text(text, groups, k))
}

/// Identifiers without a dot at their end.
pub open spec fn undotted(list: Seq<Seq<char>>) -> Seq<Seq<char>> {
    list.map_values(|t: Seq<char>| trimmed_end(t, Class::Is('.')))
}

/// The identifiers at given spans of a text, each once.
pub open spec fn identifiers_at(
    text: Seq<char>,
    spans: Seq<Seq<Option<(usize, usize)>>>,
) -> Seq<Seq<char>> {
    distinct(undotted(group_texts(text, spans, 0)))
}

/// The identifiers of a text, each once.
pub open spec fn identifier_list(text: Seq<char>) -> Seq<Seq<char>> {
    identifiers_at(text, all_spans(identifier_pattern(), text))
}

/// Computes [`identifiers_at`].
pub fn identifiers_from_spans(text: &str, spans: &Vec<Vec<Option<(usize, usize)>>>) -> (r: Vec<
    String,
>)
    ensures
        strings(r@) == identifiers_at(text@, span_views(spans@)),
{
    let ghost wanted = undotted(group_texts(text@, span_views(spans@), 0));
    let mut out: Vec<String> = Vec::new();
    for i in 0..spans.len()
        invariant
            wanted == undotted(group_texts(text@, span_views(spans@), 0)),
            strings(out@) == wanted.take(i as int),
    {
        proof {
            prefix_step(wanted, i as int);
        }
        out.push(own(trim_end_of(text_of_group(text, &spans[i], 0), Class::Is('.'))));
    }
    proof {
        prefix_all(wanted);
    }
    without_repeats(&out)
}

/// Computes [`identifier_list`].
pub fn identifiers(text: &str) -> (r: Vec<String>)
    ensures
        strings(r@) == identifier_list(text@),
{
    identifiers_from_spans(text, &capture_spans("[\\p{L}_][\\p{L}\\p{N}_'.]*", text))
}

/// The regular expression of the names before the colon of a binder.
pub open spec fn binder_pattern() -> Seq<char> {
    "[({⦃]\\s*([^:(){}⦃⦄\\[\\]\\n]+)\\s*:"@
}

/// The identifiers of some texts.
pub open spec fn identifiers_of_all(list: Seq<Seq<char>>) -> Seq<Seq<char>>
    decreases list.len(),
{
    if list.len() == 0 {
        Seq::empty()
    } else {
        identifiers_of_all(list.drop_last()) + identifier_list(list.last())
    }
}

/// The names that the binders of a text bind.
pub open spec fn bound_in(text: Seq<char>) -> Seq<Seq<char>> {
    identifiers_of_all(group_texts(text, all_spans(binder_pattern(), text), 1))
}

/// The names that a signature and the source around it bind, each once.
pub open spec fn bound_names(signature: Seq<char>, source: Option<Seq<char>>) -> Seq<Seq<char>> {
    distinct(
        bound_in(signature) + match source {
            Some(text) => bound_in(text),
            None => Seq::empty(),
        },
    )
}

fn collect_bound(text: &str) -> (r: Vec<String>)
    ensures
        strings(r@) == bound_in(text@),
{
    let spans = capture_spans("[({⦃]\\s*([^:(){}⦃⦄\\[\\]\\n]+)\\s*:", text);
    let ghost texts = group_texts(text@, span_views(spans@), 1);
    let mut out: Vec<String> = Vec::new();
    assert(strings(out@) =~= Seq::empty());
    for i in 0..spans.len()
        invariant
            texts == group_texts(text@, span_views(spans@), 1),
            strings(out@) == identifiers_of_all(texts.take(i as int)),
    {
        proof {
            prefix_step(texts, i as int);
        }
        let mut names = identifiers(text_of_group(text, &spans[i], 1));
        let ghost before = strings(out@);
        let ghost added = strings(names@);
        out.append(&mut names);
        assert(strings(out@) =~= before + added);
    }
    proof {
        prefix_all(texts);
    }
    out
}

/// Computes [`bound_names`].
pub fn bound_input_names(signature: &str, source: Option<&str>) -> (r: Vec<String>)
    ensures
        strings(r@) == bound_names(signature@, opt_str(source)),
{
    let mut out = collect_bound(signature);
    let ghost before = strings(out@);
    match source {
        Some(text) => {
            let mut more = collect_bound(text);
            let ghost added = strings(more@);
            out.append(&mut more);
            assert(strings(out@) =~= before + added);
        },
        None => {
            assert(before + Seq::<Seq<char>>::empty() =~= before);
        },
    }
    without_repeats(&out)
}

/// A name without the marks of the root namespace.
pub open spec fn rootless(name: Seq<char>) -> Seq<char> {
    sans_prefixes(name, "_root_."@)
}

/// Computes [`rootless`].
pub fn without_root<'a>(name: &'a str) -> (r: &'a str)
    ensures
        r@ == rootless(name@),
{
    proof {
        reveal_strlit("_root_.");
    }
    without_prefixes(name, "_root_.")
}

/// A text mentions a name.
pub open spec fn mentioned(text: Seq<char>, name: Seq<char>) -> bool {
    exists|i: int|
        0 <= i < identifier_list(text).len() && rootless(#[trigger] identifier_list(text)[i])
            == rootless(name)
}

/// Decides [`mentioned`].
pub fn mentions(text: &str, name: &str) -> (r: bool)
    ensures
        r == mentioned(text@, name@),
{
    let plain = without_root(name);
    let list = identifiers(text);
    for i in 0..list.len()
        invariant
            strings(list@) == identifier_list(text@),
            plain@ == rootless(name@),
            forall|j: int| 0 <= j < i ==> rootless(#[trigger] strings(list@)[j]) != plain@,
    {
        assert(strings(list@)[i as int] == list@[i as int]@);
        if same(without_root(list[i].as_str()), plain) {
            return true;
        }
    }
    false
}

/// An opening bracket.
pub open spec fn opening(c: char) -> bool {
    c == '(' || c == '[' || c == '{' || c == '⦃'
}

/// A closing bracket.
pub open spec fn closing(c: char) -> bool {
    c == ')' || c == ']' || c == '}' || c == '⦄'
}

/// Decides [`opening`].
pub fn is_opening(c: char) -> (r: bool)
    ensures
        r == opening(c),
{
    c == '(' || c == '[' || c == '{' || c == '⦃'
}

fn is_closing(c: char) -> (r: bool)
    ensures
        r == closing(c),
{
    c == ')' || c == ']' || c == '}' || c == '⦄'
}

/// How deep in brackets the end of a text is; negative where more are closed than
/// opened.
pub open spec fn nesting(text: Seq<char>) -> int
    decreases text.len(),
{
    if text.len() == 0 {
        0
    } else {
        nesting(text.drop_last()) + if opening(text.last()) {
            1int
        } else if closing(text.last()) {
            -1
        } else {
            0
        }
    }
}

/// The first colon outside brackets, from position `i` on.
pub open spec fn outer_colon(text: Seq<char>, i: int) -> Option<int>
    decreases text.len() - i,
{
    if i >= text.len() {
        None
    } else if text[i] == ':' && nesting(text.take(i)) == 0 {
        Some(i)
    } else {
        outer_colon(text, i + 1)
    }
}

/// A signature without the mark of a private declaration.
pub open spec fn public_part(signature: Seq<char>) -> Seq<char> {
    bare_start(
        match after_prefix(signature, "[private]"@) {
            Some(rest) => rest,
            None => signature,
        },
    )
}

/// What a declaration states or gives: what follows the first colon outside brackets.
/// Arrows stay in it, so that no hypothesis is taken for a result.
pub open spec fn stated(signature: Seq<char>) -> Seq<char> {
    let s = public_part(signature);
    match outer_colon(s, 0) {
        Some(i) => bare(s.skip(i + 1)),
        None => bare(s),
    }
}

fn find_outer_colon(text: &Vec<char>) -> (r: Option<usize>)
    ensures
        match r {
            Some(i) => i < text.len() && outer_colon(text@, 0) == Some(i as int),
            None => outer_colon(text@, 0) is None,
        },
{
    let mut depth: i128 = 0;
    assert(text@.take(0) =~= Seq::empty());
    for i in 0..text.len()
        invariant
            -i <= depth <= i,
            depth == nesting(text@.take(i as int)),
            outer_colon(text@, 0) == outer_colon(text@, i as int),
    {
        proof {
            prefix_step(text@, i as int);
        }
        let c = text[i];
        if c == ':' && depth == 0 {
            return Some(i);
        }
        if is_opening(c) {
            depth += 1;
        } else if is_closing(c) {
            depth -= 1;
        }
    }
    None
}

/// Computes [`stated`].
pub fn conclusion<'a>(signature: &'a str) -> (r: &'a str)
    ensures
        r@ == stated(signature@),
{
    let s = match strip_prefix(signature, "[private]") {
        Some(rest) => trim_start(rest),
        None => trim_start(signature),
    };
    let chars = to_chars(s);
    match find_outer_colon(&chars) {
        Some(i) => trim(from_index(s, i + 1)),
        None => trim(s),
    }
}

/// A symbol between two types or terms.
pub open spec fn relation_symbol(c: char) -> bool {
    c == '→' || c == '↔' || c == '≃' || c == '≅' || c == '↪' || c == '×' || c == '=' || c == '<'
        || c == '>'
}

fn is_relation_symbol(c: char) -> (r: bool)
    ensures
        r == relation_symbol(c),
{
    c == '→' || c == '↔' || c == '≃' || c == '≅' || c == '↪' || c == '×' || c == '=' || c == '<'
        || c == '>'
}

/// A relation stands outside brackets.
pub open spec fn outer_relation(text: Seq<char>) -> bool {
    exists|i: int|
        0 <= i < text.len() && relation_symbol(#[trigger] text[i]) && nesting(text.take(i)) == 0
}

/// Decides [`outer_relation`].
pub fn top_level_relation(text: &str) -> (r: bool)
    ensures
        r == outer_relation(text@),
{
    let chars = to_chars(text);
    let mut depth: i128 = 0;
    assert(text@.take(0) =~= Seq::empty());
    for i in 0..chars.len()
        invariant
            chars@ == text@,
            -i <= depth <= i,
            depth == nesting(text@.take(i as int)),
            forall|j: int|
                0 <= j < i ==> !(relation_symbol(#[trigger] text@[j]) && nesting(text@.take(j))
                    == 0),
    {
        proof {
            prefix_step(text@, i as int);
        }
        let c = chars[i];
        if depth == 0 && is_relation_symbol(c) {
            return true;
        }
        if is_opening(c) {
            depth += 1;
        } else if is_closing(c) {
            depth -= 1;
        }
    }
    false
}

/// How deep in round brackets the end of a text is.
pub open spec fn paren_depth(text: Seq<char>) -> int
    decreases text.len(),
{
    if text.len() == 0 {
        0
    } else {
        paren_depth(text.drop_last()) + if text.last() == '(' {
            1int
        } else if text.last() == ')' {
            -1
        } else {
            0
        }
    }
}

/// One pair of round brackets encloses a whole text.
pub open spec fn enclosed(text: Seq<char>) -> bool {
    &&& text.len() >= 2
    &&& text[0] == '('
    &&& text.last() == ')'
    &&& forall|k: int| 0 < k < text.len() ==> paren_depth(#[trigger] text.take(k)) != 0
}

fn is_enclosed(text: &str) -> (r: bool)
    ensures
        r == enclosed(text@),
{
    let chars = to_chars(text);
    let length = chars.len();
    if length < 2 || chars[0] != '(' || chars[length - 1] != ')' {
        return false;
    }
    let mut depth: i128 = 0;
    assert(text@.take(0) =~= Seq::empty());
    let stop = length - 1;
    for i in 0..stop
        invariant
            chars@ == text@,
            length == chars.len(),
            stop == length - 1,
            length >= 2,
            -i <= depth <= i,
            depth == paren_depth(text@.take(i as int)),
            forall|k: int| 0 < k <= i ==> paren_depth(#[trigger] text@.take(k)) != 0,
    {
        proof {
            prefix_step(text@, i as int);
        }
        let c = chars[i];
        if c == '(' {
            depth += 1;
        } else if c == ')' {
            depth -= 1;
        }
        if depth == 0 {
            assert(paren_depth(text@.take(i + 1)) == 0);
            return false;
        }
    }
    true
}

/// A text without the round brackets around it.
pub open spec fn opened(text: Seq<char>) -> Seq<char>
    decreases text.len(),
{
    let t = bare(text);
    if enclosed(t) {
        proof {
            crate::text::scan::trimming_shortens(text, Class::Space);
        }
        opened(t.subrange(1, t.len() - 1))
    } else {
        t
    }
}

/// Computes [`opened`].
pub fn unparen<'a>(text: &'a str) -> (r: &'a str)
    ensures
        r@ == opened(text@),
{
    let mut t = trim(text);
    while is_enclosed(t)
        invariant
            opened(text@) == (if enclosed(t@) {
                opened(t@.subrange(1, t@.len() - 1))
            } else {
                t@
            }),
        decreases t@.len(),
    {
        let length = t.unicode_len();
        let inner = t.substring_char(1, length - 1);
        proof {
            crate::text::scan::trimming_shortens(inner@, Class::Space);
        }
        t = trim(inner);
    }
    t
}

/// A text is a given type, applied to anything.
pub open spec fn is_subject(text: Seq<char>, name: Seq<char>) -> bool {
    let t = opened(text);
    let list = identifier_list(t);
    !outer_relation(t) && list.len() > 0 && (rootless(list[0]) == rootless(name) || list[0] == leaf(
        name,
    ))
}

/// Decides [`is_subject`].
pub fn direct_subject(text: &str, name: &str) -> (r: bool)
    ensures
        r == is_subject(text@, name@),
{
    let t = unparen(text);
    if top_level_relation(t) {
        return false;
    }
    let list = identifiers(t);
    assert(strings(list@).len() == list.len());
    if list.len() == 0 {
        return false;
    }
    assert(strings(list@)[0] == list@[0]@);
    same(without_root(list[0].as_str()), without_root(name)) || same(
        list[0].as_str(),
        leaf_of(name),
    )
}

/// What follows a negation.
pub open spec fn negated(text: Seq<char>) -> Option<Seq<char>> {
    match after_prefix(text, "¬"@) {
        Some(rest) => Some(rest),
        None => after_prefix(text, "Not "@),
    }
}

/// A text is a predicate of a type.
pub open spec fn says_of(text: Seq<char>, predicate: Seq<char>, name: Seq<char>) -> bool {
    match after_prefix(text, predicate) {
        Some(rest) => is_subject(rest, name),
        None => false,
    }
}

fn is_saying_of(text: &str, predicate: &str, name: &str) -> (r: bool)
    ensures
        r == says_of(text@, predicate@, name@),
{
    match strip_prefix(text, predicate) {
        Some(rest) => direct_subject(rest, name),
        None => false,
    }
}

/// How what a declaration states bears on a type.
pub open spec fn bearing(signature: Seq<char>, name: Seq<char>) -> Option<Seq<char>> {
    let result = opened(stated(signature));
    if !mentioned(result, name) && !mentioned(result, leaf(name)) {
        None
    } else if negated(result) is Some && says_of(opened(negated(result)->0), "Nonempty "@, name) {
        Some("obstruction candidate"@)
    } else if says_of(result, "Subsingleton "@, name) {
        Some("subsingleton candidate"@)
    } else if says_of(result, "IsEmpty "@, name) {
        Some("emptiness candidate"@)
    } else if is_subject(result, name) || says_of(result, "Nonempty "@, name) {
        Some("construction candidate"@)
    } else {
        Some("related law candidate"@)
    }
}

/// Computes [`bearing`].
pub fn relation(signature: &str, name: &str) -> (r: Option<&'static str>)
    ensures
        opt_str(r) == bearing(signature@, name@),
{
    let result = unparen(conclusion(signature));
    if !mentions(result, name) && !mentions(result, leaf_of(name)) {
        return None;
    }
    let negative = match strip_prefix(result, "¬") {
        Some(rest) => Some(rest),
        None => strip_prefix(result, "Not "),
    };
    let obstructs = match negative {
        Some(rest) => is_saying_of(unparen(rest), "Nonempty ", name),
        None => false,
    };
    if obstructs {
        Some("obstruction candidate")
    } else if is_saying_of(result, "Subsingleton ", name) {
        Some("subsingleton candidate")
    } else if is_saying_of(result, "IsEmpty ", name) {
        Some("emptiness candidate")
    } else if direct_subject(result, name) || is_saying_of(result, "Nonempty ", name) {
        Some("construction candidate")
    } else {
        Some("related law candidate")
    }
}

proof fn nesting_adds(a: Seq<char>, b: Seq<char>)
    ensures
        nesting(a + b) == nesting(a) + nesting(b),
    decreases b.len(),
{
    if b.len() == 0 {
        assert(a + b =~= a);
    } else {
        assert((a + b).drop_last() =~= a + b.drop_last());
        nesting_adds(a, b.drop_last());
    }
}

proof fn colon_is_first(text: Seq<char>, from: int, i: int)
    requires
        0 <= from <= i < text.len(),
        text[i] == ':',
        nesting(text.take(i)) == 0,
        forall|k: int| from <= k < i && #[trigger] text[k] == ':' ==> nesting(text.take(k)) != 0,
    ensures
        outer_colon(text, from) == Some(i),
    decreases i - from,
{
    if from < i {
        colon_is_first(text, from + 1, i);
    }
}

proof fn no_colon_before(text: Seq<char>, from: int, k: int)
    requires
        0 <= from <= k < text.len(),
        match outer_colon(text, from) {
            Some(i) => k < i,
            None => true,
        },
        text[k] == ':',
    ensures
        nesting(text.take(k)) != 0,
    decreases k - from,
{
    if from < k {
        no_colon_before(text, from + 1, k);
    }
}

proof fn colon_stands(text: Seq<char>, from: int)
    requires
        0 <= from,
        outer_colon(text, from) is Some,
    ensures
        from <= outer_colon(text, from)->0 < text.len(),
        text[outer_colon(text, from)->0] == ':',
        nesting(text.take(outer_colon(text, from)->0)) == 0,
    decreases text.len() - from,
{
    if !(text[from] == ':' && nesting(text.take(from)) == 0) {
        colon_stands(text, from + 1);
    }
}

/// What is left out of the front of a text moves its first colon outside brackets, as
/// long as it holds as many closing as opening brackets and stands before that colon.
proof fn colon_moves(text: Seq<char>, k: int)
    requires
        0 <= k,
        outer_colon(text, 0) matches Some(i) && k <= i,
        nesting(text.take(k)) == 0,
    ensures
        outer_colon(text.skip(k), 0) == Some(outer_colon(text, 0)->0 - k),
{
    let i = outer_colon(text, 0)->0;
    colon_stands(text, 0);
    let rest = text.skip(k);
    assert forall|j: int| 0 <= j <= rest.len() implies #[trigger] nesting(rest.take(j)) == nesting(
        text.take(k + j),
    ) by {
        assert(text.take(k + j) =~= text.take(k) + rest.take(j));
        nesting_adds(text.take(k), rest.take(j));
    }
    assert forall|j: int| 0 <= j < i - k && #[trigger] rest[j] == ':' implies nesting(rest.take(j))
        != 0 by {
        no_colon_before(text, 0, k + j);
    }
    colon_is_first(rest, 0, i - k);
}

proof fn spaces_do_not_matter(text: Seq<char>)
    requires
        outer_colon(text, 0) is Some,
    ensures
        outer_colon(bare_start(text), 0) is Some,
        bare_start(text).skip(outer_colon(bare_start(text), 0)->0 + 1) == text.skip(
            outer_colon(text, 0)->0 + 1,
        ),
    decreases text.len(),
{
    colon_stands(text, 0);
    let i = outer_colon(text, 0)->0;
    if Class::Space.has(text[0]) {
        assert(text.take(1) =~= seq![text[0]]);
        assert(text.take(1).drop_last() =~= Seq::empty());
        assert(nesting(text.take(1)) == 0) by {
            reveal_with_fuel(nesting, 2);
        }
        assert(i > 0);
        colon_moves(text, 1);
        spaces_do_not_matter(text.skip(1));
        assert(text.skip(1).skip(i) =~= text.skip(i + 1));
    }
}

proof fn stated_follows_the_colon(text: Seq<char>)
    requires
        outer_colon(text, 0) is Some,
    ensures
        stated(text) == bare(text.skip(outer_colon(text, 0)->0 + 1)),
{
    let mark = "[private]"@;
    reveal_strlit("[private]");
    colon_stands(text, 0);
    let i = outer_colon(text, 0)->0;
    if begins(text, mark) {
        assert(text.take(9) == mark);
        assert forall|k: int| 0 <= k < 9 implies text[k] == mark[k] by {
            assert(text.take(9)[k] == mark[k]);
        }
        assert(i >= 9);
        assert(nesting(text.take(9)) == 0) by {
            reveal_with_fuel(nesting, 10);
        }
        colon_moves(text, 9);
        spaces_do_not_matter(text.skip(9));
        assert(text.skip(9).skip(i - 9 + 1) =~= text.skip(i + 1));
    } else {
        spaces_do_not_matter(text);
    }
}

/// What a declaration only assumes never makes it an obstruction, nor anything else: it
/// bears on a type as it would if nothing stood before the colon of what it states.
pub proof fn premises_never_obstruct(premises: Seq<char>, result: Seq<char>, name: Seq<char>)
    requires
        nesting(premises) == 0,
        outer_colon(premises, 0) is None,
    ensures
        stated(premises + ":"@ + result) == bare(result),
        bearing(premises + ":"@ + result, name) == bearing(":"@ + result, name),
{
    reveal_strlit(":");
    let n = premises.len() as int;
    let text = premises + ":"@ + result;
    assert(text.take(n) =~= premises);
    assert forall|k: int| 0 <= k < n && #[trigger] text[k] == ':' implies nesting(text.take(k))
        != 0 by {
        assert(text.take(k) =~= premises.take(k));
        no_colon_before(premises, 0, k);
    }
    colon_is_first(text, 0, n);
    stated_follows_the_colon(text);
    assert(text.skip(n + 1) =~= result);
    let alone = ":"@ + result;
    assert(alone.take(0) =~= Seq::empty());
    colon_is_first(alone, 0, 0);
    stated_follows_the_colon(alone);
    assert(alone.skip(1) =~= result);
}

/// A text closes as many brackets as it opens, and none before it opened one.
pub open spec fn bracketed(text: Seq<char>) -> bool {
    &&& nesting(text) == 0
    &&& forall|k: int| 0 <= k <= text.len() ==> nesting(#[trigger] text.take(k)) >= 0
}

/// A hypothesis in brackets, whatever it says, makes no difference to how a declaration
/// bears on a type.
pub proof fn a_hypothesis_never_obstructs(h: Seq<char>, result: Seq<char>, name: Seq<char>)
    requires
        bracketed(h),
    ensures
        bearing("("@ + h + ") : "@ + result, name) == bearing(": "@ + result, name),
{
    reveal_strlit("(");
    reveal_strlit(") : ");
    reveal_strlit(": ");
    reveal_strlit(":");
    let premises = "("@ + h + seq![')', ' '];
    let open = "("@;
    let n = h.len() as int;
    assert(open.drop_last() =~= Seq::empty());
    assert(nesting(open) == 1) by {
        reveal_with_fuel(nesting, 2);
    }
    nesting_adds(open, h);
    let end = seq![')', ' '];
    assert(end.drop_last() =~= seq![')']);
    assert(end.drop_last().drop_last() =~= Seq::empty());
    assert(nesting(end) == -1) by {
        reveal_with_fuel(nesting, 3);
    }
    nesting_adds(open + h, end);
    if outer_colon(premises, 0) is Some {
        colon_stands(premises, 0);
        let i = outer_colon(premises, 0)->0;
        assert(1 <= i <= n);
        assert(premises.take(i) =~= open + h.take(i - 1));
        nesting_adds(open, h.take(i - 1));
    }
    let rest = seq![' '] + result;
    assert(premises + ":"@ + rest =~= "("@ + h + ") : "@ + result);
    assert(":"@ + rest =~= ": "@ + result);
    premises_never_obstruct(premises, rest, name);
}

/// A text is a type of a given name, applied to anything: it is no relation between
/// types, and the first name in it is that name or its last component.
pub open spec fn heads(name: Seq<char>, text: Seq<char>) -> bool {
    let inner = opened(text);
    &&& identifier_list(inner).len() > 0
    &&& rootless(identifier_list(inner)[0]) == rootless(name) || identifier_list(inner)[0] == leaf(
        name,
    )
    &&& forall|i: int|
        0 <= i < inner.len() && nesting(inner.take(i)) == 0 ==> !"→↔≃≅↪×=<>"@.contains(
            #[trigger] inner[i],
        )
}

/// The name that heads a text is among those of a longer text.
pub open spec fn head_stays(text: Seq<char>, longer: Seq<char>) -> bool {
    identifier_list(longer).contains(identifier_list(opened(text))[0])
}

proof fn relations_are_listed(c: char)
    ensures
        relation_symbol(c) <==> "→↔≃≅↪×=<>"@.contains(c),
{
    let all = "→↔≃≅↪×=<>"@;
    reveal_strlit("→↔≃≅↪×=<>");
    if relation_symbol(c) {
        assert(all[0] == '→' && all[1] == '↔' && all[2] == '≃' && all[3] == '≅' && all[4] == '↪'
            && all[5] == '×' && all[6] == '=' && all[7] == '<' && all[8] == '>');
        if c == '→' {
            assert(all.contains(all[0]));
        } else if c == '↔' {
            assert(all.contains(all[1]));
        } else if c == '≃' {
            assert(all.contains(all[2]));
        } else if c == '≅' {
            assert(all.contains(all[3]));
        } else if c == '↪' {
            assert(all.contains(all[4]));
        } else if c == '×' {
            assert(all.contains(all[5]));
        } else if c == '=' {
            assert(all.contains(all[6]));
        } else if c == '<' {
            assert(all.contains(all[7]));
        } else {
            assert(all.contains(all[8]));
        }
    }
    if all.contains(c) {
        let k = all.index_of(c);
        assert(all[k] == c);
    }
}

proof fn heads_are_subjects(name: Seq<char>, text: Seq<char>)
    ensures
        is_subject(text, name) <==> heads(name, text),
{
    let inner = opened(text);
    if outer_relation(inner) {
        let i = choose|i: int|
            0 <= i < inner.len() && relation_symbol(#[trigger] inner[i]) && nesting(inner.take(i))
                == 0;
        relations_are_listed(inner[i]);
    }
    if !outer_relation(inner) {
        assert forall|i: int|
            0 <= i < inner.len() && nesting(inner.take(i)) == 0 implies !"→↔≃≅↪×=<>"@.contains(
            #[trigger] inner[i],
        ) by {
            relations_are_listed(inner[i]);
        }
    }
}

proof fn headed_is_mentioned(name: Seq<char>, text: Seq<char>, longer: Seq<char>)
    requires
        heads(name, text),
        head_stays(text, longer),
    ensures
        mentioned(longer, name) || mentioned(longer, leaf(name)),
{
    let first = identifier_list(opened(text))[0];
    let k = identifier_list(longer).index_of(first);
    assert(identifier_list(longer)[k] == first);
}

proof fn prefixed(prefix: Seq<char>, rest: Seq<char>)
    ensures
        after_prefix(prefix + rest, prefix) == Some(rest),
{
    assert((prefix + rest).take(prefix.len() as int) =~= prefix);
    assert((prefix + rest).skip(prefix.len() as int) =~= rest);
}

proof fn other_prefix(text: Seq<char>, prefix: Seq<char>, i: int)
    requires
        0 <= i < prefix.len(),
        i < text.len() ==> text[i] != prefix[i],
    ensures
        after_prefix(text, prefix) is None,
{
    if begins(text, prefix) {
        assert(text.take(prefix.len() as int)[i] == prefix[i]);
    }
}

/// A declaration that concludes `Nonempty T`, for a `T` that a name heads, is a candidate
/// for a construction of what it names.
pub proof fn nonempty_conclusions_construct(signature: Seq<char>, t: Seq<char>, name: Seq<char>)
    requires
        opened(stated(signature)) == "Nonempty "@ + t,
        heads(name, t),
        head_stays(t, "Nonempty "@ + t),
    ensures
        bearing(signature, name) == Some("construction candidate"@),
{
    let result = "Nonempty "@ + t;
    reveal_strlit("Nonempty ");
    reveal_strlit("Not ");
    reveal_strlit("¬");
    reveal_strlit("Subsingleton ");
    reveal_strlit("IsEmpty ");
    headed_is_mentioned(name, t, result);
    heads_are_subjects(name, t);
    prefixed("Nonempty "@, t);
    other_prefix(result, "¬"@, 0);
    other_prefix(result, "Not "@, 2);
    other_prefix(result, "Subsingleton "@, 0);
    other_prefix(result, "IsEmpty "@, 0);
}

/// A declaration that concludes that `Nonempty T` does not hold, for a `T` that a name
/// heads, is a candidate for an obstruction to what it names.
pub proof fn refuted_conclusions_obstruct(
    signature: Seq<char>,
    refuted: Seq<char>,
    t: Seq<char>,
    name: Seq<char>,
)
    requires
        opened(stated(signature)) == "¬"@ + refuted || opened(stated(signature)) == "Not "@
            + refuted,
        opened(refuted) == "Nonempty "@ + t,
        heads(name, t),
        head_stays(t, opened(stated(signature))),
    ensures
        bearing(signature, name) == Some("obstruction candidate"@),
{
    let result = opened(stated(signature));
    reveal_strlit("Not ");
    reveal_strlit("¬");
    headed_is_mentioned(name, t, result);
    heads_are_subjects(name, t);
    prefixed("Nonempty "@, t);
    prefixed("¬"@, refuted);
    prefixed("Not "@, refuted);
    if result == "Not "@ + refuted {
        other_prefix(result, "¬"@, 0);
    }
}

/// A declaration that concludes `Subsingleton T` or `IsEmpty T`, for a `T` that a name
/// heads, is a candidate for just that of what it names.
pub proof fn small_types_are_told(signature: Seq<char>, t: Seq<char>, name: Seq<char>)
    requires
        heads(name, t),
        head_stays(t, opened(stated(signature))),
    ensures
        opened(stated(signature)) == "Subsingleton "@ + t ==> bearing(signature, name) == Some(
            "subsingleton candidate"@,
        ),
        opened(stated(signature)) == "IsEmpty "@ + t ==> bearing(signature, name) == Some(
            "emptiness candidate"@,
        ),
{
    let result = opened(stated(signature));
    reveal_strlit("Not ");
    reveal_strlit("¬");
    reveal_strlit("Subsingleton ");
    reveal_strlit("IsEmpty ");
    headed_is_mentioned(name, t, result);
    heads_are_subjects(name, t);
    prefixed("Subsingleton "@, t);
    prefixed("IsEmpty "@, t);
    if result == "Subsingleton "@ + t || result == "IsEmpty "@ + t {
        other_prefix(result, "¬"@, 0);
        other_prefix(result, "Not "@, 0);
        if result == "IsEmpty "@ + t {
            other_prefix(result, "Subsingleton "@, 0);
        }
    }
}

/// A declaration that concludes a type that a name heads, and none of the special ones,
/// is a candidate for a construction of what it names.
pub proof fn values_construct(signature: Seq<char>, name: Seq<char>)
    requires
        heads(name, opened(stated(signature))),
        head_stays(opened(stated(signature)), opened(stated(signature))),
        !begins(opened(stated(signature)), "¬"@),
        !begins(opened(stated(signature)), "Not "@),
        !begins(opened(stated(signature)), "Subsingleton "@),
        !begins(opened(stated(signature)), "IsEmpty "@),
    ensures
        bearing(signature, name) == Some("construction candidate"@),
{
    let result = opened(stated(signature));
    headed_is_mentioned(name, result, result);
    heads_are_subjects(name, result);
}

/// A declaration bears on a type just where its conclusion names the type or the last
/// component of its name. It is a mere law where the conclusion is neither the type nor
/// what a predicate says.
pub proof fn only_conclusions_bear(signature: Seq<char>, name: Seq<char>)
    ensures
        ({
            let result = opened(stated(signature));
            let names = |wanted: Seq<char>|
                exists|i: int|
                    0 <= i < identifier_list(result).len() && rootless(
                        #[trigger] identifier_list(result)[i],
                    ) == rootless(wanted);
            &&& bearing(signature, name) is Some <==> names(name) || names(leaf(name))
            &&& bearing(signature, name) is Some && !heads(name, result) && !begins(result, "¬"@)
                && !begins(result, "Not "@) && !begins(result, "Subsingleton "@) && !begins(
                result,
                "IsEmpty "@,
            ) && !begins(result, "Nonempty "@) ==> bearing(signature, name) == Some(
                "related law candidate"@,
            )
        }),
{
    let result = opened(stated(signature));
    heads_are_subjects(name, result);
}

/// The end of the bracket that a text begins with, from `i` characters on.
pub open spec fn bracket_end(text: Seq<char>, i: int) -> Option<int>
    decreases text.len() - i + 1,
{
    if i > text.len() {
        None
    } else if i > 0 && closing(text[i - 1]) && nesting(text.take(i)) == 0 {
        Some(i)
    } else {
        bracket_end(text, i + 1)
    }
}

/// The binders that a text begins with.
pub open spec fn leading_binders(text: Seq<char>) -> Seq<Seq<char>>
    decreases text.len(),
{
    if text.len() > 0 && opening(text[0]) {
        match bracket_end(text, 0) {
            Some(end) => if 0 < end <= text.len() {
                proof {
                    crate::text::scan::trimming_shortens(text.skip(end), Class::Space);
                }
                seq![text.take(end)] + leading_binders(bare_start(text.skip(end)))
            } else {
                Seq::empty()
            },
            None => Seq::empty(),
        }
    } else {
        Seq::empty()
    }
}

/// The outer binders of a signature.
pub open spec fn binder_list(signature: Seq<char>) -> Seq<Seq<char>> {
    leading_binders(bare(signature))
}

fn find_bracket_end(text: &Vec<char>) -> (r: Option<usize>)
    ensures
        match r {
            Some(i) => 0 < i <= text.len() && bracket_end(text@, 0) == Some(i as int),
            None => bracket_end(text@, 0) is None,
        },
{
    let mut depth: i128 = 0;
    assert(text@.take(0) =~= Seq::empty());
    assert(bracket_end(text@, 0) == bracket_end(text@, 1));
    for i in 0..text.len()
        invariant
            -i <= depth <= i,
            depth == nesting(text@.take(i as int)),
            bracket_end(text@, 0) == bracket_end(text@, i + 1),
    {
        proof {
            prefix_step(text@, i as int);
        }
        let c = text[i];
        if is_opening(c) {
            depth += 1;
        } else if is_closing(c) {
            depth -= 1;
            if depth == 0 {
                return Some(i + 1);
            }
        }
    }
    None
}

/// Computes [`binder_list`].
pub fn signature_binders<'a>(signature: &'a str) -> (r: Vec<&'a str>)
    ensures
        strs(r@) == binder_list(signature@),
{
    let mut rest = trim(signature);
    let mut out: Vec<&'a str> = Vec::new();
    loop
        invariant
            binder_list(signature@) == strs(out@) + leading_binders(rest@),
        decreases rest@.len(),
    {
        let chars = to_chars(rest);
        if chars.len() == 0 || !is_opening(chars[0]) {
            assert(strs(out@) + Seq::<Seq<char>>::empty() =~= strs(out@));
            return out;
        }
        match find_bracket_end(&chars) {
            Some(end) => {
                let length = chars.len();
                let binder = rest.substring_char(0, end);
                assert(binder@ =~= rest@.take(end as int));
                let tail = rest.substring_char(end, length);
                assert(tail@ =~= rest@.skip(end as int));
                proof {
                    crate::text::scan::trimming_shortens(tail@, Class::Space);
                }
                let ghost before = strs(out@);
                let ghost whole = leading_binders(rest@);
                out.push(binder);
                rest = trim_start(tail);
                assert(before + (seq![binder@] + leading_binders(rest@)) =~= strs(out@)
                    + leading_binders(rest@));
            },
            None => {
                assert(strs(out@) + Seq::<Seq<char>>::empty() =~= strs(out@));
                return out;
            },
        }
    }
}

/// The inside of a binder.
pub open spec fn binder_inside(binder: Seq<char>) -> Seq<char> {
    subtext(binder, 1, binder.len() - 1)
}

fn inside_of_binder<'a>(binder: &'a str) -> (r: &'a str)
    requires
        binder@.len() > 0,
    ensures
        r@ == binder_inside(binder@),
{
    let length = binder.unicode_len();
    slice(binder, 1, length - 1)
}

/// The type that a binder gives.
pub open spec fn binder_type(binder: Seq<char>) -> Seq<char> {
    bare(
        match cut(binder_inside(binder), ":"@) {
            Some(sides) => sides.1,
            None => binder_inside(binder),
        },
    )
}

fn type_of_binder<'a>(binder: &'a str) -> (r: &'a str)
    requires
        binder@.len() > 0,
    ensures
        r@ == binder_type(binder@),
{
    let inside = inside_of_binder(binder);
    match split_once(inside, ":") {
        Some((_, ty)) => trim(ty),
        None => trim(inside),
    }
}

/// The binders of a list that are written in round brackets, or those that are not.
pub open spec fn binders_by_kind(list: Seq<Seq<char>>, explicit: bool) -> Seq<Seq<char>>
    decreases list.len(),
{
    if list.len() == 0 {
        Seq::empty()
    } else if begins(list.last(), "("@) == explicit {
        binders_by_kind(list.drop_last(), explicit).push(list.last())
    } else {
        binders_by_kind(list.drop_last(), explicit)
    }
}

fn select_binders<'a>(list: &Vec<&'a str>, explicit: bool) -> (r: Vec<&'a str>)
    requires
        forall|i: int| 0 <= i < list.len() ==> (#[trigger] list@[i])@.len() > 0,
    ensures
        strs(r@) == binders_by_kind(strs(list@), explicit),
        forall|i: int| 0 <= i < r.len() ==> (#[trigger] r@[i])@.len() > 0,
{
    let ghost views = strs(list@);
    let mut out: Vec<&'a str> = Vec::new();
    assert(strs(out@) =~= Seq::empty());
    for i in 0..list.len()
        invariant
            views == strs(list@),
            forall|j: int| 0 <= j < list.len() ==> (#[trigger] list@[j])@.len() > 0,
            strs(out@) == binders_by_kind(views.take(i as int), explicit),
            forall|j: int| 0 <= j < out.len() ==> (#[trigger] out@[j])@.len() > 0,
    {
        proof {
            prefix_step(views, i as int);
        }
        assert(views[i as int] == list@[i as int]@);
        if starts_with(list[i], "(") == explicit {
            out.push(list[i]);
        }
    }
    proof {
        prefix_all(views);
    }
    out
}

proof fn binders_are_not_empty(text: Seq<char>)
    ensures
        forall|i: int|
            0 <= i < leading_binders(text).len() ==> (#[trigger] leading_binders(text)[i]).len()
                > 0,
    decreases text.len(),
{
    if text.len() > 0 && opening(text[0]) {
        match bracket_end(text, 0) {
            Some(end) => if 0 < end <= text.len() {
                let rest = bare_start(text.skip(end));
                crate::text::scan::trimming_shortens(text.skip(end), Class::Space);
                binders_are_not_empty(rest);
                let list = leading_binders(text);
                assert forall|i: int| 0 <= i < list.len() implies (#[trigger] list[i]).len()
                    > 0 by {
                    if i > 0 {
                        assert(list[i] == leading_binders(rest)[i - 1]);
                    }
                }
            },
            None => {},
        }
    }
}

/// The first identifiers of the types of binders.
pub open spec fn type_heads(list: Seq<Seq<char>>) -> Seq<Seq<char>>
    decreases list.len(),
{
    if list.len() == 0 {
        Seq::empty()
    } else {
        let names = identifier_list(binder_type(list.last()));
        if names.len() > 0 {
            type_heads(list.drop_last()).push(names[0])
        } else {
            type_heads(list.drop_last())
        }
    }
}

/// The heads of the types that a signature takes, those of explicit inputs first.
pub open spec fn head_list(signature: Seq<char>) -> Seq<Seq<char>> {
    let list = binder_list(signature);
    type_heads(binders_by_kind(list, true) + binders_by_kind(list, false))
}

/// Computes [`head_list`].
pub fn input_heads(signature: &str) -> (r: Vec<String>)
    ensures
        strings(r@) == head_list(signature@),
{
    let list = signature_binders(signature);
    proof {
        binders_are_not_empty(bare(signature@));
        assert forall|i: int| 0 <= i < list.len() implies (#[trigger] list@[i])@.len() > 0 by {
            assert(strs(list@)[i] == list@[i]@);
        }
    }
    let mut all = select_binders(&list, true);
    let mut rest = select_binders(&list, false);
    let ghost first = strs(all@);
    let ghost second = strs(rest@);
    all.append(&mut rest);
    assert(strs(all@) =~= first + second);
    let ghost views = strs(all@);
    let mut out: Vec<String> = Vec::new();
    assert(strings(out@) =~= Seq::empty());
    for i in 0..all.len()
        invariant
            views == strs(all@),
            forall|j: int| 0 <= j < all.len() ==> (#[trigger] all@[j])@.len() > 0,
            strings(out@) == type_heads(views.take(i as int)),
    {
        proof {
            prefix_step(views, i as int);
        }
        assert(views[i as int] == all@[i as int]@);
        let names = identifiers(type_of_binder(all[i]));
        assert(strings(names@).len() == names.len());
        if names.len() > 0 {
            assert(strings(names@)[0] == names@[0]@);
            out.push(names[0].clone());
        }
    }
    proof {
        prefix_all(views);
    }
    out
}

/// A binder takes a value of a type.
pub open spec fn binder_takes(binder: Seq<char>, subject: Seq<char>) -> bool {
    match cut(binder_inside(binder), ":"@) {
        Some(sides) => is_subject(bare(sides.1), subject),
        None => false,
    }
}

/// A construction of a type that takes a value of the same type.
pub open spec fn needs_subject(signature: Seq<char>, subject: Seq<char>) -> bool {
    exists|i: int|
        0 <= i < binder_list(signature).len() && binder_takes(
            #[trigger] binder_list(signature)[i],
            subject,
        )
}

/// Decides [`needs_subject`].
pub fn construction_needs_subject(signature: &str, subject: &str) -> (r: bool)
    ensures
        r == needs_subject(signature@, subject@),
{
    let list = signature_binders(signature);
    proof {
        binders_are_not_empty(bare(signature@));
    }
    for i in 0..list.len()
        invariant
            strs(list@) == binder_list(signature@),
            forall|j: int|
                0 <= j < binder_list(signature@).len() ==> (#[trigger] binder_list(
                    signature@,
                )[j]).len() > 0,
            forall|j: int|
                0 <= j < i ==> !binder_takes(#[trigger] strs(list@)[j], subject@),
    {
        assert(strs(list@)[i as int] == list@[i as int]@);
        let takes = match split_once(inside_of_binder(list[i]), ":") {
            Some((_, ty)) => direct_subject(trim(ty), subject),
            None => false,
        };
        if takes {
            return true;
        }
    }
    false
}

/// Words filled into lines of 180 characters: the finished lines, and the line that is
/// being filled.
pub open spec fn filled(label: Seq<char>, list: Seq<Seq<char>>) -> (Seq<char>, Seq<char>)
    decreases list.len(),
{
    if list.len() == 0 {
        (Seq::empty(), label)
    } else {
        let (done, line) = filled(label, list.drop_last());
        let word = list.last();
        let breaks = line.len() + word.len() + 1 > 180;
        let finished = if breaks {
            done + line + "\n"@
        } else {
            done
        };
        let start = if breaks {
            "  "@
        } else {
            line
        };
        (
            finished,
            (if ends(start, " "@) {
                start
            } else {
                start + " "@
            }) + word,
        )
    }
}

/// A labelled text in lines of 180 characters.
pub open spec fn wrapped(label: Seq<char>, text: Seq<char>) -> Seq<char> {
    let (done, line) = filled(label, words(text));
    done + line + "\n"@
}

/// Computes [`wrapped`].
pub fn wrapped_contract_line(label: &str, text: &str) -> (r: String)
    ensures
        r@ == wrapped(label@, text@),
{
    let list = split_words(text);
    let ghost views = strs(list@);
    let mut done = String::new();
    let mut line = own(label);
    for i in 0..list.len()
        invariant
            views == strs(list@),
            (done@, line@) == filled(label@, views.take(i as int)),
    {
        proof {
            prefix_step(views, i as int);
        }
        assert(views[i as int] == list@[i as int]@);
        let word = list[i];
        let breaks = line.as_str().unicode_len() as u128 + word.unicode_len() as u128 + 1 > 180;
        if breaks {
            push_str(&mut done, line.as_str());
            push_str(&mut done, "\n");
            line = own("  ");
        }
        if !ends_with(line.as_str(), " ") {
            push_str(&mut line, " ");
        }
        push_str(&mut line, word);
    }
    proof {
        prefix_all(views);
    }
    push_str(&mut done, line.as_str());
    push_str(&mut done, "\n");
    done
}

/// Labelled texts, each in lines of its own.
pub open spec fn wrapped_all(label: Seq<char>, list: Seq<Seq<char>>) -> Seq<char>
    decreases list.len(),
{
    if list.len() == 0 {
        Seq::empty()
    } else {
        wrapped_all(label, list.drop_last()) + wrapped(label, list.last())
    }
}

fn wrap_all(label: &str, list: &Vec<&str>) -> (r: String)
    ensures
        r@ == wrapped_all(label@, strs(list@)),
{
    let ghost views = strs(list@);
    let mut out = String::new();
    for i in 0..list.len()
        invariant
            views == strs(list@),
            out@ == wrapped_all(label@, views.take(i as int)),
    {
        proof {
            prefix_step(views, i as int);
        }
        assert(views[i as int] == list@[i as int]@);
        push_str(&mut out, wrapped_contract_line(label, list[i]).as_str());
    }
    proof {
        prefix_all(views);
    }
    out
}

/// What a declaration assumes: its result first, then its explicit inputs, then the
/// others.
pub open spec fn assumptions(signature: Seq<char>) -> Seq<char> {
    let private = after_prefix(signature, "[private]"@) is Some;
    let visibility = if private {
        "visibility: private; not a public API in importing modules.\n"@
    } else {
        ""@
    };
    let plain = if private {
        bare_start(after_prefix(signature, "[private]"@)->0)
    } else {
        signature
    };
    let list = binder_list(plain);
    if list.len() == 0 {
        visibility + wrapped("signature (premises retained):"@, plain)
    } else {
        (if stated(plain) == bare(plain) {
            ""@
        } else {
            wrapped("result (indexed):"@, stated(plain))
        }) + visibility + "signature (premises retained); explicit inputs first:\n"@ + wrapped_all(
            "input:"@,
            binders_by_kind(list, true),
        ) + wrapped_all("implicit/context:"@, binders_by_kind(list, false))
            + "Section parameters may be implicit; #inspect resolves the full Lean contract.\n"@
    }
}

/// Computes [`assumptions`].
pub fn assumption_signature(signature: &str) -> (r: String)
    ensures
        r@ == assumptions(signature@),
{
    let (visibility, plain) = match strip_prefix(signature, "[private]") {
        Some(rest) => (
            "visibility: private; not a public API in importing modules.\n",
            trim_start(rest),
        ),
        None => ("", signature),
    };
    let list = signature_binders(plain);
    proof {
        binders_are_not_empty(bare(plain@));
        assert forall|i: int| 0 <= i < list.len() implies (#[trigger] list@[i])@.len() > 0 by {
            assert(strs(list@)[i] == list@[i]@);
        }
    }
    assert(strs(list@).len() == list.len());
    if list.len() == 0 {
        return cat2(
            visibility,
            wrapped_contract_line("signature (premises retained):", plain).as_str(),
        );
    }
    let result = conclusion(plain);
    let mut out = if same(result, trim(plain)) {
        own("")
    } else {
        wrapped_contract_line("result (indexed):", result)
    };
    push_str(&mut out, visibility);
    push_str(&mut out, "signature (premises retained); explicit inputs first:\n");
    push_str(&mut out, wrap_all("input:", &select_binders(&list, true)).as_str());
    push_str(&mut out, wrap_all("implicit/context:", &select_binders(&list, false)).as_str());
    push_str(
        &mut out,
        "Section parameters may be implicit; #inspect resolves the full Lean contract.\n",
    );
    out
}

} // verus!
