//! Names of declarations in queries.
use crate::failure::{refuse, unit_view, Failure};
use crate::search::patterns::{escape, escaped, matches_pattern, pattern_matches};
use crate::search::tokens::{change_digits, leaf, leaf_of, other_digits, query_tokens, query_words};
use crate::search::warning::{replace_char, replaced};
use crate::text::class::{all_of, is_all, is_uppercase, uppercase, Class};
use crate::text::make::{
    alike, cat2, cat3, join, joined, lower, lowercased, own, prefix_all, prefix_step, same,
    same_ignoring_case, strings, strings_push, strs, strs_push, to_chars, to_lower, to_lowercase,
    from_chars, push_str,
};
use crate::text::pieces::{bare_all, pieces, split, split_words, trim_all, words};
use crate::text::scan::{
    bare, before_suffix, begins, contains, ends, ends_with, is_blank, opt_str, opt_string, rcut,
    rsplit_once, sans_prefix, starts_with, strip_prefix, strip_suffix, trim, without_prefix,
    after_prefix, blank,
};
use vstd::prelude::*;

verus! {

broadcast use {strings_push, strs_push};

/// A text that can only be the name of a declaration.
pub open spec fn name_query(query: Seq<char>) -> bool {
    let q = bare(query);
    q.len() > 0 && !begins(q, "."@) && !ends(q, "."@) && all_of(q, Class::Word("_.'"))
}

/// Decides [`name_query`].
pub fn declaration_name_query(query: &str) -> (r: bool)
    ensures
        r == name_query(query@),
{
    let q = trim(query);
    !q.is_empty() && !starts_with(q, ".") && !ends_with(q, ".") && is_all(q, Class::Word("_.'"))
}

/// A word that asks for the fields of a structure.
pub open spec fn field_word(t: Seq<char>) -> bool {
    ||| t == "field"@ || t == "fields"@ || t == "projection"@ || t == "projections"@
}

/// Decides [`field_word`].
pub fn is_field_word(t: &str) -> (r: bool)
    ensures
        r == field_word(t@),
{
    same(t, "field")
        || same(t, "fields")
        || same(t, "projection")
        || same(t, "projections")
}

/// The structure whose fields a query asks for.
pub open spec fn field_inventory(query: Seq<char>) -> Option<Seq<char>> {
    let list = words(query);
    let named = if list.len() == 2 {
        Some((list[0], list[1]))
    } else if list.len() == 3 && (lower(list[0]) == "class"@ || lower(list[0]) == "structure"@) {
        Some((list[1], list[2]))
    } else {
        None
    };
    match named {
        Some((name, facet)) => if name_query(name) && field_word(lower(facet)) {
            Some(name)
        } else {
            None
        },
        None => None,
    }
}

/// Computes [`field_inventory`].
pub fn field_inventory_query<'a>(query: &'a str) -> (r: Option<&'a str>)
    ensures
        opt_str(r) == field_inventory(query@),
{
    let list = split_words(query);
    let ghost views = strs(list@);
    assert(views.len() == list.len());
    let (name, facet) = if list.len() == 2 {
        assert(views[0] == list@[0]@ && views[1] == list@[1]@);
        (list[0], list[1])
    } else if list.len() == 3 {
        assert(views[0] == list@[0]@ && views[1] == list@[1]@ && views[2] == list@[2]@);
        let kind = to_lower(list[0]);
        if same(kind.as_str(), "class") || same(kind.as_str(), "structure") {
            (list[1], list[2])
        } else {
            return None;
        }
    } else {
        return None;
    };
    if declaration_name_query(name) && is_field_word(to_lower(facet).as_str()) {
        Some(name)
    } else {
        None
    }
}

/// Why a search inside a submission is refused.
pub open spec fn submission_refinement(reference: Seq<char>, refinement: Seq<char>) -> Result<
    (),
    Seq<char>,
> {
    if bare(refinement).len() > 0 {
        Ok(())
    } else {
        Err(
            reference + " requires search terms; use show "@ + reference
                + " first, then --all only if needed"@,
        )
    }
}

/// A search inside a submission needs terms.
pub fn require_submission_refinement(reference: &str, refinement: &str) -> (r: Result<(), Failure>)
    ensures
        unit_view(r) == submission_refinement(reference@, refinement@),
{
    if trim(refinement).is_empty() {
        let mut message = cat3(reference, " requires search terms; use show ", reference);
        push_str(&mut message, " first, then --all only if needed");
        refuse(message.as_str())
    } else {
        Ok(())
    }
}

/// A name without the mark of the root namespace.
pub open spec fn canonical(name: Seq<char>) -> Seq<char> {
    sans_prefix(name, "_root_."@)
}

/// Computes [`canonical`].
pub fn canonical_declaration_name<'a>(name: &'a str) -> (r: &'a str)
    ensures
        r@ == canonical(name@),
{
    without_prefix(name, "_root_.")
}

/// A name to compare by: canonical, with plain digits, in lower case.
pub open spec fn compared(name: Seq<char>) -> Seq<char> {
    lowercased(other_digits(canonical(name), false))
}

fn comparable(name: &str) -> (r: String)
    ensures
        r@ == compared(name@),
{
    to_lowercase(change_digits(canonical_declaration_name(name), false).as_str())
}

/// The suffix `part` of `name` begins at a component.
pub open spec fn dotted_suffix(name: Seq<char>, part: Seq<char>) -> bool {
    match before_suffix(name, part) {
        Some(prefix) => ends(prefix, "."@),
        None => false,
    }
}

fn has_dotted_suffix(name: &str, part: &str) -> (r: bool)
    ensures
        r == dotted_suffix(name@, part@),
{
    match strip_suffix(name, part) {
        Some(prefix) => ends_with(prefix, "."),
        None => false,
    }
}

/// `query` is the name or its last components.
pub open spec fn qualified_match(name: Seq<char>, query: Seq<char>) -> bool {
    let n = compared(name);
    let q = compared(bare(query));
    n == q || dotted_suffix(n, q)
}

/// Decides [`qualified_match`].
pub fn qualified_name_matches(name: &str, query: &str) -> (r: bool)
    ensures
        r == qualified_match(name@, query@),
{
    let n = comparable(name);
    let q = comparable(trim(query));
    same(n.as_str(), q.as_str()) || has_dotted_suffix(n.as_str(), q.as_str())
}

/// `query` names the declaration: in full, or by its last component where it has no dot.
pub open spec fn exact_match(name: Seq<char>, query: Seq<char>) -> bool {
    let n = canonical(name);
    let q = canonical(bare(query));
    alike(n, q) || (!q.contains('.') && dotted_suffix(n, q))
}

/// Decides [`exact_match`].
pub fn exact_declaration_name_matches(name: &str, query: &str) -> (r: bool)
    ensures
        r == exact_match(name@, query@),
{
    let n = canonical_declaration_name(name);
    let q = canonical_declaration_name(trim(query));
    same_ignoring_case(n, q) || (!crate::text::class::has_char(q, '.') && has_dotted_suffix(n, q))
}

/// The name before the last underscore, where what follows is a word and the name is
/// long enough to search for.
pub open spec fn suffix_base(query: Seq<char>) -> Option<Seq<char>> {
    match rcut(query, "_"@) {
        Some((base, suffix)) => if suffix.len() > 0 && all_of(suffix, Class::Word("")) && leaf(
            base,
        ).len() >= 4 && name_query(base) {
            Some(base)
        } else {
            None
        },
        None => None,
    }
}

/// Computes [`suffix_base`].
pub fn declaration_suffix_base<'a>(query: &'a str) -> (r: Option<&'a str>)
    ensures
        opt_str(r) == suffix_base(query@),
{
    match rsplit_once(query, "_") {
        Some((base, suffix)) => if !suffix.is_empty() && is_all(suffix, Class::Word(""))
            && leaf_of(base).unicode_len() >= 4 && declaration_name_query(base) {
            Some(base)
        } else {
            None
        },
        None => None,
    }
}

/// What a predicate says of a thing: `empty` for `is_empty` and for `isEmpty`.
pub open spec fn predicate_rest(last: Seq<char>) -> Option<Seq<char>> {
    match after_prefix(last, "is_"@) {
        Some(rest) => Some(rest),
        None => match after_prefix(last, "is"@) {
            Some(rest) => if rest.len() > 0 && uppercase(rest[0]) {
                Some(lowercased(rest.take(1)) + rest.skip(1))
            } else {
                None
            },
            None => None,
        },
    }
}

fn rest_of_predicate(last: &str) -> (r: Option<String>)
    ensures
        opt_string(r) == predicate_rest(last@),
{
    if let Some(rest) = strip_prefix(last, "is_") {
        return Some(own(rest));
    }
    let rest = strip_prefix(last, "is")?;
    let length = rest.unicode_len();
    if length == 0 {
        return None;
    }
    let first = rest.substring_char(0, 1);
    assert(first@ =~= rest@.take(1));
    let tail = rest.substring_char(1, length);
    assert(tail@ =~= rest@.skip(1));
    if !is_uppercase(rest.get_char(0)) {
        return None;
    }
    Some(cat2(to_lowercase(first).as_str(), tail))
}

/// The name that a predicate is about.
pub open spec fn predicate_base(query: Seq<char>) -> Option<Seq<char>> {
    match rcut(query, "."@) {
        Some((owner, last)) => match predicate_rest(last) {
            Some(rest) => if rest.len() > 0 {
                Some(owner + "."@ + rest)
            } else {
                None
            },
            None => None,
        },
        None => match predicate_rest(query) {
            Some(rest) => if rest.len() > 0 {
                Some(rest)
            } else {
                None
            },
            None => None,
        },
    }
}

/// Computes [`predicate_base`].
pub fn declaration_predicate_base(query: &str) -> (r: Option<String>)
    ensures
        opt_string(r) == predicate_base(query@),
{
    match rsplit_once(query, ".") {
        Some((owner, last)) => {
            let rest = rest_of_predicate(last)?;
            if rest.as_str().is_empty() {
                None
            } else {
                Some(cat3(owner, ".", rest.as_str()))
            }
        },
        None => {
            let rest = rest_of_predicate(query)?;
            if rest.as_str().is_empty() {
                None
            } else {
                Some(rest)
            }
        },
    }
}

/// How many characters of a text belong to a class.
pub open spec fn tally(text: Seq<char>, class: Class) -> nat
    decreases text.len(),
{
    if text.len() == 0 {
        0
    } else {
        tally(text.drop_last(), class) + if class.has(text.last()) {
            1nat
        } else {
            0nat
        }
    }
}

/// Computes [`tally`].
pub fn count_chars(text: &str, class: Class) -> (r: usize)
    ensures
        r == tally(text@, class),
{
    let chars = to_chars(text);
    let mut count: usize = 0;
    for i in 0..chars.len()
        invariant
            chars@ == text@,
            count <= i,
            count == tally(text@.take(i as int), class),
    {
        proof {
            prefix_step(text@, i as int);
        }
        if class.holds(chars[i]) {
            count += 1;
        }
    }
    proof {
        prefix_all(text@);
    }
    count
}

/// The alternatives of a query.
pub open spec fn alternatives(query: Seq<char>) -> Seq<Seq<char>> {
    bare_all(pieces(query, Class::Is('|')))
}

/// Computes [`alternatives`].
pub fn split_alternatives<'a>(query: &'a str) -> (r: Vec<&'a str>)
    ensures
        strs(r@) == alternatives(query@),
{
    trim_all(&split(query, Class::Is('|')))
}

/// An alternative of a query with wildcards.
pub open spec fn glob_part(part: Seq<char>) -> bool {
    tally(part, Class::Word("")) >= 2 && all_of(part, Class::Word("_.'*"))
}

/// A query for declarations by a name with wildcards.
pub open spec fn glob_query(query: Seq<char>) -> bool {
    let list = alternatives(query);
    &&& exists|i: int| 0 <= i < list.len() && (#[trigger] list[i]).contains('*')
    &&& forall|i: int| 0 <= i < list.len() ==> glob_part(#[trigger] list[i])
}

/// Decides [`glob_query`].
pub fn declaration_glob_query(query: &str) -> (r: bool)
    ensures
        r == glob_query(query@),
{
    let list = split_alternatives(query);
    let ghost views = strs(list@);
    let mut starred = false;
    for i in 0..list.len()
        invariant
            views == strs(list@),
            views == alternatives(query@),
            starred == exists|j: int| 0 <= j < i && (#[trigger] views[j]).contains('*'),
            forall|j: int| 0 <= j < i ==> glob_part(#[trigger] views[j]),
    {
        let part = list[i];
        assert(views[i as int] == part@);
        if crate::text::class::has_char(part, '*') {
            starred = true;
        }
        if !(count_chars(part, Class::Word("")) >= 2 && is_all(part, Class::Word("_.'*"))) {
            return false;
        }
    }
    starred
}

/// The terms of the full-text index for one alternative.
pub open spec fn glob_terms(list: Seq<Seq<char>>) -> Seq<Seq<char>> {
    list.map_values(|t: Seq<char>| "name : \""@ + replaced(t, '"', "\"\""@) + "\"*"@)
}

/// The queries of the full-text index for the alternatives that have terms.
pub open spec fn glob_groups(list: Seq<Seq<char>>) -> Seq<Seq<char>>
    decreases list.len(),
{
    if list.len() == 0 {
        Seq::empty()
    } else {
        let earlier = glob_groups(list.drop_last());
        let terms = query_words(list.last());
        if terms.len() > 0 {
            earlier.push("("@ + joined(glob_terms(terms), " AND "@) + ")"@)
        } else {
            earlier
        }
    }
}

/// The query of the full-text index for a query with wildcards.
pub open spec fn glob_index_query(query: Seq<char>) -> Option<Seq<char>> {
    if glob_query(query) {
        Some(joined(glob_groups(pieces(query, Class::Is('|'))), " OR "@))
    } else {
        None
    }
}

fn name_terms(terms: &Vec<String>) -> (r: Vec<String>)
    ensures
        strings(r@) == glob_terms(strings(terms@)),
{
    let ghost wanted = glob_terms(strings(terms@));
    let mut out: Vec<String> = Vec::new();
    for i in 0..terms.len()
        invariant
            wanted == glob_terms(strings(terms@)),
            strings(out@) == wanted.take(i as int),
    {
        proof {
            prefix_step(wanted, i as int);
        }
        let quoted = replace_char(terms[i].as_str(), '"', "\"\"");
        out.push(cat3("name : \"", quoted.as_str(), "\"*"));
    }
    proof {
        prefix_all(wanted);
    }
    out
}

/// Computes [`glob_index_query`].
pub fn declaration_glob_fts_query(query: &str) -> (r: Option<String>)
    ensures
        opt_string(r) == glob_index_query(query@),
{
    if !declaration_glob_query(query) {
        return None;
    }
    let list = split(query, Class::Is('|'));
    let ghost views = strs(list@);
    let mut groups: Vec<String> = Vec::new();
    for i in 0..list.len()
        invariant
            views == strs(list@),
            strings(groups@) == glob_groups(views.take(i as int)),
    {
        proof {
            prefix_step(views, i as int);
        }
        assert(views[i as int] == list@[i as int]@);
        let terms = query_tokens(list[i]);
        assert(strings(terms@).len() == terms.len());
        if terms.len() > 0 {
            let inner = join(&name_terms(&terms), " AND ");
            groups.push(cat3("(", inner.as_str(), ")"));
        }
    }
    proof {
        prefix_all(views);
    }
    Some(join(&groups, " OR "))
}

/// What a character of a name with wildcards stands for in a regular expression: a star
/// for anything, a dot for a dot or an underscore, and next to a star for nothing too.
pub open spec fn glob_char(query: Seq<char>, i: int) -> Seq<char> {
    let c = query[i];
    if c == '*' {
        ".*"@
    } else if c == '.' {
        if (i > 0 && query[i - 1] == '*') || (i + 1 < query.len() && query[i + 1] == '*') {
            "[._]?"@
        } else {
            "[._]"@
        }
    } else {
        escaped(seq![c])
    }
}

/// The first `n` characters of a name with wildcards as a regular expression.
pub open spec fn glob_chars(query: Seq<char>, n: nat) -> Seq<char>
    decreases n,
{
    if n == 0 {
        Seq::empty()
    } else {
        glob_chars(query, (n - 1) as nat) + glob_char(query, n - 1)
    }
}

/// The regular expression for a name with wildcards: it ends with the name, and begins
/// at a component unless the name begins with a star.
pub open spec fn glob_pattern(query: Seq<char>) -> Seq<char> {
    (if begins(query, "*"@) {
        "(?i)"@
    } else {
        "(?i)(?:^|\\.)"@
    }) + glob_chars(query, query.len()) + "$"@
}

/// Computes [`glob_pattern`].
pub fn glob_expression(query: &str) -> (r: String)
    ensures
        r@ == glob_pattern(query@),
{
    let chars = to_chars(query);
    let mut body = String::new();
    for i in 0..chars.len()
        invariant
            chars@ == query@,
            body@ == glob_chars(query@, i as nat),
    {
        let c = chars[i];
        if c == '*' {
            push_str(&mut body, ".*");
        } else if c == '.' {
            let beside = (i > 0 && chars[i - 1] == '*') || (i + 1 < chars.len() && chars[i + 1]
                == '*');
            if beside {
                push_str(&mut body, "[._]?");
            } else {
                push_str(&mut body, "[._]");
            }
        } else {
            let mut one: Vec<char> = Vec::new();
            one.push(c);
            assert(one@ =~= seq![c]);
            push_str(&mut body, escape(from_chars(&one).as_str()).as_str());
        }
    }
    if starts_with(query, "*") {
        cat3("(?i)", body.as_str(), "$")
    } else {
        cat3("(?i)(?:^|\\.)", body.as_str(), "$")
    }
}

/// A name matches a name with wildcards.
pub open spec fn glob_match(name: Seq<char>, query: Seq<char>) -> bool {
    pattern_matches(glob_pattern(query), name)
}

/// Decides [`glob_match`].
pub fn declaration_glob_matches(name: &str, query: &str) -> (r: bool)
    ensures
        r == glob_match(name@, query@),
{
    matches_pattern(glob_expression(query).as_str(), name)
}

/// A name matches one alternative of a query.
pub open spec fn part_match(name: Seq<char>, part: Seq<char>) -> bool {
    if part.contains('*') {
        glob_match(name, part)
    } else {
        qualified_match(name, part)
    }
}

/// A name matches some alternative of a query.
pub open spec fn alternative_match(name: Seq<char>, query: Seq<char>) -> bool {
    exists|i: int|
        0 <= i < alternatives(query).len() && part_match(name, #[trigger] alternatives(query)[i])
}

/// Decides [`alternative_match`].
pub fn declaration_alternative_matches(name: &str, query: &str) -> (r: bool)
    ensures
        r == alternative_match(name@, query@),
{
    let list = split_alternatives(query);
    let ghost views = strs(list@);
    for i in 0..list.len()
        invariant
            views == strs(list@),
            views == alternatives(query@),
            forall|j: int| 0 <= j < i ==> !part_match(name@, #[trigger] views[j]),
    {
        let part = list[i];
        assert(views[i as int] == part@);
        let found = if crate::text::class::has_char(part, '*') {
            declaration_glob_matches(name, part)
        } else {
            qualified_name_matches(name, part)
        };
        if found {
            return true;
        }
    }
    false
}

/// A name matches some alternative, and its last component the alternative's.
pub open spec fn glob_leaf_match(name: Seq<char>, query: Seq<char>) -> bool {
    exists|i: int|
        0 <= i < alternatives(query).len() && {
            let part = #[trigger] alternatives(query)[i];
            glob_match(name, part) && glob_match(leaf(canonical(name)), leaf(part))
        }
}

/// Decides [`glob_leaf_match`].
pub fn declaration_glob_leaf_matches(name: &str, query: &str) -> (r: bool)
    ensures
        r == glob_leaf_match(name@, query@),
{
    let last = leaf_of(canonical_declaration_name(name));
    let list = split_alternatives(query);
    let ghost views = strs(list@);
    for i in 0..list.len()
        invariant
            views == strs(list@),
            views == alternatives(query@),
            last@ == leaf(canonical(name@)),
            forall|j: int|
                0 <= j < i ==> !(glob_match(name@, #[trigger] views[j]) && glob_match(
                    last@,
                    leaf(views[j]),
                )),
    {
        let part = list[i];
        assert(views[i as int] == part@);
        if declaration_glob_matches(name, part) && declaration_glob_matches(last, leaf_of(part)) {
            return true;
        }
    }
    false
}

/// A word that announces the name of a declaration.
pub open spec fn named_kind(t: Seq<char>) -> bool {
    ||| t == "abbrev"@ || t == "class"@ || t == "declaration"@ || t == "def"@
    ||| t == "definition"@ || t == "inductive"@ || t == "instance"@ || t == "lemma"@
    ||| t == "structure"@ || t == "theorem"@
}

/// Decides [`named_kind`].
pub fn is_named_kind(t: &str) -> (r: bool)
    ensures
        r == named_kind(t@),
{
    same(t, "abbrev")
        || same(t, "class")
        || same(t, "declaration")
        || same(t, "def")
        || same(t, "definition")
        || same(t, "inductive")
        || same(t, "instance")
        || same(t, "lemma")
        || same(t, "structure")
        || same(t, "theorem")
}

/// A word that asks for a part of a declaration.
pub open spec fn facet_word(t: Seq<char>) -> bool {
    ||| t == "body"@ || t == "constructors"@ || t == "fields"@ || t == "implementation"@
    ||| t == "proof"@ || t == "source"@
}

/// Decides [`facet_word`].
pub fn is_facet_word(t: &str) -> (r: bool)
    ensures
        r == facet_word(t@),
{
    same(t, "body")
        || same(t, "constructors")
        || same(t, "fields")
        || same(t, "implementation")
        || same(t, "proof")
        || same(t, "source")
}

/// The name that a query gives behind the kind of a declaration.
pub open spec fn announced_name(query: Seq<char>) -> Option<Seq<char>> {
    let list = words(query);
    if list.len() >= 2 && named_kind(lower(list[0])) && (name_query(list[1]) || glob_query(list[1]))
        && forall|i: int| 2 <= i < list.len() ==> facet_word(lower(#[trigger] list[i])) {
        Some(list[1])
    } else {
        None
    }
}

/// Computes [`announced_name`].
pub fn explicit_declaration_name<'a>(query: &'a str) -> (r: Option<&'a str>)
    ensures
        opt_str(r) == announced_name(query@),
{
    let list = split_words(query);
    let ghost views = strs(list@);
    assert(views.len() == list.len());
    if list.len() < 2 {
        return None;
    }
    assert(views[0] == list@[0]@ && views[1] == list@[1]@);
    if !is_named_kind(to_lower(list[0]).as_str()) {
        return None;
    }
    let name = list[1];
    if !(declaration_name_query(name) || declaration_glob_query(name)) {
        return None;
    }
    for i in 2..list.len()
        invariant
            views == strs(list@),
            views == words(query@),
            forall|j: int| 2 <= j < i ==> facet_word(lower(#[trigger] views[j])),
    {
        assert(views[i as int] == list@[i as int]@);
        if !is_facet_word(to_lower(list[i]).as_str()) {
            return None;
        }
    }
    Some(name)
}

/// `owner` is the other name, or its last components.
pub open spec fn owner_match(name_owner: Seq<char>, owner: Seq<char>) -> bool {
    name_owner == owner || ends(name_owner, "."@ + owner)
}

/// Decides [`owner_match`].
pub fn owner_matches(name_owner: &str, owner: &str) -> (r: bool)
    ensures
        r == owner_match(name_owner@, owner@),
{
    same(name_owner, owner) || ends_with(name_owner, cat2(".", owner).as_str())
}

/// A name continues the queried name after an underscore, with the same owner.
pub open spec fn continues(name: Seq<char>, query: Seq<char>) -> bool {
    let n = lowercased(name);
    let q = lowercased(bare(query));
    begins(leaf(n), leaf(q) + "_"@) && match rcut(q, "."@) {
        None => true,
        Some(sides) => owner_match(
            match rcut(n, "."@) {
                Some(parts) => parts.0,
                None => ""@,
            },
            sides.0,
        ),
    }
}

/// Decides [`continues`].
pub fn direct_continuation_name_matches(name: &str, query: &str) -> (r: bool)
    ensures
        r == continues(name@, query@),
{
    let n = to_lowercase(name);
    let q = to_lowercase(trim(query));
    if !starts_with(leaf_of(n.as_str()), cat2(leaf_of(q.as_str()), "_").as_str()) {
        return false;
    }
    match rsplit_once(q.as_str(), ".") {
        None => true,
        Some(sides) => {
            let name_owner = match rsplit_once(n.as_str(), ".") {
                Some(parts) => parts.0,
                None => "",
            };
            owner_matches(name_owner, sides.0)
        },
    }
}

/// How many results to keep: all that fit, or fewer where only related results can be
/// offered for a missing name.
pub open spec fn results_kept(exact_name_miss: bool, show_all: bool) -> usize {
    if exact_name_miss && !show_all {
        8
    } else {
        24
    }
}

/// Computes [`results_kept`].
pub fn result_limit(exact_name_miss: bool, show_all: bool) -> (r: usize)
    ensures
        r == results_kept(exact_name_miss, show_all),
{
    if exact_name_miss && !show_all {
        8
    } else {
        24
    }
}

/// A value unless it is blank.
pub fn nonempty(value: String) -> (r: Option<String>)
    ensures
        opt_string(r) == if blank(value@) {
            None
        } else {
            Some(value@)
        },
{
    if is_blank(value.as_str()) {
        None
    } else {
        Some(value)
    }
}

/// The mark of the root namespace makes no difference to what a name answers.
pub proof fn root_marks_do_not_matter(name: Seq<char>, query: Seq<char>)
    requires
        !begins(name, "_root_."@),
    ensures
        qualified_match("_root_."@ + name, query) == qualified_match(name, query),
        exact_match("_root_."@ + name, query) == exact_match(name, query),
{
    let marked = "_root_."@ + name;
    reveal_strlit("_root_.");
    assert(marked.take(7) =~= "_root_."@);
    assert(marked.skip(7) =~= name);
    assert(canonical(marked) == name);
    assert(canonical(name) == name);
}

} // verus!
