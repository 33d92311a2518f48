//! How well names, texts and signatures match a query.
use crate::search::names::{
    count_chars, declaration_name_query, name_query, owner_match, owner_matches, tally,
};
use crate::search::records::{HitView, IndexedRow, RowView, SearchHit};
use crate::search::tokens::{
    digit_alias, distinct, identifier_query_parts, keep_passing, leaf, leaf_of, name_parts,
    numeric_subscript_alias, passing, query_tokens, query_words, without_repeats, TokenTest,
};
use crate::text::class::{has_char, Class};
use crate::text::make::{
    alike, byte_length, cat2, cat3, lowercased, own, prefix_all, prefix_step, push_str, same,
    same_ignoring_case, strings, strings_push, strs, strs_push, to_chars, to_lowercase,
};
use crate::text::pieces::{fields, has_string, keep_nonempty, nonempty_of, pieces, split, split_text};
use crate::text::scan::{
    after_prefix, bare, bare_start, before_suffix, begins, contains, cut, ends, ends_with,
    from_index, has_text, opt_str, rcut, rsplit_once, split_once, starts_with, strip_prefix,
    strip_suffix, trim, trim_start,
};
use vstd::prelude::*;

verus! {

broadcast use {strings_push, strs_push};

/// A score that fits in 64 bits.
pub open spec fn narrowed(points: int) -> i64 {
    if points > i64::MAX {
        i64::MAX
    } else if points < i64::MIN {
        i64::MIN
    } else {
        points as i64
    }
}

/// Computes [`narrowed`].
pub fn narrow(points: i128) -> (r: i64)
    ensures
        r == narrowed(points as int),
{
    if points > i64::MAX as i128 {
        i64::MAX
    } else if points < i64::MIN as i128 {
        i64::MIN
    } else {
        points as i64
    }
}

/// A word of at least five bytes without its plural ending.
pub open spec fn singular(t: Seq<char>) -> Option<Seq<char>> {
    match before_suffix(t, "s"@) {
        Some(s) => if byte_length(s) >= 4 {
            Some(s)
        } else {
            None
        },
        None => None,
    }
}

fn singular_of<'a>(t: &'a str) -> (r: Option<&'a str>)
    ensures
        opt_str(r) == singular(t@),
{
    match strip_suffix(t, "s") {
        Some(s) => if s.len() >= 4 {
            Some(s)
        } else {
            None
        },
        None => None,
    }
}

/// Two words are the same but for case, the spelling of digits or a plural ending.
pub open spec fn same_word(a: Seq<char>, b: Seq<char>) -> bool {
    ||| alike(a, b)
    ||| digit_alias(a) is Some && alike(digit_alias(a)->0, b)
    ||| digit_alias(b) is Some && alike(digit_alias(b)->0, a)
    ||| singular(b) is Some && alike(a, singular(b)->0)
    ||| singular(a) is Some && alike(singular(a)->0, b)
}

/// Decides [`same_word`].
pub fn words_match(a: &str, b: &str) -> (r: bool)
    ensures
        r == same_word(a@, b@),
{
    if same_ignoring_case(a, b) {
        return true;
    }
    if let Some(alias) = numeric_subscript_alias(a) {
        if same_ignoring_case(alias.as_str(), b) {
            return true;
        }
    }
    if let Some(alias) = numeric_subscript_alias(b) {
        if same_ignoring_case(alias.as_str(), a) {
            return true;
        }
    }
    if let Some(one) = singular_of(b) {
        if same_ignoring_case(a, one) {
            return true;
        }
    }
    if let Some(one) = singular_of(a) {
        if same_ignoring_case(one, b) {
            return true;
        }
    }
    false
}

/// Words match in either order.
pub proof fn same_word_is_symmetric(a: Seq<char>, b: Seq<char>)
    ensures
        same_word(a, b) == same_word(b, a),
{
}

/// How many characters two texts share from position `i` on.
pub open spec fn shared_from(a: Seq<char>, b: Seq<char>, i: int) -> int
    decreases a.len() - i,
{
    if i < a.len() && i < b.len() && a[i] == b[i] {
        shared_from(a, b, i + 1)
    } else {
        i
    }
}

/// How many characters two texts share at the end, beyond the last `i`.
pub open spec fn shared_end_from(a: Seq<char>, b: Seq<char>, i: int) -> int
    decreases a.len() - i,
{
    if i < a.len() && i < b.len() && a[a.len() - 1 - i] == b[b.len() - 1 - i] {
        shared_end_from(a, b, i + 1)
    } else {
        i
    }
}

/// The length of the common beginning of two texts.
pub fn shared_prefix(a: &Vec<char>, b: &Vec<char>) -> (r: usize)
    ensures
        r == shared_from(a@, b@, 0),
        r <= a.len(),
{
    let mut i: usize = 0;
    while i < a.len() && i < b.len() && a[i] == b[i]
        invariant
            i <= a.len(),
            shared_from(a@, b@, 0) == shared_from(a@, b@, i as int),
        decreases a.len() - i,
    {
        i += 1;
    }
    i
}

/// The length of the common end of two texts.
pub fn shared_suffix(a: &Vec<char>, b: &Vec<char>) -> (r: usize)
    ensures
        r == shared_end_from(a@, b@, 0),
        r <= a.len(),
{
    let mut i: usize = 0;
    while i < a.len() && i < b.len() && a[a.len() - 1 - i] == b[b.len() - 1 - i]
        invariant
            i <= a.len(),
            shared_end_from(a@, b@, 0) == shared_end_from(a@, b@, i as int),
        decreases a.len() - i,
    {
        i += 1;
    }
    i
}

/// Two words match, or share their first five characters and two thirds of the shorter
/// one.
pub open spec fn same_concept(a: Seq<char>, b: Seq<char>) -> bool {
    same_word(a, b) || {
        let l = lowercased(a);
        let r = lowercased(b);
        let shared = shared_from(l, r, 0);
        let shorter = if l.len() < r.len() {
            l.len()
        } else {
            r.len()
        };
        shared >= 5 && shared * 3 >= shorter * 2
    }
}

/// Decides [`same_concept`].
pub fn conceptual_words_match(a: &str, b: &str) -> (r: bool)
    ensures
        r == same_concept(a@, b@),
{
    if words_match(a, b) {
        return true;
    }
    let l = to_chars(to_lowercase(a).as_str());
    let r = to_chars(to_lowercase(b).as_str());
    let shared = shared_prefix(&l, &r);
    let shorter: usize = if l.len() < r.len() {
        l.len()
    } else {
        r.len()
    };
    shared >= 5 && shared as u128 * 3 >= shorter as u128 * 2
}

/// A segment of a name stands for a word.
pub open spec fn segment_match(segment: Seq<char>, word: Seq<char>) -> bool {
    ||| same_word(segment, word)
    ||| exists|i: int|
        0 <= i < name_parts(segment).len() && same_concept(
            #[trigger] name_parts(segment)[i],
            word,
        )
}

fn segment_matches(segment: &str, word: &str) -> (r: bool)
    ensures
        r == segment_match(segment@, word@),
{
    if words_match(segment, word) {
        return true;
    }
    let parts = identifier_query_parts(segment);
    for i in 0..parts.len()
        invariant
            strings(parts@) == name_parts(segment@),
            forall|j: int| 0 <= j < i ==> !same_concept(#[trigger] strings(parts@)[j], word@),
    {
        assert(strings(parts@)[i as int] == parts@[i as int]@);
        if conceptual_words_match(parts[i].as_str(), word) {
            return true;
        }
    }
    false
}

/// A name answers a token.
pub open spec fn name_match(name: Seq<char>, token: Seq<char>) -> bool {
    ||| alike(name, token)
    ||| exists|i: int|
        0 <= i < pieces(name, Class::Only("._")).len() && segment_match(
            #[trigger] pieces(name, Class::Only("._"))[i],
            leaf(token),
        )
}

/// Decides [`name_match`].
pub fn hit_name_matches(name: &str, token: &str) -> (r: bool)
    ensures
        r == name_match(name@, token@),
{
    if same_ignoring_case(name, token) {
        return true;
    }
    let word = leaf_of(token);
    let segments = split(name, Class::Only("._"));
    for i in 0..segments.len()
        invariant
            strs(segments@) == pieces(name@, Class::Only("._")),
            word@ == leaf(token@),
            forall|j: int|
                0 <= j < i ==> !segment_match(#[trigger] strs(segments@)[j], word@),
    {
        assert(strs(segments@)[i as int] == segments@[i as int]@);
        if segment_matches(segments[i], word) {
            return true;
        }
    }
    false
}

/// A text holds a token, or its singular.
pub open spec fn text_match(text: Seq<char>, token: Seq<char>) -> bool {
    has_text(text, token) || (singular(token) is Some && has_text(text, singular(token)->0))
}

/// Decides [`text_match`].
pub fn text_matches_token(text: &str, token: &str) -> (r: bool)
    ensures
        r == text_match(text@, token@),
{
    if contains(text, token) {
        return true;
    }
    match singular_of(token) {
        Some(one) => contains(text, one),
        None => false,
    }
}

/// An optional text, in lower case, holds a token.
pub open spec fn opt_match(text: Option<Seq<char>>, token: Seq<char>) -> bool {
    text is Some && text_match(lowercased(text->0), token)
}

fn opt_matches(text: &Option<String>, token: &str) -> (r: bool)
    ensures
        r == opt_match(crate::text::scan::opt_string(*text), token@),
{
    match text {
        Some(t) => text_matches_token(to_lowercase(t.as_str()).as_str(), token),
        None => false,
    }
}

/// A hit answers a token by its name or by any of its texts.
pub open spec fn hit_match(hit: HitView, token: Seq<char>) -> bool {
    ||| name_match(hit.name, token)
    ||| opt_match(hit.signature, token)
    ||| opt_match(hit.doc, token)
    ||| opt_match(hit.source, token)
    ||| text_match(lowercased(hit.module), token)
    ||| text_match(lowercased(hit.path), token)
}

/// Decides [`hit_match`].
pub fn hit_matches_token(hit: &SearchHit, token: &str) -> (r: bool)
    ensures
        r == hit_match(hit@, token@),
{
    hit_name_matches(hit.name.as_str(), token) || opt_matches(&hit.signature, token) || opt_matches(
        &hit.doc,
        token,
    ) || opt_matches(&hit.source, token) || text_matches_token(
        to_lowercase(hit.module.as_str()).as_str(),
        token,
    ) || text_matches_token(to_lowercase(hit.path.as_str()).as_str(), token)
}

/// How many tokens a hit answers, and with how many characters.
pub open spec fn hit_tally(hit: HitView, tokens: Seq<Seq<char>>) -> (nat, nat)
    decreases tokens.len(),
{
    if tokens.len() == 0 {
        (0, 0)
    } else {
        let (count, weight) = hit_tally(hit, tokens.drop_last());
        if hit_match(hit, tokens.last()) {
            (count + 1, weight + tokens.last().len())
        } else {
            (count, weight)
        }
    }
}

/// How many tokens a name answers, and with how many characters.
pub open spec fn name_tally(name: Seq<char>, tokens: Seq<Seq<char>>) -> (nat, nat)
    decreases tokens.len(),
{
    if tokens.len() == 0 {
        (0, 0)
    } else {
        let (count, weight) = name_tally(name, tokens.drop_last());
        if name_match(name, tokens.last()) {
            (count + 1, weight + tokens.last().len())
        } else {
            (count, weight)
        }
    }
}

/// The largest value that a weight is counted to.
pub open spec fn capped(n: nat) -> u64 {
    if n > u64::MAX {
        u64::MAX
    } else {
        n as u64
    }
}

/// A tally in the range of the machine.
pub open spec fn capped_pair(t: (nat, nat)) -> (u64, u64) {
    (capped(t.0), capped(t.1))
}

/// Computes [`hit_tally`].
pub fn tally_hit(hit: &SearchHit, tokens: &Vec<String>) -> (r: (u64, u64))
    ensures
        r == capped_pair(hit_tally(hit@, strings(tokens@))),
{
    let ghost views = strings(tokens@);
    let mut count: u64 = 0;
    let mut weight: u64 = 0;
    for i in 0..tokens.len()
        invariant
            views == strings(tokens@),
            (count, weight) == capped_pair(hit_tally(hit@, views.take(i as int))),
    {
        proof {
            prefix_step(views, i as int);
        }
        assert(views[i as int] == tokens@[i as int]@);
        if hit_matches_token(hit, tokens[i].as_str()) {
            count = count.saturating_add(1);
            weight = weight.saturating_add(tokens[i].as_str().unicode_len() as u64);
        }
    }
    proof {
        prefix_all(views);
    }
    (count, weight)
}

/// Computes [`name_tally`].
pub fn tally_name(name: &str, tokens: &Vec<String>) -> (r: (u64, u64))
    ensures
        r == capped_pair(name_tally(name@, strings(tokens@))),
{
    let ghost views = strings(tokens@);
    let mut count: u64 = 0;
    let mut weight: u64 = 0;
    for i in 0..tokens.len()
        invariant
            views == strings(tokens@),
            (count, weight) == capped_pair(name_tally(name@, views.take(i as int))),
    {
        proof {
            prefix_step(views, i as int);
        }
        assert(views[i as int] == tokens@[i as int]@);
        if hit_name_matches(name, tokens[i].as_str()) {
            count = count.saturating_add(1);
            weight = weight.saturating_add(tokens[i].as_str().unicode_len() as u64);
        }
    }
    proof {
        prefix_all(views);
    }
    (count, weight)
}

/// What a hit covers of the tokens: how many and how many characters, and the same by
/// its name alone.
pub open spec fn coverage(hit: HitView, tokens: Seq<Seq<char>>) -> (u64, u64, u64, u64) {
    let all = capped_pair(hit_tally(hit, tokens));
    let named = capped_pair(name_tally(hit.name, tokens));
    (all.0, all.1, named.0, named.1)
}

/// Computes [`coverage`].
pub fn hit_query_coverage(hit: &SearchHit, tokens: &Vec<String>) -> (r: (u64, u64, u64, u64))
    ensures
        r == coverage(hit@, strings(tokens@)),
{
    let all = tally_hit(hit, tokens);
    let named = tally_name(hit.name.as_str(), tokens);
    (all.0, all.1, named.0, named.1)
}

/// A name never covers more than the whole hit.
pub proof fn names_cover_no_more_than_hits(hit: HitView, tokens: Seq<Seq<char>>)
    ensures
        name_tally(hit.name, tokens).0 <= hit_tally(hit, tokens).0 <= tokens.len(),
        name_tally(hit.name, tokens).1 <= hit_tally(hit, tokens).1,
    decreases tokens.len(),
{
    if tokens.len() > 0 {
        names_cover_no_more_than_hits(hit, tokens.drop_last());
    }
}

/// The last component of a name is the last component of some token of a query.
pub open spec fn leaf_match(name: Seq<char>, query: Seq<char>) -> bool {
    exists|i: int|
        0 <= i < query_words(query).len() && same_word(
            leaf(name),
            leaf(#[trigger] query_words(query)[i]),
        )
}

/// Decides [`leaf_match`].
pub fn declaration_leaf_matches(name: &str, query: &str) -> (r: bool)
    ensures
        r == leaf_match(name@, query@),
{
    let last = leaf_of(name);
    let tokens = query_tokens(query);
    for i in 0..tokens.len()
        invariant
            strings(tokens@) == query_words(query@),
            last@ == leaf(name@),
            forall|j: int|
                0 <= j < i ==> !same_word(last@, leaf(#[trigger] strings(tokens@)[j])),
    {
        assert(strings(tokens@)[i as int] == tokens@[i as int]@);
        if words_match(last, leaf_of(tokens[i].as_str())) {
            return true;
        }
    }
    false
}

/// How many texts of `list` occur in `other`.
pub open spec fn found_in(list: Seq<Seq<char>>, other: Seq<Seq<char>>) -> nat
    decreases list.len(),
{
    if list.len() == 0 {
        0
    } else {
        found_in(list.drop_last(), other) + if other.contains(list.last()) {
            1nat
        } else {
            0nat
        }
    }
}

/// How many different texts two lists have in common.
pub open spec fn in_common(a: Seq<Seq<char>>, b: Seq<Seq<char>>) -> nat {
    found_in(distinct(a), b)
}

/// Computes [`in_common`].
pub fn count_in_common(a: &Vec<String>, b: &Vec<String>) -> (r: usize)
    ensures
        r == in_common(strings(a@), strings(b@)),
{
    let list = without_repeats(a);
    let ghost views = strings(list@);
    let mut count: usize = 0;
    for i in 0..list.len()
        invariant
            views == strings(list@),
            count <= i,
            count == found_in(views.take(i as int), strings(b@)),
    {
        proof {
            prefix_step(views, i as int);
        }
        assert(views[i as int] == list@[i as int]@);
        if has_string(b, list[i].as_str()) {
            count += 1;
        }
    }
    proof {
        prefix_all(views);
    }
    count
}

/// Points for a common beginning or end: four for each character beyond three, up to
/// ten characters.
pub open spec fn affix_points(shared: int) -> int {
    if shared <= 3 {
        0
    } else if shared >= 13 {
        40
    } else {
        (shared - 3) * 4
    }
}

fn score_affix(shared: usize) -> (r: i128)
    ensures
        r == affix_points(shared as int),
        0 <= r <= 40,
{
    if shared <= 3 {
        0
    } else if shared >= 13 {
        40
    } else {
        (shared as i128 - 3) * 4
    }
}

/// Points for a member of the owner that a qualified name asks for.
pub open spec fn member_points(query: Seq<char>, name: Seq<char>) -> int {
    if !name_query(query) || rcut(bare(query), "."@) is None || rcut(name, "."@) is None {
        0
    } else {
        let (query_owner, query_leaf) = rcut(bare(query), "."@)->0;
        let (name_owner, name_leaf) = rcut(name, "."@)->0;
        if !owner_match(lowercased(name_owner), lowercased(query_owner)) {
            0
        } else {
            let shared = in_common(
                passing(name_parts(query_leaf), TokenTest::Bytes(3)),
                passing(name_parts(name_leaf), TokenTest::Bytes(3)),
            );
            let a = lowercased(query_leaf);
            let b = lowercased(name_leaf);
            300int + shared * 250 + affix_points(shared_from(a, b, 0)) + affix_points(
                shared_end_from(a, b, 0),
            )
        }
    }
}

fn score_member(query: &str, name: &str) -> (r: i128)
    ensures
        r == member_points(query@, name@),
        0 <= r <= 380 + 250 * usize::MAX,
{
    if !declaration_name_query(query) {
        return 0;
    }
    let Some((query_owner, query_leaf)) = rsplit_once(trim(query), ".") else {
        return 0;
    };
    let Some((name_owner, name_leaf)) = rsplit_once(name, ".") else {
        return 0;
    };
    if !owner_matches(to_lowercase(name_owner).as_str(), to_lowercase(query_owner).as_str()) {
        return 0;
    }
    let shared = count_in_common(
        &keep_passing(&identifier_query_parts(query_leaf), TokenTest::Bytes(3)),
        &keep_passing(&identifier_query_parts(name_leaf), TokenTest::Bytes(3)),
    );
    let a = to_chars(to_lowercase(query_leaf).as_str());
    let b = to_chars(to_lowercase(name_leaf).as_str());
    300 + shared as i128 * 250 + score_affix(shared_prefix(&a, &b)) + score_affix(
        shared_suffix(&a, &b),
    )
}

/// The score of a member of the owner that a qualified name asks for.
pub fn qualified_member_score(query: &str, name: &str) -> (r: i64)
    ensures
        r == narrowed(member_points(query@, name@)),
{
    narrow(score_member(query, name))
}

/// A declaration has the last component that a qualified name asks for, and stands in a
/// module or file named after its owner.
pub open spec fn leaf_path_match(
    query: Seq<char>,
    name: Seq<char>,
    module: Seq<char>,
    path: Seq<char>,
) -> bool {
    match rcut(query, "."@) {
        None => false,
        Some((owner, query_leaf)) => {
            let last = lowercased(leaf(owner));
            same_word(leaf(name), query_leaf) && last.len() >= 3 && has_text(
                lowercased(module + " "@ + path),
                last,
            )
        },
    }
}

/// Decides [`leaf_path_match`].
pub fn qualified_leaf_path_match(query: &str, name: &str, module: &str, path: &str) -> (r: bool)
    ensures
        r == leaf_path_match(query@, name@, module@, path@),
{
    let Some((owner, query_leaf)) = rsplit_once(query, ".") else {
        return false;
    };
    if !words_match(leaf_of(name), query_leaf) {
        return false;
    }
    let last = to_lowercase(leaf_of(owner));
    last.as_str().unicode_len() >= 3 && contains(
        to_lowercase(cat3(module, " ", path).as_str()).as_str(),
        last.as_str(),
    )
}

/// Points for the last component that a qualified name asks for.
pub open spec fn leaf_path_points(
    query: Seq<char>,
    name: Seq<char>,
    module: Seq<char>,
    path: Seq<char>,
) -> int {
    if leaf_path_match(query, name, module, path) {
        280
    } else if rcut(query, "."@) is None || rcut(name, "."@) is None {
        0
    } else {
        let (query_owner, query_leaf) = rcut(query, "."@)->0;
        let (name_owner, name_leaf) = rcut(name, "."@)->0;
        if alike(name_leaf, query_leaf) {
            60int + in_common(
                name_parts(lowercased(query_owner)),
                name_parts(name_owner),
            ) * 100
        } else {
            0
        }
    }
}

fn score_leaf_path(query: &str, name: &str, module: &str, path: &str) -> (r: i128)
    ensures
        r == leaf_path_points(query@, name@, module@, path@),
        0 <= r <= 280 + 100 * usize::MAX,
{
    if qualified_leaf_path_match(query, name, module, path) {
        return 280;
    }
    let Some((query_owner, query_leaf)) = rsplit_once(query, ".") else {
        return 0;
    };
    let Some((name_owner, name_leaf)) = rsplit_once(name, ".") else {
        return 0;
    };
    if !same_ignoring_case(name_leaf, query_leaf) {
        return 0;
    }
    let shared = count_in_common(
        &identifier_query_parts(to_lowercase(query_owner).as_str()),
        &identifier_query_parts(name_owner),
    );
    60 + shared as i128 * 100
}

/// The score of the last component that a qualified name asks for.
pub fn qualified_leaf_path_score(query: &str, name: &str, module: &str, path: &str) -> (r: i64)
    ensures
        r == narrowed(leaf_path_points(query@, name@, module@, path@)),
{
    narrow(score_leaf_path(query, name, module, path))
}

/// Points for where the whole query stands in a name.
pub open spec fn place_points(name: Seq<char>, query: Seq<char>) -> int {
    let base = leaf(name);
    if name == query {
        600
    } else if base == query {
        105
    } else if ends(name, "."@ + query) {
        95
    } else if begins(name, query) || begins(base, query) {
        75
    } else if has_text(name, query) {
        55
    } else {
        0
    }
}

fn score_place(name: &str, query: &str) -> (r: i128)
    ensures
        r == place_points(name@, query@),
        0 <= r <= 600,
{
    let base = leaf_of(name);
    if same(name, query) {
        600
    } else if same(base, query) {
        105
    } else if ends_with(name, cat2(".", query).as_str()) {
        95
    } else if starts_with(name, query) || starts_with(base, query) {
        75
    } else if contains(name, query) {
        55
    } else {
        0
    }
}

/// Some token is the whole name, or a long last component of it.
pub open spec fn exact_token(name: Seq<char>, tokens: Seq<Seq<char>>) -> bool {
    exists|i: int|
        0 <= i < tokens.len() && {
            let t = #[trigger] tokens[i];
            t == name || (byte_length(t) >= 12 && !t.contains('.') && t == leaf(name))
        }
}

fn has_exact_token(name: &str, tokens: &Vec<String>) -> (r: bool)
    ensures
        r == exact_token(name@, strings(tokens@)),
{
    let ghost views = strings(tokens@);
    for i in 0..tokens.len()
        invariant
            views == strings(tokens@),
            forall|j: int|
                0 <= j < i ==> {
                    let t = #[trigger] views[j];
                    !(t == name@ || (byte_length(t) >= 12 && !t.contains('.') && t == leaf(name@)))
                },
    {
        let t = tokens[i].as_str();
        assert(views[i as int] == t@);
        if same(t, name) || (t.len() >= 12 && !has_char(t, '.') && same(t, leaf_of(name))) {
            return true;
        }
    }
    false
}

/// Points for the tokens that stand in the name, or else in the texts.
pub open spec fn token_points(tokens: Seq<Seq<char>>, name: Seq<char>, body: Seq<char>) -> int
    decreases tokens.len(),
{
    if tokens.len() == 0 {
        0
    } else {
        token_points(tokens.drop_last(), name, body) + if has_text(name, tokens.last()) {
            12int
        } else if has_text(body, tokens.last()) {
            3
        } else {
            0
        }
    }
}

fn score_tokens(tokens: &Vec<String>, name: &str, body: &str) -> (r: i128)
    ensures
        r == token_points(strings(tokens@), name@, body@),
        0 <= r <= 12 * usize::MAX,
{
    let ghost views = strings(tokens@);
    let mut points: i128 = 0;
    for i in 0..tokens.len()
        invariant
            views == strings(tokens@),
            0 <= points <= 12 * i,
            points == token_points(views.take(i as int), name@, body@),
    {
        proof {
            prefix_step(views, i as int);
        }
        assert(views[i as int] == tokens@[i as int]@);
        if contains(name, tokens[i].as_str()) {
            points += 12;
        } else if contains(body, tokens[i].as_str()) {
            points += 3;
        }
    }
    proof {
        prefix_all(views);
    }
    points
}

/// The parts of the tokens, a token without parts by its last component.
pub open spec fn token_parts(tokens: Seq<Seq<char>>) -> Seq<Seq<char>>
    decreases tokens.len(),
{
    if tokens.len() == 0 {
        Seq::empty()
    } else {
        let parts = name_parts(tokens.last());
        token_parts(tokens.drop_last()) + if parts.len() == 0 {
            seq![leaf(tokens.last())]
        } else {
            parts
        }
    }
}

fn collect_token_parts(tokens: &Vec<String>) -> (r: Vec<String>)
    ensures
        strings(r@) == token_parts(strings(tokens@)),
{
    let ghost views = strings(tokens@);
    let mut out: Vec<String> = Vec::new();
    for i in 0..tokens.len()
        invariant
            views == strings(tokens@),
            strings(out@) == token_parts(views.take(i as int)),
    {
        proof {
            prefix_step(views, i as int);
        }
        assert(views[i as int] == tokens@[i as int]@);
        let mut parts = identifier_query_parts(tokens[i].as_str());
        assert(strings(parts@).len() == parts.len());
        let ghost before = strings(out@);
        if parts.len() == 0 {
            out.push(own(leaf_of(tokens[i].as_str())));
            assert(strings(out@) =~= before + seq![leaf(views[i as int])]);
        } else {
            let ghost added = strings(parts@);
            out.append(&mut parts);
            assert(strings(out@) =~= before + added);
        }
    }
    proof {
        prefix_all(views);
    }
    out
}

/// Some part stands for the same concept.
pub open spec fn concept_in(list: Seq<Seq<char>>, part: Seq<char>) -> bool {
    exists|i: int| 0 <= i < list.len() && same_concept(#[trigger] list[i], part)
}

fn has_concept(list: &Vec<String>, part: &str) -> (r: bool)
    ensures
        r == concept_in(strings(list@), part@),
{
    for i in 0..list.len()
        invariant
            forall|j: int| 0 <= j < i ==> !same_concept(#[trigger] strings(list@)[j], part@),
    {
        assert(strings(list@)[i as int] == list@[i as int]@);
        if conceptual_words_match(list[i].as_str(), part) {
            return true;
        }
    }
    false
}

/// Points for the parts that a name has, or has a like of.
pub open spec fn part_points(parts: Seq<Seq<char>>, of_name: Seq<Seq<char>>) -> int
    decreases parts.len(),
{
    if parts.len() == 0 {
        0
    } else {
        part_points(parts.drop_last(), of_name) + if of_name.contains(parts.last()) {
            40int
        } else if concept_in(of_name, parts.last()) {
            35
        } else {
            0
        }
    }
}

fn score_parts(parts: &Vec<String>, of_name: &Vec<String>) -> (r: i128)
    ensures
        r == part_points(strings(parts@), strings(of_name@)),
        0 <= r <= 40 * usize::MAX,
{
    let ghost views = strings(parts@);
    let mut points: i128 = 0;
    for i in 0..parts.len()
        invariant
            views == strings(parts@),
            0 <= points <= 40 * i,
            points == part_points(views.take(i as int), strings(of_name@)),
    {
        proof {
            prefix_step(views, i as int);
        }
        assert(views[i as int] == parts@[i as int]@);
        if has_string(of_name, parts[i].as_str()) {
            points += 40;
        } else if has_concept(of_name, parts[i].as_str()) {
            points += 35;
        }
    }
    proof {
        prefix_all(views);
    }
    points
}

/// The searchable texts of a row.
pub open spec fn row_body(row: RowView) -> Seq<char> {
    lowercased(row.signature) + " "@ + lowercased(row.docs) + " "@ + lowercased(row.body) + " "@
        + lowercased(row.path)
}

/// The points of a row for a query and its tokens.
pub open spec fn lexical_points(query: Seq<char>, tokens: Seq<Seq<char>>, row: RowView) -> int {
    let q = lowercased(query);
    let name = lowercased(row.name);
    let is_file = row.kind == "file"@;
    place_points(name, q) + (if !is_file && exact_token(name, tokens) {
        100int
    } else {
        0
    }) + (if row.name == query {
        200int
    } else if leaf(row.name) == query {
        160
    } else {
        0
    }) + token_points(tokens, name, row_body(row)) + part_points(
        distinct(token_parts(tokens)),
        name_parts(row.name),
    ) + (if is_file {
        -40int
    } else {
        20
    }) + member_points(q, row.name) + leaf_path_points(q, row.name, row.module, row.path)
}

/// The score of a row for a query and its tokens.
pub fn lexical_score(query: &str, tokens: &Vec<String>, row: &IndexedRow) -> (r: i64)
    ensures
        r == narrowed(lexical_points(query@, strings(tokens@), row@)),
{
    let q = to_lowercase(query);
    let name = to_lowercase(row.name.as_str());
    let mut body = to_lowercase(row.signature.as_str());
    push_str(&mut body, " ");
    push_str(&mut body, to_lowercase(row.docs.as_str()).as_str());
    push_str(&mut body, " ");
    push_str(&mut body, to_lowercase(row.body.as_str()).as_str());
    push_str(&mut body, " ");
    push_str(&mut body, to_lowercase(row.path.as_str()).as_str());
    let is_file = same(row.kind.as_str(), "file");
    let mut points = score_place(name.as_str(), q.as_str());
    if !is_file && has_exact_token(name.as_str(), tokens) {
        points += 100;
    }
    if same(row.name.as_str(), query) {
        points += 200;
    } else if same(leaf_of(row.name.as_str()), query) {
        points += 160;
    }
    points += score_tokens(tokens, name.as_str(), body.as_str());
    points += score_parts(
        &without_repeats(&collect_token_parts(tokens)),
        &identifier_query_parts(row.name.as_str()),
    );
    if is_file {
        points -= 40;
    } else {
        points += 20;
    }
    points += score_member(q.as_str(), row.name.as_str());
    points += score_leaf_path(
        q.as_str(),
        row.name.as_str(),
        row.module.as_str(),
        row.path.as_str(),
    );
    narrow(points)
}

/// A query that looks like a type.
pub open spec fn type_like(query: Seq<char>) -> bool {
    ||| query_words(query).contains("_"@)
    ||| query.contains('→')
    ||| has_text(query, "->"@)
    ||| query.contains('⊢')
    ||| query.contains('∀')
    ||| has_text(query, "fun "@)
}

/// Decides [`type_like`].
pub fn type_shaped(query: &str) -> (r: bool)
    ensures
        r == type_like(query@),
{
    has_string(&query_tokens(query), "_") || has_char(query, '→') || contains(query, "->")
        || has_char(query, '⊢') || has_char(query, '∀') || contains(query, "fun ")
}

/// A query for a conclusion.
pub open spec fn asks_conclusion(query: Seq<char>) -> bool {
    begins(bare_start(query), "⊢"@) || begins(bare_start(query), "|-"@)
}

/// Decides [`asks_conclusion`].
pub fn conclusion_query(query: &str) -> (r: bool)
    ensures
        r == asks_conclusion(query@),
{
    let q = trim_start(query);
    starts_with(q, "⊢") || starts_with(q, "|-")
}

/// The last components of the tokens of a type pattern.
pub open spec fn leaves(list: Seq<Seq<char>>) -> Seq<Seq<char>> {
    list.map_values(|t: Seq<char>| leaf(t))
}

/// The tokens of a type pattern.
pub open spec fn pattern_tokens(pattern: Seq<char>) -> Seq<Seq<char>> {
    leaves(passing(query_words(pattern), TokenTest::NotHole))
}

fn tokens_of_pattern(pattern: &str) -> (r: Vec<String>)
    ensures
        strings(r@) == pattern_tokens(pattern@),
{
    let list = keep_passing(&query_tokens(pattern), TokenTest::NotHole);
    let ghost wanted = leaves(strings(list@));
    let mut out: Vec<String> = Vec::new();
    for i in 0..list.len()
        invariant
            wanted == leaves(strings(list@)),
            strings(out@) == wanted.take(i as int),
    {
        proof {
            prefix_step(wanted, i as int);
        }
        out.push(own(leaf_of(list[i].as_str())));
    }
    proof {
        prefix_all(wanted);
    }
    out
}

/// Every token stands in a text.
pub open spec fn holds_all(text: Seq<char>, tokens: Seq<Seq<char>>) -> bool {
    forall|i: int| 0 <= i < tokens.len() ==> has_text(text, #[trigger] tokens[i])
}

fn holds_all_tokens(text: &str, tokens: &Vec<String>) -> (r: bool)
    ensures
        r == holds_all(text@, strings(tokens@)),
{
    for i in 0..tokens.len()
        invariant
            forall|j: int| 0 <= j < i ==> has_text(text@, #[trigger] strings(tokens@)[j]),
    {
        assert(strings(tokens@)[i as int] == tokens@[i as int]@);
        if !contains(text, tokens[i].as_str()) {
            return false;
        }
    }
    true
}

/// A pattern without its turnstile.
pub open spec fn sans_turnstile(pattern: Seq<char>) -> Seq<char> {
    let p = bare_start(pattern);
    bare_start(
        match after_prefix(p, "⊢"@) {
            Some(rest) => rest,
            None => match after_prefix(p, "|-"@) {
                Some(rest) => rest,
                None => pattern,
            },
        },
    )
}

/// The first word of a pattern, up to a bracket.
pub open spec fn pattern_head(pattern: Seq<char>) -> Option<Seq<char>> {
    let parts = nonempty_of(pieces(sans_turnstile(pattern), Class::SpaceOr("(")));
    if parts.len() > 0 {
        Some(parts[0])
    } else {
        None
    }
}

fn head_of_pattern<'a>(pattern: &'a str) -> (r: Option<&'a str>)
    ensures
        opt_str(r) == pattern_head(pattern@),
{
    let p = trim_start(pattern);
    let plain = match strip_prefix(p, "⊢") {
        Some(rest) => trim_start(rest),
        None => match strip_prefix(p, "|-") {
            Some(rest) => trim_start(rest),
            None => trim_start(pattern),
        },
    };
    let parts = keep_nonempty(split(plain, Class::SpaceOr("(")));
    assert(strs(parts@).len() == parts.len());
    if parts.len() > 0 {
        assert(strs(parts@)[0] == parts@[0]@);
        Some(parts[0])
    } else {
        None
    }
}

/// One where both texts hold a symbol.
pub open spec fn both_hold(a: Seq<char>, b: Seq<char>, symbol: Seq<char>) -> int {
    if has_text(a, symbol) && has_text(b, symbol) {
        1
    } else {
        0
    }
}

fn count_both(a: &str, b: &str, symbol: &str) -> (r: i128)
    ensures
        r == both_hold(a@, b@, symbol@),
        0 <= r <= 1,
{
    if contains(a, symbol) && contains(b, symbol) {
        1
    } else {
        0
    }
}

/// How many arrows a type has.
pub open spec fn arrows(text: Seq<char>) -> int {
    tally(text, Class::Is('→')) + fields(text, "->"@).len() - 1
}

fn count_arrows(text: &str) -> (r: i128)
    ensures
        r == arrows(text@),
{
    proof {
        reveal_strlit("->");
    }
    let parts = split_text(text, "->");
    assert(strs(parts@).len() == parts.len());
    count_chars(text, Class::Is('→')) as i128 + parts.len() as i128 - 1
}

/// Points for the number of arrows.
pub open spec fn arrow_points(wanted: int, found: int) -> int {
    if wanted == 0 {
        0
    } else if wanted == found {
        24
    } else if wanted < found {
        10
    } else {
        0
    }
}

/// The points of a signature for a type pattern.
pub open spec fn type_points(pattern: Seq<char>, signature: Seq<char>) -> int {
    let tokens = pattern_tokens(pattern);
    if signature.len() == 0 || !holds_all(lowercased(signature), tokens) {
        0
    } else {
        20 + arrow_points(arrows(pattern), arrows(signature)) + (if asks_conclusion(pattern)
            && pattern_head(pattern) is Some && has_text(
            signature,
            ": "@ + pattern_head(pattern)->0,
        ) {
            80int
        } else {
            0
        }) + 50 * (both_hold(pattern, signature, "∘"@) + both_hold(pattern, signature, "→L"@)
            + both_hold(pattern, signature, "≃L"@) + both_hold(pattern, signature, "↔"@)
            + both_hold(pattern, signature, "∈"@) + both_hold(pattern, signature, "⊆"@)) + 5
            * tokens.len()
    }
}

fn score_type(pattern: &str, signature: &str) -> (r: i128)
    ensures
        r == type_points(pattern@, signature@),
{
    if signature.is_empty() {
        return 0;
    }
    let tokens = tokens_of_pattern(pattern);
    if !holds_all_tokens(to_lowercase(signature).as_str(), &tokens) {
        return 0;
    }
    let concluded = conclusion_query(pattern) && match head_of_pattern(pattern) {
        Some(head) => contains(signature, cat2(": ", head).as_str()),
        None => false,
    };
    let shapes = count_both(pattern, signature, "∘") + count_both(pattern, signature, "→L")
        + count_both(pattern, signature, "≃L") + count_both(pattern, signature, "↔")
        + count_both(pattern, signature, "∈") + count_both(pattern, signature, "⊆");
    let wanted = count_arrows(pattern);
    let found = count_arrows(signature);
    let for_arrows: i128 = if wanted == 0 {
        0
    } else if wanted == found {
        24
    } else if wanted < found {
        10
    } else {
        0
    };
    let for_conclusion: i128 = if concluded {
        80
    } else {
        0
    };
    assert(strings(tokens@).len() == tokens.len());
    20 + for_arrows + for_conclusion + 50 * shapes + 5 * tokens.len() as i128
}

/// The score of a signature for a type pattern.
pub fn structural_type_score(pattern: &str, signature: &str) -> (r: i64)
    ensures
        r == narrowed(type_points(pattern@, signature@)),
{
    narrow(score_type(pattern, signature))
}

/// How many of the shapes of types that matter most a pattern and a signature share.
pub open spec fn shapes_shared(pattern: Seq<char>, signature: Seq<char>) -> nat {
    let in_both = |symbol: Seq<char>|
        if has_text(pattern, symbol) && has_text(signature, symbol) {
            1nat
        } else {
            0nat
        };
    in_both("∘"@) + in_both("→L"@) + in_both("≃L"@) + in_both("↔"@) + in_both("∈"@) + in_both("⊆"@)
}

/// A signature concludes with what a pattern asks for behind its turnstile.
pub open spec fn concludes(pattern: Seq<char>, signature: Seq<char>) -> bool {
    &&& begins(bare_start(pattern), "⊢"@) || begins(bare_start(pattern), "|-"@)
    &&& pattern_head(pattern) matches Some(head) && has_text(signature, ": "@ + head)
}

/// A signature holds every token of a pattern, whatever the case of its letters.
pub open spec fn fits(pattern: Seq<char>, signature: Seq<char>) -> bool {
    signature.len() > 0 && forall|i: int|
        0 <= i < pattern_tokens(pattern).len() ==> has_text(
            lowercased(signature),
            #[trigger] pattern_tokens(pattern)[i],
        )
}

/// A signature scores above zero just where it holds every token of the pattern, and
/// nothing otherwise.
pub proof fn only_matching_types_score(pattern: Seq<char>, signature: Seq<char>)
    ensures
        type_points(pattern, signature) >= 0,
        narrowed(type_points(pattern, signature)) >= 0,
        narrowed(type_points(pattern, signature)) > 0 <==> fits(pattern, signature),
{
}

proof fn points_add_up(pattern: Seq<char>, signature: Seq<char>)
    requires
        fits(pattern, signature),
    ensures
        type_points(pattern, signature) == 20 + arrow_points(arrows(pattern), arrows(signature)) + (
        if concludes(pattern, signature) {
            80int
        } else {
            0
        }) + 50 * shapes_shared(pattern, signature) + 5 * pattern_tokens(pattern).len(),
{
}

/// Of two signatures that hold the tokens of a pattern and agree on arrows and on the
/// conclusion, the one that shares more shapes with the pattern scores higher, by the
/// same for every shape; and those that share as many score alike.
pub proof fn shared_shapes_decide(pattern: Seq<char>, a: Seq<char>, b: Seq<char>)
    requires
        fits(pattern, a),
        fits(pattern, b),
        arrows(a) == arrows(b),
        concludes(pattern, a) == concludes(pattern, b),
    ensures
        shapes_shared(pattern, a) > shapes_shared(pattern, b) <==> type_points(pattern, a)
            > type_points(pattern, b),
        type_points(pattern, a) - type_points(pattern, b) == 50 * (shapes_shared(pattern, a)
            - shapes_shared(pattern, b)),
{
    points_add_up(pattern, a);
    points_add_up(pattern, b);
}

/// Of two signatures that hold the tokens of a pattern and share as many shapes with it,
/// the one that concludes as asked scores higher, whatever their arrows; where they agree
/// on that, one with as many arrows as the pattern scores higher than one with more, and
/// that higher than one with fewer, unless the pattern has none.
pub proof fn conclusions_come_before_arrows(pattern: Seq<char>, a: Seq<char>, b: Seq<char>)
    requires
        fits(pattern, a),
        fits(pattern, b),
        shapes_shared(pattern, a) == shapes_shared(pattern, b),
    ensures
        concludes(pattern, a) && !concludes(pattern, b) ==> type_points(pattern, a) > type_points(
            pattern,
            b,
        ),
        concludes(pattern, a) == concludes(pattern, b) ==> {
            let wanted = arrows(pattern);
            &&& wanted == 0 ==> type_points(pattern, a) == type_points(pattern, b)
            &&& wanted > 0 && arrows(a) == wanted && arrows(b) != wanted ==> type_points(pattern, a)
                > type_points(pattern, b)
            &&& wanted > 0 && arrows(a) > wanted && arrows(b) < wanted ==> type_points(pattern, a)
                > type_points(pattern, b)
        },
{
    points_add_up(pattern, a);
    points_add_up(pattern, b);
    arrows_are_counted(pattern);
}

proof fn arrows_are_counted(text: Seq<char>)
    ensures
        arrows(text) >= 0,
{
    reveal_strlit("->");
}

/// Narrowing a score keeps its order, and its value where that fits.
pub proof fn narrowing_keeps_order(a: int, b: int)
    ensures
        a <= b ==> narrowed(a) <= narrowed(b),
        i64::MIN <= a <= i64::MAX ==> narrowed(a) == a,
{
}

/// The position of the first colon outside brackets.
pub open spec fn free_colon(text: Seq<char>, i: int, depth: nat) -> Option<int>
    decreases text.len() - i,
{
    if i >= text.len() {
        None
    } else if text[i] == '(' || text[i] == '[' || text[i] == '{' {
        free_colon(text, i + 1, depth + 1)
    } else if text[i] == ')' || text[i] == ']' || text[i] == '}' {
        free_colon(
            text,
            i + 1,
            if depth > 0 {
                (depth - 1) as nat
            } else {
                0
            },
        )
    } else if text[i] == ':' && depth == 0 {
        Some(i)
    } else {
        free_colon(text, i + 1, depth)
    }
}

fn find_free_colon(text: &Vec<char>) -> (r: Option<usize>)
    ensures
        match r {
            Some(i) => i < text.len() && free_colon(text@, 0, 0) == Some(i as int),
            None => free_colon(text@, 0, 0) is None,
        },
{
    let mut depth: usize = 0;
    for i in 0..text.len()
        invariant
            depth <= i,
            free_colon(text@, 0, 0) == free_colon(text@, i as int, depth as nat),
    {
        let c = text[i];
        if c == '(' || c == '[' || c == '{' {
            depth += 1;
        } else if c == ')' || c == ']' || c == '}' {
            if depth > 0 {
                depth -= 1;
            }
        } else if c == ':' && depth == 0 {
            return Some(i);
        }
    }
    None
}

/// A signature begins with a binder.
pub open spec fn binder_first(signature: Seq<char>) -> bool {
    ||| begins(signature, "{"@) || begins(signature, "["@)
    ||| begins(signature, "("@) && cut(signature, ")"@) is Some && (
    cut(signature, ")"@)->0).0.contains(':')
}

/// The type of what a declaration gives: what follows the colon behind the binders.
pub open spec fn result_type(signature: Seq<char>) -> Seq<char> {
    let s = bare(signature);
    if begins(s, "∀"@) {
        s
    } else {
        match free_colon(s, 0, 0) {
            Some(i) => bare(s.skip(i + 1)),
            None => if binder_first(s) {
                ""@
            } else {
                s
            },
        }
    }
}

/// Computes [`result_type`].
pub fn declaration_result_type<'a>(signature: &'a str) -> (r: &'a str)
    ensures
        r@ == result_type(signature@),
{
    let s = trim(signature);
    if starts_with(s, "∀") {
        return s;
    }
    let chars = to_chars(s);
    match find_free_colon(&chars) {
        Some(i) => trim(from_index(s, i + 1)),
        None => {
            let bound = starts_with(s, "{") || starts_with(s, "[") || (starts_with(s, "(")
                && match split_once(s, ")") {
                Some((binder, _)) => has_char(binder, ':'),
                None => false,
            });
            if bound {
                ""
            } else {
                s
            }
        },
    }
}

/// A symbol of the pattern that the type lacks.
pub open spec fn lacks(pattern: Seq<char>, text: Seq<char>, symbol: Seq<char>) -> bool {
    has_text(pattern, symbol) && !has_text(text, symbol)
}

fn is_lacking(pattern: &str, text: &str, symbol: &str) -> (r: bool)
    ensures
        r == lacks(pattern@, text@, symbol@),
{
    contains(pattern, symbol) && !contains(text, symbol)
}

/// The points of what a declaration gives for a type pattern, none where a relation of
/// the pattern is missing from it.
pub open spec fn result_type_points(pattern: Seq<char>, signature: Seq<char>) -> int {
    let t = result_type(signature);
    if lacks(pattern, t, "≃L"@) || lacks(pattern, t, "↔"@) || lacks(pattern, t, "≤"@) || lacks(
        pattern,
        t,
        "≥"@,
    ) || lacks(pattern, t, "≠"@) || lacks(pattern, t, "∈"@) || lacks(pattern, t, "⊆"@) || lacks(
        pattern,
        t,
        "∘"@,
    ) || lacks(pattern, t, " = "@) || lacks(pattern, t, " < "@) || lacks(pattern, t, " > "@) {
        0
    } else {
        type_points(pattern, t)
    }
}

/// The score of what a declaration gives for a type pattern.
pub fn structural_result_type_score(pattern: &str, signature: &str) -> (r: i64)
    ensures
        r == narrowed(result_type_points(pattern@, signature@)),
{
    let t = declaration_result_type(signature);
    if is_lacking(pattern, t, "≃L") || is_lacking(pattern, t, "↔") || is_lacking(pattern, t, "≤")
        || is_lacking(pattern, t, "≥") || is_lacking(pattern, t, "≠") || is_lacking(pattern, t, "∈")
        || is_lacking(pattern, t, "⊆") || is_lacking(pattern, t, "∘") || is_lacking(
        pattern,
        t,
        " = ",
    ) || is_lacking(pattern, t, " < ") || is_lacking(pattern, t, " > ") {
        0
    } else {
        structural_type_score(pattern, t)
    }
}

} // verus!
