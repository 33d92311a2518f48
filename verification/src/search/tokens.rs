//! The tokens of a query.
use crate::text::class::{
    is_lowercase, is_numeric, is_uppercase, lowercase, numeric, uppercase, Class,
};
use crate::text::make::{
    byte_length, cat3, join, joined, lower, lowercased, own, prefix_all, prefix_step, same, strings,
    strings_push, strs, strs_push, to_chars, to_lower, to_lowercase,
};
use crate::text::pieces::{has_string, pieces, split, split_words, words};
use crate::text::scan::{opt_string, rcut, rsplit_once, trim_of, trimmed};
use vstd::prelude::*;

verus! {

broadcast use {strings_push, strs_push};

/// A condition on a token.
#[derive(Clone, Copy)]
pub enum TokenTest {
    /// Not a word of Lean's syntax.
    NotSyntax,
    /// At least that many characters.
    AtLeast(usize),
    /// At least that many bytes.
    Bytes(usize),
    /// Not a filler word.
    NotFiller,
    /// Not a word that asks for the text of a declaration.
    NotBody,
    /// A telling part of an identifier.
    Part,
    /// Not empty.
    Nonempty,
    /// Not a single underscore.
    NotHole,
}

/// A word of Lean's syntax, of tactics or of this search.
pub open spec fn syntax_word(t: Seq<char>) -> bool {
    ||| t == "aesop"@ || t == "apply"@ || t == "assumption"@ || t == "class"@ || t == "concept"@
    ||| t == "constructor"@ || t == "constructors"@ || t == "def"@ || t == "exact"@
    ||| t == "instance"@ || t == "lemma"@ || t == "name"@ || t == "only"@ || t == "rfl"@
    ||| t == "rw"@ || t == "simp"@ || t == "simpa"@ || t == "structure"@ || t == "theorem"@
    ||| t == "using"@
}

/// Decides [`syntax_word`].
pub fn search_syntax_token(t: &str) -> (r: bool)
    ensures
        r == syntax_word(t@),
{
    same(t, "aesop") || same(t, "apply") || same(t, "assumption") || same(t, "class") || same(
        t,
        "concept",
    ) || same(t, "constructor") || same(t, "constructors") || same(t, "def") || same(t, "exact")
        || same(t, "instance") || same(t, "lemma") || same(t, "name") || same(t, "only") || same(
        t,
        "rfl",
    ) || same(t, "rw") || same(t, "simp") || same(t, "simpa") || same(t, "structure") || same(
        t,
        "theorem",
    ) || same(t, "using")
}

/// A word that says nothing about what is looked for.
pub open spec fn filler_word(t: Seq<char>) -> bool {
    ||| t == "all"@ || t == "and"@ || t == "for"@ || t == "from"@ || t == "in"@ || t == "of"@
    ||| t == "on"@ || t == "or"@ || t == "the"@ || t == "to"@ || t == "with"@
}

fn is_filler_word(t: &str) -> (r: bool)
    ensures
        r == filler_word(t@),
{
    same(t, "all") || same(t, "and") || same(t, "for") || same(t, "from") || same(t, "in") || same(
        t,
        "of",
    ) || same(t, "on") || same(t, "or") || same(t, "the") || same(t, "to") || same(t, "with")
}

/// A word that asks for the text of a declaration.
pub open spec fn body_word(t: Seq<char>) -> bool {
    t == "body"@ || t == "implementation"@ || t == "proof"@ || t == "source"@
}

/// Decides [`body_word`].
pub fn is_body_word(t: &str) -> (r: bool)
    ensures
        r == body_word(t@),
{
    same(t, "body") || same(t, "implementation") || same(t, "proof") || same(t, "source")
}

impl TokenTest {
    /// What the test demands.
    pub open spec fn passes(self, t: Seq<char>) -> bool {
        match self {
            TokenTest::NotSyntax => !syntax_word(t),
            TokenTest::AtLeast(n) => t.len() >= n,
            TokenTest::Bytes(n) => byte_length(t) >= n,
            TokenTest::NotFiller => !filler_word(t),
            TokenTest::NotBody => !body_word(t),
            TokenTest::Part => t.len() >= 3 && !syntax_word(t) && !(t == "all"@ || t == "and"@ || t
                == "for"@ || t == "from"@ || t == "the"@ || t == "with"@),
            TokenTest::Nonempty => t.len() > 0,
            TokenTest::NotHole => t != "_"@,
        }
    }

    /// Decides [`TokenTest::passes`].
    pub fn accepts(self, t: &str) -> (r: bool)
        ensures
            r == self.passes(t@),
    {
        match self {
            TokenTest::NotSyntax => !search_syntax_token(t),
            TokenTest::AtLeast(n) => t.unicode_len() >= n,
            TokenTest::Bytes(n) => t.len() >= n,
            TokenTest::NotFiller => !is_filler_word(t),
            TokenTest::NotBody => !is_body_word(t),
            TokenTest::Part => t.unicode_len() >= 3 && !search_syntax_token(t) && !(same(t, "all")
                || same(t, "and") || same(t, "for") || same(t, "from") || same(t, "the") || same(
                t,
                "with",
            )),
            TokenTest::Nonempty => !t.is_empty(),
            TokenTest::NotHole => !same(t, "_"),
        }
    }
}

/// The tokens that pass a test.
pub open spec fn passing(list: Seq<Seq<char>>, test: TokenTest) -> Seq<Seq<char>>
    decreases list.len(),
{
    if list.len() == 0 {
        Seq::empty()
    } else if test.passes(list.last()) {
        passing(list.drop_last(), test).push(list.last())
    } else {
        passing(list.drop_last(), test)
    }
}

/// Computes [`passing`].
pub fn keep_passing(list: &Vec<String>, test: TokenTest) -> (r: Vec<String>)
    ensures
        strings(r@) == passing(strings(list@), test),
{
    let ghost views = strings(list@);
    let mut out: Vec<String> = Vec::new();
    for i in 0..list.len()
        invariant
            views == strings(list@),
            strings(out@) == passing(views.take(i as int), test),
    {
        proof {
            prefix_step(views, i as int);
        }
        assert(views[i as int] == list@[i as int]@);
        if test.accepts(list[i].as_str()) {
            out.push(list[i].clone());
        }
    }
    proof {
        prefix_all(views);
    }
    out
}

/// Some token passes a test.
pub open spec fn any_passing(list: Seq<Seq<char>>, test: TokenTest) -> bool {
    exists|i: int| 0 <= i < list.len() && test.passes(#[trigger] list[i])
}

/// Decides [`any_passing`].
pub fn has_passing(list: &Vec<String>, test: TokenTest) -> (r: bool)
    ensures
        r == any_passing(strings(list@), test),
{
    for i in 0..list.len()
        invariant
            forall|j: int| 0 <= j < i ==> !test.passes(#[trigger] strings(list@)[j]),
    {
        assert(strings(list@)[i as int] == list@[i as int]@);
        if test.accepts(list[i].as_str()) {
            return true;
        }
    }
    false
}

/// A list with the first occurrence of each text.
pub open spec fn distinct(list: Seq<Seq<char>>) -> Seq<Seq<char>>
    decreases list.len(),
{
    if list.len() == 0 {
        Seq::empty()
    } else {
        let earlier = distinct(list.drop_last());
        if earlier.contains(list.last()) {
            earlier
        } else {
            earlier.push(list.last())
        }
    }
}

/// Computes [`distinct`].
pub fn without_repeats(list: &Vec<String>) -> (r: Vec<String>)
    ensures
        strings(r@) == distinct(strings(list@)),
{
    let ghost views = strings(list@);
    let mut out: Vec<String> = Vec::new();
    for i in 0..list.len()
        invariant
            views == strings(list@),
            strings(out@) == distinct(views.take(i as int)),
    {
        proof {
            prefix_step(views, i as int);
        }
        assert(views[i as int] == list@[i as int]@);
        if !has_string(&out, list[i].as_str()) {
            out.push(list[i].clone());
        }
    }
    proof {
        prefix_all(views);
    }
    out
}

/// Nothing is listed twice once repeats are dropped, and nothing is lost.
pub proof fn distinct_keeps_each_once(list: Seq<Seq<char>>)
    ensures
        distinct(list).no_duplicates(),
        forall|t: Seq<char>| #[trigger] distinct(list).contains(t) <==> list.contains(t),
    decreases list.len(),
{
    if list.len() > 0 {
        let shorter = list.drop_last();
        distinct_keeps_each_once(shorter);
        let earlier = distinct(shorter);
        let result = distinct(list);
        assert forall|t: Seq<char>| #[trigger] result.contains(t) <==> list.contains(t) by {
            if list.contains(t) {
                let k = choose|k: int| 0 <= k < list.len() && list[k] == t;
                if k < shorter.len() {
                    assert(shorter[k] == t);
                    assert(earlier.contains(t));
                    let m = choose|m: int| 0 <= m < earlier.len() && earlier[m] == t;
                    assert(result[m] == t);
                } else if !earlier.contains(t) {
                    assert(result[earlier.len() as int] == t);
                }
            }
            if result.contains(t) {
                let m = choose|m: int| 0 <= m < result.len() && result[m] == t;
                if m < earlier.len() {
                    assert(earlier[m] == t);
                    assert(earlier.contains(t));
                    let k = choose|k: int| 0 <= k < shorter.len() && shorter[k] == t;
                    assert(list[k] == t);
                } else {
                    assert(list[list.len() - 1] == t);
                }
            }
        }
        assert forall|i: int, j: int|
            0 <= i < result.len() && 0 <= j < result.len() && i != j implies result[i]
            != result[j] by {
            if i < earlier.len() && j < earlier.len() {
                assert(earlier[i] != earlier[j]);
            } else if i < earlier.len() {
                assert(earlier.contains(earlier[i]));
            } else {
                assert(earlier.contains(earlier[j]));
            }
        }
    }
}

/// The tokens of some pieces of a query.
pub open spec fn tokens_of(list: Seq<Seq<char>>) -> Seq<Seq<char>> {
    list.map_values(|p: Seq<char>| lowercased(trimmed(p, Class::Is('.'))))
}

/// The tokens of a query: its runs of letters, numbers, underscores and dots in lower
/// case, without dots around them.
pub open spec fn query_words(query: Seq<char>) -> Seq<Seq<char>> {
    passing(tokens_of(pieces(query, Class::Outside("_."))), TokenTest::Nonempty)
}

/// Computes [`query_words`].
pub fn query_tokens(query: &str) -> (r: Vec<String>)
    ensures
        strings(r@) == query_words(query@),
{
    let parts = split(query, Class::Outside("_."));
    let ghost wanted = tokens_of(strs(parts@));
    let mut all: Vec<String> = Vec::new();
    for i in 0..parts.len()
        invariant
            wanted == tokens_of(strs(parts@)),
            strings(all@) == wanted.take(i as int),
    {
        proof {
            prefix_step(wanted, i as int);
        }
        all.push(to_lowercase(trim_of(parts[i], Class::Is('.'))));
    }
    proof {
        prefix_all(wanted);
    }
    keep_passing(&all, TokenTest::Nonempty)
}

/// A new word of a compound name begins at position `i`.
pub open spec fn word_boundary(t: Seq<char>, i: int) -> bool {
    uppercase(t[i]) && (lowercase(t[i - 1]) || numeric(t[i - 1]) || (i + 1 < t.len() && lowercase(
        t[i + 1],
    )))
}

/// The words of a compound name from `start` on, where the boundaries before `i` have
/// been passed.
pub open spec fn camel_from(t: Seq<char>, start: int, i: int) -> Seq<Seq<char>>
    decreases t.len() - i,
{
    if i >= t.len() {
        seq![crate::text::scan::after_chars(t, start)]
    } else if word_boundary(t, i) {
        seq![crate::text::scan::subtext(t, start, i)] + camel_from(t, i, i + 1)
    } else {
        camel_from(t, start, i + 1)
    }
}

/// The words of a compound name such as `localEquiv`.
pub open spec fn camel_words(t: Seq<char>) -> Seq<Seq<char>> {
    camel_from(t, 0, 1)
}

fn split_camel<'a>(text: &'a str) -> (r: Vec<&'a str>)
    ensures
        strs(r@) == camel_words(text@),
        r.len() > 0,
{
    let t = to_chars(text);
    let mut out: Vec<&'a str> = Vec::new();
    let mut start: usize = 0;
    let mut i: usize = 1;
    while i < t.len()
        invariant
            t@ == text@,
            1 <= i,
            start < i,
            camel_words(text@) == strs(out@) + camel_from(text@, start as int, i as int),
        decreases t.len() - i,
    {
        let next_is_lower = i + 1 < t.len() && is_lowercase(t[i + 1]);
        if is_uppercase(t[i]) && (is_lowercase(t[i - 1]) || is_numeric(t[i - 1])
            || next_is_lower) {
            out.push(crate::text::scan::slice(text, start, i));
            start = i;
            assert(camel_words(text@) =~= strs(out@) + camel_from(text@, start as int, i + 1));
        }
        i += 1;
    }
    let ghost before = strs(out@);
    let last = crate::text::scan::skip_chars(text, start);
    out.push(last);
    assert(strs(out@) =~= before + seq![last@]);
    out
}

/// Each text in lower case.
pub open spec fn lowercased_all(list: Seq<Seq<char>>) -> Seq<Seq<char>> {
    list.map_values(|t: Seq<char>| lowercased(t))
}

/// The parts of the segments of a name, where a name that is a single word has none.
pub open spec fn segment_parts(list: Seq<Seq<char>>, token: Seq<char>) -> Seq<Seq<char>>
    decreases list.len(),
{
    if list.len() == 0 {
        Seq::empty()
    } else {
        let earlier = segment_parts(list.drop_last(), token);
        if camel_words(list.last()).len() == 1 && list.last() == token {
            earlier
        } else {
            earlier + lowercased_all(camel_words(list.last()))
        }
    }
}

/// The parts of a name between dots, underscores and changes of case, in lower case.
pub open spec fn name_parts(token: Seq<char>) -> Seq<Seq<char>> {
    segment_parts(pieces(token, Class::Only("._")), token)
}

/// Computes [`name_parts`].
pub fn identifier_query_parts(token: &str) -> (r: Vec<String>)
    ensures
        strings(r@) == name_parts(token@),
{
    let segments = split(token, Class::Only("._"));
    let ghost views = strs(segments@);
    let mut out: Vec<String> = Vec::new();
    for i in 0..segments.len()
        invariant
            views == strs(segments@),
            strings(out@) == segment_parts(views.take(i as int), token@),
    {
        proof {
            prefix_step(views, i as int);
        }
        let segment = segments[i];
        assert(views[i as int] == segment@);
        let parts = split_camel(segment);
        assert(strs(parts@).len() == parts.len());
        if !(parts.len() == 1 && same(segment, token)) {
            let ghost before = strings(out@);
            let ghost wanted = lowercased_all(strs(parts@));
            for j in 0..parts.len()
                invariant
                    wanted == lowercased_all(strs(parts@)),
                    strings(out@) == before + wanted.take(j as int),
            {
                proof {
                    prefix_step(wanted, j as int);
                }
                out.push(to_lowercase(parts[j]));
                assert(strings(out@) =~= before + wanted.take(j + 1));
            }
            proof {
                prefix_all(wanted);
            }
        }
    }
    proof {
        prefix_all(views);
    }
    out
}

/// What follows the last dot of a name.
pub open spec fn leaf(name: Seq<char>) -> Seq<char> {
    match rcut(name, "."@) {
        Some(sides) => sides.1,
        None => name,
    }
}

/// Computes [`leaf`].
pub fn leaf_of<'a>(name: &'a str) -> (r: &'a str)
    ensures
        r@ == leaf(name@),
{
    match rsplit_once(name, ".") {
        Some(sides) => sides.1,
        None => name,
    }
}

/// The telling parts of the last components of some names.
pub open spec fn leaf_parts(list: Seq<Seq<char>>) -> Seq<Seq<char>>
    decreases list.len(),
{
    if list.len() == 0 {
        Seq::empty()
    } else {
        leaf_parts(list.drop_last()) + passing(name_parts(leaf(list.last())), TokenTest::Part)
    }
}

fn collect_leaf_parts(list: &Vec<&str>) -> (r: Vec<String>)
    ensures
        strings(r@) == leaf_parts(strs(list@)),
{
    let ghost views = strs(list@);
    let mut out: Vec<String> = Vec::new();
    for i in 0..list.len()
        invariant
            views == strs(list@),
            strings(out@) == leaf_parts(views.take(i as int)),
    {
        proof {
            prefix_step(views, i as int);
        }
        assert(views[i as int] == list@[i as int]@);
        let mut parts = keep_passing(&identifier_query_parts(leaf_of(list[i])), TokenTest::Part);
        let ghost before = out@;
        let ghost added = parts@;
        out.append(&mut parts);
        assert(strings(out@) =~= strings(before) + strings(added));
    }
    proof {
        prefix_all(views);
    }
    out
}

/// The Lean spelling of a concept.
pub open spec fn concept_alias(t: Seq<char>) -> Option<Seq<char>> {
    if t == "addition"@ {
        Some("add"@)
    } else if t == "composition"@ {
        Some("comp"@)
    } else if t == "continuity"@ {
        Some("continuous"@)
    } else if t == "multiplication"@ {
        Some("mul"@)
    } else if t == "projection"@ {
        Some("proj"@)
    } else if t == "scaling"@ {
        Some("smul"@)
    } else {
        None
    }
}

fn alias_of(t: &str) -> (r: Option<&'static str>)
    ensures
        crate::text::scan::opt_str(r) == concept_alias(t@),
{
    if same(t, "addition") {
        Some("add")
    } else if same(t, "composition") {
        Some("comp")
    } else if same(t, "continuity") {
        Some("continuous")
    } else if same(t, "multiplication") {
        Some("mul")
    } else if same(t, "projection") {
        Some("proj")
    } else if same(t, "scaling") {
        Some("smul")
    } else {
        None
    }
}

/// A subscript digit.
pub open spec fn subscript(c: char) -> bool {
    '₀' <= c <= '₉'
}

/// The digit in its other spelling, plain or subscript.
pub open spec fn other_digit(c: char, to_subscript: bool) -> char {
    if to_subscript {
        if '0' <= c <= '9' {
            (c as u32 - '0' as u32 + '₀' as u32) as char
        } else {
            c
        }
    } else if subscript(c) {
        (c as u32 - '₀' as u32 + '0' as u32) as char
    } else {
        c
    }
}

fn change_digit(c: char, to_subscript: bool) -> (r: char)
    ensures
        r == other_digit(c, to_subscript),
{
    if to_subscript {
        if '0' <= c && c <= '9' {
            match c {
                '0' => '₀',
                '1' => '₁',
                '2' => '₂',
                '3' => '₃',
                '4' => '₄',
                '5' => '₅',
                '6' => '₆',
                '7' => '₇',
                '8' => '₈',
                _ => '₉',
            }
        } else {
            c
        }
    } else if '₀' <= c && c <= '₉' {
        match c {
            '₀' => '0',
            '₁' => '1',
            '₂' => '2',
            '₃' => '3',
            '₄' => '4',
            '₅' => '5',
            '₆' => '6',
            '₇' => '7',
            '₈' => '8',
            _ => '9',
        }
    } else {
        c
    }
}

/// A text with its digits in the other spelling.
pub open spec fn other_digits(t: Seq<char>, to_subscript: bool) -> Seq<char> {
    t.map_values(|c: char| other_digit(c, to_subscript))
}

/// Computes [`other_digits`].
pub fn change_digits(t: &str, to_subscript: bool) -> (r: String)
    ensures
        r@ == other_digits(t@, to_subscript),
{
    let mut out = String::new();
    for c in it: t.chars()
        invariant
            it.seq() == t@,
            out@ == other_digits(t@.take(it.index() as int), to_subscript),
    {
        proof {
            prefix_step(t@, it.index() as int);
            assert(other_digits(t@.take(it.index() as int), to_subscript).push(
                other_digit(c, to_subscript),
            ) =~= other_digits(t@.take(it.index() + 1), to_subscript));
        }
        out.push(change_digit(c, to_subscript));
    }
    proof {
        prefix_all(t@);
    }
    out
}

/// Some character is a plain digit.
pub open spec fn has_plain_digit(t: Seq<char>) -> bool {
    exists|i: int| 0 <= i < t.len() && '0' <= #[trigger] t[i] <= '9'
}

/// Some character is a subscript digit.
pub open spec fn has_subscript(t: Seq<char>) -> bool {
    exists|i: int| 0 <= i < t.len() && subscript(#[trigger] t[i])
}

/// A token with plain digits in subscript, or one with subscripts in plain digits; a
/// token with both or neither has no other spelling.
pub open spec fn digit_alias(t: Seq<char>) -> Option<Seq<char>> {
    if has_plain_digit(t) == has_subscript(t) {
        None
    } else {
        Some(other_digits(t, has_plain_digit(t)))
    }
}

/// Computes [`digit_alias`].
pub fn numeric_subscript_alias(t: &str) -> (r: Option<String>)
    ensures
        opt_string(r) == digit_alias(t@),
{
    let chars = to_chars(t);
    let mut plain = false;
    let mut below = false;
    for i in 0..chars.len()
        invariant
            chars@ == t@,
            plain == exists|j: int| 0 <= j < i && '0' <= #[trigger] t@[j] <= '9',
            below == exists|j: int| 0 <= j < i && subscript(#[trigger] t@[j]),
    {
        let c = chars[i];
        assert(t@[i as int] == c);
        if '0' <= c && c <= '9' {
            plain = true;
        }
        if '₀' <= c && c <= '₉' {
            below = true;
        }
    }
    if plain == below {
        None
    } else {
        Some(change_digits(t, plain))
    }
}

/// Spelling digits the other way and back gives the token itself.
pub proof fn digit_alias_is_undone(t: Seq<char>)
    requires
        digit_alias(t) is Some,
    ensures
        digit_alias(digit_alias(t)->0) == Some(t),
{
    let plain = has_plain_digit(t);
    let other = digit_alias(t)->0;
    if plain {
        let i = choose|i: int| 0 <= i < t.len() && '0' <= #[trigger] t[i] <= '9';
        assert(subscript(other[i]));
        assert forall|j: int| 0 <= j < other.len() implies !('0' <= #[trigger] other[j] <= '9') by {
            assert(!subscript(t[j]));
        }
        assert(has_subscript(other) && !has_plain_digit(other));
        assert(other_digits(other, false) =~= t) by {
            assert forall|j: int| 0 <= j < t.len() implies other_digits(other, false)[j]
                == t[j] by {
                assert(!subscript(t[j]));
            }
        }
    } else {
        let i = choose|i: int| 0 <= i < t.len() && subscript(#[trigger] t[i]);
        assert('0' <= other[i] <= '9');
        assert forall|j: int| 0 <= j < other.len() implies !subscript(#[trigger] other[j]) by {
            assert(!('0' <= t[j] <= '9'));
        }
        assert(has_plain_digit(other) && !has_subscript(other));
        assert(other_digits(other, true) =~= t) by {
            assert forall|j: int| 0 <= j < t.len() implies other_digits(other, true)[j] == t[j] by {
                assert(!('0' <= t[j] <= '9'));
            }
        }
    }
}

/// The Lean spellings of the concepts among some tokens.
pub open spec fn concept_aliases(list: Seq<Seq<char>>) -> Seq<Seq<char>>
    decreases list.len(),
{
    if list.len() == 0 {
        Seq::empty()
    } else {
        match concept_alias(list.last()) {
            Some(a) => concept_aliases(list.drop_last()).push(a),
            None => concept_aliases(list.drop_last()),
        }
    }
}

/// The other spellings of the tokens with digits.
pub open spec fn digit_aliases(list: Seq<Seq<char>>) -> Seq<Seq<char>>
    decreases list.len(),
{
    if list.len() == 0 {
        Seq::empty()
    } else {
        match digit_alias(list.last()) {
            Some(a) => digit_aliases(list.drop_last()).push(a),
            None => digit_aliases(list.drop_last()),
        }
    }
}

fn collect_aliases(list: &Vec<String>) -> (r: Vec<String>)
    ensures
        strings(r@) == concept_aliases(strings(list@)),
{
    let ghost views = strings(list@);
    let mut out: Vec<String> = Vec::new();
    for i in 0..list.len()
        invariant
            views == strings(list@),
            strings(out@) == concept_aliases(views.take(i as int)),
    {
        proof {
            prefix_step(views, i as int);
        }
        assert(views[i as int] == list@[i as int]@);
        if let Some(a) = alias_of(list[i].as_str()) {
            out.push(own(a));
        }
    }
    proof {
        prefix_all(views);
    }
    out
}

fn collect_digit_aliases(list: &Vec<String>) -> (r: Vec<String>)
    ensures
        strings(r@) == digit_aliases(strings(list@)),
{
    let ghost views = strings(list@);
    let mut out: Vec<String> = Vec::new();
    for i in 0..list.len()
        invariant
            views == strings(list@),
            strings(out@) == digit_aliases(views.take(i as int)),
    {
        proof {
            prefix_step(views, i as int);
        }
        assert(views[i as int] == list@[i as int]@);
        if let Some(a) = numeric_subscript_alias(list[i].as_str()) {
            out.push(a);
        }
    }
    proof {
        prefix_all(views);
    }
    out
}

/// Some word of a query asks for the text of a declaration.
pub open spec fn wants_body(query: Seq<char>) -> bool {
    exists|i: int| 0 <= i < words(query).len() && body_word(lower(#[trigger] words(query)[i]))
}

/// Decides [`wants_body`].
pub fn query_requests_proof_body(query: &str) -> (r: bool)
    ensures
        r == wants_body(query@),
{
    let list = split_words(query);
    for i in 0..list.len()
        invariant
            strs(list@) == words(query@),
            forall|j: int| 0 <= j < i ==> !body_word(lower(#[trigger] strs(list@)[j])),
    {
        assert(strs(list@)[i as int] == list@[i as int]@);
        if is_body_word(to_lower(list[i]).as_str()) {
            return true;
        }
    }
    false
}

/// The tokens that say what a query is about, before other spellings are added.
pub open spec fn telling_tokens(query: Seq<char>) -> Seq<Seq<char>> {
    let all = query_words(query);
    let plain = if all.len() > 1 && any_passing(all, TokenTest::NotSyntax) {
        passing(all, TokenTest::NotSyntax)
    } else {
        all
    };
    let longer = if plain.len() > 1 {
        passing(passing(plain, TokenTest::AtLeast(2)), TokenTest::NotFiller)
    } else {
        plain
    };
    if wants_body(query) {
        passing(longer, TokenTest::NotBody)
    } else {
        longer
    }
}

/// The tokens to search for: the telling tokens, their other spellings, and the parts
/// of the last components of the names, each once.
pub open spec fn search_tokens(query: Seq<char>) -> Seq<Seq<char>> {
    let base = telling_tokens(query);
    let named = base + concept_aliases(base);
    let spelled = named + digit_aliases(named);
    distinct(spelled + leaf_parts(pieces(query, Class::Outside("_."))))
}

fn telling(query: &str) -> (r: Vec<String>)
    ensures
        strings(r@) == telling_tokens(query@),
{
    let mut tokens = query_tokens(query);
    assert(strings(tokens@).len() == tokens.len());
    if tokens.len() > 1 && has_passing(&tokens, TokenTest::NotSyntax) {
        tokens = keep_passing(&tokens, TokenTest::NotSyntax);
    }
    assert(strings(tokens@).len() == tokens.len());
    if tokens.len() > 1 {
        tokens = keep_passing(&keep_passing(&tokens, TokenTest::AtLeast(2)), TokenTest::NotFiller);
    }
    if query_requests_proof_body(query) {
        tokens = keep_passing(&tokens, TokenTest::NotBody);
    }
    tokens
}

/// Adds texts at the end of a list.
pub fn append_strings(list: &mut Vec<String>, mut more: Vec<String>)
    ensures
        strings(final(list)@) == strings(old(list)@) + strings(more@),
{
    let ghost before = list@;
    let ghost added = more@;
    list.append(&mut more);
    assert(strings(list@) =~= strings(before) + strings(added));
}

/// Computes [`search_tokens`].
pub fn meaningful_query_tokens(query: &str) -> (r: Vec<String>)
    ensures
        strings(r@) == search_tokens(query@),
{
    let mut tokens = telling(query);
    let aliases = collect_aliases(&tokens);
    append_strings(&mut tokens, aliases);
    let spellings = collect_digit_aliases(&tokens);
    append_strings(&mut tokens, spellings);
    let parts = collect_leaf_parts(&split(query, Class::Outside("_.")));
    append_strings(&mut tokens, parts);
    without_repeats(&tokens)
}

/// A token as a prefix of the full-text index.
pub open spec fn fts_terms(list: Seq<Seq<char>>) -> Seq<Seq<char>> {
    list.map_values(
        |t: Seq<char>| "\""@ + crate::search::warning::replaced(t, '"', "\"\""@) + "\"*"@,
    )
}

/// The query of the full-text index for the tokens of a query.
pub open spec fn full_text_query(query: Seq<char>) -> Seq<char> {
    joined(fts_terms(passing(search_tokens(query), TokenTest::NotHole)), " OR "@)
}

/// Computes [`full_text_query`].
pub fn fts_query(query: &str) -> (r: String)
    ensures
        r@ == full_text_query(query@),
{
    let tokens = keep_passing(&meaningful_query_tokens(query), TokenTest::NotHole);
    let ghost wanted = fts_terms(strings(tokens@));
    let mut out: Vec<String> = Vec::new();
    for i in 0..tokens.len()
        invariant
            wanted == fts_terms(strings(tokens@)),
            strings(out@) == wanted.take(i as int),
    {
        proof {
            prefix_step(wanted, i as int);
        }
        let escaped = crate::search::warning::replace_char(tokens[i].as_str(), '"', "\"\"");
        out.push(cat3("\"", escaped.as_str(), "\"*"));
    }
    proof {
        prefix_all(wanted);
    }
    join(&out, " OR ")
}

} // verus!
