//! Search requests: exact names, types, regular expressions and free queries.
use crate::failure::{refuse, Failure};
use crate::reference::{refers, Reference, ReferenceKind};
use crate::search::fragment::{
    fragment_check, validate_balanced_fragment, validate_balanced_fragment_with_hint,
};
use crate::text::class::{all_of, any_of, is_all, is_any, Class};
use crate::text::make::{
    alike, byte_length, cat3, join_strs, joined, own, prefix_all, prefix_step, same,
    same_ignoring_case, strings, strings_push, strs, strs_push,
};
use crate::text::pieces::{
    bare_all, first_word, next_word, own_all, pieces, split, split_words, trim_all, words,
};
use crate::text::scan::{
    after_chars, bare, begins, contains, ends, ends_with, has_text, sans_prefix, skip_chars,
    starts_with, trim, without_prefix,
};
use vstd::prelude::*;

verus! {

broadcast use {strings_push, strs_push};

/// What a search looks for.
#[derive(Debug, PartialEq, Eq)]
pub enum SearchExpression {
    ExactNames(Vec<String>),
    Type(String),
    Regex(String),
    Query(String),
}

/// The contents of a [`SearchExpression`].
pub enum ExpressionView {
    ExactNames(Seq<Seq<char>>),
    Type(Seq<char>),
    Regex(Seq<char>),
    Query(Seq<char>),
}

impl View for SearchExpression {
    type V = ExpressionView;

    open spec fn view(&self) -> ExpressionView {
        match self {
            SearchExpression::ExactNames(names) => ExpressionView::ExactNames(strings(names@)),
            SearchExpression::Type(t) => ExpressionView::Type(t@),
            SearchExpression::Regex(t) => ExpressionView::Regex(t@),
            SearchExpression::Query(t) => ExpressionView::Query(t@),
        }
    }
}

/// A search request.
#[derive(Debug, PartialEq, Eq)]
pub struct SearchRequest {
    pub expression: SearchExpression,
    pub displayed_query: String,
    pub limit: Option<usize>,
    pub all: bool,
}

/// The contents of a [`SearchRequest`].
pub struct SearchRequestView {
    pub expression: ExpressionView,
    pub displayed_query: Seq<char>,
    pub limit: Option<usize>,
    pub all: bool,
}

impl View for SearchRequest {
    type V = SearchRequestView;

    open spec fn view(&self) -> SearchRequestView {
        SearchRequestView {
            expression: self.expression@,
            displayed_query: self.displayed_query@,
            limit: self.limit,
            all: self.all,
        }
    }
}

/// The view of a parsed request.
pub open spec fn request_view(r: Result<SearchRequest, Failure>) -> Result<
    SearchRequestView,
    Seq<char>,
> {
    match r {
        Ok(q) => Ok(q@),
        Err(e) => Err(e@),
    }
}

/// The declaration kinds that a query may begin with.
pub open spec fn declaration_kind(word: Seq<char>) -> bool {
    word == "abbrev"@ || word == "class"@ || word == "def"@ || word == "inductive"@ || word
        == "instance"@ || word == "lemma"@ || word == "structure"@ || word == "theorem"@
}

fn is_declaration_kind(word: &str) -> (r: bool)
    ensures
        r == declaration_kind(word@),
{
    same(word, "abbrev") || same(word, "class") || same(word, "def") || same(word, "inductive")
        || same(word, "instance") || same(word, "lemma") || same(word, "structure") || same(
        word,
        "theorem",
    )
}

/// A declaration name: parts between dots, each of letters, numbers, underscores and
/// apostrophes, and none of them empty.
pub open spec fn declaration_name(name: Seq<char>) -> bool {
    forall|i: int|
        0 <= i < pieces(name, Class::Is('.')).len() ==> {
            let part = #[trigger] pieces(name, Class::Is('.'))[i];
            part.len() > 0 && all_of(part, Class::Word("_'"))
        }
}

/// Decides [`declaration_name`].
pub fn is_declaration_name(name: &str) -> (r: bool)
    ensures
        r == declaration_name(name@),
{
    let parts = split(name, Class::Is('.'));
    let ghost views = strs(parts@);
    for i in 0..parts.len()
        invariant
            views == strs(parts@),
            views == pieces(name@, Class::Is('.')),
            forall|j: int|
                0 <= j < i ==> (#[trigger] views[j]).len() > 0 && all_of(
                    views[j],
                    Class::Word("_'"),
                ),
    {
        assert(views[i as int] == parts[i as int]@);
        if parts[i].is_empty() || !is_all(parts[i], Class::Word("_'")) {
            return false;
        }
    }
    true
}

/// Some word asks for more results.
pub open spec fn asks_for_more(query: Seq<char>) -> bool {
    exists|i: int| 0 <= i < words(query).len() && alike(#[trigger] words(query)[i], "more"@)
}

fn has_more_word(list: &Vec<&str>) -> (r: bool)
    ensures
        r == exists|i: int| 0 <= i < strs(list@).len() && alike(#[trigger] strs(list@)[i], "more"@),
{
    for i in 0..list.len()
        invariant
            forall|j: int| 0 <= j < i ==> !alike(#[trigger] strs(list@)[j], "more"@),
    {
        assert(strs(list@)[i as int] == list[i as int]@);
        if same_ignoring_case(list[i], "more") {
            return true;
        }
    }
    false
}

/// The names of a batch.
pub open spec fn batch(names: Seq<char>) -> Seq<Seq<char>> {
    bare_all(pieces(names, Class::Is('|')))
}

/// A later name of a batch repeats the prefix.
pub open spec fn repeats_prefix(names: Seq<Seq<char>>) -> bool {
    exists|i: int| 1 <= i < names.len() && begins(#[trigger] names[i], "name:"@)
}

/// The names of a batch without the prefix.
pub open spec fn without_prefixes_of(names: Seq<Seq<char>>) -> Seq<Seq<char>> {
    names.map_values(|n: Seq<char>| sans_prefix(n, "name:"@))
}

/// Every name of a batch is a declaration name.
pub open spec fn all_names(names: Seq<Seq<char>>) -> bool {
    forall|i: int| 0 <= i < names.len() ==> declaration_name(#[trigger] names[i])
}

/// Some name of a batch has a wildcard.
pub open spec fn any_wildcard(names: Seq<Seq<char>>) -> bool {
    exists|i: int| 0 <= i < names.len() && has_text(#[trigger] names[i], "*"@)
}

/// The batch of exact names after `name:`, or why it is none.
pub open spec fn exact_names(rest: Seq<char>) -> Result<Seq<Seq<char>>, Seq<char>> {
    let names = batch(rest);
    if any_of(rest, Class::Space) {
        Err("name: accepts one name or a `|` batch"@)
    } else if repeats_prefix(names) {
        Err(
            "name: accepts one prefix; use `name:"@ + joined(without_prefixes_of(names), "|"@)
                + "` for an exact batch"@,
        )
    } else if all_names(names) {
        Ok(names)
    } else if any_wildcard(names) {
        Err(
            "name: is exact-only; use `mathmux search 'declaration "@ + joined(names, "|"@)
                + "'` for wildcard discovery or name:A|B|C for an exact batch"@,
        )
    } else {
        Err("invalid exact-name batch; use name:A|B|C (no spaces)"@)
    }
}

fn parse_exact_names(rest: &str) -> (r: Result<Vec<String>, Failure>)
    ensures
        match r {
            Ok(names) => exact_names(rest@) == Ok::<Seq<Seq<char>>, Seq<char>>(strings(names@)),
            Err(e) => exact_names(rest@) == Err::<Seq<Seq<char>>, Seq<char>>(e@),
        },
{
    if is_any(rest, Class::Space) {
        return refuse("name: accepts one name or a `|` batch");
    }
    let parts = split(rest, Class::Is('|'));
    let names = trim_all(&parts);
    let ghost views = strs(names@);
    assert(views == batch(rest@));
    let mut repeated = false;
    let mut valid = true;
    let mut wild = false;
    let mut stripped: Vec<&str> = Vec::new();
    for i in 0..names.len()
        invariant
            views == strs(names@),
            repeated == exists|j: int| 1 <= j < i && begins(#[trigger] views[j], "name:"@),
            valid == forall|j: int| 0 <= j < i ==> declaration_name(#[trigger] views[j]),
            wild == exists|j: int| 0 <= j < i && has_text(#[trigger] views[j], "*"@),
            strs(stripped@) == without_prefixes_of(views).take(i as int),
    {
        assert(views[i as int] == names[i as int]@);
        if i > 0 && starts_with(names[i], "name:") {
            repeated = true;
        }
        if !is_declaration_name(names[i]) {
            valid = false;
        }
        if contains(names[i], "*") {
            wild = true;
        }
        proof {
            prefix_step(without_prefixes_of(views), i as int);
        }
        stripped.push(without_prefix(names[i], "name:"));
    }
    proof {
        prefix_all(without_prefixes_of(views));
    }
    if repeated {
        let pattern = join_strs(&stripped, "|");
        return refuse(
            cat3(
                "name: accepts one prefix; use `name:",
                pattern.as_str(),
                "` for an exact batch",
            ).as_str(),
        );
    }
    if valid {
        return Ok(own_all(&names));
    }
    if wild {
        let pattern = join_strs(&names, "|");
        return refuse(
            cat3(
                "name: is exact-only; use `mathmux search 'declaration ",
                pattern.as_str(),
                "'` for wildcard discovery or name:A|B|C for an exact batch",
            ).as_str(),
        );
    }
    refuse("invalid exact-name batch; use name:A|B|C (no spaces)")
}

/// A regular expression between slashes, after the path that it is limited to.
pub open spec fn slashed(path: Option<Seq<char>>, regex: Seq<char>) -> Result<
    Seq<char>,
    Seq<char>,
> {
    let inner = bare(regex);
    if begins(inner, "/"@) && ends(inner, "/"@) && byte_length(inner) > 2 {
        Ok(
            match path {
                Some(p) => p + " "@ + inner,
                None => inner,
            },
        )
    } else {
        Err("re: expects /REGEX/"@)
    }
}

fn canonical_regex(path: Option<&str>, regex: &str) -> (r: Result<String, Failure>)
    ensures
        crate::failure::text_view(r) == slashed(crate::text::scan::opt_str(path), regex@),
{
    let inner = trim(regex);
    if starts_with(inner, "/") && ends_with(inner, "/") && inner.len() > 2 {
        Ok(
            match path {
                Some(p) => cat3(p, " ", inner),
                None => own(inner),
            },
        )
    } else {
        refuse("re: expects /REGEX/")
    }
}

/// The expression that a trimmed query stands for, or why it is refused.
pub open spec fn expression_of(query: Seq<char>) -> Result<ExpressionView, Seq<char>> {
    let terms = words(query);
    if begins(query, "name:"@) {
        match exact_names(sans_prefix(query, "name:"@)) {
            Ok(names) => Ok(ExpressionView::ExactNames(names)),
            Err(e) => Err(e),
        }
    } else if begins(query, "type:"@) {
        let pattern = bare(sans_prefix(query, "type:"@));
        if pattern.len() == 0 {
            Err("type: requires a Lean type pattern"@)
        } else {
            match fragment_check(pattern, "type"@) {
                Ok(_) => Ok(ExpressionView::Type(pattern)),
                Err(e) => Err(e),
            }
        }
    } else if begins(query, "re:"@) {
        match slashed(None, sans_prefix(query, "re:"@)) {
            Ok(regex) => Ok(ExpressionView::Regex(regex)),
            Err(e) => Err(e),
        }
    } else if terms.len() >= 2 && begins(terms[1], "re:"@) {
        let rest = sans_prefix(bare(after_chars(query, terms[0].len() as int)), "re:"@);
        match slashed(Some(terms[0]), rest) {
            Ok(regex) => Ok(ExpressionView::Regex(regex)),
            Err(e) => Err(e),
        }
    } else {
        match fragment_check(query, "search"@) {
            Ok(_) => Ok(ExpressionView::Query(query)),
            Err(e) => Err(e),
        }
    }
}

/// A Lean command at the head of a query.
pub open spec fn lean_command(word: Option<Seq<char>>) -> bool {
    word == Some("#check"@) || word == Some("#synth"@) || word == Some("#reduce"@) || word == Some(
        "#print"@,
    )
}

/// The request that a query stands for, or why it is refused.
pub open spec fn search_request(query: Seq<char>, limit: Option<usize>, all: bool) -> Result<
    SearchRequestView,
    Seq<char>,
> {
    let text = bare(query);
    let terms = words(text);
    if text.len() == 0 {
        Err("search query is empty"@)
    } else if limit matches Some(n) && !(1 <= n <= 200) {
        Err("--limit must be between 1 and 200"@)
    } else if asks_for_more(text) {
        Err("search has no `more` modifier; use `show qREF --all`"@)
    } else if first_word(text) matches Some(w) && refers(w, ReferenceKind::Check) {
        Err("inspect a stored check with `mathmux probe cREF`"@)
    } else if lean_command(first_word(text)) {
        Err("Lean directives belong to `mathmux probe CONTEXT \"#check TERM\"`"@)
    } else if terms.len() > 1 && declaration_kind(terms[0]) && begins(terms[1], "name:"@) {
        Err("KIND and name: are separate search forms and cannot be combined"@)
    } else {
        match expression_of(text) {
            Ok(expression) => Ok(
                SearchRequestView { expression, displayed_query: text, limit, all },
            ),
            Err(e) => Err(e),
        }
    }
}

fn parse_expression(query: &str) -> (r: Result<SearchExpression, Failure>)
    ensures
        match r {
            Ok(x) => expression_of(query@) == Ok::<ExpressionView, Seq<char>>(x@),
            Err(e) => expression_of(query@) == Err::<ExpressionView, Seq<char>>(e@),
        },
{
    let terms = split_words(query);
    assert(strs(terms@).len() == terms.len());
    if starts_with(query, "name:") {
        match parse_exact_names(without_prefix(query, "name:")) {
            Ok(names) => Ok(SearchExpression::ExactNames(names)),
            Err(e) => Err(e),
        }
    } else if starts_with(query, "type:") {
        let pattern = trim(without_prefix(query, "type:"));
        if pattern.is_empty() {
            return refuse("type: requires a Lean type pattern");
        }
        match validate_balanced_fragment_with_hint(pattern, "type") {
            Ok(_) => Ok(SearchExpression::Type(own(pattern))),
            Err(e) => Err(e),
        }
    } else if starts_with(query, "re:") {
        match canonical_regex(None, without_prefix(query, "re:")) {
            Ok(regex) => Ok(SearchExpression::Regex(regex)),
            Err(e) => Err(e),
        }
    } else {
        if terms.len() >= 2 {
            assert(strs(terms@)[0] == terms[0]@ && strs(terms@)[1] == terms[1]@);
            if starts_with(terms[1], "re:") {
                let path = terms[0];
                let rest = without_prefix(trim(skip_chars(query, path.unicode_len())), "re:");
                return match canonical_regex(Some(path), rest) {
                    Ok(regex) => Ok(SearchExpression::Regex(regex)),
                    Err(e) => Err(e),
                };
            }
        }
        match validate_balanced_fragment(query) {
            Ok(_) => Ok(SearchExpression::Query(own(query))),
            Err(e) => Err(e),
        }
    }
}

impl SearchRequest {
    /// Reads a search request.
    pub fn parse(query: &str, limit: Option<usize>, all: bool) -> (r: Result<Self, Failure>)
        ensures
            request_view(r) == search_request(query@, limit, all),
    {
        let query = trim(query);
        if query.is_empty() {
            return refuse("search query is empty");
        }
        if let Some(n) = limit {
            if !(1 <= n && n <= 200) {
                return refuse("--limit must be between 1 and 200");
            }
        }
        let terms = split_words(query);
        assert(strs(terms@).len() == terms.len());
        if has_more_word(&terms) {
            return refuse("search has no `more` modifier; use `show qREF --all`");
        }
        if let Some(word) = next_word(query) {
            if Reference::is_kind(word, ReferenceKind::Check) {
                return refuse("inspect a stored check with `mathmux probe cREF`");
            }
            if same(word, "#check") || same(word, "#synth") || same(word, "#reduce") || same(
                word,
                "#print",
            ) {
                return refuse(
                    "Lean directives belong to `mathmux probe CONTEXT \"#check TERM\"`",
                );
            }
        }
        if terms.len() > 1 {
            assert(strs(terms@)[0] == terms[0]@ && strs(terms@)[1] == terms[1]@);
            if is_declaration_kind(terms[0]) && starts_with(terms[1], "name:") {
                return refuse("KIND and name: are separate search forms and cannot be combined");
            }
        }
        match parse_expression(query) {
            Ok(expression) => Ok(
                SearchRequest { expression, displayed_query: own(query), limit, all },
            ),
            Err(e) => Err(e),
        }
    }
}

} // verus!
