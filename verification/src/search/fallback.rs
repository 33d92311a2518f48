//! Candidates from the sources themselves, for when the index has no answer.
use crate::order::{
    key_list, lex_less, positions, rank, ranking, ranking_is_permutation, ranking_is_sorted,
};
use crate::path::{absolute, components, file_stem, is_absolute, is_under, lies_under, split_path, stem_of};
use crate::search::contract::{group_texts, text_of_group};
use crate::search::declarations::{entries_of, heads_of, notations_in, parse_source, record_kind};
use crate::search::exact::{sort_texts, sorted_texts};
use crate::search::excerpt::{detail_of, detailed_source_excerpt, unless_blank};
use crate::search::modules::{file_of_module, locate_module};
use crate::search::names::{nonempty, qualified_match, qualified_name_matches};
use crate::search::patterns::{all_spans, capture_spans, span_views};
use crate::search::rank::{arrange, arranged, flip, flipped};
use crate::search::records::{
    candidate_views, candidate_views_push, usage_views, Candidate, CandidateView, HitView,
    row_views, row_views_push, IndexedRow, RowView, SearchHit, SearchUsage,
};
use crate::search::score::{lexical_points, lexical_score, narrow, narrowed};
use crate::search::source::{entry_views, EntryView, SourceEntry};
use crate::search::tokens::{append_strings, distinct, without_repeats};
use crate::text::class::{any_of, is_any, Class};
use crate::text::layout::front;
use crate::text::make::{
    alike, byte_length, cat3, cat4, cat5, copy_strings, lower, lowercased, own, prefix_all, prefix_step,
    same, same_ignoring_case, strings, strings_push, strs, strs_push, to_chars, to_lowercase,
};
use crate::text::number::{decimal, number, parse_usize, show_size};
use crate::text::pieces::{
    has_string, keep_nonempty, line_list, lines, nonempty_of, pieces, split, split_words, words,
};
use crate::text::scan::{
    bare, before_suffix, contains, ends, ends_with, has_text, opt_str, opt_string, rcut,
    rsplit_once, strip_suffix, trim,
};
use vstd::prelude::*;

verus! {

broadcast use {strings_push, strs_push, candidate_views_push};

/// Whether a text holds a character outside ASCII.
pub open spec fn beyond_ascii(text: Seq<char>) -> bool {
    exists|i: int| 0 <= i < text.len() && (#[trigger] text[i]) as u32 >= 0x80
}

fn is_beyond_ascii(text: &str) -> (r: bool)
    ensures
        r == beyond_ascii(text@),
{
    let chars = to_chars(text);
    for i in 0..chars.len()
        invariant
            chars@ == text@,
            forall|j: int| 0 <= j < i ==> ((#[trigger] text@[j]) as u32) < 0x80,
    {
        if (chars[i] as u32) >= 0x80 {
            return true;
        }
    }
    false
}

/// A query that is one symbol: a single word with a character that no name has.
pub open spec fn symbol(query: Seq<char>) -> Option<Seq<char>> {
    let q = bare(query);
    if q.len() > 0 && !any_of(q, Class::Space) && (q.len() > 1 || beyond_ascii(q)) && any_of(
        q,
        Class::Outside("_.'"),
    ) {
        Some(lowercased(q))
    } else {
        None
    }
}

/// Computes [`symbol`].
pub fn symbolic_source_term(query: &str) -> (r: Option<String>)
    ensures
        opt_string(r) == symbol(query@),
{
    let q = trim(query);
    let length = q.unicode_len();
    if length > 0 && !is_any(q, Class::Space) && (length > 1 || is_beyond_ascii(q)) && is_any(
        q,
        Class::Outside("_.'"),
    ) {
        Some(to_lowercase(q))
    } else {
        None
    }
}

/// The regular expression of a named argument.
pub open spec fn argument_pattern() -> Seq<char> {
    "\\(([\\p{L}_][\\p{L}\\p{N}\\p{M}_']*)\\s*:="@
}

/// The beginnings of the binders of arguments.
pub open spec fn binder_starts(names: Seq<Seq<char>>) -> Seq<Seq<char>> {
    names.map_values(|n: Seq<char>| "("@ + lowercased(n) + " :"@)
}

/// The beginnings of the binders that a query gives values to.
pub open spec fn argument_terms(query: Seq<char>) -> Seq<Seq<char>> {
    binder_starts(group_texts(query, all_spans(argument_pattern(), query), 1))
}

/// Computes the beginnings of the binders at given spans of a query.
pub fn argument_terms_from_spans(query: &str, spans: &Vec<Vec<Option<(usize, usize)>>>) -> (r: Vec<
    String,
>)
    ensures
        strings(r@) == binder_starts(group_texts(query@, span_views(spans@), 1)),
{
    let ghost wanted = binder_starts(group_texts(query@, span_views(spans@), 1));
    let mut out: Vec<String> = Vec::new();
    assert(strings(out@) =~= wanted.take(0));
    for i in 0..spans.len()
        invariant
            wanted == binder_starts(group_texts(query@, span_views(spans@), 1)),
            strings(out@) == wanted.take(i as int),
    {
        proof {
            prefix_step(wanted, i as int);
        }
        let name = to_lowercase(text_of_group(query, &spans[i], 1));
        out.push(cat3("(", name.as_str(), " :"));
    }
    proof {
        prefix_all(wanted);
    }
    out
}

/// Computes [`argument_terms`].
pub fn named_argument_terms(query: &str) -> (r: Vec<String>)
    ensures
        strings(r@) == argument_terms(query@),
{
    argument_terms_from_spans(
        query,
        &capture_spans("\\(([\\p{L}_][\\p{L}\\p{N}\\p{M}_']*)\\s*:=", query),
    )
}

/// A word that says what is declared, not what it is called.
pub open spec fn declaration_word(t: Seq<char>) -> bool {
    ||| t == "class"@ || t == "constructor"@ || t == "constructors"@ || t == "def"@
    ||| t == "instance"@ || t == "lemma"@ || t == "name"@ || t == "structure"@
    ||| t == "theorem"@
}

/// Decides [`declaration_word`].
pub fn is_declaration_word(t: &str) -> (r: bool)
    ensures
        r == declaration_word(t@),
{
    same(t, "class")
        || same(t, "constructor")
        || same(t, "constructors")
        || same(t, "def")
        || same(t, "instance")
        || same(t, "lemma")
        || same(t, "name")
        || same(t, "structure")
        || same(t, "theorem")
}

/// A term worth looking for.
pub open spec fn telling_term(t: Seq<char>) -> bool {
    byte_length(t) >= 3 && !declaration_word(t)
}

/// The telling ones of some texts, in lower case.
pub open spec fn telling_of(list: Seq<Seq<char>>) -> Seq<Seq<char>>
    decreases list.len(),
{
    if list.len() == 0 {
        Seq::empty()
    } else if telling_term(lowercased(list.last())) {
        telling_of(list.drop_last()).push(lowercased(list.last()))
    } else {
        telling_of(list.drop_last())
    }
}

/// The telling terms of tokens: each token and the parts between its dots and
/// underscores.
pub open spec fn token_terms(tokens: Seq<Seq<char>>) -> Seq<Seq<char>>
    decreases tokens.len(),
{
    if tokens.len() == 0 {
        Seq::empty()
    } else {
        token_terms(tokens.drop_last()) + telling_of(
            seq![tokens.last()] + pieces(tokens.last(), Class::Only("._")),
        )
    }
}

fn keep_telling(list: &Vec<&str>) -> (r: Vec<String>)
    ensures
        strings(r@) == telling_of(strs(list@)),
{
    let ghost views = strs(list@);
    let mut out: Vec<String> = Vec::new();
    assert(strings(out@) =~= Seq::empty());
    for i in 0..list.len()
        invariant
            views == strs(list@),
            strings(out@) == telling_of(views.take(i as int)),
    {
        proof {
            prefix_step(views, i as int);
        }
        let low = to_lowercase(list[i]);
        if low.as_str().len() >= 3 && !is_declaration_word(low.as_str()) {
            out.push(low);
        }
    }
    proof {
        prefix_all(views);
    }
    out
}

fn collect_token_terms(tokens: &Vec<String>) -> (r: Vec<String>)
    ensures
        strings(r@) == token_terms(strings(tokens@)),
{
    let ghost views = strings(tokens@);
    let mut out: Vec<String> = Vec::new();
    assert(strings(out@) =~= Seq::empty());
    for i in 0..tokens.len()
        invariant
            views == strings(tokens@),
            strings(out@) == token_terms(views.take(i as int)),
    {
        proof {
            prefix_step(views, i as int);
        }
        let token = tokens[i].as_str();
        let mut all: Vec<&str> = Vec::new();
        all.push(token);
        let mut parts = split(token, Class::Only("._"));
        let ghost added = strs(parts@);
        assert(strs(all@) =~= seq![token@]);
        all.append(&mut parts);
        assert(strs(all@) =~= seq![token@] + added);
        append_strings(&mut out, keep_telling(&all));
    }
    proof {
        prefix_all(views);
    }
    out
}

/// What remains of a term before an ending, if that is telling.
pub open spec fn stem_before(t: Seq<char>, ending: Seq<char>) -> Seq<Seq<char>> {
    match before_suffix(t, ending) {
        Some(s) => if byte_length(s) >= 3 {
            seq![s]
        } else {
            Seq::empty()
        },
        None => Seq::empty(),
    }
}

/// The word that sources use for a term.
pub open spec fn source_alias(t: Seq<char>) -> Option<Seq<char>> {
    if t == "addition"@ {
        Some("add"@)
    } else if t == "continuity"@ {
        Some("continuous"@)
    } else if t == "islinear"@ {
        Some("linear"@)
    } else if t == "positive"@ {
        Some("pos"@)
    } else if t == "projection"@ {
        Some("proj"@)
    } else if t == "scaling"@ {
        Some("smul"@)
    } else if t == "trivializationat"@ {
        Some("trivialization"@)
    } else if t == "weighted"@ {
        Some("weight"@)
    } else {
        None
    }
}

fn alias_in_sources(t: &str) -> (r: Option<&'static str>)
    ensures
        opt_str(r) == source_alias(t@),
{
    if same(t, "addition") {
        Some("add")
    } else if same(t, "continuity") {
        Some("continuous")
    } else if same(t, "islinear") {
        Some("linear")
    } else if same(t, "positive") {
        Some("pos")
    } else if same(t, "projection") {
        Some("proj")
    } else if same(t, "scaling") {
        Some("smul")
    } else if same(t, "trivializationat") {
        Some("trivialization")
    } else if same(t, "weighted") {
        Some("weight")
    } else {
        None
    }
}

/// The further terms that a term stands for.
pub open spec fn related_terms(t: Seq<char>) -> Seq<Seq<char>> {
    stem_before(t, "_symm_apply"@) + stem_before(t, "_apply"@) + match source_alias(t) {
        Some(a) => seq![a],
        None => Seq::empty(),
    }
}

/// The further terms that some terms stand for.
pub open spec fn all_related(list: Seq<Seq<char>>) -> Seq<Seq<char>>
    decreases list.len(),
{
    if list.len() == 0 {
        Seq::empty()
    } else {
        all_related(list.drop_last()) + related_terms(list.last())
    }
}

fn push_stem(out: &mut Vec<String>, t: &str, ending: &str)
    ensures
        strings(final(out)@) == strings(old(out)@) + stem_before(t@, ending@),
{
    if let Some(stem) = strip_suffix(t, ending) {
        if stem.len() >= 3 {
            let ghost before = strings(out@);
            out.push(own(stem));
            assert(strings(out@) =~= before + seq![stem@]);
            return;
        }
    }
    assert(strings(out@) =~= strings(old(out)@) + Seq::<Seq<char>>::empty());
}

fn collect_related(list: &Vec<String>) -> (r: Vec<String>)
    ensures
        strings(r@) == all_related(strings(list@)),
{
    let ghost views = strings(list@);
    let mut out: Vec<String> = Vec::new();
    assert(strings(out@) =~= Seq::empty());
    for i in 0..list.len()
        invariant
            views == strings(list@),
            strings(out@) == all_related(views.take(i as int)),
    {
        proof {
            prefix_step(views, i as int);
        }
        let ghost before = strings(out@);
        let t = list[i].as_str();
        push_stem(&mut out, t, "_symm_apply");
        push_stem(&mut out, t, "_apply");
        if let Some(alias) = alias_in_sources(t) {
            let ghost then_ = strings(out@);
            out.push(own(alias));
            assert(strings(out@) =~= then_ + seq![alias@]);
        } else {
            assert(strings(out@) =~= strings(out@) + Seq::<Seq<char>>::empty());
        }
        assert(strings(out@) =~= before + related_terms(t@));
    }
    proof {
        prefix_all(views);
    }
    out
}

/// The terms before those that they stand for.
pub open spec fn first_terms(
    symbol_term: Option<Seq<char>>,
    tokens: Seq<Seq<char>>,
    arguments: Seq<Seq<char>>,
) -> Seq<Seq<char>> {
    (match symbol_term {
        Some(t) => seq![t],
        None => token_terms(tokens),
    }) + arguments
}

/// What the sources are searched for, in order and each once.
pub open spec fn wanted_terms(
    symbol_term: Option<Seq<char>>,
    tokens: Seq<Seq<char>>,
    arguments: Seq<Seq<char>>,
) -> Seq<Seq<char>> {
    let first = first_terms(symbol_term, tokens, arguments);
    distinct(sorted_texts(first + all_related(first)))
}

/// Computes [`wanted_terms`].
pub fn fallback_terms(
    symbol_term: &Option<String>,
    tokens: &Vec<String>,
    arguments: &Vec<String>,
) -> (r: Vec<String>)
    ensures
        strings(r@) == wanted_terms(opt_string(*symbol_term), strings(tokens@), strings(arguments@)),
{
    let mut terms = match symbol_term {
        Some(t) => {
            let mut one: Vec<String> = Vec::new();
            one.push(t.clone());
            assert(strings(one@) =~= seq![t@]);
            one
        },
        None => collect_token_terms(tokens),
    };
    append_strings(&mut terms, copy_strings(arguments));
    let related = collect_related(&terms);
    append_strings(&mut terms, related);
    without_repeats(&sort_texts(&terms))
}

/// How many terms a text holds.
pub open spec fn term_count(text: Seq<char>, terms: Seq<Seq<char>>) -> nat
    decreases terms.len(),
{
    if terms.len() == 0 {
        0
    } else {
        term_count(text, terms.drop_last()) + if has_text(text, terms.last()) {
            1nat
        } else {
            0nat
        }
    }
}

/// Computes [`term_count`].
pub fn count_terms(text: &str, terms: &Vec<String>) -> (r: usize)
    ensures
        r == term_count(text@, strings(terms@)),
        r <= terms.len(),
{
    let ghost views = strings(terms@);
    let mut n: usize = 0;
    for i in 0..terms.len()
        invariant
            views == strings(terms@),
            n <= i,
            n == term_count(text@, views.take(i as int)),
    {
        proof {
            prefix_step(views, i as int);
        }
        if contains(text, terms[i].as_str()) {
            n += 1;
        }
    }
    proof {
        prefix_all(views);
    }
    n
}

/// What is said of a file that holds only some of the tokens.
pub open spec fn partial_match(source: Seq<char>, tokens: Seq<Seq<char>>) -> Option<Seq<char>> {
    let each = distinct(sorted_texts(tokens));
    let found = term_count(source, each);
    if each.len() < 2 || found == each.len() {
        None
    } else {
        Some("partial source match "@ + decimal(found) + "/"@ + decimal(each.len()))
    }
}

/// Computes [`partial_match`].
pub fn file_query_coverage_signature(source: &str, tokens: &Vec<String>) -> (r: Option<String>)
    ensures
        opt_string(r) == partial_match(source@, strings(tokens@)),
{
    let each = without_repeats(&sort_texts(tokens));
    assert(strings(each@).len() == each.len());
    let found = count_terms(source, &each);
    if each.len() < 2 || found == each.len() {
        return None;
    }
    let first = show_size(found);
    let second = show_size(each.len());
    Some(cat4("partial source match ", first.as_str(), "/", second.as_str()))
}

/// A source file that was read.
#[derive(Debug)]
pub struct FallbackFile {
    pub module: String,
    /// The path as it is shown.
    pub path: String,
    pub source: String,
    /// The query names the file or its module.
    pub direct: bool,
}

/// The contents of a [`FallbackFile`].
pub struct FallbackFileView {
    pub module: Seq<char>,
    pub path: Seq<char>,
    pub source: Seq<char>,
    pub direct: bool,
}

impl View for FallbackFile {
    type V = FallbackFileView;

    open spec fn view(&self) -> FallbackFileView {
        FallbackFileView {
            module: self.module@,
            path: self.path@,
            source: self.source@,
            direct: self.direct,
        }
    }
}

/// What the sources are searched for.
#[derive(Debug)]
pub struct FallbackQuery {
    pub query: String,
    pub tokens: Vec<String>,
    pub symbol: Option<String>,
    pub arguments: Vec<String>,
    pub terms: Vec<String>,
}

/// The contents of a [`FallbackQuery`].
pub struct FallbackQueryView {
    pub query: Seq<char>,
    pub tokens: Seq<Seq<char>>,
    pub symbol: Option<Seq<char>>,
    pub arguments: Seq<Seq<char>>,
    pub terms: Seq<Seq<char>>,
}

impl View for FallbackQuery {
    type V = FallbackQueryView;

    open spec fn view(&self) -> FallbackQueryView {
        FallbackQueryView {
            query: self.query@,
            tokens: strings(self.tokens@),
            symbol: opt_string(self.symbol),
            arguments: strings(self.arguments@),
            terms: strings(self.terms@),
        }
    }
}

/// The search that a query with its tokens asks for.
pub open spec fn fallback_query_of(query: Seq<char>, tokens: Seq<Seq<char>>) -> FallbackQueryView {
    FallbackQueryView {
        query,
        tokens,
        symbol: symbol(query),
        arguments: argument_terms(query),
        terms: wanted_terms(symbol(query), tokens, argument_terms(query)),
    }
}

impl FallbackQuery {
    /// Computes [`fallback_query_of`].
    pub fn new(query: &str, tokens: &Vec<String>) -> (r: Self)
        ensures
            r@ == fallback_query_of(query@, strings(tokens@)),
    {
        let symbol_term = symbolic_source_term(query);
        let arguments = named_argument_terms(query);
        let terms = fallback_terms(&symbol_term, tokens, &arguments);
        FallbackQuery {
            query: own(query),
            tokens: copy_strings(tokens),
            symbol: symbol_term,
            arguments,
            terms,
        }
    }
}

/// The row that an entry of a file would have in the index.
pub open spec fn fallback_row(file: FallbackFileView, e: EntryView) -> RowView {
    RowView {
        owner: ""@,
        path: file.path,
        module: file.module,
        line: e.line,
        name: e.name,
        kind: e.kind,
        signature: e.signature,
        docs: e.docs,
        body: e.body,
    }
}

/// A query that asks for imports.
pub open spec fn about_imports(tokens: Seq<Seq<char>>) -> bool {
    tokens.contains("import"@) || tokens.contains("imports"@)
}

/// The points of an entry of a file beside those that its text earns.
pub open spec fn fallback_bonus(q: FallbackQueryView, file: FallbackFileView, e: EntryView) -> int {
    term_count(lowercased(e.signature), q.arguments) * 200int + (if q.symbol is Some && has_text(
        lowercased(e.name),
        q.symbol->0,
    ) {
        600int
    } else {
        0
    }) + (if file.direct {
        400int
    } else {
        0
    }) + (if e.kind == "imports"@ && about_imports(q.tokens) {
        200int
    } else {
        0
    }) + term_count(lowercased(file.source), q.terms) * 4int
}

/// The candidate that an entry of a file makes.
pub open spec fn fallback_candidate(
    q: FallbackQueryView,
    file: FallbackFileView,
    e: EntryView,
    origin: u8,
) -> CandidateView {
    let detail = detail_of(e.body, q.query, q.terms, e.line, e.kind, e.name);
    CandidateView {
        hit: HitView {
            name: e.name,
            kind: e.kind,
            signature: if e.kind == "file"@ {
                partial_match(lowercased(file.source), q.tokens)
            } else {
                unless_blank(e.signature)
            },
            module: file.module,
            path: file.path,
            line: detail.1,
            doc: unless_blank(e.docs),
            source: detail.0,
            usages: Seq::empty(),
            applicable: false,
            required_import: None,
        },
        score: narrowed(
            narrowed(lexical_points(q.query, q.tokens, fallback_row(file, e))) + fallback_bonus(
                q,
                file,
                e,
            ),
        ),
        origins: origin,
    }
}

/// The candidates among the entries of a file: those that hold a term.
pub open spec fn fallback_in(
    q: FallbackQueryView,
    file: FallbackFileView,
    entries: Seq<EntryView>,
    origin: u8,
) -> Seq<CandidateView>
    decreases entries.len(),
{
    if entries.len() == 0 {
        Seq::empty()
    } else {
        let e = entries.last();
        let before = fallback_in(q, file, entries.drop_last(), origin);
        if term_count(lowercased(e.name + " "@ + e.signature + " "@ + e.body), q.terms) == 0 {
            before
        } else {
            before.push(fallback_candidate(q, file, e, origin))
        }
    }
}

fn make_candidate(
    q: &FallbackQuery,
    file: &FallbackFile,
    low: &str,
    coverage: usize,
    e: &SourceEntry,
    origin: u8,
) -> (r: Candidate)
    requires
        low@ == lowercased(file.source@),
        coverage == term_count(low@, strings(q.terms@)),
    ensures
        r@ == fallback_candidate(q@, file@, e@, origin),
{
    let row = IndexedRow {
        owner: own(""),
        path: file.path.clone(),
        module: file.module.clone(),
        line: e.line,
        name: e.name.clone(),
        kind: e.kind.clone(),
        signature: e.signature.clone(),
        docs: e.docs.clone(),
        body: e.body.clone(),
    };
    let (excerpt, line) = detailed_source_excerpt(
        e.body.as_str(),
        q.query.as_str(),
        &q.terms,
        e.line,
        e.kind.as_str(),
        e.name.as_str(),
    );
    let signature_low = to_lowercase(e.signature.as_str());
    let mut points: i128 = lexical_score(q.query.as_str(), &q.tokens, &row) as i128;
    let named = count_terms(signature_low.as_str(), &q.arguments);
    points += named as i128 * 200;
    if let Some(term) = &q.symbol {
        if contains(to_lowercase(e.name.as_str()).as_str(), term.as_str()) {
            points += 600;
        }
    }
    if file.direct {
        points += 400;
    }
    if same(e.kind.as_str(), "imports") && (has_string(&q.tokens, "import") || has_string(
        &q.tokens,
        "imports",
    )) {
        points += 200;
    }
    points += coverage as i128 * 4;
    let signature = if same(e.kind.as_str(), "file") {
        file_query_coverage_signature(low, &q.tokens)
    } else {
        nonempty(e.signature.clone())
    };
    let usages: Vec<SearchUsage> = Vec::new();
    assert(usage_views(usages@) =~= Seq::empty());
    Candidate {
        hit: SearchHit {
            name: e.name.clone(),
            kind: e.kind.clone(),
            signature,
            module: file.module.clone(),
            path: file.path.clone(),
            line,
            doc: nonempty(e.docs.clone()),
            source: excerpt,
            usages,
            applicable: false,
            required_import: None,
        },
        score: narrow(points),
        origins: origin,
    }
}

/// Computes [`fallback_in`].
pub fn candidates_from_entries(
    q: &FallbackQuery,
    file: &FallbackFile,
    entries: &Vec<SourceEntry>,
    origin: u8,
) -> (r: Vec<Candidate>)
    ensures
        candidate_views(r@) == fallback_in(q@, file@, entry_views(entries@), origin),
{
    let ghost views = entry_views(entries@);
    let low = to_lowercase(file.source.as_str());
    let coverage = count_terms(low.as_str(), &q.terms);
    let mut out: Vec<Candidate> = Vec::new();
    assert(candidate_views(out@) =~= Seq::empty());
    for i in 0..entries.len()
        invariant
            views == entry_views(entries@),
            low@ == lowercased(file.source@),
            coverage == term_count(low@, strings(q.terms@)),
            candidate_views(out@) == fallback_in(q@, file@, views.take(i as int), origin),
    {
        proof {
            prefix_step(views, i as int);
        }
        assert(views[i as int] == entries@[i as int]@);
        let e = &entries[i];
        let all = cat5(e.name.as_str(), " ", e.signature.as_str(), " ", e.body.as_str());
        if count_terms(to_lowercase(all.as_str()).as_str(), &q.terms) != 0 {
            out.push(make_candidate(q, file, low.as_str(), coverage, e, origin));
        }
    }
    proof {
        prefix_all(views);
    }
    out
}

/// The entries of a file.
pub open spec fn file_entries(file: FallbackFileView) -> Seq<EntryView> {
    entries_of(file.source, heads_of(file.source), notations_in(file.source), file.module, 16_000)
}

/// The candidates of some files.
pub open spec fn fallback_of_files(
    q: FallbackQueryView,
    files: Seq<FallbackFileView>,
    origin: u8,
) -> Seq<CandidateView>
    decreases files.len(),
{
    if files.len() == 0 {
        Seq::empty()
    } else {
        fallback_of_files(q, files.drop_last(), origin) + fallback_in(
            q,
            files.last(),
            file_entries(files.last()),
            origin,
        )
    }
}

/// A word names a member of a declaration: what stands before its last dot is the
/// declaration.
pub open spec fn member_of(word: Seq<char>, name: Seq<char>) -> bool {
    match rcut(word, "."@) {
        Some(sides) => sides.0.len() > 0 && qualified_match(name, sides.0),
        None => false,
    }
}

/// The first word from `i` on that names a member of a declaration, or the number of words.
pub open spec fn member_from(list: Seq<Seq<char>>, name: Seq<char>, i: int) -> int
    decreases list.len() - i,
{
    if i >= list.len() || member_of(list[i], name) {
        i
    } else {
        member_from(list, name, i + 1)
    }
}

/// The place that the members in a query give a candidate: a structure or class comes at
/// the first word that names a member of it, and everything else behind all words.
pub open spec fn owner_place(query: Seq<char>, hit: HitView) -> int {
    if record_kind(hit.kind) {
        member_from(words(query), hit.name, 0)
    } else {
        words(query).len() as int
    }
}

fn place_of_owner(list: &Vec<&str>, hit: &SearchHit) -> (r: usize)
    ensures
        r == (if record_kind(hit@.kind) {
            member_from(strs(list@), hit@.name, 0)
        } else {
            strs(list@).len() as int
        }),
        r <= list.len(),
{
    let ghost views = strs(list@);
    assert(views.len() == list.len());
    if !(same(hit.kind.as_str(), "class") || same(hit.kind.as_str(), "structure")) {
        return list.len();
    }
    for i in 0..list.len()
        invariant
            views == strs(list@),
            views.len() == list.len(),
            record_kind(hit@.kind),
            member_from(views, hit@.name, 0) == member_from(views, hit@.name, i as int),
    {
        assert(views[i as int] == list@[i as int]@);
        if let Some((owner, _)) = rsplit_once(list[i], ".") {
            if !owner.is_empty() && qualified_name_matches(hit.name.as_str(), owner) {
                return i;
            }
        }
    }
    list.len()
}

/// The keys that order candidates: those that own a member in the query in the order of
/// the query, then by score, the largest first.
pub open spec fn fallback_keys(list: Seq<CandidateView>, query: Seq<char>) -> Seq<Seq<u64>> {
    list.map_values(
        |c: CandidateView| seq![owner_place(query, c.hit) as u64, flipped(c.score)],
    )
}

/// The best candidates of some files, the best first.
pub open spec fn best_fallback(list: Seq<CandidateView>, query: Seq<char>) -> Seq<CandidateView> {
    front(arranged(list, fallback_keys(list, query)), 192)
}

fn fallback_keys_of(list: &Vec<Candidate>, query: &str) -> (r: Vec<Vec<u64>>)
    ensures
        key_list(r@) == fallback_keys(candidate_views(list@), query@),
        r.len() == list.len(),
{
    let ghost wanted = fallback_keys(candidate_views(list@), query@);
    let named = split_words(query);
    assert(strs(named@).len() == named.len());
    let mut keys: Vec<Vec<u64>> = Vec::new();
    assert(key_list(keys@) =~= wanted.take(0));
    for i in 0..list.len()
        invariant
            wanted == fallback_keys(candidate_views(list@), query@),
            strs(named@) == words(query@),
            keys.len() == i,
            key_list(keys@) == wanted.take(i as int),
    {
        proof {
            prefix_step(wanted, i as int);
        }
        assert(candidate_views(list@)[i as int] == list@[i as int]@);
        let mut key: Vec<u64> = Vec::new();
        key.push(place_of_owner(&named, &list[i].hit) as u64);
        key.push(flip(list[i].score));
        let ghost before = key_list(keys@);
        assert(key@ =~= wanted[i as int]);
        keys.push(key);
        assert(key_list(keys@) =~= before.push(wanted[i as int]));
    }
    proof {
        prefix_all(wanted);
    }
    keys
}

/// Computes [`best_fallback`].
pub fn rank_fallback(list: &Vec<Candidate>, query: &str) -> (r: Vec<Candidate>)
    ensures
        candidate_views(r@) == best_fallback(candidate_views(list@), query@),
{
    let keys = fallback_keys_of(list, query);
    let mut sorted = arrange(list, &keys);
    let ghost all = candidate_views(sorted@);
    assert(all.len() == sorted.len());
    if sorted.len() > 192 {
        sorted.truncate(192);
        assert(candidate_views(sorted@) =~= all.take(192));
    }
    sorted
}

proof fn members_stand_in_the_list(list: Seq<Seq<char>>, name: Seq<char>, i: int)
    requires
        0 <= i <= list.len(),
    ensures
        i <= member_from(list, name, i) <= list.len(),
    decreases list.len() - i,
{
    if i < list.len() && !member_of(list[i], name) {
        members_stand_in_the_list(list, name, i + 1);
    }
}

/// The structure or class that owns a member which the query names comes before
/// everything else, several of them in the order of the query; the rest comes by score.
pub proof fn owners_come_first(list: Seq<CandidateView>, query: Seq<char>, i: int, j: int)
    requires
        0 <= i < j < best_fallback(list, query).len(),
        words(query).len() <= u64::MAX,
    ensures
        ({
            let a = best_fallback(list, query)[i];
            let b = best_fallback(list, query)[j];
            &&& owner_place(query, a.hit) <= owner_place(query, b.hit)
            &&& owner_place(query, a.hit) == owner_place(query, b.hit) ==> a.score >= b.score
        }),
{
    let keys = fallback_keys(list, query);
    let order = ranking(keys);
    ranking_is_permutation(keys);
    ranking_is_sorted(keys, i, j);
    let a = list[order[i]];
    let b = list[order[j]];
    assert(best_fallback(list, query)[i] == a);
    assert(best_fallback(list, query)[j] == b);
    members_stand_in_the_list(words(query), a.hit.name, 0);
    members_stand_in_the_list(words(query), b.hit.name, 0);
    let x = keys[order[i]];
    let y = keys[order[j]];
    assert(x == seq![owner_place(query, a.hit) as u64, flipped(a.score)]);
    assert(y == seq![owner_place(query, b.hit) as u64, flipped(b.score)]);
    reveal_with_fuel(lex_less, 3);
    assert(x.skip(1)[0] == x[1]);
    assert(y.skip(1)[0] == y[1]);
}

/// The contents of a list of files.
pub open spec fn file_views(list: Seq<FallbackFile>) -> Seq<FallbackFileView> {
    list.map_values(|f: FallbackFile| f@)
}

/// The best candidates that some files hold for a query, the best first.
pub fn fallback_source_candidates(
    query: &str,
    query_tokens: &Vec<String>,
    files: &Vec<FallbackFile>,
    origin: u8,
) -> (r: Vec<Candidate>)
    ensures
        candidate_views(r@) == {
            let q = fallback_query_of(query@, strings(query_tokens@));
            if q.terms.len() == 0 {
                Seq::empty()
            } else {
                best_fallback(fallback_of_files(q, file_views(files@), origin), query@)
            }
        },
{
    let q = FallbackQuery::new(query, query_tokens);
    let ghost views = file_views(files@);
    let mut all: Vec<Candidate> = Vec::new();
    assert(candidate_views(all@) =~= Seq::empty());
    assert(q@.terms.len() == q.terms.len());
    if q.terms.len() == 0 {
        return all;
    }
    for i in 0..files.len()
        invariant
            views == file_views(files@),
            candidate_views(all@) == fallback_of_files(q@, views.take(i as int), origin),
    {
        proof {
            prefix_step(views, i as int);
        }
        assert(views[i as int] == files@[i as int]@);
        let file = &files[i];
        let entries = parse_source(file.source.as_str(), file.module.as_str());
        let mut more = candidates_from_entries(&q, file, &entries, origin);
        let ghost before = candidate_views(all@);
        let ghost added = candidate_views(more@);
        all.append(&mut more);
        assert(candidate_views(all@) =~= before + added);
    }
    proof {
        prefix_all(views);
    }
    rank_fallback(&all, query)
}

/// A component as numbers: a one before every character, so that a zero can end it.
pub open spec fn part_code(part: Seq<char>) -> Seq<u64>
    decreases part.len(),
{
    if part.len() == 0 {
        Seq::empty()
    } else {
        part_code(part.drop_last()).push(1).push(part.last() as u64)
    }
}

/// A path as numbers: paths are ordered component by component.
pub open spec fn path_code(parts: Seq<Seq<char>>) -> Seq<u64>
    decreases parts.len(),
{
    if parts.len() == 0 {
        Seq::empty()
    } else {
        path_code(parts.drop_last()) + part_code(parts.last()) + seq![0u64]
    }
}

/// A scanned file is placed by the number of its matching lines, the largest first, then
/// with the files of the project before those of packages, then by its path.
pub open spec fn scan_key(path: Seq<char>, count: usize, packages: Option<Seq<char>>) -> Seq<u64> {
    seq![
        (u64::MAX - count) as u64,
        if packages is Some && lies_under(path, packages->0) {
            1u64
        } else {
            0u64
        },
        if absolute(path) {
            0u64
        } else {
            1u64
        },
    ] + path_code(components(path))
}

/// Computes [`path_code`].
pub fn code_path(parts: &Vec<&str>) -> (r: Vec<u64>)
    ensures
        r@ == path_code(strs(parts@)),
{
    let ghost views = strs(parts@);
    let mut out: Vec<u64> = Vec::new();
    for i in 0..parts.len()
        invariant
            views == strs(parts@),
            out@ == path_code(views.take(i as int)),
    {
        proof {
            prefix_step(views, i as int);
        }
        assert(views[i as int] == parts@[i as int]@);
        let chars = to_chars(parts[i]);
        let ghost before = out@;
        assert(out@ =~= before + part_code(chars@.take(0)));
        for j in 0..chars.len()
            invariant
                out@ == before + part_code(chars@.take(j as int)),
        {
            proof {
                prefix_step(chars@, j as int);
            }
            out.push(1);
            out.push(chars[j] as u64);
            assert(out@ =~= before + part_code(chars@.take(j + 1)));
        }
        proof {
            prefix_all(chars@);
        }
        out.push(0);
        assert(out@ =~= before + part_code(chars@) + seq![0u64]);
    }
    proof {
        prefix_all(views);
    }
    out
}

fn key_of_scan(path: &str, count: usize, packages: Option<&str>) -> (r: Vec<u64>)
    ensures
        r@ == scan_key(path@, count, opt_str(packages)),
{
    let mut out: Vec<u64> = Vec::new();
    out.push(u64::MAX - count as u64);
    let under = match packages {
        Some(root) => is_under(path, root),
        None => false,
    };
    out.push(
        if under {
            1
        } else {
            0
        },
    );
    out.push(
        if is_absolute(path) {
            0
        } else {
            1
        },
    );
    let mut rest = code_path(&split_path(path));
    let ghost before = out@;
    let ghost added = rest@;
    out.append(&mut rest);
    assert(out@ =~= scan_key(path@, count, opt_str(packages)));
    out
}

/// Scanned files as texts with counts.
pub open spec fn scan_views(list: Seq<(String, usize)>) -> Seq<(Seq<char>, usize)> {
    list.map_values(|p: (String, usize)| (p.0@, p.1))
}

/// The keys of scanned files.
pub open spec fn scan_keys(list: Seq<(Seq<char>, usize)>, packages: Option<Seq<char>>) -> Seq<
    Seq<u64>,
> {
    list.map_values(|p: (Seq<char>, usize)| scan_key(p.0, p.1, packages))
}

/// The paths of scanned files, the best first.
pub open spec fn scanned_order(list: Seq<(Seq<char>, usize)>, packages: Option<Seq<char>>) -> Seq<
    Seq<char>,
> {
    ranking(scan_keys(list, packages)).map_values(|i: int| list[i].0)
}

/// The files that are read: those that the query names, then the scanned ones, each once
/// and no more than ninety-six.
pub open spec fn files_to_read(
    direct: Seq<Seq<char>>,
    scanned: Seq<(Seq<char>, usize)>,
    packages: Option<Seq<char>>,
) -> Seq<Seq<char>> {
    front(distinct(direct + scanned_order(scanned, packages)), 96)
}

/// Computes [`files_to_read`].
pub fn fallback_paths(
    direct: &Vec<String>,
    scanned: &Vec<(String, usize)>,
    packages: Option<&str>,
) -> (r: Vec<String>)
    ensures
        strings(r@) == files_to_read(strings(direct@), scan_views(scanned@), opt_str(packages)),
{
    let ghost views = scan_views(scanned@);
    let ghost wanted = scan_keys(views, opt_str(packages));
    let mut keys: Vec<Vec<u64>> = Vec::new();
    assert(key_list(keys@) =~= wanted.take(0));
    for i in 0..scanned.len()
        invariant
            views == scan_views(scanned@),
            wanted == scan_keys(views, opt_str(packages)),
            keys.len() == i,
            key_list(keys@) == wanted.take(i as int),
    {
        proof {
            prefix_step(wanted, i as int);
        }
        assert(views[i as int] == (scanned@[i as int].0@, scanned@[i as int].1));
        let ghost before = key_list(keys@);
        keys.push(key_of_scan(scanned[i].0.as_str(), scanned[i].1, packages));
        assert(key_list(keys@) =~= before.push(wanted[i as int]));
    }
    proof {
        prefix_all(wanted);
    }
    let order = rank(&keys);
    let ghost sorted = scanned_order(views, opt_str(packages));
    assert(positions(order@).len() == order.len());
    let mut all = copy_strings(direct);
    let ghost before = strings(all@);
    assert(strings(all@) =~= before + sorted.take(0));
    for i in 0..order.len()
        invariant
            order.len() == keys.len(),
            scanned.len() == keys.len(),
            views == scan_views(scanned@),
            forall|j: int| 0 <= j < order.len() ==> (#[trigger] order@[j]) < keys.len(),
            positions(order@) == ranking(key_list(keys@)),
            key_list(keys@) == scan_keys(views, opt_str(packages)),
            sorted == scanned_order(views, opt_str(packages)),
            sorted.len() == order.len(),
            strings(all@) == before + sorted.take(i as int),
    {
        proof {
            prefix_step(sorted, i as int);
            assert(positions(order@)[i as int] == order@[i as int] as int);
        }
        let ghost then_ = strings(all@);
        let path = scanned[order[i]].0.clone();
        assert(path@ == sorted[i as int]);
        all.push(path);
        assert(strings(all@) =~= before + sorted.take(i + 1));
    }
    proof {
        prefix_all(sorted);
    }
    let mut each = without_repeats(&all);
    let ghost listed = strings(each@);
    assert(listed.len() == each.len());
    if each.len() > 96 {
        each.truncate(96);
        assert(strings(each@) =~= listed.take(96));
    }
    each
}

/// No file is read twice.
pub proof fn files_are_read_once(
    direct: Seq<Seq<char>>,
    scanned: Seq<(Seq<char>, usize)>,
    packages: Option<Seq<char>>,
)
    ensures
        files_to_read(direct, scanned, packages).len() <= 96,
        forall|i: int, j: int|
            0 <= i < j < files_to_read(direct, scanned, packages).len() ==> (
            #[trigger] files_to_read(direct, scanned, packages)[i]) != (#[trigger] files_to_read(
                direct,
                scanned,
                packages,
            )[j]),
{
    crate::search::tokens::distinct_keeps_each_once(direct + scanned_order(scanned, packages));
}

/// The words of a query that may name files or modules.
pub open spec fn path_words(query: Seq<char>) -> Seq<Seq<char>> {
    nonempty_of(pieces(query, Class::Outside("_.")))
}

/// The file that a word names.
pub open spec fn named_file(word: Seq<char>) -> Seq<char> {
    if ends(word, ".lean"@) {
        word
    } else {
        file_of_module(word)
    }
}

/// The files that the dotted words of a query name.
pub open spec fn named_files(list: Seq<Seq<char>>) -> Seq<Seq<char>>
    decreases list.len(),
{
    if list.len() == 0 {
        Seq::empty()
    } else if has_text(list.last(), "."@) {
        named_files(list.drop_last()).push(named_file(list.last()))
    } else {
        named_files(list.drop_last())
    }
}

/// The files that a query names, relative to the roots of the sources.
pub fn direct_module_paths(query: &str) -> (r: Vec<String>)
    ensures
        strings(r@) == named_files(path_words(query@)),
{
    let list = keep_nonempty(split(query, Class::Outside("_.")));
    let ghost views = strs(list@);
    let mut out: Vec<String> = Vec::new();
    assert(strings(out@) =~= Seq::empty());
    for i in 0..list.len()
        invariant
            views == strs(list@),
            strings(out@) == named_files(views.take(i as int)),
    {
        proof {
            prefix_step(views, i as int);
        }
        assert(views[i as int] == list@[i as int]@);
        if contains(list[i], ".") {
            let file = if ends_with(list[i], ".lean") {
                own(list[i])
            } else {
                locate_module(list[i])
            };
            out.push(file);
        }
    }
    proof {
        prefix_all(views);
    }
    out
}

/// Whether a word of a query is the name of a file.
pub open spec fn file_is_named(path: Seq<char>, query: Seq<char>) -> bool {
    stem_of(path) is Some && exists|i: int|
        0 <= i < path_words(query).len() && alike(stem_of(path)->0, #[trigger] path_words(query)[i])
}

/// Decides [`file_is_named`].
pub fn is_file_named(path: &str, query: &str) -> (r: bool)
    ensures
        r == file_is_named(path@, query@),
{
    let Some(stem) = file_stem(path) else {
        return false;
    };
    let list = keep_nonempty(split(query, Class::Outside("_.")));
    for i in 0..list.len()
        invariant
            stem_of(path@) == Some(stem@),
            strs(list@) == path_words(query@),
            forall|j: int| 0 <= j < i ==> !alike(stem@, #[trigger] strs(list@)[j]),
    {
        assert(strs(list@)[i as int] == list@[i as int]@);
        if same_ignoring_case(stem, list[i]) {
            assert(alike(stem@, path_words(query@)[i as int]));
            return true;
        }
    }
    assert(strs(list@).len() == list.len());
    false
}

/// The path and the count on a line of a scan.
pub open spec fn scanned_line(line: Seq<char>) -> Option<(Seq<char>, usize)> {
    match rcut(line, ":"@) {
        Some(sides) => match number(sides.1, usize::MAX as nat) {
            Some(n) => Some((sides.0, n as usize)),
            None => None,
        },
        None => None,
    }
}

/// The paths and counts on the lines of a scan.
pub open spec fn scanned_lines(list: Seq<Seq<char>>) -> Seq<(Seq<char>, usize)>
    decreases list.len(),
{
    if list.len() == 0 {
        Seq::empty()
    } else {
        match scanned_line(list.last()) {
            Some(p) => scanned_lines(list.drop_last()).push(p),
            None => scanned_lines(list.drop_last()),
        }
    }
}

/// The files that a scan counted matching lines in.
pub fn source_scan_path_counts(output: &str) -> (r: Vec<(String, usize)>)
    ensures
        scan_views(r@) == scanned_lines(line_list(output@)),
{
    let list = lines(output);
    let ghost views = strs(list@);
    let mut out: Vec<(String, usize)> = Vec::new();
    assert(scan_views(out@) =~= Seq::empty());
    for i in 0..list.len()
        invariant
            views == strs(list@),
            scan_views(out@) == scanned_lines(views.take(i as int)),
    {
        proof {
            prefix_step(views, i as int);
        }
        assert(views[i as int] == list@[i as int]@);
        if let Some((path, count)) = rsplit_once(list[i], ":") {
            if let Some(n) = parse_usize(count) {
                let ghost before = scan_views(out@);
                out.push((own(path), n));
                assert(scan_views(out@) =~= before.push((path@, n)));
            }
        }
    }
    proof {
        prefix_all(views);
    }
    out
}

/// Whether a scan ended in a way that is no answer. A scan that found nothing or ran out
/// of time is an answer.
pub fn scan_failed(success: bool, code: Option<i32>) -> (r: bool)
    ensures
        r == (!success && code != Some(1i32) && code != Some(124i32) && code != Some(137i32)),
{
    if success {
        return false;
    }
    match code {
        Some(n) => n != 1 && n != 124 && n != 137,
        None => true,
    }
}

/// Whether a name holds one of some words, whatever the case of its letters.
pub open spec fn holds_any(name: Seq<char>, tokens: Seq<Seq<char>>) -> bool {
    exists|i: int| 0 <= i < tokens.len() && has_text(lower(name), #[trigger] tokens[i])
}

fn is_holding(name: &str, tokens: &Vec<String>) -> (r: bool)
    ensures
        r == holds_any(name@, strings(tokens@)),
{
    let text = crate::text::make::to_lower(name);
    let ghost views = strings(tokens@);
    assert(views.len() == tokens.len());
    for i in 0..tokens.len()
        invariant
            text@ == lower(name@),
            views == strings(tokens@),
            views.len() == tokens.len(),
            forall|k: int| 0 <= k < i ==> !has_text(lower(name@), #[trigger] views[k]),
    {
        assert(views[i as int] == tokens@[i as int]@);
        if contains(text.as_str(), tokens[i].as_str()) {
            return true;
        }
    }
    false
}

/// The rows of the active scopes whose name holds one of some words.
pub open spec fn rows_by_name(
    rows: Seq<RowView>,
    scopes: Seq<Seq<char>>,
    tokens: Seq<Seq<char>>,
) -> Seq<RowView>
    decreases rows.len(),
{
    if rows.len() == 0 {
        Seq::empty()
    } else {
        let earlier = rows_by_name(rows.drop_last(), scopes, tokens);
        if scopes.contains(rows.last().owner) && holds_any(rows.last().name, tokens) {
            earlier.push(rows.last())
        } else {
            earlier
        }
    }
}

/// Computes [`rows_by_name`].
pub fn name_contains_candidates(
    rows: &Vec<IndexedRow>,
    scopes: &Vec<String>,
    tokens: &Vec<String>,
) -> (r: Vec<IndexedRow>)
    ensures
        row_views(r@) == rows_by_name(row_views(rows@), strings(scopes@), strings(tokens@)),
{
    let ghost views = row_views(rows@);
    assert(views.len() == rows.len());
    let mut out: Vec<IndexedRow> = Vec::new();
    assert(row_views(out@) =~= Seq::<RowView>::empty());
    assert(views.take(0) =~= Seq::<RowView>::empty());
    for i in 0..rows.len()
        invariant
            views == row_views(rows@),
            views.len() == rows.len(),
            row_views(out@) == rows_by_name(
                views.take(i as int),
                strings(scopes@),
                strings(tokens@),
            ),
    {
        proof {
            prefix_step(views, i as int);
        }
        assert(views[i as int] == rows@[i as int]@);
        if has_string(scopes, rows[i].owner.as_str()) && is_holding(rows[i].name.as_str(), tokens) {
            let copied = rows[i].copy();
            let ghost before = out@;
            out.push(copied);
            proof {
                row_views_push(before, copied);
            }
        }
    }
    proof {
        prefix_all(views);
    }
    out
}

/// Nothing outside the active scopes is found by name.
pub proof fn names_are_found_in_active_scopes(
    rows: Seq<RowView>,
    scopes: Seq<Seq<char>>,
    tokens: Seq<Seq<char>>,
    i: int,
)
    requires
        0 <= i < rows_by_name(rows, scopes, tokens).len(),
    ensures
        scopes.contains(rows_by_name(rows, scopes, tokens)[i].owner),
    decreases rows.len(),
{
    let earlier = rows_by_name(rows.drop_last(), scopes, tokens);
    if i < earlier.len() {
        names_are_found_in_active_scopes(rows.drop_last(), scopes, tokens, i);
    }
}

} // verus!
