//! The declarations of a Lean file as entries of the index.
use crate::order::positions;
use crate::search::fields::{
    doc_or_empty, field_entries, generated_parent_projection, parent_projection,
    parse_structure_fields, sans_colon, without_colon,
};
use crate::search::patterns::{all_spans, capture_spans, span_views};
use crate::search::source::{
    ambient_contexts, ambient_contexts_by_line, block_of, byte_starts, declaration_block, doc_before,
    entry_views, entry_views_push, header_chars, header_length, line_holding, line_starts,
    mask_comments, masked, namespaces, namespaces_by_line, offset_line, preceding_doc,
    string_lists, EntryView, SourceEntry,
};
use crate::search::warning::{first_line, head_line};
use crate::text::class::Class;
use crate::text::layout::{one_line, single_line};
use crate::text::make::{
    cat2, cat3, cat4, join, join_strs, joined, own, prefix_all, prefix_step, push_str, same,
    strings, strings_push, strs, strs_push,
};
use crate::text::number::{decimal, show_size};
use crate::text::pieces::{line_list, lines, nonempty_of, split_words, words};
use crate::text::scan::{
    after_chars, bare, bare_start, begins, char_index, first_chars, index_of_byte, opt_string,
    sans_prefix, skip_chars, slice, starts_with, subtext, take_chars, trim, trim_start,
    without_prefix,
};
use vstd::prelude::*;

verus! {

broadcast use {strings_push, strs_push, entry_views_push};

/// The head of a declaration: where it begins, its kind, its name if it has one, and
/// where the name, or else the kind, ends. Positions are in bytes.
pub struct DeclarationMatch {
    pub start: usize,
    pub kind: String,
    pub name: Option<String>,
    pub tail: usize,
}

/// The contents of a [`DeclarationMatch`].
pub struct MatchView {
    pub start: int,
    pub kind: Seq<char>,
    pub name: Option<Seq<char>>,
    pub tail: int,
}

impl View for DeclarationMatch {
    type V = MatchView;

    open spec fn view(&self) -> MatchView {
        MatchView {
            start: self.start as int,
            kind: self.kind@,
            name: opt_string(self.name),
            tail: self.tail as int,
        }
    }
}

/// The contents of a list of heads.
pub open spec fn match_views(list: Seq<DeclarationMatch>) -> Seq<MatchView> {
    list.map_values(|m: DeclarationMatch| m@)
}

/// The pattern of the head of a declaration. Its first group is the kind, its second
/// the name.
pub open spec fn declaration_pattern() -> Seq<char> {
    "(?m)^[ \\t]*(?:@\\[[^\\n]*\\][ \\t]*)*(?:(?:private|protected|noncomputable|unsafe|partial|scoped|local)[ \\t]+)*(?P<kind>theorem|lemma|def|abbrev|opaque|axiom|structure|class|inductive|instance)[ \\t]+(?:\\([ \\t]*priority[ \\t]*:=[^\\n)]*\\)[ \\t]+)?(?P<name>[\\p{L}_][\\p{L}\\p{N}\\p{M}_'.]*)?"@
}

/// The pattern of the head of a declaration.
pub fn declaration_regex() -> (r: &'static str)
    ensures
        r@ == declaration_pattern(),
{
    "(?m)^[ \\t]*(?:@\\[[^\\n]*\\][ \\t]*)*(?:(?:private|protected|noncomputable|unsafe|partial|scoped|local)[ \\t]+)*(?P<kind>theorem|lemma|def|abbrev|opaque|axiom|structure|class|inductive|instance)[ \\t]+(?:\\([ \\t]*priority[ \\t]*:=[^\\n)]*\\)[ \\t]+)?(?P<name>[\\p{L}_][\\p{L}\\p{N}\\p{M}_'.]*)?"
}

/// A group of a match, if it took part.
pub open spec fn group(spans: Seq<Option<(usize, usize)>>, i: int) -> Option<(usize, usize)> {
    if 0 <= i < spans.len() {
        spans[i]
    } else {
        None
    }
}

fn get_group(spans: &Vec<Option<(usize, usize)>>, i: usize) -> (r: Option<(usize, usize)>)
    ensures
        r == group(spans@, i as int),
{
    if i < spans.len() {
        spans[i]
    } else {
        None
    }
}

/// The text of a span of bytes.
pub open spec fn span_text(code: Seq<char>, span: (usize, usize)) -> Seq<char> {
    subtext(
        code,
        char_index(code, span.0 as int) as int,
        char_index(code, span.1 as int) as int,
    )
}

fn text_of_span(code: &str, span: (usize, usize)) -> (r: String)
    ensures
        r@ == span_text(code@, span),
{
    own(slice(code, index_of_byte(code, span.0), index_of_byte(code, span.1)))
}

/// The head that the groups of a match give.
pub open spec fn match_of(code: Seq<char>, spans: Seq<Option<(usize, usize)>>) -> MatchView {
    MatchView {
        start: match group(spans, 0) {
            Some(s) => s.0 as int,
            None => 0,
        },
        kind: match group(spans, 1) {
            Some(s) => span_text(code, s),
            None => "declaration"@,
        },
        name: match group(spans, 2) {
            Some(s) => Some(span_text(code, s)),
            None => None,
        },
        tail: match group(spans, 2) {
            Some(s) => s.1 as int,
            None => match group(spans, 1) {
                Some(s) => s.1 as int,
                None => 0,
            },
        },
    }
}

/// The heads that a list of matches gives.
pub open spec fn matches_of(code: Seq<char>, list: Seq<Seq<Option<(usize, usize)>>>) -> Seq<
    MatchView,
> {
    list.map_values(|spans: Seq<Option<(usize, usize)>>| match_of(code, spans))
}

/// Computes [`matches_of`].
pub fn declaration_matches(code: &str, list: &Vec<Vec<Option<(usize, usize)>>>) -> (r: Vec<
    DeclarationMatch,
>)
    ensures
        match_views(r@) == matches_of(code@, span_views(list@)),
{
    let ghost wanted = matches_of(code@, span_views(list@));
    let mut out: Vec<DeclarationMatch> = Vec::new();
    for i in 0..list.len()
        invariant
            wanted == matches_of(code@, span_views(list@)),
            match_views(out@) == wanted.take(i as int),
    {
        assert(span_views(list@)[i as int] == list@[i as int]@);
        proof {
            prefix_step(wanted, i as int);
        }
        let spans = &list[i];
        let start = match get_group(spans, 0) {
            Some(s) => s.0,
            None => 0,
        };
        let kind = match get_group(spans, 1) {
            Some(s) => text_of_span(code, s),
            None => own("declaration"),
        };
        let name = match get_group(spans, 2) {
            Some(s) => Some(text_of_span(code, s)),
            None => None,
        };
        let tail = match get_group(spans, 2) {
            Some(s) => s.1,
            None => match get_group(spans, 1) {
                Some(s) => s.1,
                None => 0,
            },
        };
        let found = DeclarationMatch { start, kind, name, tail };
        let ghost before = out@;
        out.push(found);
        assert(match_views(out@) =~= match_views(before).push(found@));
    }
    proof {
        prefix_all(wanted);
    }
    out
}

/// A notation: at which bytes its command begins and ends, its keyword, and the literals
/// that it introduces.
pub struct NotationMatch {
    pub start: usize,
    pub end: usize,
    pub kind: String,
    pub literals: Vec<String>,
}

/// The contents of a [`NotationMatch`].
pub struct NotationView {
    pub start: int,
    pub end: int,
    pub kind: Seq<char>,
    pub literals: Seq<Seq<char>>,
}

impl View for NotationMatch {
    type V = NotationView;

    open spec fn view(&self) -> NotationView {
        NotationView {
            start: self.start as int,
            end: self.end as int,
            kind: self.kind@,
            literals: strings(self.literals@),
        }
    }
}

/// The contents of a list of notations.
pub open spec fn notation_views(list: Seq<NotationMatch>) -> Seq<NotationView> {
    list.map_values(|n: NotationMatch| n@)
}

/// The pattern of a notation command. Its first group is the keyword, its second the
/// rest of the line.
pub open spec fn notation_pattern() -> Seq<char> {
    "(?m)^[ \\t]*(?:(?:scoped|local)[ \\t]+)*(?P<kind>notation|infixl|infixr|infix|prefix|postfix)(?::[0-9]+)?(?P<body>[^\\n]*)"@
}

/// The pattern of a literal in a notation. Its first group is what stands between the
/// quotation marks.
pub open spec fn literal_pattern() -> Seq<char> {
    "\"([^\"]+)\""@
}

/// The texts of the first groups of some matches.
pub open spec fn first_group_texts(text: Seq<char>, list: Seq<Seq<Option<(usize, usize)>>>) -> Seq<
    Seq<char>,
>
    decreases list.len(),
{
    if list.len() == 0 {
        Seq::empty()
    } else {
        let earlier = first_group_texts(text, list.drop_last());
        match group(list.last(), 1) {
            Some(s) => earlier.push(span_text(text, s)),
            None => earlier,
        }
    }
}

/// Computes [`first_group_texts`].
pub fn group_texts(text: &str, list: &Vec<Vec<Option<(usize, usize)>>>) -> (r: Vec<String>)
    ensures
        strings(r@) == first_group_texts(text@, span_views(list@)),
{
    let ghost views = span_views(list@);
    let mut out: Vec<String> = Vec::new();
    for i in 0..list.len()
        invariant
            views == span_views(list@),
            strings(out@) == first_group_texts(text@, views.take(i as int)),
    {
        proof {
            prefix_step(views, i as int);
        }
        assert(views[i as int] == list@[i as int]@);
        if let Some(s) = get_group(&list[i], 1) {
            out.push(text_of_span(text, s));
        }
    }
    proof {
        prefix_all(views);
    }
    out
}

/// The notation that the groups of a match give.
pub open spec fn notation_of(code: Seq<char>, spans: Seq<Option<(usize, usize)>>) -> NotationView {
    let body = match group(spans, 2) {
        Some(s) => span_text(code, s),
        None => Seq::empty(),
    };
    NotationView {
        start: match group(spans, 0) {
            Some(s) => s.0 as int,
            None => 0,
        },
        end: match group(spans, 0) {
            Some(s) => s.1 as int,
            None => 0,
        },
        kind: match group(spans, 1) {
            Some(s) => span_text(code, s),
            None => Seq::empty(),
        },
        literals: first_group_texts(body, all_spans(literal_pattern(), body)),
    }
}

/// The notations that a list of matches gives.
pub open spec fn notations_of(code: Seq<char>, list: Seq<Seq<Option<(usize, usize)>>>) -> Seq<
    NotationView,
> {
    list.map_values(|spans: Seq<Option<(usize, usize)>>| notation_of(code, spans))
}

/// Computes [`notations_of`].
pub fn notation_matches(code: &str, list: &Vec<Vec<Option<(usize, usize)>>>) -> (r: Vec<
    NotationMatch,
>)
    ensures
        notation_views(r@) == notations_of(code@, span_views(list@)),
{
    let ghost wanted = notations_of(code@, span_views(list@));
    let mut out: Vec<NotationMatch> = Vec::new();
    for i in 0..list.len()
        invariant
            wanted == notations_of(code@, span_views(list@)),
            notation_views(out@) == wanted.take(i as int),
    {
        assert(span_views(list@)[i as int] == list@[i as int]@);
        proof {
            prefix_step(wanted, i as int);
        }
        let spans = &list[i];
        let body = match get_group(spans, 2) {
            Some(s) => text_of_span(code, s),
            None => String::new(),
        };
        let literals = group_texts(
            body.as_str(),
            &capture_spans("\"([^\"]+)\"", body.as_str()),
        );
        let start = match get_group(spans, 0) {
            Some(s) => s.0,
            None => 0,
        };
        let end = match get_group(spans, 0) {
            Some(s) => s.1,
            None => 0,
        };
        let kind = match get_group(spans, 1) {
            Some(s) => text_of_span(code, s),
            None => String::new(),
        };
        let found = NotationMatch { start, end, kind, literals };
        let ghost before = out@;
        out.push(found);
        assert(notation_views(out@) =~= notation_views(before).push(found@));
    }
    proof {
        prefix_all(wanted);
    }
    out
}

/// A structure or a class.
pub open spec fn record_kind(kind: Seq<char>) -> bool {
    kind == "class"@ || kind == "structure"@
}

/// The text of declaration number `k`: up to the next head, without what closes the
/// surrounding scopes.
pub open spec fn declared_text(source: Seq<char>, heads: Seq<MatchView>, k: int) -> Seq<char> {
    subtext(
        source,
        char_index(source, heads[k].start) as int,
        if k + 1 < heads.len() {
            char_index(source, heads[k + 1].start) as int
        } else {
            source.len() as int
        },
    )
}

/// The signature that a declaration states: what its header says behind the name.
pub open spec fn stated_signature(text: Seq<char>, head: MatchView) -> Seq<char> {
    let block = block_of(text);
    let indent = text.len() - bare_start(text).len();
    let end = header_length(block);
    sans_colon(subtext(block, char_index(text, head.tail - head.start) - indent, end))
}

/// The signature that a definition without a type has from its value.
pub open spec fn value_signature(text: Seq<char>, head: MatchView) -> Option<Seq<char>> {
    let block = block_of(text);
    let rest = after_chars(block, header_length(block));
    if (head.kind == "abbrev"@ || head.kind == "def"@) && begins(rest, ":="@) {
        match first_line(sans_prefix(rest, ":="@)) {
            Some(value) => Some(":= "@ + bare(value)),
            None => None,
        }
    } else {
        None
    }
}

/// The first line of a declaration marks it as private.
pub open spec fn marked_private(block: Seq<char>, kind: Seq<char>) -> bool {
    match first_line(block) {
        Some(line) => private_before(words(line), kind),
        None => false,
    }
}

/// The word `private` stands before the first occurrence of `kind`.
pub open spec fn private_before(list: Seq<Seq<char>>, kind: Seq<char>) -> bool
    decreases list.len(),
{
    if list.len() == 0 || list[0] == kind {
        false
    } else {
        list[0] == "private"@ || private_before(list.skip(1), kind)
    }
}

fn is_private_before(list: &Vec<&str>, kind: &str) -> (r: bool)
    ensures
        r == private_before(strs(list@), kind@),
{
    let ghost views = strs(list@);
    assert(views.len() == list.len());
    let mut i: usize = 0;
    assert(views.skip(0) =~= views);
    while i < list.len()
        invariant
            views == strs(list@),
            views.len() == list.len(),
            i <= list.len(),
            private_before(views, kind@) == private_before(views.skip(i as int), kind@),
        decreases list.len() - i,
    {
        assert(views.skip(i as int)[0] == list@[i as int]@);
        assert(views.skip(i as int).skip(1) =~= views.skip(i + 1));
        if same(list[i], kind) {
            return false;
        }
        if same(list[i], "private") {
            return true;
        }
        i += 1;
    }
    false
}

/// The signature of a declaration before its parents are added.
pub open spec fn base_signature(text: Seq<char>, head: MatchView) -> Seq<char> {
    let stated = stated_signature(text, head);
    let own_part = if stated.len() == 0 && value_signature(text, head) is Some {
        value_signature(text, head)->0
    } else {
        stated
    };
    if marked_private(block_of(text), head.kind) {
        "[private] "@ + own_part
    } else {
        own_part
    }
}

/// The full name of a declaration in its namespace.
pub open spec fn full_name(head: MatchView, namespace: Seq<Seq<char>>, line: int) -> Seq<char> {
    match head.name {
        Some(raw) => if begins(raw, "_root_."@) || namespace.len() == 0 {
            raw
        } else {
            joined(namespace, "."@) + "."@ + raw
        },
        None => if namespace.len() == 0 {
            "instance@"@ + decimal(line as nat)
        } else {
            joined(namespace, "."@) + ".instance@"@ + decimal(line as nat)
        },
    }
}

/// The element at `i`, or none of it.
pub open spec fn at_or_empty(list: Seq<Seq<Seq<char>>>, i: int) -> Seq<Seq<char>> {
    if 0 <= i < list.len() {
        list[i]
    } else {
        Seq::empty()
    }
}

/// The signature of a declaration, with the projection to its parent.
pub open spec fn full_signature(text: Seq<char>, head: MatchView, name: Seq<char>) -> Seq<char> {
    let base = base_signature(text, head);
    if record_kind(head.kind) && parent_projection(name, base) is Some {
        base + ("; generated parent projection: "@ + parent_projection(name, base)->0)
    } else {
        base
    }
}

/// A declaration with the context that it stands in.
pub open spec fn with_context(context: Seq<Seq<char>>, block: Seq<char>) -> Seq<char> {
    if context.len() == 0 {
        block
    } else {
        "-- ambient context\n"@ + joined(context, "\n"@) + "\n\n"@ + block
    }
}

/// The entry of declaration number `k`.
pub open spec fn declaration_entry(
    source: Seq<char>,
    code: Seq<char>,
    heads: Seq<MatchView>,
    k: int,
    limit: int,
) -> EntryView {
    let head = heads[k];
    let line = line_holding(byte_starts(source), head.start);
    let text = declared_text(source, heads, k);
    let name = full_name(head, at_or_empty(namespaces(code), line - 1), line);
    EntryView {
        line: line as u64,
        name,
        kind: head.kind,
        signature: one_line(full_signature(text, head, name)),
        docs: doc_or_empty(doc_before(source, head.start)),
        body: first_chars(
            with_context(at_or_empty(ambient_contexts(code), line - 1), block_of(text)),
            limit,
        ),
    }
}

/// The entries of the first `k` declarations, each structure followed by its fields.
pub open spec fn declaration_entries(
    source: Seq<char>,
    code: Seq<char>,
    heads: Seq<MatchView>,
    k: int,
    limit: int,
) -> Seq<EntryView>
    decreases k,
{
    if k <= 0 {
        Seq::empty()
    } else {
        let earlier = declaration_entries(source, code, heads, k - 1, limit);
        let head = heads[k - 1];
        if head.name is None && head.kind != "instance"@ {
            earlier
        } else {
            let entry = declaration_entry(source, code, heads, k - 1, limit);
            if record_kind(head.kind) {
                earlier.push(entry) + field_entries(
                    block_of(declared_text(source, heads, k - 1)),
                    entry.name,
                    entry.line,
                )
            } else {
                earlier.push(entry)
            }
        }
    }
}

/// The literals of a notation that are not blank, one space between each two.
pub open spec fn notation_label(literals: Seq<Seq<char>>) -> Seq<char> {
    joined(nonempty_of(crate::text::pieces::bare_all(literals)), " "@)
}

/// The entry of a notation.
pub open spec fn notation_entry(
    source: Seq<char>,
    code: Seq<char>,
    notation: NotationView,
) -> EntryView {
    let line = line_holding(byte_starts(source), notation.start);
    let original = subtext(
        source,
        char_index(source, notation.start) as int,
        char_index(source, notation.end) as int,
    );
    let namespace = at_or_empty(namespaces(code), line - 1);
    let label = "notation "@ + notation_label(notation.literals);
    EntryView {
        line: line as u64,
        name: if namespace.len() == 0 {
            label
        } else {
            joined(namespace, "."@) + "."@ + label
        },
        kind: notation.kind,
        signature: one_line(bare(original)),
        docs: doc_or_empty(doc_before(source, notation.start)),
        body: bare(original),
    }
}

/// The entries of the notations that introduce a literal.
pub open spec fn notation_entries(
    source: Seq<char>,
    code: Seq<char>,
    list: Seq<NotationView>,
) -> Seq<EntryView>
    decreases list.len(),
{
    if list.len() == 0 {
        Seq::empty()
    } else {
        let earlier = notation_entries(source, code, list.drop_last());
        if notation_label(list.last().literals).len() == 0 {
            earlier
        } else {
            earlier.push(notation_entry(source, code, list.last()))
        }
    }
}

/// A line that imports a module.
pub open spec fn import_line(line: Seq<char>) -> bool {
    begins(bare_start(line), "import "@) || begins(bare_start(line), "public import "@)
}

/// Decides [`import_line`].
pub fn is_import_line(line: &str) -> (r: bool)
    ensures
        r == import_line(line@),
{
    let t = trim_start(line);
    starts_with(t, "import ") || starts_with(t, "public import ")
}

/// The numbers of the lines of code that import a module, from zero.
pub open spec fn import_numbers(code_lines: Seq<Seq<char>>) -> Seq<int>
    decreases code_lines.len(),
{
    if code_lines.len() == 0 {
        Seq::empty()
    } else if import_line(code_lines.last()) {
        import_numbers(code_lines.drop_last()).push(code_lines.len() - 1)
    } else {
        import_numbers(code_lines.drop_last())
    }
}

/// The lines of source that import a module, without white space around them.
pub open spec fn import_texts(code_lines: Seq<Seq<char>>, source_lines: Seq<Seq<char>>) -> Seq<
    Seq<char>,
>
    decreases code_lines.len(),
{
    if code_lines.len() == 0 {
        Seq::empty()
    } else {
        let earlier = import_texts(code_lines.drop_last(), source_lines);
        if import_line(code_lines.last()) && code_lines.len() <= source_lines.len() {
            earlier.push(bare(source_lines[code_lines.len() - 1]))
        } else {
            earlier
        }
    }
}

/// The number of the first line that imports a module, from one, or zero.
pub open spec fn first_import(code_lines: Seq<Seq<char>>, source_lines: Seq<Seq<char>>) -> nat
    decreases code_lines.len(),
{
    if code_lines.len() == 0 {
        0
    } else {
        let earlier = first_import(code_lines.drop_last(), source_lines);
        if earlier == 0 && import_line(code_lines.last()) && code_lines.len()
            <= source_lines.len() {
            code_lines.len()
        } else {
            earlier
        }
    }
}

/// The entry of the imports of a file, where it has any.
pub open spec fn import_entries(source: Seq<char>, code: Seq<char>, module: Seq<char>) -> Seq<
    EntryView,
> {
    let texts = import_texts(line_list(code), line_list(source));
    if texts.len() == 0 {
        Seq::empty()
    } else {
        seq![
            EntryView {
                line: first_import(line_list(code), line_list(source)) as u64,
                name: module + ".imports"@,
                kind: "imports"@,
                signature: decimal(texts.len()) + " imports"@,
                docs: Seq::empty(),
                body: joined(texts, "\n"@),
            },
        ]
    }
}

/// The entry of a file as a whole.
pub open spec fn file_entry(source: Seq<char>, module: Seq<char>) -> EntryView {
    EntryView {
        line: 1,
        name: module,
        kind: "file"@,
        signature: Seq::empty(),
        docs: Seq::empty(),
        body: first_chars(source, 256_000),
    }
}

/// The entries of a file, given the heads of its declarations and its notations:
/// declarations, notations, imports, and the file itself. The text of a declaration
/// is kept up to `limit` characters.
pub open spec fn entries_of(
    source: Seq<char>,
    heads: Seq<MatchView>,
    notations: Seq<NotationView>,
    module: Seq<char>,
    limit: int,
) -> Seq<EntryView> {
    let code = masked(source);
    (declaration_entries(source, code, heads, heads.len() as int, limit) + notation_entries(
        source,
        code,
        notations,
    ) + import_entries(source, code, module)).push(file_entry(source, module))
}

/// The heads of the declarations of a file.
pub open spec fn heads_of(source: Seq<char>) -> Seq<MatchView> {
    matches_of(masked(source), all_spans(declaration_pattern(), masked(source)))
}

/// The notations of a file.
pub open spec fn notations_in(source: Seq<char>) -> Seq<NotationView> {
    notations_of(masked(source), all_spans(notation_pattern(), masked(source)))
}

fn signature_before_parents(text: &str, head: &DeclarationMatch) -> (r: String)
    ensures
        r@ == base_signature(text@, head@),
{
    let block = declaration_block(text);
    let indent = text.unicode_len() - trim_start_length(text);
    let end = header_chars(block);
    let tail = if head.tail > head.start {
        index_of_byte(text, head.tail - head.start)
    } else {
        0
    };
    let from: Option<usize> = if tail >= indent {
        Some(tail - indent)
    } else {
        None
    };
    let stated: String = match from {
        Some(from) => own(without_colon(slice(block, from, end))),
        None => {
            assert(subtext(block@, tail - indent, end as int) =~= Seq::empty());
            own(without_colon(""))
        },
    };
    proof {
        reveal_strlit("");
        assert(""@ =~= Seq::<char>::empty());
    }
    let mut chosen = own(stated.as_str());
    if stated.as_str().is_empty() {
        let rest = skip_chars(block, end);
        if (same(head.kind.as_str(), "abbrev") || same(head.kind.as_str(), "def")) && starts_with(
            rest,
            ":=",
        ) {
            if let Some(value) = head_line(without_prefix(rest, ":=")) {
                chosen = cat2(":= ", trim(value));
            }
        }
    }
    let private = match head_line(block) {
        Some(line) => is_private_before(&split_words(line), head.kind.as_str()),
        None => false,
    };
    if private {
        cat2("[private] ", chosen.as_str())
    } else {
        chosen
    }
}

fn trim_start_length(text: &str) -> (r: usize)
    ensures
        r == bare_start(text@).len(),
        r <= text@.len(),
{
    proof {
        trimmed_start_shorter(text@, Class::Space);
    }
    trim_start(text).unicode_len()
}

/// Trimming never lengthens a text.
pub proof fn trimmed_start_shorter(text: Seq<char>, class: Class)
    ensures
        crate::text::scan::trimmed_start(text, class).len() <= text.len(),
    decreases text.len(),
{
    if text.len() > 0 && class.has(text[0]) {
        trimmed_start_shorter(text.skip(1), class);
    }
}

fn name_of_head(head: &DeclarationMatch, namespace: &Vec<String>, line: usize) -> (r: String)
    ensures
        r@ == full_name(head@, strings(namespace@), line as int),
{
    assert(strings(namespace@).len() == namespace.len());
    match &head.name {
        Some(raw) => if starts_with(raw.as_str(), "_root_.") || namespace.len() == 0 {
            raw.clone()
        } else {
            cat3(join(namespace, ".").as_str(), ".", raw.as_str())
        },
        None => if namespace.len() == 0 {
            cat2("instance@", show_size(line).as_str())
        } else {
            cat3(join(namespace, ".").as_str(), ".instance@", show_size(line).as_str())
        },
    }
}

fn pick(list: &Vec<Vec<String>>, line: usize) -> (r: Vec<String>)
    requires
        line >= 1,
    ensures
        strings(r@) == at_or_empty(string_lists(list@), line - 1),
{
    assert(string_lists(list@).len() == list.len());
    if line - 1 < list.len() {
        assert(string_lists(list@)[line - 1] == strings(list@[line - 1]@));
        crate::text::make::copy_strings(&list[line - 1])
    } else {
        let none: Vec<String> = Vec::new();
        assert(strings(none@) =~= Seq::empty());
        none
    }
}

fn copy_docs(doc: Option<String>) -> (r: String)
    ensures
        r@ == doc_or_empty(opt_string(doc)),
{
    match doc {
        Some(d) => d,
        None => String::new(),
    }
}

fn body_in_context(context: &Vec<String>, block: &str, limit: usize) -> (r: String)
    ensures
        r@ == first_chars(with_context(strings(context@), block@), limit as int),
{
    assert(strings(context@).len() == context.len());
    if context.len() == 0 {
        own(take_chars(block, limit))
    } else {
        let whole = cat4("-- ambient context\n", join(context, "\n").as_str(), "\n\n", block);
        own(take_chars(whole.as_str(), limit))
    }
}

/// Computes [`declaration_entries`] of all declarations.
pub fn collect_declarations(
    source: &str,
    code: &str,
    heads: &Vec<DeclarationMatch>,
    limit: usize,
) -> (r: Vec<SourceEntry>)
    ensures
        entry_views(r@) == declaration_entries(
            source@,
            code@,
            match_views(heads@),
            heads.len() as int,
            limit as int,
        ),
{
    let ghost views = match_views(heads@);
    let starts = line_starts(source);
    let scopes = namespaces_by_line(code);
    let contexts = ambient_contexts_by_line(code);
    let length = source.unicode_len();
    let mut out: Vec<SourceEntry> = Vec::new();
    assert(entry_views(out@) =~= Seq::empty());
    for k in 0..heads.len()
        invariant
            views == match_views(heads@),
            length == source@.len(),
            positions(starts@) == byte_starts(source@),
            string_lists(scopes@) == namespaces(code@),
            string_lists(contexts@) == ambient_contexts(code@),
            entry_views(out@) == declaration_entries(
                source@,
                code@,
                views,
                k as int,
                limit as int,
            ),
    {
        let head = &heads[k];
        assert(views[k as int] == head@);
        if head.name.is_some() || same(head.kind.as_str(), "instance") {
            let line = offset_line(&starts, head.start);
            let end = if k + 1 < heads.len() {
                assert(views[k + 1] == heads@[k + 1]@);
                index_of_byte(source, heads[k + 1].start)
            } else {
                length
            };
            let text = slice(source, index_of_byte(source, head.start), end);
            let block = declaration_block(text);
            let base = signature_before_parents(text, head);
            let name = name_of_head(head, &pick(&scopes, line), line);
            let record = same(head.kind.as_str(), "class") || same(head.kind.as_str(), "structure");
            let mut signature = own(base.as_str());
            if record {
                if let Some(projection) = generated_parent_projection(name.as_str(), base.as_str()) {
                    push_str(
                        &mut signature,
                        cat2("; generated parent projection: ", projection.as_str()).as_str(),
                    );
                }
            }
            let docs = copy_docs(preceding_doc(source, head.start));
            let body = body_in_context(&pick(&contexts, line), block, limit);
            let entry = SourceEntry {
                line: line as u64,
                name: own(name.as_str()),
                kind: own(head.kind.as_str()),
                signature: single_line(signature.as_str()),
                docs,
                body,
            };
            assert(entry@ == declaration_entry(source@, code@, views, k as int, limit as int));
            let ghost before = entry_views(out@);
            out.push(entry);
            if record {
                let mut fields = parse_structure_fields(block, name.as_str(), line as u64);
                let ghost pushed = out@;
                let ghost added = fields@;
                out.append(&mut fields);
                assert(entry_views(out@) =~= entry_views(pushed) + entry_views(added));
            }
        }
    }
    out
}

/// Computes [`notation_entries`].
pub fn parse_notations(source: &str, code: &str, list: &Vec<NotationMatch>) -> (r: Vec<SourceEntry>)
    ensures
        entry_views(r@) == notation_entries(source@, code@, notation_views(list@)),
{
    let ghost views = notation_views(list@);
    let starts = line_starts(source);
    let scopes = namespaces_by_line(code);
    let mut out: Vec<SourceEntry> = Vec::new();
    assert(entry_views(out@) =~= Seq::empty());
    for i in 0..list.len()
        invariant
            views == notation_views(list@),
            positions(starts@) == byte_starts(source@),
            string_lists(scopes@) == namespaces(code@),
            entry_views(out@) == notation_entries(source@, code@, views.take(i as int)),
    {
        proof {
            prefix_step(views, i as int);
        }
        let notation = &list[i];
        assert(views[i as int] == notation@);
        let label = label_of(&notation.literals);
        if !label.as_str().is_empty() {
            let line = offset_line(&starts, notation.start);
            let original = trim(
                slice(
                    source,
                    index_of_byte(source, notation.start),
                    index_of_byte(source, notation.end),
                ),
            );
            let namespace = pick(&scopes, line);
            assert(strings(namespace@).len() == namespace.len());
            let labelled = cat2("notation ", label.as_str());
            let name = if namespace.len() == 0 {
                labelled
            } else {
                cat3(join(&namespace, ".").as_str(), ".", labelled.as_str())
            };
            let entry = SourceEntry {
                line: line as u64,
                name,
                kind: own(notation.kind.as_str()),
                signature: single_line(original),
                docs: copy_docs(preceding_doc(source, notation.start)),
                body: own(original),
            };
            assert(entry@ == notation_entry(source@, code@, notation@));
            out.push(entry);
        }
    }
    proof {
        prefix_all(views);
    }
    out
}

fn label_of(literals: &Vec<String>) -> (r: String)
    ensures
        r@ == notation_label(strings(literals@)),
{
    let ghost views = crate::text::pieces::bare_all(strings(literals@));
    let mut kept: Vec<&str> = Vec::new();
    for i in 0..literals.len()
        invariant
            views == crate::text::pieces::bare_all(strings(literals@)),
            strs(kept@) == nonempty_of(views.take(i as int)),
    {
        proof {
            prefix_step(views, i as int);
        }
        let t = trim(literals[i].as_str());
        assert(views[i as int] == t@);
        if !t.is_empty() {
            kept.push(t);
        }
    }
    proof {
        prefix_all(views);
    }
    join_strs(&kept, " ")
}

fn collect_imports(source: &str, code: &str, module: &str) -> (r: Vec<SourceEntry>)
    ensures
        entry_views(r@) == import_entries(source@, code@, module@),
{
    let code_lines = lines(code);
    let source_lines = lines(source);
    let ghost c = line_list(code@);
    let ghost s = line_list(source@);
    assert(c.len() == code_lines.len() && s.len() == source_lines.len());
    let mut texts: Vec<&str> = Vec::new();
    let mut first: usize = 0;
    for i in 0..code_lines.len()
        invariant
            c == strs(code_lines@),
            s == strs(source_lines@),
            s.len() == source_lines.len(),
            strs(texts@) == import_texts(c.take(i as int), s),
            first == first_import(c.take(i as int), s),
    {
        proof {
            prefix_step(c, i as int);
        }
        assert(c[i as int] == code_lines@[i as int]@);
        if is_import_line(code_lines[i]) && i < source_lines.len() {
            assert(s[i as int] == source_lines@[i as int]@);
            texts.push(trim(source_lines[i]));
            if first == 0 {
                first = i + 1;
            }
        }
    }
    proof {
        prefix_all(c);
    }
    assert(strs(texts@).len() == texts.len());
    let mut out: Vec<SourceEntry> = Vec::new();
    assert(entry_views(out@) =~= Seq::empty());
    if texts.len() > 0 {
        let entry = SourceEntry {
            line: first as u64,
            name: cat2(module, ".imports"),
            kind: own("imports"),
            signature: cat2(show_size(texts.len()).as_str(), " imports"),
            docs: String::new(),
            body: join_strs(&texts, "\n"),
        };
        out.push(entry);
        assert(entry_views(out@) =~= import_entries(source@, code@, module@));
    }
    out
}

/// Computes [`entries_of`].
pub fn entries_from_matches(
    source: &str,
    heads: &Vec<DeclarationMatch>,
    notations: &Vec<NotationMatch>,
    module: &str,
    limit: usize,
) -> (r: Vec<SourceEntry>)
    ensures
        entry_views(r@) == entries_of(
            source@,
            match_views(heads@),
            notation_views(notations@),
            module@,
            limit as int,
        ),
{
    let code = mask_comments(source);
    let mut out = collect_declarations(source, code.as_str(), heads, limit);
    let ghost first = out@;
    assert(match_views(heads@).len() == heads.len());
    let mut second = parse_notations(source, code.as_str(), notations);
    let ghost added = second@;
    out.append(&mut second);
    assert(entry_views(out@) =~= entry_views(first) + entry_views(added));
    let ghost both = out@;
    let mut third = collect_imports(source, code.as_str(), module);
    let ghost imports = third@;
    out.append(&mut third);
    assert(entry_views(out@) =~= entry_views(both) + entry_views(imports));
    out.push(
        SourceEntry {
            line: 1,
            name: own(module),
            kind: own("file"),
            signature: String::new(),
            docs: String::new(),
            body: own(take_chars(source, 256_000)),
        },
    );
    out
}

/// The entries of a file, the text of each declaration kept up to `limit` characters.
pub fn parse_source_with_limit(source: &str, module: &str, limit: usize) -> (r: Vec<SourceEntry>)
    ensures
        entry_views(r@) == entries_of(
            source@,
            heads_of(source@),
            notations_in(source@),
            module@,
            limit as int,
        ),
{
    let code = mask_comments(source);
    let heads = declaration_matches(
        code.as_str(),
        &capture_spans(declaration_regex(), code.as_str()),
    );
    let notations = notation_matches(
        code.as_str(),
        &capture_spans(
            "(?m)^[ \\t]*(?:(?:scoped|local)[ \\t]+)*(?P<kind>notation|infixl|infixr|infix|prefix|postfix)(?::[0-9]+)?(?P<body>[^\\n]*)",
            code.as_str(),
        ),
    );
    entries_from_matches(source, &heads, &notations, module, limit)
}

/// The entries of a file.
pub fn parse_source(source: &str, module: &str) -> (r: Vec<SourceEntry>)
    ensures
        entry_views(r@) == entries_of(
            source@,
            heads_of(source@),
            notations_in(source@),
            module@,
            16_000,
        ),
{
    parse_source_with_limit(source, module, 16_000)
}

} // verus!
