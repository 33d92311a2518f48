//! The fields of structures and classes, and the projections to their parents.
use crate::search::source::{
    breaks, count_breaks, closing_doc, doc_at_end, entry_views, entry_views_push, header_chars, header_length,
    line_at, line_from, EntryView, SourceEntry,
};
use crate::search::warning::{replace_char, replaced};
use crate::text::class::{alphabetic, alphanumeric, is_alphabetic, is_alphanumeric, Class};
use crate::text::layout::{one_line, single_line};
use crate::text::make::{byte_length, cat3, own, prefix_all, prefix_step, strs, to_chars};
use crate::text::pieces::{first_in, pieces, position, split};
use crate::text::scan::{
    after_chars, bare, bare_end, bare_start, begins, blank, char_index, contains, index_of_byte, cut, find, find_text,
    first_chars, from_index, has_text, is_blank, occurs_at, opt_string, rfind, rfind_text,
    sans_prefix, skip_chars, slice, split_once, stands_at, starts_with, subtext, take_chars, trim,
    trim_end, trim_start, trim_start_of, trimmed_start, without_prefix,
};
use vstd::prelude::*;

verus! {

broadcast use entry_views_push;

/// What follows the attributes at the head of a line; `None` where one has no end.
pub open spec fn after_attributes(rest: Seq<char>) -> Option<Seq<char>>
    decreases rest.len(),
{
    if begins(rest, "@["@) {
        match find_text(rest, "]"@) {
            Some(k) => {
                let next = bare_start(after_chars(rest, k + 1));
                if next.len() < rest.len() {
                    after_attributes(next)
                } else {
                    None
                }
            },
            None => None,
        }
    } else {
        Some(rest)
    }
}

fn past_attributes<'a>(text: &'a str) -> (r: Option<&'a str>)
    ensures
        crate::text::scan::opt_str(r) == after_attributes(text@),
{
    let mut rest: &'a str = text;
    while starts_with(rest, "@[")
        invariant
            after_attributes(rest@) == after_attributes(text@),
        decreases rest@.len(),
    {
        let length = rest.unicode_len();
        proof {
            reveal_strlit("]");
        }
        match find(rest, "]") {
            Some(k) => {
                let next = trim_start(skip_chars(rest, k + 1));
                if next.unicode_len() < rest.unicode_len() {
                    rest = next;
                } else {
                    return None;
                }
            },
            None => {
                return None;
            },
        }
    }
    Some(rest)
}

/// A colon outside delimiters, from position `i` on, that is not part of `:=`.
pub open spec fn has_type(text: Seq<char>, i: int, depth: nat) -> bool
    decreases text.len() - i,
{
    if i < 0 || i >= text.len() {
        false
    } else if text[i] == ':' && depth == 0 && !(i + 1 < text.len() && text[i + 1] == '=') {
        true
    } else {
        has_type(text, i + 1, crate::search::source::depth_step(depth, text[i]))
    }
}

fn is_typed(text: &str, from: usize) -> (r: bool)
    ensures
        r == has_type(text@, from as int, 0),
{
    let t = to_chars(text);
    let mut i: usize = from;
    let mut depth: usize = 0;
    while i < t.len()
        invariant
            t@ == text@,
            from <= i,
            depth <= i - from,
            has_type(text@, from as int, 0) == has_type(text@, i as int, depth as nat),
        decreases t.len() - i,
    {
        let c = t[i];
        if c == ':' && depth == 0 && !(i + 1 < t.len() && t[i + 1] == '=') {
            return true;
        }
        if c == '(' || c == '[' || c == '{' {
            depth += 1;
        } else if (c == ')' || c == ']' || c == '}') && depth > 0 {
            depth -= 1;
        }
        i += 1;
    }
    false
}

/// The head of a field: how many bytes its line is indented, at which byte its name ends,
/// and the name.
pub struct FieldHead {
    pub indent: nat,
    pub name_end: nat,
    pub name: Seq<char>,
}

/// The head of the field that a line declares.
pub open spec fn field_head(line: Seq<char>) -> Option<FieldHead> {
    let unindented = trimmed_start(line, Class::Only(" \t"));
    if unindented.len() >= line.len() {
        None
    } else {
        match after_attributes(unindented) {
            Some(bare_rest) => {
                let rest = sans_prefix(bare_rest, "protected "@);
                if rest.len() > 0 && rest.len() <= line.len() && (alphabetic(rest[0]) || rest[0]
                    == '_') {
                    let end = 1 + first_in(rest.skip(1), Class::Outside("_'"));
                    if has_type(rest, end, 0) {
                        Some(
                            FieldHead {
                                indent: (line.len() - unindented.len()) as nat,
                                name_end: byte_length(first_chars(line, line.len() - rest.len() + end)) as nat,
                                name: first_chars(rest, end),
                            },
                        )
                    } else {
                        None
                    }
                } else {
                    None
                }
            },
            None => None,
        }
    }
}

/// Computes [`field_head`].
pub fn structure_field_header(line: &str) -> (r: Option<(usize, usize, String)>)
    ensures
        match r {
            Some(h) => field_head(line@) == Some(
                FieldHead { indent: h.0 as nat, name_end: h.1 as nat, name: h.2@ },
            ),
            None => field_head(line@) is None,
        },
{
    let length = line.unicode_len();
    let unindented = trim_start_of(line, Class::Only(" \t"));
    let left = unindented.unicode_len();
    if left >= length {
        return None;
    }
    match past_attributes(unindented) {
        Some(bare_rest) => {
            let rest = without_prefix(bare_rest, "protected ");
            let size = rest.unicode_len();
            if size > 0 && size <= length {
                let c = rest.get_char(0);
                if is_alphabetic(c) || c == '_' {
                    let tail = from_index(rest, 1);
                    let end = 1 + position(tail, Class::Outside("_'"));
                    if is_typed(rest, end) {
                        let upto = take_chars(line, length - size + end);
                        return Some((length - left, upto.len(), own(take_chars(rest, end))));
                    }
                }
            }
            None
        },
        None => None,
    }
}

/// A field of a structure: where its line begins, and its head.
pub struct FieldPlace {
    pub offset: int,
    pub head: FieldHead,
}

/// The fields whose lines begin behind a line break at a position from `from` up to
/// `to`.
pub open spec fn field_places(block: Seq<char>, from: int, to: int) -> Seq<FieldPlace>
    decreases to - from,
{
    if to <= from {
        Seq::empty()
    } else {
        let earlier = field_places(block, from, to - 1);
        if 0 <= to - 1 < block.len() && block[to - 1] == '\n' {
            match field_head(line_from(block, to)) {
                Some(head) => earlier.push(FieldPlace { offset: to, head }),
                None => earlier,
            }
        } else {
            earlier
        }
    }
}

/// The smallest indentation of some fields.
pub open spec fn least_indent(list: Seq<FieldPlace>) -> nat
    decreases list.len(),
{
    if list.len() == 0 {
        0
    } else if list.len() == 1 {
        list[0].head.indent
    } else {
        let earlier = least_indent(list.drop_last());
        if list.last().head.indent < earlier {
            list.last().head.indent
        } else {
            earlier
        }
    }
}

/// The fields with the given indentation.
pub open spec fn with_indent(list: Seq<FieldPlace>, indent: nat) -> Seq<FieldPlace>
    decreases list.len(),
{
    if list.len() == 0 {
        Seq::empty()
    } else if list.last().head.indent == indent {
        with_indent(list.drop_last(), indent).push(list.last())
    } else {
        with_indent(list.drop_last(), indent)
    }
}

/// Where the body of a structure ends: at the first line without indentation.
pub open spec fn body_stop(block: Seq<char>, i: int) -> int
    decreases block.len() - i,
{
    if i < 0 || i >= block.len() {
        block.len() as int
    } else if block[i] == '\n' && !blank(line_from(block, i + 1)) && bare_start(
        line_from(block, i + 1),
    ).len() == line_from(block, i + 1).len() {
        i + 1
    } else {
        body_stop(block, i + 1)
    }
}

/// The text of a field without the documentation of the next one.
pub open spec fn field_text(block: Seq<char>, offset: int, end: int) -> Seq<char> {
    let text = bare_end(subtext(block, offset, end));
    match rfind_text(text, "/--"@) {
        Some(d) => if has_text(after_chars(text, d), "-/"@) {
            bare_end(first_chars(text, d))
        } else {
            text
        },
        None => text,
    }
}

/// A type without the colon before it.
pub open spec fn sans_colon(text: Seq<char>) -> Seq<char> {
    bare(trimmed_start(bare(text), Class::Is(':')))
}

/// Computes [`sans_colon`].
pub fn without_colon<'a>(text: &'a str) -> (r: &'a str)
    ensures
        r@ == sans_colon(text@),
{
    trim(trim_start_of(trim(text), Class::Is(':')))
}

/// An optional text, or nothing.
pub open spec fn doc_or_empty(doc: Option<Seq<char>>) -> Seq<char> {
    match doc {
        Some(d) => d,
        None => Seq::empty(),
    }
}

/// The number of the line `n` lines below `line`, as far as line numbers go.
pub open spec fn line_below(line: u64, n: nat) -> u64 {
    if line + n <= u64::MAX {
        (line + n) as u64
    } else {
        u64::MAX
    }
}

/// The entry of one field.
pub open spec fn field_entry(
    block: Seq<char>,
    structure: Seq<char>,
    structure_line: u64,
    place: FieldPlace,
    end: int,
) -> EntryView {
    let text = field_text(block, place.offset, end);
    EntryView {
        line: line_below(structure_line, breaks(first_chars(block, place.offset))),
        name: structure + "."@ + place.head.name,
        kind: "field"@,
        signature: one_line(
            sans_colon(
                after_chars(text, char_index(text, place.head.name_end as int) as int),
            ),
        ),
        docs: doc_or_empty(closing_doc(first_chars(block, place.offset))),
        body: text,
    }
}

/// The fields of a structure that its body declares.
pub open spec fn declared_fields(block: Seq<char>) -> Seq<FieldPlace> {
    let start = header_length(block) + 5;
    let all = field_places(block, start, body_stop(block, start));
    with_indent(all, least_indent(all))
}

/// The entries of the fields of a structure whose declaration is `block`.
pub open spec fn field_entries(
    block: Seq<char>,
    structure: Seq<char>,
    structure_line: u64,
) -> Seq<EntryView> {
    if occurs_at(block, "where"@, header_length(block)) {
        let list = declared_fields(block);
        let stop = body_stop(block, header_length(block) + 5);
        Seq::new(
            list.len(),
            |i: int|
                field_entry(
                    block,
                    structure,
                    structure_line,
                    list[i],
                    if i + 1 < list.len() {
                        list[i + 1].offset
                    } else {
                        stop
                    },
                ),
        )
    } else {
        Seq::empty()
    }
}

/// A field while it is collected.
pub struct FieldRow {
    pub offset: usize,
    pub indent: usize,
    pub name_end: usize,
    pub name: String,
}

impl View for FieldRow {
    type V = FieldPlace;

    open spec fn view(&self) -> FieldPlace {
        FieldPlace {
            offset: self.offset as int,
            head: FieldHead {
                indent: self.indent as nat,
                name_end: self.name_end as nat,
                name: self.name@,
            },
        }
    }
}

/// The contents of collected fields.
pub open spec fn place_views(list: Seq<FieldRow>) -> Seq<FieldPlace> {
    list.map_values(|f: FieldRow| f@)
}

fn find_body_stop(block: &str, from: usize) -> (r: usize)
    requires
        from <= block@.len(),
    ensures
        r == body_stop(block@, from as int),
        from <= r <= block@.len(),
{
    let t = to_chars(block);
    let mut i: usize = from;
    while i < t.len()
        invariant
            t@ == block@,
            from <= i <= t.len(),
            body_stop(block@, from as int) == body_stop(block@, i as int),
        decreases t.len() - i,
    {
        if t[i] == '\n' {
            let line = line_at(block, i + 1);
            if !is_blank(line) && trim_start(line).unicode_len() == line.unicode_len() {
                return i + 1;
            }
        }
        i += 1;
    }
    t.len()
}

fn collect_fields(block: &str, from: usize, to: usize) -> (r: Vec<FieldRow>)
    requires
        from <= to <= block@.len(),
    ensures
        place_views(r@) == field_places(block@, from as int, to as int),
{
    let t = to_chars(block);
    let mut out: Vec<FieldRow> = Vec::new();
    assert(place_views(out@) =~= field_places(block@, from as int, from as int));
    for i in from..to
        invariant
            t@ == block@,
            from <= to <= t.len(),
            place_views(out@) == field_places(block@, from as int, i as int),
    {
        if t[i] == '\n' {
            let line = line_at(block, i + 1);
            if let Some(head) = structure_field_header(line) {
                let row = FieldRow {
                    offset: i + 1,
                    indent: head.0,
                    name_end: head.1,
                    name: head.2,
                };
                let ghost before = out@;
                out.push(row);
                assert(place_views(out@) =~= place_views(before).push(row@));
            }
        }
    }
    out
}

fn smallest_indent(list: &Vec<FieldRow>) -> (r: usize)
    ensures
        r == least_indent(place_views(list@)),
{
    let ghost views = place_views(list@);
    let mut least: usize = 0;
    for i in 0..list.len()
        invariant
            views == place_views(list@),
            least == least_indent(views.take(i as int)),
    {
        proof {
            prefix_step(views, i as int);
        }
        assert(views[i as int] == list@[i as int]@);
        if i == 0 || list[i].indent < least {
            least = list[i].indent;
        }
    }
    proof {
        prefix_all(views);
    }
    least
}

fn keep_indent(list: Vec<FieldRow>, indent: usize) -> (r: Vec<FieldRow>)
    ensures
        place_views(r@) == with_indent(place_views(list@), indent as nat),
{
    let ghost views = place_views(list@);
    let mut out: Vec<FieldRow> = Vec::new();
    for i in 0..list.len()
        invariant
            views == place_views(list@),
            place_views(out@) == with_indent(views.take(i as int), indent as nat),
    {
        proof {
            prefix_step(views, i as int);
        }
        let row = &list[i];
        assert(views[i as int] == row@);
        if row.indent == indent {
            let ghost before = out@;
            let copied = FieldRow {
                offset: row.offset,
                indent: row.indent,
                name_end: row.name_end,
                name: row.name.clone(),
            };
            out.push(copied);
            assert(place_views(out@) =~= place_views(before).push(row@));
        }
    }
    proof {
        prefix_all(views);
    }
    out
}

fn cut_field<'a>(block: &'a str, offset: usize, end: usize) -> (r: &'a str)
    ensures
        r@ == field_text(block@, offset as int, end as int),
{
    let text = trim_end(slice(block, offset, end));
    match rfind(text, "/--") {
        Some(d) => if contains(skip_chars(text, d), "-/") {
            trim_end(take_chars(text, d))
        } else {
            text
        },
        None => text,
    }
}

/// Computes [`field_entries`].
pub fn parse_structure_fields(block: &str, structure: &str, structure_line: u64) -> (r: Vec<
    SourceEntry,
>)
    ensures
        entry_views(r@) == field_entries(block@, structure@, structure_line),
{
    let header = header_chars(block);
    let t = to_chars(block);
    let mark = to_chars("where");
    proof {
        reveal_strlit("where");
    }
    let length = t.len();
    if !stands_at(&t, &mark, header) {
        return Vec::new();
    }
    let start = header + 5;
    let stop = find_body_stop(block, start);
    let all = collect_fields(block, start, stop);
    let indent = smallest_indent(&all);
    let list = keep_indent(all, indent);
    let ghost places = declared_fields(block@);
    let ghost wanted = field_entries(block@, structure@, structure_line);
    assert(places.len() == list.len());
    let mut out: Vec<SourceEntry> = Vec::new();
    assert(entry_views(out@) =~= wanted.take(0));
    for i in 0..list.len()
        invariant
            occurs_at(block@, "where"@, header_length(block@)),
            places == place_views(list@),
            places == declared_fields(block@),
            places.len() == list.len(),
            stop == body_stop(block@, header_length(block@) + 5),
            wanted == field_entries(block@, structure@, structure_line),
            entry_views(out@) == wanted.take(i as int),
    {
        let row = &list[i];
        assert(places[i as int] == row@);
        let end: usize = if i + 1 < list.len() {
            assert(places[i + 1] == list@[i + 1]@);
            list[i + 1].offset
        } else {
            stop
        };
        let text = cut_field(block, row.offset, end);
        let docs = match doc_at_end(take_chars(block, row.offset)) {
            Some(d) => d,
            None => String::new(),
        };
        let entry = SourceEntry {
            line: structure_line.saturating_add(
                count_breaks(take_chars(block, row.offset)) as u64,
            ),
            name: cat3(structure, ".", row.name.as_str()),
            kind: own("field"),
            signature: single_line(
                without_colon(skip_chars(text, index_of_byte(text, row.name_end))),
            ),
            docs,
            body: own(text),
        };
        proof {
            prefix_step(wanted, i as int);
        }
        assert(entry@ == wanted[i as int]);
        out.push(entry);
    }
    proof {
        prefix_all(wanted);
    }
    out
}

/// The projection to the parent that a structure extends, where the parent is named
/// outright.
pub open spec fn parent_projection(name: Seq<char>, signature: Seq<char>) -> Option<Seq<char>> {
    match cut(signature, "extends "@) {
        Some(sides) => {
            let extension = bare_start(sides.1);
            let parent = pieces(extension, Class::Outside("_."))[0];
            let remainder = bare_start(after_chars(extension, parent.len() as int));
            if parent.len() == 0 {
                None
            } else if remainder.len() > 0 && !alphanumeric(remainder[0]) && remainder[0] != '('
                && remainder[0] != '[' && remainder[0] != '{' {
                None
            } else {
                Some(name + ".to"@ + replaced(parent, '.', ""@))
            }
        },
        None => None,
    }
}

/// Computes [`parent_projection`].
pub fn generated_parent_projection(name: &str, signature: &str) -> (r: Option<String>)
    ensures
        opt_string(r) == parent_projection(name@, signature@),
{
    match split_once(signature, "extends ") {
        Some(sides) => {
            let extension = trim_start(sides.1);
            let parts = split(extension, Class::Outside("_."));
            assert(strs(parts@)[0] == parts[0]@);
            let parent = parts[0];
            let remainder = trim_start(skip_chars(extension, parent.unicode_len()));
            if parent.is_empty() {
                return None;
            }
            if remainder.unicode_len() > 0 {
                let c = remainder.get_char(0);
                if !is_alphanumeric(c) && c != '(' && c != '[' && c != '{' {
                    return None;
                }
            }
            Some(cat3(name, ".to", replace_char(parent, '.', "").as_str()))
        },
        None => None,
    }
}

} // verus!
