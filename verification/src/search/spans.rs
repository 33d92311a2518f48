//! The lines that the declarations of a file take.
use crate::order::{key_list, positions, rank, ranking};
use crate::search::declarations::{entries_of, heads_of, notations_in, parse_source};
use crate::search::source::{entry_views, EntryView, SourceEntry};
use crate::text::make::{
    byte_length, cat5, lowercased, prefix_all, prefix_step, same, strings, strs, to_lowercase,
};
use crate::text::pieces::{line_list, lines, split_words, words};
use crate::text::scan::{bare_start, begins, contains, has_text, starts_with, trim_start};
use vstd::prelude::*;

verus! {

/// A declaration with the first and the last of its lines.
#[derive(Debug)]
pub struct DeclarationSpan {
    pub start: u64,
    pub end: u64,
    pub name: String,
    pub kind: String,
    pub signature: String,
}

/// The contents of a [`DeclarationSpan`].
pub struct SpanView {
    pub start: u64,
    pub end: u64,
    pub name: Seq<char>,
    pub kind: Seq<char>,
    pub signature: Seq<char>,
}

impl View for DeclarationSpan {
    type V = SpanView;

    open spec fn view(&self) -> SpanView {
        SpanView {
            start: self.start,
            end: self.end,
            name: self.name@,
            kind: self.kind@,
            signature: self.signature@,
        }
    }
}

impl DeclarationSpan {
    /// A copy that ends on another line.
    pub fn ending(&self, end: u64) -> (r: Self)
        ensures
            r@ == (SpanView { end, ..self@ }),
    {
        DeclarationSpan {
            start: self.start,
            end,
            name: self.name.clone(),
            kind: self.kind.clone(),
            signature: self.signature.clone(),
        }
    }
}

/// The contents of a list of spans.
pub open spec fn declared_views(list: Seq<DeclarationSpan>) -> Seq<SpanView> {
    list.map_values(|s: DeclarationSpan| s@)
}

/// An entry that takes no lines of its own.
pub open spec fn spanless(kind: Seq<char>) -> bool {
    ||| kind == "field"@ || kind == "file"@ || kind == "imports"@ || kind == "notation"@
    ||| kind == "infix"@ || kind == "infixl"@ || kind == "infixr"@ || kind == "prefix"@
    ||| kind == "postfix"@
}

/// Decides [`spanless`].
pub fn is_spanless(kind: &str) -> (r: bool)
    ensures
        r == spanless(kind@),
{
    same(kind, "field") || same(kind, "file") || same(kind, "imports") || same(kind, "notation")
        || same(kind, "infix") || same(kind, "infixl") || same(kind, "infixr") || same(
        kind,
        "prefix",
    ) || same(kind, "postfix")
}

/// The first lines of the entries that take lines of their own.
pub open spec fn heads_in(entries: Seq<EntryView>) -> Seq<SpanView>
    decreases entries.len(),
{
    if entries.len() == 0 {
        Seq::empty()
    } else if spanless(entries.last().kind) {
        heads_in(entries.drop_last())
    } else {
        let e = entries.last();
        heads_in(entries.drop_last()).push(
            SpanView {
                start: e.line,
                end: e.line,
                name: e.name,
                kind: e.kind,
                signature: e.signature,
            },
        )
    }
}

/// Spans in the order of their first lines.
pub open spec fn in_line_order(list: Seq<SpanView>) -> Seq<SpanView> {
    ranking(list.map_values(|s: SpanView| seq![s.start])).map_values(|i: int| list[i])
}

/// Spans without those that repeat the line and the name of the one kept before.
pub open spec fn without_twins(list: Seq<SpanView>) -> Seq<SpanView>
    decreases list.len(),
{
    if list.len() == 0 {
        Seq::empty()
    } else {
        let kept = without_twins(list.drop_last());
        if kept.len() > 0 && kept.last().start == list.last().start && kept.last().name
            == list.last().name {
            kept
        } else {
            kept.push(list.last())
        }
    }
}

/// Where a span ends: before the next one, or with the file, but not before it begins.
pub open spec fn span_end(list: Seq<SpanView>, i: int, last: u64) -> u64 {
    let end = if i + 1 < list.len() {
        if list[i + 1].start == 0 {
            0
        } else {
            (list[i + 1].start - 1) as u64
        }
    } else {
        last
    };
    if end < list[i].start {
        list[i].start
    } else {
        end
    }
}

/// Spans that reach up to the next one.
pub open spec fn closed_spans(list: Seq<SpanView>, last: u64) -> Seq<SpanView> {
    Seq::new(list.len(), |i: int| SpanView { end: span_end(list, i, last), ..list[i] })
}

/// The number of the last line of a file.
pub open spec fn last_line(source: Seq<char>) -> u64 {
    if line_list(source).len() < 1 {
        1
    } else {
        line_list(source).len() as u64
    }
}

/// The spans of entries of a file.
pub open spec fn spans_of(entries: Seq<EntryView>, last: u64) -> Seq<SpanView> {
    closed_spans(without_twins(in_line_order(heads_in(entries))), last)
}

fn collect_heads(entries: &Vec<SourceEntry>) -> (r: Vec<DeclarationSpan>)
    ensures
        declared_views(r@) == heads_in(entry_views(entries@)),
{
    let ghost views = entry_views(entries@);
    let mut out: Vec<DeclarationSpan> = Vec::new();
    assert(declared_views(out@) =~= Seq::empty());
    for i in 0..entries.len()
        invariant
            views == entry_views(entries@),
            declared_views(out@) == heads_in(views.take(i as int)),
    {
        proof {
            prefix_step(views, i as int);
        }
        assert(views[i as int] == entries@[i as int]@);
        if !is_spanless(entries[i].kind.as_str()) {
            let ghost before = declared_views(out@);
            let head = DeclarationSpan {
                start: entries[i].line,
                end: entries[i].line,
                name: entries[i].name.clone(),
                kind: entries[i].kind.clone(),
                signature: entries[i].signature.clone(),
            };
            out.push(head);
            assert(declared_views(out@) =~= before.push(head@));
        }
    }
    proof {
        prefix_all(views);
    }
    out
}

pub(crate) fn order_spans(list: &Vec<DeclarationSpan>) -> (r: Vec<DeclarationSpan>)
    ensures
        declared_views(r@) == in_line_order(declared_views(list@)),
{
    let ghost views = declared_views(list@);
    let ghost wanted = views.map_values(|s: SpanView| seq![s.start]);
    let mut keys: Vec<Vec<u64>> = Vec::new();
    assert(key_list(keys@) =~= wanted.take(0));
    for i in 0..list.len()
        invariant
            views == declared_views(list@),
            wanted == views.map_values(|s: SpanView| seq![s.start]),
            keys.len() == i,
            key_list(keys@) == wanted.take(i as int),
    {
        proof {
            prefix_step(wanted, i as int);
        }
        let mut key: Vec<u64> = Vec::new();
        key.push(list[i].start);
        let ghost before = key_list(keys@);
        assert(key@ =~= seq![list@[i as int].start]);
        keys.push(key);
        assert(key_list(keys@) =~= before.push(wanted[i as int]));
    }
    proof {
        prefix_all(wanted);
    }
    let order = rank(&keys);
    let ghost sorted = in_line_order(views);
    assert(positions(order@).len() == order.len());
    let mut out: Vec<DeclarationSpan> = Vec::new();
    assert(declared_views(out@) =~= sorted.take(0));
    for i in 0..order.len()
        invariant
            order.len() == keys.len(),
            list.len() == keys.len(),
            views == declared_views(list@),
            forall|j: int| 0 <= j < order.len() ==> (#[trigger] order@[j]) < keys.len(),
            positions(order@) == ranking(key_list(keys@)),
            key_list(keys@) == views.map_values(|s: SpanView| seq![s.start]),
            sorted == in_line_order(views),
            sorted.len() == order.len(),
            declared_views(out@) == sorted.take(i as int),
    {
        proof {
            prefix_step(sorted, i as int);
            assert(positions(order@)[i as int] == order@[i as int] as int);
        }
        let ghost before = declared_views(out@);
        let item = &list[order[i]];
        let copied = item.ending(item.end);
        assert(copied@ == views[order@[i as int] as int]);
        out.push(copied);
        assert(declared_views(out@) =~= before.push(copied@));
    }
    proof {
        prefix_all(sorted);
    }
    out
}

fn drop_twins(list: &Vec<DeclarationSpan>) -> (r: Vec<DeclarationSpan>)
    ensures
        declared_views(r@) == without_twins(declared_views(list@)),
{
    let ghost views = declared_views(list@);
    let mut out: Vec<DeclarationSpan> = Vec::new();
    assert(declared_views(out@) =~= Seq::empty());
    for i in 0..list.len()
        invariant
            views == declared_views(list@),
            declared_views(out@) == without_twins(views.take(i as int)),
    {
        proof {
            prefix_step(views, i as int);
        }
        assert(views[i as int] == list@[i as int]@);
        let count = out.len();
        let mut twin = false;
        if count > 0 {
            assert(declared_views(out@).last() == out@[count - 1]@);
            twin = out[count - 1].start == list[i].start && same(
                out[count - 1].name.as_str(),
                list[i].name.as_str(),
            );
        }
        if !twin {
            let ghost before = declared_views(out@);
            let copied = list[i].ending(list[i].end);
            out.push(copied);
            assert(declared_views(out@) =~= before.push(views[i as int]));
        }
    }
    proof {
        prefix_all(views);
    }
    out
}

fn close_spans(list: &Vec<DeclarationSpan>, last: u64) -> (r: Vec<DeclarationSpan>)
    ensures
        declared_views(r@) == closed_spans(declared_views(list@), last),
{
    let ghost views = declared_views(list@);
    let ghost wanted = closed_spans(views, last);
    let mut out: Vec<DeclarationSpan> = Vec::new();
    assert(declared_views(out@) =~= wanted.take(0));
    for i in 0..list.len()
        invariant
            views == declared_views(list@),
            wanted == closed_spans(views, last),
            declared_views(out@) == wanted.take(i as int),
    {
        proof {
            prefix_step(wanted, i as int);
        }
        assert(views[i as int] == list@[i as int]@);
        let mut end = last;
        if i + 1 < list.len() {
            assert(views[i + 1] == list@[i + 1]@);
            end = list[i + 1].start;
            if end > 0 {
                end -= 1;
            }
        }
        if end < list[i].start {
            end = list[i].start;
        }
        let ghost before = declared_views(out@);
        let copied = list[i].ending(end);
        out.push(copied);
        assert(declared_views(out@) =~= before.push(wanted[i as int]));
    }
    proof {
        prefix_all(wanted);
    }
    out
}

/// Computes [`spans_of`].
pub fn spans_from_entries(entries: &Vec<SourceEntry>, last: u64) -> (r: Vec<DeclarationSpan>)
    ensures
        declared_views(r@) == spans_of(entry_views(entries@), last),
{
    close_spans(&drop_twins(&order_spans(&collect_heads(entries))), last)
}

/// The spans of the declarations of a file.
pub fn declaration_spans(source: &str, module: &str) -> (r: Vec<DeclarationSpan>)
    ensures
        declared_views(r@) == spans_of(
            entries_of(source@, heads_of(source@), notations_in(source@), module@, 16_000),
            last_line(source@),
        ),
{
    let list = lines(source);
    assert(strs(list@).len() == list.len());
    let count = list.len() as u64;
    let last = if count < 1 {
        1
    } else {
        count
    };
    spans_from_entries(&parse_source(source, module), last)
}

/// Whether a span holds a line.
pub open spec fn spans_line(span: SpanView, line: u64) -> bool {
    span.start <= line <= span.end
}

/// The last of the first `n` spans that holds a line.
pub open spec fn span_at(list: Seq<SpanView>, line: u64, n: nat) -> Option<int>
    decreases n,
{
    if n == 0 {
        None
    } else if spans_line(list[n - 1], line) {
        Some(n - 1)
    } else {
        span_at(list, line, (n - 1) as nat)
    }
}

/// The position of the last span that holds a line.
pub fn enclosing_declaration_span(spans: &Vec<DeclarationSpan>, line: u64) -> (r: Option<usize>)
    ensures
        match r {
            Some(i) => i < spans.len() && span_at(declared_views(spans@), line, spans.len() as nat)
                == Some(i as int),
            None => span_at(declared_views(spans@), line, spans.len() as nat) is None,
        },
{
    let mut n = spans.len();
    while n > 0
        invariant
            n <= spans.len(),
            span_at(declared_views(spans@), line, spans.len() as nat) == span_at(
                declared_views(spans@),
                line,
                n as nat,
            ),
        decreases n,
    {
        n -= 1;
        assert(declared_views(spans@)[n as int] == spans@[n as int]@);
        if spans[n].start <= line && line <= spans[n].end {
            return Some(n);
        }
    }
    None
}

/// The span that is found holds the line, and no later one does.
pub proof fn span_at_is_last(list: Seq<SpanView>, line: u64, n: nat)
    requires
        n <= list.len(),
    ensures
        match span_at(list, line, n) {
            Some(i) => 0 <= i < n && spans_line(list[i], line) && forall|j: int|
                i < j < n ==> !spans_line(#[trigger] list[j], line),
            None => forall|j: int| 0 <= j < n ==> !spans_line(#[trigger] list[j], line),
        },
    decreases n,
{
    if n > 0 && !spans_line(list[n - 1], line) {
        span_at_is_last(list, line, (n - 1) as nat);
    }
}

/// No span ends before it begins.
pub proof fn spans_are_not_empty(entries: Seq<EntryView>, last: u64)
    ensures
        forall|i: int|
            0 <= i < spans_of(entries, last).len() ==> (#[trigger] spans_of(entries, last)[i]).start
                <= spans_of(entries, last)[i].end,
{
}

/// A line that marks a declaration of a kind as private.
pub open spec fn private_line(line: Seq<char>, kind: Seq<char>) -> bool {
    begins(bare_start(line), "private "@) && words(bare_start(line)).contains(kind)
}

/// Whether an entry is private to its file.
pub open spec fn private_entry(e: EntryView) -> bool {
    exists|i: int|
        0 <= i < line_list(e.body).len() && private_line(#[trigger] line_list(e.body)[i], e.kind)
}

fn is_private_line(line: &str, kind: &str) -> (r: bool)
    ensures
        r == private_line(line@, kind@),
{
    let text = trim_start(line);
    if !starts_with(text, "private ") {
        return false;
    }
    let list = split_words(text);
    for i in 0..list.len()
        invariant
            text@ == bare_start(line@),
            begins(text@, "private "@),
            strs(list@) == words(text@),
            forall|j: int| 0 <= j < i ==> (#[trigger] strs(list@)[j]) != kind@,
    {
        assert(strs(list@)[i as int] == list@[i as int]@);
        if same(list[i], kind) {
            return true;
        }
    }
    assert(strs(list@).len() == list.len());
    false
}

/// Decides [`private_entry`].
pub fn source_entry_is_private(entry: &SourceEntry) -> (r: bool)
    ensures
        r == private_entry(entry@),
{
    let list = lines(entry.body.as_str());
    for i in 0..list.len()
        invariant
            strs(list@) == line_list(entry.body@),
            forall|j: int| 0 <= j < i ==> !private_line(#[trigger] strs(list@)[j], entry.kind@),
    {
        assert(line_list(entry@.body)[i as int] == list@[i as int]@);
        if is_private_line(list[i], entry.kind.as_str()) {
            return true;
        }
    }
    assert(strs(list@).len() == list.len());
    false
}

/// The total length in bytes of the tokens that a text holds, as far as it can be
/// counted.
pub open spec fn matched_bytes(text: Seq<char>, tokens: Seq<Seq<char>>) -> usize
    decreases tokens.len(),
{
    if tokens.len() == 0 {
        0
    } else {
        let before = matched_bytes(text, tokens.drop_last());
        if !has_text(text, tokens.last()) {
            before
        } else if before + byte_length(tokens.last()) > usize::MAX {
            usize::MAX
        } else {
            (before + byte_length(tokens.last())) as usize
        }
    }
}

/// How well an entry fits the tokens of a query.
pub fn submission_entry_score(entry: &SourceEntry, tokens: &Vec<String>) -> (r: usize)
    ensures
        r == matched_bytes(
            lowercased(entry.name@ + " "@ + entry.signature@ + " "@ + entry.docs@),
            strings(tokens@),
        ),
{
    let all = cat5(
        entry.name.as_str(),
        " ",
        entry.signature.as_str(),
        " ",
        entry.docs.as_str(),
    );
    let text = to_lowercase(all.as_str());
    let ghost views = strings(tokens@);
    let mut score: usize = 0;
    for i in 0..tokens.len()
        invariant
            views == strings(tokens@),
            score == matched_bytes(text@, views.take(i as int)),
    {
        proof {
            prefix_step(views, i as int);
        }
        assert(views[i as int] == tokens@[i as int]@);
        if contains(text.as_str(), tokens[i].as_str()) {
            score = score.saturating_add(tokens[i].as_str().len());
        }
    }
    proof {
        prefix_all(views);
    }
    score
}

} // verus!
