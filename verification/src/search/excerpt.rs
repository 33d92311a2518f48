//! The part of a source that is shown for a query.
use crate::search::limits::{DECLARATION_DETAIL_LINES, SOURCE_PREVIEW_LINES};
use crate::search::names::nonempty;
use crate::search::tokens::{leaf, leaf_of};
use crate::text::layout::{front, sublist, take_front};
use crate::text::make::{
    alike, cat3, cat5, join_strs, joined, lowercased, prefix_all, prefix_step, push_str, same,
    same_ignoring_case, strings, strings_push, strs, strs_push, to_lowercase,
};
use crate::text::number::{decimal, show_size};
use crate::text::pieces::{line_list, lines};
use crate::text::scan::{
    begins, blank, contains, cut, has_text, is_blank, opt_string, split_once, starts_with,
};
use vstd::prelude::*;

verus! {

broadcast use {strings_push, strs_push};

/// Lines in lower case.
pub open spec fn lowered(list: Seq<Seq<char>>) -> Seq<Seq<char>> {
    list.map_values(|l: Seq<char>| lowercased(l))
}

/// Computes [`lowered`].
pub fn lower_lines(list: &Vec<&str>) -> (r: Vec<String>)
    ensures
        strings(r@) == lowered(strs(list@)),
        r.len() == list.len(),
{
    let ghost wanted = lowered(strs(list@));
    let mut out: Vec<String> = Vec::new();
    assert(strings(out@) =~= wanted.take(0));
    for i in 0..list.len()
        invariant
            wanted == lowered(strs(list@)),
            out.len() == i,
            strings(out@) == wanted.take(i as int),
    {
        proof {
            prefix_step(wanted, i as int);
        }
        out.push(to_lowercase(list[i]));
    }
    proof {
        prefix_all(wanted);
    }
    out
}

/// Whether some line holds a token.
pub open spec fn in_lines(list: Seq<Seq<char>>, token: Seq<char>) -> bool {
    exists|i: int| 0 <= i < list.len() && has_text(#[trigger] list[i], token)
}

fn is_in_lines(list: &Vec<String>, from: usize, to: usize, token: &str) -> (r: bool)
    requires
        from <= to <= list.len(),
    ensures
        r == in_lines(strings(list@).subrange(from as int, to as int), token@),
{
    let ghost part = strings(list@).subrange(from as int, to as int);
    for i in from..to
        invariant
            from <= i,
            to <= list.len(),
            part == strings(list@).subrange(from as int, to as int),
            forall|j: int| 0 <= j < i - from ==> !has_text(#[trigger] part[j], token@),
    {
        assert(part[i - from] == list@[i as int]@);
        if contains(list[i].as_str(), token) {
            return true;
        }
    }
    false
}

/// How many tokens occur in some lines.
pub open spec fn found_count(list: Seq<Seq<char>>, tokens: Seq<Seq<char>>) -> nat
    decreases tokens.len(),
{
    if tokens.len() == 0 {
        0
    } else {
        found_count(list, tokens.drop_last()) + if in_lines(list, tokens.last()) {
            1nat
        } else {
            0nat
        }
    }
}

fn count_found(list: &Vec<String>, from: usize, to: usize, tokens: &Vec<String>) -> (r: usize)
    requires
        from <= to <= list.len(),
    ensures
        r == found_count(strings(list@).subrange(from as int, to as int), strings(tokens@)),
{
    let ghost part = strings(list@).subrange(from as int, to as int);
    let ghost views = strings(tokens@);
    let mut n: usize = 0;
    for i in 0..tokens.len()
        invariant
            from <= to <= list.len(),
            part == strings(list@).subrange(from as int, to as int),
            views == strings(tokens@),
            n <= i,
            n == found_count(part, views.take(i as int)),
    {
        proof {
            prefix_step(views, i as int);
        }
        if is_in_lines(list, from, to, tokens[i].as_str()) {
            n += 1;
        }
    }
    proof {
        prefix_all(views);
    }
    n
}

/// Whether a line holds some token.
pub open spec fn holds_any(line: Seq<char>, tokens: Seq<Seq<char>>) -> bool {
    exists|i: int| 0 <= i < tokens.len() && has_text(line, #[trigger] tokens[i])
}

/// Decides [`holds_any`].
pub fn has_any(line: &str, tokens: &Vec<String>) -> (r: bool)
    ensures
        r == holds_any(line@, strings(tokens@)),
{
    for i in 0..tokens.len()
        invariant
            forall|j: int| 0 <= j < i ==> !has_text(line@, #[trigger] strings(tokens@)[j]),
    {
        assert(strings(tokens@)[i as int] == tokens@[i as int]@);
        if contains(line, tokens[i].as_str()) {
            return true;
        }
    }
    false
}

/// The first line of a window around line `i`.
pub open spec fn window_start(i: int, before: int) -> int {
    if i < before {
        0
    } else {
        i - before
    }
}

/// The end of a window of `length` lines from line `start` on.
pub open spec fn window_end(count: int, start: int, length: int) -> int {
    if start + length < count {
        start + length
    } else {
        count
    }
}

fn end_of_window(count: usize, start: usize, length: usize) -> (r: usize)
    requires
        start <= count,
    ensures
        r == window_end(count as int, start as int, length as int),
        start <= r <= count,
{
    if length < count - start {
        start + length
    } else {
        count
    }
}

/// The first of the first `n` lines with the most tokens in the sixteen lines around
/// it, among those that hold a token, with the number of those tokens.
pub open spec fn best_of(low: Seq<Seq<char>>, tokens: Seq<Seq<char>>, n: nat) -> Option<(int, nat)>
    decreases n,
{
    if n == 0 {
        None
    } else {
        let best = best_of(low, tokens, (n - 1) as nat);
        let start = window_start(n - 1, 2);
        let score = found_count(
            low.subrange(start, window_end(low.len() as int, start, 16)),
            tokens,
        );
        if !holds_any(low[n - 1], tokens) {
            best
        } else if best is Some && score <= (best->0).1 {
            best
        } else {
            Some((n - 1, score))
        }
    }
}

/// The line around which the most tokens occur.
pub open spec fn best_line(list: Seq<Seq<char>>, tokens: Seq<Seq<char>>) -> Option<int> {
    match best_of(lowered(list), tokens, list.len()) {
        Some(best) => Some(best.0),
        None => None,
    }
}

/// A position as a mathematical number.
pub open spec fn opt_position(o: Option<usize>) -> Option<int> {
    match o {
        Some(i) => Some(i as int),
        None => None,
    }
}

/// Computes [`best_line`].
pub fn best_source_match(list: &Vec<&str>, tokens: &Vec<String>) -> (r: Option<usize>)
    ensures
        opt_position(r) == best_line(strs(list@), strings(tokens@)),
        r is Some ==> r->0 < list.len(),
{
    let low = lower_lines(list);
    let ghost views = strings(low@);
    let ghost wanted = strings(tokens@);
    let mut best: Option<(usize, usize)> = None;
    for i in 0..low.len()
        invariant
            views == strings(low@),
            wanted == strings(tokens@),
            match best {
                Some(b) => b.0 < i && best_of(views, wanted, i as nat) == Some(
                    (b.0 as int, b.1 as nat),
                ),
                None => best_of(views, wanted, i as nat) is None,
            },
    {
        assert(views[i as int] == low@[i as int]@);
        if has_any(low[i].as_str(), tokens) {
            let start = if i < 2 {
                0
            } else {
                i - 2
            };
            let end = end_of_window(low.len(), start, 16);
            let score = count_found(&low, start, end, tokens);
            let better = match best {
                Some((_, known)) => score > known,
                None => true,
            };
            if better {
                best = Some((i, score));
            }
        }
    }
    match best {
        Some((at, _)) => Some(at),
        None => None,
    }
}

/// The tokens that occur in none of some lines.
pub open spec fn uncovered(list: Seq<Seq<char>>, tokens: Seq<Seq<char>>) -> Seq<Seq<char>>
    decreases tokens.len(),
{
    if tokens.len() == 0 {
        Seq::empty()
    } else if in_lines(list, tokens.last()) {
        uncovered(list, tokens.drop_last())
    } else {
        uncovered(list, tokens.drop_last()).push(tokens.last())
    }
}

fn collect_uncovered(list: &Vec<String>, from: usize, to: usize, tokens: &Vec<String>) -> (r: Vec<
    String,
>)
    requires
        from <= to <= list.len(),
    ensures
        strings(r@) == uncovered(
            strings(list@).subrange(from as int, to as int),
            strings(tokens@),
        ),
{
    let ghost part = strings(list@).subrange(from as int, to as int);
    let ghost views = strings(tokens@);
    let mut out: Vec<String> = Vec::new();
    assert(strings(out@) =~= Seq::empty());
    for i in 0..tokens.len()
        invariant
            from <= to <= list.len(),
            part == strings(list@).subrange(from as int, to as int),
            views == strings(tokens@),
            strings(out@) == uncovered(part, views.take(i as int)),
    {
        proof {
            prefix_step(views, i as int);
        }
        if !is_in_lines(list, from, to, tokens[i].as_str()) {
            out.push(tokens[i].clone());
        }
    }
    proof {
        prefix_all(views);
    }
    out
}

/// A few lines around one, under the numbers of the first and the last.
pub open spec fn numbered_window(list: Seq<Seq<char>>, center: int, length: int) -> Seq<char> {
    let start = window_start(center, 1);
    let end = window_end(list.len() as int, start, length);
    "[lines "@ + decimal((start + 1) as nat) + "-"@ + decimal(end as nat) + "]\n"@ + joined(
        list.subrange(start, end),
        "\n"@,
    )
}

fn render_window(list: &Vec<&str>, center: usize, length: usize) -> (r: String)
    requires
        center < list.len(),
    ensures
        r@ == numbered_window(strs(list@), center as int, length as int),
{
    let start = if center < 1 {
        0
    } else {
        center - 1
    };
    let end = end_of_window(list.len(), start, length);
    let first = show_size(start + 1);
    let last = show_size(end);
    let mut out = cat5("[lines ", first.as_str(), "-", last.as_str(), "]\n");
    let text = join_strs(&sublist(list, start, end), "\n");
    push_str(&mut out, text.as_str());
    out
}

/// The smaller of two numbers.
pub open spec fn at_most(a: int, b: int) -> int {
    if a < b {
        a
    } else {
        b
    }
}

/// Two windows of a file: one around the first match, one around the best match for the
/// tokens that occur in no line near it.
pub open spec fn two_windows(
    list: Seq<Seq<char>>,
    tokens: Seq<Seq<char>>,
    primary: int,
    limit: int,
) -> Option<Seq<char>> {
    let shown = at_most(limit, SOURCE_PREVIEW_LINES as int);
    let start = window_start(primary, 2);
    let end = window_end(list.len() as int, start, shown);
    let rest = uncovered(lowered(list).subrange(start, end), tokens);
    match best_line(list, rest) {
        Some(second) => if shown < 8 || tokens.len() < 2 || start <= second < end {
            None
        } else {
            Some(
                numbered_window(list, primary, (shown - 3) / 2) + "\n…\n"@ + numbered_window(
                    list,
                    second,
                    (shown - 3) / 2,
                ),
            )
        },
        None => None,
    }
}

/// Computes [`two_windows`].
pub fn dispersed_file_excerpt(
    list: &Vec<&str>,
    tokens: &Vec<String>,
    primary: usize,
    line_limit: usize,
) -> (r: Option<String>)
    requires
        primary < list.len(),
    ensures
        opt_string(r) == two_windows(
            strs(list@),
            strings(tokens@),
            primary as int,
            line_limit as int,
        ),
{
    let shown = if line_limit < SOURCE_PREVIEW_LINES {
        line_limit
    } else {
        SOURCE_PREVIEW_LINES
    };
    assert(strings(tokens@).len() == tokens.len());
    if shown < 8 || tokens.len() < 2 {
        return None;
    }
    let low = lower_lines(list);
    let start = if primary < 2 {
        0
    } else {
        primary - 2
    };
    let end = end_of_window(low.len(), start, shown);
    let rest = collect_uncovered(&low, start, end, tokens);
    let second = best_source_match(list, &rest)?;
    if start <= second && second < end {
        return None;
    }
    let first = render_window(list, primary, (shown - 3) / 2);
    let other = render_window(list, second, (shown - 3) / 2);
    Some(cat3(first.as_str(), "\n…\n", other.as_str()))
}

/// The first line from `i` on that holds a text, or the number of lines.
pub open spec fn first_holding(low: Seq<Seq<char>>, text: Seq<char>, i: int) -> int
    decreases low.len() - i,
{
    if i >= low.len() || has_text(low[i], text) {
        i
    } else {
        first_holding(low, text, i + 1)
    }
}

/// The line of a source that matches a query best.
pub open spec fn matched_line(
    list: Seq<Seq<char>>,
    query: Seq<char>,
    tokens: Seq<Seq<char>>,
) -> int {
    let whole = first_holding(lowered(list), lowercased(query), 0);
    if whole < list.len() {
        whole
    } else {
        match best_line(list, tokens) {
            Some(i) => i,
            None => 0,
        }
    }
}

fn find_matched(list: &Vec<&str>, query: &str, tokens: &Vec<String>) -> (r: usize)
    ensures
        r == matched_line(strs(list@), query@, strings(tokens@)),
        list.len() > 0 ==> r < list.len(),
{
    let low = lower_lines(list);
    let q = to_lowercase(query);
    for i in 0..low.len()
        invariant
            q@ == lowercased(query@),
            low.len() == list.len(),
            strings(low@) == lowered(strs(list@)),
            first_holding(strings(low@), q@, 0) == first_holding(strings(low@), q@, i as int),
    {
        assert(strings(low@)[i as int] == low@[i as int]@);
        if contains(low[i].as_str(), q.as_str()) {
            return i;
        }
    }
    assert(strings(low@).len() == low.len());
    match best_source_match(list, tokens) {
        Some(i) => i,
        None => 0,
    }
}

/// A value unless it is blank.
pub open spec fn unless_blank(text: Seq<char>) -> Option<Seq<char>> {
    if blank(text) {
        None
    } else {
        Some(text)
    }
}

/// The lines of a source around what a query asks for, with the line that the result is
/// listed under: for a file the line of the match, else the line of the declaration.
pub open spec fn excerpt_of(
    source: Seq<char>,
    query: Seq<char>,
    tokens: Seq<Seq<char>>,
    declaration_line: u64,
    file_hit: bool,
    limit: int,
) -> (Option<Seq<char>>, u64) {
    let list = line_list(source);
    let at = matched_line(list, query, tokens);
    let start = window_start(at, 2);
    if blank(source) || list.len() == 0 {
        (None, declaration_line)
    } else if file_hit && two_windows(list, tokens, at, limit) is Some {
        (two_windows(list, tokens, at, limit), (at + 1) as u64)
    } else {
        (
            unless_blank(
                joined(list.subrange(start, window_end(list.len() as int, start, limit)), "\n"@),
            ),
            if file_hit {
                (at + 1) as u64
            } else {
                declaration_line
            },
        )
    }
}

/// Computes [`excerpt_of`].
pub fn source_excerpt_with_limit(
    source: &str,
    query: &str,
    tokens: &Vec<String>,
    declaration_line: u64,
    file_hit: bool,
    line_limit: usize,
) -> (r: (Option<String>, u64))
    ensures
        (opt_string(r.0), r.1) == excerpt_of(
            source@,
            query@,
            strings(tokens@),
            declaration_line,
            file_hit,
            line_limit as int,
        ),
{
    let list = lines(source);
    assert(strs(list@).len() == list.len());
    if is_blank(source) || list.len() == 0 {
        return (None, declaration_line);
    }
    let at = find_matched(&list, query, tokens);
    if file_hit {
        if let Some(text) = dispersed_file_excerpt(&list, tokens, at, line_limit) {
            return (Some(text), at as u64 + 1);
        }
    }
    let start = if at < 2 {
        0
    } else {
        at - 2
    };
    let end = end_of_window(list.len(), start, line_limit);
    let excerpt = join_strs(&sublist(&list, start, end), "\n");
    let line = if file_hit {
        at as u64 + 1
    } else {
        declaration_line
    };
    (nonempty(excerpt), line)
}

/// A text up to the first occurrence of another.
pub open spec fn before_text(text: Seq<char>, mark: Seq<char>) -> Seq<char> {
    match cut(text, mark) {
        Some(sides) => sides.0,
        None => text,
    }
}

/// Computes [`before_text`].
pub fn up_to_text<'a>(text: &'a str, mark: &str) -> (r: &'a str)
    ensures
        r@ == before_text(text@, mark@),
{
    match split_once(text, mark) {
        Some(sides) => sides.0,
        None => text,
    }
}

/// The first lines of a text.
pub open spec fn head_of(text: Seq<char>, count: int) -> Seq<char> {
    joined(front(line_list(text), count), "\n"@)
}

/// Computes [`head_of`].
pub fn first_lines(text: &str, count: usize) -> (r: String)
    ensures
        r@ == head_of(text@, count as int),
{
    join_strs(&take_front(&lines(text), count), "\n")
}

/// The tokens other than two texts.
pub open spec fn other_tokens(tokens: Seq<Seq<char>>, a: Seq<char>, b: Seq<char>) -> Seq<Seq<char>>
    decreases tokens.len(),
{
    if tokens.len() == 0 {
        Seq::empty()
    } else if tokens.last() == a || tokens.last() == b {
        other_tokens(tokens.drop_last(), a, b)
    } else {
        other_tokens(tokens.drop_last(), a, b).push(tokens.last())
    }
}

fn drop_tokens(tokens: &Vec<String>, a: &str, b: &str) -> (r: Vec<String>)
    ensures
        strings(r@) == other_tokens(strings(tokens@), a@, b@),
{
    let ghost views = strings(tokens@);
    let mut out: Vec<String> = Vec::new();
    assert(strings(out@) =~= Seq::empty());
    for i in 0..tokens.len()
        invariant
            views == strings(tokens@),
            strings(out@) == other_tokens(views.take(i as int), a@, b@),
    {
        proof {
            prefix_step(views, i as int);
        }
        if !(same(tokens[i].as_str(), a) || same(tokens[i].as_str(), b)) {
            out.push(tokens[i].clone());
        }
    }
    proof {
        prefix_all(views);
    }
    out
}

/// A kind of declaration that is shown from its start.
pub open spec fn type_kind(kind: Seq<char>) -> bool {
    kind == "class"@ || kind == "inductive"@ || kind == "structure"@
}

/// Decides [`type_kind`].
pub fn is_type_kind(kind: &str) -> (r: bool)
    ensures
        r == type_kind(kind@),
{
    same(kind, "class") || same(kind, "inductive") || same(kind, "structure")
}

/// The part of an entry of the index that is shown for a query, with its line. A type and
/// a list of imports are shown from their start, and so is a declaration that is asked
/// for by its name; else the lines around the best match are shown.
pub open spec fn detail_of(
    body: Seq<char>,
    query: Seq<char>,
    tokens: Seq<Seq<char>>,
    declaration_line: u64,
    kind: Seq<char>,
    name: Seq<char>,
) -> (Option<Seq<char>>, u64) {
    let low = lowercased(name);
    let focused = other_tokens(tokens, low, leaf(low));
    let used = if focused.len() == 0 || best_line(line_list(body), focused) is None {
        tokens
    } else {
        focused
    };
    if type_kind(kind) {
        (
            unless_blank(
                head_of(
                    before_text(before_text(body, "\n\n/--"@), "\n\n/-!"@),
                    DECLARATION_DETAIL_LINES as int,
                ),
            ),
            declaration_line,
        )
    } else if kind == "imports"@ {
        (unless_blank(head_of(body, 64)), declaration_line)
    } else if begins(body, "-- ambient context"@) && (alike(query, low) || alike(query, leaf(low))) {
        (unless_blank(head_of(body, DECLARATION_DETAIL_LINES as int)), declaration_line)
    } else {
        excerpt_of(
            body,
            query,
            used,
            declaration_line,
            kind == "file"@,
            DECLARATION_DETAIL_LINES as int,
        )
    }
}

/// Computes [`detail_of`].
pub fn detailed_source_excerpt(
    body: &str,
    query: &str,
    tokens: &Vec<String>,
    declaration_line: u64,
    kind: &str,
    name: &str,
) -> (r: (Option<String>, u64))
    ensures
        (opt_string(r.0), r.1) == detail_of(
            body@,
            query@,
            strings(tokens@),
            declaration_line,
            kind@,
            name@,
        ),
{
    if is_type_kind(kind) {
        let declaration = up_to_text(up_to_text(body, "\n\n/--"), "\n\n/-!");
        return (nonempty(first_lines(declaration, DECLARATION_DETAIL_LINES)), declaration_line);
    }
    if same(kind, "imports") {
        return (nonempty(first_lines(body, 64)), declaration_line);
    }
    let low = to_lowercase(name);
    let leaf_name = leaf_of(low.as_str());
    if starts_with(body, "-- ambient context") && (same_ignoring_case(query, low.as_str())
        || same_ignoring_case(query, leaf_name)) {
        return (nonempty(first_lines(body, DECLARATION_DETAIL_LINES)), declaration_line);
    }
    let focused = drop_tokens(tokens, low.as_str(), leaf_name);
    assert(strings(focused@).len() == focused.len());
    let plain = focused.len() == 0 || best_source_match(&lines(body), &focused).is_none();
    source_excerpt_with_limit(
        body,
        query,
        if plain {
            tokens
        } else {
            &focused
        },
        declaration_line,
        same(kind, "file"),
        DECLARATION_DETAIL_LINES,
    )
}

/// How many tokens occur in the sixteen lines around a line.
pub open spec fn count_around(low: Seq<Seq<char>>, tokens: Seq<Seq<char>>, i: int) -> nat {
    let start = window_start(i, 2);
    found_count(low.subrange(start, window_end(low.len() as int, start, 16)), tokens)
}

proof fn best_of_is_best(low: Seq<Seq<char>>, tokens: Seq<Seq<char>>, n: nat)
    requires
        n <= low.len(),
    ensures
        match best_of(low, tokens, n) {
            Some(best) => 0 <= best.0 < n && holds_any(low[best.0], tokens) && best.1
                == count_around(low, tokens, best.0) && forall|i: int|
                0 <= i < n && holds_any(#[trigger] low[i], tokens) ==> count_around(low, tokens, i)
                    <= best.1 && (i < best.0 ==> count_around(low, tokens, i) < best.1),
            None => forall|i: int| 0 <= i < n ==> !holds_any(#[trigger] low[i], tokens),
        },
    decreases n,
{
    if n > 0 {
        best_of_is_best(low, tokens, (n - 1) as nat);
    }
}

/// A line is found exactly where some line holds a token. It holds one itself, no other
/// such line has more tokens around it, and none before it has as many.
pub proof fn best_line_is_best(list: Seq<Seq<char>>, tokens: Seq<Seq<char>>)
    ensures
        match best_line(list, tokens) {
            Some(k) => 0 <= k < list.len() && holds_any(lowered(list)[k], tokens) && forall|i: int|
                0 <= i < list.len() && holds_any(#[trigger] lowered(list)[i], tokens)
                    ==> {
                    let count = count_around(lowered(list), tokens, i);
                    let best = count_around(lowered(list), tokens, k);
                    count <= best && (i < k ==> count < best)
                },
            None => forall|i: int|
                0 <= i < list.len() ==> !holds_any(#[trigger] lowered(list)[i], tokens),
        },
{
    best_of_is_best(lowered(list), tokens, list.len());
}

} // verus!
