//! The constructors that the source of an inductive type declares.
use crate::text::class::Class;
use crate::text::make::{byte_length, cat3, join_strs, joined, own, strs, strs_push};
use crate::text::pieces::{first_word, line_list, lines, next_word};
use crate::text::scan::{
    after_prefix, bare, bare_start, begins, contains, cut, find_from_is_first, has_text,
    sans_prefix, split_once, starts_with, strip_prefix, trim, trim_end_of, trim_start,
    trim_start_of, trimmed_end, trimmed_start, trimming_shortens, without_prefix,
};
use vstd::prelude::*;

verus! {

broadcast use strs_push;

/// A constructor of an inductive type, with the number of lines from the head of the
/// declaration to its name.
#[derive(Debug)]
pub struct InductiveConstructor {
    pub name: String,
    pub signature: String,
    pub line_offset: u64,
}

/// The contents of an [`InductiveConstructor`].
pub struct ConstructorView {
    pub name: Seq<char>,
    pub signature: Seq<char>,
    pub line_offset: u64,
}

impl View for InductiveConstructor {
    type V = ConstructorView;

    open spec fn view(&self) -> ConstructorView {
        ConstructorView {
            name: self.name@,
            signature: self.signature@,
            line_offset: self.line_offset,
        }
    }
}

/// The contents of a list of constructors.
pub open spec fn constructor_views(list: Seq<InductiveConstructor>) -> Seq<ConstructorView> {
    list.map_values(|c: InductiveConstructor| c@)
}

proof fn constructor_views_push(list: Seq<InductiveConstructor>, c: InductiveConstructor)
    ensures
        constructor_views(list.push(c)) == constructor_views(list).push(c@),
{
    assert(constructor_views(list.push(c)) =~= constructor_views(list).push(c@));
}

/// How far a line is indented, in bytes.
pub open spec fn margin(line: Seq<char>) -> usize {
    let rest = byte_length(bare_start(line));
    if byte_length(line) >= rest {
        (byte_length(line) - rest) as usize
    } else {
        0
    }
}

/// Computes [`margin`].
pub fn line_margin(line: &str) -> (r: usize)
    ensures
        r == margin(line@),
{
    let whole = line.len();
    let rest = trim_start(line).len();
    if whole >= rest {
        whole - rest
    } else {
        0
    }
}

/// A line that begins a constructor.
pub open spec fn bar_line(line: Seq<char>) -> bool {
    begins(bare_start(line), "|"@)
}

fn is_bar_line(line: &str) -> (r: bool)
    ensures
        r == bar_line(line@),
{
    starts_with(trim_start(line), "|")
}

/// The first line from `i` on that begins an inductive declaration, or the first line
/// of all.
pub open spec fn inductive_line(list: Seq<Seq<char>>, i: int) -> int
    decreases list.len() - i,
{
    if i >= list.len() {
        0
    } else if begins(bare_start(list[i]), "inductive "@) {
        i
    } else {
        inductive_line(list, i + 1)
    }
}

fn find_inductive(list: &Vec<&str>) -> (r: usize)
    ensures
        r == inductive_line(strs(list@), 0),
        r < list.len() || r == 0,
{
    let ghost views = strs(list@);
    assert(views.len() == list.len());
    for i in 0..list.len()
        invariant
            views == strs(list@),
            views.len() == list.len(),
            inductive_line(views, 0) == inductive_line(views, i as int),
    {
        assert(views[i as int] == list@[i as int]@);
        if starts_with(trim_start(list[i]), "inductive ") {
            return i;
        }
    }
    0
}

/// The smallest margin of the lines from `from` up to `to` that begin a constructor.
pub open spec fn bar_margin(list: Seq<Seq<char>>, from: int, to: int) -> Option<usize>
    decreases to - from,
{
    if to <= from {
        None
    } else {
        let earlier = bar_margin(list, from, to - 1);
        if bar_line(list[to - 1]) && (earlier is None || margin(list[to - 1]) < earlier->0) {
            Some(margin(list[to - 1]))
        } else {
            earlier
        }
    }
}

fn find_bar_margin(list: &Vec<&str>, from: usize) -> (r: Option<usize>)
    requires
        from <= list.len(),
    ensures
        r == bar_margin(strs(list@), from as int, list.len() as int),
{
    let ghost views = strs(list@);
    let mut least: Option<usize> = None;
    for i in from..list.len()
        invariant
            from <= list.len(),
            views == strs(list@),
            least == bar_margin(views, from as int, i as int),
    {
        assert(views[i as int] == list@[i as int]@);
        if is_bar_line(list[i]) {
            let here = line_margin(list[i]);
            least = match least {
                Some(m) => if here < m {
                    Some(here)
                } else {
                    Some(m)
                },
                None => Some(here),
            };
        }
    }
    least
}

/// The lines from `from` up to `to` that begin a constructor at a margin.
pub open spec fn bar_lines(list: Seq<Seq<char>>, m: usize, from: int, to: int) -> Seq<int>
    decreases to - from,
{
    if to <= from {
        Seq::empty()
    } else if bar_line(list[to - 1]) && margin(list[to - 1]) == m {
        bar_lines(list, m, from, to - 1).push(to - 1)
    } else {
        bar_lines(list, m, from, to - 1)
    }
}

/// Every constructor begins at a line of its own, in the order of the lines.
pub proof fn constructors_begin_in_order(
    list: Seq<Seq<char>>,
    m: usize,
    from: int,
    to: int,
    i: int,
    j: int,
)
    requires
        0 <= i < j < bar_lines(list, m, from, to).len(),
    ensures
        from <= bar_lines(list, m, from, to)[i] < bar_lines(list, m, from, to)[j] < to,
    decreases to - from,
{
    if to > from {
        bar_lines_are_within(list, m, from, to - 1);
        if bar_line(list[to - 1]) && margin(list[to - 1]) == m {
            if j < bar_lines(list, m, from, to - 1).len() {
                constructors_begin_in_order(list, m, from, to - 1, i, j);
            }
        } else {
            constructors_begin_in_order(list, m, from, to - 1, i, j);
        }
    }
}

proof fn bar_lines_are_within(list: Seq<Seq<char>>, m: usize, from: int, to: int)
    ensures
        forall|k: int|
            0 <= k < bar_lines(list, m, from, to).len() ==> from <= (#[trigger] bar_lines(
                list,
                m,
                from,
                to,
            )[k]) < to,
    decreases to - from,
{
    if to > from {
        bar_lines_are_within(list, m, from, to - 1);
        let earlier = bar_lines(list, m, from, to - 1);
        assert forall|k: int| 0 <= k < bar_lines(list, m, from, to).len() implies from
            <= #[trigger] bar_lines(list, m, from, to)[k] < to by {
            if k < earlier.len() {
                assert(bar_lines(list, m, from, to)[k] == earlier[k]);
            }
        }
    }
}

/// The positions of a list of lines.
pub open spec fn line_numbers(list: Seq<usize>) -> Seq<int> {
    list.map_values(|n: usize| n as int)
}

fn find_bar_lines(list: &Vec<&str>, m: usize, from: usize) -> (r: Vec<usize>)
    requires
        from <= list.len(),
    ensures
        line_numbers(r@) == bar_lines(strs(list@), m, from as int, list.len() as int),
{
    let ghost views = strs(list@);
    let mut out: Vec<usize> = Vec::new();
    assert(line_numbers(out@) =~= Seq::<int>::empty());
    for i in from..list.len()
        invariant
            from <= list.len(),
            views == strs(list@),
            line_numbers(out@) == bar_lines(views, m, from as int, i as int),
    {
        assert(views[i as int] == list@[i as int]@);
        if is_bar_line(list[i]) && line_margin(list[i]) == m {
            let ghost before = out@;
            out.push(i);
            assert(line_numbers(out@) =~= line_numbers(before).push(i as int));
        }
    }
    out
}

/// What follows the comments at the head of a text, and whether a comment is left open
/// at its end.
pub open spec fn past_comments(rest: Seq<char>, in_comment: bool) -> (Seq<char>, bool)
    decreases rest.len(),
{
    if in_comment || begins(rest, "/-"@) {
        match cut(rest, "-/"@) {
            Some((_, after)) => {
                proof {
                    find_from_is_first(rest, "-/"@, 0);
                    reveal_strlit("-/");
                    trimming_shortens(after, Class::Space);
                }
                past_comments(bare_start(after), false)
            },
            None => (Seq::empty(), true),
        }
    } else {
        (rest, false)
    }
}

fn skip_comments<'a>(rest: &'a str, in_comment: bool) -> (r: (&'a str, bool))
    ensures
        (r.0@, r.1) == past_comments(rest@, in_comment),
    decreases rest@.len(),
{
    if in_comment || starts_with(rest, "/-") {
        match split_once(rest, "-/") {
            Some((_, after)) => {
                proof {
                    find_from_is_first(rest@, "-/"@, 0);
                    reveal_strlit("-/");
                    trimming_shortens(after@, Class::Space);
                }
                skip_comments(trim_start(after), false)
            },
            None => {
                proof {
                    reveal_strlit("");
                    assert(""@ =~= Seq::<char>::empty());
                }
                ("", true)
            },
        }
    } else {
        (rest, false)
    }
}

/// A line behind which a constructor does not go on.
pub open spec fn ends_constructor(line: Seq<char>, m: usize) -> bool {
    let head = bare_start(line);
    margin(line) <= m && head.len() > 0 && !begins(head, "/-"@) && !begins(head, "--"@)
}

/// The text of the constructor that begins at line `start`, from line `k` on, with the
/// line of its name.
pub open spec fn constructor_text(
    list: Seq<Seq<char>>,
    start: int,
    end: int,
    m: usize,
    k: int,
    content: Seq<Seq<char>>,
    in_comment: bool,
    name_line: int,
) -> (Seq<Seq<char>>, int)
    decreases end - k,
{
    if k >= end || (k > start && !in_comment && ends_constructor(list[k], m)) {
        (content, name_line)
    } else {
        let (rest, open) = past_comments(
            if k == start {
                bare_start(sans_prefix(bare_start(list[k]), "|"@))
            } else {
                bare(list[k])
            },
            in_comment,
        );
        if rest.len() > 0 && !begins(rest, "--"@) {
            constructor_text(
                list,
                start,
                end,
                m,
                k + 1,
                content.push(rest),
                open,
                if content.len() == 0 {
                    k
                } else {
                    name_line
                },
            )
        } else {
            constructor_text(list, start, end, m, k + 1, content, open, name_line)
        }
    }
}

fn read_constructor<'a>(list: &Vec<&'a str>, start: usize, end: usize, m: usize) -> (r: (
    Vec<&'a str>,
    usize,
))
    requires
        start <= end <= list.len(),
    ensures
        (strs(r.0@), r.1 as int) == constructor_text(
            strs(list@),
            start as int,
            end as int,
            m,
            start as int,
            Seq::empty(),
            false,
            start as int,
        ),
        start <= r.1 <= end,
{
    let ghost views = strs(list@);
    let ghost whole = constructor_text(
        views,
        start as int,
        end as int,
        m,
        start as int,
        Seq::empty(),
        false,
        start as int,
    );
    let mut content: Vec<&'a str> = Vec::new();
    assert(strs(content@) =~= Seq::<Seq<char>>::empty());
    let mut in_comment = false;
    let mut name_line: usize = start;
    let mut k: usize = start;
    while k < end
        invariant
            start <= k <= end <= list.len(),
            start <= name_line <= k,
            views == strs(list@),
            whole == constructor_text(
                views,
                start as int,
                end as int,
                m,
                k as int,
                strs(content@),
                in_comment,
                name_line as int,
            ),
        ensures
            whole == (strs(content@), name_line as int),
            start <= name_line <= end,
        decreases end - k,
    {
        assert(views[k as int] == list@[k as int]@);
        assert(strs(content@).len() == content.len());
        let head = trim_start(list[k]);
        if k > start && !in_comment && line_margin(list[k]) <= m && !head.is_empty()
            && !starts_with(head, "/-") && !starts_with(head, "--") {
            break;
        }
        let found = skip_comments(
            if k == start {
                trim_start(without_prefix(head, "|"))
            } else {
                trim(list[k])
            },
            in_comment,
        );
        let rest = found.0;
        in_comment = found.1;
        if !rest.is_empty() && !starts_with(rest, "--") {
            if content.len() == 0 {
                name_line = k;
            }
            content.push(rest);
        }
        k += 1;
    }
    (content, name_line)
}

/// The constructor that a text declares.
pub open spec fn constructor_of(
    name: Seq<char>,
    text: Seq<char>,
    line_offset: u64,
) -> Option<ConstructorView> {
    match first_word(text) {
        None => None,
        Some(word) => {
            let leaf = trimmed_end(word, Class::Is(':'));
            if leaf.len() == 0 {
                None
            } else {
                Some(
                    ConstructorView {
                        name: if has_text(leaf, "."@) {
                            leaf
                        } else {
                            name + "."@ + leaf
                        },
                        signature: match after_prefix(text, leaf) {
                            Some(rest) => bare(trimmed_start(bare(rest), Class::Is(':'))),
                            None => Seq::empty(),
                        },
                        line_offset,
                    },
                )
            }
        },
    }
}

/// The view of an optional constructor.
pub open spec fn opt_constructor(c: Option<InductiveConstructor>) -> Option<ConstructorView> {
    match c {
        Some(v) => Some(v@),
        None => None,
    }
}

fn make_constructor(name: &str, text: &str, line_offset: u64) -> (r: Option<InductiveConstructor>)
    ensures
        opt_constructor(r) == constructor_of(name@, text@, line_offset),
{
    let Some(word) = next_word(text) else {
        return None;
    };
    let leaf = trim_end_of(word, Class::Is(':'));
    if leaf.is_empty() {
        return None;
    }
    let signature = match strip_prefix(text, leaf) {
        Some(rest) => own(trim(trim_start_of(trim(rest), Class::Is(':')))),
        None => String::new(),
    };
    let full = if contains(leaf, ".") {
        own(leaf)
    } else {
        cat3(name, ".", leaf)
    };
    Some(InductiveConstructor { name: full, signature, line_offset })
}

/// The constructors that begin at the first `n` of some lines.
pub open spec fn constructors_at(
    name: Seq<char>,
    list: Seq<Seq<char>>,
    starts: Seq<int>,
    m: usize,
    declaration: int,
    n: nat,
) -> Seq<ConstructorView>
    decreases n,
{
    if n == 0 {
        Seq::empty()
    } else {
        let earlier = constructors_at(name, list, starts, m, declaration, (n - 1) as nat);
        let start = starts[n - 1];
        let end = if n < starts.len() {
            starts[n as int]
        } else {
            list.len() as int
        };
        let (content, name_line) = constructor_text(
            list,
            start,
            end,
            m,
            start,
            Seq::empty(),
            false,
            start,
        );
        match constructor_of(name, joined(content, " "@), (name_line - declaration) as u64) {
            Some(c) => earlier.push(c),
            None => earlier,
        }
    }
}

/// The constructors of the inductive type that a source declares.
pub open spec fn constructors_of(name: Seq<char>, source: Seq<char>) -> Seq<ConstructorView> {
    let list = line_list(source);
    let declaration = inductive_line(list, 0);
    match bar_margin(list, declaration + 1, list.len() as int) {
        None => Seq::empty(),
        Some(m) => {
            let starts = bar_lines(list, m, declaration + 1, list.len() as int);
            constructors_at(name, list, starts, m, declaration, starts.len())
        },
    }
}

/// Computes [`constructors_of`].
pub fn inductive_constructors(name: &str, source: &str) -> (r: Vec<InductiveConstructor>)
    ensures
        constructor_views(r@) == constructors_of(name@, source@),
{
    let list = lines(source);
    let ghost views = strs(list@);
    assert(views.len() == list.len());
    let mut out: Vec<InductiveConstructor> = Vec::new();
    assert(constructor_views(out@) =~= Seq::<ConstructorView>::empty());
    let declaration = find_inductive(&list);
    if list.len() == 0 {
        return out;
    }
    let Some(m) = find_bar_margin(&list, declaration + 1) else {
        return out;
    };
    let starts = find_bar_lines(&list, m, declaration + 1);
    let ghost places = line_numbers(starts@);
    proof {
        bar_lines_are_within(views, m, declaration + 1, list.len() as int);
    }
    for i in 0..starts.len()
        invariant
            views == strs(list@),
            views.len() == list.len(),
            places == line_numbers(starts@),
            places == bar_lines(views, m, declaration + 1, list.len() as int),
            forall|k: int|
                0 <= k < places.len() ==> declaration + 1 <= (#[trigger] places[k]) < list.len(),
            constructor_views(out@) == constructors_at(
                name@,
                views,
                places,
                m,
                declaration as int,
                i as nat,
            ),
    {
        assert(places[i as int] == starts@[i as int]);
        let start = starts[i];
        if i + 1 < starts.len() {
            proof {
                assert(places[i + 1] == starts@[i + 1]);
                constructors_begin_in_order(
                    views,
                    m,
                    declaration + 1,
                    list.len() as int,
                    i as int,
                    i + 1,
                );
            }
        }
        let end = if i + 1 < starts.len() {
            starts[i + 1]
        } else {
            list.len()
        };
        let (content, name_line) = read_constructor(&list, start, end, m);
        let text = join_strs(&content, " ");
        if let Some(c) = make_constructor(name, text.as_str(), (name_line - declaration) as u64) {
            let ghost before = out@;
            out.push(c);
            proof {
                constructor_views_push(before, c);
            }
        }
    }
    out
}

} // verus!
