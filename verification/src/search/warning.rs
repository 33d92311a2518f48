//! Warnings of Lean: what kind they are, where they stand, and the dossier that an
//! agent reads about one.
use crate::path::{base_name, file_name};
use crate::search::patterns::{capture_groups, first_groups, group_views};
use crate::search::records::Diagnostic;
use crate::text::class::Class;
use crate::text::layout::{shortened, truncate_line};
use crate::text::make::{
    cat2, cat3, join_strs, joined, lower, own, prefix_all, prefix_step, push_str, same,
    strings_push, strs, strs_push, to_lower,
};
use crate::text::number::{decimal, number, pad, padded, parse_u64, show};
use crate::text::pieces::{line_list, lines, pieces, split};
use crate::text::scan::{
    after_prefix, bare, bare_end, bare_start, begins, blank, contains, ends, ends_with, has_text,
    is_blank, opt_str, opt_string, sans_prefixes, sans_suffix, starts_with, strip_prefix, trim,
    trim_end, trim_start, without_prefixes, without_suffix,
};
use vstd::prelude::*;

verus! {

broadcast use {strings_push, strs_push};

/// What is known about a kind of warning.
#[derive(Clone, Copy)]
pub struct WarningClassification {
    pub category: &'static str,
    pub risk: &'static str,
    pub mechanical: bool,
    pub guidance: &'static str,
}

/// The contents of a [`WarningClassification`].
pub struct WarningView {
    pub category: Seq<char>,
    pub risk: Seq<char>,
    pub mechanical: bool,
    pub guidance: Seq<char>,
}

impl View for WarningClassification {
    type V = WarningView;

    open spec fn view(&self) -> WarningView {
        WarningView {
            category: self.category@,
            risk: self.risk@,
            mechanical: self.mechanical,
            guidance: self.guidance@,
        }
    }
}

/// The kind of a warning, by what its text mentions.
pub open spec fn warning_kind(text: Seq<char>) -> WarningView {
    let t = lower(text);
    if has_text(t, "unused"@) && has_text(t, "simp"@) && has_text(t, "argument"@) {
        WarningView {
            category: "unused simp argument"@,
            risk: "mechanical"@,
            mechanical: true,
            guidance: "Handled by Lean automation's greedy remove-and-re-elaborate pass."@,
        }
    } else if has_text(t, "unnecessary"@) && has_text(t, "simpa"@) {
        WarningView {
            category: "unnecessary simpa"@,
            risk: "mechanical"@,
            mechanical: true,
            guidance: "Handled by Lean automation using the linter-indicated rewrite."@,
        }
    } else if (has_text(t, "havei"@) || has_text(t, "leti"@)) && (has_text(t, "have"@) || has_text(
        t,
        "let"@,
    )) {
        WarningView {
            category: "Prop-only local instance"@,
            risk: "mechanical"@,
            mechanical: true,
            guidance: "Handled by Lean automation from the typed tactic-mode hint."@,
        }
    } else if has_text(t, "automatically included section variable"@) {
        WarningView {
            category: "implicit section variable"@,
            risk: "high"@,
            mechanical: false,
            guidance: "Decide whether to omit the variable, make it explicit, or restructure the section; preserve named-argument and downstream API behavior."@,
        }
    } else if has_text(t, "unused variable"@) || has_text(t, "unused argument"@) {
        WarningView {
            category: "unused binder"@,
            risk: "high"@,
            mechanical: false,
            guidance: "Inspect whether the binder is public or used by downstream named arguments before removing or renaming it."@,
        }
    } else if has_text(t, "duplicate"@) && has_text(t, "instance"@) {
        WarningView {
            category: "duplicate instance"@,
            risk: "high"@,
            mechanical: false,
            guidance: "Compare priorities, scopes, and downstream inference before choosing which instance survives."@,
        }
    } else if has_text(t, "reducib"@) || (has_text(t, "class"@) && has_text(t, "should be"@)) {
        WarningView {
            category: "declaration design"@,
            risk: "high"@,
            mechanical: false,
            guidance: "Treat this as an API design decision; inspect downstream uses and typeclass inference before changing annotations or declaration kind."@,
        }
    } else if has_text(t, "deprecated"@) {
        WarningView {
            category: "deprecation"@,
            risk: "medium"@,
            mechanical: false,
            guidance: "Confirm the replacement has the same elaboration behavior in this context and update related uses as one packet."@,
        }
    } else if has_text(t, "seqfocus"@) || has_text(t, "seq_focus"@) || has_text(t, "no-op"@)
        || has_text(t, "unused tactic"@) || has_text(t, "unnecessary 'change'"@) || has_text(
        t,
        "unnecessary `change`"@,
    ) {
        WarningView {
            category: "local tactic cleanup"@,
            risk: "low"@,
            mechanical: false,
            guidance: "Simplify the local proof step, retaining the surrounding proof structure when the suggested replacement is unclear."@,
        }
    } else {
        WarningView {
            category: "warning requiring judgment"@,
            risk: "medium"@,
            mechanical: false,
            guidance: "Inspect the declaration and related uses, make the narrowest coherent edit, and verify the file."@,
        }
    }
}

/// Computes [`warning_kind`].
pub fn classify_warning(text: &str) -> (r: WarningClassification)
    ensures
        r@ == warning_kind(text@),
{
    let lowered = to_lower(text);
    let t = lowered.as_str();
    if contains(t, "unused") && contains(t, "simp") && contains(t, "argument") {
        return WarningClassification {
            category: "unused simp argument",
            risk: "mechanical",
            mechanical: true,
            guidance: "Handled by Lean automation's greedy remove-and-re-elaborate pass.",
        };
    }
    if contains(t, "unnecessary") && contains(t, "simpa") {
        return WarningClassification {
            category: "unnecessary simpa",
            risk: "mechanical",
            mechanical: true,
            guidance: "Handled by Lean automation using the linter-indicated rewrite.",
        };
    }
    if (contains(t, "havei") || contains(t, "leti")) && (contains(t, "have") || contains(t, "let")) {
        return WarningClassification {
            category: "Prop-only local instance",
            risk: "mechanical",
            mechanical: true,
            guidance: "Handled by Lean automation from the typed tactic-mode hint.",
        };
    }
    if contains(t, "automatically included section variable") {
        return WarningClassification {
            category: "implicit section variable",
            risk: "high",
            mechanical: false,
            guidance: "Decide whether to omit the variable, make it explicit, or restructure the section; preserve named-argument and downstream API behavior.",
        };
    }
    if contains(t, "unused variable") || contains(t, "unused argument") {
        return WarningClassification {
            category: "unused binder",
            risk: "high",
            mechanical: false,
            guidance: "Inspect whether the binder is public or used by downstream named arguments before removing or renaming it.",
        };
    }
    if contains(t, "duplicate") && contains(t, "instance") {
        return WarningClassification {
            category: "duplicate instance",
            risk: "high",
            mechanical: false,
            guidance: "Compare priorities, scopes, and downstream inference before choosing which instance survives.",
        };
    }
    if contains(t, "reducib") || (contains(t, "class") && contains(t, "should be")) {
        return WarningClassification {
            category: "declaration design",
            risk: "high",
            mechanical: false,
            guidance: "Treat this as an API design decision; inspect downstream uses and typeclass inference before changing annotations or declaration kind.",
        };
    }
    if contains(t, "deprecated") {
        return WarningClassification {
            category: "deprecation",
            risk: "medium",
            mechanical: false,
            guidance: "Confirm the replacement has the same elaboration behavior in this context and update related uses as one packet.",
        };
    }
    if contains(t, "seqfocus") || contains(t, "seq_focus") || contains(t, "no-op") || contains(
        t,
        "unused tactic",
    ) || contains(t, "unnecessary 'change'") || contains(t, "unnecessary `change`") {
        return WarningClassification {
            category: "local tactic cleanup",
            risk: "low",
            mechanical: false,
            guidance: "Simplify the local proof step, retaining the surrounding proof structure when the suggested replacement is unclear.",
        };
    }
    WarningClassification {
        category: "warning requiring judgment",
        risk: "medium",
        mechanical: false,
        guidance: "Inspect the declaration and related uses, make the narrowest coherent edit, and verify the file.",
    }
}

/// The order in which risks are listed.
pub open spec fn risk_order(risk: Seq<char>) -> u8 {
    if risk == "low"@ {
        0
    } else if risk == "medium"@ {
        1
    } else if risk == "high"@ {
        2
    } else {
        3
    }
}

/// Computes [`risk_order`].
pub fn risk_rank(risk: &str) -> (r: u8)
    ensures
        r == risk_order(risk@),
{
    if same(risk, "low") {
        0
    } else if same(risk, "medium") {
        1
    } else if same(risk, "high") {
        2
    } else {
        3
    }
}

/// The pattern of a location at the head of a warning.
pub open spec fn location_pattern() -> Seq<char> {
    "^(?P<path>.+?):(?P<line>[0-9]+)(?::(?P<column>[0-9]+))?(?::|$)"@
}

/// A number in a group of a match, or one.
pub open spec fn group_number(groups: Seq<Option<Seq<char>>>, i: int) -> u64 {
    if 0 <= i < groups.len() && groups[i] is Some {
        match number(groups[i]->0, u64::MAX as nat) {
            Some(n) => n as u64,
            None => 1,
        }
    } else {
        1
    }
}

/// The path, the line and the column that the groups of a location give.
pub open spec fn location_in(groups: Option<Seq<Option<Seq<char>>>>) -> (Option<Seq<char>>, u64, u64) {
    match groups {
        Some(g) => (
            if g.len() > 1 {
                g[1]
            } else {
                None
            },
            group_number(g, 2),
            group_number(g, 3),
        ),
        None => (None, 1, 1),
    }
}

/// The first line of a text, or none.
pub open spec fn first_line(text: Seq<char>) -> Option<Seq<char>> {
    if line_list(text).len() > 0 {
        Some(line_list(text)[0])
    } else {
        None
    }
}

/// Computes [`first_line`].
pub fn head_line<'a>(text: &'a str) -> (r: Option<&'a str>)
    ensures
        opt_str(r) == first_line(text@),
{
    let list = lines(text);
    assert(strs(list@).len() == list.len());
    if list.len() > 0 {
        assert(strs(list@)[0] == list[0]@);
        Some(list[0])
    } else {
        None
    }
}

/// Where a warning stands.
pub open spec fn warning_place(text: Seq<char>) -> (Option<Seq<char>>, u64, u64) {
    match first_line(text) {
        Some(line) => location_in(first_groups(location_pattern(), line)),
        None => (None, 1, 1),
    }
}

fn number_in(groups: &Vec<Option<String>>, i: usize) -> (r: u64)
    ensures
        r == group_number(group_views(groups@), i as int),
{
    assert(group_views(groups@).len() == groups.len());
    if i < groups.len() {
        assert(group_views(groups@)[i as int] == opt_string(groups@[i as int]));
        if let Some(text) = &groups[i] {
            if let Some(n) = parse_u64(text.as_str()) {
                return n;
            }
        }
    }
    1
}

/// Computes [`location_in`].
pub fn location_from_groups(groups: &Option<Vec<Option<String>>>) -> (r: (Option<String>, u64, u64))
    ensures
        (opt_string(r.0), r.1, r.2) == location_in(
            match *groups {
                Some(g) => Some(group_views(g@)),
                None => None,
            },
        ),
{
    match groups {
        Some(g) => {
            assert(group_views(g@).len() == g.len());
            let path = if g.len() > 1 {
                assert(group_views(g@)[1] == opt_string(g@[1]));
                crate::text::make::copy_opt(&g[1])
            } else {
                None
            };
            (path, number_in(g, 2), number_in(g, 3))
        },
        None => (None, 1, 1),
    }
}

/// Computes [`warning_place`].
pub fn warning_location(text: &str) -> (r: (Option<String>, u64, u64))
    ensures
        (opt_string(r.0), r.1, r.2) == warning_place(text@),
{
    match head_line(text) {
        Some(line) => location_from_groups(
            &capture_groups(
                "^(?P<path>.+?):(?P<line>[0-9]+)(?::(?P<column>[0-9]+))?(?::|$)",
                line,
            ),
        ),
        None => (None, 1, 1),
    }
}

/// `text` with every `from` replaced.
pub open spec fn replaced(text: Seq<char>, from: char, to: Seq<char>) -> Seq<char> {
    joined(pieces(text, Class::Is(from)), to)
}

/// Computes [`replaced`].
pub fn replace_char(text: &str, from: char, to: &str) -> (r: String)
    ensures
        r@ == replaced(text@, from, to@),
{
    join_strs(&split(text, Class::Is(from)), to)
}

/// The module that a file of the project is compiled as.
pub open spec fn module_of_file(target: Seq<char>) -> Seq<char> {
    replaced(sans_suffix(target, ".lean"@), '/', "."@)
}

/// A path that a message reports stands for the file `target`.
pub open spec fn path_reported(reported: Seq<char>, target: Seq<char>) -> bool {
    let r = sans_prefixes(reported, "./"@);
    let t = sans_prefixes(target, "./"@);
    r == t || ends(r, "/"@ + t) || r == module_of_file(t) || base_name(r) == base_name(t)
}

/// Decides [`path_reported`].
pub fn diagnostic_path_matches(reported: &str, target: &str) -> (r: bool)
    ensures
        r == path_reported(reported@, target@),
{
    proof {
        reveal_strlit("./");
    }
    let reported = without_prefixes(reported, "./");
    let target = without_prefixes(target, "./");
    if same(reported, target) {
        return true;
    }
    if ends_with(reported, cat2("/", target).as_str()) {
        return true;
    }
    let module = replace_char(without_suffix(target, ".lean"), '/', ".");
    if same(reported, module.as_str()) {
        return true;
    }
    match (file_name(reported), file_name(target)) {
        (Some(a), Some(b)) => same(a, b),
        (None, None) => true,
        _ => false,
    }
}

/// What follows the third colon, where a line has one.
pub open spec fn after_third_colon(line: Seq<char>) -> Option<Seq<char>> {
    let parts = pieces(line, Class::Is(':'));
    if parts.len() > 3 {
        Some(joined(parts.skip(3), ":"@))
    } else {
        None
    }
}

fn past_third_colon(line: &str) -> (r: Option<String>)
    ensures
        opt_string(r) == after_third_colon(line@),
{
    let parts = split(line, Class::Is(':'));
    let ghost views = strs(parts@);
    assert(views.len() == parts.len());
    if parts.len() > 3 {
        let mut rest: Vec<&str> = Vec::new();
        for i in 3..parts.len()
            invariant
                views == strs(parts@),
                strs(rest@) == views.skip(3).take(i - 3),
                parts.len() > 3,
        {
            proof {
                prefix_step(views.skip(3), i - 3);
            }
            rest.push(parts[i]);
        }
        proof {
            prefix_all(views.skip(3));
        }
        Some(join_strs(&rest, ":"))
    } else {
        None
    }
}

/// A warning in one short line.
pub open spec fn warning_headline(text: Seq<char>) -> Seq<char> {
    let first = match first_line(text) {
        Some(line) => line,
        None => text,
    };
    let message = if warning_place(first).0 is Some && after_third_colon(first) is Some {
        after_third_colon(first)->0
    } else {
        first
    };
    shortened(bare(sans_prefixes(bare(message), "warning:"@)), 100)
}

/// Computes [`warning_headline`].
pub fn warning_summary(text: &str) -> (r: String)
    ensures
        r@ == warning_headline(text@),
{
    let first = match head_line(text) {
        Some(line) => line,
        None => text,
    };
    let mut message = own(first);
    if warning_location(first).0.is_some() {
        if let Some(rest) = past_third_colon(first) {
            message = rest;
        }
    }
    proof {
        reveal_strlit("warning:");
    }
    let plain = trim(without_prefixes(trim(message.as_str()), "warning:"));
    truncate_line(plain, 100)
}

/// The declaration around a line of source.
#[derive(Debug)]
pub struct EnclosingDeclaration {
    pub name: String,
    pub header: String,
    pub public: bool,
}

/// The contents of an [`EnclosingDeclaration`].
pub struct EnclosingView {
    pub name: Seq<char>,
    pub header: Seq<char>,
    pub public: bool,
}

impl View for EnclosingDeclaration {
    type V = EnclosingView;

    open spec fn view(&self) -> EnclosingView {
        EnclosingView { name: self.name@, header: self.header@, public: self.public }
    }
}

/// A line without one modifier at its head.
pub open spec fn sans_modifier(line: Seq<char>, modifier: Seq<char>) -> Seq<char> {
    match after_prefix(line, modifier) {
        Some(rest) => bare_start(rest),
        None => line,
    }
}

fn without_modifier<'a>(line: &'a str, modifier: &str) -> (r: &'a str)
    ensures
        r@ == sans_modifier(line@, modifier@),
{
    match strip_prefix(line, modifier) {
        Some(rest) => trim_start(rest),
        None => line,
    }
}

/// A line without its indentation and modifiers.
pub open spec fn unmodified(line: Seq<char>) -> Seq<char> {
    sans_modifier(
        sans_modifier(
            sans_modifier(sans_modifier(bare_start(line), "private "@), "protected "@),
            "noncomputable "@,
        ),
        "unsafe "@,
    )
}

/// What follows the keyword of a named declaration.
pub open spec fn after_keyword(line: Seq<char>) -> Option<Seq<char>> {
    if begins(line, "abbrev "@) {
        after_prefix(line, "abbrev "@)
    } else if begins(line, "class "@) {
        after_prefix(line, "class "@)
    } else if begins(line, "def "@) {
        after_prefix(line, "def "@)
    } else if begins(line, "inductive "@) {
        after_prefix(line, "inductive "@)
    } else if begins(line, "instance "@) {
        after_prefix(line, "instance "@)
    } else if begins(line, "lemma "@) {
        after_prefix(line, "lemma "@)
    } else if begins(line, "structure "@) {
        after_prefix(line, "structure "@)
    } else {
        after_prefix(line, "theorem "@)
    }
}

fn past_keyword<'a>(line: &'a str) -> (r: Option<&'a str>)
    ensures
        opt_str(r) == after_keyword(line@),
{
    if let Some(rest) = strip_prefix(line, "abbrev ") {
        return Some(rest);
    }
    if let Some(rest) = strip_prefix(line, "class ") {
        return Some(rest);
    }
    if let Some(rest) = strip_prefix(line, "def ") {
        return Some(rest);
    }
    if let Some(rest) = strip_prefix(line, "inductive ") {
        return Some(rest);
    }
    if let Some(rest) = strip_prefix(line, "instance ") {
        return Some(rest);
    }
    if let Some(rest) = strip_prefix(line, "lemma ") {
        return Some(rest);
    }
    if let Some(rest) = strip_prefix(line, "structure ") {
        return Some(rest);
    }
    strip_prefix(line, "theorem ")
}

/// The name at the head of what follows a keyword.
pub open spec fn leading_name(rest: Seq<char>) -> Seq<char> {
    bare(pieces(rest, Class::SpaceOr("({[:="))[0])
}

/// Each line without its trailing white space.
pub open spec fn bare_ends(list: Seq<Seq<char>>) -> Seq<Seq<char>> {
    list.map_values(|l: Seq<char>| bare_end(l))
}

/// How many lines of a header are shown: at most six, none of them past line `before`.
pub open spec fn header_end(index: int, before: int) -> int {
    if index + 6 < before {
        index + 6
    } else {
        before
    }
}

/// What the line at `index` declares, where it is the head of a declaration. `before`
/// is the number of lines up to the one in question.
pub open spec fn declared_at(list: Seq<Seq<char>>, index: int, before: int) -> Option<EnclosingView> {
    let line = list[index];
    let candidate = unmodified(line);
    if begins(candidate, "example "@) {
        Some(EnclosingView { name: Seq::empty(), header: bare(line), public: false })
    } else {
        match after_keyword(candidate) {
            Some(rest) => if leading_name(rest).len() == 0 {
                Some(EnclosingView { name: Seq::empty(), header: bare(line), public: false })
            } else {
                Some(
                    EnclosingView {
                        name: leading_name(rest),
                        header: joined(
                            bare_ends(list.subrange(index, header_end(index, before))),
                            "\n"@,
                        ),
                        public: !begins(bare_start(line), "private "@),
                    },
                )
            },
            None => None,
        }
    }
}

/// The last declaration head among the first `i` lines.
pub open spec fn declared_before(list: Seq<Seq<char>>, i: int, before: int) -> Option<EnclosingView>
    decreases i,
{
    if i <= 0 {
        None
    } else {
        match declared_at(list, i - 1, before) {
            Some(found) => Some(found),
            None => declared_before(list, i - 1, before),
        }
    }
}

/// The smaller of two numbers.
pub open spec fn lesser(a: int, b: int) -> int {
    if a < b {
        a
    } else {
        b
    }
}

/// The declaration around line number `line`.
pub open spec fn enclosing(source: Seq<char>, line: nat) -> Option<EnclosingView> {
    let list = line_list(source);
    let before = lesser(line as int, list.len() as int);
    declared_before(list, before, before)
}

fn header_text(list: &Vec<&str>, index: usize, end: usize) -> (r: String)
    requires
        index <= end <= list.len(),
    ensures
        r@ == joined(bare_ends(strs(list@).subrange(index as int, end as int)), "\n"@),
{
    let ghost views = bare_ends(strs(list@).subrange(index as int, end as int));
    let mut out: Vec<&str> = Vec::new();
    for i in index..end
        invariant
            index <= end <= list.len(),
            views == bare_ends(strs(list@).subrange(index as int, end as int)),
            strs(out@) == views.take(i - index),
    {
        proof {
            prefix_step(views, i - index);
        }
        out.push(trim_end(list[i]));
    }
    proof {
        prefix_all(views);
    }
    join_strs(&out, "\n")
}

fn declared_on_line(list: &Vec<&str>, index: usize, before: usize) -> (r: Option<
    EnclosingDeclaration,
>)
    requires
        index < before <= list.len(),
    ensures
        match r {
            Some(found) => declared_at(strs(list@), index as int, before as int) == Some(found@),
            None => declared_at(strs(list@), index as int, before as int) is None,
        },
{
    let line = list[index];
    assert(strs(list@)[index as int] == line@);
    let start = trim_start(line);
    let candidate = without_modifier(
        without_modifier(
            without_modifier(without_modifier(start, "private "), "protected "),
            "noncomputable ",
        ),
        "unsafe ",
    );
    if starts_with(candidate, "example ") {
        return Some(
            EnclosingDeclaration { name: String::new(), header: own(trim(line)), public: false },
        );
    }
    match past_keyword(candidate) {
        Some(rest) => {
            let parts = split(rest, Class::SpaceOr("({[:="));
            assert(strs(parts@)[0] == parts[0]@);
            let name = trim(parts[0]);
            if name.is_empty() {
                return Some(
                    EnclosingDeclaration {
                        name: String::new(),
                        header: own(trim(line)),
                        public: false,
                    },
                );
            }
            let end = if before - index > 6 {
                index + 6
            } else {
                before
            };
            Some(
                EnclosingDeclaration {
                    name: own(name),
                    header: header_text(list, index, end),
                    public: !starts_with(start, "private "),
                },
            )
        },
        None => None,
    }
}

/// Computes [`enclosing`].
pub fn enclosing_declaration(source: &str, line: u64) -> (r: Option<EnclosingDeclaration>)
    ensures
        match r {
            Some(found) => enclosing(source@, line as nat) == Some(found@),
            None => enclosing(source@, line as nat) is None,
        },
{
    let list = lines(source);
    assert(strs(list@).len() == list.len());
    let before: usize = if line < list.len() as u64 {
        line as usize
    } else {
        list.len()
    };
    let mut i: usize = before;
    while i > 0
        invariant
            strs(list@) == line_list(source@),
            i <= before <= list.len(),
            before == lesser(line as int, list.len() as int),
            enclosing(source@, line as nat) == declared_before(
                strs(list@),
                i as int,
                before as int,
            ),
        decreases i,
    {
        if let Some(found) = declared_on_line(&list, i - 1, before) {
            return Some(found);
        }
        i -= 1;
    }
    None
}

/// The lines of a warning that say something about it.
pub open spec fn telling_lines(list: Seq<Seq<char>>) -> Seq<Seq<char>>
    decreases list.len(),
{
    if list.len() == 0 {
        Seq::empty()
    } else {
        let earlier = telling_lines(list.drop_last());
        let t = bare(list.last());
        if begins(t, "Note: This linter can be disabled with `set_option "@) || begins(
            t,
            "This linter can be disabled with `set_option "@,
        ) || (t.len() == 0 && earlier.len() > 0 && blank(earlier.last())) {
            earlier
        } else {
            earlier.push(list.last())
        }
    }
}

/// A list without the blank lines at its end.
pub open spec fn sans_blank_end(list: Seq<Seq<char>>) -> Seq<Seq<char>>
    decreases list.len(),
{
    if list.len() > 0 && blank(list.last()) {
        sans_blank_end(list.drop_last())
    } else {
        list
    }
}

/// A warning without the advice on how to silence it.
pub open spec fn telling_text(text: Seq<char>) -> Seq<char> {
    joined(sans_blank_end(telling_lines(line_list(text))), "\n"@)
}

/// Computes [`telling_text`].
pub fn warning_diagnostic_for_dossier(text: &str) -> (r: String)
    ensures
        r@ == telling_text(text@),
{
    let list = lines(text);
    let ghost views = strs(list@);
    let mut kept: Vec<&str> = Vec::new();
    for i in 0..list.len()
        invariant
            views == strs(list@),
            strs(kept@) == telling_lines(views.take(i as int)),
    {
        proof {
            prefix_step(views, i as int);
        }
        let line = list[i];
        assert(views[i as int] == line@);
        let t = trim(line);
        assert(strs(kept@).len() == kept.len());
        assert(kept.len() > 0 ==> strs(kept@).last() == kept@.last()@);
        if starts_with(t, "Note: This linter can be disabled with `set_option ") || starts_with(
            t,
            "This linter can be disabled with `set_option ",
        ) || (t.is_empty() && kept.len() > 0 && is_blank(kept[kept.len() - 1])) {
        } else {
            kept.push(line);
        }
    }
    proof {
        prefix_all(views);
    }
    let ghost before = strs(kept@);
    while kept.len() > 0 && is_blank(kept[kept.len() - 1])
        invariant
            sans_blank_end(strs(kept@)) == sans_blank_end(before),
        decreases kept.len(),
    {
        let ghost longer = kept@;
        assert(strs(longer).last() == longer.last()@);
        let _ = kept.pop();
        assert(strs(kept@) =~= strs(longer).drop_last());
    }
    assert(strs(kept@).len() == kept.len());
    assert(kept.len() > 0 ==> strs(kept@).last() == kept@.last()@);
    join_strs(&kept, "\n")
}

/// The lines of source around number `current`, the one itself marked.
pub open spec fn marked_lines(list: Seq<Seq<char>>, current: int, from: int, to: int) -> Seq<char>
    decreases to - from,
{
    if to <= from {
        Seq::empty()
    } else {
        marked_lines(list, current, from, to - 1) + "\n"@ + (if to - 1 == current {
            ">"@
        } else {
            " "@
        }) + " "@ + padded(to as nat, 4) + " | "@ + list[to - 1]
    }
}

/// The source around a line: two lines before it and two after.
pub open spec fn source_around(source: Seq<char>, line: nat) -> Seq<char> {
    let list = line_list(source);
    if list.len() == 0 {
        Seq::empty()
    } else {
        let current = lesser(
            if line > 0 {
                line - 1
            } else {
                0
            },
            list.len() - 1,
        );
        let start = if current < 2 {
            0
        } else {
            current - 2
        };
        let end = lesser(current + 3, list.len() as int);
        "\nsource context:"@ + marked_lines(list, current, start, end)
    }
}

fn render_source_around(source: &str, line: u64) -> (r: String)
    ensures
        r@ == source_around(source@, line as nat),
{
    let list = lines(source);
    let ghost views = line_list(source@);
    assert(views.len() == list.len());
    if list.len() == 0 {
        return String::new();
    }
    let wanted: u64 = if line > 0 {
        line - 1
    } else {
        0
    };
    let current: usize = if wanted < (list.len() - 1) as u64 {
        wanted as usize
    } else {
        list.len() - 1
    };
    let start: usize = if current < 2 {
        0
    } else {
        current - 2
    };
    let end: usize = if list.len() - current > 3 {
        current + 3
    } else {
        list.len()
    };
    let mut body = String::new();
    for i in start..end
        invariant
            start <= end <= list.len(),
            views == strs(list@),
            body@ == marked_lines(views, current as int, start as int, i as int),
    {
        assert(views[i as int] == list[i as int]@);
        push_str(&mut body, "\n");
        push_str(&mut body, if i == current { ">" } else { " " });
        push_str(&mut body, " ");
        push_str(&mut body, pad(i as u64 + 1, 4).as_str());
        push_str(&mut body, " | ");
        push_str(&mut body, list[i]);
    }
    cat2("\nsource context:", body.as_str())
}

/// What an agent reads about a warning.
pub open spec fn dossier(
    check_ref: Seq<char>,
    path: Seq<char>,
    line: nat,
    column: nat,
    kind: WarningView,
    text: Seq<char>,
    declaration: Option<EnclosingView>,
    source: Seq<char>,
) -> Seq<char> {
    "category: "@ + kind.category + "\nrisk: "@ + kind.risk + "\ncheck: "@ + check_ref
        + "\nlocation: "@ + path + ":"@ + decimal(line) + ":"@ + decimal(column)
        + "\ndiagnostic:\n"@ + telling_text(text) + (match declaration {
        Some(d) => "\nenclosing declaration ("@ + (if d.public {
            "public"@
        } else {
            "local/private"@
        }) + "):\n"@ + d.header,
        None => Seq::empty(),
    }) + source_around(source, line) + "\nassessment: "@ + kind.guidance
}

/// Computes [`dossier`].
pub fn warning_dossier(
    check_ref: &str,
    location: (&str, u64, u64),
    classification: &WarningClassification,
    diagnostic: &Diagnostic,
    declaration: Option<&EnclosingDeclaration>,
    source: &str,
) -> (r: String)
    ensures
        r@ == dossier(
            check_ref@,
            location.0@,
            location.1 as nat,
            location.2 as nat,
            classification@,
            diagnostic@.text,
            match declaration {
                Some(d) => Some(d@),
                None => None,
            },
            source@,
        ),
{
    let mut out = own("category: ");
    push_str(&mut out, classification.category);
    push_str(&mut out, "\nrisk: ");
    push_str(&mut out, classification.risk);
    push_str(&mut out, "\ncheck: ");
    push_str(&mut out, check_ref);
    push_str(&mut out, "\nlocation: ");
    push_str(&mut out, location.0);
    push_str(&mut out, ":");
    push_str(&mut out, show(location.1).as_str());
    push_str(&mut out, ":");
    push_str(&mut out, show(location.2).as_str());
    push_str(&mut out, "\ndiagnostic:\n");
    push_str(&mut out, warning_diagnostic_for_dossier(diagnostic.text.as_str()).as_str());
    let shown = match declaration {
        Some(d) => {
            let mut part = cat3(
                "\nenclosing declaration (",
                if d.public { "public" } else { "local/private" },
                "):\n",
            );
            push_str(&mut part, d.header.as_str());
            part
        },
        None => String::new(),
    };
    push_str(&mut out, shown.as_str());
    push_str(&mut out, render_source_around(source, location.1).as_str());
    push_str(&mut out, "\nassessment: ");
    push_str(&mut out, classification.guidance);
    out
}

} // verus!
