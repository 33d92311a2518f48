//! How signatures, requests and keywords are taken apart, on every input.
use crate::search::contract::{
    bracket_end, enclosed, filled, leading_binders, nesting, outer_relation, paren_depth, wrapped,
};
use crate::search::request::{
    all_refusal, stray_directive, stripped_quotes, unknown_focus, ContextView,
};
use crate::search::warning::after_keyword;
use crate::text::chain::{label_begins, part_ends};
use crate::text::pieces::words;
use crate::text::scan::{begins, ends, found_between, found_in_part, has_text};
use vstd::prelude::*;

verus! {

/// No bracket of any kind stands in a text.
pub open spec fn bracketless(text: Seq<char>) -> bool {
    forall|k: int|
        0 <= k < text.len() ==> {
            let c = #[trigger] text[k];
            c != '(' && c != ')' && c != '[' && c != ']' && c != '{' && c != '}' && c != '⦃' && c
                != '⦄'
        }
}

/// A character between two types or terms.
pub open spec fn between_terms(c: char) -> bool {
    c == '→' || c == '↔' || c == '≃' || c == '≅' || c == '↪' || c == '×' || c == '=' || c == '<'
        || c == '>'
}

/// Text without brackets changes no depth.
proof fn depth_stays(front: Seq<char>, text: Seq<char>)
    requires
        bracketless(text),
    ensures
        nesting(front + text) == nesting(front),
        paren_depth(front + text) == paren_depth(front),
    decreases text.len(),
{
    if text.len() == 0 {
        assert(front + text =~= front);
    } else {
        let last = text[text.len() - 1];
        assert((front + text).drop_last() =~= front + text.drop_last());
        assert((front + text).last() == last);
        assert(bracketless(text.drop_last())) by {
            assert forall|k: int| 0 <= k < text.drop_last().len() implies {
                let c = #[trigger] text.drop_last()[k];
                c != '(' && c != ')' && c != '[' && c != ']' && c != '{' && c != '}' && c != '⦃'
                    && c != '⦄'
            } by {
                assert(text.drop_last()[k] == text[k]);
            }
        }
        depth_stays(front, text.drop_last());
    }
}

/// The start of a text without brackets has none.
proof fn starts_bracketless(text: Seq<char>, k: int)
    requires
        bracketless(text),
        0 <= k <= text.len(),
    ensures
        bracketless(text.take(k)),
{
    assert forall|j: int| 0 <= j < text.take(k).len() implies {
        let c = #[trigger] text.take(k)[j];
        c != '(' && c != ')' && c != '[' && c != ']' && c != '{' && c != '}' && c != '⦃' && c != '⦄'
    } by {
        assert(text.take(k)[j] == text[j]);
    }
}

/// The search for the end of a bracket passes over what is no end.
proof fn end_is_first(text: Seq<char>, from: int, end: int)
    requires
        0 <= from <= end <= text.len(),
        forall|k: int|
            from <= k < end ==> !(k > 0 && (text[k - 1] == ')' || text[k - 1] == ']' || text[k - 1]
                == '}' || text[k - 1] == '⦄') && nesting(#[trigger] text.take(k)) == 0),
        bracket_end(text, end) == Some(end),
    ensures
        bracket_end(text, from) == Some(end),
    decreases end - from,
{
    if from < end {
        assert(!(from > 0 && (text[from - 1] == ')' || text[from - 1] == ']' || text[from - 1]
            == '}' || text[from - 1] == '⦄') && nesting(text.take(from)) == 0));
        end_is_first(text, from + 1, end);
    }
}

/// A binder runs from its opening bracket to the bracket that closes it, whatever kind the
/// two are, and is the first of those that a text begins with.
pub proof fn binders_end_where_they_close(
    open: char,
    inside: Seq<char>,
    close: char,
    rest: Seq<char>,
)
    requires
        open == '(' || open == '[' || open == '{' || open == '⦃',
        close == ')' || close == ']' || close == '}' || close == '⦄',
        bracketless(inside),
    ensures
        bracket_end(seq![open] + inside + seq![close] + rest, 0) == Some(inside.len() + 2int),
        leading_binders(seq![open] + inside + seq![close] + rest).len() > 0,
        leading_binders(seq![open] + inside + seq![close] + rest)[0] == seq![open] + inside + seq![
            close,
        ],
{
    let text = seq![open] + inside + seq![close] + rest;
    let n = inside.len() as int;
    assert(nesting(seq![open]) == 1) by {
        assert(seq![open].drop_last() =~= Seq::<char>::empty());
        assert(nesting(seq![open].drop_last()) == 0);
    }
    assert forall|k: int| 0 <= k < n + 2 implies !(k > 0 && (text[k - 1] == ')' || text[k - 1]
        == ']' || text[k - 1] == '}' || text[k - 1] == '⦄') && nesting(#[trigger] text.take(k))
        == 0) by {
        if k > 0 {
            assert(text.take(k) =~= seq![open] + inside.take(k - 1));
            starts_bracketless(inside, k - 1);
            depth_stays(seq![open], inside.take(k - 1));
        }
    }
    let whole = seq![open] + inside + seq![close];
    assert(text.take(n + 2) =~= whole);
    assert(whole.drop_last() =~= seq![open] + inside);
    depth_stays(seq![open], inside);
    assert(nesting(whole) == 0);
    assert(text[n + 1] == close);
    assert(bracket_end(text, n + 2) == Some(n + 2));
    end_is_first(text, 0, n + 2);
    assert(text[0] == open);
}

/// One pair of round brackets encloses a text that it stands around, and not one that goes
/// on after it is closed.
pub proof fn one_pair_encloses(inside: Seq<char>, rest: Seq<char>)
    requires
        bracketless(inside),
    ensures
        enclosed("("@ + inside + ")"@),
        rest.len() > 0 ==> !enclosed("("@ + inside + ")"@ + rest),
        !enclosed(inside),
{
    reveal_strlit("(");
    reveal_strlit(")");
    let n = inside.len() as int;
    let text = "("@ + inside + ")"@;
    assert("("@ =~= seq!['(']);
    assert(paren_depth("("@) == 1) by {
        assert("("@.drop_last() =~= Seq::<char>::empty());
        assert(paren_depth("("@.drop_last()) == 0);
    }
    assert forall|k: int| 0 < k < text.len() implies paren_depth(#[trigger] text.take(k)) != 0 by {
        assert(text.take(k) =~= "("@ + inside.take(k - 1));
        starts_bracketless(inside, k - 1);
        depth_stays("("@, inside.take(k - 1));
    }
    assert(text[0] == '(');
    assert(text.last() == ')');
    if rest.len() > 0 {
        let longer = text + rest;
        assert(longer.take(n + 2) =~= text);
        assert(text.drop_last() =~= "("@ + inside);
        depth_stays("("@, inside);
        assert(paren_depth(text) == 0);
    }
}

/// A relation between terms counts where it stands outside brackets, and not inside them.
pub proof fn relations_count_outside_brackets(left: Seq<char>, symbol: char, right: Seq<char>)
    requires
        bracketless(left),
        bracketless(right),
        between_terms(symbol),
    ensures
        outer_relation(left + seq![symbol] + right),
        !outer_relation("("@ + left + seq![symbol] + right + ")"@),
{
    reveal_strlit("(");
    reveal_strlit(")");
    let n = left.len() as int;
    let open = left + seq![symbol] + right;
    assert(open.take(n) =~= Seq::<char>::empty() + left);
    depth_stays(Seq::empty(), left);
    assert(open[n] == symbol);
    let inside = left + seq![symbol] + right;
    assert(bracketless(inside)) by {
        assert forall|k: int| 0 <= k < inside.len() implies {
            let c = #[trigger] inside[k];
            c != '(' && c != ')' && c != '[' && c != ']' && c != '{' && c != '}' && c != '⦃' && c
                != '⦄'
        } by {
            if k < n {
                assert(inside[k] == left[k]);
            } else if k > n {
                assert(inside[k] == right[k - n - 1]);
            }
        }
    }
    let closed = "("@ + left + seq![symbol] + right + ")"@;
    assert(closed =~= "("@ + inside + ")"@);
    assert(nesting("("@) == 1) by {
        assert("("@.drop_last() =~= Seq::<char>::empty());
        assert(nesting("("@.drop_last()) == 0);
    }
    assert forall|i: int|
        0 <= i < closed.len() && between_terms(#[trigger] closed[i]) implies nesting(closed.take(i))
        != 0 by {
        if i > 0 && i <= inside.len() {
            assert(closed.take(i) =~= "("@ + inside.take(i - 1));
            starts_bracketless(inside, i - 1);
            depth_stays("("@, inside.take(i - 1));
        }
    }
}

/// A word more goes onto the line that is being filled, unless the line would become longer
/// than 180 characters: then that line is finished as it is, and the word opens the next
/// one behind two spaces.
pub proof fn lines_break_where_they_are_full(label: Seq<char>, list: Seq<Seq<char>>, word: Seq<char>)
    ensures
        filled(label, Seq::empty()) == (Seq::<char>::empty(), label),
        filled(label, list).1.len() + 1 + word.len() > 180 ==> filled(label, list.push(word)) == (
            filled(label, list).0 + filled(label, list).1 + "\n"@,
            "  "@ + word,
        ),
        filled(label, list).1.len() + 1 + word.len() <= 180 ==> {
            &&& filled(label, list.push(word)).0 == filled(label, list).0
            &&& ends(filled(label, list.push(word)).1, word)
            &&& begins(filled(label, list.push(word)).1, filled(label, list).1)
            &&& filled(label, list.push(word)).1.len() <= 180
        },
{
    reveal_strlit("  ");
    reveal_strlit(" ");
    let (done, line) = filled(label, list);
    assert(list.push(word).drop_last() =~= list);
    assert("  "@.skip(1) =~= " "@);
    assert(ends("  "@, " "@));
    if line.len() + 1 + word.len() <= 180 {
        if ends(line, " "@) {
            label_begins(line, word);
            part_ends(line, word);
        } else {
            label_begins(line + " "@, word);
            part_ends(line + " "@, word);
            assert((line + " "@ + word).take(line.len() as int) =~= line);
        }
    }
}

/// The label begins what is filled.
proof fn label_stays(label: Seq<char>, list: Seq<Seq<char>>)
    ensures
        begins(filled(label, list).0 + filled(label, list).1, label),
    decreases list.len(),
{
    reveal_strlit(" ");
    let (done, line) = filled(label, list);
    if list.len() == 0 {
        assert(done + line =~= label);
        assert(label.take(label.len() as int) =~= label);
    } else {
        label_stays(label, list.drop_last());
        let (before, started) = filled(label, list.drop_last());
        let n = label.len() as int;
        let short = before + started;
        assert((done + line).len() >= n);
        assert((done + line).take(n) =~= short.take(n));
    }
}

/// Each word stands in what is filled.
proof fn words_stay(label: Seq<char>, list: Seq<Seq<char>>, i: int)
    requires
        0 <= i < list.len(),
    ensures
        has_text(filled(label, list).0 + filled(label, list).1, list[i]),
    decreases list.len(),
{
    let (done, line) = filled(label, list);
    let (before, started) = filled(label, list.drop_last());
    let word = list.last();
    if i == list.len() - 1 {
        let n = line.len() - word.len();
        assert(line.skip(n) =~= word);
        let front = done + line.take(n);
        found_between(front, word, Seq::empty());
        assert(front + word + Seq::<char>::empty() =~= done + line);
    } else {
        words_stay(label, list.drop_last(), i);
        let short = before + started;
        let tail = (done + line).skip(short.len() as int);
        found_in_part(Seq::empty(), short, tail, list[i]);
        assert(Seq::<char>::empty() + short + tail =~= done + line);
    }
}

/// A text in lines begins with its label, ends its last line and keeps every word.
pub proof fn lines_keep_every_word(label: Seq<char>, text: Seq<char>, i: int)
    ensures
        begins(wrapped(label, text), label),
        ends(wrapped(label, text), "\n"@),
        0 <= i < words(text).len() ==> has_text(wrapped(label, text), words(text)[i]),
{
    let (done, line) = filled(label, words(text));
    label_stays(label, words(text));
    assert(wrapped(label, text).take(label.len() as int) =~= (done + line).take(
        label.len() as int,
    ));
    part_ends(done + line, "\n"@);
    if 0 <= i < words(text).len() {
        words_stay(label, words(text), i);
        found_in_part(Seq::empty(), done + line, "\n"@, words(text)[i]);
        assert(Seq::<char>::empty() + (done + line) + "\n"@ =~= wrapped(label, text));
    }
}

/// A Lean command is astray where it is not the first word, and the first such is told.
pub proof fn commands_after_the_first_word_stray(list: Seq<Seq<char>>)
    ensures
        match stray_directive(list) {
            Some(word) => {
                &&& word == "#check"@ || word == "#synth"@ || word == "#reduce"@
                &&& exists|i: int|
                    1 <= i < list.len() && stripped_quotes(#[trigger] list[i]) == word
                        && forall|k: int|
                        1 <= k < i ==> stripped_quotes(#[trigger] list[k]) != "#check"@
                            && stripped_quotes(list[k]) != "#synth"@ && stripped_quotes(list[k])
                            != "#reduce"@
            },
            None => forall|k: int|
                1 <= k < list.len() ==> stripped_quotes(#[trigger] list[k]) != "#check"@
                    && stripped_quotes(list[k]) != "#synth"@ && stripped_quotes(list[k])
                    != "#reduce"@,
        },
    decreases list.len(),
{
    if list.len() > 1 {
        let short = list.drop_last();
        commands_after_the_first_word_stray(short);
        assert forall|k: int| 0 <= k < short.len() implies short[k] == list[k] by {}
        match stray_directive(short) {
            Some(word) => {
                let i = choose|i: int|
                    1 <= i < short.len() && stripped_quotes(#[trigger] short[i]) == word
                        && forall|k: int|
                        1 <= k < i ==> stripped_quotes(#[trigger] short[k]) != "#check"@
                            && stripped_quotes(short[k]) != "#synth"@ && stripped_quotes(short[k])
                            != "#reduce"@;
                assert(stripped_quotes(list[i]) == word);
                assert forall|k: int| 1 <= k < i implies stripped_quotes(#[trigger] list[k])
                    != "#check"@ && stripped_quotes(list[k]) != "#synth"@ && stripped_quotes(
                    list[k],
                ) != "#reduce"@ by {
                    assert(short[k] == list[k]);
                }
            },
            None => {
                let n = list.len() - 1;
                assert(list[n] == list.last());
                assert forall|k: int| 1 <= k < n implies stripped_quotes(#[trigger] list[k])
                    != "#check"@ && stripped_quotes(list[k]) != "#synth"@ && stripped_quotes(
                    list[k],
                ) != "#reduce"@ by {
                    assert(short[k] == list[k]);
                }
            },
        }
    }
}

/// A refused focus is answered with what to ask instead, under the name that was asked for.
pub proof fn refused_focuses_are_answered(name: Seq<char>, requested: Seq<char>)
    ensures
        unknown_focus(name, "type"@) == "declaration types use `probe "@ + name + " signature`"@,
        unknown_focus(name, "body"@) == "declaration body uses `search '"@ + name + " body'`"@,
        unknown_focus(name, "proof"@) == "declaration proof uses `search '"@ + name + " proof'`"@,
        unknown_focus(name, "context"@)
            == "Lean context requires an exact position; use `probe FILE:LINE goal` or `probe FILE:LINE TERM`"@,
        requested != "type"@ && requested != "body"@ && requested != "proof"@ && requested
            != "context"@ ==> begins(
            unknown_focus(name, requested),
            "unknown declaration focus `"@ + requested + "`; try `probe "@ + name,
        ),
{
    reveal_strlit("type");
    reveal_strlit("body");
    reveal_strlit("proof");
    reveal_strlit("context");
    reveal_strlit("declaration ");
    reveal_strlit(" uses `search '");
    reveal_strlit(" ");
    reveal_strlit("'`");
    reveal_strlit("declaration body uses `search '");
    reveal_strlit("declaration proof uses `search '");
    reveal_strlit(" body'`");
    reveal_strlit(" proof'`");
    assert("type"@[0] == 't' && "body"@[0] == 'b' && "proof"@[0] == 'p' && "context"@[0] == 'c');
    assert(unknown_focus(name, "body"@) =~= "declaration body uses `search '"@ + name + " body'`"@);
    assert(unknown_focus(name, "proof"@) =~= "declaration proof uses `search '"@ + name
        + " proof'`"@);
    if requested != "type"@ && requested != "body"@ && requested != "proof"@ && requested
        != "context"@ {
        let front = "unknown declaration focus `"@ + requested + "`; try `probe "@ + name;
        let rest = " signature`, `probe "@ + name + " source`, or `probe "@ + name + " usages`"@;
        label_begins(front, rest);
        assert(unknown_focus(name, requested) =~= front + rest);
    }
}

/// A probe for everything is refused under the reference that it named.
pub proof fn probes_for_everything_are_refused(
    reference: Seq<char>,
    index: usize,
    context: Option<ContextView>,
)
    ensures
        begins(all_refusal(context), "probe --all is not valid here; "@),
        all_refusal(Some(ContextView::Check(reference)))
            == "probe --all is not valid here; use `mathmux probe "@ + reference
            + " goal|types|defeq|rewrite|profile`"@,
        all_refusal(Some(ContextView::Query(reference, index)))
            == "probe --all is not valid here; use `mathmux show "@ + reference
            + " --all` for stored results"@,
        all_refusal(None)
            == "probe --all is not valid here; use `mathmux probe NAME source` or `mathmux probe NAME usages`"@,
{
    let front = "probe --all is not valid here; "@;
    assert(all_refusal(context).take(front.len() as int) =~= front);
    reveal_strlit("probe --all is not valid here; ");
    reveal_strlit("use `mathmux probe ");
    reveal_strlit("use `mathmux show ");
    reveal_strlit("use `mathmux probe NAME source` or `mathmux probe NAME usages`");
    reveal_strlit("probe --all is not valid here; use `mathmux probe ");
    reveal_strlit("probe --all is not valid here; use `mathmux show ");
    reveal_strlit(
        "probe --all is not valid here; use `mathmux probe NAME source` or `mathmux probe NAME usages`",
    );
    assert(front + "use `mathmux probe "@
        =~= "probe --all is not valid here; use `mathmux probe "@);
    assert(front + "use `mathmux show "@ =~= "probe --all is not valid here; use `mathmux show "@);
    assert(all_refusal(Some(ContextView::Check(reference))) =~= front + "use `mathmux probe "@
        + reference + " goal|types|defeq|rewrite|profile`"@);
    assert(all_refusal(Some(ContextView::Query(reference, index))) =~= front
        + "use `mathmux show "@ + reference + " --all` for stored results"@);
    assert(all_refusal(None)
        =~= "probe --all is not valid here; use `mathmux probe NAME source` or `mathmux probe NAME usages`"@);
}

/// A text begins with what is put before it, and no text begins with what differs at a place.
proof fn keyword_follows(keyword: Seq<char>, rest: Seq<char>)
    ensures
        begins(keyword + rest, keyword),
        (keyword + rest).skip(keyword.len() as int) == rest,
{
    label_begins(keyword, rest);
    assert((keyword + rest).skip(keyword.len() as int) =~= rest);
}

proof fn keyword_differs(text: Seq<char>, keyword: Seq<char>, i: int)
    requires
        0 <= i < keyword.len(),
        i < text.len() ==> text[i] != keyword[i],
    ensures
        !begins(text, keyword),
{
    if begins(text, keyword) {
        assert(text.take(keyword.len() as int)[i] == keyword[i]);
    }
}

/// What follows each keyword of a named declaration is read, and a line that begins with
/// none of them names nothing.
pub proof fn keywords_are_followed_by_names(rest: Seq<char>, line: Seq<char>)
    ensures
        after_keyword("abbrev "@ + rest) == Some(rest),
        after_keyword("class "@ + rest) == Some(rest),
        after_keyword("def "@ + rest) == Some(rest),
        after_keyword("inductive "@ + rest) == Some(rest),
        after_keyword("instance "@ + rest) == Some(rest),
        after_keyword("lemma "@ + rest) == Some(rest),
        after_keyword("structure "@ + rest) == Some(rest),
        after_keyword("theorem "@ + rest) == Some(rest),
        !begins(line, "abbrev "@) && !begins(line, "class "@) && !begins(line, "def "@) && !begins(
            line,
            "inductive "@,
        ) && !begins(line, "instance "@) && !begins(line, "lemma "@) && !begins(line, "structure "@)
            && !begins(line, "theorem "@) ==> after_keyword(line) is None,
{
    reveal_strlit("abbrev ");
    reveal_strlit("class ");
    reveal_strlit("def ");
    reveal_strlit("inductive ");
    reveal_strlit("instance ");
    reveal_strlit("lemma ");
    reveal_strlit("structure ");
    reveal_strlit("theorem ");
    keyword_follows("abbrev "@, rest);
    keyword_follows("class "@, rest);
    keyword_follows("def "@, rest);
    keyword_follows("inductive "@, rest);
    keyword_follows("instance "@, rest);
    keyword_follows("lemma "@, rest);
    keyword_follows("structure "@, rest);
    keyword_follows("theorem "@, rest);
    keyword_differs("class "@ + rest, "abbrev "@, 0);
    let text = "def "@ + rest;
    keyword_differs(text, "abbrev "@, 0);
    keyword_differs(text, "class "@, 0);
    let text = "inductive "@ + rest;
    keyword_differs(text, "abbrev "@, 0);
    keyword_differs(text, "class "@, 0);
    keyword_differs(text, "def "@, 0);
    let text = "instance "@ + rest;
    keyword_differs(text, "abbrev "@, 0);
    keyword_differs(text, "class "@, 0);
    keyword_differs(text, "def "@, 0);
    keyword_differs(text, "inductive "@, 2);
    let text = "lemma "@ + rest;
    keyword_differs(text, "abbrev "@, 0);
    keyword_differs(text, "class "@, 0);
    keyword_differs(text, "def "@, 0);
    keyword_differs(text, "inductive "@, 0);
    keyword_differs(text, "instance "@, 0);
    let text = "structure "@ + rest;
    keyword_differs(text, "abbrev "@, 0);
    keyword_differs(text, "class "@, 0);
    keyword_differs(text, "def "@, 0);
    keyword_differs(text, "inductive "@, 0);
    keyword_differs(text, "instance "@, 0);
    keyword_differs(text, "lemma "@, 0);
    let text = "theorem "@ + rest;
    keyword_differs(text, "abbrev "@, 0);
    keyword_differs(text, "class "@, 0);
    keyword_differs(text, "def "@, 0);
    keyword_differs(text, "inductive "@, 0);
    keyword_differs(text, "instance "@, 0);
    keyword_differs(text, "lemma "@, 0);
    keyword_differs(text, "structure "@, 0);
}

} // verus!
