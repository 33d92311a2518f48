//! Pasted fragments of Lean: balanced delimiters outside string literals.
use crate::failure::{refuse, unit_view, Failure};
use crate::text::make::{cat2, cat5, prefix_all, prefix_step, push_str};
use vstd::prelude::*;

verus! {

/// Where a scan of a fragment stands with respect to string literals.
#[derive(Clone, Copy, PartialEq, Eq, Structural)]
pub enum Quoting {
    Outside,
    Inside,
    Escaped,
}

/// Whether the end of `text` lies in a string literal.
pub open spec fn quoting(text: Seq<char>) -> Quoting
    decreases text.len(),
{
    if text.len() == 0 {
        Quoting::Outside
    } else {
        quoting_step(quoting(text.drop_last()), text.last())
    }
}

/// How one more character changes [`quoting`].
pub open spec fn quoting_step(before: Quoting, c: char) -> Quoting {
    match before {
        Quoting::Escaped => Quoting::Inside,
        Quoting::Inside => if c == '\\' {
            Quoting::Escaped
        } else if c == '"' {
            Quoting::Outside
        } else {
            Quoting::Inside
        },
        Quoting::Outside => if c == '"' {
            Quoting::Inside
        } else {
            Quoting::Outside
        },
    }
}

/// An opening delimiter.
pub open spec fn opener(c: char) -> bool {
    c == '(' || c == '[' || c == '{'
}

/// A closing delimiter.
pub open spec fn closer(c: char) -> bool {
    c == ')' || c == ']' || c == '}'
}

/// The opening delimiter that a closing one answers.
pub open spec fn mate(c: char) -> char {
    if c == ')' {
        '('
    } else if c == ']' {
        '['
    } else {
        '{'
    }
}

/// How one more character outside a string literal changes the open delimiters.
pub open spec fn pending_step(open: Seq<char>, c: char) -> Result<Seq<char>, char> {
    if opener(c) {
        Ok(open.push(c))
    } else if closer(c) {
        if open.len() > 0 && open.last() == mate(c) {
            Ok(open.drop_last())
        } else {
            Err(c)
        }
    } else {
        Ok(open)
    }
}

/// The delimiters that `text` leaves open, or the first closing one without a mate.
/// Delimiters in string literals do not count.
pub open spec fn pending(text: Seq<char>) -> Result<Seq<char>, char>
    decreases text.len(),
{
    if text.len() == 0 {
        Ok(Seq::empty())
    } else {
        match pending(text.drop_last()) {
            Err(c) => Err(c),
            Ok(open) => if quoting(text.drop_last()) == Quoting::Outside {
                pending_step(open, text.last())
            } else {
                Ok(open)
            },
        }
    }
}

/// A fragment that closes what it opens and ends outside a string literal.
pub open spec fn balanced(text: Seq<char>) -> bool {
    pending(text) == Ok::<Seq<char>, char>(Seq::empty()) && quoting(text) == Quoting::Outside
}

/// What every complaint about a fragment ends with.
pub open spec fn fragment_hint(fragment: Seq<char>) -> Seq<char> {
    "; try `type:"@ + fragment
        + "` for a type fragment or `FILE:LINE`/`FILE:START-END` for source code context"@
}

/// What is wrong with a fragment: first a closing delimiter without a mate, then a
/// string literal without end, then a delimiter left open.
pub open spec fn fragment_check(fragment: Seq<char>, form: Seq<char>) -> Result<(), Seq<char>> {
    match pending(fragment) {
        Err(c) => Err(
            "malformed "@ + form + " fragment: unmatched `"@ + seq![c] + "`"@ + fragment_hint(
                fragment,
            ),
        ),
        Ok(open) => if quoting(fragment) != Quoting::Outside {
            Err(
                "malformed "@ + form + " fragment: unterminated string literal"@ + fragment_hint(
                    fragment,
                ),
            )
        } else if open.len() > 0 {
            Err(
                "malformed "@ + form + " fragment: unmatched delimiter"@ + fragment_hint(fragment),
            )
        } else {
            Ok(())
        },
    }
}

fn hint(fragment: &str) -> (r: String)
    ensures
        r@ == fragment_hint(fragment@),
{
    let mut out = cat2("; try `type:", fragment);
    push_str(
        &mut out,
        "` for a type fragment or `FILE:LINE`/`FILE:START-END` for source code context",
    );
    out
}

/// Computes [`fragment_check`].
pub fn validate_balanced_fragment_with_hint(fragment: &str, form: &str) -> (r: Result<(), Failure>)
    ensures
        unit_view(r) == fragment_check(fragment@, form@),
{
    let mut open: Vec<char> = Vec::new();
    let mut state = Quoting::Outside;
    let mut fault: Option<char> = None;
    for c in it: fragment.chars()
        invariant
            it.seq() == fragment@,
            state == quoting(fragment@.take(it.index() as int)),
            match fault {
                Some(c) => pending(fragment@.take(it.index() as int)) == Err::<Seq<char>, char>(c),
                None => pending(fragment@.take(it.index() as int)) == Ok::<Seq<char>, char>(open@),
            },
    {
        proof {
            prefix_step(fragment@, it.index() as int);
        }
        if fault.is_none() && state == Quoting::Outside {
            if c == '(' || c == '[' || c == '{' {
                open.push(c);
            } else if c == ')' || c == ']' || c == '}' {
                let expected: char = if c == ')' {
                    '('
                } else if c == ']' {
                    '['
                } else {
                    '{'
                };
                if open.len() > 0 && open[open.len() - 1] == expected {
                    let ghost before = open@;
                    let _ = open.pop();
                    assert(open@ =~= before.drop_last());
                } else {
                    fault = Some(c);
                }
            }
        }
        state = match state {
            Quoting::Escaped => Quoting::Inside,
            Quoting::Inside => if c == '\\' {
                Quoting::Escaped
            } else if c == '"' {
                Quoting::Outside
            } else {
                Quoting::Inside
            },
            Quoting::Outside => if c == '"' {
                Quoting::Inside
            } else {
                Quoting::Outside
            },
        };
    }
    proof {
        prefix_all(fragment@);
    }
    match fault {
        Some(c) => {
            let mut mark = String::new();
            mark.push(c);
            assert(mark@ =~= seq![c]);
            let mut out = cat5("malformed ", form, " fragment: unmatched `", mark.as_str(), "`");
            push_str(&mut out, hint(fragment).as_str());
            refuse(out.as_str())
        },
        None => {
            if state != Quoting::Outside {
                let mut out = cat2("malformed ", form);
                push_str(&mut out, " fragment: unterminated string literal");
                push_str(&mut out, hint(fragment).as_str());
                return refuse(out.as_str());
            }
            if open.len() > 0 {
                let mut out = cat2("malformed ", form);
                push_str(&mut out, " fragment: unmatched delimiter");
                push_str(&mut out, hint(fragment).as_str());
                return refuse(out.as_str());
            }
            Ok(())
        },
    }
}

/// Checks a fragment of a query.
pub fn validate_balanced_fragment(query: &str) -> (r: Result<(), Failure>)
    ensures
        unit_view(r) == fragment_check(query@, "search"@),
{
    validate_balanced_fragment_with_hint(query, "search")
}

/// A fragment passes exactly where it is balanced.
pub proof fn accepted_iff_balanced(fragment: Seq<char>, form: Seq<char>)
    ensures
        fragment_check(fragment, form) is Ok <==> balanced(fragment),
{
    if fragment_check(fragment, form) is Ok {
        assert(pending(fragment)->Ok_0 =~= Seq::empty());
    }
}

proof fn pending_after(a: Seq<char>, b: Seq<char>, open: Seq<char>)
    requires
        quoting(a) == Quoting::Outside,
        pending(a) == Ok::<Seq<char>, char>(open),
        pending(b) is Ok,
    ensures
        quoting(a + b) == quoting(b),
        pending(a + b) == Ok::<Seq<char>, char>(open + pending(b)->Ok_0),
    decreases b.len(),
{
    if b.len() == 0 {
        assert(a + b =~= a);
        assert(open + Seq::<char>::empty() =~= open);
    } else {
        pending_after(a, b.drop_last(), open);
        assert((a + b).drop_last() =~= a + b.drop_last());
        assert((a + b).last() == b.last());
        let inner = pending(b.drop_last())->Ok_0;
        let c = b.last();
        if quoting(b.drop_last()) == Quoting::Outside {
            if opener(c) {
                assert((open + inner).push(c) =~= open + inner.push(c));
            } else if closer(c) {
                assert((open + inner).drop_last() =~= open + inner.drop_last());
            }
        }
    }
}

/// Two balanced fragments one after another are balanced.
pub proof fn balanced_concatenation(a: Seq<char>, b: Seq<char>)
    requires
        balanced(a),
        balanced(b),
    ensures
        balanced(a + b),
{
    pending_after(a, b, Seq::empty());
    assert(Seq::<char>::empty() + Seq::<char>::empty() =~= Seq::<char>::empty());
}

/// A balanced fragment stays balanced between a pair of delimiters.
pub proof fn balanced_nesting(a: Seq<char>, c: char)
    requires
        balanced(a),
        closer(c),
    ensures
        balanced(seq![mate(c)] + a + seq![c]),
{
    let front = seq![mate(c)];
    assert(front.drop_last() =~= Seq::<char>::empty());
    assert(pending(Seq::<char>::empty()) == Ok::<Seq<char>, char>(Seq::empty()));
    assert(quoting(Seq::<char>::empty()) == Quoting::Outside);
    assert(Seq::<char>::empty().push(mate(c)) =~= front);
    assert(pending(front) == Ok::<Seq<char>, char>(front));
    assert(quoting(front) == Quoting::Outside);
    pending_after(front, a, front);
    assert(front + Seq::<char>::empty() =~= front);
    let whole = front + a + seq![c];
    assert(whole.drop_last() =~= front + a);
    assert(front.drop_last() =~= Seq::<char>::empty());
}

} // verus!
