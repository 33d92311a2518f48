//! Building text.
use vstd::prelude::*;

verus! {

/// `String::push` appends one character.
pub assume_specification[ String::push ](s: &mut String, c: char)
    ensures
        final(s)@ == old(s)@.push(c),
;

/// `str` equality compares the characters.
#[verifier::external_body]
pub(crate) fn same(a: &str, b: &str) -> (r: bool)
    ensures
        r == (a@ == b@),
{
    a == b
}

/// The characters of `text`.
pub fn to_chars(text: &str) -> (r: Vec<char>)
    ensures
        r@ == text@,
{
    let mut out: Vec<char> = Vec::new();
    for c in it: text.chars()
        invariant
            out@ == text@.take(it.index() as int),
            it.seq() == text@,
    {
        out.push(c);
    }
    out
}

/// The text with the given characters.
pub fn from_chars(chars: &Vec<char>) -> (r: String)
    ensures
        r@ == chars@,
{
    let mut out = String::new();
    for i in 0..chars.len()
        invariant
            out@ == chars@.take(i as int),
    {
        out.push(chars[i]);
    }
    assert(chars@.take(chars.len() as int) == chars@);
    out
}

/// A copy of `text`.
pub fn own(text: &str) -> (r: String)
    ensures
        r@ == text@,
{
    text.to_owned()
}

pub fn cat2(a: &str, b: &str) -> (r: String)
    ensures
        r@ == a@ + b@,
{
    a.to_owned().concat(b)
}

pub fn cat3(a: &str, b: &str, c: &str) -> (r: String)
    ensures
        r@ == a@ + b@ + c@,
{
    a.to_owned().concat(b).concat(c)
}

pub fn cat4(a: &str, b: &str, c: &str, d: &str) -> (r: String)
    ensures
        r@ == a@ + b@ + c@ + d@,
{
    a.to_owned().concat(b).concat(c).concat(d)
}

pub fn cat5(a: &str, b: &str, c: &str, d: &str, e: &str) -> (r: String)
    ensures
        r@ == a@ + b@ + c@ + d@ + e@,
{
    a.to_owned().concat(b).concat(c).concat(d).concat(e)
}

/// The length of a text in UTF-8, as far as a machine word can hold it.
pub open spec fn byte_length(text: Seq<char>) -> usize {
    vstd::utf8::encode_utf8(text).len() as usize
}

/// The texts of a list of owned strings.
pub open spec fn strings(list: Seq<String>) -> Seq<Seq<char>> {
    list.map_values(|s: String| s@)
}

/// The texts of a list of borrowed strings.
pub open spec fn strs(list: Seq<&str>) -> Seq<Seq<char>> {
    list.map_values(|s: &str| s@)
}

pub broadcast proof fn strings_push(list: Seq<String>, s: String)
    ensures
        #[trigger] strings(list.push(s)) == strings(list).push(s@),
{
    assert(strings(list.push(s)) =~= strings(list).push(s@));
}

pub broadcast proof fn strs_push(list: Seq<&str>, s: &str)
    ensures
        #[trigger] strs(list.push(s)) == strs(list).push(s@),
{
    assert(strs(list.push(s)) =~= strs(list).push(s@));
}

/// One more element of a prefix: what every loop over a list appeals to.
pub proof fn prefix_step<A>(s: Seq<A>, i: int)
    requires
        0 <= i < s.len(),
    ensures
        s.take(i + 1).drop_last() == s.take(i),
        s.take(i + 1).last() == s[i],
        s.take(i + 1) == s.take(i).push(s[i]),
        s.take(i + 1).len() == i + 1,
{
    assert(s.take(i + 1).drop_last() =~= s.take(i));
    assert(s.take(i + 1) =~= s.take(i).push(s[i]));
}

/// The whole list is its own longest prefix.
pub proof fn prefix_all<A>(s: Seq<A>)
    ensures
        s.take(s.len() as int) == s,
{
    assert(s.take(s.len() as int) =~= s);
}

/// The texts one after another with `separator` between each two.
pub open spec fn joined(list: Seq<Seq<char>>, separator: Seq<char>) -> Seq<char>
    decreases list.len(),
{
    if list.len() == 0 {
        Seq::empty()
    } else if list.len() == 1 {
        list[0]
    } else {
        joined(list.drop_last(), separator) + separator + list.last()
    }
}

/// Joins owned strings.
pub fn join(list: &Vec<String>, separator: &str) -> (r: String)
    ensures
        r@ == joined(strings(list@), separator@),
{
    let mut out = String::new();
    for i in 0..list.len()
        invariant
            out@ == joined(strings(list@).take(i as int), separator@),
    {
        proof {
            prefix_step(strings(list@), i as int);
        }
        if i == 0 {
            assert(Seq::<char>::empty() + list[0]@ =~= list[0]@);
        } else {
            out = out.concat(separator);
        }
        out = out.concat(list[i].as_str());
    }
    proof {
        prefix_all(strings(list@));
    }
    out
}

/// Joins borrowed strings.
pub fn join_strs(list: &Vec<&str>, separator: &str) -> (r: String)
    ensures
        r@ == joined(strs(list@), separator@),
{
    let mut out = String::new();
    for i in 0..list.len()
        invariant
            out@ == joined(strs(list@).take(i as int), separator@),
    {
        proof {
            prefix_step(strs(list@), i as int);
        }
        if i == 0 {
            assert(Seq::<char>::empty() + list[0]@ =~= list[0]@);
        } else {
            out = out.concat(separator);
        }
        out = out.concat(list[i]);
    }
    proof {
        prefix_all(strs(list@));
    }
    out
}

/// A copy of a list of strings.
pub fn copy_strings(list: &Vec<String>) -> (r: Vec<String>)
    ensures
        r@ == list@,
{
    let mut out: Vec<String> = Vec::new();
    for i in 0..list.len()
        invariant
            out@ == list@.take(i as int),
    {
        proof {
            prefix_step(list@, i as int);
        }
        out.push(list[i].clone());
    }
    proof {
        prefix_all(list@);
    }
    out
}

/// A copy of an optional string.
pub fn copy_opt(text: &Option<String>) -> (r: Option<String>)
    ensures
        r == *text,
{
    match text {
        Some(t) => Some(t.clone()),
        None => None,
    }
}

/// Appends `b` to `a`.
pub fn push_str(a: &mut String, b: &str)
    ensures
        final(a)@ == old(a)@ + b@,
{
    a.append(b);
}

/// ASCII lower case of one character.
pub open spec fn lower_char(c: char) -> char {
    if 'A' <= c <= 'Z' {
        (c as u8 + 32) as char
    } else {
        c
    }
}

/// `text` with its ASCII capitals in lower case.
pub open spec fn lower(text: Seq<char>) -> Seq<char> {
    text.map_values(|c: char| lower_char(c))
}

/// Computes [`lower_char`].
pub fn to_lower_char(c: char) -> (r: char)
    ensures
        r == lower_char(c),
{
    if 'A' <= c && c <= 'Z' {
        let code: u8 = c as u8;
        (code + 32) as char
    } else {
        c
    }
}

/// Computes [`lower`].
pub fn to_lower(text: &str) -> (r: String)
    ensures
        r@ == lower(text@),
{
    let mut out = String::new();
    for c in it: text.chars()
        invariant
            it.seq() == text@,
            out@ == lower(text@.take(it.index() as int)),
    {
        proof {
            prefix_step(text@, it.index() as int);
            assert(lower(text@.take(it.index() as int)).push(lower_char(c)) =~= lower(
                text@.take(it.index() + 1),
            ));
        }
        out.push(to_lower_char(c));
    }
    proof {
        prefix_all(text@);
    }
    out
}

/// Whether two texts differ at most in the case of ASCII letters.
pub open spec fn alike(a: Seq<char>, b: Seq<char>) -> bool {
    lower(a) == lower(b)
}

/// Decides [`alike`].
pub fn same_ignoring_case(a: &str, b: &str) -> (r: bool)
    ensures
        r == alike(a@, b@),
{
    same(to_lower(a).as_str(), to_lower(b).as_str())
}

/// What `str::to_lowercase` gives for `text`.
pub uninterp spec fn lowercased(text: Seq<char>) -> Seq<char>;

/// `str::to_lowercase`: the Unicode lower case of `text`. Nothing more is claimed
/// than that the result depends on the characters of `text` alone.
#[verifier::external_body]
pub(crate) fn to_lowercase(text: &str) -> (r: String)
    ensures
        r@ == lowercased(text@),
{
    text.to_lowercase()
}

} // verus!
