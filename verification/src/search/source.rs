//! Lean source: comments, declarations, namespaces and the entries of the index.
use crate::order::positions;
use crate::text::class::{all_of, is_all, is_whitespace, whitespace, Class};
use crate::text::layout::{one_line, single_line};
use crate::text::make::{
    byte_length, from_chars, join_strs, joined, prefix_all, prefix_step, same, strings,
    strings_push, strs, strs_push, to_chars,
};
use crate::text::pieces::{
    chomp, chomped, first_in, first_word, line_list, lines, next_word, own_all, pieces, position, split,
};
use crate::text::scan::{
    after_chars, bare, bare_start, begins, char_index, ends, ends_with, first_chars, index_of_byte,
    occurs_at, opt_string,
    rfind, rfind_text, sans_prefix, skip_chars, slice, stands_at, starts_with, subtext, take_chars,
    trim, trim_start, trim_start_of, trimmed_start, up_to, width, without_prefix,
};
use crate::text::utf8::{
    bytes_of_character, bytes_of_concatenation, bytes_of_spaces, char_width,
    only_breaks_hold_the_break_byte, utf8_length, utf8_length_counts_bytes,
    utf8_length_of_concatenation,
};
use vstd::prelude::*;
use vstd::utf8::encode_utf8;

verus! {

broadcast use {strings_push, strs_push};

/// What a position of Lean source belongs to.
#[derive(Clone, Copy)]
pub enum Zone {
    /// Code.
    Code,
    /// A comment up to the end of the line.
    Line,
    /// Block comments, that many inside each other.
    Block(usize),
    /// A string literal.
    Literal,
    /// A string literal, behind a backslash.
    Escape,
}

/// Two characters stand at position `i`.
pub open spec fn pair_at(text: Seq<char>, i: int, a: char, b: char) -> bool {
    0 <= i && i + 1 < text.len() && text[i] == a && text[i + 1] == b
}

/// Two characters stand at the head of a text.
pub open spec fn pair_first(text: Seq<char>, a: char, b: char) -> bool {
    text.len() >= 2 && text[0] == a && text[1] == b
}

/// A mark that opens or closes a comment stands at the head of a text in `zone`.
pub open spec fn mark_first(rest: Seq<char>, zone: Zone) -> bool {
    match zone {
        Zone::Code => pair_first(rest, '-', '-') || pair_first(rest, '/', '-'),
        Zone::Block(_) => pair_first(rest, '/', '-') || pair_first(rest, '-', '/'),
        _ => false,
    }
}

/// What follows a mark at the head of a text in `zone`.
pub open spec fn zone_after_mark(rest: Seq<char>, zone: Zone) -> Zone {
    match zone {
        Zone::Block(depth) => if pair_first(rest, '/', '-') {
            Zone::Block((depth + 1) as usize)
        } else if depth <= 1 {
            Zone::Code
        } else {
            Zone::Block((depth - 1) as usize)
        },
        _ => if pair_first(rest, '-', '-') {
            Zone::Line
        } else {
            Zone::Block(1)
        },
    }
}

/// What follows a character that is not part of a mark in `zone`.
pub open spec fn zone_after(c: char, zone: Zone) -> Zone {
    match zone {
        Zone::Line => if c == '\n' {
            Zone::Code
        } else {
            Zone::Line
        },
        Zone::Block(_) => zone,
        Zone::Escape => Zone::Literal,
        Zone::Literal => if c == '\\' {
            Zone::Escape
        } else if c == '"' {
            Zone::Code
        } else {
            Zone::Literal
        },
        Zone::Code => if c == '"' {
            Zone::Literal
        } else {
            Zone::Code
        },
    }
}

/// A comment.
pub open spec fn comment_zone(zone: Zone) -> bool {
    zone is Line || zone is Block
}

/// Which characters of a text belong to comments, where its first stands in `zone`.
pub open spec fn comment_marks(rest: Seq<char>, zone: Zone) -> Seq<bool>
    decreases rest.len(),
{
    if rest.len() == 0 {
        Seq::empty()
    } else if mark_first(rest, zone) {
        seq![true, true] + comment_marks(rest.skip(2), zone_after_mark(rest, zone))
    } else {
        seq![comment_zone(zone)] + comment_marks(rest.skip(1), zone_after(rest[0], zone))
    }
}

/// As many spaces as a number says.
pub open spec fn spaces(n: nat) -> Seq<char> {
    Seq::new(n, |i: int| ' ')
}

/// What stands for a character once comments are blanked: a space for each of its bytes
/// where it belongs to one, and the character itself elsewhere. Line breaks stay.
pub open spec fn blanked(c: char, comment: bool) -> Seq<char> {
    if comment && c != '\n' {
        spaces(width(c))
    } else {
        seq![c]
    }
}

/// A text with every comment blanked, where its first character stands in `zone`.
pub open spec fn masked_from(rest: Seq<char>, zone: Zone) -> Seq<char>
    decreases rest.len(),
{
    if rest.len() == 0 {
        Seq::empty()
    } else if mark_first(rest, zone) {
        spaces(2) + masked_from(rest.skip(2), zone_after_mark(rest, zone))
    } else {
        blanked(rest[0], comment_zone(zone)) + masked_from(
            rest.skip(1),
            zone_after(rest[0], zone),
        )
    }
}

/// Which characters of `source` belong to comments.
pub open spec fn comments(source: Seq<char>) -> Seq<bool> {
    comment_marks(source, Zone::Code)
}

/// `source` with every comment blanked.
pub open spec fn masked(source: Seq<char>) -> Seq<char> {
    masked_from(source, Zone::Code)
}

proof fn bytes_of_pair(rest: Seq<char>)
    requires
        rest.len() >= 2,
        (rest[0] as u32) < 0x80,
        (rest[1] as u32) < 0x80,
    ensures
        encode_utf8(rest) == encode_utf8(rest.take(2)) + encode_utf8(rest.skip(2)),
        encode_utf8(rest.take(2)).len() == 2,
        encode_utf8(rest.take(2)) == encode_utf8(seq![rest[0]]) + encode_utf8(seq![rest[1]]),
        encode_utf8(seq![rest[0]]).len() == 1,
        encode_utf8(seq![rest[1]]).len() == 1,
{
    bytes_of_concatenation(rest.take(2), rest.skip(2));
    assert(rest.take(2) + rest.skip(2) =~= rest);
    bytes_of_concatenation(seq![rest[0]], seq![rest[1]]);
    assert(seq![rest[0]] + seq![rest[1]] =~= rest.take(2));
    bytes_of_character(rest[0]);
    bytes_of_character(rest[1]);
}

proof fn bytes_of_first(rest: Seq<char>)
    requires
        rest.len() > 0,
    ensures
        encode_utf8(rest) == encode_utf8(seq![rest[0]]) + encode_utf8(rest.skip(1)),
        encode_utf8(seq![rest[0]]).len() == width(rest[0]),
{
    bytes_of_concatenation(seq![rest[0]], rest.skip(1));
    assert(seq![rest[0]] + rest.skip(1) =~= rest);
    bytes_of_character(rest[0]);
}

proof fn bytes_of_blanked(c: char, comment: bool)
    ensures
        encode_utf8(blanked(c, comment)).len() == width(c),
        encode_utf8(blanked(c, comment)) == if comment && c != '\n' {
            Seq::new(width(c), |i: int| 32u8)
        } else {
            encode_utf8(seq![c])
        },
{
    bytes_of_character(c);
    bytes_of_spaces(width(c));
}

proof fn bytes_of_masked(rest: Seq<char>, zone: Zone)
    requires
        rest.len() > 0,
    ensures
        mark_first(rest, zone) ==> encode_utf8(masked_from(rest, zone)) == seq![32u8, 32u8]
            + encode_utf8(masked_from(rest.skip(2), zone_after_mark(rest, zone))),
        !mark_first(rest, zone) ==> encode_utf8(masked_from(rest, zone)) == encode_utf8(
            blanked(rest[0], comment_zone(zone)),
        ) + encode_utf8(masked_from(rest.skip(1), zone_after(rest[0], zone))),
{
    if mark_first(rest, zone) {
        bytes_of_spaces(2);
        assert(Seq::new(2, |i: int| 32u8) =~= seq![32u8, 32u8]);
        bytes_of_concatenation(
            spaces(2),
            masked_from(rest.skip(2), zone_after_mark(rest, zone)),
        );
    } else {
        bytes_of_concatenation(
            blanked(rest[0], comment_zone(zone)),
            masked_from(rest.skip(1), zone_after(rest[0], zone)),
        );
    }
}

proof fn masked_from_keeps(rest: Seq<char>, zone: Zone, b: int)
    ensures
        encode_utf8(masked_from(rest, zone)).len() == encode_utf8(rest).len(),
        0 <= b < encode_utf8(rest).len() ==> {
            &&& encode_utf8(masked_from(rest, zone))[b] == encode_utf8(rest)[b] || encode_utf8(
                masked_from(rest, zone),
            )[b] == 32u8
            &&& encode_utf8(masked_from(rest, zone))[b] == 10u8 <==> encode_utf8(rest)[b] == 10u8
        },
    decreases rest.len(),
{
    if rest.len() > 0 {
        bytes_of_masked(rest, zone);
        if mark_first(rest, zone) {
            let next = zone_after_mark(rest, zone);
            bytes_of_pair(rest);
            masked_from_keeps(rest.skip(2), next, b - 2);
            only_breaks_hold_the_break_byte(rest[0], 0);
            only_breaks_hold_the_break_byte(rest[1], 0);
        } else {
            let c = rest[0];
            bytes_of_first(rest);
            bytes_of_blanked(c, comment_zone(zone));
            masked_from_keeps(rest.skip(1), zone_after(c, zone), b - width(c));
            if 0 <= b < width(c) {
                only_breaks_hold_the_break_byte(c, b);
            }
        }
    } else {
        assert(encode_utf8(rest) =~= Seq::empty());
    }
}

/// Blanking comments keeps the length of a source in bytes.
pub proof fn masking_keeps_length(source: Seq<char>)
    ensures
        encode_utf8(masked(source)).len() == encode_utf8(source).len(),
{
    masked_from_keeps(source, Zone::Code, 0);
}

/// Blanking comments changes a byte to a space if at all, and line breaks stand at the
/// same bytes before and after.
pub proof fn masking_only_blanks(source: Seq<char>, b: int)
    requires
        0 <= b < encode_utf8(source).len(),
    ensures
        encode_utf8(masked(source))[b] == encode_utf8(source)[b] || encode_utf8(masked(source))[b]
            == 32u8,
        encode_utf8(masked(source))[b] == 10u8 <==> encode_utf8(source)[b] == 10u8,
{
    masked_from_keeps(source, Zone::Code, b);
}

/// The bytes of a text, and of the text with its comments blanked, where its character
/// number `k` stands.
spec fn blanks_at(rest: Seq<char>, zone: Zone, k: int) -> bool {
    let from = utf8_length(rest.take(k)) as int;
    let to = from + width(rest[k]);
    &&& to <= encode_utf8(rest).len()
    &&& to <= encode_utf8(masked_from(rest, zone)).len()
    &&& encode_utf8(rest).subrange(from, to) == encode_utf8(seq![rest[k]])
    &&& encode_utf8(masked_from(rest, zone)).subrange(from, to) == encode_utf8(
        blanked(rest[k], comment_marks(rest, zone)[k]),
    )
}

proof fn blanks_behind(a: Seq<char>, b: Seq<u8>, rest: Seq<char>, zone: Zone, k: int)
    requires
        0 <= k < rest.len(),
        b.len() == encode_utf8(a).len(),
        blanks_at(rest, zone, k),
    ensures
        ({
            let from = utf8_length((a + rest).take(a.len() + k)) as int;
            let to = from + width(rest[k]);
            let enc = encode_utf8(a + rest);
            let out = b + encode_utf8(masked_from(rest, zone));
            &&& to <= enc.len()
            &&& to <= out.len()
            &&& enc.subrange(from, to) == encode_utf8(seq![rest[k]])
            &&& out.subrange(from, to) == encode_utf8(
                blanked(rest[k], comment_marks(rest, zone)[k]),
            )
        }),
{
    bytes_of_concatenation(a, rest);
    assert((a + rest).take(a.len() + k) =~= a + rest.take(k));
    utf8_length_of_concatenation(a, rest.take(k));
    utf8_length_counts_bytes(a);
    let n = b.len() as int;
    let from = utf8_length(rest.take(k)) as int;
    let to = from + width(rest[k]);
    let enc = encode_utf8(a) + encode_utf8(rest);
    let out = b + encode_utf8(masked_from(rest, zone));
    assert(enc.subrange(n + from, n + to) =~= encode_utf8(rest).subrange(from, to));
    assert(out.subrange(n + from, n + to) =~= encode_utf8(masked_from(rest, zone)).subrange(
        from,
        to,
    ));
}

proof fn blanks_at_mark(rest: Seq<char>, zone: Zone, k: int)
    requires
        0 <= k < 2,
        rest.len() > 0,
        mark_first(rest, zone),
    ensures
        blanks_at(rest, zone, k),
{
    bytes_of_masked(rest, zone);
    bytes_of_pair(rest);
    bytes_of_blanked(rest[k], true);
    assert(rest.take(0) =~= Seq::empty());
    assert(rest.take(1) =~= seq![rest[0]]);
    utf8_length_counts_bytes(rest.take(1));
    let enc = encode_utf8(rest);
    let out = encode_utf8(masked_from(rest, zone));
    assert(comment_marks(rest, zone)[k]);
    assert(utf8_length(rest.take(k)) == k);
    assert(width(rest[k]) == 1);
    assert(enc.subrange(k, k + 1) =~= encode_utf8(seq![rest[k]]));
    assert(out.subrange(k, k + 1) =~= Seq::new(1, |i: int| 32u8));
}

proof fn blanks_at_first(rest: Seq<char>, zone: Zone)
    requires
        rest.len() > 0,
        !mark_first(rest, zone),
    ensures
        blanks_at(rest, zone, 0),
{
    bytes_of_masked(rest, zone);
    bytes_of_first(rest);
    bytes_of_blanked(rest[0], comment_zone(zone));
    assert(rest.take(0) =~= Seq::empty());
    let w = width(rest[0]) as int;
    assert(comment_marks(rest, zone)[0] == comment_zone(zone));
    assert(encode_utf8(rest).subrange(0, w) =~= encode_utf8(seq![rest[0]]));
    assert(encode_utf8(masked_from(rest, zone)).subrange(0, w) =~= encode_utf8(
        blanked(rest[0], comment_zone(zone)),
    ));
}

proof fn masked_from_blanks(rest: Seq<char>, zone: Zone, k: int)
    requires
        0 <= k < rest.len(),
    ensures
        blanks_at(rest, zone, k),
    decreases rest.len(),
{
    let marked = mark_first(rest, zone);
    if marked && k < 2 {
        blanks_at_mark(rest, zone, k);
    } else if !marked && k == 0 {
        blanks_at_first(rest, zone);
    } else if marked {
        let next = zone_after_mark(rest, zone);
        masked_from_blanks(rest.skip(2), next, k - 2);
        marks_cover(rest.skip(2), next);
        bytes_of_masked(rest, zone);
        bytes_of_pair(rest);
        assert(rest.take(2) + rest.skip(2) =~= rest);
        blanks_behind(rest.take(2), seq![32u8, 32u8], rest.skip(2), next, k - 2);
        assert(comment_marks(rest, zone)[k] == comment_marks(rest.skip(2), next)[k - 2]);
        assert(rest.skip(2)[k - 2] == rest[k]);
    } else {
        let next = zone_after(rest[0], zone);
        masked_from_blanks(rest.skip(1), next, k - 1);
        marks_cover(rest.skip(1), next);
        bytes_of_masked(rest, zone);
        bytes_of_first(rest);
        bytes_of_blanked(rest[0], comment_zone(zone));
        assert(seq![rest[0]] + rest.skip(1) =~= rest);
        blanks_behind(
            seq![rest[0]],
            encode_utf8(blanked(rest[0], comment_zone(zone))),
            rest.skip(1),
            next,
            k - 1,
        );
        assert(comment_marks(rest, zone)[k] == comment_marks(rest.skip(1), next)[k - 1]);
        assert(rest.skip(1)[k - 1] == rest[k]);
    }
}

proof fn marks_cover(rest: Seq<char>, zone: Zone)
    ensures
        comment_marks(rest, zone).len() == rest.len(),
    decreases rest.len(),
{
    if rest.len() > 0 {
        if mark_first(rest, zone) {
            marks_cover(rest.skip(2), zone_after_mark(rest, zone));
        } else {
            marks_cover(rest.skip(1), zone_after(rest[0], zone));
        }
    }
}

/// Every byte of a character in a comment is a space once comments are blanked, but for
/// line breaks; the bytes of every other character, those in string literals included,
/// stay as they are.
pub proof fn masking_blanks_comments(source: Seq<char>, k: int)
    requires
        0 <= k < source.len(),
    ensures
        comments(source).len() == source.len(),
        ({
            let from = utf8_length(source.take(k)) as int;
            let to = from + width(source[k]);
            let before = encode_utf8(source).subrange(from, to);
            encode_utf8(masked(source)).subrange(from, to) == if comments(source)[k] && source[k]
                != '\n' {
                Seq::new(width(source[k]), |i: int| 32u8)
            } else {
                before
            }
        }),
{
    marks_cover(source, Zone::Code);
    masked_from_blanks(source, Zone::Code, k);
    bytes_of_blanked(source[k], comments(source)[k]);
}

/// Where a text stands once the comments in it are blanked.
spec fn calm(zone: Zone) -> Zone {
    match zone {
        Zone::Line => Zone::Code,
        Zone::Block(_) => Zone::Code,
        _ => zone,
    }
}

proof fn blanks_stay(n: nat, rest: Seq<char>)
    ensures
        masked_from(spaces(n) + rest, Zone::Code) == spaces(n) + masked_from(rest, Zone::Code),
    decreases n,
{
    if n == 0 {
        assert(spaces(n) + rest =~= rest);
        assert(spaces(n) + masked_from(rest, Zone::Code) =~= masked_from(rest, Zone::Code));
    } else {
        let m = (n - 1) as nat;
        let whole = spaces(n) + rest;
        assert(whole[0] == ' ');
        assert(whole.skip(1) =~= spaces(m) + rest);
        blanks_stay(m, rest);
        assert(masked_from(whole, Zone::Code) =~= spaces(n) + masked_from(rest, Zone::Code));
    }
}

proof fn first_masked(rest: Seq<char>, zone: Zone)
    requires
        masked_from(rest, zone).len() > 0,
    ensures
        rest.len() > 0,
        masked_from(rest, zone)[0] == rest[0] || masked_from(rest, zone)[0] == ' ',
{
}

proof fn masked_from_twice(rest: Seq<char>, zone: Zone)
    ensures
        masked_from(masked_from(rest, zone), calm(zone)) == masked_from(rest, zone),
    decreases rest.len(),
{
    if rest.len() > 0 {
        let once = masked_from(rest, zone);
        if mark_first(rest, zone) {
            let next = zone_after_mark(rest, zone);
            masked_from_twice(rest.skip(2), next);
            blanks_stay(2, masked_from(rest.skip(2), next));
        } else {
            let c = rest[0];
            let next = zone_after(c, zone);
            let tail = masked_from(rest.skip(1), next);
            masked_from_twice(rest.skip(1), next);
            if comment_zone(zone) && c != '\n' {
                blanks_stay(width(c), tail);
            } else {
                assert(once =~= seq![c] + tail);
                assert(once[0] == c);
                assert(once.skip(1) =~= tail);
                if tail.len() > 0 {
                    first_masked(rest.skip(1), next);
                    assert(once[1] == tail[0]);
                    assert(rest.skip(1)[0] == rest[1]);
                }
                assert(!mark_first(once, calm(zone)));
                assert(zone_after(c, calm(zone)) == calm(next));
                assert(masked_from(once, calm(zone)) =~= seq![c] + masked_from(
                    tail,
                    calm(next),
                ));
            }
        }
    }
}

/// Blanking comments twice is blanking them once.
pub proof fn masking_twice_is_masking_once(source: Seq<char>)
    ensures
        masked(masked(source)) == masked(source),
{
    masked_from_twice(source, Zone::Code);
}

fn push_spaces(out: &mut Vec<char>, n: usize)
    ensures
        final(out)@ == old(out)@ + spaces(n as nat),
{
    for i in 0..n
        invariant
            out@ == old(out)@ + spaces(i as nat),
    {
        out.push(' ');
        assert(out@ =~= old(out)@ + spaces((i + 1) as nat));
    }
}

/// Computes [`masked`].
pub fn mask_comments(source: &str) -> (r: String)
    ensures
        r@ == masked(source@),
{
    let t = to_chars(source);
    let mut out: Vec<char> = Vec::new();
    let mut i: usize = 0;
    let mut zone = Zone::Code;
    assert(source@.skip(0) =~= source@);
    while i < t.len()
        invariant
            t@ == source@,
            i <= t.len(),
            zone matches Zone::Block(depth) ==> depth <= i,
            masked(source@) == out@ + masked_from(source@.skip(i as int), zone),
        decreases t.len() - i,
    {
        let ghost rest = source@.skip(i as int);
        let ghost before = out@;
        let c = t[i];
        assert(rest[0] == c);
        let slash_dash = c == '/' && i + 1 < t.len() && t[i + 1] == '-';
        let dash_slash = c == '-' && i + 1 < t.len() && t[i + 1] == '/';
        let dash_dash = c == '-' && i + 1 < t.len() && t[i + 1] == '-';
        assert(slash_dash == pair_first(rest, '/', '-'));
        assert(dash_slash == pair_first(rest, '-', '/'));
        assert(dash_dash == pair_first(rest, '-', '-'));
        let next: Option<Zone> = match zone {
            Zone::Block(depth) => if slash_dash {
                Some(Zone::Block(depth + 1))
            } else if dash_slash {
                Some(
                    if depth <= 1 {
                        Zone::Code
                    } else {
                        Zone::Block(depth - 1)
                    },
                )
            } else {
                None
            },
            Zone::Code => if dash_dash {
                Some(Zone::Line)
            } else if slash_dash {
                Some(Zone::Block(1))
            } else {
                None
            },
            _ => None,
        };
        match next {
            Some(next) => {
                push_spaces(&mut out, 2);
                zone = next;
                i += 2;
                assert(rest.skip(2) =~= source@.skip(i as int));
            },
            None => {
                let comment = match zone {
                    Zone::Line => true,
                    Zone::Block(_) => true,
                    _ => false,
                };
                if comment && c != '\n' {
                    push_spaces(&mut out, char_width(c));
                } else {
                    out.push(c);
                    assert(out@ =~= before + seq![c]);
                }
                zone = match zone {
                    Zone::Line => if c == '\n' {
                        Zone::Code
                    } else {
                        Zone::Line
                    },
                    Zone::Block(depth) => Zone::Block(depth),
                    Zone::Escape => Zone::Literal,
                    Zone::Literal => if c == '\\' {
                        Zone::Escape
                    } else if c == '"' {
                        Zone::Code
                    } else {
                        Zone::Literal
                    },
                    Zone::Code => if c == '"' {
                        Zone::Literal
                    } else {
                        Zone::Code
                    },
                };
                i += 1;
                assert(rest.skip(1) =~= source@.skip(i as int));
            },
        }
        assert(masked(source@) =~= out@ + masked_from(source@.skip(i as int), zone));
    }
    assert(out@ + masked_from(source@.skip(i as int), zone) =~= out@);
    from_chars(&out)
}

/// An entry of the index.
#[derive(Debug)]
pub struct SourceEntry {
    pub line: u64,
    pub name: String,
    pub kind: String,
    pub signature: String,
    pub docs: String,
    pub body: String,
}

/// The contents of a [`SourceEntry`].
pub struct EntryView {
    pub line: u64,
    pub name: Seq<char>,
    pub kind: Seq<char>,
    pub signature: Seq<char>,
    pub docs: Seq<char>,
    pub body: Seq<char>,
}

impl View for SourceEntry {
    type V = EntryView;

    open spec fn view(&self) -> EntryView {
        EntryView {
            line: self.line,
            name: self.name@,
            kind: self.kind@,
            signature: self.signature@,
            docs: self.docs@,
            body: self.body@,
        }
    }
}

/// The contents of a list of entries.
pub open spec fn entry_views(list: Seq<SourceEntry>) -> Seq<EntryView> {
    list.map_values(|e: SourceEntry| e@)
}

pub broadcast proof fn entry_views_push(list: Seq<SourceEntry>, e: SourceEntry)
    ensures
        #[trigger] entry_views(list.push(e)) == entry_views(list).push(e@),
{
    assert(entry_views(list.push(e)) =~= entry_views(list).push(e@));
}

/// The line that begins at position `i`, without its line break.
pub open spec fn line_from(text: Seq<char>, i: int) -> Seq<char> {
    let rest = after_chars(text, i);
    let end = first_in(rest, Class::Is('\n'));
    if end < rest.len() {
        chomped(rest.take(end))
    } else {
        rest
    }
}

/// Computes [`line_from`].
pub fn line_at<'a>(text: &'a str, i: usize) -> (r: &'a str)
    ensures
        r@ == line_from(text@, i as int),
{
    let rest = skip_chars(text, i);
    let end = position(rest, Class::Is('\n'));
    if end < rest.unicode_len() {
        chomp(up_to(rest, end))
    } else {
        rest
    }
}

/// How a character changes the number of open delimiters.
pub open spec fn depth_step(depth: nat, c: char) -> nat {
    if c == '(' || c == '[' || c == '{' {
        depth + 1
    } else if (c == ')' || c == ']' || c == '}') && depth > 0 {
        (depth - 1) as nat
    } else {
        depth
    }
}

/// The word `where` stands alone at position `i`.
pub open spec fn where_at(code: Seq<char>, i: int) -> bool {
    occurs_at(code, "where"@, i) && i > 0 && whitespace(code[i - 1]) && (i + 5 >= code.len()
        || whitespace(code[i + 5]))
}

/// The first `:=` or `where` outside delimiters, from position `i` on.
pub open spec fn body_mark(code: Seq<char>, i: int, depth: nat) -> Option<int>
    decreases code.len() - i,
{
    if i < 0 || i >= code.len() {
        None
    } else if depth == 0 && (pair_at(code, i, ':', '=') || where_at(code, i)) {
        Some(i)
    } else {
        body_mark(code, i + 1, depth_step(depth, code[i]))
    }
}

/// A line that no longer belongs to the header of a declaration without a body: one
/// without indentation, an alternative, or a list of derived instances.
pub open spec fn past_header(line: Seq<char>) -> bool {
    let t = bare_start(line);
    t.len() > 0 && (t == line || begins(t, "|"@) || begins(t, "deriving"@))
}

/// Where the header of a declaration without a body ends.
pub open spec fn bodyless_end(code: Seq<char>, i: int) -> int
    decreases code.len() - i,
{
    if i < 0 || i >= code.len() {
        code.len() as int
    } else if code[i] == '\n' && past_header(line_from(code, i + 1)) {
        i
    } else {
        bodyless_end(code, i + 1)
    }
}

/// Where the header of a declaration ends, given its text without comments.
pub open spec fn header_stop(code: Seq<char>) -> int {
    match body_mark(code, 0, 0) {
        Some(i) => i,
        None => bodyless_end(code, 0),
    }
}

/// Where the header of a declaration ends, in characters.
pub open spec fn header_length(block: Seq<char>) -> int {
    header_stop(masked(block))
}

proof fn bodyless_end_bounds(code: Seq<char>, i: int)
    requires
        0 <= i <= code.len(),
    ensures
        i <= bodyless_end(code, i) <= code.len(),
    decreases code.len() - i,
{
    if i < code.len() && !(code[i] == '\n' && past_header(line_from(code, i + 1))) {
        bodyless_end_bounds(code, i + 1);
    }
}

/// Computes [`header_length`].
pub fn header_chars(block: &str) -> (r: usize)
    ensures
        r == header_length(block@),
        r <= masked(block@).len(),
{
    let masked_block = mask_comments(block);
    let code = to_chars(masked_block.as_str());
    let mark = to_chars("where");
    proof {
        reveal_strlit("where");
    }
    let mut i: usize = 0;
    let mut depth: usize = 0;
    while i < code.len()
        invariant
            code@ == masked(block@),
            mark@ == "where"@,
            mark@.len() == 5,
            i <= code.len(),
            depth <= i,
            body_mark(code@, 0, 0) == body_mark(code@, i as int, depth as nat),
        decreases code.len() - i,
    {
        let c = code[i];
        if depth == 0 {
            if c == ':' && i + 1 < code.len() && code[i + 1] == '=' {
                return i;
            }
            if c == 'w' && stands_at(&code, &mark, i) && i > 0 && is_whitespace(code[i - 1]) && (
            code.len() - i == 5 || is_whitespace(code[i + 5])) {
                return i;
            }
            proof {
                reveal_strlit("where");
                if where_at(code@, i as int) {
                    assert(code@.subrange(i as int, i + 5)[0] == "where"@[0]);
                }
            }
        }
        if c == '(' || c == '[' || c == '{' {
            depth += 1;
        } else if (c == ')' || c == ']' || c == '}') && depth > 0 {
            depth -= 1;
        }
        i += 1;
    }
    let mut k: usize = 0;
    while k < code.len()
        invariant
            code@ == masked(block@),
            masked_block@ == masked(block@),
            k <= code.len(),
            body_mark(code@, 0, 0) is None,
            bodyless_end(code@, 0) == bodyless_end(code@, k as int),
        decreases code.len() - k,
    {
        if code[k] == '\n' {
            let line = line_at(masked_block.as_str(), k + 1);
            let t = trim_start(line);
            if !t.is_empty() && (same(t, line) || starts_with(t, "|") || starts_with(
                t,
                "deriving",
            )) {
                return k;
            }
        }
        k += 1;
    }
    code.len()
}

/// Where the header of a declaration ends, in bytes of its text.
pub fn declaration_header_end(block: &str) -> (r: usize)
    ensures
        r == byte_length(first_chars(block@, header_length(block@))),
{
    let n = header_chars(block);
    take_chars(block, n).len()
}

/// A line that closes a namespace or a section, without indentation.
pub open spec fn closing_line(line: Seq<char>) -> bool {
    line == "end"@ || begins(line, "end "@)
}

/// Where the lines of a declaration end: behind the line break before the first
/// closing line.
pub open spec fn block_stop(text: Seq<char>, i: int) -> int
    decreases text.len() - i,
{
    if i < 0 || i >= text.len() {
        text.len() as int
    } else if text[i] == '\n' && closing_line(line_from(text, i + 1)) {
        i + 1
    } else {
        block_stop(text, i + 1)
    }
}

/// A declaration up to the first closing line, without white space around it.
pub open spec fn block_of(text: Seq<char>) -> Seq<char> {
    bare(first_chars(text, block_stop(text, 0)))
}

/// Computes [`block_of`].
pub fn declaration_block<'a>(text: &'a str) -> (r: &'a str)
    ensures
        r@ == block_of(text@),
{
    let t = to_chars(text);
    let mut i: usize = 0;
    while i < t.len()
        invariant
            t@ == text@,
            i <= t.len(),
            block_stop(text@, 0) == block_stop(text@, i as int),
        decreases t.len() - i,
    {
        if t[i] == '\n' {
            let line = line_at(text, i + 1);
            if same(line, "end") || starts_with(line, "end ") {
                return trim(take_chars(text, i + 1));
            }
        }
        i += 1;
    }
    trim(take_chars(text, t.len()))
}

/// The open scopes after some lines: a namespace with its parts, or a section.
pub open spec fn scopes_after(list: Seq<Seq<char>>) -> Seq<Option<Seq<Seq<char>>>>
    decreases list.len(),
{
    if list.len() == 0 {
        Seq::empty()
    } else {
        scopes_step(scopes_after(list.drop_last()), bare(list.last()))
    }
}

/// How one line changes the open scopes.
pub open spec fn scopes_step(scopes: Seq<Option<Seq<Seq<char>>>>, line: Seq<char>) -> Seq<
    Option<Seq<Seq<char>>>,
> {
    if begins(line, "namespace "@) {
        match first_word(sans_prefix(line, "namespace "@)) {
            Some(name) => scopes.push(Some(pieces(name, Class::Is('.')))),
            None => scopes,
        }
    } else if line == "section"@ || begins(line, "section "@) {
        scopes.push(None)
    } else if closing_line(line) {
        if scopes.len() > 0 {
            scopes.drop_last()
        } else {
            scopes
        }
    } else {
        scopes
    }
}

/// The parts of the open namespaces, the outermost first.
pub open spec fn namespace_parts(scopes: Seq<Option<Seq<Seq<char>>>>) -> Seq<Seq<char>>
    decreases scopes.len(),
{
    if scopes.len() == 0 {
        Seq::empty()
    } else {
        namespace_parts(scopes.drop_last()) + match scopes.last() {
            Some(parts) => parts,
            None => Seq::empty(),
        }
    }
}

/// The namespace in which each line of `source` stands.
pub open spec fn namespaces(source: Seq<char>) -> Seq<Seq<Seq<char>>> {
    Seq::new(
        line_list(source).len(),
        |i: int| namespace_parts(scopes_after(line_list(source).take(i))),
    )
}

/// The texts of nested lists.
pub open spec fn string_lists(list: Seq<Vec<String>>) -> Seq<Seq<Seq<char>>> {
    list.map_values(|v: Vec<String>| strings(v@))
}

/// The view of a scope.
pub open spec fn scope_view(scope: Option<Vec<String>>) -> Option<Seq<Seq<char>>> {
    match scope {
        Some(parts) => Some(strings(parts@)),
        None => None,
    }
}

/// The view of open scopes.
pub open spec fn scope_views(list: Seq<Option<Vec<String>>>) -> Seq<Option<Seq<Seq<char>>>> {
    list.map_values(|s: Option<Vec<String>>| scope_view(s))
}

fn flatten_scopes(scopes: &Vec<Option<Vec<String>>>) -> (r: Vec<String>)
    ensures
        strings(r@) == namespace_parts(scope_views(scopes@)),
{
    let ghost views = scope_views(scopes@);
    let mut out: Vec<String> = Vec::new();
    for i in 0..scopes.len()
        invariant
            views == scope_views(scopes@),
            strings(out@) == namespace_parts(views.take(i as int)),
    {
        proof {
            prefix_step(views, i as int);
        }
        assert(views[i as int] == scope_view(scopes@[i as int]));
        let ghost before = strings(out@);
        match &scopes[i] {
            Some(parts) => {
                for j in 0..parts.len()
                    invariant
                        strings(out@) == before + strings(parts@).take(j as int),
                {
                    proof {
                        prefix_step(strings(parts@), j as int);
                    }
                    out.push(parts[j].clone());
                    assert(strings(out@) =~= before + strings(parts@).take(j + 1));
                }
                proof {
                    prefix_all(strings(parts@));
                }
            },
            None => {
                assert(before + Seq::<Seq<char>>::empty() =~= before);
            },
        }
    }
    proof {
        prefix_all(views);
    }
    out
}

/// Computes [`namespaces`].
pub fn namespaces_by_line(source: &str) -> (r: Vec<Vec<String>>)
    ensures
        string_lists(r@) == namespaces(source@),
{
    let list = lines(source);
    let ghost views = line_list(source@);
    assert(views.len() == list.len());
    let mut scopes: Vec<Option<Vec<String>>> = Vec::new();
    let mut out: Vec<Vec<String>> = Vec::new();
    assert(scope_views(scopes@) =~= scopes_after(views.take(0)));
    for i in 0..list.len()
        invariant
            views == strs(list@),
            views == line_list(source@),
            scope_views(scopes@) == scopes_after(views.take(i as int)),
            string_lists(out@) == namespaces(source@).take(i as int),
    {
        proof {
            prefix_step(views, i as int);
            prefix_step(namespaces(source@), i as int);
        }
        let ghost results = out@;
        let flat = flatten_scopes(&scopes);
        out.push(flat);
        assert(string_lists(out@) =~= string_lists(results).push(strings(flat@)));
        assert(views[i as int] == list[i as int]@);
        let line = trim(list[i]);
        let ghost before = scopes@;
        if starts_with(line, "namespace ") {
            match next_word(without_prefix(line, "namespace ")) {
                Some(name) => {
                    let parts = own_all(&split(name, Class::Is('.')));
                    scopes.push(Some(parts));
                    assert(scope_views(scopes@) =~= scope_views(before).push(
                        Some(strings(parts@)),
                    ));
                },
                None => {},
            }
        } else if same(line, "section") || starts_with(line, "section ") {
            scopes.push(None);
            assert(scope_views(scopes@) =~= scope_views(before).push(None));
        } else if same(line, "end") || starts_with(line, "end ") {
            if scopes.len() > 0 {
                let _ = scopes.pop();
                assert(scope_views(scopes@) =~= scope_views(before).drop_last());
            }
        }
    }
    proof {
        prefix_all(views);
        prefix_all(namespaces(source@));
    }
    out
}

/// The ambient lines of the open scopes after some lines of source.
pub open spec fn ambient_after(list: Seq<Seq<char>>) -> Seq<Seq<Seq<char>>>
    decreases list.len(),
{
    if list.len() == 0 {
        seq![Seq::empty()]
    } else {
        ambient_step(ambient_after(list.drop_last()), bare(list.last()))
    }
}

/// A line that adds to the context of what follows it.
pub open spec fn ambient_line(line: Seq<char>) -> bool {
    (begins(line, "universe "@) || begins(line, "variable "@) || begins(line, "include "@)
        || begins(line, "omit "@)) && !ends(line, " in"@)
}

/// How one line changes the ambient lines.
pub open spec fn ambient_step(scopes: Seq<Seq<Seq<char>>>, line: Seq<char>) -> Seq<
    Seq<Seq<char>>,
> {
    if begins(line, "namespace "@) {
        scopes.push(Seq::empty())
    } else if line == "section"@ || begins(line, "section "@) {
        scopes.push(seq![one_line(line)])
    } else if closing_line(line) {
        if scopes.len() > 1 {
            scopes.drop_last()
        } else {
            scopes
        }
    } else if ambient_line(line) && scopes.len() > 0 {
        scopes.drop_last().push(scopes.last().push(one_line(line)))
    } else {
        scopes
    }
}

/// The lines of all scopes one after another.
pub open spec fn flattened(scopes: Seq<Seq<Seq<char>>>) -> Seq<Seq<char>>
    decreases scopes.len(),
{
    if scopes.len() == 0 {
        Seq::empty()
    } else {
        flattened(scopes.drop_last()) + scopes.last()
    }
}

/// The last sixteen elements, or all where there are fewer.
pub open spec fn last_sixteen(list: Seq<Seq<char>>) -> Seq<Seq<char>> {
    if list.len() <= 16 {
        list
    } else {
        list.skip(list.len() - 16)
    }
}

/// The context in which each line of `source` stands.
pub open spec fn ambient_contexts(source: Seq<char>) -> Seq<Seq<Seq<char>>> {
    Seq::new(
        line_list(source).len(),
        |i: int| last_sixteen(flattened(ambient_after(line_list(source).take(i)))),
    )
}

fn flatten_ambient(scopes: &Vec<Vec<String>>) -> (r: Vec<String>)
    ensures
        strings(r@) == last_sixteen(flattened(string_lists(scopes@))),
{
    let ghost views = string_lists(scopes@);
    let mut out: Vec<String> = Vec::new();
    for i in 0..scopes.len()
        invariant
            views == string_lists(scopes@),
            strings(out@) == flattened(views.take(i as int)),
    {
        proof {
            prefix_step(views, i as int);
        }
        assert(views[i as int] == strings(scopes@[i as int]@));
        let ghost before = strings(out@);
        let parts = &scopes[i];
        for j in 0..parts.len()
            invariant
                strings(out@) == before + strings(parts@).take(j as int),
        {
            proof {
                prefix_step(strings(parts@), j as int);
            }
            out.push(parts[j].clone());
            assert(strings(out@) =~= before + strings(parts@).take(j + 1));
        }
        proof {
            prefix_all(strings(parts@));
        }
    }
    proof {
        prefix_all(views);
    }
    assert(strings(out@).len() == out.len());
    if out.len() <= 16 {
        return out;
    }
    let start = out.len() - 16;
    let mut tail: Vec<String> = Vec::new();
    let ghost wanted = strings(out@).skip(start as int);
    for i in start..out.len()
        invariant
            start + 16 == out.len(),
            wanted == strings(out@).skip(start as int),
            strings(tail@) == wanted.take(i - start),
    {
        proof {
            prefix_step(wanted, i - start);
        }
        tail.push(out[i].clone());
    }
    proof {
        prefix_all(wanted);
    }
    tail
}

/// Computes [`ambient_contexts`].
pub fn ambient_contexts_by_line(source: &str) -> (r: Vec<Vec<String>>)
    ensures
        string_lists(r@) == ambient_contexts(source@),
{
    let list = lines(source);
    let ghost views = line_list(source@);
    assert(views.len() == list.len());
    let mut scopes: Vec<Vec<String>> = Vec::new();
    let root: Vec<String> = Vec::new();
    assert(strings(root@) =~= Seq::empty());
    scopes.push(root);
    assert(string_lists(scopes@) =~= ambient_after(views.take(0)));
    let mut out: Vec<Vec<String>> = Vec::new();
    for i in 0..list.len()
        invariant
            views == strs(list@),
            views == line_list(source@),
            string_lists(scopes@) == ambient_after(views.take(i as int)),
            string_lists(out@) == ambient_contexts(source@).take(i as int),
    {
        proof {
            prefix_step(views, i as int);
            prefix_step(ambient_contexts(source@), i as int);
        }
        let ghost results = out@;
        let flat = flatten_ambient(&scopes);
        out.push(flat);
        assert(string_lists(out@) =~= string_lists(results).push(strings(flat@)));
        assert(views[i as int] == list[i as int]@);
        let line = trim(list[i]);
        let ghost before = scopes@;
        assert(string_lists(before).len() == before.len());
        if starts_with(line, "namespace ") {
            let opened: Vec<String> = Vec::new();
            assert(strings(opened@) =~= Seq::empty());
            scopes.push(opened);
            assert(string_lists(scopes@) =~= string_lists(before).push(Seq::empty()));
        } else if same(line, "section") || starts_with(line, "section ") {
            let mut opened: Vec<String> = Vec::new();
            opened.push(single_line(line));
            assert(strings(opened@) =~= seq![one_line(line@)]);
            scopes.push(opened);
            assert(string_lists(scopes@) =~= string_lists(before).push(seq![one_line(line@)]));
        } else if same(line, "end") || starts_with(line, "end ") {
            if scopes.len() > 1 {
                let _ = scopes.pop();
                assert(string_lists(scopes@) =~= string_lists(before).drop_last());
            }
        } else if (starts_with(line, "universe ") || starts_with(line, "variable ") || starts_with(
            line,
            "include ",
        ) || starts_with(line, "omit ")) && !ends_with(line, " in") && scopes.len() > 0 {
            match scopes.pop() {
                Some(mut innermost) => {
                    let ghost inner = innermost@;
                    innermost.push(single_line(line));
                    assert(strings(innermost@) == strings(inner).push(one_line(line@)));
                    scopes.push(innermost);
                    assert(string_lists(scopes@) =~= string_lists(before).drop_last().push(
                        string_lists(before).last().push(one_line(line@)),
                    ));
                },
                None => {},
            }
        }
    }
    proof {
        prefix_all(views);
        prefix_all(ambient_contexts(source@));
    }
    out
}

/// One line of a documentation comment.
pub open spec fn doc_line(line: Seq<char>) -> Seq<char> {
    bare(trimmed_start(bare(line), Class::Is('*')))
}

/// The lines of a documentation comment.
pub open spec fn doc_lines(list: Seq<Seq<char>>) -> Seq<Seq<char>> {
    list.map_values(|l: Seq<char>| doc_line(l))
}

/// What may stand between a documentation comment and its declaration.
pub open spec fn attributes_only(text: Seq<char>) -> bool {
    all_of(text, Class::Is(']')) || (begins(text, "@["@) && ends(text, "]"@))
}

/// The documentation comment at the end of a text.
pub open spec fn closing_doc(prefix: Seq<char>) -> Option<Seq<char>> {
    match rfind_text(prefix, "-/"@) {
        Some(e) => if attributes_only(bare(after_chars(prefix, e + 2))) {
            match rfind_text(first_chars(prefix, e + 2), "/--"@) {
                Some(s) => Some(
                    joined(doc_lines(line_list(subtext(prefix, s + 3, e))), " "@),
                ),
                None => None,
            }
        } else {
            None
        },
        None => None,
    }
}

/// The documentation comment before a byte of a source.
pub open spec fn doc_before(source: Seq<char>, offset: int) -> Option<Seq<char>> {
    closing_doc(first_chars(source, char_index(source, offset) as int))
}

/// Computes [`doc_before`].
pub fn preceding_doc(source: &str, offset: usize) -> (r: Option<String>)
    ensures
        opt_string(r) == doc_before(source@, offset as int),
{
    doc_at_end(take_chars(source, index_of_byte(source, offset)))
}

/// Computes [`closing_doc`].
pub fn doc_at_end(prefix: &str) -> (r: Option<String>)
    ensures
        opt_string(r) == closing_doc(prefix@),
{
    let length = prefix.unicode_len();
    proof {
        reveal_strlit("-/");
        reveal_strlit("/--");
    }
    match rfind(prefix, "-/") {
        Some(e) => {
            let suffix = trim(skip_chars(prefix, e + 2));
            if !(is_all(suffix, Class::Is(']')) || (starts_with(suffix, "@[") && ends_with(
                suffix,
                "]",
            ))) {
                return None;
            }
            match rfind(take_chars(prefix, e + 2), "/--") {
                Some(s) => {
                    let list = lines(slice(prefix, s + 3, e));
                    let ghost views = doc_lines(strs(list@));
                    let mut out: Vec<&str> = Vec::new();
                    for i in 0..list.len()
                        invariant
                            views == doc_lines(strs(list@)),
                            strs(out@) == views.take(i as int),
                    {
                        proof {
                            prefix_step(views, i as int);
                        }
                        out.push(trim(trim_start_of(trim(list[i]), Class::Is('*'))));
                    }
                    proof {
                        prefix_all(views);
                    }
                    Some(join_strs(&out, " "))
                },
                None => None,
            }
        },
        None => None,
    }
}

/// The number of line breaks in `text`.
pub open spec fn breaks(text: Seq<char>) -> nat
    decreases text.len(),
{
    if text.len() == 0 {
        0
    } else {
        breaks(text.drop_last()) + if text.last() == '\n' {
            1nat
        } else {
            0nat
        }
    }
}

/// Computes [`breaks`].
pub fn count_breaks(text: &str) -> (r: usize)
    ensures
        r == breaks(text@),
        r <= text@.len(),
{
    let mut count: usize = 0;
    let length = text.unicode_len();
    for c in it: text.chars()
        invariant
            it.seq() == text@,
            length == text@.len(),
            count == breaks(text@.take(it.index() as int)),
            count <= it.index(),
    {
        proof {
            prefix_step(text@, it.index() as int);
        }
        if c == '\n' {
            count += 1;
        }
    }
    proof {
        prefix_all(text@);
    }
    count
}

/// The characters at which the lines of `source` begin.
pub open spec fn starts_of(source: Seq<char>) -> Seq<int>
    decreases source.len(),
{
    if source.len() == 0 {
        seq![0]
    } else if source.last() == '\n' {
        starts_of(source.drop_last()).push(source.len() as int)
    } else {
        starts_of(source.drop_last())
    }
}

/// Computes [`starts_of`].
pub fn line_positions(source: &str) -> (r: Vec<usize>)
    ensures
        positions(r@) == starts_of(source@),
        r.len() > 0,
{
    let t = to_chars(source);
    let mut out: Vec<usize> = Vec::new();
    out.push(0);
    assert(positions(out@) =~= starts_of(source@.take(0)));
    for i in 0..t.len()
        invariant
            t@ == source@,
            out.len() > 0,
            positions(out@) == starts_of(source@.take(i as int)),
    {
        proof {
            prefix_step(source@, i as int);
        }
        if t[i] == '\n' {
            let ghost before = out@;
            out.push(i + 1);
            assert(positions(out@) =~= positions(before).push(i + 1));
        }
    }
    proof {
        prefix_all(source@);
    }
    out
}

/// The bytes at which the lines of `source` begin.
pub open spec fn byte_starts(source: Seq<char>) -> Seq<int>
    decreases source.len(),
{
    if source.len() == 0 {
        seq![0]
    } else if source.last() == '\n' {
        byte_starts(source.drop_last()).push(utf8_length(source) as int)
    } else {
        byte_starts(source.drop_last())
    }
}

/// Computes [`byte_starts`].
pub fn line_starts(source: &str) -> (r: Vec<usize>)
    ensures
        positions(r@) == byte_starts(source@),
        r.len() > 0,
{
    let t = to_chars(source);
    let total = source.as_bytes().len();
    let mut out: Vec<usize> = Vec::new();
    out.push(0);
    let mut bytes: usize = 0;
    assert(positions(out@) =~= byte_starts(source@.take(0)));
    for i in 0..t.len()
        invariant
            t@ == source@,
            total == encode_utf8(source@).len(),
            out.len() > 0,
            bytes == utf8_length(source@.take(i as int)),
            positions(out@) == byte_starts(source@.take(i as int)),
    {
        proof {
            prefix_step(source@, i as int);
            assert(source@.take(i + 1) + source@.skip(i + 1) =~= source@);
            utf8_length_of_concatenation(source@.take(i + 1), source@.skip(i + 1));
            utf8_length_counts_bytes(source@);
        }
        bytes += char_width(t[i]);
        if t[i] == '\n' {
            let ghost before = out@;
            out.push(bytes);
            assert(positions(out@) =~= positions(before).push(bytes as int));
        }
    }
    proof {
        prefix_all(source@);
    }
    out
}

/// How many of the leading numbers are at most `offset`.
pub open spec fn leading_up_to(list: Seq<int>, offset: int) -> int
    decreases list.len(),
{
    if list.len() == 0 || list[0] > offset {
        0
    } else {
        1 + leading_up_to(list.skip(1), offset)
    }
}

/// The number of the line that holds position `offset`, where `lines` are the positions
/// at which the lines begin.
pub open spec fn line_holding(lines: Seq<int>, offset: int) -> int {
    let n = leading_up_to(lines, offset);
    if n < 1 {
        1
    } else {
        n
    }
}

/// Computes [`line_holding`].
pub fn offset_line(lines: &Vec<usize>, offset: usize) -> (r: usize)
    ensures
        r == line_holding(positions(lines@), offset as int),
        1 <= r,
        r <= lines.len() || r == 1,
{
    let ghost all = positions(lines@);
    assert(all.len() == lines.len());
    let mut i: usize = 0;
    assert(all.skip(0) =~= all);
    while i < lines.len() && lines[i] <= offset
        invariant
            all == positions(lines@),
            all.len() == lines.len(),
            i <= lines.len(),
            leading_up_to(all, offset as int) == i + leading_up_to(
                all.skip(i as int),
                offset as int,
            ),
        decreases lines.len() - i,
    {
        assert(all.skip(i as int)[0] == lines@[i as int]);
        assert(all.skip(i as int).skip(1) =~= all.skip(i + 1));
        i += 1;
    }
    if i < lines.len() {
        assert(all.skip(i as int)[0] == lines@[i as int]);
    }
    if i < 1 {
        1
    } else {
        i
    }
}

/// Counting line breaks and finding the last line start agree: the line that holds a
/// byte is one more than the line breaks before it.
pub proof fn line_number_counts_breaks(source: Seq<char>, k: int)
    requires
        0 <= k <= source.len(),
    ensures
        line_holding(byte_starts(source), utf8_length(source.take(k)) as int) == 1 + breaks(
            source.take(k),
        ),
{
    byte_starts_shape(source);
    leading_of_starts(source, k);
}

proof fn byte_starts_shape(source: Seq<char>)
    ensures
        byte_starts(source).len() == 1 + breaks(source),
        byte_starts(source)[0] == 0,
        forall|i: int, j: int|
            0 <= i < j < byte_starts(source).len() ==> byte_starts(source)[i]
                < byte_starts(source)[j],
        forall|i: int| 0 <= i < byte_starts(source).len() ==> #[trigger] byte_starts(source)[i]
            <= utf8_length(source),
    decreases source.len(),
{
    if source.len() > 0 {
        byte_starts_shape(source.drop_last());
    }
}

proof fn leading_by_position(list: Seq<int>, offset: int, n: int)
    requires
        0 <= n <= list.len(),
        forall|i: int| 0 <= i < n ==> #[trigger] list[i] <= offset,
        n < list.len() ==> list[n] > offset,
    ensures
        leading_up_to(list, offset) == n,
    decreases n,
{
    if n > 0 {
        assert forall|i: int| 0 <= i < n - 1 implies #[trigger] list.skip(1)[i] <= offset by {
            assert(list[i + 1] <= offset);
        }
        leading_by_position(list.skip(1), offset, n - 1);
    }
}

proof fn leading_of_starts(source: Seq<char>, k: int)
    requires
        0 <= k <= source.len(),
    ensures
        leading_up_to(byte_starts(source), utf8_length(source.take(k)) as int) == 1 + breaks(
            source.take(k),
        ),
    decreases source.len(),
{
    let offset = utf8_length(source.take(k)) as int;
    byte_starts_shape(source);
    if k == source.len() {
        assert(source.take(k) =~= source);
        leading_by_position(byte_starts(source), offset, byte_starts(source).len() as int);
    } else {
        let shorter = source.drop_last();
        assert(shorter.take(k) =~= source.take(k));
        leading_of_starts(shorter, k);
        byte_starts_shape(shorter);
        let n = leading_up_to(byte_starts(shorter), offset);
        leading_is_prefix(byte_starts(shorter), offset);
        assert(shorter.take(k) + shorter.skip(k) =~= shorter);
        utf8_length_of_concatenation(shorter.take(k), shorter.skip(k));
        if source.last() == '\n' {
            leading_by_position(byte_starts(source), offset, n);
        }
    }
}

proof fn leading_is_prefix(list: Seq<int>, offset: int)
    ensures
        0 <= leading_up_to(list, offset) <= list.len(),
        forall|i: int| 0 <= i < leading_up_to(list, offset) ==> #[trigger] list[i] <= offset,
        leading_up_to(list, offset) < list.len() ==> list[leading_up_to(list, offset)] > offset,
    decreases list.len(),
{
    if list.len() > 0 && list[0] <= offset {
        leading_is_prefix(list.skip(1), offset);
        assert forall|i: int| 0 <= i < leading_up_to(list, offset) implies #[trigger] list[i]
            <= offset by {
            if i > 0 {
                assert(list.skip(1)[i - 1] == list[i]);
            }
        }
    }
}

} // verus!
