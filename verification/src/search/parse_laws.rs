//! How sources are read, on every input.
use crate::search::constructors::{
    bar_line, bar_lines, bar_margin, constructor_of, inductive_line, margin,
};
use crate::search::declarations::{
    base_signature, declaration_entries, declaration_entry, entries_of, first_import, full_name,
    import_entries, import_texts, marked_private, notation_entries, notation_entry, notation_label,
    private_before, stated_signature, value_signature, with_context, MatchView, NotationView,
};
use crate::search::fields::{
    declared_fields, field_entries, field_head, has_type, least_indent, line_below,
    parent_projection, with_indent, FieldPlace,
};
use crate::search::source::{
    ambient_line, ambient_step, block_stop, body_mark, bodyless_end, breaks, closing_doc,
    closing_line, depth_step, doc_lines, header_length, last_sixteen, line_from, namespace_parts,
    pair_at, past_header, scopes_step, starts_of, where_at,
};
use crate::text::chain::{label_begins, pushed_holds};
use crate::text::class::Class;
use crate::text::make::joined;
use crate::text::number::decimal;
use crate::text::pieces::{first_word, line_list, pieces};
use crate::text::scan::{
    bare, bare_start, begins, cut, ends, has_text, occurs_at, rfind_from_is_last, rfind_text,
    trimmed_start,
};
use vstd::prelude::*;

verus! {

/// The body of a declaration begins with an assignment or the word for its parts, and never
/// inside delimiters.
pub proof fn bodies_begin_outside_delimiters(code: Seq<char>, i: int, depth: nat)
    requires
        0 <= i <= code.len(),
    ensures
        body_mark(code, i, depth) matches Some(k) ==> i <= k < code.len() && (pair_at(
            code,
            k,
            ':',
            '=',
        ) || where_at(code, k)),
        i < code.len() && depth == 0 && (pair_at(code, i, ':', '=') || where_at(code, i))
            ==> body_mark(code, i, depth) == Some(i),
        i < code.len() && depth > 0 ==> body_mark(code, i, depth) == body_mark(
            code,
            i + 1,
            depth_step(depth, code[i]),
        ),
        depth_step(depth, '(') == depth + 1 && depth_step(depth, '[') == depth + 1 && depth_step(
            depth,
            '{',
        ) == depth + 1,
        depth > 0 ==> depth_step(depth, ')') == depth - 1 && depth_step(depth, ']') == depth - 1
            && depth_step(depth, '}') == depth - 1,
    decreases code.len() - i,
{
    if i < code.len() {
        bodies_begin_outside_delimiters(code, i + 1, depth_step(depth, code[i]));
    }
}

/// A header without a body ends before the first line that is not indented, or begins an
/// alternative or a list of derived instances.
pub proof fn headers_end_before_unindented_lines(code: Seq<char>, i: int)
    requires
        0 <= i <= code.len(),
    ensures
        i <= bodyless_end(code, i) <= code.len(),
        bodyless_end(code, i) < code.len() ==> code[bodyless_end(code, i)] == '\n' && ({
            let line = line_from(code, bodyless_end(code, i) + 1);
            let t = bare_start(line);
            t.len() > 0 && (t == line || begins(t, "|"@) || begins(t, "deriving"@))
        }),
        forall|j: int|
            i <= j < bodyless_end(code, i) && #[trigger] code[j] == '\n' ==> !past_header(
                line_from(code, j + 1),
            ),
    decreases code.len() - i,
{
    if i < code.len() && !(code[i] == '\n' && past_header(line_from(code, i + 1))) {
        headers_end_before_unindented_lines(code, i + 1);
    }
}

/// A declaration ends before the first line that closes a scope.
pub proof fn declarations_end_before_closing_lines(text: Seq<char>, i: int)
    requires
        0 <= i <= text.len(),
    ensures
        i <= block_stop(text, i) <= text.len(),
        forall|j: int|
            i <= j < block_stop(text, i) - 1 && #[trigger] text[j] == '\n' ==> !(line_from(
                text,
                j + 1,
            ) == "end"@ || begins(line_from(text, j + 1), "end "@)),
        block_stop(text, i) < text.len() ==> closing_line(line_from(text, block_stop(text, i))),
    decreases text.len() - i,
{
    if i < text.len() && !(text[i] == '\n' && closing_line(line_from(text, i + 1))) {
        declarations_end_before_closing_lines(text, i + 1);
    }
}

/// A scope that is opened and closed again leaves the scopes as they were; a namespace adds
/// its parts to the names in it, and a section none.
pub proof fn closed_scopes_leave_no_trace(
    scopes: Seq<Option<Seq<Seq<char>>>>,
    name: Seq<char>,
    rest: Seq<char>,
)
    requires
        first_word(name) == Some(name),
    ensures
        ({
            let opened = scopes_step(scopes, "namespace "@ + name);
            let section = scopes_step(scopes, "section"@);
            &&& namespace_parts(opened) == namespace_parts(scopes) + pieces(name, Class::Is('.'))
            &&& namespace_parts(section) == namespace_parts(scopes)
            &&& scopes_step(opened, "end"@) == scopes && scopes_step(opened, "end "@ + rest)
                == scopes
            &&& scopes_step(section, "end"@) == scopes
            &&& scopes_step(Seq::empty(), "end"@) == Seq::<Option<Seq<Seq<char>>>>::empty()
        }),
{
    reveal_strlit("namespace ");
    reveal_strlit("section");
    reveal_strlit("section ");
    reveal_strlit("end");
    reveal_strlit("end ");
    let line = "namespace "@ + name;
    label_begins("namespace "@, name);
    assert(line.skip(10) =~= name);
    let opened = scopes_step(scopes, line);
    assert(opened.drop_last() =~= scopes);
    if begins("section"@, "namespace "@) {
    }
    let section = scopes_step(scopes, "section"@);
    assert(section.drop_last() =~= scopes);
    assert(namespace_parts(section) =~= namespace_parts(scopes));
    let close = "end "@ + rest;
    label_begins("end "@, rest);
    if begins(close, "namespace "@) {
        assert(close.take(10)[0] == 'e');
    }
    if begins(close, "section "@) {
        assert(close.take(8)[0] == 'e');
    }
    assert(close[0] == 'e' && "section"@[0] == 's');
    if begins("end"@, "namespace "@) {
    }
    if begins("end"@, "section "@) {
    }
}

/// What is stated for the rest of a scope is forgotten when the scope is closed, and stays
/// in the scope around it.
pub proof fn ambient_lines_end_with_their_scope(
    scopes: Seq<Seq<Seq<char>>>,
    name: Seq<char>,
    line: Seq<char>,
)
    requires
        scopes.len() > 0,
        ambient_line(line),
        !closing_line(line),
        !begins(line, "namespace "@),
        line != "section"@,
        !begins(line, "section "@),
    ensures
        ({
            let opened = ambient_step(scopes, "namespace "@ + name);
            let stated = ambient_step(opened, line);
            &&& stated.len() == opened.len() && stated.last() == seq![
                crate::text::layout::one_line(line),
            ]
            &&& ambient_step(stated, "end"@) == scopes
            &&& ambient_step(scopes, line).last() == scopes.last().push(
                crate::text::layout::one_line(line),
            )
        }),
        begins(line, "universe "@) || begins(line, "variable "@) || begins(line, "include "@)
            || begins(line, "omit "@),
        !ends(line, " in"@),
{
    reveal_strlit("namespace ");
    reveal_strlit("end");
    reveal_strlit("section");
    reveal_strlit("section ");
    label_begins("namespace "@, name);
    let opened = ambient_step(scopes, "namespace "@ + name);
    let stated = ambient_step(opened, line);
    assert(opened.drop_last() =~= scopes);
    assert(stated.drop_last() =~= scopes);
    assert(stated.last() =~= seq![crate::text::layout::one_line(line)]);
    if begins("end"@, "namespace "@) {
    }
    if begins("end"@, "section "@) {
    }
}

/// At most sixteen lines of context are kept, the last of them.
pub proof fn the_last_context_is_kept(list: Seq<Seq<char>>, i: int)
    ensures
        list.len() <= 16 ==> last_sixteen(list) == list,
        list.len() > 16 ==> last_sixteen(list).len() == 16,
        list.len() > 16 && 0 <= i < 16 ==> last_sixteen(list)[i] == list[list.len() - 16 + i],
{
}

/// The documentation of a declaration is the comment right before it.
pub proof fn the_comment_before_is_the_documentation(before: Seq<char>, doc: Seq<char>)
    requires
        forall|j: int|
            before.len() < j ==> !#[trigger] occurs_at(
                before + "/--"@ + doc + "-/"@,
                "/--"@,
                j,
            ),
    ensures
        closing_doc(before + "/--"@ + doc + "-/"@) == Some(
            joined(doc_lines(line_list(doc)), " "@),
        ),
{
    reveal_strlit("/--");
    reveal_strlit("-/");
    let prefix = before + "/--"@ + doc + "-/"@;
    let e = prefix.len() - 2;
    assert(prefix.subrange(e, e + 2) =~= "-/"@);
    rfind_from_is_last(prefix, "-/"@, prefix.len() - 2);
    assert(rfind_text(prefix, "-/"@) == Some(e));
    let after = crate::text::scan::after_chars(prefix, e + 2);
    assert(after =~= Seq::<char>::empty());
    assert(bare(after).len() == 0) by {
        crate::text::scan::trimming_shortens(after, Class::Space);
    }
    assert(crate::text::scan::first_chars(prefix, e + 2) =~= prefix);
    let s = before.len() as int;
    assert(prefix.subrange(s, s + 3) =~= "/--"@);
    assert(occurs_at(prefix, "/--"@, s));
    rfind_from_is_last(prefix, "/--"@, prefix.len() - 3);
    let k = rfind_text(prefix, "/--"@)->0;
    assert(k == s) by {
        if k > s {
            assert(!occurs_at(prefix, "/--"@, k));
        }
    }
    assert(crate::text::scan::subtext(prefix, s + 3, e) =~= doc);
}

/// Line breaks add up, and every line begins at the beginning or behind one.
pub proof fn lines_begin_behind_breaks(a: Seq<char>, b: Seq<char>, p: int)
    ensures
        breaks(a + b) == breaks(a) + breaks(b),
        starts_of(a).len() == breaks(a) + 1,
        starts_of(a).contains(p) <==> p == 0 || (0 < p <= a.len() && a[p - 1] == '\n'),
    decreases a.len() + b.len(),
{
    if b.len() == 0 {
        assert(a + b =~= a);
    } else {
        lines_begin_behind_breaks(a, b.drop_last(), p);
        assert((a + b).drop_last() =~= a + b.drop_last());
    }
    if a.len() == 0 {
        assert(seq![0int][0] == 0);
        if seq![0int].contains(p) {
        }
    } else {
        let shorter = a.drop_last();
        lines_begin_behind_breaks(shorter, Seq::empty(), p);
        pushed_holds(starts_of(shorter), a.len() as int, p);
        if 0 < p <= shorter.len() {
            assert(shorter[p - 1] == a[p - 1]);
        }
    }
}

/// A declaration is named by its namespace and its own name; one that names the root keeps
/// its name; and one without a name by its line.
pub proof fn declarations_are_named_in_their_namespace(
    head: MatchView,
    namespace: Seq<Seq<char>>,
    line: nat,
)
    ensures
        head.name matches Some(raw) ==> {
            &&& begins(raw, "_root_."@) ==> full_name(head, namespace, line as int) == raw
            &&& namespace.len() == 0 ==> full_name(head, namespace, line as int) == raw
            &&& !begins(raw, "_root_."@) && namespace.len() > 0 ==> full_name(
                head,
                namespace,
                line as int,
            ) == joined(namespace, "."@) + "."@ + raw
        },
        head.name is None && namespace.len() == 0 ==> full_name(head, namespace, line as int)
            == "instance@"@ + decimal(line),
        head.name is None && namespace.len() > 0 ==> full_name(head, namespace, line as int)
            == joined(namespace, "."@) + ".instance@"@ + decimal(line),
{
}

/// A private declaration is marked as such, and no other is; a signature that is stated
/// comes before a value.
pub proof fn private_declarations_are_marked(text: Seq<char>, head: MatchView)
    ensures
        ({
            let own = if stated_signature(text, head).len() > 0 {
                stated_signature(text, head)
            } else {
                match value_signature(text, head) {
                    Some(v) => v,
                    None => stated_signature(text, head),
                }
            };
            let private = marked_private(crate::search::source::block_of(text), head.kind);
            &&& private ==> base_signature(text, head) == "[private] "@ + own
            &&& !private ==> base_signature(text, head) == own
        }),
{
}

/// The mark of a private declaration stands before its kind.
pub proof fn private_stands_before_the_kind(kind: Seq<char>, rest: Seq<Seq<char>>)
    requires
        kind != "private"@,
    ensures
        private_before(seq!["private"@, kind] + rest, kind),
        !private_before(seq![kind] + rest, kind),
        !private_before(Seq::empty(), kind),
{
    let list = seq!["private"@, kind] + rest;
    assert(list[0] == "private"@);
    assert((seq![kind] + rest)[0] == kind);
}

/// A declaration without a name is listed only where it is an instance; a structure and a
/// class are followed by their fields, and nothing else is.
pub proof fn structures_are_followed_by_their_fields(
    source: Seq<char>,
    code: Seq<char>,
    heads: Seq<MatchView>,
    k: int,
    limit: int,
)
    requires
        0 <= k < heads.len(),
    ensures
        ({
            let before = declaration_entries(source, code, heads, k, limit);
            let then = declaration_entries(source, code, heads, k + 1, limit);
            let entry = declaration_entry(source, code, heads, k, limit);
            let head = heads[k];
            let fields = field_entries(
                crate::search::source::block_of(
                    crate::search::declarations::declared_text(source, heads, k),
                ),
                entry.name,
                entry.line,
            );
            &&& head.name is None && head.kind != "instance"@ ==> then == before
            &&& (head.name is Some || head.kind == "instance"@) && (head.kind == "class"@
                || head.kind == "structure"@) ==> then == before.push(entry) + fields
            &&& (head.name is Some || head.kind == "instance"@) && head.kind != "class"@
                && head.kind != "structure"@ ==> then == before.push(entry)
            &&& entry.kind == head.kind
        }),
{
}

/// A declaration is shown with the context that it stands in, and alone where there is none.
pub proof fn declarations_stand_in_their_context(context: Seq<Seq<char>>, block: Seq<char>)
    ensures
        context.len() == 0 ==> with_context(context, block) == block,
        context.len() > 0 ==> begins(with_context(context, block), "-- ambient context\n"@) && ends(
            with_context(context, block),
            "\n\n"@ + block,
        ),
{
    if context.len() > 0 {
        let told = with_context(context, block);
        let head = "-- ambient context\n"@;
        let tail = "\n\n"@ + block;
        assert(told.take(head.len() as int) =~= head);
        assert(told.skip(told.len() - tail.len()) =~= tail);
    }
}

/// A notation is listed just where it introduces some literal.
pub proof fn notations_with_literals_are_listed(
    source: Seq<char>,
    code: Seq<char>,
    list: Seq<NotationView>,
    n: NotationView,
)
    ensures
        notation_label(n.literals).len() == 0 ==> notation_entries(source, code, list.push(n))
            == notation_entries(source, code, list),
        notation_label(n.literals).len() > 0 ==> notation_entries(source, code, list.push(n))
            == notation_entries(source, code, list).push(notation_entry(source, code, n)),
        notation_entry(source, code, n).kind == n.kind,
{
    assert(list.push(n).drop_last() =~= list);
}

/// The lines that import something are listed as they stand in the source, and the first of
/// them is where the list begins.
pub proof fn imports_are_listed(code: Seq<Seq<char>>, source: Seq<Seq<char>>, line: Seq<char>)
    requires
        code.len() < source.len(),
    ensures
        ({
            let imports = begins(bare_start(line), "import "@) || begins(
                bare_start(line),
                "public import "@,
            );
            &&& imports ==> import_texts(code.push(line), source) == import_texts(
                code,
                source,
            ).push(bare(source[code.len() as int]))
            &&& !imports ==> import_texts(code.push(line), source) == import_texts(code, source)
            &&& first_import(code, source) > 0 ==> first_import(code.push(line), source)
                == first_import(code, source)
            &&& first_import(code, source) == 0 && imports ==> first_import(
                code.push(line),
                source,
            ) == code.len() + 1
            &&& first_import(code, source) == 0 && !imports ==> first_import(
                code.push(line),
                source,
            ) == 0
        }),
{
    assert(code.push(line).drop_last() =~= code);
}

/// A file is an entry of its own, the last; its imports are one entry that counts them, and
/// a file without imports has none.
pub proof fn files_end_their_entries(
    source: Seq<char>,
    heads: Seq<MatchView>,
    notations: Seq<NotationView>,
    module: Seq<char>,
    limit: int,
)
    ensures
        ({
            let all = entries_of(source, heads, notations, module, limit);
            let code = crate::search::source::masked(source);
            let texts = import_texts(line_list(code), line_list(source));
            &&& all.len() > 0 && all.last().kind == "file"@ && all.last().name == module
                && all.last().line == 1
            &&& texts.len() == 0 ==> import_entries(source, code, module).len() == 0
            &&& texts.len() > 0 ==> import_entries(source, code, module).len() == 1
                && import_entries(source, code, module)[0].name == module + ".imports"@
                && import_entries(source, code, module)[0].kind == "imports"@
                && import_entries(source, code, module)[0].signature == decimal(texts.len())
                + " imports"@ && import_entries(source, code, module)[0].body == joined(texts, "\n"@)
        }),
{
}

/// A field has a type: a colon outside delimiters that is no assignment.
pub proof fn fields_have_a_type(text: Seq<char>, i: int)
    requires
        0 <= i < text.len(),
    ensures
        text[i] == ':' && !(i + 1 < text.len() && text[i + 1] == '=') ==> has_type(text, i, 0),
        text[i] != ':' ==> has_type(text, i, 0) == has_type(text, i + 1, depth_step(0, text[i])),
        has_type(text, i, 1) == has_type(text, i + 1, depth_step(1, text[i])),
{
}

/// A line that is not indented declares no field.
pub proof fn unindented_lines_declare_no_field(line: Seq<char>)
    requires
        trimmed_start(line, Class::Only(" \t")) == line,
    ensures
        field_head(line) is None,
{
}

/// Of the lines that look like fields those with the least indentation are fields.
pub proof fn fields_have_the_least_indentation(list: Seq<FieldPlace>, i: int, f: FieldPlace)
    ensures
        0 <= i < list.len() ==> least_indent(list) <= list[i].head.indent,
        list.len() > 0 ==> exists|k: int|
            0 <= k < list.len() && (#[trigger] list[k]).head.indent == least_indent(list),
        with_indent(list, least_indent(list)).contains(f) <==> list.contains(f) && f.head.indent
            == least_indent(list),
{
    least_is_least(list, i);
    indented_holds(list, least_indent(list), f);
}

proof fn least_is_least(list: Seq<FieldPlace>, i: int)
    ensures
        0 <= i < list.len() ==> least_indent(list) <= list[i].head.indent,
        list.len() > 0 ==> exists|k: int|
            0 <= k < list.len() && (#[trigger] list[k]).head.indent == least_indent(list),
    decreases list.len(),
{
    if list.len() > 1 {
        let shorter = list.drop_last();
        least_is_least(shorter, i);
        let k = choose|k: int|
            0 <= k < shorter.len() && (#[trigger] shorter[k]).head.indent == least_indent(shorter);
        assert(list[k] == shorter[k]);
        assert(list[list.len() - 1] == list.last());
        if 0 <= i < shorter.len() {
            assert(list[i] == shorter[i]);
        }
    } else if list.len() == 1 {
        assert(list[0].head.indent == least_indent(list));
    }
}

proof fn indented_holds(list: Seq<FieldPlace>, indent: nat, f: FieldPlace)
    ensures
        with_indent(list, indent).contains(f) <==> list.contains(f) && f.head.indent == indent,
    decreases list.len(),
{
    if list.len() > 0 {
        let shorter = list.drop_last();
        indented_holds(shorter, indent, f);
        assert(list =~= shorter.push(list.last()));
        pushed_holds(shorter, list.last(), f);
        pushed_holds(with_indent(shorter, indent), list.last(), f);
    }
}

/// A structure has an entry for each of its fields, named by the structure and the field;
/// one without a body has none.
pub proof fn fields_are_named_by_their_structure(
    block: Seq<char>,
    structure: Seq<char>,
    line: u64,
    i: int,
)
    ensures
        !occurs_at(block, "where"@, header_length(block)) ==> field_entries(
            block,
            structure,
            line,
        ).len() == 0,
        occurs_at(block, "where"@, header_length(block)) ==> field_entries(
            block,
            structure,
            line,
        ).len() == declared_fields(block).len(),
        0 <= i < field_entries(block, structure, line).len() ==> field_entries(
            block,
            structure,
            line,
        )[i].name == structure + "."@ + declared_fields(block)[i].head.name && field_entries(
            block,
            structure,
            line,
        )[i].kind == "field"@ && field_entries(block, structure, line)[i].line == line_below(
            line,
            breaks(crate::text::scan::first_chars(block, declared_fields(block)[i].offset)),
        ),
{
}

/// Only a structure that extends another has a projection to it.
pub proof fn projections_lead_to_parents(name: Seq<char>, signature: Seq<char>)
    ensures
        cut(signature, "extends "@) is None ==> parent_projection(name, signature) is None,
        parent_projection(name, signature) matches Some(p) ==> begins(p, name + ".to"@),
{
    if let Some(p) = parent_projection(name, signature) {
        assert(p.take((name + ".to"@).len() as int) =~= name + ".to"@);
    }
}

/// The constructors of a type begin at the least margin of all lines with a bar, and every
/// such line begins one.
pub proof fn constructors_begin_at_the_least_margin(
    list: Seq<Seq<char>>,
    from: int,
    to: int,
    i: int,
    m: usize,
)
    requires
        0 <= from,
        to <= list.len(),
    ensures
        from <= i < to && begins(bare_start(list[i]), "|"@) ==> bar_margin(list, from, to) is Some
            && bar_margin(list, from, to)->0 <= margin(list[i]),
        bar_margin(list, from, to) matches Some(least) ==> exists|k: int|
            from <= k < to && bar_line(#[trigger] list[k]) && margin(list[k]) == least,
        bar_lines(list, m, from, to).contains(i) <==> from <= i < to && bar_line(list[i])
            && margin(list[i]) == m,
    decreases to - from,
{
    if to > from {
        constructors_begin_at_the_least_margin(list, from, to - 1, i, m);
        pushed_holds(bar_lines(list, m, from, to - 1), to - 1, i);
        if bar_line(list[to - 1]) {
            assert(margin(list[to - 1]) == margin(list[to - 1]));
        }
    }
}

/// A constructor is named by its type unless its name has an owner of its own.
pub proof fn constructors_are_named_by_their_type(name: Seq<char>, text: Seq<char>, offset: u64)
    ensures
        constructor_of(name, text, offset) matches Some(c) ==> {
            let own = crate::text::scan::trimmed_end(first_word(text)->0, Class::Is(':'));
            &&& first_word(text) is Some && own.len() > 0
            &&& has_text(own, "."@) ==> c.name == own
            &&& !has_text(own, "."@) ==> c.name == name + "."@ + own
            &&& c.line_offset == offset
        },
        first_word(text) is None ==> constructor_of(name, text, offset) is None,
{
}

/// The line of an inductive declaration is the first that begins one.
pub proof fn the_first_inductive_line_counts(list: Seq<Seq<char>>, i: int, k: int)
    requires
        0 <= i <= k < list.len(),
        begins(bare_start(list[k]), "inductive "@),
        forall|j: int| i <= j < k ==> !begins(bare_start(#[trigger] list[j]), "inductive "@),
    ensures
        inductive_line(list, i) == k,
    decreases k - i,
{
    if i < k {
        the_first_inductive_line_counts(list, i + 1, k);
    }
}

} // verus!
