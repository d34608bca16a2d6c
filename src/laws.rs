use vstd::prelude::*;

use crate::color::{color_enabled, esc, reset_code};
use crate::keys::{element_key_lines, join_lines, key_line, key_lines, member_key_lines};
use crate::path::{decimal, digit_char, index_segment, key_segment, path_text};
use crate::pretty::{
    closing_break, lead, literal_text, member_head, punct, render, render_elements, render_members,
    separator,
};
use crate::text::spaces;
use crate::value::{elements_leaf_count, leaf_count, members_leaf_count, JsonValue};

verus! {

/// An empty object renders as `{}` and an empty array as `[]` when colour
/// is off, and in either mode the rendering of an empty container holds no
/// line break.
pub proof fn lemma_empty_containers(v: JsonValue, colored: bool)
    requires
        (v is Object && v->Object_0@.len() == 0) || (v is Array && v->Array_0@.len() == 0),
    ensures
        v is Object ==> render(v, Seq::empty(), false, false) == seq!['{', '}'],
        v is Array ==> render(v, Seq::empty(), false, false) == seq!['[', ']'],
        !render(v, Seq::empty(), false, colored).contains('\n'),
{
    let r = render(v, Seq::empty(), false, colored);
    assert(r =~= crate::color::bracket_code(colored) + seq![
        if v is Object {
            '{'
        } else {
            '['
        },
    ] + reset_code(colored) + crate::color::bracket_code(colored) + seq![
        if v is Object {
            '}'
        } else {
            ']'
        },
    ] + reset_code(colored));
    assert(render(v, Seq::empty(), false, false) =~= if v is Object {
        seq!['{', '}']
    } else {
        seq!['[', ']']
    });
}

/// Asking for colour and for monochrome at once gives monochrome, whatever
/// the terminal: neither output then adds an escape sequence to a text free
/// of it, for a document whose own text holds no escape character.
pub proof fn lemma_monochrome_wins(
    v: JsonValue,
    output_is_tty: bool,
    start: Seq<char>,
    segs: Seq<Seq<char>>,
    trailing: bool,
)
    requires
        escape_free(v),
        no_escape(start),
        segments_escape_free(segs),
    ensures
        !color_enabled(true, true, output_is_tty),
        no_escape(start + render(v, segs, trailing, color_enabled(true, true, output_is_tty))),
        no_escape(
            join_lines(start, key_lines(v, segs, color_enabled(true, true, output_is_tty))),
        ),
{
    lemma_monochrome_output_has_no_escape(v, start, segs, trailing);
}

/// No character of `s` is the escape that starts an ANSI sequence.
pub open spec fn no_escape(s: Seq<char>) -> bool {
    !s.contains(esc())
}

/// No key, string or number in the tree holds the escape character.
pub open spec fn escape_free(v: JsonValue) -> bool
    decreases v,
{
    match v {
        JsonValue::Object(ms) => members_escape_free(ms@),
        JsonValue::Array(es) => elements_escape_free(es@),
        JsonValue::Str(s) => no_escape(s@),
        JsonValue::Number(n) => no_escape(n@),
        _ => true,
    }
}

/// No key of `ms`, nor anything in their values, holds the escape character.
pub open spec fn members_escape_free(ms: Seq<(String, JsonValue)>) -> bool
    decreases ms,
{
    ms.len() == 0 || (members_escape_free(ms.drop_last()) && no_escape(ms.last().0@)
        && escape_free(ms.last().1))
}

/// No element of `es` holds the escape character.
pub open spec fn elements_escape_free(es: Seq<JsonValue>) -> bool
    decreases es,
{
    es.len() == 0 || (elements_escape_free(es.drop_last()) && escape_free(es.last()))
}

/// Every segment of a path is free of the escape character.
pub open spec fn segments_escape_free(segs: Seq<Seq<char>>) -> bool {
    forall|i: int| 0 <= i < segs.len() ==> no_escape(#[trigger] segs[i])
}

proof fn lemma_concat_contains(a: Seq<char>, b: Seq<char>, c: char)
    ensures
        (a + b).contains(c) == (a.contains(c) || b.contains(c)),
{
    if (a + b).contains(c) {
        let i = choose|i: int| 0 <= i < (a + b).len() && (a + b)[i] == c;
        if i < a.len() {
            assert(a[i] == c);
        } else {
            assert(b[i - a.len()] == c);
        }
    }
    if a.contains(c) {
        let i = choose|i: int| 0 <= i < a.len() && a[i] == c;
        assert((a + b)[i] == c);
    }
    if b.contains(c) {
        let i = choose|i: int| 0 <= i < b.len() && b[i] == c;
        assert((a + b)[i + a.len()] == c);
    }
}

proof fn lemma_decimal_no_escape(n: nat)
    ensures
        no_escape(decimal(n)),
    decreases n,
{
    let digits = seq!['0', '1', '2', '3', '4', '5', '6', '7', '8', '9'];
    assert(forall|d: nat| d < 10 ==> digit_char(d) != esc()) by {
        assert forall|d: nat| d < 10 implies digit_char(d) != esc() by {
            assert(digits[d as int] != esc());
        }
    }
    if n < 10 {
        assert(decimal(n) =~= seq![digit_char(n)]);
    } else {
        lemma_decimal_no_escape(n / 10);
        lemma_concat_contains(decimal(n / 10), seq![digit_char(n % 10)], esc());
        assert(decimal(n) =~= decimal(n / 10) + seq![digit_char(n % 10)]);
    }
}

pub(crate) proof fn lemma_index_segment_no_escape(i: nat)
    ensures
        no_escape(index_segment(i)),
{
    lemma_decimal_no_escape(i);
    lemma_concat_contains(seq!['['], decimal(i), esc());
    lemma_concat_contains(seq!['['] + decimal(i), seq![']'], esc());
}

pub(crate) proof fn lemma_key_segment_no_escape(key: Seq<char>)
    requires
        no_escape(key),
    ensures
        no_escape(key_segment(key)),
{
    lemma_concat_contains(seq!['.'], key, esc());
}

pub(crate) proof fn lemma_path_no_escape(segs: Seq<Seq<char>>)
    requires
        segments_escape_free(segs),
    ensures
        no_escape(path_text(segs)),
    decreases segs.len(),
{
    if segs.len() > 0 {
        assert(segments_escape_free(segs.drop_last()));
        lemma_path_no_escape(segs.drop_last());
        lemma_concat_contains(path_text(segs.drop_last()), segs.last(), esc());
    }
}

proof fn lemma_cat(a: Seq<char>, b: Seq<char>)
    requires
        no_escape(a),
        no_escape(b),
    ensures
        no_escape(a + b),
{
    lemma_concat_contains(a, b, esc());
}

proof fn lemma_plain_pieces_no_escape(level: nat, trailing: bool, c: char, n: nat, i: nat)
    requires
        c != esc(),
    ensures
        no_escape(spaces(level)),
        no_escape(lead(trailing, level)),
        no_escape(punct(c, false)),
        no_escape(closing_break(n, level)),
        no_escape(separator(i, false)),
{
    assert(punct(c, false) =~= seq![c]);
    assert(punct(',', false) =~= seq![',']);
    lemma_cat(seq!['\n'], spaces(2 * level));
}

pub(crate) proof fn lemma_extend_segments(segs: Seq<Seq<char>>, seg: Seq<char>)
    requires
        segments_escape_free(segs),
        no_escape(seg),
    ensures
        segments_escape_free(segs.push(seg)),
{
    assert forall|i: int| 0 <= i < segs.push(seg).len() implies no_escape(
        #[trigger] segs.push(seg)[i],
    ) by {
        if i < segs.len() {
            assert(segs.push(seg)[i] == segs[i]);
        }
    }
}

proof fn lemma_render_no_escape(v: JsonValue, segs: Seq<Seq<char>>, trailing: bool)
    requires
        escape_free(v),
        segments_escape_free(segs),
    ensures
        no_escape(render(v, segs, trailing, false)),
    decreases v,
{
    let level = segs.len();
    lemma_plain_pieces_no_escape(level, trailing, '{', 0, 0);
    match v {
        JsonValue::Object(ms) => {
            lemma_members_no_escape(ms@, segs);
            lemma_plain_pieces_no_escape(level, trailing, '}', ms@.len(), 0);
            lemma_cat(lead(trailing, level), punct('{', false));
            lemma_cat(lead(trailing, level) + punct('{', false), render_members(ms@, segs, false));
            let a = lead(trailing, level) + punct('{', false) + render_members(ms@, segs, false);
            lemma_cat(a, closing_break(ms@.len(), level));
            lemma_cat(a + closing_break(ms@.len(), level), punct('}', false));
        },
        JsonValue::Array(es) => {
            lemma_elements_no_escape(es@, segs);
            lemma_plain_pieces_no_escape(level, trailing, '[', es@.len(), 0);
            lemma_plain_pieces_no_escape(level, trailing, ']', es@.len(), 0);
            lemma_cat(lead(trailing, level), punct('[', false));
            lemma_cat(lead(trailing, level) + punct('[', false), render_elements(es@, segs, false));
            let a = lead(trailing, level) + punct('[', false) + render_elements(es@, segs, false);
            lemma_cat(a, closing_break(es@.len(), level));
            lemma_cat(a + closing_break(es@.len(), level), punct(']', false));
        },
        JsonValue::Str(t) => {
            assert(render(v, segs, trailing, false) =~= lead(trailing, level) + seq!['"'] + t@
                + seq!['"']);
            lemma_cat(lead(trailing, level), seq!['"']);
            lemma_cat(lead(trailing, level) + seq!['"'], t@);
            lemma_cat(lead(trailing, level) + seq!['"'] + t@, seq!['"']);
        },
        _ => {
            assert(no_escape(literal_text(v)));
            lemma_cat(lead(trailing, level), literal_text(v));
        },
    }
}

proof fn lemma_members_no_escape(ms: Seq<(String, JsonValue)>, segs: Seq<Seq<char>>)
    requires
        members_escape_free(ms),
        segments_escape_free(segs),
    ensures
        no_escape(render_members(ms, segs, false)),
    decreases ms,
{
    if ms.len() > 0 {
        let key = ms.last().0@;
        let i = (ms.len() - 1) as nat;
        lemma_members_no_escape(ms.drop_last(), segs);
        lemma_key_segment_no_escape(key);
        lemma_extend_segments(segs, key_segment(key));
        lemma_render_no_escape(ms.last().1, segs.push(key_segment(key)), true);
        lemma_plain_pieces_no_escape(segs.len() + 1, true, ':', 0, i);
        lemma_path_no_escape(segs);
        let head = member_head(segs, key, false);
        assert(head =~= seq!['\n'] + spaces(2 * (segs.len() + 1)) + path_text(segs) + key_segment(
            key,
        ) + seq![':']);
        lemma_cat(seq!['\n'], spaces(2 * (segs.len() + 1)));
        lemma_cat(seq!['\n'] + spaces(2 * (segs.len() + 1)), path_text(segs));
        lemma_cat(seq!['\n'] + spaces(2 * (segs.len() + 1)) + path_text(segs), key_segment(key));
        lemma_cat(
            seq!['\n'] + spaces(2 * (segs.len() + 1)) + path_text(segs) + key_segment(key),
            seq![':'],
        );
        let r = render_members(ms.drop_last(), segs, false);
        lemma_cat(r, separator(i, false));
        lemma_cat(r + separator(i, false), head);
        lemma_cat(
            r + separator(i, false) + head,
            render(ms.last().1, segs.push(key_segment(key)), true, false),
        );
    }
}

proof fn lemma_elements_no_escape(es: Seq<JsonValue>, segs: Seq<Seq<char>>)
    requires
        elements_escape_free(es),
        segments_escape_free(segs),
    ensures
        no_escape(render_elements(es, segs, false)),
    decreases es,
{
    if es.len() > 0 {
        let i = (es.len() - 1) as nat;
        lemma_elements_no_escape(es.drop_last(), segs);
        lemma_index_segment_no_escape(i);
        lemma_extend_segments(segs, index_segment(i));
        lemma_render_no_escape(es.last(), segs.push(index_segment(i)), false);
        lemma_plain_pieces_no_escape(0, true, ',', 0, i);
        let r = render_elements(es.drop_last(), segs, false);
        lemma_cat(r, separator(i, false));
        lemma_cat(r + separator(i, false), seq!['\n']);
        lemma_cat(
            r + separator(i, false) + seq!['\n'],
            render(es.last(), segs.push(index_segment(i)), false, false),
        );
    }
}

/// Every line in `lines` is free of the escape character.
pub open spec fn lines_escape_free(lines: Seq<Seq<char>>) -> bool {
    forall|i: int| 0 <= i < lines.len() ==> no_escape(#[trigger] lines[i])
}

proof fn lemma_lines_cat(a: Seq<Seq<char>>, b: Seq<Seq<char>>)
    requires
        lines_escape_free(a),
        lines_escape_free(b),
    ensures
        lines_escape_free(a + b),
{
    assert forall|i: int| 0 <= i < (a + b).len() implies no_escape(#[trigger] (a + b)[i]) by {
        if i < a.len() {
            assert((a + b)[i] == a[i]);
        } else {
            assert((a + b)[i] == b[i - a.len()]);
        }
    }
}

proof fn lemma_key_lines_no_escape(v: JsonValue, segs: Seq<Seq<char>>)
    requires
        escape_free(v),
        segments_escape_free(segs),
    ensures
        lines_escape_free(key_lines(v, segs, false)),
    decreases v,
{
    match v {
        JsonValue::Object(ms) => lemma_member_key_lines_no_escape(ms@, segs),
        JsonValue::Array(es) => lemma_element_key_lines_no_escape(es@, segs),
        _ => {
            if segs.len() > 0 {
                lemma_path_no_escape(segs);
                assert(key_line(path_text(segs), false) =~= path_text(segs));
                assert(lines_escape_free(seq![path_text(segs)]));
            }
        },
    }
}

proof fn lemma_member_key_lines_no_escape(ms: Seq<(String, JsonValue)>, segs: Seq<Seq<char>>)
    requires
        members_escape_free(ms),
        segments_escape_free(segs),
    ensures
        lines_escape_free(member_key_lines(ms, segs, false)),
    decreases ms,
{
    if ms.len() > 0 {
        let key = ms.last().0@;
        lemma_member_key_lines_no_escape(ms.drop_last(), segs);
        lemma_key_segment_no_escape(key);
        lemma_extend_segments(segs, key_segment(key));
        lemma_key_lines_no_escape(ms.last().1, segs.push(key_segment(key)));
        lemma_lines_cat(
            member_key_lines(ms.drop_last(), segs, false),
            key_lines(ms.last().1, segs.push(key_segment(key)), false),
        );
    }
}

proof fn lemma_element_key_lines_no_escape(es: Seq<JsonValue>, segs: Seq<Seq<char>>)
    requires
        elements_escape_free(es),
        segments_escape_free(segs),
    ensures
        lines_escape_free(element_key_lines(es, segs, false)),
    decreases es,
{
    if es.len() > 0 {
        let i = (es.len() - 1) as nat;
        lemma_element_key_lines_no_escape(es.drop_last(), segs);
        lemma_index_segment_no_escape(i);
        lemma_extend_segments(segs, index_segment(i));
        lemma_key_lines_no_escape(es.last(), segs.push(index_segment(i)));
        lemma_lines_cat(
            element_key_lines(es.drop_last(), segs, false),
            key_lines(es.last(), segs.push(index_segment(i)), false),
        );
    }
}

proof fn lemma_join_no_escape(text: Seq<char>, lines: Seq<Seq<char>>)
    requires
        no_escape(text),
        lines_escape_free(lines),
    ensures
        no_escape(join_lines(text, lines)),
    decreases lines.len(),
{
    if lines.len() > 0 {
        let rest = lines.drop_last();
        assert(lines_escape_free(rest)) by {
            assert forall|i: int| 0 <= i < rest.len() implies no_escape(#[trigger] rest[i]) by {
                assert(rest[i] == lines[i]);
            }
        }
        lemma_join_no_escape(text, rest);
        let j = join_lines(text, rest);
        assert(no_escape(lines[lines.len() - 1]));
        lemma_cat(j.push('\n'), lines.last());
        lemma_cat(j, seq!['\n']);
        assert(j.push('\n') =~= j + seq!['\n']);
    }
}

/// With colour off, neither the rendering nor the key listing adds an ANSI
/// escape sequence: appended to a text free of the escape character, at any
/// path whose segments are free of it, the result is free of it too,
/// provided that the document's own keys, strings and numbers hold none.
pub proof fn lemma_monochrome_output_has_no_escape(
    v: JsonValue,
    start: Seq<char>,
    segs: Seq<Seq<char>>,
    trailing: bool,
)
    requires
        escape_free(v),
        no_escape(start),
        segments_escape_free(segs),
    ensures
        no_escape(start + render(v, segs, trailing, false)),
        no_escape(join_lines(start, key_lines(v, segs, false))),
{
    lemma_render_no_escape(v, segs, trailing);
    lemma_cat(start, render(v, segs, trailing, false));
    lemma_key_lines_no_escape(v, segs);
    lemma_join_no_escape(start, key_lines(v, segs, false));
}

proof fn lemma_key_lines_len(v: JsonValue, segs: Seq<Seq<char>>, colored: bool)
    ensures
        key_lines(v, segs, colored).len() == if segs.len() == 0 && v.is_leaf() {
            0
        } else {
            leaf_count(v)
        },
    decreases v,
{
    match v {
        JsonValue::Object(ms) => lemma_member_key_lines_len(ms@, segs, colored),
        JsonValue::Array(es) => lemma_element_key_lines_len(es@, segs, colored),
        _ => {},
    }
}

proof fn lemma_member_key_lines_len(
    ms: Seq<(String, JsonValue)>,
    segs: Seq<Seq<char>>,
    colored: bool,
)
    ensures
        member_key_lines(ms, segs, colored).len() == members_leaf_count(ms),
    decreases ms,
{
    if ms.len() > 0 {
        lemma_member_key_lines_len(ms.drop_last(), segs, colored);
        lemma_key_lines_len(ms.last().1, segs.push(key_segment(ms.last().0@)), colored);
    }
}

proof fn lemma_element_key_lines_len(es: Seq<JsonValue>, segs: Seq<Seq<char>>, colored: bool)
    ensures
        element_key_lines(es, segs, colored).len() == elements_leaf_count(es),
    decreases es,
{
    if es.len() > 0 {
        let i = (es.len() - 1) as nat;
        lemma_element_key_lines_len(es.drop_last(), segs, colored);
        lemma_key_lines_len(es.last(), segs.push(index_segment(i)), colored);
    }
}

/// The key listing of a document whose root is an object or an array holds
/// one line per leaf; a document whose root is a scalar lists nothing.
pub proof fn lemma_key_listing_line_count(v: JsonValue, colored: bool)
    ensures
        !v.is_leaf() ==> key_lines(v, Seq::empty(), colored).len() == leaf_count(v),
        v.is_leaf() ==> join_lines(Seq::empty(), key_lines(v, Seq::empty(), colored))
            == Seq::<char>::empty(),
{
    lemma_key_lines_len(v, Seq::empty(), colored);
    if v.is_leaf() {
        assert(key_lines(v, Seq::empty(), colored) =~= Seq::<Seq<char>>::empty());
    }
}

/// `t` stands somewhere in `s` as a contiguous run of characters.
pub open spec fn occurs_in(t: Seq<char>, s: Seq<char>) -> bool {
    exists|j: int| 0 <= j && j + t.len() <= s.len() && #[trigger] s.subrange(j, j + t.len()) == t
}

proof fn lemma_occurs_in_context(t: Seq<char>, a: Seq<char>, b: Seq<char>, c: Seq<char>)
    requires
        occurs_in(t, b),
    ensures
        occurs_in(t, a + b + c),
{
    let j = choose|j: int| 0 <= j && j + t.len() <= b.len() && #[trigger] b.subrange(j, j + t.len()) == t;
    let s = a + b + c;
    assert(s.subrange(j + a.len(), j + a.len() + t.len()) =~= b.subrange(j, j + t.len()));
}

/// The paths, as segment lists, of the leaves that are values of object
/// members, in document order.
pub open spec fn member_leaf_paths(v: JsonValue, segs: Seq<Seq<char>>) -> Seq<Seq<Seq<char>>>
    decreases v,
{
    match v {
        JsonValue::Object(ms) => members_leaf_paths(ms@, segs),
        JsonValue::Array(es) => elements_leaf_paths(es@, segs),
        _ => Seq::empty(),
    }
}

/// The member leaf paths in the members `ms` of an object reached at `segs`.
pub open spec fn members_leaf_paths(ms: Seq<(String, JsonValue)>, segs: Seq<Seq<char>>) -> Seq<
    Seq<Seq<char>>,
>
    decreases ms,
{
    if ms.len() == 0 {
        Seq::empty()
    } else {
        let child = segs.push(key_segment(ms.last().0@));
        members_leaf_paths(ms.drop_last(), segs) + if ms.last().1.is_leaf() {
            seq![child]
        } else {
            member_leaf_paths(ms.last().1, child)
        }
    }
}

/// The member leaf paths in the elements `es` of an array reached at `segs`.
pub open spec fn elements_leaf_paths(es: Seq<JsonValue>, segs: Seq<Seq<char>>) -> Seq<
    Seq<Seq<char>>,
>
    decreases es,
{
    if es.len() == 0 {
        Seq::empty()
    } else {
        elements_leaf_paths(es.drop_last(), segs) + member_leaf_paths(
            es.last(),
            segs.push(index_segment((es.len() - 1) as nat)),
        )
    }
}

/// The monochrome line that introduces the member at `path`: a line break,
/// the indentation of its depth, its full path and a colon.
pub open spec fn member_line(path: Seq<Seq<char>>) -> Seq<char> {
    seq!['\n'] + spaces(2 * path.len()) + path_text(path) + seq![':']
}

/// Each path of `paths` is a line of `lines` and introduces its member in `s`.
pub open spec fn paths_shown(paths: Seq<Seq<Seq<char>>>, lines: Seq<Seq<char>>, s: Seq<char>) -> bool {
    forall|k: int|
        0 <= k < paths.len() ==> lines.contains(path_text(#[trigger] paths[k])) && occurs_in(
            member_line(paths[k]),
            s,
        )
}

proof fn lemma_paths_shown_context(
    paths: Seq<Seq<Seq<char>>>,
    la: Seq<Seq<char>>,
    lines: Seq<Seq<char>>,
    lc: Seq<Seq<char>>,
    a: Seq<char>,
    b: Seq<char>,
    c: Seq<char>,
)
    requires
        paths_shown(paths, lines, b),
    ensures
        paths_shown(paths, la + lines + lc, a + b + c),
{
    assert forall|k: int| 0 <= k < paths.len() implies (la + lines + lc).contains(
        path_text(#[trigger] paths[k]),
    ) && occurs_in(member_line(paths[k]), a + b + c) by {
        lemma_occurs_in_context(member_line(paths[k]), a, b, c);
        let j = choose|j: int| 0 <= j < lines.len() && lines[j] == path_text(paths[k]);
        assert((la + lines + lc)[j + la.len()] == lines[j]);
    }
}

proof fn lemma_paths_shown_cat(
    pa: Seq<Seq<Seq<char>>>,
    pb: Seq<Seq<Seq<char>>>,
    lines: Seq<Seq<char>>,
    s: Seq<char>,
)
    requires
        paths_shown(pa, lines, s),
        paths_shown(pb, lines, s),
    ensures
        paths_shown(pa + pb, lines, s),
{
    assert forall|k: int| 0 <= k < (pa + pb).len() implies lines.contains(
        path_text(#[trigger] (pa + pb)[k]),
    ) && occurs_in(member_line((pa + pb)[k]), s) by {
        if k < pa.len() {
            assert((pa + pb)[k] == pa[k]);
        } else {
            assert((pa + pb)[k] == pb[k - pa.len()]);
        }
    }
}

proof fn lemma_paths_shown_render(v: JsonValue, segs: Seq<Seq<char>>, trailing: bool)
    ensures
        paths_shown(member_leaf_paths(v, segs), key_lines(v, segs, false), render(v, segs, trailing, false)),
    decreases v,
{
    let level = segs.len();
    let e = Seq::<Seq<char>>::empty();
    match v {
        JsonValue::Object(ms) => {
            lemma_paths_shown_members(ms@, segs);
            lemma_paths_shown_context(
                member_leaf_paths(v, segs),
                e,
                key_lines(v, segs, false),
                e,
                lead(trailing, level) + punct('{', false),
                render_members(ms@, segs, false),
                closing_break(ms@.len(), level) + punct('}', false),
            );
            assert(e + key_lines(v, segs, false) + e =~= key_lines(v, segs, false));
            assert(render(v, segs, trailing, false) =~= lead(trailing, level) + punct('{', false)
                + render_members(ms@, segs, false) + (closing_break(ms@.len(), level) + punct(
                '}',
                false,
            )));
        },
        JsonValue::Array(es) => {
            lemma_paths_shown_elements(es@, segs);
            lemma_paths_shown_context(
                member_leaf_paths(v, segs),
                e,
                key_lines(v, segs, false),
                e,
                lead(trailing, level) + punct('[', false),
                render_elements(es@, segs, false),
                closing_break(es@.len(), level) + punct(']', false),
            );
            assert(e + key_lines(v, segs, false) + e =~= key_lines(v, segs, false));
            assert(render(v, segs, trailing, false) =~= lead(trailing, level) + punct('[', false)
                + render_elements(es@, segs, false) + (closing_break(es@.len(), level) + punct(
                ']',
                false,
            )));
        },
        _ => {},
    }
}

proof fn lemma_paths_shown_members(ms: Seq<(String, JsonValue)>, segs: Seq<Seq<char>>)
    ensures
        paths_shown(
            members_leaf_paths(ms, segs),
            member_key_lines(ms, segs, false),
            render_members(ms, segs, false),
        ),
    decreases ms,
{
    if ms.len() > 0 {
        let key = ms.last().0@;
        let value = ms.last().1;
        let child = segs.push(key_segment(key));
        let i = (ms.len() - 1) as nat;
        let pa = members_leaf_paths(ms.drop_last(), segs);
        let pb = if value.is_leaf() {
            seq![child]
        } else {
            member_leaf_paths(value, child)
        };
        let la = member_key_lines(ms.drop_last(), segs, false);
        let lb = key_lines(value, child, false);
        let ra = render_members(ms.drop_last(), segs, false);
        let head = member_head(segs, key, false);
        let rb = render(value, child, true, false);
        let e = Seq::<char>::empty();
        let el = Seq::<Seq<char>>::empty();
        lemma_paths_shown_members(ms.drop_last(), segs);
        lemma_paths_shown_render(value, child, true);
        let whole = ra + separator(i, false) + head + rb;
        assert(whole == render_members(ms, segs, false));
        assert(la + lb == member_key_lines(ms, segs, false));
        assert(whole =~= e + ra + (separator(i, false) + head + rb));
        lemma_paths_shown_context(pa, el, la, lb, e, ra, separator(i, false) + head + rb);
        assert(el + la + lb =~= la + lb);
        if value.is_leaf() {
            assert(child.drop_last() =~= segs);
            assert(path_text(child) == path_text(segs) + key_segment(key));
            assert(head =~= member_line(child));
            assert(lb =~= seq![path_text(child)]);
            assert(lb[0] == path_text(child));
            assert(occurs_in(member_line(child), head)) by {
                let t = member_line(child);
                let j: int = 0;
                assert(head.subrange(j, j + t.len()) =~= t);
            }
            assert(paths_shown(pb, lb, head)) by {
                assert forall|k: int| 0 <= k < pb.len() implies lb.contains(
                    path_text(#[trigger] pb[k]),
                ) && occurs_in(member_line(pb[k]), head) by {
                    assert(pb[k] == child);
                }
            }
            lemma_paths_shown_context(
                pb,
                la,
                lb,
                el,
                ra + separator(i, false),
                head,
                rb,
            );
            assert(la + lb + el =~= la + lb);
        } else {
            assert(whole =~= ra + separator(i, false) + head + rb + e);
            lemma_paths_shown_context(pb, la, lb, el, ra + separator(i, false) + head, rb, e);
            assert(la + lb + el =~= la + lb);
        }
        lemma_paths_shown_cat(pa, pb, la + lb, whole);
    }
}

proof fn lemma_paths_shown_elements(es: Seq<JsonValue>, segs: Seq<Seq<char>>)
    ensures
        paths_shown(
            elements_leaf_paths(es, segs),
            element_key_lines(es, segs, false),
            render_elements(es, segs, false),
        ),
    decreases es,
{
    if es.len() > 0 {
        let i = (es.len() - 1) as nat;
        let child = segs.push(index_segment(i));
        let pa = elements_leaf_paths(es.drop_last(), segs);
        let pb = member_leaf_paths(es.last(), child);
        let la = element_key_lines(es.drop_last(), segs, false);
        let lb = key_lines(es.last(), child, false);
        let ra = render_elements(es.drop_last(), segs, false);
        let rb = render(es.last(), child, false, false);
        let e = Seq::<char>::empty();
        let el = Seq::<Seq<char>>::empty();
        lemma_paths_shown_elements(es.drop_last(), segs);
        lemma_paths_shown_render(es.last(), child, false);
        let whole = ra + separator(i, false) + seq!['\n'] + rb;
        assert(whole =~= e + ra + (separator(i, false) + seq!['\n'] + rb));
        lemma_paths_shown_context(pa, el, la, lb, e, ra, separator(i, false) + seq!['\n'] + rb);
        assert(whole =~= ra + separator(i, false) + seq!['\n'] + rb + e);
        lemma_paths_shown_context(pb, la, lb, el, ra + separator(i, false) + seq!['\n'], rb, e);
        assert(el + la + lb =~= la + lb);
        assert(la + lb + el =~= la + lb);
        lemma_paths_shown_cat(pa, pb, la + lb, whole);
    }
}

/// Each leaf that is the value of an object member is listed by the
/// monochrome key listing under its path `P`, and the monochrome rendering
/// introduces it by a line break, the indentation of its depth, the same
/// `P` and a colon.
pub proof fn lemma_listed_paths_are_shown(v: JsonValue, segs: Seq<Seq<char>>, trailing: bool)
    ensures
        forall|k: int|
            0 <= k < member_leaf_paths(v, segs).len() ==> key_lines(v, segs, false).contains(
                path_text(#[trigger] member_leaf_paths(v, segs)[k]),
            ) && occurs_in(
                member_line(member_leaf_paths(v, segs)[k]),
                render(v, segs, trailing, false),
            ),
{
    lemma_paths_shown_render(v, segs, trailing);
}

} // verus!
