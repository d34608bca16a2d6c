use vstd::prelude::*;

use crate::color::{bracket_code, esc, key_code, reset_code, string_code};
use crate::laws::{
    elements_escape_free, escape_free, lemma_extend_segments, lemma_index_segment_no_escape,
    lemma_key_segment_no_escape, lemma_path_no_escape, members_escape_free, no_escape,
    segments_escape_free,
};
use crate::layout::{json_text, lemma_renders_as_json_escape_free, renders_as_json, strip_layout};
use crate::path::{index_segment, key_segment, path_text};
use crate::pretty::{
    closing_break, lead, literal_text, member_head, punct, render, render_elements, render_members,
    separator,
};
use crate::text::spaces;
use crate::value::JsonValue;

verus! {

/// Whether an escape sequence is still open after `s` is read from state
/// `in_code`: one opens with the escape character and closes with `m`.
pub open spec fn ends_in_code(s: Seq<char>, in_code: bool) -> bool
    decreases s.len(),
{
    if s.len() == 0 {
        in_code
    } else {
        let c = s[0];
        ends_in_code(s.drop_first(), if in_code { c != 'm' } else { c == esc() })
    }
}

/// `s` without its ANSI colour sequences.
pub open spec fn strip_codes(s: Seq<char>, in_code: bool) -> Seq<char>
    decreases s.len(),
{
    if s.len() == 0 {
        Seq::empty()
    } else {
        let c = s[0];
        let rest = s.drop_first();
        if in_code {
            strip_codes(rest, c != 'm')
        } else if c == esc() {
            strip_codes(rest, true)
        } else {
            seq![c] + strip_codes(rest, false)
        }
    }
}

proof fn lemma_codes_concat(a: Seq<char>, b: Seq<char>, st: bool)
    ensures
        strip_codes(a + b, st) == strip_codes(a, st) + strip_codes(b, ends_in_code(a, st)),
        ends_in_code(a + b, st) == ends_in_code(b, ends_in_code(a, st)),
    decreases a.len(),
{
    if a.len() == 0 {
        assert(a + b =~= b);
    } else {
        let c = a[0];
        let next = if st {
            c != 'm'
        } else {
            c == esc()
        };
        lemma_codes_concat(a.drop_first(), b, next);
        assert((a + b).drop_first() =~= a.drop_first() + b);
        assert((a + b)[0] == c);
        if !st && c != esc() {
            assert(strip_codes(a + b, st) =~= strip_codes(a, st) + strip_codes(
                b,
                ends_in_code(a, st),
            ));
        }
    }
}

proof fn lemma_cat(a: Seq<char>, b: Seq<char>)
    requires
        !ends_in_code(a, false),
    ensures
        strip_codes(a + b, false) == strip_codes(a, false) + strip_codes(b, false),
        ends_in_code(a + b, false) == ends_in_code(b, false),
{
    lemma_codes_concat(a, b, false);
}

/// Text without the escape character has no code to remove.
proof fn lemma_plain(t: Seq<char>)
    requires
        no_escape(t),
    ensures
        strip_codes(t, false) == t,
        !ends_in_code(t, false),
    decreases t.len(),
{
    if t.len() > 0 {
        assert(t[0] != esc());
        if t.drop_first().contains(esc()) {
            let i = choose|i: int| 0 <= i < t.drop_first().len() && t.drop_first()[i] == esc();
            assert(t[i + 1] == esc());
        }
        lemma_plain(t.drop_first());
        assert(t =~= seq![t[0]] + t.drop_first());
    }
}

/// The rest of an escape sequence, up to and including its closing `m`.
proof fn lemma_code_tail(t: Seq<char>)
    requires
        t.len() > 0,
        t.last() == 'm',
        forall|i: int| 0 <= i < t.len() - 1 ==> t[i] != 'm',
    ensures
        strip_codes(t, true) == Seq::<char>::empty(),
        !ends_in_code(t, true),
    decreases t.len(),
{
    if t.len() == 1 {
        assert(t.drop_first() =~= Seq::<char>::empty());
        assert(strip_codes(Seq::<char>::empty(), false) == Seq::<char>::empty());
        assert(!ends_in_code(Seq::<char>::empty(), false));
    } else {
        lemma_code_tail(t.drop_first());
    }
}

proof fn lemma_code(tail: Seq<char>)
    requires
        tail.len() > 0,
        tail.last() == 'm',
        forall|i: int| 0 <= i < tail.len() - 1 ==> tail[i] != 'm',
    ensures
        strip_codes(seq![esc()] + tail, false) == Seq::<char>::empty(),
        !ends_in_code(seq![esc()] + tail, false),
{
    lemma_code_tail(tail);
    assert((seq![esc()] + tail).drop_first() =~= tail);
}

proof fn lemma_color_codes()
    ensures
        strip_codes(reset_code(true), false) == Seq::<char>::empty(),
        !ends_in_code(reset_code(true), false),
        strip_codes(bracket_code(true), false) == Seq::<char>::empty(),
        !ends_in_code(bracket_code(true), false),
        strip_codes(key_code(true), false) == Seq::<char>::empty(),
        !ends_in_code(key_code(true), false),
        strip_codes(string_code(true), false) == Seq::<char>::empty(),
        !ends_in_code(string_code(true), false),
{
    let r = seq!['[', '0', 'm'];
    let b = seq!['[', '1', 'm'];
    let k = seq!['[', '1', ';', '3', '4', 'm'];
    let g = seq!['[', '3', '2', 'm'];
    lemma_code(r);
    lemma_code(b);
    lemma_code(k);
    lemma_code(g);
    assert(reset_code(true) =~= seq![esc()] + r);
    assert(key_code(true) =~= seq![esc()] + k);
    assert(string_code(true) =~= seq![esc()] + g);
    assert(bracket_code(true) =~= (seq![esc()] + r) + (seq![esc()] + b));
    lemma_cat(seq![esc()] + r, seq![esc()] + b);
}

proof fn lemma_punct(c: char)
    requires
        c != esc(),
    ensures
        strip_codes(punct(c, true), false) == punct(c, false),
        !ends_in_code(punct(c, true), false),
{
    lemma_color_codes();
    assert(no_escape(seq![c]));
    lemma_plain(seq![c]);
    lemma_cat(bracket_code(true), seq![c]);
    lemma_cat(bracket_code(true) + seq![c], reset_code(true));
    assert(punct(c, false) =~= seq![c]);
}

proof fn lemma_layout_pieces(trailing: bool, level: nat, n: nat, i: nat)
    ensures
        strip_codes(lead(trailing, level), false) == lead(trailing, level),
        !ends_in_code(lead(trailing, level), false),
        strip_codes(closing_break(n, level), false) == closing_break(n, level),
        !ends_in_code(closing_break(n, level), false),
        strip_codes(separator(i, true), false) == separator(i, false),
        !ends_in_code(separator(i, true), false),
        strip_codes(spaces(level), false) == spaces(level),
        !ends_in_code(spaces(level), false),
{
    assert(no_escape(lead(trailing, level)));
    assert(no_escape(closing_break(n, level)));
    assert(no_escape(spaces(level)));
    lemma_plain(lead(trailing, level));
    lemma_plain(closing_break(n, level));
    lemma_plain(spaces(level));
    lemma_punct(',');
    assert(no_escape(Seq::<char>::empty()));
    lemma_plain(Seq::<char>::empty());
}

proof fn lemma_render_decolor(v: JsonValue, segs: Seq<Seq<char>>, trailing: bool)
    requires
        escape_free(v),
        segments_escape_free(segs),
    ensures
        strip_codes(render(v, segs, trailing, true), false) == render(v, segs, trailing, false),
        !ends_in_code(render(v, segs, trailing, true), false),
    decreases v,
{
    let level = segs.len();
    let l = lead(trailing, level);
    lemma_layout_pieces(trailing, level, 0, 0);
    lemma_color_codes();
    match v {
        JsonValue::Object(ms) => {
            lemma_members_decolor(ms@, segs);
            lemma_layout_pieces(trailing, level, ms@.len(), 0);
            lemma_punct('{');
            lemma_punct('}');
            let body = render_members(ms@, segs, true);
            let close = closing_break(ms@.len(), level);
            lemma_cat(l, punct('{', true));
            lemma_cat(l + punct('{', true), body);
            lemma_cat(l + punct('{', true) + body, close);
            lemma_cat(l + punct('{', true) + body + close, punct('}', true));
        },
        JsonValue::Array(es) => {
            lemma_elements_decolor(es@, segs);
            lemma_layout_pieces(trailing, level, es@.len(), 0);
            lemma_punct('[');
            lemma_punct(']');
            let body = render_elements(es@, segs, true);
            let close = closing_break(es@.len(), level);
            lemma_cat(l, punct('[', true));
            lemma_cat(l + punct('[', true), body);
            lemma_cat(l + punct('[', true) + body, close);
            lemma_cat(l + punct('[', true) + body + close, punct(']', true));
        },
        JsonValue::Str(s) => {
            let q = seq!['"'];
            assert(no_escape(q));
            lemma_plain(q);
            lemma_plain(s@);
            let g = string_code(true);
            lemma_cat(l, g);
            lemma_cat(l + g, q);
            lemma_cat(l + g + q, s@);
            lemma_cat(l + g + q + s@, q);
            lemma_cat(l + g + q + s@ + q, reset_code(true));
            assert(render(v, segs, trailing, false) =~= l + q + s@ + q);
        },
        _ => {
            assert(no_escape(literal_text(v)));
            lemma_plain(literal_text(v));
            lemma_cat(l, literal_text(v));
        },
    }
}

proof fn lemma_members_decolor(ms: Seq<(String, JsonValue)>, segs: Seq<Seq<char>>)
    requires
        members_escape_free(ms),
        segments_escape_free(segs),
    ensures
        strip_codes(render_members(ms, segs, true), false) == render_members(ms, segs, false),
        !ends_in_code(render_members(ms, segs, true), false),
    decreases ms,
{
    if ms.len() == 0 {
        assert(no_escape(Seq::<char>::empty()));
        lemma_plain(Seq::<char>::empty());
    } else {
        let key = ms.last().0@;
        let i = (ms.len() - 1) as nat;
        let child = segs.push(key_segment(key));
        lemma_members_decolor(ms.drop_last(), segs);
        lemma_key_segment_no_escape(key);
        lemma_extend_segments(segs, key_segment(key));
        lemma_render_decolor(ms.last().1, child, true);
        lemma_path_no_escape(segs);
        lemma_plain(path_text(segs));
        lemma_plain(key_segment(key));
        lemma_layout_pieces(true, 2 * (segs.len() + 1), 0, i);
        lemma_color_codes();
        let nl = seq!['\n'];
        assert(no_escape(nl));
        lemma_plain(nl);
        let sp = spaces(2 * (segs.len() + 1));
        let k = key_code(true);
        let p = path_text(segs);
        let sg = key_segment(key);
        let colon = seq![':'];
        assert(no_escape(colon));
        lemma_plain(colon);
        lemma_cat(nl, sp);
        lemma_cat(nl + sp, k);
        lemma_cat(nl + sp + k, p);
        lemma_cat(nl + sp + k + p, sg);
        lemma_cat(nl + sp + k + p + sg, reset_code(true));
        lemma_cat(nl + sp + k + p + sg + reset_code(true), colon);
        let head = member_head(segs, key, true);
        assert(strip_codes(head, false) =~= member_head(segs, key, false));
        let ra = render_members(ms.drop_last(), segs, true);
        let sep = separator(i, true);
        let rb = render(ms.last().1, child, true, true);
        lemma_cat(ra, sep);
        lemma_cat(ra + sep, head);
        lemma_cat(ra + sep + head, rb);
    }
}

proof fn lemma_elements_decolor(es: Seq<JsonValue>, segs: Seq<Seq<char>>)
    requires
        elements_escape_free(es),
        segments_escape_free(segs),
    ensures
        strip_codes(render_elements(es, segs, true), false) == render_elements(es, segs, false),
        !ends_in_code(render_elements(es, segs, true), false),
    decreases es,
{
    if es.len() == 0 {
        assert(no_escape(Seq::<char>::empty()));
        lemma_plain(Seq::<char>::empty());
    } else {
        let i = (es.len() - 1) as nat;
        let child = segs.push(index_segment(i));
        lemma_elements_decolor(es.drop_last(), segs);
        lemma_index_segment_no_escape(i);
        lemma_extend_segments(segs, index_segment(i));
        lemma_render_decolor(es.last(), child, false);
        lemma_layout_pieces(true, 0, 0, i);
        let nl = seq!['\n'];
        assert(no_escape(nl));
        lemma_plain(nl);
        let ra = render_elements(es.drop_last(), segs, true);
        let sep = separator(i, true);
        let rb = render(es.last(), child, false, true);
        lemma_cat(ra, sep);
        lemma_cat(ra + sep, nl);
        lemma_cat(ra + sep + nl, rb);
    }
}

/// A coloured rendering is the monochrome one with ANSI sequences added:
/// removing them gives the monochrome rendering back, for a document whose
/// own text holds no escape character.
pub proof fn lemma_colored_is_monochrome_plus_codes(v: JsonValue)
    requires
        escape_free(v),
    ensures
        strip_codes(render(v, Seq::empty(), false, true), false) == render(
            v,
            Seq::empty(),
            false,
            false,
        ),
{
    lemma_render_decolor(v, Seq::empty(), false);
}

/// With colour on, the rendering of a document is its compact JSON text once
/// the colour sequences and then the spaces and line breaks outside string
/// literals are removed, for every document whose rendering can be JSON.
pub proof fn lemma_colored_rendering_is_json_up_to_codes_and_layout(v: JsonValue)
    requires
        renders_as_json(v),
    ensures
        strip_layout(strip_codes(render(v, Seq::empty(), false, true), false), false) == json_text(
            v,
        ),
{
    lemma_renders_as_json_escape_free(v);
    lemma_render_decolor(v, Seq::empty(), false);
    crate::layout::lemma_rendering_is_json_up_to_layout(v);
}

} // verus!
