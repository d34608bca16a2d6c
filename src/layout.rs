use vstd::prelude::*;

use crate::path::index_segment;
use crate::pretty::{
    closing_break, lead, literal_text, punct, render, render_elements, render_members, separator,
};
use crate::text::spaces;
use crate::color::esc;
use crate::laws::{elements_escape_free, escape_free};
use crate::value::JsonValue;

verus! {

/// Whether a string literal is still open after `s` is read from state
/// `in_string`, a quote opening or closing one.
pub open spec fn ends_in_string(s: Seq<char>, in_string: bool) -> bool
    decreases s.len(),
{
    if s.len() == 0 {
        in_string
    } else {
        let c = s[0];
        ends_in_string(s.drop_first(), if in_string { c != '"' } else { c == '"' })
    }
}

/// `s` without the spaces and line breaks that stand outside string literals.
pub open spec fn strip_layout(s: Seq<char>, in_string: bool) -> Seq<char>
    decreases s.len(),
{
    if s.len() == 0 {
        Seq::empty()
    } else {
        let c = s[0];
        let rest = s.drop_first();
        if in_string {
            seq![c] + strip_layout(rest, c != '"')
        } else if c == ' ' || c == '\n' {
            strip_layout(rest, false)
        } else {
            seq![c] + strip_layout(rest, c == '"')
        }
    }
}

/// A character that may stand in a JSON number.
pub open spec fn is_number_char(c: char) -> bool {
    ('0' <= c && c <= '9') || c == '-' || c == '+' || c == '.' || c == 'e' || c == 'E'
}

/// A character that a JSON string holds as it is, with no escape.
pub open spec fn is_plain_string_char(c: char) -> bool {
    c != '"' && c != '\\' && c >= ' '
}

/// A document whose rendering is JSON once layout is removed: it holds no
/// object with members (members are shown by path), its strings need no
/// escape, and its numbers are spelled in JSON's number alphabet.
pub open spec fn renders_as_json(v: JsonValue) -> bool
    decreases v,
{
    match v {
        JsonValue::Object(ms) => ms@.len() == 0,
        JsonValue::Array(es) => elements_render_as_json(es@),
        JsonValue::Str(s) => forall|i: int| 0 <= i < s@.len() ==> is_plain_string_char(#[trigger] s@[i]),
        JsonValue::Number(n) => forall|i: int| 0 <= i < n@.len() ==> is_number_char(#[trigger] n@[i]),
        _ => true,
    }
}

/// Every element of `es` renders as JSON.
pub open spec fn elements_render_as_json(es: Seq<JsonValue>) -> bool
    decreases es,
{
    es.len() == 0 || (elements_render_as_json(es.drop_last()) && renders_as_json(es.last()))
}

/// The compact JSON text of a document that `renders_as_json`.
pub open spec fn json_text(v: JsonValue) -> Seq<char>
    decreases v,
{
    match v {
        JsonValue::Object(ms) => seq!['{', '}'],
        JsonValue::Array(es) => seq!['['] + elements_json_text(es@) + seq![']'],
        JsonValue::Str(s) => seq!['"'] + s@ + seq!['"'],
        _ => literal_text(v),
    }
}

/// The elements `es`, in compact JSON, separated by commas.
pub open spec fn elements_json_text(es: Seq<JsonValue>) -> Seq<char>
    decreases es,
{
    if es.len() == 0 {
        Seq::empty()
    } else {
        elements_json_text(es.drop_last()) + (if es.len() > 1 {
            seq![',']
        } else {
            Seq::empty()
        }) + json_text(es.last())
    }
}

proof fn lemma_strip_concat(a: Seq<char>, b: Seq<char>, st: bool)
    ensures
        strip_layout(a + b, st) == strip_layout(a, st) + strip_layout(b, ends_in_string(a, st)),
        ends_in_string(a + b, st) == ends_in_string(b, ends_in_string(a, st)),
    decreases a.len(),
{
    if a.len() == 0 {
        assert(a + b =~= b);
    } else {
        let c = a[0];
        let next = if st {
            c != '"'
        } else {
            c == '"'
        };
        lemma_strip_concat(a.drop_first(), b, next);
        assert((a + b).drop_first() =~= a.drop_first() + b);
        assert((a + b)[0] == c);
        if st {
            assert(strip_layout(a + b, st) =~= strip_layout(a, st) + strip_layout(
                b,
                ends_in_string(a, st),
            ));
        } else if c == ' ' || c == '\n' {
        } else {
            assert(strip_layout(a + b, st) =~= strip_layout(a, st) + strip_layout(
                b,
                ends_in_string(a, st),
            ));
        }
    }
}

/// Outside string literals: concatenation commutes with stripping.
proof fn lemma_cat(a: Seq<char>, b: Seq<char>)
    requires
        !ends_in_string(a, false),
    ensures
        strip_layout(a + b, false) == strip_layout(a, false) + strip_layout(b, false),
        ends_in_string(a + b, false) == ends_in_string(b, false),
{
    lemma_strip_concat(a, b, false);
}

proof fn lemma_spaces_layout(n: nat)
    ensures
        strip_layout(spaces(n), false) == Seq::<char>::empty(),
        !ends_in_string(spaces(n), false),
    decreases n,
{
    if n > 0 {
        assert(spaces(n).drop_first() =~= spaces((n - 1) as nat));
        lemma_spaces_layout((n - 1) as nat);
    } else {
        assert(spaces(n) =~= Seq::<char>::empty());
    }
}

/// Text with no quote, space or line break is kept as it is.
proof fn lemma_bare_layout(t: Seq<char>)
    requires
        forall|i: int| 0 <= i < t.len() ==> t[i] != '"' && t[i] != ' ' && t[i] != '\n',
    ensures
        strip_layout(t, false) == t,
        !ends_in_string(t, false),
    decreases t.len(),
{
    if t.len() > 0 {
        lemma_bare_layout(t.drop_first());
        assert(t =~= seq![t[0]] + t.drop_first());
    }
}

/// The body of a string literal with no quote in it is kept as it is.
proof fn lemma_string_body_layout(t: Seq<char>)
    requires
        forall|i: int| 0 <= i < t.len() ==> t[i] != '"',
    ensures
        strip_layout(t, true) == t,
        ends_in_string(t, true),
    decreases t.len(),
{
    if t.len() > 0 {
        lemma_string_body_layout(t.drop_first());
        assert(t =~= seq![t[0]] + t.drop_first());
    }
}

proof fn lemma_one_char(c: char, st: bool)
    ensures
        strip_layout(seq![c], st) == (if !st && (c == ' ' || c == '\n') {
            Seq::<char>::empty()
        } else {
            seq![c]
        }),
        ends_in_string(seq![c], st) == (if st {
            c != '"'
        } else {
            c == '"'
        }),
{
    let s = seq![c];
    let next = if st {
        c != '"'
    } else {
        c == '"'
    };
    assert(s.drop_first() =~= Seq::<char>::empty());
    assert(strip_layout(Seq::<char>::empty(), next) == Seq::<char>::empty());
    assert(ends_in_string(Seq::<char>::empty(), next) == next);
    assert(seq![c] + Seq::<char>::empty() =~= seq![c]);
}

proof fn lemma_char_layout(c: char)
    requires
        c != '"' && c != ' ' && c != '\n',
    ensures
        strip_layout(seq![c], false) == seq![c],
        !ends_in_string(seq![c], false),
{
    lemma_one_char(c, false);
}

proof fn lemma_lead_layout(trailing: bool, level: nat)
    ensures
        strip_layout(lead(trailing, level), false) == Seq::<char>::empty(),
        !ends_in_string(lead(trailing, level), false),
{
    lemma_spaces_layout(2 * level);
    lemma_spaces_layout(1);
    assert(spaces(1) =~= seq![' ']);
}

proof fn lemma_closing_layout(n: nat, level: nat)
    ensures
        strip_layout(closing_break(n, level), false) == Seq::<char>::empty(),
        !ends_in_string(closing_break(n, level), false),
{
    lemma_spaces_layout(2 * level);
    if n > 0 {
        lemma_one_char('\n', false);
        lemma_cat(seq!['\n'], spaces(2 * level));
    } else {
        assert(strip_layout(Seq::<char>::empty(), false) == Seq::<char>::empty());
    }
}

proof fn lemma_render_layout(v: JsonValue, segs: Seq<Seq<char>>, trailing: bool)
    requires
        renders_as_json(v),
    ensures
        strip_layout(render(v, segs, trailing, false), false) == json_text(v),
        !ends_in_string(render(v, segs, trailing, false), false),
    decreases v,
{
    let level = segs.len();
    let l = lead(trailing, level);
    lemma_lead_layout(trailing, level);
    match v {
        JsonValue::Object(ms) => {
            assert(render_members(ms@, segs, false) == Seq::<char>::empty());
            lemma_char_layout('{');
            lemma_char_layout('}');
            assert(punct('{', false) =~= seq!['{']);
            assert(punct('}', false) =~= seq!['}']);
            lemma_closing_layout(0, level);
            assert(render(v, segs, trailing, false) =~= l + seq!['{'] + seq!['}']);
            lemma_cat(l, seq!['{']);
            lemma_cat(l + seq!['{'], seq!['}']);
            assert(json_text(v) =~= seq!['{'] + seq!['}']);
        },
        JsonValue::Array(es) => {
            lemma_elements_layout(es@, segs);
            lemma_char_layout('[');
            lemma_char_layout(']');
            assert(punct('[', false) =~= seq!['[']);
            assert(punct(']', false) =~= seq![']']);
            lemma_closing_layout(es@.len(), level);
            let body = render_elements(es@, segs, false);
            let close = closing_break(es@.len(), level);
            assert(render(v, segs, trailing, false) =~= l + seq!['['] + body + close + seq![']']);
            lemma_cat(l, seq!['[']);
            lemma_cat(l + seq!['['], body);
            lemma_cat(l + seq!['['] + body, close);
            lemma_cat(l + seq!['['] + body + close, seq![']']);
            assert(json_text(v) =~= seq!['['] + elements_json_text(es@) + seq![']']);
        },
        JsonValue::Str(s) => {
            let t = s@;
            lemma_string_body_layout(t);
            assert(render(v, segs, trailing, false) =~= l + (seq!['"'] + (t + seq!['"'])));
            lemma_strip_concat(t, seq!['"'], true);
            lemma_one_char('"', true);
            assert((seq!['"'] + (t + seq!['"'])).drop_first() =~= t + seq!['"']);
            assert(strip_layout(seq!['"'] + (t + seq!['"']), false) =~= seq!['"'] + t + seq!['"']);
            lemma_cat(l, seq!['"'] + (t + seq!['"']));
        },
        JsonValue::Number(n) => {
            assert forall|i: int| 0 <= i < n@.len() implies n@[i] != '"' && n@[i] != ' ' && n@[i]
                != '\n' by {
                assert(is_number_char(n@[i]));
            }
            lemma_bare_layout(n@);
            lemma_cat(l, n@);
        },
        JsonValue::Bool(b) => {
            lemma_bare_layout(literal_text(v));
            lemma_cat(l, literal_text(v));
        },
        JsonValue::Null => {
            lemma_bare_layout(literal_text(v));
            lemma_cat(l, literal_text(v));
        },
    }
}

proof fn lemma_elements_layout(es: Seq<JsonValue>, segs: Seq<Seq<char>>)
    requires
        elements_render_as_json(es),
    ensures
        strip_layout(render_elements(es, segs, false), false) == elements_json_text(es),
        !ends_in_string(render_elements(es, segs, false), false),
    decreases es,
{
    if es.len() > 0 {
        let i = (es.len() - 1) as nat;
        let child = segs.push(index_segment(i));
        lemma_elements_layout(es.drop_last(), segs);
        lemma_render_layout(es.last(), child, false);
        let ra = render_elements(es.drop_last(), segs, false);
        let sep = separator(i, false);
        let rb = render(es.last(), child, false, false);
        assert(punct(',', false) =~= seq![',']);
        lemma_char_layout(',');
        assert(sep =~= if i > 0 {
            seq![',']
        } else {
            Seq::<char>::empty()
        });
        assert(strip_layout(Seq::<char>::empty(), false) =~= Seq::<char>::empty());
        lemma_one_char('\n', false);
        lemma_cat(ra, sep);
        lemma_cat(ra + sep, seq!['\n']);
        lemma_cat(ra + sep + seq!['\n'], rb);
        assert(strip_layout(render_elements(es, segs, false), false) =~= elements_json_text(es));
    }
}

/// With colour off, the rendering of a document is its compact JSON text
/// once the spaces and line breaks outside string literals are removed, for
/// every document whose rendering can be JSON: one with no object that has
/// members, no string that needs an escape, and numbers spelled in JSON's
/// number alphabet.
pub proof fn lemma_rendering_is_json_up_to_layout(v: JsonValue)
    requires
        renders_as_json(v),
    ensures
        strip_layout(render(v, Seq::empty(), false, false), false) == json_text(v),
{
    lemma_render_layout(v, Seq::empty(), false);
}

/// A document whose rendering can be JSON holds no escape character.
pub proof fn lemma_renders_as_json_escape_free(v: JsonValue)
    requires
        renders_as_json(v),
    ensures
        escape_free(v),
    decreases v,
{
    match v {
        JsonValue::Array(es) => lemma_elements_escape_free(es@),
        JsonValue::Str(s) => {
            if s@.contains(esc()) {
                let i = choose|i: int| 0 <= i < s@.len() && s@[i] == esc();
                assert(is_plain_string_char(s@[i]));
            }
        },
        JsonValue::Number(n) => {
            if n@.contains(esc()) {
                let i = choose|i: int| 0 <= i < n@.len() && n@[i] == esc();
                assert(is_number_char(n@[i]));
            }
        },
        _ => {},
    }
}

proof fn lemma_elements_escape_free(es: Seq<JsonValue>)
    requires
        elements_render_as_json(es),
    ensures
        elements_escape_free(es),
    decreases es,
{
    if es.len() > 0 {
        lemma_elements_escape_free(es.drop_last());
        lemma_renders_as_json_escape_free(es.last());
    }
}

} // verus!
