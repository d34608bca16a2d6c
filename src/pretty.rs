use vstd::prelude::*;
use vstd::string::*;

use crate::color::{
    bracket_code, key_code, push_bracket_code, push_key_code, push_reset, push_string_code,
    reset_code, string_code,
};
use crate::path::{
    index_segment, join_path, key_segment, make_index_segment, make_key_segment, path_text,
};
use crate::text::{push_indentation, push_newline, push_space, spaces};
use crate::value::JsonValue;

verus! {

/// What opens a value's text: one space after a `key:` on the same line,
/// else the indentation of its depth.
pub open spec fn lead(trailing: bool, level: nat) -> Seq<char> {
    if trailing {
        seq![' ']
    } else {
        spaces(2 * level)
    }
}

/// A colourised one-character token: a bracket, a comma or a colon.
pub open spec fn punct(c: char, colored: bool) -> Seq<char> {
    bracket_code(colored) + seq![c] + reset_code(colored)
}

/// The comma that separates sibling `i` from the one before it.
pub open spec fn separator(i: nat, colored: bool) -> Seq<char> {
    if i > 0 {
        punct(',', colored)
    } else {
        Seq::empty()
    }
}

/// The line break and indentation before a closing bracket, present only
/// when the container has children.
pub open spec fn closing_break(n: nat, level: nat) -> Seq<char> {
    if n > 0 {
        seq!['\n'] + spaces(2 * level)
    } else {
        Seq::empty()
    }
}

/// The JSON spelling of a scalar that is written without colour.
pub open spec fn literal_text(v: JsonValue) -> Seq<char> {
    match v {
        JsonValue::Null => seq!['n', 'u', 'l', 'l'],
        JsonValue::Bool(b) => if b {
            seq!['t', 'r', 'u', 'e']
        } else {
            seq!['f', 'a', 'l', 's', 'e']
        },
        JsonValue::Number(n) => n@,
        _ => Seq::empty(),
    }
}

/// The rendering of `v`, reached by the path segments `segs` (its depth is
/// their number), opened as `trailing` says.
pub open spec fn render(v: JsonValue, segs: Seq<Seq<char>>, trailing: bool, colored: bool) -> Seq<
    char,
>
    decreases v,
{
    let level = segs.len();
    match v {
        JsonValue::Object(ms) => lead(trailing, level) + punct('{', colored) + render_members(
            ms@,
            segs,
            colored,
        ) + closing_break(ms@.len(), level) + punct('}', colored),
        JsonValue::Array(es) => lead(trailing, level) + punct('[', colored) + render_elements(
            es@,
            segs,
            colored,
        ) + closing_break(es@.len(), level) + punct(']', colored),
        JsonValue::Str(s) => lead(trailing, level) + string_code(colored) + seq!['"'] + s@ + seq![
            '"',
        ] + reset_code(colored),
        _ => lead(trailing, level) + literal_text(v),
    }
}

/// The line that names a member: its indentation, its full path in the key
/// colour, and a plain colon.
pub open spec fn member_head(segs: Seq<Seq<char>>, key: Seq<char>, colored: bool) -> Seq<char> {
    seq!['\n'] + spaces(2 * (segs.len() + 1)) + key_code(colored) + path_text(segs) + key_segment(
        key,
    ) + reset_code(colored) + seq![':']
}

/// The members `ms` of an object reached at `segs`, each on its own line.
pub open spec fn render_members(
    ms: Seq<(String, JsonValue)>,
    segs: Seq<Seq<char>>,
    colored: bool,
) -> Seq<char>
    decreases ms,
{
    if ms.len() == 0 {
        Seq::empty()
    } else {
        let key = ms.last().0@;
        render_members(ms.drop_last(), segs, colored) + separator((ms.len() - 1) as nat, colored)
            + member_head(segs, key, colored) + render(
            ms.last().1,
            segs.push(key_segment(key)),
            true,
            colored,
        )
    }
}

/// The elements `es` of an array reached at `segs`, each on its own line.
pub open spec fn render_elements(es: Seq<JsonValue>, segs: Seq<Seq<char>>, colored: bool) -> Seq<
    char,
>
    decreases es,
{
    if es.len() == 0 {
        Seq::empty()
    } else {
        let i = (es.len() - 1) as nat;
        render_elements(es.drop_last(), segs, colored) + separator(i, colored) + seq!['\n']
            + render(es.last(), segs.push(index_segment(i)), false, colored)
    }
}

/// Appends what opens a value's text.
fn push_lead(s: &mut String, trailing: bool, level: usize)
    ensures
        final(s)@ == old(s)@ + lead(trailing, level as nat),
{
    if trailing {
        push_space(s);
    } else {
        push_indentation(s, level);
    }
    assert(final(s)@ =~= old(s)@ + lead(trailing, level as nat));
}

/// Appends a colourised one-character token.
fn push_punct(s: &mut String, c: &str, colored: bool)
    requires
        c@.len() == 1,
    ensures
        final(s)@ == old(s)@ + punct(c@[0], colored),
{
    push_bracket_code(s, colored);
    s.append(c);
    push_reset(s, colored);
    assert(c@ =~= seq![c@[0]]);
    assert(final(s)@ =~= old(s)@ + punct(c@[0], colored));
}

/// Appends the break before a closing bracket, if any.
fn push_closing_break(s: &mut String, n: usize, level: usize)
    ensures
        final(s)@ == old(s)@ + closing_break(n as nat, level as nat),
{
    if n != 0 {
        push_newline(s);
        push_indentation(s, level);
    }
    assert(final(s)@ =~= old(s)@ + closing_break(n as nat, level as nat));
}

/// Appends the line that names a member.
fn push_member_head(
    s: &mut String,
    level: usize,
    prefix: &String,
    segment: &String,
    Ghost(segs): Ghost<Seq<Seq<char>>>,
    Ghost(key): Ghost<Seq<char>>,
    colored: bool,
)
    requires
        level == segs.len(),
        prefix@ == path_text(segs),
        segment@ == key_segment(key),
    ensures
        final(s)@ == old(s)@ + member_head(segs, key, colored),
{
    push_newline(s);
    push_indentation(s, level);
    push_indentation(s, 1);
    push_key_code(s, colored);
    s.append(prefix.as_str());
    s.append(segment.as_str());
    push_reset(s, colored);
    proof {
        reveal_strlit(":");
    }
    s.append(":");
    assert(final(s)@ =~= old(s)@ + member_head(segs, key, colored));
}

/// Appends the JSON spelling of a null, a boolean or a number.
fn push_scalar(s: &mut String, json: &JsonValue)
    requires
        json.is_leaf(),
        !(json is Str),
    ensures
        final(s)@ == old(s)@ + literal_text(*json),
{
    match json {
        JsonValue::Null => {
            proof {
                reveal_strlit("null");
            }
            s.append("null");
        },
        JsonValue::Bool(b) => {
            proof {
                reveal_strlit("true");
                reveal_strlit("false");
            }
            if *b {
                s.append("true");
            } else {
                s.append("false");
            }
        },
        JsonValue::Number(n) => {
            s.append(n.as_str());
        },
        _ => {},
    }
    assert(final(s)@ =~= old(s)@ + literal_text(*json));
}

/// Appends to `formatted_string` the indented rendering of `json`, where
/// `json` is reached by `parent_keys` and its depth is their number. Each
/// object member is introduced by its full path; `is_trailing` says that
/// `json` follows a `key:` on the same line.
#[verifier::rlimit(60)]
#[verifier::spinoff_prover]
pub fn format_json(
    json: &JsonValue,
    parent_keys: &Vec<String>,
    formatted_string: String,
    is_trailing: bool,
    colored: bool,
) -> (r: String)
    ensures
        r@ == formatted_string@ + render(*json, parent_keys.deep_view(), is_trailing, colored),
    decreases json,
{
    let ghost segs = parent_keys.deep_view();
    let ghost start = formatted_string@;
    let level = parent_keys.len();
    let mut out = formatted_string;
    match json {
        JsonValue::Object(map) => {
            push_lead(&mut out, is_trailing, level);
            proof {
                reveal_strlit("{");
            }
            push_punct(&mut out, "{", colored);
            let ghost opened = out@;
            let prefix = join_path(parent_keys);
            let mut i: usize = 0;
            while i < map.len()
                invariant
                    i <= map.len(),
                    *json == JsonValue::Object(*map),
                    segs == parent_keys.deep_view(),
                    level == segs.len(),
                    prefix@ == path_text(segs),
                    out@ == opened + render_members(map@.take(i as int), segs, colored),
                decreases map.len() - i,
            {
                let key = &map[i].0;
                let value = &map[i].1;
                let ghost before = out@;
                if i != 0 {
                    proof {
                        reveal_strlit(",");
                    }
                    push_punct(&mut out, ",", colored);
                }
                let segment = make_key_segment(key);
                push_member_head(&mut out, level, &prefix, &segment, Ghost(segs), Ghost(key@), colored);
                assert(out@ =~= before + separator(i as nat, colored) + member_head(
                    segs,
                    key@,
                    colored,
                ));
                let mut child = parent_keys.clone();
                child.push(segment);
                assert(child.deep_view() =~= segs.push(key_segment(key@)));
                proof {
                    let ms = json->Object_0;
                    assert(decreases_to!(*json => ms));
                    assert(decreases_to!(ms => ms@));
                    assert(decreases_to!(ms@ => ms@[i as int]));
                    assert(decreases_to!(ms@[i as int] => ms@[i as int].1));
                }
                out = format_json(value, &child, out, true, colored);
                proof {
                    assert(map@.take(i + 1).drop_last() =~= map@.take(i as int));
                    assert(out@ =~= opened + render_members(map@.take(i + 1), segs, colored));
                }
                i = i + 1;
            }
            assert(map@.take(i as int) =~= map@);
            push_closing_break(&mut out, map.len(), level);
            proof {
                reveal_strlit("}");
            }
            push_punct(&mut out, "}", colored);
            assert(out@ =~= start + render(*json, segs, is_trailing, colored));
        },
        JsonValue::Array(arr) => {
            push_lead(&mut out, is_trailing, level);
            proof {
                reveal_strlit("[");
            }
            push_punct(&mut out, "[", colored);
            let ghost opened = out@;
            let mut i: usize = 0;
            while i < arr.len()
                invariant
                    i <= arr.len(),
                    *json == JsonValue::Array(*arr),
                    segs == parent_keys.deep_view(),
                    level == segs.len(),
                    out@ == opened + render_elements(arr@.take(i as int), segs, colored),
                decreases arr.len() - i,
            {
                let value = &arr[i];
                let ghost before = out@;
                if i != 0 {
                    proof {
                        reveal_strlit(",");
                    }
                    push_punct(&mut out, ",", colored);
                }
                push_newline(&mut out);
                assert(out@ =~= before + separator(i as nat, colored) + seq!['\n']);
                let mut child = parent_keys.clone();
                child.push(make_index_segment(i));
                assert(child.deep_view() =~= segs.push(index_segment(i as nat)));
                proof {
                    let es = json->Array_0;
                    assert(decreases_to!(*json => es));
                    assert(decreases_to!(es => es@));
                    assert(decreases_to!(es@ => es@[i as int]));
                }
                out = format_json(value, &child, out, false, colored);
                proof {
                    assert(arr@.take(i + 1).drop_last() =~= arr@.take(i as int));
                    assert(out@ =~= opened + render_elements(arr@.take(i + 1), segs, colored));
                }
                i = i + 1;
            }
            assert(arr@.take(i as int) =~= arr@);
            push_closing_break(&mut out, arr.len(), level);
            proof {
                reveal_strlit("]");
            }
            push_punct(&mut out, "]", colored);
            assert(out@ =~= start + render(*json, segs, is_trailing, colored));
        },
        JsonValue::Str(text) => {
            push_lead(&mut out, is_trailing, level);
            push_string_code(&mut out, colored);
            proof {
                reveal_strlit("\"");
            }
            out.append("\"");
            out.append(text.as_str());
            out.append("\"");
            push_reset(&mut out, colored);
            assert(out@ =~= start + render(*json, segs, is_trailing, colored));
        },
        _ => {
            push_lead(&mut out, is_trailing, level);
            push_scalar(&mut out, json);
            assert(out@ =~= start + render(*json, segs, is_trailing, colored));
        },
    }
    out
}

} // verus!
