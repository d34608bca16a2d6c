use vstd::prelude::*;
use vstd::string::*;

use crate::color::{key_code, push_key_code, push_reset, reset_code};
use crate::path::{
    index_segment, join_path, key_segment, make_index_segment, make_key_segment, path_text,
};
use crate::text::push_newline;
use crate::value::JsonValue;

verus! {

/// The listed line for the leaf at `path`: the path in the key colour.
pub open spec fn key_line(path: Seq<char>, colored: bool) -> Seq<char> {
    key_code(colored) + path + reset_code(colored)
}

/// The lines that the key listing of `v` holds, in document order, where `v`
/// is reached by the path segments `segs`: one line per leaf, its full path.
/// A leaf reached by no segment, the root itself, is not listed.
pub open spec fn key_lines(v: JsonValue, segs: Seq<Seq<char>>, colored: bool) -> Seq<Seq<char>>
    decreases v,
{
    match v {
        JsonValue::Object(ms) => member_key_lines(ms@, segs, colored),
        JsonValue::Array(es) => element_key_lines(es@, segs, colored),
        _ => if segs.len() == 0 {
            Seq::empty()
        } else {
            seq![key_line(path_text(segs), colored)]
        },
    }
}

/// The lines of the members `ms` of an object reached at `segs`.
pub open spec fn member_key_lines(
    ms: Seq<(String, JsonValue)>,
    segs: Seq<Seq<char>>,
    colored: bool,
) -> Seq<Seq<char>>
    decreases ms,
{
    if ms.len() == 0 {
        Seq::empty()
    } else {
        member_key_lines(ms.drop_last(), segs, colored) + key_lines(
            ms.last().1,
            segs.push(key_segment(ms.last().0@)),
            colored,
        )
    }
}

/// The lines of the elements `es` of an array reached at `segs`.
pub open spec fn element_key_lines(
    es: Seq<JsonValue>,
    segs: Seq<Seq<char>>,
    colored: bool,
) -> Seq<Seq<char>>
    decreases es,
{
    if es.len() == 0 {
        Seq::empty()
    } else {
        element_key_lines(es.drop_last(), segs, colored) + key_lines(
            es.last(),
            segs.push(index_segment((es.len() - 1) as nat)),
            colored,
        )
    }
}

/// `line` added to `text`, after a newline unless `text` is still empty.
pub open spec fn append_line(text: Seq<char>, line: Seq<char>) -> Seq<char> {
    if text.len() == 0 {
        line
    } else {
        text.push('\n') + line
    }
}

/// `lines` added one by one to `text`, separated by newlines.
pub open spec fn join_lines(text: Seq<char>, lines: Seq<Seq<char>>) -> Seq<char>
    decreases lines.len(),
{
    if lines.len() == 0 {
        text
    } else {
        append_line(join_lines(text, lines.drop_last()), lines.last())
    }
}

/// Adding two runs of lines is adding their concatenation.
pub proof fn lemma_join_lines_concat(text: Seq<char>, a: Seq<Seq<char>>, b: Seq<Seq<char>>)
    ensures
        join_lines(text, a + b) == join_lines(join_lines(text, a), b),
    decreases b.len(),
{
    if b.len() == 0 {
        assert(a + b =~= a);
    } else {
        lemma_join_lines_concat(text, a, b.drop_last());
        assert((a + b).drop_last() =~= a + b.drop_last());
    }
}

/// Appends to `formatted_string` one line per leaf in `json`, each the full
/// path of that leaf, where `json` is reached by `parent_keys`; lines are
/// separated by newlines, and none comes before the first line of the text.
pub fn format_json_keys(
    json: &JsonValue,
    parent_keys: &Vec<String>,
    formatted_string: String,
    colored: bool,
) -> (r: String)
    ensures
        r@ == join_lines(formatted_string@, key_lines(*json, parent_keys.deep_view(), colored)),
    decreases json,
{
    let ghost segs = parent_keys.deep_view();
    let ghost start = formatted_string@;
    let mut out = formatted_string;
    match json {
        JsonValue::Object(map) => {
            let mut i: usize = 0;
            while i < map.len()
                invariant
                    i <= map.len(),
                    *json == JsonValue::Object(*map),
                    segs == parent_keys.deep_view(),
                    out@ == join_lines(start, member_key_lines(map@.take(i as int), segs, colored)),
                decreases map.len() - i,
            {
                let key = &map[i].0;
                let value = &map[i].1;
                let segment = make_key_segment(key);
                let mut child = parent_keys.clone();
                child.push(segment);
                assert(child.deep_view() =~= segs.push(key_segment(key@)));
                proof {
                    let ms = json->Object_0;
                    assert(decreases_to!(*json => ms));
                    assert(decreases_to!(ms => ms@));
                    assert(decreases_to!(ms@ => ms@[i as int]));
                    assert(decreases_to!(ms@[i as int] => ms@[i as int].1));
                }
                out = format_json_keys(value, &child, out, colored);
                proof {
                    let ms = map@.take(i + 1);
                    assert(ms.drop_last() =~= map@.take(i as int));
                    lemma_join_lines_concat(
                        start,
                        member_key_lines(map@.take(i as int), segs, colored),
                        key_lines(*value, segs.push(key_segment(key@)), colored),
                    );
                }
                i = i + 1;
            }
            assert(map@.take(i as int) =~= map@);
        },
        JsonValue::Array(arr) => {
            let mut i: usize = 0;
            while i < arr.len()
                invariant
                    i <= arr.len(),
                    *json == JsonValue::Array(*arr),
                    segs == parent_keys.deep_view(),
                    out@ == join_lines(start, element_key_lines(arr@.take(i as int), segs, colored)),
                decreases arr.len() - i,
            {
                let value = &arr[i];
                let mut child = parent_keys.clone();
                child.push(make_index_segment(i));
                assert(child.deep_view() =~= segs.push(index_segment(i as nat)));
                proof {
                    let es = json->Array_0;
                    assert(decreases_to!(*json => es));
                    assert(decreases_to!(es => es@));
                    assert(decreases_to!(es@ => es@[i as int]));
                }
                out = format_json_keys(value, &child, out, colored);
                proof {
                    let es = arr@.take(i + 1);
                    assert(es.drop_last() =~= arr@.take(i as int));
                    lemma_join_lines_concat(
                        start,
                        element_key_lines(arr@.take(i as int), segs, colored),
                        key_lines(*value, segs.push(index_segment(i as nat)), colored),
                    );
                }
                i = i + 1;
            }
            assert(arr@.take(i as int) =~= arr@);
        },
        _ => {
            if parent_keys.len() != 0 {
                let ghost line = key_line(path_text(segs), colored);
                let prefix = join_path(parent_keys);
                if !out.as_str().is_empty() {
                    push_newline(&mut out);
                }
                push_key_code(&mut out, colored);
                out.append(prefix.as_str());
                push_reset(&mut out, colored);
                assert(out@ =~= append_line(start, line));
                assert(join_lines(start, seq![line]) == append_line(start, line)) by {
                    assert(seq![line].drop_last() =~= Seq::<Seq<char>>::empty());
                    assert(join_lines(start, Seq::<Seq<char>>::empty()) == start);
                }
            } else {
                assert(join_lines(start, Seq::<Seq<char>>::empty()) == start);
            }
        },
    }
    out
}

} // verus!
