use vstd::prelude::*;
use vstd::string::*;

verus! {

/// The decimal digit for `d`, where `d < 10`.
pub open spec fn digit_char(d: nat) -> char {
    seq!['0', '1', '2', '3', '4', '5', '6', '7', '8', '9'][d as int]
}

/// The decimal spelling of `n`, without leading zeros.
pub open spec fn decimal(n: nat) -> Seq<char>
    decreases n,
{
    if n < 10 {
        seq![digit_char(n)]
    } else {
        decimal(n / 10).push(digit_char(n % 10))
    }
}

/// The segment that names the member `key` of an object: `.key`.
pub open spec fn key_segment(key: Seq<char>) -> Seq<char> {
    seq!['.'] + key
}

/// The segment that names element `i` of an array: `[i]`.
pub open spec fn index_segment(i: nat) -> Seq<char> {
    seq!['['] + decimal(i) + seq![']']
}

/// The accessor expression that the segments spell, read left to right.
pub open spec fn path_text(segments: Seq<Seq<char>>) -> Seq<char>
    decreases segments.len(),
{
    if segments.len() == 0 {
        Seq::empty()
    } else {
        path_text(segments.drop_last()) + segments.last()
    }
}

fn push_digit(s: &mut String, d: usize)
    requires
        d < 10,
    ensures
        final(s)@ == old(s)@.push(digit_char(d as nat)),
{
    let t: &str = match d {
        0 => "0",
        1 => "1",
        2 => "2",
        3 => "3",
        4 => "4",
        5 => "5",
        6 => "6",
        7 => "7",
        8 => "8",
        _ => "9",
    };
    proof {
        reveal_strlit("0");
        reveal_strlit("1");
        reveal_strlit("2");
        reveal_strlit("3");
        reveal_strlit("4");
        reveal_strlit("5");
        reveal_strlit("6");
        reveal_strlit("7");
        reveal_strlit("8");
        reveal_strlit("9");
    }
    s.append(t);
    assert(final(s)@ =~= old(s)@.push(digit_char(d as nat)));
}

/// Appends the decimal spelling of `n`.
pub fn push_decimal(s: &mut String, n: usize)
    ensures
        final(s)@ == old(s)@ + decimal(n as nat),
    decreases n,
{
    if n < 10 {
        push_digit(s, n);
        assert(final(s)@ =~= old(s)@ + decimal(n as nat));
    } else {
        push_decimal(s, n / 10);
        push_digit(s, n % 10);
        assert(final(s)@ =~= old(s)@ + decimal(n as nat));
    }
}

/// The segment `.key` for an object member.
pub fn make_key_segment(key: &String) -> (r: String)
    ensures
        r@ == key_segment(key@),
{
    let mut r = String::new();
    proof {
        reveal_strlit(".");
    }
    r.append(".");
    r.append(key.as_str());
    assert(r@ =~= key_segment(key@));
    r
}

/// The segment `[i]` for an array element.
pub fn make_index_segment(i: usize) -> (r: String)
    ensures
        r@ == index_segment(i as nat),
{
    let mut r = String::new();
    proof {
        reveal_strlit("[");
        reveal_strlit("]");
    }
    r.append("[");
    push_decimal(&mut r, i);
    r.append("]");
    assert(r@ =~= index_segment(i as nat));
    r
}

/// Concatenates the segments into one accessor expression.
pub fn join_path(segments: &Vec<String>) -> (r: String)
    ensures
        r@ == path_text(segments.deep_view()),
{
    let mut r = String::new();
    let mut i: usize = 0;
    while i < segments.len()
        invariant
            i <= segments.len(),
            r@ == path_text(segments.deep_view().take(i as int)),
        decreases segments.len() - i,
    {
        assert(segments.deep_view().take(i + 1).drop_last() =~= segments.deep_view().take(i as int));
        r.append(segments[i].as_str());
        i = i + 1;
    }
    assert(segments.deep_view().take(i as int) =~= segments.deep_view());
    r
}

} // verus!
