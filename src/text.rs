use vstd::prelude::*;
use vstd::string::*;

verus! {

/// `n` space characters.
pub open spec fn spaces(n: nat) -> Seq<char> {
    Seq::new(n, |i: int| ' ')
}

/// Appends a newline.
pub fn push_newline(s: &mut String)
    ensures
        final(s)@ == old(s)@.push('\n'),
{
    proof {
        reveal_strlit("\n");
    }
    s.append("\n");
    assert(final(s)@ =~= old(s)@.push('\n'));
}

/// Appends one space.
pub fn push_space(s: &mut String)
    ensures
        final(s)@ == old(s)@.push(' '),
{
    proof {
        reveal_strlit(" ");
    }
    s.append(" ");
    assert(final(s)@ =~= old(s)@.push(' '));
}

/// Appends the indentation of nesting depth `level`: two spaces per level.
pub fn push_indentation(s: &mut String, level: usize)
    ensures
        final(s)@ == old(s)@ + spaces(2 * level as nat),
{
    let ghost start = s@;
    let mut i: usize = 0;
    while i < level
        invariant
            i <= level,
            s@ == start + spaces(2 * i as nat),
        decreases level - i,
    {
        proof {
            reveal_strlit("  ");
        }
        s.append("  ");
        i = i + 1;
        assert(s@ =~= start + spaces(2 * i as nat));
    }
}

} // verus!
