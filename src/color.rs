use vstd::prelude::*;
use vstd::string::*;

verus! {

/// Whether output is coloured: monochrome wins over forced colour, which wins
/// over the terminal test.
pub open spec fn color_enabled(force_color: bool, monochrome: bool, output_is_tty: bool) -> bool {
    if monochrome {
        false
    } else if force_color {
        true
    } else {
        output_is_tty
    }
}

/// Decides once per run whether ANSI colour codes are written.
pub fn use_color(force_color: bool, monochrome: bool, output_is_tty: bool) -> (r: bool)
    ensures
        r == color_enabled(force_color, monochrome, output_is_tty),
{
    !monochrome && (force_color || output_is_tty)
}

/// The escape character that starts every ANSI sequence.
pub open spec fn esc() -> char {
    '\x1b'
}

/// `code` when colouring, nothing otherwise.
pub open spec fn when_colored(colored: bool, code: Seq<char>) -> Seq<char> {
    if colored {
        code
    } else {
        Seq::empty()
    }
}

/// Back to the terminal's default rendition.
pub open spec fn reset_code(colored: bool) -> Seq<char> {
    when_colored(colored, seq![esc(), '[', '0', 'm'])
}

/// Brackets and commas: reset, then bold.
pub open spec fn bracket_code(colored: bool) -> Seq<char> {
    when_colored(colored, seq![esc(), '[', '0', 'm', esc(), '[', '1', 'm'])
}

/// Key paths: bold bright blue.
pub open spec fn key_code(colored: bool) -> Seq<char> {
    when_colored(colored, seq![esc(), '[', '1', ';', '3', '4', 'm'])
}

/// String values: green.
pub open spec fn string_code(colored: bool) -> Seq<char> {
    when_colored(colored, seq![esc(), '[', '3', '2', 'm'])
}

/// Appends the reset code when colouring.
pub fn push_reset(s: &mut String, colored: bool)
    ensures
        final(s)@ == old(s)@ + reset_code(colored),
{
    if colored {
        proof {
            reveal_strlit("\x1b[0m");
        }
        s.append("\x1b[0m");
    }
    assert(final(s)@ =~= old(s)@ + reset_code(colored));
}

/// Appends the bracket and comma code when colouring.
pub fn push_bracket_code(s: &mut String, colored: bool)
    ensures
        final(s)@ == old(s)@ + bracket_code(colored),
{
    if colored {
        proof {
            reveal_strlit("\x1b[0m\x1b[1m");
        }
        s.append("\x1b[0m\x1b[1m");
    }
    assert(final(s)@ =~= old(s)@ + bracket_code(colored));
}

/// Appends the key path code when colouring.
pub fn push_key_code(s: &mut String, colored: bool)
    ensures
        final(s)@ == old(s)@ + key_code(colored),
{
    if colored {
        proof {
            reveal_strlit("\x1b[1;34m");
        }
        s.append("\x1b[1;34m");
    }
    assert(final(s)@ =~= old(s)@ + key_code(colored));
}

/// Appends the string value code when colouring.
pub fn push_string_code(s: &mut String, colored: bool)
    ensures
        final(s)@ == old(s)@ + string_code(colored),
{
    if colored {
        proof {
            reveal_strlit("\x1b[32m");
        }
        s.append("\x1b[32m");
    }
    assert(final(s)@ =~= old(s)@ + string_code(colored));
}

} // verus!
