//! The text that the renderer emits, as mathematical sequences of
//! characters: decimal numbers, the ANSI control sequences, and the
//! joining of lines into one frame.

use vstd::prelude::*;

verus! {

/// The decimal digit character for `d` (`d < 10`).
pub open spec fn digit_char(d: nat) -> char {
    if d == 0 {
        '0'
    } else if d == 1 {
        '1'
    } else if d == 2 {
        '2'
    } else if d == 3 {
        '3'
    } else if d == 4 {
        '4'
    } else if d == 5 {
        '5'
    } else if d == 6 {
        '6'
    } else if d == 7 {
        '7'
    } else if d == 8 {
        '8'
    } else {
        '9'
    }
}

/// The decimal representation of `n`, most significant digit first,
/// with no leading zeros (except for `n == 0` itself).
pub open spec fn dec_str(n: nat) -> Seq<char>
    decreases n,
{
    if n < 10 {
        seq![digit_char(n)]
    } else {
        dec_str(n / 10).push(digit_char(n % 10))
    }
}

/// ANSI "cursor up `n` lines": `ESC [ <n> A`.
pub open spec fn cursor_up_seq(n: nat) -> Seq<char> {
    seq!['\x1B', '['] + dec_str(n) + seq!['A']
}

/// ANSI "erase from cursor to end of screen": `ESC [ J`.
pub open spec fn erase_down_seq() -> Seq<char> {
    seq!['\x1B', '[', 'J']
}

/// Everything a clear emits when the previous frame held `count` lines:
/// move the cursor up to the first line of the block, then erase
/// downwards.  A zero-line frame left nothing on screen, so there is
/// nothing to move over or erase.
pub open spec fn clear_emission(count: nat) -> Seq<char> {
    if count == 0 {
        Seq::empty()
    } else {
        cursor_up_seq((count - 1) as nat) + erase_down_seq()
    }
}

/// All of `lines`, each followed by a newline.
pub open spec fn with_newlines(lines: Seq<Seq<char>>) -> Seq<char>
    decreases lines.len(),
{
    if lines.len() == 0 {
        Seq::empty()
    } else {
        with_newlines(lines.drop_last()) + lines.last() + seq!['\n']
    }
}

/// One frame: every line newline-terminated except the last, which is
/// written bare so the cursor stays at the end of the printed block.
pub open spec fn frame_text(lines: Seq<Seq<char>>) -> Seq<char> {
    if lines.len() == 0 {
        Seq::empty()
    } else {
        with_newlines(lines.drop_last()) + lines.last()
    }
}

/// A one-character string slice for the decimal digit `d`.
fn digit_str(d: usize) -> (s: &'static str)
    requires
        d < 10,
    ensures
        s@ == seq![digit_char(d as nat)],
{
    proof {
        reveal_strlit("0");
        reveal_strlit("1");
        reveal_strlit("2");
        reveal_strlit("3");
        reveal_strlit("4");
        reveal_strlit("5");
        reveal_strlit("6");
        reveal_strlit("7");
        reveal_strlit("8");
        reveal_strlit("9");
    }
    let s: &'static str = if d == 0 {
        "0"
    } else if d == 1 {
        "1"
    } else if d == 2 {
        "2"
    } else if d == 3 {
        "3"
    } else if d == 4 {
        "4"
    } else if d == 5 {
        "5"
    } else if d == 6 {
        "6"
    } else if d == 7 {
        "7"
    } else if d == 8 {
        "8"
    } else {
        "9"
    };
    proof {
        assert(s@ =~= seq![digit_char(d as nat)]);
    }
    s
}

/// Renders `n` in decimal, matching `dec_str`.
pub fn dec_of(n: usize) -> (s: String)
    ensures
        s@ == dec_str(n as nat),
    decreases n,
{
    if n < 10 {
        let mut s = String::new();
        s.append(digit_str(n));
        proof {
            assert(s@ =~= dec_str(n as nat));
        }
        s
    } else {
        proof {
            assert(n / 10 < n && n / 10 >= 1) by (nonlinear_arith)
                requires
                    n >= 10,
            ;
        }
        let mut s = dec_of(n / 10);
        s.append(digit_str(n % 10));
        proof {
            assert((n / 10) as nat == (n as nat) / 10);
            assert((n % 10) as nat == (n as nat) % 10);
            assert(s@ =~= dec_str(n as nat));
        }
        s
    }
}

} // verus!
