//! A game written out as text: its size, then its rows.

use vstd::prelude::*;
use vstd::string::StringExecFns;
use crate::board::Board;
use crate::game::LifeGame;

verus! {

/// The character that stands for a digit below ten.
pub open spec fn digit(d: int) -> char {
    if d == 0 {
        '0'
    } else if d == 1 {
        '1'
    } else if d == 2 {
        '2'
    } else if d == 3 {
        '3'
    } else if d == 4 {
        '4'
    } else if d == 5 {
        '5'
    } else if d == 6 {
        '6'
    } else if d == 7 {
        '7'
    } else if d == 8 {
        '8'
    } else {
        '9'
    }
}

/// A number in decimal, without sign and without leading zeros.
pub open spec fn decimal(n: nat) -> Seq<char>
    decreases n,
{
    if n < 10 {
        seq![digit(n as int)]
    } else {
        decimal(n / 10).push(digit((n % 10) as int))
    }
}

impl Board {
    /// The stored states of the first `count` cells of row `y`, in decimal
    /// with one space between neighbours.
    pub open spec fn row_text(self, y: int, count: int) -> Seq<char>
        decreases count,
    {
        if count <= 0 {
            Seq::empty()
        } else if count == 1 {
            decimal(self.raw(0, y) as nat)
        } else {
            self.row_text(y, count - 1) + seq![' '] + decimal(self.raw(count - 1, y) as nat)
        }
    }

    /// The first `count` rows, each closed by a line feed.
    pub open spec fn rows_text(self, count: int) -> Seq<char>
        decreases count,
    {
        if count <= 0 {
            Seq::empty()
        } else {
            self.rows_text(count - 1) + self.row_text(count - 1, self.width as int) + seq!['\n']
        }
    }

    /// The board as text: a first line `(width, height)`, then one line for
    /// each row.
    pub open spec fn text(self) -> Seq<char> {
        seq!['('] + decimal(self.width) + seq![',', ' '] + decimal(self.height) + seq![')', '\n']
            + self.rows_text(self.height as int)
    }
}

/// The text of one digit.
fn digit_text(d: usize) -> (text: &'static str)
    requires
        d < 10,
    ensures
        text@ == seq![digit(d as int)],
{
    proof {
        reveal_strlit("0");
        reveal_strlit("1");
        reveal_strlit("2");
        reveal_strlit("3");
        reveal_strlit("4");
        reveal_strlit("5");
        reveal_strlit("6");
        reveal_strlit("7");
        reveal_strlit("8");
        reveal_strlit("9");
    }
    let text: &'static str = match d {
        0 => "0",
        1 => "1",
        2 => "2",
        3 => "3",
        4 => "4",
        5 => "5",
        6 => "6",
        7 => "7",
        8 => "8",
        _ => "9",
    };
    assert(text@ =~= seq![digit(d as int)]);
    text
}

/// Writes `n` in decimal at the end of `text`.
fn push_decimal(text: &mut String, n: usize)
    ensures
        final(text)@ == old(text)@ + decimal(n as nat),
    decreases n,
{
    if n >= 10 {
        push_decimal(text, n / 10);
    }
    text.append(digit_text(n % 10));
    assert(text@ =~= old(text)@ + decimal(n as nat));
}

impl LifeGame {
    /// The game as text: a first line `(width, height)`, then one line for
    /// each row with the stored states of its cells, one space between
    /// neighbours.
    pub fn to_string(&self) -> (text: String)
        requires
            self.wf(),
        ensures
            text@ == self@.text(),
    {
        proof {
            reveal_strlit("(");
            reveal_strlit(", ");
            reveal_strlit(")\n");
        }
        let mut text = String::new();
        text.append("(");
        push_decimal(&mut text, self.width());
        text.append(", ");
        push_decimal(&mut text, self.height());
        text.append(")\n");
        let ghost head = text@;
        assert(head =~= seq!['('] + decimal(self@.width) + seq![',', ' '] + decimal(self@.height)
            + seq![')', '\n']);
        let mut y: usize = 0;
        while y < self.height()
            invariant
                self.wf(),
                y <= self@.height,
                text@ == head + self@.rows_text(y as int),
            decreases self@.height - y,
        {
            let ghost above = text@;
            let mut x: usize = 0;
            while x < self.width()
                invariant
                    self.wf(),
                    y < self@.height,
                    x <= self@.width,
                    text@ == above + self@.row_text(y as int, x as int),
                decreases self@.width - x,
            {
                if x > 0 {
                    text.append(" ");
                }
                let state: u8 = self.get_as_u8(x, y);
                push_decimal(&mut text, state as usize);
                proof {
                    reveal_strlit(" ");
                    let so_far = self@.row_text(y as int, x as int);
                    let cell = decimal(state as nat);
                    assert(self@.row_text(y as int, x + 1) =~= if x == 0 {
                        cell
                    } else {
                        so_far + seq![' '] + cell
                    });
                    assert(text@ =~= above + self@.row_text(y as int, x + 1));
                }
                x += 1;
            }
            text.append("\n");
            proof {
                reveal_strlit("\n");
                let row = self@.row_text(y as int, self@.width as int);
                assert(self@.rows_text(y + 1) == self@.rows_text(y as int) + row + seq!['\n']);
                assert(text@ =~= head + self@.rows_text(y + 1));
            }
            y += 1;
        }
        text
    }
}

} // verus!
