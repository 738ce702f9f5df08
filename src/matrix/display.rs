//! Text rendering: one bracketed, comma-separated line per row.
use vstd::prelude::*;

use super::mat::{lemma_flat_index, Matrix};
use super::simd::SimdOps;

verus! {

/// The decimal digits of `n`, most significant first.
pub open spec fn digits(n: nat) -> Seq<char>
    decreases n,
{
    if n < 10 {
        seq![digit_char(n)]
    } else {
        digits(n / 10).push(digit_char(n % 10))
    }
}

pub open spec fn digit_char(d: nat) -> char {
    ((d + '0' as nat) as u8) as char
}

/// `x` written in decimal, with a leading `-` when negative.
pub open spec fn decimal(x: int) -> Seq<char> {
    if x < 0 {
        seq!['-'] + digits((-x) as nat)
    } else {
        digits(x as nat)
    }
}

/// The entries of `row` in decimal, separated by `", "`.
pub open spec fn entries_text<T: SimdOps>(row: Seq<T>) -> Seq<char>
    decreases row.len(),
{
    if row.len() == 0 {
        seq![]
    } else if row.len() == 1 {
        decimal(row[0].val())
    } else {
        entries_text(row.drop_last()) + seq![',', ' '] + decimal(row.last().val())
    }
}

/// One row in brackets, ended by a newline.
pub open spec fn row_text<T: SimdOps>(row: Seq<T>) -> Seq<char> {
    seq!['['] + entries_text(row) + seq![']', '\n']
}

/// Every row of `m` in turn.
pub open spec fn matrix_text<T: SimdOps>(m: Seq<Seq<T>>) -> Seq<char>
    decreases m.len(),
{
    if m.len() == 0 {
        seq![]
    } else {
        matrix_text(m.drop_last()) + row_text(m.last())
    }
}

fn push_digits(out: &mut Vec<char>, n: u64)
    ensures
        final(out)@ == old(out)@ + digits(n as nat),
    decreases n,
{
    if n >= 10 {
        push_digits(out, n / 10);
    }
    let d = (n % 10) as u8;
    out.push((d + 48u8) as char);
    proof {
        assert(digit_char((n % 10) as nat) == (d + 48u8) as char);
        if n >= 10 {
            assert(old(out)@ + digits(n as nat) =~= old(out)@ + digits((n / 10) as nat) + seq![
                digit_char((n % 10) as nat),
            ]);
        } else {
            assert(old(out)@ + digits(n as nat) =~= old(out)@ + seq![digit_char(n as nat)]);
        }
        assert(final(out)@ =~= old(out)@ + digits(n as nat));
    }
}

fn push_decimal<T: SimdOps>(out: &mut Vec<char>, x: T)
    ensures
        final(out)@ == old(out)@ + decimal(x.val()),
{
    let (negative, magnitude) = x.sign_magnitude();
    if negative {
        out.push('-');
    }
    push_digits(out, magnitude);
    proof {
        if negative {
            assert(final(out)@ =~= old(out)@ + decimal(x.val()));
        }
    }
}

/// Relies on collecting characters into a `String`: the text holds the
/// characters in order.
#[verifier::external_body]
fn string_from_chars(chars: &Vec<char>) -> (r: String)
    ensures
        r@ == chars@,
{
    chars.iter().collect()
}

impl<T: SimdOps> Matrix<T> {
    /// The characters of the rendering: each row as `[a, b, c]` and a newline.
    pub fn display_chars(&self) -> (r: Vec<char>)
        requires
            self.wf(),
        ensures
            r@ == matrix_text(self.entries()),
    {
        let mut out: Vec<char> = Vec::new();
        let mut i: usize = 0;
        while i < self.rows
            invariant
                self.wf(),
                i <= self.rows,
                out@ == matrix_text(self.entries().take(i as int)),
            decreases self.rows - i,
        {
            let ghost row = self.entries()[i as int];
            let ghost before = out@;
            out.push('[');
            let mut j: usize = 0;
            while j < self.cols
                invariant
                    self.wf(),
                    i < self.rows,
                    j <= self.cols,
                    row == self.entries()[i as int],
                    out@ == before + seq!['['] + entries_text(row.take(j as int)),
                decreases self.cols - j,
            {
                proof {
                    lemma_flat_index(i as int, j as int, self.rows as int, self.cols as int);
                }
                if j > 0 {
                    out.push(',');
                    out.push(' ');
                }
                push_decimal(&mut out, self.data[i * self.cols + j]);
                proof {
                    let next = row.take(j + 1);
                    assert(next.drop_last() =~= row.take(j as int));
                    assert(next.last() == row[j as int]);
                    assert(out@ =~= before + seq!['['] + entries_text(next));
                }
                j += 1;
            }
            out.push(']');
            out.push('\n');
            proof {
                assert(row.take(self.cols as int) =~= row);
                let done = self.entries().take(i + 1);
                assert(done.drop_last() =~= self.entries().take(i as int));
                assert(out@ =~= matrix_text(done));
            }
            i += 1;
        }
        assert(self.entries().take(self.rows as int) =~= self.entries());
        out
    }

    /// The rendering as text: each row as `[a, b, c]` and a newline.
    pub fn to_display_string(&self) -> (r: String)
        requires
            self.wf(),
        ensures
            r@ == matrix_text(self.entries()),
    {
        string_from_chars(&self.display_chars())
    }
}

} // verus!
