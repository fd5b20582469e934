//! Decimal formatting of the small indices that the code generator embeds
//! in the evaluator source text.

use vstd::prelude::*;

verus! {

/// The decimal digit character for `d` in `0..10`.
pub open spec fn dec_digit(d: int) -> char {
    if d == 0 {
        '0'
    } else if d == 1 {
        '1'
    } else if d == 2 {
        '2'
    } else if d == 3 {
        '3'
    } else if d == 4 {
        '4'
    } else if d == 5 {
        '5'
    } else if d == 6 {
        '6'
    } else if d == 7 {
        '7'
    } else if d == 8 {
        '8'
    } else {
        '9'
    }
}

/// The decimal text of a non-negative number, without leading zeros.
pub open spec fn dec_str(n: int) -> Seq<char>
    decreases n,
{
    if n < 0 {
        Seq::empty()
    } else if n < 10 {
        seq![dec_digit(n)]
    } else {
        dec_str(n / 10).push(dec_digit(n % 10))
    }
}

/// Appends the decimal digit character for `d`.
fn push_digit(out: &mut String, d: u8)
    requires
        d < 10,
    ensures
        final(out)@ == old(out)@ + seq![dec_digit(d as int)],
{
    proof {
        reveal_strlit("0");
        reveal_strlit("1");
        reveal_strlit("2");
        reveal_strlit("3");
        reveal_strlit("4");
        reveal_strlit("5");
        reveal_strlit("6");
        reveal_strlit("7");
        reveal_strlit("8");
        reveal_strlit("9");
    }
    if d == 0 {
        out.append("0");
        proof {
            assert(old(out)@ + "0"@ =~= old(out)@ + seq![dec_digit(d as int)]);
        }
    } else if d == 1 {
        out.append("1");
        proof {
            assert(old(out)@ + "1"@ =~= old(out)@ + seq![dec_digit(d as int)]);
        }
    } else if d == 2 {
        out.append("2");
        proof {
            assert(old(out)@ + "2"@ =~= old(out)@ + seq![dec_digit(d as int)]);
        }
    } else if d == 3 {
        out.append("3");
        proof {
            assert(old(out)@ + "3"@ =~= old(out)@ + seq![dec_digit(d as int)]);
        }
    } else if d == 4 {
        out.append("4");
        proof {
            assert(old(out)@ + "4"@ =~= old(out)@ + seq![dec_digit(d as int)]);
        }
    } else if d == 5 {
        out.append("5");
        proof {
            assert(old(out)@ + "5"@ =~= old(out)@ + seq![dec_digit(d as int)]);
        }
    } else if d == 6 {
        out.append("6");
        proof {
            assert(old(out)@ + "6"@ =~= old(out)@ + seq![dec_digit(d as int)]);
        }
    } else if d == 7 {
        out.append("7");
        proof {
            assert(old(out)@ + "7"@ =~= old(out)@ + seq![dec_digit(d as int)]);
        }
    } else if d == 8 {
        out.append("8");
        proof {
            assert(old(out)@ + "8"@ =~= old(out)@ + seq![dec_digit(d as int)]);
        }
    } else {
        out.append("9");
        proof {
            assert(old(out)@ + "9"@ =~= old(out)@ + seq![dec_digit(d as int)]);
        }
    }
}

/// Appends the decimal text of `n`.
pub fn push_dec_u8(out: &mut String, n: u8)
    ensures
        final(out)@ == old(out)@ + dec_str(n as int),
{
    let ghost start = out@;
    if n >= 100 {
        push_digit(out, n / 100);
        push_digit(out, (n / 10) % 10);
        push_digit(out, n % 10);
        proof {
            vstd::arithmetic::div_mod::lemma_div_denominator(n as int, 10, 10);
            assert((n as int / 10) / 10 == n as int / 100);
            assert(0 <= n as int / 100 < 10);
            assert(10 <= n as int / 10);
            assert(dec_str((n / 100) as int) =~= seq![dec_digit((n / 100) as int)]);
            assert(dec_str((n / 10) as int) == dec_str((n / 100) as int).push(
                dec_digit(((n / 10) % 10) as int),
            ));
            assert(dec_str(n as int) == dec_str((n / 10) as int).push(dec_digit((n % 10) as int)));
            assert(out@ == ((start + seq![dec_digit((n / 100) as int)]) + seq![
                dec_digit(((n / 10) % 10) as int),
            ]) + seq![dec_digit((n % 10) as int)]);
            assert(dec_str(n as int) =~= seq![
                dec_digit((n / 100) as int),
                dec_digit(((n / 10) % 10) as int),
                dec_digit((n % 10) as int),
            ]);
            assert(((start + seq![dec_digit((n / 100) as int)]) + seq![
                dec_digit(((n / 10) % 10) as int),
            ]) + seq![dec_digit((n % 10) as int)] =~= start + seq![
                dec_digit((n / 100) as int),
                dec_digit(((n / 10) % 10) as int),
                dec_digit((n % 10) as int),
            ]);
            assert(out@ == start + dec_str(n as int));
        }
    } else if n >= 10 {
        push_digit(out, n / 10);
        push_digit(out, n % 10);
        proof {
            assert(0 <= n as int / 10 < 10);
            assert(dec_str((n / 10) as int) =~= seq![dec_digit((n / 10) as int)]);
            assert(dec_str(n as int) == dec_str((n / 10) as int).push(dec_digit((n % 10) as int)));
            assert(dec_str(n as int) =~= seq![
                dec_digit((n / 10) as int),
                dec_digit((n % 10) as int),
            ]);
            assert((start + seq![dec_digit((n / 10) as int)]) + seq![
                dec_digit((n % 10) as int),
            ] =~= start + seq![dec_digit((n / 10) as int), dec_digit((n % 10) as int)]);
            assert(out@ == start + dec_str(n as int));
        }
    } else {
        push_digit(out, n);
        proof {
            assert(out@ =~= start + dec_str(n as int));
        }
    }
}

} // verus!
