//! Text building: numbers in decimal and hexadecimal, lists and options.

use vstd::prelude::*;
use vstd::string::*;

verus! {

/// The character for one digit.
pub open spec fn digit_char(d: int, upper: bool) -> char {
    match d as u8 {
        0 => '0',
        1 => '1',
        2 => '2',
        3 => '3',
        4 => '4',
        5 => '5',
        6 => '6',
        7 => '7',
        8 => '8',
        9 => '9',
        10 => if upper { 'A' } else { 'a' },
        11 => if upper { 'B' } else { 'b' },
        12 => if upper { 'C' } else { 'c' },
        13 => if upper { 'D' } else { 'd' },
        14 => if upper { 'E' } else { 'e' },
        _ => if upper { 'F' } else { 'f' },
    }
}

/// `n` written in a base, without leading zeros.
pub open spec fn radix_text(n: int, base: int, upper: bool) -> Seq<char>
    decreases n,
{
    if n < base || base < 2 {
        seq![digit_char(n, upper)]
    } else {
        proof {
            assert(0 <= n / base < n) by (nonlinear_arith)
                requires
                    n >= base >= 2,
            ;
        }
        radix_text(n / base, base, upper).push(digit_char(n % base, upper))
    }
}

/// `n` in decimal.
pub open spec fn dec(n: int) -> Seq<char> {
    radix_text(n, 10, false)
}

/// `n` in decimal, with a minus sign when negative.
pub open spec fn signed_dec(n: int) -> Seq<char> {
    if n < 0 {
        seq!['-'] + dec(-n)
    } else {
        dec(n)
    }
}

/// A 16-bit number as four hexadecimal digits.
pub open spec fn hex_word(n: int, upper: bool) -> Seq<char> {
    seq![
        digit_char(n / 0x1000, upper),
        digit_char(n / 0x100 % 16, upper),
        digit_char(n / 0x10 % 16, upper),
        digit_char(n % 16, upper),
    ]
}

/// A 16-bit number as four lower-case hexadecimal digits.
pub open spec fn hex4(n: u16) -> Seq<char> {
    hex_word(n as int, false)
}

/// A byte as two lower-case hexadecimal digits.
pub open spec fn hex2(n: u8) -> Seq<char> {
    seq![digit_char(n as int / 16, false), digit_char(n as int % 16, false)]
}

/// `s` filled up with spaces on the right to a width.
pub open spec fn padded(s: Seq<char>, width: nat) -> Seq<char> {
    if s.len() >= width {
        s
    } else {
        s + Seq::new((width - s.len()) as nat, |i: int| ' ')
    }
}

/// The lines of a log as texts.
pub open spec fn texts(log: Seq<String>) -> Seq<Seq<char>> {
    Seq::new(log.len(), |i: int| log[i]@)
}

/// The texts joined with a separator between neighbours.
pub open spec fn joined(parts: Seq<Seq<char>>, sep: Seq<char>) -> Seq<char>
    decreases parts.len(),
{
    if parts.len() == 0 {
        Seq::empty()
    } else if parts.len() == 1 {
        parts[0]
    } else {
        joined(parts.drop_last(), sep) + sep + parts.last()
    }
}

/// Appending a line to a log appends its text.
pub proof fn texts_push(log: Seq<String>, line: String)
    ensures
        texts(log.push(line)) == texts(log).push(line@),
{
    assert(texts(log.push(line)) =~= texts(log).push(line@));
}

/// The texts of two logs, one behind the other.
pub proof fn texts_concat(a: Seq<String>, b: Seq<String>)
    ensures
        texts(a + b) == texts(a) + texts(b),
{
    assert(texts(a + b) =~= texts(a) + texts(b));
}

fn digit_str(d: u8, upper: bool) -> (s: &'static str)
    requires
        d < 16,
    ensures
        s@ == seq![digit_char(d as int, upper)],
{
    proof {
        reveal_strlit("0");
        reveal_strlit("1");
        reveal_strlit("2");
        reveal_strlit("3");
        reveal_strlit("4");
        reveal_strlit("5");
        reveal_strlit("6");
        reveal_strlit("7");
        reveal_strlit("8");
        reveal_strlit("9");
        reveal_strlit("A");
        reveal_strlit("B");
        reveal_strlit("C");
        reveal_strlit("D");
        reveal_strlit("E");
        reveal_strlit("F");
        reveal_strlit("a");
        reveal_strlit("b");
        reveal_strlit("c");
        reveal_strlit("d");
        reveal_strlit("e");
        reveal_strlit("f");
    }
    let s: &'static str = match d {
        0 => "0",
        1 => "1",
        2 => "2",
        3 => "3",
        4 => "4",
        5 => "5",
        6 => "6",
        7 => "7",
        8 => "8",
        9 => "9",
        10 => if upper {
            "A"
        } else {
            "a"
        },
        11 => if upper {
            "B"
        } else {
            "b"
        },
        12 => if upper {
            "C"
        } else {
            "c"
        },
        13 => if upper {
            "D"
        } else {
            "d"
        },
        14 => if upper {
            "E"
        } else {
            "e"
        },
        _ => if upper {
            "F"
        } else {
            "f"
        },
    };
    assert(s@ =~= seq![digit_char(d as int, upper)]);
    s
}

/// Append `n` in a base.
pub fn push_radix(out: &mut String, n: u128, base: u8, upper: bool)
    requires
        2 <= base <= 16,
    ensures
        final(out)@ == old(out)@ + radix_text(n as int, base as int, upper),
    decreases n,
{
    if n < base as u128 {
        out.append(digit_str(n as u8, upper));
    } else {
        let q: u128 = n / base as u128;
        let d: u8 = (n % base as u128) as u8;
        assert(q < n) by (nonlinear_arith)
            requires
                q == n / base as u128,
                n >= base,
                base >= 2,
        ;
        push_radix(out, q, base, upper);
        let ghost before = out@;
        out.append(digit_str(d, upper));
        assert(out@ =~= old(out)@ + radix_text(n as int, base as int, upper)) by {
            assert(radix_text(n as int, base as int, upper) == radix_text(
                n as int / base as int,
                base as int,
                upper,
            ).push(digit_char(n as int % base as int, upper)));
        }
    }
}

/// Append `n` in decimal.
pub fn push_dec(out: &mut String, n: u128)
    ensures
        final(out)@ == old(out)@ + dec(n as int),
{
    push_radix(out, n, 10, false);
}

/// Append `n` in decimal, with a minus sign when negative.
pub fn push_signed_dec(out: &mut String, n: i64)
    ensures
        final(out)@ == old(out)@ + signed_dec(n as int),
{
    if n < 0 {
        proof {
            reveal_strlit("-");
        }
        out.append("-");
        assert("-"@ =~= seq!['-']);
        push_dec(out, (-(n as i128)) as u128);
        assert(out@ =~= old(out)@ + signed_dec(n as int));
    } else {
        push_dec(out, n as u128);
    }
}

/// Append a 16-bit number as four hexadecimal digits.
pub fn push_hex_word(out: &mut String, n: u16, upper: bool)
    ensures
        final(out)@ == old(out)@ + hex_word(n as int, upper),
{
    out.append(digit_str((n / 0x1000) as u8, upper));
    out.append(digit_str((n / 0x100 % 16) as u8, upper));
    out.append(digit_str((n / 0x10 % 16) as u8, upper));
    out.append(digit_str((n % 16) as u8, upper));
    assert(out@ =~= old(out)@ + hex_word(n as int, upper));
}

/// Append a 16-bit number as four lower-case hexadecimal digits.
pub fn push_hex4(out: &mut String, n: u16)
    ensures
        final(out)@ == old(out)@ + hex4(n),
{
    push_hex_word(out, n, false);
}

/// Append a byte as two lower-case hexadecimal digits.
pub fn push_hex2(out: &mut String, n: u8)
    ensures
        final(out)@ == old(out)@ + hex2(n),
{
    out.append(digit_str(n / 16, false));
    out.append(digit_str(n % 16, false));
    assert(out@ =~= old(out)@ + hex2(n));
}

/// Append a text, filled up with spaces to a width.
pub fn push_padded(out: &mut String, s: &str, width: usize)
    ensures
        final(out)@ == old(out)@ + padded(s@, width as nat),
{
    proof {
        reveal_strlit(" ");
        assert(" "@ =~= seq![' ']);
    }
    out.append(s);
    let ghost before = out@;
    let mut n: usize = s.unicode_len();
    while n < width
        invariant
            s@.len() <= n,
            n <= width || n == s@.len(),
            " "@ == seq![' '],
            out@ == before + Seq::new((n - s@.len()) as nat, |i: int| ' '),
        decreases width - n,
    {
        out.append(" ");
        n = n + 1;
        assert(out@ =~= before + Seq::new((n - s@.len()) as nat, |i: int| ' '));
    }
    assert(out@ =~= old(out)@ + padded(s@, width as nat));
}

/// Join texts with a separator between neighbours.
pub fn join(parts: &Vec<String>, sep: &str) -> (s: String)
    ensures
        s@ == joined(texts(parts@), sep@),
{
    let mut s: String = String::new();
    let mut i: usize = 0;
    let ghost all = texts(parts@);
    while i < parts.len()
        invariant
            i <= parts@.len(),
            all == texts(parts@),
            s@ == joined(all.take(i as int), sep@),
        decreases parts@.len() - i,
    {
        if i > 0 {
            s.append(sep);
        }
        s.append(parts[i].as_str());
        proof {
            let done = all.take(i + 1);
            assert(done.drop_last() =~= all.take(i as int));
            assert(done.last() == parts@[i as int]@);
            if i == 0 {
                assert(s@ =~= done[0]);
            }
        }
        i = i + 1;
    }
    assert(all.take(i as int) =~= all);
    s
}

} // verus!
