//! Numbers as text: decimal, signed decimal and prefixed hexadecimal.

use vstd::prelude::*;
use vstd::string::StringExecFns;

verus! {

/// The character for digit `d`, in any base up to sixteen (lower case).
pub open spec fn digit_char(d: int) -> char {
    if d == 0 {
        '0'
    } else if d == 1 {
        '1'
    } else if d == 2 {
        '2'
    } else if d == 3 {
        '3'
    } else if d == 4 {
        '4'
    } else if d == 5 {
        '5'
    } else if d == 6 {
        '6'
    } else if d == 7 {
        '7'
    } else if d == 8 {
        '8'
    } else if d == 9 {
        '9'
    } else if d == 10 {
        'a'
    } else if d == 11 {
        'b'
    } else if d == 12 {
        'c'
    } else if d == 13 {
        'd'
    } else if d == 14 {
        'e'
    } else {
        'f'
    }
}

/// `n` in decimal, most significant digit first, without leading zeros; `0`
/// is the single digit `0`.
pub open spec fn decimal(n: nat) -> Seq<char>
    decreases n,
{
    if n < 10 {
        seq![digit_char(n as int)]
    } else {
        decimal(n / 10).push(digit_char((n % 10) as int))
    }
}

/// `n` in hexadecimal (lower case), most significant digit first, without
/// leading zeros; `0` is the single digit `0`.
pub open spec fn hexadecimal(n: nat) -> Seq<char>
    decreases n,
{
    if n < 16 {
        seq![digit_char(n as int)]
    } else {
        hexadecimal(n / 16).push(digit_char((n % 16) as int))
    }
}

/// `x` in decimal, with a leading `-` when it is negative.
pub open spec fn signed_decimal(x: int) -> Seq<char> {
    if x < 0 {
        seq!['-'] + decimal((-x) as nat)
    } else {
        decimal(x as nat)
    }
}

/// `count` zeros.
pub open spec fn zeros(count: nat) -> Seq<char> {
    Seq::new(count, |i: int| '0')
}

/// `n` in hexadecimal behind the prefix `0x`, with zeros between the two so
/// that the whole text is at least eight characters long.
pub open spec fn prefixed_hex(n: nat) -> Seq<char> {
    let body = hexadecimal(n);
    let fill = if body.len() < 6 {
        (6 - body.len()) as nat
    } else {
        0
    };
    seq!['0', 'x'] + zeros(fill) + body
}

/// The one-character text for digit `d`.
fn digit_text(d: u32) -> (t: &'static str)
    requires
        d < 16,
    ensures
        t@ == seq![digit_char(d as int)],
{
    proof {
        reveal_strlit("0");
        reveal_strlit("1");
        reveal_strlit("2");
        reveal_strlit("3");
        reveal_strlit("4");
        reveal_strlit("5");
        reveal_strlit("6");
        reveal_strlit("7");
        reveal_strlit("8");
        reveal_strlit("9");
        reveal_strlit("a");
        reveal_strlit("b");
        reveal_strlit("c");
        reveal_strlit("d");
        reveal_strlit("e");
        reveal_strlit("f");
    }
    let t = if d == 0 {
        "0"
    } else if d == 1 {
        "1"
    } else if d == 2 {
        "2"
    } else if d == 3 {
        "3"
    } else if d == 4 {
        "4"
    } else if d == 5 {
        "5"
    } else if d == 6 {
        "6"
    } else if d == 7 {
        "7"
    } else if d == 8 {
        "8"
    } else if d == 9 {
        "9"
    } else if d == 10 {
        "a"
    } else if d == 11 {
        "b"
    } else if d == 12 {
        "c"
    } else if d == 13 {
        "d"
    } else if d == 14 {
        "e"
    } else {
        "f"
    };
    assert(t@ =~= seq![digit_char(d as int)]);
    t
}

/// Appends `n` in decimal to `out`.
fn push_decimal(out: &mut String, n: u32)
    ensures
        final(out)@ == old(out)@ + decimal(n as nat),
    decreases n,
{
    if n < 10 {
        out.append(digit_text(n));
    } else {
        let ghost start = out@;
        push_decimal(out, n / 10);
        out.append(digit_text(n % 10));
        proof {
            let d = decimal((n / 10) as nat);
            assert(out@ =~= start + d.push(digit_char((n % 10) as int)));
        }
    }
}

/// Appends `n` in hexadecimal to `out` and returns the number of digits.
fn push_hexadecimal(out: &mut String, n: u32) -> (count: u32)
    ensures
        final(out)@ == old(out)@ + hexadecimal(n as nat),
        count == hexadecimal(n as nat).len(),
        1 <= count,
        n == 0 || count <= n,
    decreases n,
{
    if n < 16 {
        out.append(digit_text(n));
        1
    } else {
        let ghost start = out@;
        let high = push_hexadecimal(out, n / 16);
        out.append(digit_text(n % 16));
        proof {
            let d = hexadecimal((n / 16) as nat);
            assert(out@ =~= start + d.push(digit_char((n % 16) as int)));
        }
        high + 1
    }
}

/// `n` in decimal.
pub fn format_decimal(n: u32) -> (text: String)
    ensures
        text@ == decimal(n as nat),
{
    let mut text = String::new();
    push_decimal(&mut text, n);
    proof {
        assert(text@ =~= decimal(n as nat));
    }
    text
}

/// `x` in decimal, with a leading `-` when it is negative.
pub fn format_signed(x: i32) -> (text: String)
    ensures
        text@ == signed_decimal(x as int),
{
    let mut text = String::new();
    if x < 0 {
        proof {
            reveal_strlit("-");
        }
        text.append("-");
        let size: u32 = (-(x as i64)) as u32;
        push_decimal(&mut text, size);
        proof {
            assert(text@ =~= signed_decimal(x as int));
        }
    } else {
        push_decimal(&mut text, x as u32);
        proof {
            assert(text@ =~= signed_decimal(x as int));
        }
    }
    text
}

/// `n` in hexadecimal behind `0x`, zero-filled to eight characters in all.
pub fn format_hex(n: u32) -> (text: String)
    ensures
        text@ == prefixed_hex(n as nat),
{
    let mut body = String::new();
    let count = push_hexadecimal(&mut body, n);
    proof {
        reveal_strlit("0x");
        assert(body@ =~= hexadecimal(n as nat));
    }
    let mut text = String::from_str("0x");
    let mut filled: u32 = count;
    while filled < 6
        invariant
            count <= filled,
            filled <= 6 || filled == count,
            text@ == seq!['0', 'x'] + zeros((filled - count) as nat),
        decreases 6 - filled,
    {
        proof {
            reveal_strlit("0");
        }
        text.append("0");
        filled = filled + 1;
        proof {
            assert(text@ =~= seq!['0', 'x'] + zeros((filled - count) as nat));
        }
    }
    text.append(body.as_str());
    proof {
        assert(text@ =~= prefixed_hex(n as nat));
    }
    text
}

} // verus!
