//! Decimal text of integers, as Rust's `Display` writes it.
use vstd::prelude::*;
use vstd::string::*;

verus! {

/// The ASCII digit for `d` in `0..10`.
pub open spec fn digit_char(d: int) -> char {
    if d == 0 {
        '0'
    } else if d == 1 {
        '1'
    } else if d == 2 {
        '2'
    } else if d == 3 {
        '3'
    } else if d == 4 {
        '4'
    } else if d == 5 {
        '5'
    } else if d == 6 {
        '6'
    } else if d == 7 {
        '7'
    } else if d == 8 {
        '8'
    } else {
        '9'
    }
}

/// Decimal digits of `n`, most significant first, without leading zeros.
pub open spec fn nat_text(n: nat) -> Seq<char>
    decreases n,
{
    if n < 10 {
        seq![digit_char(n as int)]
    } else {
        nat_text(n / 10).push(digit_char((n % 10) as int))
    }
}

/// Decimal text of `i`, with a leading `-` when negative.
pub open spec fn int_text(i: int) -> Seq<char> {
    if i < 0 {
        seq!['-'] + nat_text((-i) as nat)
    } else {
        nat_text(i as nat)
    }
}

/// `n` in decimal, left-padded with zeros to at least `width` characters.
pub open spec fn padded_text(n: nat, width: nat) -> Seq<char> {
    let t = nat_text(n);
    if t.len() >= width {
        t
    } else {
        Seq::new((width - t.len()) as nat, |k: int| '0') + t
    }
}

fn digit_str(d: u64) -> (s: &'static str)
    requires
        d < 10,
    ensures
        s@ == seq![digit_char(d as int)],
{
    proof {
        reveal_strlit("0");
        reveal_strlit("1");
        reveal_strlit("2");
        reveal_strlit("3");
        reveal_strlit("4");
        reveal_strlit("5");
        reveal_strlit("6");
        reveal_strlit("7");
        reveal_strlit("8");
        reveal_strlit("9");
    }
    if d == 0 {
        "0"
    } else if d == 1 {
        "1"
    } else if d == 2 {
        "2"
    } else if d == 3 {
        "3"
    } else if d == 4 {
        "4"
    } else if d == 5 {
        "5"
    } else if d == 6 {
        "6"
    } else if d == 7 {
        "7"
    } else if d == 8 {
        "8"
    } else {
        "9"
    }
}

/// Appends the decimal digits of `n`.
pub fn push_u64(s: &mut String, n: u64)
    ensures
        final(s)@ == old(s)@ + nat_text(n as nat),
    decreases n,
{
    if n >= 10 {
        push_u64(s, n / 10);
    }
    s.append(digit_str(n % 10));
    assert(final(s)@ =~= old(s)@ + nat_text(n as nat));
}

/// Appends the decimal text of `v`.
pub fn push_i64(s: &mut String, v: i64)
    ensures
        final(s)@ == old(s)@ + int_text(v as int),
{
    if v < 0 {
        proof {
            reveal_strlit("-");
        }
        s.append("-");
        let m: u64 = (0i128 - v as i128) as u64;
        push_u64(s, m);
        assert(final(s)@ =~= old(s)@ + int_text(v as int));
    } else {
        push_u64(s, v as u64);
    }
}

/// Appends `n` in decimal, zero-padded to at least `width` characters.
pub fn push_padded(s: &mut String, n: u64, width: u64)
    ensures
        final(s)@ == old(s)@ + padded_text(n as nat, width as nat),
{
    let mut digits = String::new();
    push_u64(&mut digits, n);
    let len = digits.as_str().unicode_len();
    let ghost start = s@;
    if (len as u64) < width {
        let mut k: u64 = len as u64;
        proof {
            reveal_strlit("0");
        }
        while k < width
            invariant
                len as u64 <= k <= width,
                s@ == start + Seq::new((k - len) as nat, |j: int| '0'),
            decreases width - k,
        {
            proof {
                reveal_strlit("0");
            }
            s.append("0");
            k = k + 1;
            assert(s@ =~= start + Seq::new((k - len) as nat, |j: int| '0'));
        }
    }
    s.append(digits.as_str());
    assert(final(s)@ =~= old(s)@ + padded_text(n as nat, width as nat));
}

/// The decimal text of `v`.
pub fn i64_text(v: i64) -> (res: String)
    ensures
        res@ == int_text(v as int),
{
    let mut s = String::new();
    push_i64(&mut s, v);
    s
}

} // verus!
