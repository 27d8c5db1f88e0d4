//! Numbers in hexadecimal digits.
use vstd::prelude::*;

verus! {

/// A hexadecimal digit.
pub open spec fn hex_digit(d: int) -> char {
    if d < 10 {
        (('0' as u8) + d) as u8 as char
    } else {
        (('a' as u8) + (d - 10)) as u8 as char
    }
}

/// The last `n` hexadecimal digits of `h`.
pub open spec fn hex(h: int, n: nat) -> Seq<char>
    decreases n,
{
    if n == 0 {
        Seq::empty()
    } else {
        hex(h / 16, (n - 1) as nat).push(hex_digit(h % 16))
    }
}

fn digit_char(d: u64) -> (c: char)
    requires
        d < 16,
    ensures
        c == hex_digit(d as int),
{
    if d < 10 {
        (48u8 + d as u8) as char
    } else {
        (97u8 + (d - 10) as u8) as char
    }
}

/// Appends the last `n` hexadecimal digits of `h`.
pub fn push_hex(out: &mut Vec<char>, h: u64, n: usize)
    ensures
        final(out)@ == old(out)@ + hex(h as int, n as nat),
    decreases n,
{
    if n == 0 {
        assert(out@ + Seq::<char>::empty() =~= out@);
    } else {
        let ghost before = out@;
        push_hex(out, h / 16, n - 1);
        out.push(digit_char(h % 16));
        assert(out@ =~= before + hex(h as int, n as nat));
    }
}

pub proof fn lemma_hex_len(h: int, n: nat)
    ensures
        hex(h, n).len() == n,
    decreases n,
{
    if n > 0 {
        lemma_hex_len(h / 16, (n - 1) as nat);
    }
}

pub proof fn lemma_hex_injective(a: int, b: int, n: nat, bound: int)
    requires
        0 <= a < bound,
        0 <= b < bound,
        bound <= vstd::arithmetic::power::pow(16, n),
        hex(a, n) == hex(b, n),
    ensures
        a == b,
    decreases n,
{
    vstd::arithmetic::power::lemma_pow0(16);
    if n > 0 {
        let m = (n - 1) as nat;
        lemma_hex_len(a / 16, m);
        lemma_hex_len(b / 16, m);
        let (x, y) = (hex(a, n), hex(b, n));
        assert(x.drop_last() =~= hex(a / 16, m));
        assert(y.drop_last() =~= hex(b / 16, m));
        assert(x.last() == hex_digit(a % 16));
        assert(y.last() == hex_digit(b % 16));
        assert(a % 16 == b % 16);
        reveal(vstd::arithmetic::power::pow);
        let p = vstd::arithmetic::power::pow(16, m);
        lemma_hex_injective(a / 16, b / 16, m, p);
    }
}

/// Different numbers of 64 bits have different digits.
pub proof fn sixteen_digits_differ(a: u64, b: u64)
    requires
        hex(a as int, 16) == hex(b as int, 16),
    ensures
        a == b,
{
    assert(vstd::arithmetic::power::pow(16, 16) == 0x1_0000_0000_0000_0000) by {
        reveal(vstd::arithmetic::power::pow);
        reveal_with_fuel(vstd::arithmetic::power::pow, 17);
    }
    lemma_hex_injective(a as int, b as int, 16, 0x1_0000_0000_0000_0000);
}

/// What a hexadecimal digit stands for.
pub open spec fn hex_value(c: char) -> int {
    if '0' <= c <= '9' {
        c as u32 - '0' as u32
    } else {
        c as u32 - 'a' as u32 + 10
    }
}

/// The digits of a number are those from `0` to `9` and from `a` to `f`, and
/// the last stands for its remainder by sixteen, behind those of its quotient.
pub proof fn digits_stand_for_their_number(h: int, n: nat)
    requires
        h >= 0,
        n >= 1,
    ensures
        hex(h, n).len() == n,
        hex(h, n).drop_last() == hex(h / 16, (n - 1) as nat),
        hex_value(hex(h, n).last()) == h % 16,
        '0' <= hex(h, n).last() <= '9' || 'a' <= hex(h, n).last() <= 'f',
{
    lemma_hex_len(h, n);
    let d = h % 16;
    assert(0 <= d < 16);
    assert(hex(h, n).drop_last() =~= hex(h / 16, (n - 1) as nat));
    let c = hex_digit(d);
    if d < 10 {
        assert(c as u32 == 48 + d);
    } else {
        assert(c as u32 == 97 + (d - 10));
    }
}

} // verus!
