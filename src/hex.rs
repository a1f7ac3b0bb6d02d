//! Fixed-width lowercase hexadecimal digits, used by the token layout.
use vstd::prelude::*;

verus! {

pub open spec fn pow16(n: nat) -> nat
    decreases n,
{
    if n == 0 {
        1
    } else {
        16 * pow16((n - 1) as nat)
    }
}

/// The ASCII digit for a value below sixteen.
pub open spec fn hex_digit(d: nat) -> u8 {
    if d < 10 {
        (48 + d) as u8
    } else {
        (87 + d) as u8
    }
}

/// The value of one ASCII hex digit, if it is one.
pub open spec fn digit_value(b: u8) -> Option<nat> {
    if 48 <= b <= 57 {
        Some((b - 48) as nat)
    } else if 97 <= b <= 102 {
        Some((b - 87) as nat)
    } else {
        None
    }
}

/// The `n` lowest hex digits of `x`, most significant first.
pub open spec fn hex_digits(x: nat, n: nat) -> Seq<u8>
    decreases n,
{
    if n == 0 {
        Seq::empty()
    } else {
        hex_digits(x / 16, (n - 1) as nat).push(hex_digit(x % 16))
    }
}

/// The value of a string of hex digits, `None` if it holds anything else.
pub open spec fn hex_value(s: Seq<u8>) -> Option<nat>
    decreases s.len(),
{
    if s.len() == 0 {
        Some(0)
    } else {
        match (hex_value(s.drop_last()), digit_value(s.last())) {
            (Some(h), Some(d)) => Some(h * 16 + d),
            _ => None,
        }
    }
}

pub proof fn lemma_pow16_mono(a: nat, b: nat)
    requires
        a <= b,
    ensures
        pow16(a) <= pow16(b),
        pow16(a) > 0,
    decreases b,
{
    if b > a {
        lemma_pow16_mono(a, (b - 1) as nat);
    } else if a > 0 {
        lemma_pow16_mono((a - 1) as nat, (a - 1) as nat);
    }
}

pub proof fn lemma_pow16_32()
    ensures
        pow16(32) == 0x1_0000_0000_0000_0000_0000_0000_0000_0000,
        pow16(16) == 0x1_0000_0000_0000_0000,
{
    reveal_with_fuel(pow16, 33);
}

pub proof fn lemma_hex_digits_len(x: nat, n: nat)
    ensures
        hex_digits(x, n).len() == n,
    decreases n,
{
    if n > 0 {
        lemma_hex_digits_len(x / 16, (n - 1) as nat);
    }
}

/// Reading back the digits of a value gives the value.
pub proof fn lemma_hex_round_trip(x: nat, n: nat)
    requires
        x < pow16(n),
    ensures
        hex_value(hex_digits(x, n)) == Some(x),
    decreases n,
{
    if n > 0 {
        let m = (n - 1) as nat;
        assert(x / 16 < pow16(m)) by (nonlinear_arith)
            requires
                x < pow16(n),
                pow16(n) == 16 * pow16(m),
        ;
        lemma_hex_round_trip(x / 16, m);
        let s = hex_digits(x, n);
        assert(s.drop_last() =~= hex_digits(x / 16, m));
        assert(digit_value(hex_digit(x % 16)) == Some(x % 16));
        assert((x / 16) * 16 + x % 16 == x) by (nonlinear_arith);
    } else {
        assert(x == 0);
    }
}

/// Digits of two values below the bound agree only when the values do.
pub proof fn lemma_hex_digits_injective(x: nat, y: nat, n: nat)
    requires
        x < pow16(n),
        y < pow16(n),
        hex_digits(x, n) == hex_digits(y, n),
    ensures
        x == y,
{
    lemma_hex_round_trip(x, n);
    lemma_hex_round_trip(y, n);
}

proof fn lemma_hex_value_prefix_none(s: Seq<u8>, k: int)
    requires
        0 <= k <= s.len(),
        hex_value(s.subrange(0, k)) is None,
    ensures
        hex_value(s) is None,
    decreases s.len() - k,
{
    if k == s.len() {
        assert(s.subrange(0, k) =~= s);
    } else {
        let t = s.drop_last();
        assert(t.subrange(0, k) =~= s.subrange(0, k));
        lemma_hex_value_prefix_none(t, k);
    }
}

/// Appends the `n` lowest hex digits of `x`.
pub fn push_hex(out: &mut Vec<u8>, x: u128, n: usize)
    requires
        n <= 32,
    ensures
        final(out)@ == old(out)@ + hex_digits(x as nat, n as nat),
    decreases n,
{
    if n > 0 {
        push_hex(out, x / 16, n - 1);
        let d = (x % 16) as u8;
        let c = if d < 10 {
            48 + d
        } else {
            87 + d
        };
        let ghost before = out@;
        out.push(c);
        proof {
            let m = (n - 1) as nat;
            assert(c == hex_digit((x as nat) % 16));
            assert(hex_digits(x as nat, n as nat) == hex_digits((x / 16) as nat, m).push(c));
            assert(out@ =~= old(out)@ + hex_digits(x as nat, n as nat));
        }
    } else {
        assert(out@ =~= old(out)@ + hex_digits(x as nat, n as nat));
    }
}

/// Reads `n` hex digits from `s` at `start`.
pub fn parse_hex(s: &[u8], start: usize, n: usize) -> (r: Option<u128>)
    requires
        start + n <= s@.len(),
        n <= 32,
    ensures
        match hex_value(s@.subrange(start as int, start + n)) {
            Some(v) => r == Some(v as u128) && v < pow16(n as nat),
            None => r is None,
        },
{
    let len = s.len();
    let mut acc: u128 = 0;
    let mut i: usize = 0;
    proof {
        assert(s@.subrange(start as int, start as int) =~= Seq::<u8>::empty());
    }
    while i < n
        invariant
            i <= n,
            n <= 32,
            start + n <= s@.len(),
            s@.len() == len,
            hex_value(s@.subrange(start as int, start + i)) == Some(acc as nat),
            (acc as nat) < pow16(i as nat),
        decreases n - i,
    {
        let b = s[start + i];
        let ghost next = s@.subrange(start as int, start + i + 1);
        proof {
            assert(next.drop_last() =~= s@.subrange(start as int, start + i));
            assert(next.last() == b);
        }
        let d: u128 = if 48 <= b && b <= 57 {
            (b - 48) as u128
        } else if 97 <= b && b <= 102 {
            (b - 87) as u128
        } else {
            proof {
                let whole = s@.subrange(start as int, start + n);
                assert(whole.subrange(0, i + 1) =~= next);
                lemma_hex_value_prefix_none(whole, i + 1);
            }
            return None;
        };
        proof {
            lemma_pow16_mono((i + 1) as nat, 32);
            lemma_pow16_32();
            assert(pow16((i + 1) as nat) == 16 * pow16(i as nat));
            assert(acc * 16 + d < pow16((i + 1) as nat)) by (nonlinear_arith)
                requires
                    (acc as nat) < pow16(i as nat),
                    d < 16,
                    pow16((i + 1) as nat) == 16 * pow16(i as nat),
            ;
        }
        acc = acc * 16 + d;
        i = i + 1;
    }
    Some(acc)
}

} // verus!
