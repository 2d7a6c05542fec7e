//! Fixed-width integers as bytes.

use vstd::prelude::*;

verus! {

/// The `n` low base-256 digits of `x`, least significant first.
pub open spec fn little_endian(x: nat, n: nat) -> Seq<u8>
    decreases n,
{
    if n == 0 {
        Seq::empty()
    } else {
        seq![(x % 256) as u8] + little_endian(x / 256, (n - 1) as nat)
    }
}

/// The number whose base-256 digits, least significant first, are `digits`.
pub open spec fn little_endian_value(digits: Seq<u8>) -> nat
    decreases digits.len(),
{
    if digits.len() == 0 {
        0
    } else {
        digits[0] as nat + 256 * little_endian_value(digits.drop_first())
    }
}

/// The `n` low base-256 digits of `x`, most significant first.
pub open spec fn big_endian(x: nat, n: nat) -> Seq<u8> {
    little_endian(x, n).reverse()
}

/// 256 to the power `n`.
pub open spec fn radix_power(n: nat) -> nat
    decreases n,
{
    if n == 0 {
        1
    } else {
        256 * radix_power((n - 1) as nat)
    }
}

/// `n` digits are `n` bytes.
pub proof fn lemma_little_endian_len(x: nat, n: nat)
    ensures
        little_endian(x, n).len() == n,
    decreases n,
{
    if n > 0 {
        lemma_little_endian_len(x / 256, (n - 1) as nat);
    }
}

/// Digits taken from a number that fits in them give the number back.
pub proof fn lemma_value_of_digits(x: nat, n: nat)
    requires
        x < radix_power(n),
    ensures
        little_endian_value(little_endian(x, n)) == x,
    decreases n,
{
    if n > 0 {
        let rest = little_endian(x / 256, (n - 1) as nat);
        let all = little_endian(x, n);
        assert(all.drop_first() =~= rest);
        lemma_value_of_digits(x / 256, (n - 1) as nat);
    }
}

/// The digits of a sequence's value are the sequence.
pub proof fn lemma_digits_of_value(digits: Seq<u8>)
    ensures
        little_endian(little_endian_value(digits), digits.len()) == digits,
        little_endian_value(digits) < radix_power(digits.len()),
    decreases digits.len(),
{
    if digits.len() > 0 {
        let tail = digits.drop_first();
        lemma_digits_of_value(tail);
        let v = little_endian_value(digits);
        assert(v % 256 == digits[0] as nat);
        assert(v / 256 == little_endian_value(tail));
        assert(little_endian(v, digits.len()) =~= digits);
    } else {
        assert(little_endian(0, 0) =~= digits);
    }
}

/// Digit `k` of `x` is `x` shifted down by `k` places, modulo 256.
pub proof fn lemma_digit_at(x: nat, n: nat, k: nat)
    requires
        k < n,
    ensures
        little_endian(x, n).len() == n,
        little_endian(x, n)[k as int] == ((x / radix_power(k)) % 256) as u8,
    decreases n,
{
    lemma_little_endian_len(x, n);
    if k > 0 {
        let below = (k - 1) as nat;
        lemma_digit_at(x / 256, (n - 1) as nat, below);
        lemma_shift_twice(x, below);
        assert(below + 1 == k);
        assert(little_endian(x, n)[k as int] == little_endian(x / 256, (n - 1) as nat)[below as int]);
        assert(x / 256 / radix_power(below) == x / radix_power(k));
    } else {
        assert(radix_power(0) == 1);
        assert(x / radix_power(0) == x);
        assert(little_endian(x, n)[0] == (x % 256) as u8);
    }
}

/// Dividing by 256 and then by a power of 256 divides by the next power.
pub proof fn lemma_shift_twice(x: nat, k: nat)
    ensures
        (x / 256) / radix_power(k) == x / radix_power(k + 1),
        radix_power(k) > 0,
{
    lemma_radix_power_positive(k);
    vstd::arithmetic::div_mod::lemma_div_denominator(x as int, 256, radix_power(k) as int);
}

/// No power of 256 is zero.
pub proof fn lemma_radix_power_positive(k: nat)
    ensures
        radix_power(k) > 0,
    decreases k,
{
    if k > 0 {
        lemma_radix_power_positive((k - 1) as nat);
    }
}

/// Eight digits hold exactly the numbers below 2 to the power 64.
pub proof fn lemma_radix_power_eight()
    ensures
        radix_power(8) == 0x1_0000_0000_0000_0000,
{
    reveal_with_fuel(radix_power, 9);
}

/// The eight digits of a `u64` give it back, in either order.
pub proof fn lemma_eight_digits(x: u64)
    ensures
        little_endian(x as nat, 8).len() == 8,
        little_endian_value(little_endian(x as nat, 8)) == x,
        big_endian(x as nat, 8).len() == 8,
        big_endian(x as nat, 8).reverse() == little_endian(x as nat, 8),
{
    lemma_radix_power_eight();
    lemma_little_endian_len(x as nat, 8);
    lemma_value_of_digits(x as nat, 8);
    assert(little_endian(x as nat, 8).reverse().reverse() =~= little_endian(x as nat, 8));
}

/// The eight bytes of `x`, most significant first.
pub fn to_big_endian(x: u64) -> (bytes: [u8; 8])
    ensures
        bytes@ == big_endian(x as nat, 8),
{
    let mut bytes = [0u8; 8];
    let mut rest = x;
    let mut i: usize = 8;
    proof {
        lemma_little_endian_len(x as nat, 8);
        assert(radix_power(0) == 1);
        assert(x as nat / radix_power(0) == x as nat);
    }
    while i > 0
        invariant
            i <= 8,
            little_endian(x as nat, 8).len() == 8,
            rest as nat == x as nat / radix_power((8 - i) as nat),
            forall|j: int| i <= j < 8 ==> bytes@[j] == little_endian(x as nat, 8)[7 - j],
        decreases i,
    {
        i = i - 1;
        proof {
            lemma_digit_at(x as nat, 8, (7 - i) as nat);
            lemma_shift_twice(x as nat, (7 - i) as nat);
            vstd::arithmetic::div_mod::lemma_div_denominator(
                x as int,
                radix_power((7 - i) as nat) as int,
                256,
            );
        }
        bytes[i] = (rest % 256) as u8;
        rest = rest / 256;
    }
    assert(bytes@ =~= big_endian(x as nat, 8));
    bytes
}

} // verus!
