//! Reference identifiers: fixed-width lowercase hexadecimal tokens.
//!
//! One run draws a single high-entropy 64-bit seed; the identifier of the
//! `k`-th generated reference is the 16-digit hexadecimal rendering of
//! `seed + k` modulo `2^64`. Identifiers within one run are therefore
//! pairwise distinct whenever fewer than `2^64` are drawn.

use vstd::prelude::*;
use vstd::arithmetic::div_mod::lemma_fundamental_div_mod;

verus! {

/// `16^len`: the number of values that `len` hexadecimal digits can render.
pub open spec fn spec_pow16(len: nat) -> int
    decreases len,
{
    if len == 0 {
        1
    } else {
        16 * spec_pow16((len - 1) as nat)
    }
}

/// The lowercase hexadecimal digit for a value below 16.
pub open spec fn spec_hex_digit(d: int) -> char {
    if d == 0 {
        '0'
    } else if d == 1 {
        '1'
    } else if d == 2 {
        '2'
    } else if d == 3 {
        '3'
    } else if d == 4 {
        '4'
    } else if d == 5 {
        '5'
    } else if d == 6 {
        '6'
    } else if d == 7 {
        '7'
    } else if d == 8 {
        '8'
    } else if d == 9 {
        '9'
    } else if d == 10 {
        'a'
    } else if d == 11 {
        'b'
    } else if d == 12 {
        'c'
    } else if d == 13 {
        'd'
    } else if d == 14 {
        'e'
    } else {
        'f'
    }
}

/// The last `len` base-16 digits of `n`, most significant first.
pub open spec fn spec_hex_digits(n: int, len: nat) -> Seq<char>
    decreases len,
{
    if len == 0 {
        Seq::empty()
    } else {
        spec_hex_digits(n / 16, (len - 1) as nat).push(spec_hex_digit(n % 16))
    }
}

/// A 64-bit value as exactly 16 lowercase hexadecimal digits.
pub open spec fn spec_hex16(n: u64) -> Seq<char> {
    spec_hex_digits(n as int, 16)
}

/// The 64-bit value underlying the identifier of the reference at position
/// `index`: `seed + index` reduced modulo `2^64`.
pub open spec fn spec_id_value(seed: u64, index: int) -> u64 {
    if seed + index > u64::MAX {
        (seed + index - 0x1_0000_0000_0000_0000) as u64
    } else {
        (seed + index) as u64
    }
}

/// The identifier of the reference at position `index` in a run seeded with
/// `seed`.
pub open spec fn spec_id(seed: u64, index: int) -> Seq<char> {
    spec_hex16(spec_id_value(seed, index))
}

/// Relies on uuid::Uuid::new_v4, which draws a fresh random UUID from the
/// operating system's entropy source; the low 64 bits serve as a seed.
/// Nothing is promised of the value.
#[verifier::external_body]
pub(crate) fn random_u64() -> u64 {
    uuid::Uuid::new_v4().as_u128() as u64
}

/// The lowercase hexadecimal digit for `d`, as a one-character string.
pub(crate) fn hex_digit_str(d: u64) -> (r: &'static str)
    requires
        d < 16,
    ensures
        r@ == seq![spec_hex_digit(d as int)],
{
    let r: &'static str = if d == 0 {
        "0"
    } else if d == 1 {
        "1"
    } else if d == 2 {
        "2"
    } else if d == 3 {
        "3"
    } else if d == 4 {
        "4"
    } else if d == 5 {
        "5"
    } else if d == 6 {
        "6"
    } else if d == 7 {
        "7"
    } else if d == 8 {
        "8"
    } else if d == 9 {
        "9"
    } else if d == 10 {
        "a"
    } else if d == 11 {
        "b"
    } else if d == 12 {
        "c"
    } else if d == 13 {
        "d"
    } else if d == 14 {
        "e"
    } else {
        "f"
    };
    proof {
        reveal_strlit("0");
        reveal_strlit("1");
        reveal_strlit("2");
        reveal_strlit("3");
        reveal_strlit("4");
        reveal_strlit("5");
        reveal_strlit("6");
        reveal_strlit("7");
        reveal_strlit("8");
        reveal_strlit("9");
        reveal_strlit("a");
        reveal_strlit("b");
        reveal_strlit("c");
        reveal_strlit("d");
        reveal_strlit("e");
        reveal_strlit("f");
        assert(r@ =~= seq![spec_hex_digit(d as int)]);
    }
    r
}

/// The last `len` hexadecimal digits of `n`, most significant first.
fn hex_digits(n: u64, len: usize) -> (r: String)
    ensures
        r@ == spec_hex_digits(n as int, len as nat),
    decreases len,
{
    if len == 0 {
        String::new()
    } else {
        let mut s = hex_digits(n / 16, len - 1);
        s.append(hex_digit_str(n % 16));
        proof {
            assert(s@ =~= spec_hex_digits(n as int, len as nat));
        }
        s
    }
}

/// Render a 64-bit value as exactly 16 lowercase hexadecimal digits.
pub fn hex16(n: u64) -> (r: String)
    ensures
        r@ == spec_hex16(n),
{
    hex_digits(n, 16)
}

/// The identifier of the reference at position `index` in a run seeded with
/// `seed`: 16 lowercase hexadecimal digits of `seed + index` mod `2^64`.
pub fn generate_id(seed: u64, index: u64) -> (r: String)
    ensures
        r@ == spec_id(seed, index as int),
{
    hex16(seed.wrapping_add(index))
}

/// Equal hexadecimal digits come from equal values below 16.
proof fn lemma_hex_digit_injective(d1: int, d2: int)
    requires
        0 <= d1 < 16,
        0 <= d2 < 16,
        spec_hex_digit(d1) == spec_hex_digit(d2),
    ensures
        d1 == d2,
{
}

/// A fixed-width hexadecimal rendering determines the value: two values
/// below `16^len` with the same `len` digits are equal.
proof fn lemma_hex_digits_injective(a: int, b: int, len: nat)
    requires
        0 <= a < spec_pow16(len),
        0 <= b < spec_pow16(len),
        spec_hex_digits(a, len) == spec_hex_digits(b, len),
    ensures
        a == b,
    decreases len,
{
    if len == 0 {
        assert(spec_pow16(0) == 1);
    } else {
        let s1 = spec_hex_digits(a / 16, (len - 1) as nat);
        let s2 = spec_hex_digits(b / 16, (len - 1) as nat);
        assert(s1.push(spec_hex_digit(a % 16)).last() == spec_hex_digit(a % 16));
        assert(s2.push(spec_hex_digit(b % 16)).last() == spec_hex_digit(b % 16));
        lemma_hex_digit_injective(a % 16, b % 16);
        assert(s1 =~= s1.push(spec_hex_digit(a % 16)).drop_last());
        assert(s2 =~= s2.push(spec_hex_digit(b % 16)).drop_last());
        assert(spec_pow16(len) == 16 * spec_pow16((len - 1) as nat));
        assert(a / 16 < spec_pow16((len - 1) as nat) && b / 16 < spec_pow16((len - 1) as nat))
            by (nonlinear_arith)
            requires
                0 <= a < 16 * spec_pow16((len - 1) as nat),
                0 <= b < 16 * spec_pow16((len - 1) as nat),
        ;
        lemma_hex_digits_injective(a / 16, b / 16, (len - 1) as nat);
        lemma_fundamental_div_mod(a, 16);
        lemma_fundamental_div_mod(b, 16);
    }
}

/// Identifiers are pairwise distinct within one run: distinct positions,
/// both at most `u64::MAX` apart from position zero, yield distinct tokens.
pub proof fn lemma_ids_distinct(seed: u64, k1: int, k2: int)
    requires
        0 <= k1 <= u64::MAX,
        0 <= k2 <= u64::MAX,
        k1 != k2,
    ensures
        spec_id(seed, k1) != spec_id(seed, k2),
{
    let v1 = spec_id_value(seed, k1);
    let v2 = spec_id_value(seed, k2);
    assert(v1 != v2);
    assert(spec_pow16(0) == 1);
    assert(spec_pow16(1) == 0x10);
    assert(spec_pow16(2) == 0x100);
    assert(spec_pow16(3) == 0x1000);
    assert(spec_pow16(4) == 0x1_0000);
    assert(spec_pow16(5) == 0x10_0000);
    assert(spec_pow16(6) == 0x100_0000);
    assert(spec_pow16(7) == 0x1000_0000);
    assert(spec_pow16(8) == 0x1_0000_0000);
    assert(spec_pow16(9) == 0x10_0000_0000);
    assert(spec_pow16(10) == 0x100_0000_0000);
    assert(spec_pow16(11) == 0x1000_0000_0000);
    assert(spec_pow16(12) == 0x1_0000_0000_0000);
    assert(spec_pow16(13) == 0x10_0000_0000_0000);
    assert(spec_pow16(14) == 0x100_0000_0000_0000);
    assert(spec_pow16(15) == 0x1000_0000_0000_0000);
    assert(spec_pow16(16) == 0x1_0000_0000_0000_0000);
    if spec_hex16(v1) == spec_hex16(v2) {
        lemma_hex_digits_injective(v1 as int, v2 as int, 16);
    }
}

} // verus!
