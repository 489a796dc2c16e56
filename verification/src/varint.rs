//! Base-128 integers of variable length, as protocol buffers write them: seven bits to a byte,
//! the lowest first, the high bit set in every byte but the last.
use crate::buffers::{max_len, mut_bytes, shared_bytes};
use bytes::{Bytes, BytesMut};
use prost::DecodeError;
use vstd::arithmetic::div_mod::lemma_div_denominator;
use vstd::arithmetic::power::{
    lemma_pow0, lemma_pow1, lemma_pow_adds, lemma_pow_positive, pow,
};
use vstd::prelude::*;

verus! {

/// The bytes that stand for `value`.
pub open spec fn varint(value: nat) -> Seq<u8>
    decreases value,
{
    if value < 128 {
        seq![value as u8]
    } else {
        seq![(value % 128 + 128) as u8] + varint(value / 128)
    }
}

/// How many bytes the integer at the front of `s` takes, its last byte counted; none where no
/// byte of `s` ends it.
pub open spec fn varint_len(s: Seq<u8>) -> Option<nat>
    decreases s.len(),
{
    if s.len() == 0 {
        None
    } else if s[0] < 128 {
        Some(1)
    } else {
        match varint_len(s.skip(1)) {
            Some(n) => Some(n + 1),
            None => None,
        }
    }
}

/// The number that the low seven bits of the bytes of `s` make up.
pub open spec fn varint_value(s: Seq<u8>) -> nat
    decreases s.len(),
{
    if s.len() == 0 {
        0
    } else {
        (s[0] % 128) as nat + 128 * varint_value(s.skip(1))
    }
}

/// The 64-bit integer at the front of `s` and how many bytes it takes: at most ten, and the
/// value must fit.
pub open spec fn decoded(s: Seq<u8>) -> Option<(u64, nat)> {
    match varint_len(s) {
        Some(n) => if n <= 10 && varint_value(s.take(n as int)) <= u64::MAX {
            Some((varint_value(s.take(n as int)) as u64, n))
        } else {
            None
        },
        None => None,
    }
}

/// Stands for `prost::DecodeError`.
#[verifier::external_type_specification]
#[verifier::external_body]
pub struct ExDecodeError(DecodeError);

/// `prost::encoding::encode_varint` appends the bytes that stand for `value`. It panics where
/// the bytes together would exceed `isize::MAX`; ten bytes are enough for every value.
#[verifier::external_body]
pub(crate) fn encode_varint(value: u64, buf: &mut BytesMut)
    requires
        mut_bytes(*old(buf)).len() + 10 <= max_len(),
    ensures
        mut_bytes(*final(buf)) == mut_bytes(*old(buf)) + varint(value as nat),
{
    prost::encoding::encode_varint(value, buf)
}

/// `prost::encoding::decode_varint` takes the integer off the front of `data`, and fails where
/// there is none that ends within ten bytes and fits in 64 bits. What is left of `data` after a
/// failure is not said: some of the bytes may be gone.
#[verifier::external_body]
pub(crate) fn decode_varint(data: &mut Bytes) -> (r: Result<u64, DecodeError>)
    ensures
        match decoded(shared_bytes(*old(data))) {
            Some((value, n)) => r == Ok::<u64, DecodeError>(value) && shared_bytes(*final(data))
                == shared_bytes(*old(data)).skip(n as int),
            None => r is Err,
        },
{
    prost::encoding::decode_varint(data)
}

/// A value below `128^k` takes at most `k` bytes, and at least one.
proof fn lemma_varint_len_bound(value: nat, k: nat)
    requires
        k > 0,
        value < vstd::arithmetic::power::pow(128, k),
    ensures
        1 <= varint(value).len() <= k,
    decreases k,
{
    reveal(vstd::arithmetic::power::pow);
    if value >= 128 {
        let p = vstd::arithmetic::power::pow(128, (k - 1) as nat);
        assert(vstd::arithmetic::power::pow(128, k) == 128 * p);
        assert(value / 128 < p);
        if k == 1 {
            assert(p == 1);
        } else {
            lemma_varint_len_bound(value / 128, (k - 1) as nat);
        }
    }
}

/// A 64-bit value takes between one and ten bytes.
pub proof fn law_varint_len(value: u64)
    ensures
        1 <= varint(value as nat).len() <= 10,
{
    assert(vstd::arithmetic::power::pow(128, 10) == 0x400000000000000000) by {
        reveal_with_fuel(vstd::arithmetic::power::pow, 11);
    }
    lemma_varint_len_bound(value as nat, 10);
}

/// The bytes of a value end where the value ends, and give it back.
pub(crate) proof fn lemma_varint_front(value: nat, rest: Seq<u8>)
    ensures
        varint_len(varint(value) + rest) == Some(varint(value).len()),
        varint_value(varint(value)) == value,
    decreases value,
{
    let s = varint(value);
    let t = s + rest;
    if value < 128 {
        assert(s.skip(1) =~= Seq::<u8>::empty());
        assert(varint_value(s.skip(1)) == 0);
        assert(t[0] == s[0]);
    } else {
        lemma_varint_front(value / 128, rest);
        assert(s.skip(1) =~= varint(value / 128));
        assert(t.skip(1) =~= varint(value / 128) + rest);
        assert(t[0] == s[0]);
        assert(s[0] % 128 == value % 128);
    }
}

/// The bytes of a value hold its digits to the base of 128, the lowest first: the high bit of a
/// byte says whether another follows, and no byte is spent on leading zeros.
pub proof fn law_varint_bytes(value: nat, i: nat)
    requires
        i < varint(value).len(),
    ensures
        ({
            let s = varint(value);
            let digit = value as int / pow(128, i) % 128;
            &&& s[i as int] == if i == s.len() - 1 {
                digit
            } else {
                digit + 128
            }
            &&& value < pow(128, s.len())
            &&& s.len() > 1 ==> value >= pow(128, (s.len() - 1) as nat)
        }),
    decreases value,
{
    let s = varint(value);
    lemma_pow0(128);
    lemma_pow1(128);
    if value >= 128 {
        let rest = varint(value / 128);
        assert(s.skip(1) =~= rest);
        let j: nat = if i == 0 {
            0
        } else {
            (i - 1) as nat
        };
        law_varint_bytes(value / 128, j);
        lemma_pow_adds(128, 1, rest.len());
        lemma_pow_adds(128, 1, (rest.len() - 1) as nat);
        let high = pow(128, rest.len());
        assert(pow(128, s.len()) == 128 * high);
        assert(value < 128 * high) by (nonlinear_arith)
            requires
                value / 128 < high,
        ;
        let low = pow(128, (rest.len() - 1) as nat);
        assert(pow(128, (s.len() - 1) as nat) == 128 * low);
        if rest.len() > 1 {
            assert(value >= 128 * low) by (nonlinear_arith)
                requires
                    value / 128 >= low,
            ;
        } else {
            assert(low == 1);
        }
        if i > 0 {
            lemma_pow_adds(128, 1, j);
            lemma_pow_positive(128, j);
            lemma_div_denominator(value as int, 128, pow(128, j));
            assert(s[i as int] == rest[j as int]);
        } else {
            assert(value as int / 1 == value);
        }
    } else {
        assert(value as int / 1 == value);
    }
}

/// Taking an integer off the front goes byte by byte: one below 128 is the integer, and any other
/// is its lowest seven bits, with the integer behind it as the higher ones, where both together
/// take at most ten bytes and fit.
pub proof fn law_decoded_byte_by_byte(first: u8, rest: Seq<u8>)
    ensures
        decoded(Seq::empty()) is None,
        decoded(seq![first] + rest) == if first < 128 {
            Some((first as u64, 1nat))
        } else {
            match decoded(rest) {
                Some((high, n)) => if n < 10 && first - 128 + 128 * high <= u64::MAX {
                    Some(((first - 128 + 128 * high) as u64, n + 1))
                } else {
                    None
                },
                None => None,
            }
        },
{
    let s = seq![first] + rest;
    assert(s.skip(1) =~= rest);
    if first < 128 {
        let front = s.take(1);
        assert(front.skip(1) =~= Seq::<u8>::empty());
        assert(varint_value(front.skip(1)) == 0);
        assert(front[0] == first);
    } else if let Some(n) = varint_len(rest) {
        lemma_varint_len_within(rest);
        let front = s.take(n as int + 1);
        assert(front.skip(1) =~= rest.take(n as int));
        assert(front[0] == first);
    }
}

/// What was encoded is decoded again, whatever follows it.
pub proof fn law_varint_round_trip(value: u64, rest: Seq<u8>)
    ensures
        decoded(varint(value as nat) + rest) == Some((value, varint(value as nat).len())),
{
    law_varint_len(value);
    lemma_varint_front(value as nat, rest);
    let s = varint(value as nat);
    assert((s + rest).take(s.len() as int) =~= s);
}

/// Two values that are written alike are the same value.
pub proof fn law_varint_injective(a: u64, b: u64)
    requires
        varint(a as nat) == varint(b as nat),
    ensures
        a == b,
{
    lemma_varint_front(a as nat, Seq::empty());
    lemma_varint_front(b as nat, Seq::empty());
}

/// A decoded integer took at least one byte, and no more than there were.
pub proof fn law_decoded_within(s: Seq<u8>)
    ensures
        decoded(s) matches Some((value, n)) ==> 1 <= n <= s.len() && n <= 10,
{
    lemma_varint_len_within(s);
}

proof fn lemma_varint_len_within(s: Seq<u8>)
    ensures
        varint_len(s) matches Some(n) ==> 1 <= n <= s.len(),
    decreases s.len(),
{
    if s.len() > 0 && s[0] >= 128 {
        lemma_varint_len_within(s.skip(1));
    }
}

} // verus!
