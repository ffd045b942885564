//! Wire primitives and field codecs.
use vstd::prelude::*;
use vstd::arithmetic::power2::{pow2, lemma2_to64, lemma_pow2_adds, lemma_pow2_pos};
use vstd::arithmetic::div_mod::lemma_mod_multiples_vanish;
use vstd::bits::{lemma_u32_shl_is_mul, lemma_u32_low_bits_mask_is_mod};

pub mod data;
pub mod event;
pub mod header;
pub mod text;

verus! {

/// Why a parser stopped without a value.
#[derive(Clone, Copy, Debug, PartialEq, Eq, Structural)]
pub enum Fault {
    /// The input ended before the item did.
    Incomplete,
    /// The bytes are not the item; a reader may skip a byte and try again.
    Soft,
    /// The bytes can never be decoded; reading ends.
    Fatal,
}

/// 128 to the power `n`.
pub open spec fn spec_pow128(n: nat) -> nat
    decreases n,
{
    if n == 0 {
        1
    } else {
        128 * spec_pow128((n - 1) as nat)
    }
}

/// The number whose `n` little-endian base-128 digits are the low seven bits
/// of the bytes from `pos` on.
pub open spec fn spec_varint_digits(s: Seq<u8>, pos: int, n: nat) -> nat
    decreases n,
{
    if n == 0 {
        0
    } else {
        spec_varint_digits(s, pos, (n - 1) as nat) + (s[pos + n - 1] % 128) as nat * spec_pow128(
            (n - 1) as nat,
        )
    }
}

/// Scans for the last byte of a varint from its `i`-th byte on.
pub open spec fn spec_varint_from(s: Seq<u8>, pos: int, i: nat) -> Result<(int, u32), Fault>
    decreases 5 - i,
{
    if i >= 5 {
        Err(Fault::Fatal)
    } else if pos < 0 || pos + i >= s.len() {
        Err(Fault::Incomplete)
    } else if s[pos + i] < 128 {
        Ok((pos + i + 1, (spec_varint_digits(s, pos, i + 1) % 0x1_0000_0000) as u32))
    } else {
        spec_varint_from(s, pos, i + 1)
    }
}

/// The unsigned varint at `pos`: up to five bytes, seven payload bits each,
/// least significant first, the high bit set on all but the last. The value
/// is cut to 32 bits. Five bytes that all ask for more are fatal.
pub open spec fn spec_take_varint(s: Seq<u8>, pos: int) -> Result<(int, u32), Fault> {
    spec_varint_from(s, pos, 0)
}

/// Reads the unsigned varint at `pos`.
pub fn take_varint(input: &[u8], pos: usize) -> (r: Result<(usize, u32), Fault>)
    ensures
        r matches Ok((p, v)) ==> spec_take_varint(input@, pos as int) == Ok::<(int, u32), Fault>(
            (p as int, v),
        ),
        r matches Err(e) ==> spec_take_varint(input@, pos as int) == Err::<(int, u32), Fault>(e),
        r matches Ok((p, _)) ==> pos < p <= input@.len(),
{
    let mut acc: u64 = 0;
    let mut scale: u64 = 1;
    let mut i: usize = 0;
    while i < 5
        invariant
            i <= 5,
            scale == spec_pow128(i as nat),
            acc == spec_varint_digits(input@, pos as int, i as nat),
            acc < scale,
            i > 0 ==> pos + i <= input@.len(),
            spec_take_varint(input@, pos as int) == spec_varint_from(
                input@,
                pos as int,
                i as nat,
            ),
        decreases 5 - i,
    {
        proof {
            reveal_with_fuel(spec_pow128, 6);
        }
        if pos >= input.len() || i >= input.len() - pos {
            return Err(Fault::Incomplete);
        }
        let byte: u8 = input[pos + i];
        let digit: u8 = byte % 128;
        assert(scale <= 0x1000_0000) by {
            assert(i == 0 || i == 1 || i == 2 || i == 3 || i == 4);
        }
        assert(digit * scale <= 127 * scale) by (nonlinear_arith)
            requires
                digit <= 127,
        ;
        acc = acc + (digit as u64) * scale;
        scale = scale * 128;
        i = i + 1;
        if byte < 128 {
            return Ok((pos + i, (acc % 0x1_0000_0000) as u32));
        }
    }
    Err(Fault::Fatal)
}

/// The signed value that a zigzag-coded unsigned integer stands for.
pub open spec fn spec_zigzag_decode(n: u32) -> int {
    if n % 2 == 0 {
        (n / 2) as int
    } else {
        -((n / 2) as int) - 1
    }
}

/// Takes a zigzag code back to the signed integer that it stands for.
pub fn zigzag_decode(from: u32) -> (r: i32)
    ensures
        r == spec_zigzag_decode(from),
{
    let half: u32 = from >> 1;
    let sign: u32 = if from & 1 == 0 { 0 } else { 0xffff_ffff };
    let bits: u32 = half ^ sign;
    assert(from & 1 == 0 <==> from % 2 == 0) by (bit_vector);
    assert(from >> 1 == from / 2) by (bit_vector);
    assert(half <= 0x7fff_ffff ==> (half ^ 0xffff_ffffu32) as i32 == -(half as int) - 1) by (bit_vector);
    assert(half <= 0x7fff_ffff ==> (half ^ 0u32) as i32 == half) by (bit_vector);
    #[verifier::truncate]
    (bits as i32)
}

/// The zigzag code of a signed integer: the non-negative ones go to the
/// even numbers, the negative ones to the odd numbers.
pub open spec fn spec_zigzag_encode(v: i32) -> u32 {
    if v >= 0 {
        (2 * v) as u32
    } else {
        (-2 * v - 1) as u32
    }
}

/// Zigzag decoding takes back zigzag encoding.
pub proof fn lemma_zigzag_round_trip(v: i32)
    ensures
        spec_zigzag_decode(spec_zigzag_encode(v)) == v,
{
}

/// The shortest varint of `n`: seven bits per byte, least significant
/// first, the high bit set on every byte but the last.
pub open spec fn spec_varint_encode(n: nat) -> Seq<u8>
    decreases n,
{
    if n < 128 {
        seq![n as u8]
    } else {
        seq![(n % 128 + 128) as u8] + spec_varint_encode(n / 128)
    }
}

/// A number in terms of its first base-128 digits and the rest.
proof fn lemma_base128(n0: nat)
    ensures
        ({
            let n1 = n0 / 128;
            let n2 = n1 / 128;
            let n3 = n2 / 128;
            let n4 = n3 / 128;
            &&& n0 == n0 % 128 + 128 * n1
            &&& n0 == n0 % 128 + 128 * (n1 % 128) + 16384 * n2
            &&& n0 == n0 % 128 + 128 * (n1 % 128) + 16384 * (n2 % 128) + 2097152 * n3
            &&& n0 == n0 % 128 + 128 * (n1 % 128) + 16384 * (n2 % 128) + 2097152 * (n3
                % 128) + 268435456 * n4
        }),
{
    let n1 = n0 / 128;
    let n2 = n1 / 128;
    let n3 = n2 / 128;
    let n4 = n3 / 128;
    assert(n0 == n0 % 128 + 128 * n1);
    assert(n1 == n1 % 128 + 128 * n2);
    assert(n2 == n2 % 128 + 128 * n3);
    assert(n3 == n3 % 128 + 128 * n4);
}

/// A digit with the high bit set still holds the digit in its low seven bits.
proof fn lemma_varint_digit(x: nat)
    ensures
        ((x % 128 + 128) as u8) >= 128,
        ((x % 128 + 128) as u8) % 128 == x % 128,
        x == 128 * (x / 128) + x % 128,
{
}

/// Decoding the shortest varint of a `u32` gives the number back and stops
/// right behind the varint, whatever follows it.
#[verifier::rlimit(40)]
pub proof fn lemma_varint_round_trip(n: u32, rest: Seq<u8>)
    ensures
        spec_take_varint(spec_varint_encode(n as nat) + rest, 0) == Ok::<(int, u32), Fault>(
            (spec_varint_encode(n as nat).len() as int, n),
        ),
        1 <= spec_varint_encode(n as nat).len() <= 5,
{
    let code = spec_varint_encode(n as nat);
    let s = code + rest;
    let n0 = n as nat;
    let n1 = n0 / 128;
    let n2 = n1 / 128;
    let n3 = n2 / 128;
    let n4 = n3 / 128;
    lemma_base128(n0);
    lemma_varint_digit(n0);
    lemma_varint_digit(n1);
    lemma_varint_digit(n2);
    lemma_varint_digit(n3);
    let d0 = (n0 % 128 + 128) as u8;
    let d1 = (n1 % 128 + 128) as u8;
    let d2 = (n2 % 128 + 128) as u8;
    let d3 = (n3 % 128 + 128) as u8;
    assert(spec_pow128(0) == 1);
    assert(spec_pow128(1) == 128);
    assert(spec_pow128(2) == 16384);
    assert(spec_pow128(3) == 2097152);
    assert(spec_pow128(4) == 268435456);
    assert(spec_varint_digits(s, 0, 0) == 0);
    if n0 < 128 {
        assert(code =~= seq![n0 as u8]);
        assert(s[0] == n0);
        assert(spec_varint_digits(s, 0, 1) == n0);
        assert(spec_varint_from(s, 0, 0) == Ok::<(int, u32), Fault>((1, n)));
    } else if n1 < 128 {
        assert(spec_varint_encode(n1) =~= seq![n1 as u8]);
        assert(code =~= seq![d0, n1 as u8]);
        assert(s[0] == d0 && s[1] == n1);
        assert(spec_varint_digits(s, 0, 1) == n0 % 128);
        assert(spec_varint_digits(s, 0, 2) == n0);
        assert(spec_varint_from(s, 0, 1) == Ok::<(int, u32), Fault>((2, n)));
    } else if n2 < 128 {
        assert(spec_varint_encode(n2) =~= seq![n2 as u8]);
        assert(spec_varint_encode(n1) =~= seq![d1, n2 as u8]);
        assert(code =~= seq![d0, d1, n2 as u8]);
        assert(s[0] == d0 && s[1] == d1 && s[2] == n2);
        assert(spec_varint_digits(s, 0, 1) == n0 % 128);
        assert(spec_varint_digits(s, 0, 2) == n0 % 128 + 128 * (n1 % 128));
        assert(spec_varint_digits(s, 0, 3) == n0);
        assert(spec_varint_from(s, 0, 2) == Ok::<(int, u32), Fault>((3, n)));
        assert(spec_varint_from(s, 0, 1) == spec_varint_from(s, 0, 2));
    } else if n3 < 128 {
        assert(spec_varint_encode(n3) =~= seq![n3 as u8]);
        assert(spec_varint_encode(n2) =~= seq![d2, n3 as u8]);
        assert(spec_varint_encode(n1) =~= seq![d1, d2, n3 as u8]);
        assert(code =~= seq![d0, d1, d2, n3 as u8]);
        assert(s[0] == d0 && s[1] == d1 && s[2] == d2 && s[3] == n3);
        assert(spec_varint_digits(s, 0, 1) == n0 % 128);
        assert(spec_varint_digits(s, 0, 2) == n0 % 128 + 128 * (n1 % 128));
        assert(spec_varint_digits(s, 0, 3) == n0 % 128 + 128 * (n1 % 128) + 16384 * (n2
            % 128));
        assert(spec_varint_digits(s, 0, 4) == n0);
        assert(spec_varint_from(s, 0, 3) == Ok::<(int, u32), Fault>((4, n)));
        assert(spec_varint_from(s, 0, 2) == spec_varint_from(s, 0, 3));
        assert(spec_varint_from(s, 0, 1) == spec_varint_from(s, 0, 2));
    } else {
        assert(n4 < 128);
        assert(spec_varint_encode(n4) =~= seq![n4 as u8]);
        assert(spec_varint_encode(n3) =~= seq![d3, n4 as u8]);
        assert(spec_varint_encode(n2) =~= seq![d2, d3, n4 as u8]);
        assert(spec_varint_encode(n1) =~= seq![d1, d2, d3, n4 as u8]);
        assert(code =~= seq![d0, d1, d2, d3, n4 as u8]);
        assert(s[0] == d0 && s[1] == d1 && s[2] == d2 && s[3] == d3 && s[4] == n4);
        assert(spec_varint_digits(s, 0, 1) == n0 % 128);
        assert(spec_varint_digits(s, 0, 2) == n0 % 128 + 128 * (n1 % 128));
        assert(spec_varint_digits(s, 0, 3) == n0 % 128 + 128 * (n1 % 128) + 16384 * (n2
            % 128));
        assert(spec_varint_digits(s, 0, 4) == n0 % 128 + 128 * (n1 % 128) + 16384 * (n2
            % 128) + 2097152 * (n3 % 128));
        assert(s[4] % 128 == n4);
        assert(spec_varint_digits(s, 0, 5) == spec_varint_digits(s, 0, 4) + (s[4] % 128) as nat
            * spec_pow128(4));
        assert((s[4] % 128) as nat * spec_pow128(4) == 268435456 * n4);
        assert(spec_varint_digits(s, 0, 5) == n0);
        assert(spec_varint_from(s, 0, 4) == Ok::<(int, u32), Fault>((5, n)));
        assert(spec_varint_from(s, 0, 3) == spec_varint_from(s, 0, 4));
        assert(spec_varint_from(s, 0, 2) == spec_varint_from(s, 0, 3));
        assert(spec_varint_from(s, 0, 1) == spec_varint_from(s, 0, 2));
    }
}

/// `num_traits::WrappingShl::wrapping_shl` on `i32`: a shift to the left by
/// `rhs` modulo 32 bits, which drops the bits that leave the word and does
/// not panic.
#[verifier::external_body]
fn wrapping_shl_i32(x: i32, rhs: u32) -> (r: i32)
    ensures
        r == x << (rhs % 32),
{
    num_traits::WrappingShl::wrapping_shl(&x, rhs)
}

/// `num_traits::WrappingShr::wrapping_shr` on `i32`: a shift to the right by
/// `rhs` modulo 32 bits, which keeps the sign and does not panic.
#[verifier::external_body]
fn wrapping_shr_i32(x: i32, rhs: u32) -> (r: i32)
    ensures
        r == x >> (rhs % 32),
{
    num_traits::WrappingShr::wrapping_shr(&x, rhs)
}

/// The value of the low `nbits` bits of `x`, read as a two's-complement
/// number of that width.
pub open spec fn spec_sign_extend(x: int, nbits: nat) -> int {
    let modulus = pow2(nbits) as int;
    let low = x % modulus;
    if 2 * low >= modulus {
        low - modulus
    } else {
        low
    }
}

/// Shifting the low `n` bits to the top of the word and back with the sign
/// gives the low bits, less 2^n where their highest bit is set.
proof fn lemma_sign_extend_shifts(x: i32, n: u32, m: u32)
    by (bit_vector)
    requires
        1 <= n <= 31,
        m == 1u32 << n,
    ensures
        ({
            let k: u32 = (32 - n) as u32;
            let r: i32 = (x << (k % 32)) >> (k % 32);
            let low: u32 = (x as u32) & ((m - 1) as u32);
            &&& low < m
            &&& 2 * low >= m ==> r == low - m
            &&& 2 * low < m ==> r == low
        }),
{
}

/// Reads the low `nbits` bits of `x` as a signed number of that width: the
/// highest of them is copied into all the bits above it.
pub fn sign_extend(x: i32, nbits: u32) -> (r: i32)
    requires
        1 <= nbits <= 31,
    ensures
        r == spec_sign_extend(x as int, nbits as nat),
{
    let notherbits: u32 = 32 - nbits;
    let r = wrapping_shr_i32(wrapping_shl_i32(x, notherbits), notherbits);
    proof {
        let m: u32 = 1u32 << nbits;
        let n = nbits as nat;
        lemma_sign_extend_shifts(x, nbits, m);
        lemma2_to64();
        lemma_pow2_adds(n, (32 - n) as nat);
        lemma_pow2_pos((32 - n) as nat);
        assert(pow2(n) * pow2((32 - n) as nat) == 0x1_0000_0000);
        assert(pow2((32 - n) as nat) >= 2) by {
            lemma_pow2_adds(1, (31 - n) as nat);
            lemma_pow2_pos((31 - n) as nat);
        }
        assert(pow2(n) <= 0x8000_0000) by (nonlinear_arith)
            requires
                pow2(n) * pow2((32 - n) as nat) == 0x1_0000_0000,
                pow2((32 - n) as nat) >= 2,
                pow2(n) > 0,
        ;
        lemma_u32_shl_is_mul(1u32, nbits);
        assert(m == pow2(n));
        lemma_u32_low_bits_mask_is_mod(x as u32, n);
        let ux = x as u32;
        assert(ux == (if x >= 0 { x as int } else { x + 0x1_0000_0000 })) by (bit_vector)
            requires
                ux == x as u32,
        ;
        assert(ux as int % (m as int) == (x as int) % (m as int)) by {
            if x < 0 {
                lemma_mod_multiples_vanish(pow2((32 - n) as nat) as int, x as int, m as int);
                assert(m * pow2((32 - n) as nat) + x == ux);
            }
        }
    }
    r
}

/// Sign-extends a word of exactly `nbits` bits.
pub fn sign_extend_word(raw: u32, nbits: u32) -> (r: i32)
    requires
        1 <= nbits <= 32,
        raw < pow2(nbits as nat),
    ensures
        r == spec_sign_extend(raw as int, nbits as nat),
{
    if nbits == 32 {
        proof {
            lemma2_to64();
            assert(raw as i32 == (if raw >= 0x8000_0000u32 {
                raw - 0x1_0000_0000
            } else {
                raw as int
            })) by (bit_vector);
        }
        #[verifier::truncate]
        (raw as i32)
    } else {
        proof {
            lemma2_to64();
            lemma_pow2_adds(nbits as nat, (31 - nbits) as nat);
            lemma_pow2_pos((31 - nbits) as nat);
            assert(pow2(nbits as nat) <= 0x8000_0000) by (nonlinear_arith)
                requires
                    pow2(nbits as nat) * pow2((31 - nbits) as nat) == 0x8000_0000,
                    pow2((31 - nbits) as nat) >= 1,
            ;
        }
        sign_extend(raw as i32, nbits)
    }
}

/// What the low 14 bits of `word` stand for when bit 13 is their sign.
pub fn sign_extend_14bit(word: u16) -> (r: i32)
    ensures
        r == spec_sign_extend(word as int, 14),
{
    sign_extend(word as i32, 14)
}

/// The encoding of one field as a header line names it.
#[allow(non_camel_case_types)]
#[derive(Clone, Copy, Debug, PartialEq, Eq, Structural)]
pub enum RawFieldEncoding {
    SignedVB,
    UnsignedVB,
    Negative14BitVB,
    Tag8_8SVB,
    Tag2_3S32,
    Tag8_4S16,
    Null,
    Tag2_3SVariable,
}

impl Default for RawFieldEncoding {
    fn default() -> (r: Self)
        ensures
            r == RawFieldEncoding::Null,
    {
        RawFieldEncoding::Null
    }
}

/// A codec as the frame decoder applies it: tagged codecs carry the number
/// of consecutive fields that share their tag byte.
#[allow(non_camel_case_types)]
#[derive(Clone, Copy, Debug, PartialEq, Eq, Structural)]
pub enum FieldEncoding {
    SignedVB,
    UnsignedVB,
    Negative14BitVB,
    Tag8_8SVB(usize),
    Tag2_3S32(usize),
    Tag8_4S16(usize),
    Null,
    Tag2_3SVariable(usize),
}

impl Default for FieldEncoding {
    fn default() -> (r: Self)
        ensures
            r == FieldEncoding::Null,
    {
        FieldEncoding::Null
    }
}

/// What one codec application yields.
#[derive(Clone, Copy, Debug)]
pub enum Field {
    Unsigned(u32),
    Signed(i32),
    SignedTriple([i32; 3]),
    SignedQuadruple([i16; 4]),
    SignedOctuple([i32; 8], usize),
}

impl Field {
    /// The decoded values in field order, widened to 64 bits.
    pub open spec fn values(self) -> Seq<i64> {
        match self {
            Field::Unsigned(v) => seq![v as i64],
            Field::Signed(v) => seq![v as i64],
            Field::SignedTriple(a) => Seq::new(3, |i: int| a@[i] as i64),
            Field::SignedQuadruple(a) => Seq::new(4, |i: int| a@[i] as i64),
            Field::SignedOctuple(a, n) => Seq::new(n as nat, |i: int| a@[i] as i64),
        }
    }
}

/// Puts `head` in front of the values of a parse that went well.
pub open spec fn spec_prepend(head: Seq<i64>, tail: Result<(int, Seq<i64>), Fault>) -> Result<
    (int, Seq<i64>),
    Fault,
> {
    match tail {
        Err(e) => Err(e),
        Ok((next, rest)) => Ok((next, head + rest)),
    }
}

/// To put two runs of values in front of a parse, one after the other, is to
/// put their concatenation in front of it.
pub proof fn lemma_prepend_twice(a: Seq<i64>, b: Seq<i64>, tail: Result<(int, Seq<i64>), Fault>)
    ensures
        spec_prepend(a, spec_prepend(b, tail)) == spec_prepend(a + b, tail),
{
    if let Ok((next, rest)) = tail {
        assert(a + (b + rest) =~= (a + b) + rest);
    }
}

/// A varint ends with its fifth byte at the latest: four bytes that ask for
/// more and a fifth that does not are a varint of five bytes, and five bytes
/// that all ask for more are fatal, whatever follows them.
pub proof fn lemma_varint_length_limit(s: Seq<u8>, pos: int)
    requires
        0 <= pos,
        pos + 5 <= s.len(),
        s[pos] >= 128,
        s[pos + 1] >= 128,
        s[pos + 2] >= 128,
        s[pos + 3] >= 128,
    ensures
        s[pos + 4] < 128 ==> (spec_take_varint(s, pos) matches Ok((next, _)) && next == pos + 5),
        s[pos + 4] >= 128 ==> spec_take_varint(s, pos) == Err::<(int, u32), Fault>(Fault::Fatal),
{
    reveal_with_fuel(spec_varint_from, 6);
}

/// The number whose `n` little-endian bytes start at `pos`.
pub open spec fn spec_le_uint(s: Seq<u8>, pos: int, n: nat) -> nat
    decreases n,
{
    if n == 0 {
        0
    } else {
        s[pos] as nat + 256 * spec_le_uint(s, pos + 1, (n - 1) as nat)
    }
}

/// A little-endian two's-complement integer of `n` bytes at `pos`.
pub open spec fn spec_le_signed(s: Seq<u8>, pos: int, n: nat) -> Result<(int, i64), Fault> {
    if pos < 0 || pos + n > s.len() {
        Err(Fault::Incomplete)
    } else {
        Ok((pos + n, spec_sign_extend(spec_le_uint(s, pos, n) as int, 8 * n) as i64))
    }
}

/// Reads a little-endian signed integer of one to four bytes.
pub fn take_le_signed(input: &[u8], pos: usize, n: usize) -> (r: Result<(usize, i32), Fault>)
    requires
        1 <= n <= 4,
    ensures
        r matches Ok((p, v)) ==> spec_le_signed(input@, pos as int, n as nat) == Ok::<
            (int, i64),
            Fault,
        >((p as int, v as i64)) && pos < p <= input@.len(),
        r matches Err(e) ==> spec_le_signed(input@, pos as int, n as nat) == Err::<
            (int, i64),
            Fault,
        >(e),
{
    if pos > input.len() || n > input.len() - pos {
        return Err(Fault::Incomplete);
    }
    proof {
        reveal_with_fuel(spec_le_uint, 5);
        lemma2_to64();
    }
    let b0: u32 = input[pos] as u32;
    let raw: u32 = if n == 1 {
        b0
    } else if n == 2 {
        b0 + 256 * (input[pos + 1] as u32)
    } else if n == 3 {
        b0 + 256 * (input[pos + 1] as u32 + 256 * (input[pos + 2] as u32))
    } else {
        b0 + 256 * (input[pos + 1] as u32 + 256 * (input[pos + 2] as u32 + 256 * (input[pos
            + 3] as u32)))
    };
    let v: i32 = sign_extend_word(raw, 8 * (n as u32));
    Ok((pos + n, v))
}

/// Whether bit `i` of `sel` is set.
pub open spec fn spec_bit(sel: u8, i: nat) -> bool {
    (sel as nat / pow2(i)) % 2 == 1
}

/// `Tag8_8SVB` of more than one field, from field `i` on: a zigzag varint
/// for each field whose selector bit is set, zero for the others.
pub open spec fn spec_tag8_8svb_from(sel: u8, n: nat, i: nat, s: Seq<u8>, pos: int) -> Result<
    (int, Seq<i64>),
    Fault,
>
    decreases n - i,
{
    if i >= n {
        Ok((pos, Seq::empty()))
    } else if spec_bit(sel, i) {
        match spec_take_varint(s, pos) {
            Err(e) => Err(e),
            Ok((next, v)) => spec_prepend(
                seq![spec_zigzag_decode(v) as i64],
                spec_tag8_8svb_from(sel, n, i + 1, s, next),
            ),
        }
    } else {
        spec_prepend(seq![0i64], spec_tag8_8svb_from(sel, n, i + 1, s, pos))
    }
}

/// `Tag8_8SVB` over `n` fields.
pub open spec fn spec_tag8_8svb(n: nat, s: Seq<u8>, pos: int) -> Result<(int, Seq<i64>), Fault> {
    if n == 1 {
        match spec_take_varint(s, pos) {
            Err(e) => Err(e),
            Ok((next, v)) => Ok((next, seq![spec_zigzag_decode(v) as i64])),
        }
    } else if pos < 0 || pos >= s.len() {
        Err(Fault::Incomplete)
    } else {
        spec_tag8_8svb_from(s[pos], n, 0, s, pos + 1)
    }
}

/// `Tag2_3S32`: the top two bits of the lead byte pick the layout of three
/// signed values.
pub open spec fn spec_tag2_3s32(s: Seq<u8>, pos: int) -> Result<(int, Seq<i64>), Fault> {
    if pos < 0 || pos >= s.len() {
        Err(Fault::Incomplete)
    } else {
        let lead = s[pos];
        if lead / 64 == 0 {
            Ok(
                (
                    pos + 1,
                    seq![
                        spec_sign_extend((lead / 16) as int, 2) as i64,
                        spec_sign_extend((lead / 4) as int, 2) as i64,
                        spec_sign_extend(lead as int, 2) as i64,
                    ],
                ),
            )
        } else if lead / 64 == 1 {
            if pos + 1 >= s.len() {
                Err(Fault::Incomplete)
            } else {
                Ok(
                    (
                        pos + 2,
                        seq![
                            spec_sign_extend(lead as int, 4) as i64,
                            spec_sign_extend((s[pos + 1] / 16) as int, 4) as i64,
                            spec_sign_extend(s[pos + 1] as int, 4) as i64,
                        ],
                    ),
                )
            }
        } else if lead / 64 == 2 {
            if pos + 3 >= s.len() {
                Err(Fault::Incomplete)
            } else {
                Ok(
                    (
                        pos + 4,
                        seq![
                            spec_sign_extend(s[pos + 1] as int, 6) as i64,
                            spec_sign_extend(s[pos + 2] as int, 6) as i64,
                            spec_sign_extend(s[pos + 3] as int, 6) as i64,
                        ],
                    ),
                )
            }
        } else {
            match spec_le_signed(s, pos + 1, (lead % 4 + 1) as nat) {
                Err(e) => Err(e),
                Ok((p1, v1)) => match spec_le_signed(s, p1, ((lead / 4) % 4 + 1) as nat) {
                    Err(e) => Err(e),
                    Ok((p2, v2)) => match spec_le_signed(s, p2, ((lead / 16) % 4 + 1) as nat) {
                        Err(e) => Err(e),
                        Ok((p3, v3)) => Ok((p3, seq![v1, v2, v3])),
                    },
                },
            }
        }
    }
}

/// The number of nibbles that a two-bit `Tag8_4S16` selector asks for.
pub open spec fn spec_nibble_count(selector: int) -> nat {
    if selector == 0 {
        0
    } else if selector == 1 {
        1
    } else if selector == 2 {
        2
    } else {
        4
    }
}

/// Nibble `k` of the bytes from `base` on, the high nibble of a byte first.
pub open spec fn spec_nibble(s: Seq<u8>, base: int, k: int) -> int {
    if k % 2 == 0 {
        s[base + k / 2] as int / 16
    } else {
        s[base + k / 2] as int % 16
    }
}

/// The number made of `count` nibbles from nibble `start` on, most
/// significant first.
pub open spec fn spec_nibbles(s: Seq<u8>, base: int, start: int, count: nat) -> int
    decreases count,
{
    if count == 0 {
        0
    } else {
        16 * spec_nibbles(s, base, start, (count - 1) as nat) + spec_nibble(
            s,
            base,
            start + count - 1,
        )
    }
}

/// One `Tag8_4S16` value: `count` nibbles from nibble `start`, sign-extended
/// from their own width; zero where there are none.
pub open spec fn spec_nibble_value(s: Seq<u8>, base: int, start: int, count: nat) -> i64 {
    if count == 0 {
        0
    } else {
        spec_sign_extend(spec_nibbles(s, base, start, count), 4 * count) as i64
    }
}

/// `Tag8_4S16`: four two-bit selectors, lowest bits first, then the nibbles
/// they ask for, packed into whole bytes.
pub open spec fn spec_tag8_4s16(s: Seq<u8>, pos: int) -> Result<(int, Seq<i64>), Fault> {
    if pos < 0 || pos >= s.len() {
        Err(Fault::Incomplete)
    } else {
        let lead = s[pos];
        let n0 = spec_nibble_count(lead as int % 4);
        let n1 = spec_nibble_count((lead as int / 4) % 4);
        let n2 = spec_nibble_count((lead as int / 16) % 4);
        let n3 = spec_nibble_count((lead as int / 64) % 4);
        let bytes = (n0 + n1 + n2 + n3 + 1) / 2;
        if pos + 1 + bytes > s.len() {
            Err(Fault::Incomplete)
        } else {
            Ok(
                (
                    pos + 1 + bytes,
                    seq![
                        spec_nibble_value(s, pos + 1, 0, n0),
                        spec_nibble_value(s, pos + 1, n0 as int, n1),
                        spec_nibble_value(s, pos + 1, (n0 + n1) as int, n2),
                        spec_nibble_value(s, pos + 1, (n0 + n1 + n2) as int, n3),
                    ],
                ),
            )
        }
    }
}

impl FieldEncoding {
    /// A tagged codec covers at least one field and no more than its tag
    /// byte has room for.
    pub open spec fn wf(self) -> bool {
        match self {
            FieldEncoding::Tag8_8SVB(n) => 1 <= n <= 8,
            FieldEncoding::Tag2_3S32(n) => 1 <= n <= 3,
            FieldEncoding::Tag8_4S16(n) => 1 <= n <= 4,
            FieldEncoding::Tag2_3SVariable(n) => 1 <= n <= 3,
            _ => true,
        }
    }

    /// How many values one application of the codec yields. (For the
    /// reserved codec, which yields none, it is the number of its fields.)
    pub open spec fn spec_width(self) -> nat {
        match self {
            FieldEncoding::Tag8_8SVB(n) => n as nat,
            FieldEncoding::Tag2_3S32(_) => 3,
            FieldEncoding::Tag8_4S16(_) => 4,
            FieldEncoding::Tag2_3SVariable(n) => n as nat,
            _ => 1,
        }
    }

    /// What the codec reads at `pos`: the position behind it and the values.
    pub open spec fn spec_parse(self, s: Seq<u8>, pos: int) -> Result<(int, Seq<i64>), Fault> {
        match self {
            FieldEncoding::Null => if 0 <= pos <= s.len() {
                Ok((pos, seq![0i64]))
            } else {
                Err(Fault::Incomplete)
            },
            FieldEncoding::UnsignedVB => match spec_take_varint(s, pos) {
                Err(e) => Err(e),
                Ok((next, v)) => Ok((next, seq![v as i64])),
            },
            FieldEncoding::SignedVB => match spec_take_varint(s, pos) {
                Err(e) => Err(e),
                Ok((next, v)) => Ok((next, seq![spec_zigzag_decode(v) as i64])),
            },
            FieldEncoding::Negative14BitVB => match spec_take_varint(s, pos) {
                Err(e) => Err(e),
                Ok((next, v)) => Ok((next, seq![(-spec_sign_extend(v as int, 14)) as i64])),
            },
            FieldEncoding::Tag8_8SVB(n) => spec_tag8_8svb(n as nat, s, pos),
            FieldEncoding::Tag2_3S32(_) => spec_tag2_3s32(s, pos),
            FieldEncoding::Tag8_4S16(_) => spec_tag8_4s16(s, pos),
            FieldEncoding::Tag2_3SVariable(_) => Err(Fault::Fatal),
        }
    }
}

/// Holds of an exec result and the spec result that it must be equal to.
pub open spec fn field_parsed(
    r: Result<(usize, Field), Fault>,
    expected: Result<(int, Seq<i64>), Fault>,
) -> bool {
    match r {
        Ok((next, field)) => expected == Ok::<(int, Seq<i64>), Fault>((next as int, field.values())),
        Err(e) => expected == Err::<(int, Seq<i64>), Fault>(e),
    }
}

fn parse_tag2_3s32(input: &[u8], pos: usize) -> (r: Result<(usize, Field), Fault>)
    ensures
        field_parsed(r, spec_tag2_3s32(input@, pos as int)),
        r matches Ok((next, f)) ==> f is SignedTriple && pos < next <= input@.len(),
{
    if pos >= input.len() {
        return Err(Fault::Incomplete);
    }
    let lead: u8 = input[pos];
    let mode: u8 = lead / 64;
    if mode == 0 {
        let values: [i32; 3] = [
            sign_extend((lead / 16) as i32, 2),
            sign_extend((lead / 4) as i32, 2),
            sign_extend(lead as i32, 2),
        ];
        let field = Field::SignedTriple(values);
        assert(field.values() =~= spec_tag2_3s32(input@, pos as int)->Ok_0.1);
        Ok((pos + 1, field))
    } else if mode == 1 {
        if input.len() - pos < 2 {
            return Err(Fault::Incomplete);
        }
        let second: u8 = input[pos + 1];
        let values: [i32; 3] = [
            sign_extend(lead as i32, 4),
            sign_extend((second / 16) as i32, 4),
            sign_extend(second as i32, 4),
        ];
        let field = Field::SignedTriple(values);
        assert(field.values() =~= spec_tag2_3s32(input@, pos as int)->Ok_0.1);
        Ok((pos + 2, field))
    } else if mode == 2 {
        if input.len() - pos < 4 {
            return Err(Fault::Incomplete);
        }
        let values: [i32; 3] = [
            sign_extend(input[pos + 1] as i32, 6),
            sign_extend(input[pos + 2] as i32, 6),
            sign_extend(input[pos + 3] as i32, 6),
        ];
        let field = Field::SignedTriple(values);
        assert(field.values() =~= spec_tag2_3s32(input@, pos as int)->Ok_0.1);
        Ok((pos + 4, field))
    } else {
        let (p1, v1) = match take_le_signed(input, pos + 1, (lead % 4 + 1) as usize) {
            Ok(x) => x,
            Err(e) => { return Err(e); },
        };
        let (p2, v2) = match take_le_signed(input, p1, ((lead / 4) % 4 + 1) as usize) {
            Ok(x) => x,
            Err(e) => { return Err(e); },
        };
        let (p3, v3) = match take_le_signed(input, p2, ((lead / 16) % 4 + 1) as usize) {
            Ok(x) => x,
            Err(e) => { return Err(e); },
        };
        let field = Field::SignedTriple([v1, v2, v3]);
        assert(field.values() =~= seq![v1 as i64, v2 as i64, v3 as i64]);
        Ok((p3, field))
    }
}

fn nibble_count(selector: u8) -> (r: usize)
    requires
        selector < 4,
    ensures
        r == spec_nibble_count(selector as int),
{
    if selector == 0 {
        0
    } else if selector == 1 {
        1
    } else if selector == 2 {
        2
    } else {
        4
    }
}

fn take_nibble_value(input: &[u8], base: usize, start: usize, count: usize) -> (r: i16)
    requires
        count == 0 || count == 1 || count == 2 || count == 4,
        start + count <= 16,
        base + (start + count + 1) / 2 <= input@.len(),
    ensures
        r == spec_nibble_value(input@, base as int, start as int, count as nat),
{
    if count == 0 {
        return 0;
    }
    let len: usize = input.len();
    let mut raw: u32 = 0;
    let mut i: usize = 0;
    while i < count
        invariant
            len == input@.len(),
            i <= count <= 4,
            start + count <= 16,
            base + (start + count + 1) / 2 <= input@.len(),
            raw == spec_nibbles(input@, base as int, start as int, i as nat),
            i == 0 ==> raw == 0,
            i == 1 ==> raw < 0x10,
            i == 2 ==> raw < 0x100,
            i == 3 ==> raw < 0x1000,
            i == 4 ==> raw < 0x1_0000,
        decreases count - i,
    {
        let k: usize = start + i;
        assert(k / 2 < (start + count + 1) / 2);
        let byte: u8 = input[base + k / 2];
        let nibble: u8 = if k % 2 == 0 {
            byte / 16
        } else {
            byte % 16
        };
        raw = 16 * raw + nibble as u32;
        i = i + 1;
    }
    proof {
        lemma2_to64();
    }
    let v: i32 = sign_extend(raw as i32, 4 * (count as u32));
    v as i16
}

fn parse_tag8_4s16(input: &[u8], pos: usize) -> (r: Result<(usize, Field), Fault>)
    ensures
        field_parsed(r, spec_tag8_4s16(input@, pos as int)),
        r matches Ok((next, f)) ==> f is SignedQuadruple && pos < next <= input@.len(),
{
    if pos >= input.len() {
        return Err(Fault::Incomplete);
    }
    let lead: u8 = input[pos];
    let n0: usize = nibble_count(lead % 4);
    let n1: usize = nibble_count((lead / 4) % 4);
    let n2: usize = nibble_count((lead / 16) % 4);
    let n3: usize = nibble_count((lead / 64) % 4);
    let bytes: usize = (n0 + n1 + n2 + n3 + 1) / 2;
    if input.len() - pos - 1 < bytes {
        return Err(Fault::Incomplete);
    }
    let base: usize = pos + 1;
    let values: [i16; 4] = [
        take_nibble_value(input, base, 0, n0),
        take_nibble_value(input, base, n0, n1),
        take_nibble_value(input, base, n0 + n1, n2),
        take_nibble_value(input, base, n0 + n1 + n2, n3),
    ];
    let field = Field::SignedQuadruple(values);
    assert(field.values() =~= spec_tag8_4s16(input@, pos as int)->Ok_0.1);
    Ok((base + bytes, field))
}

fn parse_tag8_8svb(fields_n: usize, input: &[u8], pos: usize) -> (r: Result<
    (usize, Field),
    Fault,
>)
    requires
        1 <= fields_n <= 8,
    ensures
        field_parsed(r, spec_tag8_8svb(fields_n as nat, input@, pos as int)),
        r matches Ok((next, f)) ==> f matches Field::SignedOctuple(a, n) && n == fields_n && pos
            < next <= input@.len() && forall|i: int| fields_n <= i < 8 ==> a@[i] == 0,
{
    let mut values: [i32; 8] = [0i32; 8];
    if fields_n == 1 {
        match take_varint(input, pos) {
            Err(e) => Err(e),
            Ok((next, v)) => {
                values[0] = zigzag_decode(v);
                let field = Field::SignedOctuple(values, fields_n);
                assert(field.values() =~= seq![spec_zigzag_decode(v) as i64]);
                Ok((next, field))
            },
        }
    } else {
        if pos >= input.len() {
            return Err(Fault::Incomplete);
        }
        let selectors: u8 = input[pos];
        let mut cur: usize = pos + 1;
        let mut i: usize = 0;
        let ghost whole = spec_tag8_8svb_from(selectors, fields_n as nat, 0, input@, pos + 1);
        while i < fields_n
            invariant
                1 < fields_n <= 8,
                i <= fields_n,
                forall|j: int| i <= j < 8 ==> values@[j] == 0,
                pos < cur <= input@.len(),
                selectors == input@[pos as int],
                whole == spec_tag8_8svb(fields_n as nat, input@, pos as int),
                whole == spec_prepend(
                    Seq::new(i as nat, |j: int| values@[j] as i64),
                    spec_tag8_8svb_from(selectors, fields_n as nat, i as nat, input@, cur as int),
                ),
            decreases fields_n - i,
        {
            let ghost done = Seq::new(i as nat, |j: int| values@[j] as i64);
            let ghost here = spec_tag8_8svb_from(
                selectors,
                fields_n as nat,
                i as nat,
                input@,
                cur as int,
            );
            proof {
                vstd::bits::lemma_u8_shr_is_div(selectors, i as u8);
                let shifted: u8 = selectors >> (i as u8);
                assert(shifted & 1 == shifted % 2) by (bit_vector);
            }
            if (selectors >> (i as u8)) & 1 == 1 {
                match take_varint(input, cur) {
                    Err(e) => {
                        return Err(e);
                    },
                    Ok((next, v)) => {
                        values[i] = zigzag_decode(v);
                        proof {
                            lemma_prepend_twice(
                                done,
                                seq![spec_zigzag_decode(v) as i64],
                                spec_tag8_8svb_from(
                                    selectors,
                                    fields_n as nat,
                                    (i + 1) as nat,
                                    input@,
                                    next as int,
                                ),
                            );
                            assert(done + seq![spec_zigzag_decode(v) as i64] =~= Seq::new(
                                (i + 1) as nat,
                                |j: int| values@[j] as i64,
                            ));
                        }
                        cur = next;
                    },
                }
            } else {
                values[i] = 0;
                proof {
                    lemma_prepend_twice(
                        done,
                        seq![0i64],
                        spec_tag8_8svb_from(
                            selectors,
                            fields_n as nat,
                            (i + 1) as nat,
                            input@,
                            cur as int,
                        ),
                    );
                    assert(done + seq![0i64] =~= Seq::new(
                        (i + 1) as nat,
                        |j: int| values@[j] as i64,
                    ));
                }
            }
            i = i + 1;
        }
        let field = Field::SignedOctuple(values, fields_n);
        assert(field.values() + Seq::<i64>::empty() =~= field.values());
        Ok((cur, field))
    }
}

impl FieldEncoding {
    /// The form in which the codec hands its values out: one unsigned or
    /// signed number, or three, four or up to eight signed ones. Of eight
    /// slots, those beyond the codec's fields hold zero.
    pub open spec fn spec_yields(self, field: Field) -> bool {
        match self {
            FieldEncoding::Null => field is Unsigned,
            FieldEncoding::UnsignedVB => field is Unsigned,
            FieldEncoding::SignedVB => field is Signed,
            FieldEncoding::Negative14BitVB => field is Signed,
            FieldEncoding::Tag2_3S32(_) => field is SignedTriple,
            FieldEncoding::Tag8_4S16(_) => field is SignedQuadruple,
            FieldEncoding::Tag8_8SVB(n) => field matches Field::SignedOctuple(a, m) && m == n
                && forall|i: int| n <= i < 8 ==> a@[i] == 0,
            FieldEncoding::Tag2_3SVariable(_) => false,
        }
    }

    /// Decodes one application of the codec at `pos`.
    pub fn parse(&self, input: &[u8], pos: usize) -> (r: Result<(usize, Field), Fault>)
        requires
            self.wf(),
        ensures
            field_parsed(r, self.spec_parse(input@, pos as int)),
            r matches Ok((next, field)) ==> pos <= next <= input@.len() && field.values().len()
                == self.spec_width() && self.spec_yields(field),
    {
        match self {
            FieldEncoding::Null => {
                if pos > input.len() {
                    return Err(Fault::Incomplete);
                }
                Ok((pos, Field::Unsigned(0)))
            },
            FieldEncoding::UnsignedVB => match take_varint(input, pos) {
                Err(e) => Err(e),
                Ok((next, v)) => Ok((next, Field::Unsigned(v))),
            },
            FieldEncoding::SignedVB => match take_varint(input, pos) {
                Err(e) => Err(e),
                Ok((next, v)) => Ok((next, Field::Signed(zigzag_decode(v)))),
            },
            FieldEncoding::Negative14BitVB => match take_varint(input, pos) {
                Err(e) => Err(e),
                Ok((next, v)) => {
                    proof {
                        lemma2_to64();
                    }
                    let low: u16 = (v % 0x4000) as u16;
                    Ok((next, Field::Signed(-sign_extend_14bit(low))))
                },
            },
            FieldEncoding::Tag2_3S32(_) => parse_tag2_3s32(input, pos),
            FieldEncoding::Tag8_4S16(_) => parse_tag8_4s16(input, pos),
            FieldEncoding::Tag8_8SVB(fields_n) => parse_tag8_8svb(*fields_n, input, pos),
            FieldEncoding::Tag2_3SVariable(_) => Err(Fault::Fatal),
        }
    }
}

/// One record of the log body.
#[derive(Debug)]
pub enum BodyFrame {
    Event(event::Frame),
    IFrame(data::OwnedIFrame),
    PFrame(data::OwnedPFrame),
    SFrame(data::OwnedSFrame),
    GFrame(data::OwnedGFrame),
    HFrame(data::OwnedHFrame),
}

/// A body frame as a plain value.
pub enum FrameModel {
    Event(event::Frame),
    Intra(Seq<i64>),
    Predicted(Seq<i64>),
    Slow(Seq<i64>),
    Gnss(Seq<i64>),
    Home(Seq<i64>),
}

impl View for BodyFrame {
    type V = FrameModel;

    open spec fn view(&self) -> FrameModel {
        match *self {
            BodyFrame::Event(ev) => FrameModel::Event(ev),
            BodyFrame::IFrame(f) => FrameModel::Intra(f.buf@),
            BodyFrame::PFrame(f) => FrameModel::Predicted(f.buf@),
            BodyFrame::SFrame(f) => FrameModel::Slow(f.buf@),
            BodyFrame::GFrame(f) => FrameModel::Gnss(f.buf@),
            BodyFrame::HFrame(f) => FrameModel::Home(f.buf@),
        }
    }
}

/// Reads an event frame as a body frame.
pub fn parse_body_frame(input: &[u8], pos: usize) -> (r: Result<(usize, BodyFrame), Fault>)
    ensures
        r matches Ok((next, frame)) ==> frame matches BodyFrame::Event(ev) && event::spec_parse_event(
            input@,
            pos as int,
        ) == Ok::<(int, event::Frame), Fault>((next as int, ev)) && pos < next <= input@.len(),
        r matches Err(e) ==> event::spec_parse_event(input@, pos as int) == Err::<
            (int, event::Frame),
            Fault,
        >(e),
{
    match event::parse_event(input, pos) {
        Err(e) => Err(e),
        Ok((next, ev)) => Ok((next, BodyFrame::Event(ev))),
    }
}

/// A varint that decodes is not empty and ends in the input.
pub proof fn lemma_varint_extent(s: Seq<u8>, pos: int, i: nat)
    requires
        0 <= pos,
    ensures
        spec_varint_from(s, pos, i) matches Ok((next, _)) ==> pos + i < next <= s.len(),
    decreases 5 - i,
{
    if i < 5 && pos + i < s.len() && s[pos + i] >= 128 {
        lemma_varint_extent(s, pos, i + 1);
    }
}

proof fn lemma_tag8_8svb_extent(sel: u8, n: nat, i: nat, s: Seq<u8>, pos: int)
    requires
        0 <= pos <= s.len(),
    ensures
        spec_tag8_8svb_from(sel, n, i, s, pos) matches Ok((next, _)) ==> pos <= next <= s.len(),
    decreases n - i,
{
    if i < n {
        if spec_bit(sel, i) {
            lemma_varint_extent(s, pos, 0);
            if let Ok((next, _)) = spec_take_varint(s, pos) {
                lemma_tag8_8svb_extent(sel, n, i + 1, s, next);
            }
        } else {
            lemma_tag8_8svb_extent(sel, n, i + 1, s, pos);
        }
    }
}

/// What a codec reads ends in the input, and not before its start.
pub proof fn lemma_field_extent(encoding: FieldEncoding, s: Seq<u8>, pos: int)
    requires
        0 <= pos <= s.len(),
    ensures
        encoding.spec_parse(s, pos) matches Ok((next, _)) ==> pos <= next <= s.len(),
{
    lemma_varint_extent(s, pos, 0);
    match encoding {
        FieldEncoding::Tag8_8SVB(n) => {
            if n != 1 && pos < s.len() {
                lemma_tag8_8svb_extent(s[pos], n as nat, 0, s, pos + 1);
            }
        },
        _ => {},
    }
}

proof fn lemma_tag8_8svb_width(sel: u8, n: nat, i: nat, s: Seq<u8>, pos: int)
    requires
        i <= n,
    ensures
        spec_tag8_8svb_from(sel, n, i, s, pos) matches Ok((_, values)) ==> values.len() == n - i,
    decreases n - i,
{
    if i < n {
        if spec_bit(sel, i) {
            if let Ok((next, _)) = spec_take_varint(s, pos) {
                lemma_tag8_8svb_width(sel, n, i + 1, s, next);
            }
        } else {
            lemma_tag8_8svb_width(sel, n, i + 1, s, pos);
        }
    }
}

/// A well-formed codec that decodes yields as many values as its width
/// says.
pub proof fn lemma_field_width(encoding: FieldEncoding, s: Seq<u8>, pos: int)
    requires
        encoding.wf(),
    ensures
        encoding.spec_parse(s, pos) matches Ok((_, values)) ==> values.len()
            == encoding.spec_width(),
{
    match encoding {
        FieldEncoding::Tag8_8SVB(n) => {
            if n != 1 && 0 <= pos < s.len() {
                lemma_tag8_8svb_width(s[pos], n as nat, 0, s, pos + 1);
            }
        },
        _ => {},
    }
}

/// How the parse of an item on an input that is cut off at `cut` goes with
/// its parse on the whole input, where that decodes: an item that ends
/// before the cut decodes as before and ends where it did, and one that
/// goes beyond the cut is incomplete.
pub open spec fn spec_cut<T>(whole: Result<(int, T), Fault>, part: Result<(int, T), Fault>, cut: int) -> bool {
    match whole {
        Ok((next, _)) => if next <= cut {
            match part {
                Ok((end, _)) => end == next,
                Err(_) => false,
            }
        } else {
            part == Err::<(int, T), Fault>(Fault::Incomplete)
        },
        Err(_) => true,
    }
}

/// A varint on an input that is cut off.
pub proof fn lemma_varint_cut(t: Seq<u8>, cut: int, pos: int, i: nat)
    requires
        0 <= pos,
        0 <= cut <= t.len(),
    ensures
        spec_cut(spec_varint_from(t, pos, i), spec_varint_from(t.take(cut), pos, i), cut),
    decreases 5 - i,
{
    if i < 5 && pos + i < t.len() && t[pos + i] >= 128 {
        lemma_varint_cut(t, cut, pos, i + 1);
        lemma_varint_extent(t, pos, i + 1);
    }
}

proof fn lemma_tag8_8svb_cut(sel: u8, n: nat, i: nat, t: Seq<u8>, cut: int, pos: int)
    requires
        0 <= pos <= cut <= t.len(),
    ensures
        spec_cut(
            spec_tag8_8svb_from(sel, n, i, t, pos),
            spec_tag8_8svb_from(sel, n, i, t.take(cut), pos),
            cut,
        ),
    decreases n - i,
{
    if i < n {
        if spec_bit(sel, i) {
            lemma_varint_cut(t, cut, pos, 0);
            lemma_varint_extent(t, pos, 0);
            if let Ok((next, _)) = spec_take_varint(t, pos) {
                lemma_tag8_8svb_extent(sel, n, i + 1, t, next);
                if next <= cut {
                    lemma_tag8_8svb_cut(sel, n, i + 1, t, cut, next);
                }
            }
        } else {
            lemma_tag8_8svb_cut(sel, n, i + 1, t, cut, pos);
        }
    }
}

proof fn lemma_tag2_3s32_cut(t: Seq<u8>, cut: int, pos: int)
    requires
        0 <= pos <= cut <= t.len(),
    ensures
        spec_cut(spec_tag2_3s32(t, pos), spec_tag2_3s32(t.take(cut), pos), cut),
{
    let s = t.take(cut);
    if pos < cut {
        assert(s[pos] == t[pos]);
        if pos + 1 < cut {
            assert(s[pos + 1] == t[pos + 1]);
        }
    }
}

proof fn lemma_tag8_4s16_cut(t: Seq<u8>, cut: int, pos: int)
    requires
        0 <= pos <= cut <= t.len(),
    ensures
        spec_cut(spec_tag8_4s16(t, pos), spec_tag8_4s16(t.take(cut), pos), cut),
{
    let s = t.take(cut);
    if pos < cut {
        assert(s[pos] == t[pos]);
    }
}

proof fn lemma_tag8_8svb_whole_cut(n: nat, t: Seq<u8>, cut: int, pos: int)
    requires
        0 <= pos <= cut <= t.len(),
    ensures
        spec_cut(spec_tag8_8svb(n, t, pos), spec_tag8_8svb(n, t.take(cut), pos), cut),
{
    lemma_varint_cut(t, cut, pos, 0);
    if n != 1 && pos < t.len() {
        lemma_tag8_8svb_extent(t[pos], n, 0, t, pos + 1);
        if pos < cut {
            lemma_tag8_8svb_cut(t[pos], n, 0, t, cut, pos + 1);
        }
    }
}

/// A codec on an input that is cut off.
pub proof fn lemma_field_cut(encoding: FieldEncoding, t: Seq<u8>, cut: int, pos: int)
    requires
        0 <= pos <= cut <= t.len(),
    ensures
        spec_cut(encoding.spec_parse(t, pos), encoding.spec_parse(t.take(cut), pos), cut),
{
    match encoding {
        FieldEncoding::Tag8_8SVB(n) => {
            lemma_tag8_8svb_whole_cut(n as nat, t, cut, pos);
        },
        FieldEncoding::Tag2_3S32(_) => {
            lemma_tag2_3s32_cut(t, cut, pos);
        },
        FieldEncoding::Tag8_4S16(_) => {
            lemma_tag8_4s16_cut(t, cut, pos);
        },
        FieldEncoding::Null => {},
        FieldEncoding::Tag2_3SVariable(_) => {},
        _ => {
            lemma_varint_cut(t, cut, pos, 0);
        },
    }
}

} // verus!
