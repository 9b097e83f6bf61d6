use vstd::prelude::*;

verus! {

const MSB: u8 = 0b1000_0000;

const DROP_MSB: u8 = 0b0111_1111;

/// `128` raised to the power `i`: the weight of the `i`-th seven-bit group.
pub open spec fn pow128(i: nat) -> nat
    decreases i,
{
    if i == 0 {
        1
    } else {
        pow128((i - 1) as nat) * 128
    }
}

/// The variable-length encoding of `n`: its seven-bit groups, least significant
/// first, every byte but the last with its high bit set.
pub open spec fn varint_bytes(n: nat) -> Seq<u8>
    decreases n,
{
    if n < 128 {
        seq![n as u8]
    } else {
        seq![(128 + n % 128) as u8] + varint_bytes(n / 128)
    }
}

/// The number that the low seven bits of the bytes of `s` spell, least
/// significant group first, continuation bits ignored.
pub open spec fn varint_value(s: Seq<u8>) -> nat
    decreases s.len(),
{
    if s.len() == 0 {
        0
    } else {
        varint_value(s.drop_last()) + (s.last() % 128) as nat * pow128((s.len() - 1) as nat)
    }
}

/// The index of the first byte of `s` whose high bit is clear, or the length of
/// `s` when every byte has it set.
pub open spec fn varint_end(s: Seq<u8>) -> nat
    decreases s.len(),
{
    if s.len() == 0 {
        0
    } else if s[0] < 128 {
        0
    } else {
        1 + varint_end(s.drop_first())
    }
}

/// Zigzag image of a signed value: non-negative values go to the even numbers,
/// negative values to the odd ones.
pub open spec fn zigzag_encode_spec(x: int) -> int {
    if x >= 0 {
        2 * x
    } else {
        -2 * x - 1
    }
}

/// Inverse of `zigzag_encode_spec` on the naturals.
pub open spec fn zigzag_decode_spec(n: int) -> int {
    if n % 2 == 0 {
        n / 2
    } else {
        -(n / 2) - 1
    }
}

/// The bits of `zigzag_decode_spec(n)` read back as an unsigned 64-bit value.
pub open spec fn zigzag_decode_bits(n: nat) -> nat {
    if n % 2 == 0 {
        n / 2
    } else {
        (0xffff_ffff_ffff_ffff - n / 2) as nat
    }
}

pub open spec fn two_pow_64() -> nat {
    0x1_0000_0000_0000_0000
}

/// The number of leading bytes that a decoding loop with at most `cap` steps reads.
pub open spec fn varint_read_count(s: Seq<u8>, cap: nat) -> nat {
    let k = if varint_end(s) < s.len() { varint_end(s) + 1 } else { s.len() };
    if k < cap {
        k
    } else {
        cap
    }
}

pub proof fn lemma_pow128_10()
    ensures
        pow128(10) == 0x400000_0000_0000_0000,
        pow128(11) == 0x2000_0000_0000_0000_0000,
{
    reveal_with_fuel(pow128, 12);
}

pub proof fn lemma_pow128_mono(i: nat, j: nat)
    requires
        i <= j,
    ensures
        1 <= pow128(i) <= pow128(j),
    decreases j,
{
    if j > 0 {
        if i == j {
            lemma_pow128_mono(0, (j - 1) as nat);
        } else {
            lemma_pow128_mono(i, (j - 1) as nat);
        }
    }
}

pub proof fn lemma_varint_value_bound(s: Seq<u8>)
    ensures
        varint_value(s) < pow128(s.len()),
    decreases s.len(),
{
    if s.len() > 0 {
        lemma_varint_value_bound(s.drop_last());
        let p = pow128((s.len() - 1) as nat);
        let d = (s.last() % 128) as nat;
        assert(d * p <= 127 * p) by (nonlinear_arith)
            requires
                d <= 127,
        ;
    }
}

pub proof fn lemma_varint_value_take(s: Seq<u8>, i: int)
    requires
        0 <= i < s.len(),
    ensures
        varint_value(s.take(i + 1)) == varint_value(s.take(i)) + (s[i] % 128) as nat * pow128(
            i as nat,
        ),
{
    assert(s.take(i + 1).drop_last() =~= s.take(i));
}

/// Characterizes `varint_end` by the bytes before and at the index.
pub proof fn lemma_varint_end(s: Seq<u8>, i: int)
    requires
        0 <= i <= s.len(),
        forall|j: int| 0 <= j < i ==> s[j] >= 128,
        i < s.len() ==> s[i] < 128,
    ensures
        varint_end(s) == i,
    decreases s.len(),
{
    if s.len() > 0 && i > 0 {
        lemma_varint_end(s.drop_first(), i - 1);
    }
}

pub proof fn lemma_varint_end_ge(s: Seq<u8>, i: int)
    requires
        0 <= i <= s.len(),
        forall|j: int| 0 <= j < i ==> s[j] >= 128,
    ensures
        varint_end(s) >= i,
        varint_end(s) <= s.len(),
    decreases s.len(),
{
    if s.len() > 0 && s[0] >= 128 {
        lemma_varint_end_ge(s.drop_first(), if i > 0 { i - 1 } else { 0 });
    }
}

pub proof fn lemma_varint_bytes_len(n: nat, k: nat)
    requires
        n < pow128(k),
        k >= 1,
    ensures
        1 <= varint_bytes(n).len() <= k,
    decreases n,
{
    if n >= 128 {
        reveal_with_fuel(pow128, 2);
        assert(n / 128 < pow128((k - 1) as nat)) by (nonlinear_arith)
            requires
                n < pow128((k - 1) as nat) * 128,
        ;
        if k == 1 {
            assert(false);
        }
        lemma_varint_bytes_len(n / 128, (k - 1) as nat);
    }
}

pub proof fn lemma_varint_value_cons(b: u8, s: Seq<u8>)
    ensures
        varint_value(seq![b] + s) == (b % 128) as nat + 128 * varint_value(s),
    decreases s.len(),
{
    let t = seq![b] + s;
    if s.len() == 0 {
        assert(t.drop_last() =~= Seq::<u8>::empty());
        assert(pow128(0) == 1);
        assert(t.last() == b);
        assert(varint_value(Seq::<u8>::empty()) == 0);
        assert(varint_value(t) == varint_value(t.drop_last()) + (b % 128) as nat * 1);
    } else {
        assert(t.drop_last() =~= seq![b] + s.drop_last());
        assert(t.last() == s.last());
        assert(t.len() - 1 == s.len());
        lemma_varint_value_cons(b, s.drop_last());
        let p = pow128((s.len() - 1) as nat);
        let d = (s.last() % 128) as nat;
        assert(pow128(s.len()) == p * 128);
        assert(d * (p * 128) == 128 * (d * p)) by (nonlinear_arith);
        assert(varint_value(t) == varint_value(t.drop_last()) + d * pow128(s.len()));
        assert(128 * varint_value(s) == 128 * varint_value(s.drop_last()) + 128 * (d * p))
            by (nonlinear_arith)
            requires
                varint_value(s) == varint_value(s.drop_last()) + d * p,
        ;
    }
}

/// Decoding the encoding of `n` gives `n` back, and the encoding ends exactly
/// at its one byte whose high bit is clear.
pub proof fn law_varint_roundtrip(n: nat)
    ensures
        varint_value(varint_bytes(n)) == n,
        varint_end(varint_bytes(n)) + 1 == varint_bytes(n).len(),
    decreases n,
{
    if n < 128 {
        assert(varint_bytes(n) =~= seq![n as u8] + Seq::<u8>::empty());
        lemma_varint_value_cons(n as u8, Seq::<u8>::empty());
    } else {
        law_varint_roundtrip(n / 128);
        let b = (128 + n % 128) as u8;
        lemma_varint_value_cons(b, varint_bytes(n / 128));
        assert((seq![b] + varint_bytes(n / 128)).drop_first() =~= varint_bytes(n / 128));
    }
}

/// Undoing the zigzag mapping restores every integer.
pub proof fn law_zigzag_roundtrip(x: int)
    ensures
        zigzag_encode_spec(x) >= 0,
        zigzag_decode_spec(zigzag_encode_spec(x)) == x,
{
}

/// The zigzag mapping is onto the naturals: mapping a decoded natural again
/// restores it.
pub proof fn law_zigzag_onto(n: nat)
    ensures
        zigzag_encode_spec(zigzag_decode_spec(n as int)) == n,
{
}

/// Reading back the encoding of a zigzag-mapped 64-bit value gives the value
/// itself (as its unsigned bits) and the length of the encoding; the read stays
/// within the ten bytes the 64-bit decoder allows.
pub proof fn law_read_varint_of_encoding(x: i64)
    ensures
        ({
            let bytes = varint_bytes(zigzag_encode_spec(x as int) as nat);
            &&& bytes.len() <= 10
            &&& varint_end(bytes) + 1 == bytes.len()
            &&& varint_read_count(bytes, bytes.len()) == bytes.len()
            &&& decoded_bits(bytes, bytes.len()) == (if x >= 0 {
                x as int
            } else {
                two_pow_64() + x
            })
        }),
{
    let z = zigzag_encode_spec(x as int) as nat;
    let bytes = varint_bytes(z);
    lemma_pow128_10();
    lemma_varint_bytes_len(z, 10);
    law_varint_roundtrip(z);
    assert(bytes.take(bytes.len() as int) =~= bytes);
}

/// What `varint_end` points at: every byte before it has its high bit set,
/// and the byte at it, if any, has it clear.
pub proof fn lemma_varint_end_props(s: Seq<u8>)
    ensures
        varint_end(s) <= s.len(),
        forall|j: int| 0 <= j < varint_end(s) ==> s[j] >= 128,
        varint_end(s) < s.len() ==> s[varint_end(s) as int] < 128,
    decreases s.len(),
{
    if s.len() > 0 && s[0] >= 128 {
        lemma_varint_end_props(s.drop_first());
        assert forall|j: int| 0 <= j < varint_end(s) implies s[j] >= 128 by {
            if j > 0 {
                assert(s[j] == s.drop_first()[j - 1]);
            }
        }
    }
}

/// Bytes after a complete encoding do not move where it ends.
pub proof fn lemma_varint_end_prefix(a: Seq<u8>, rest: Seq<u8>)
    requires
        varint_end(a) < a.len(),
    ensures
        varint_end(a + rest) == varint_end(a),
{
    lemma_varint_end_props(a);
    let s = a + rest;
    let i = varint_end(a) as int;
    assert forall|j: int| 0 <= j < i implies s[j] >= 128 by {
        assert(s[j] == a[j]);
    }
    assert(s[i] == a[i]);
    lemma_varint_end(s, i);
}

/// Reading back, with `read_varint` and `get_varint_size`, what
/// `encode_as_varint` writes of a zigzag-mapped `isize` gives the value itself
/// (as unsigned word bits) and the length of the encoding, wherever other
/// bytes follow; the read keeps its shifts within the machine word. The
/// `isize` zigzag mapping shifts by 63 bits, so it needs a 64-bit word.
pub proof fn law_read_varint_signed(x: isize, rest: Seq<u8>)
    requires
        x.zigzag_defined(),
        varint_bytes(zigzag_encode_spec(x as int) as nat).len() + rest.len() < usize::MAX,
    ensures
        ({
            let e = varint_bytes(zigzag_encode_spec(x as int) as nat);
            let s = e + rest;
            &&& varint_end(s) + 1 == e.len()
            &&& varint_read_count(s, s.len()) == e.len()
            &&& word_shifts_fit(e.len())
            &&& decoded_word(s, e.len()) == (if x >= 0 {
                x as int
            } else {
                word_modulus() + x
            })
        }),
{
    let e = varint_bytes(zigzag_encode_spec(x as int) as nat);
    let s = e + rest;
    law_read_varint_of_encoding(x as i64);
    lemma_varint_end_prefix(e, rest);
    assert(s.take(e.len() as int) =~= e.take(e.len() as int));
    assert(word_modulus() == two_pow_64());
}

/// Signed-to-unsigned zigzag mapping.
pub trait ZigZagIntoUnsigned<R>: Sized + Copy {
    /// Whether the mapping is defined for `self` on this machine.
    spec fn zigzag_defined(self) -> bool;

    fn zigzag(self) -> R
        requires
            self.zigzag_defined(),
    ;
}

/// Unsigned-to-signed zigzag mapping.
pub trait ZigZagIntoSigned<R>: Sized + Copy {
    fn zigzag(self) -> R;
}

impl ZigZagIntoUnsigned<usize> for isize {
    /// The mapping shifts by 63 bits, so it needs a 64-bit `isize`.
    open spec fn zigzag_defined(self) -> bool {
        usize::BITS == 64
    }

    fn zigzag(self) -> (r: usize)
        ensures
            r == zigzag_encode_spec(self as int),
    {
        let x = self;
        assert(usize::BITS == 64 && x >= 0 ==> #[verifier::truncate] (((x << 1) ^ (x >> 63))
            as usize) == 2 * x) by (bit_vector);
        assert(usize::BITS == 64 && x < 0 ==> #[verifier::truncate] (((x << 1) ^ (x >> 63))
            as usize) == -2 * x - 1) by (bit_vector);
        #[verifier::truncate] (((x << 1) ^ (x >> 63)) as usize)
    }
}

impl ZigZagIntoUnsigned<u64> for i64 {
    open spec fn zigzag_defined(self) -> bool {
        true
    }

    fn zigzag(self) -> (r: u64)
        ensures
            r == zigzag_encode_spec(self as int),
    {
        let x = self;
        assert(x >= 0 ==> #[verifier::truncate] (((x << 1) ^ (x >> 63)) as u64) == 2 * x)
            by (bit_vector);
        assert(x < 0 ==> #[verifier::truncate] (((x << 1) ^ (x >> 63)) as u64) == -2 * x - 1)
            by (bit_vector);
        #[verifier::truncate] (((x << 1) ^ (x >> 63)) as u64)
    }
}

impl ZigZagIntoSigned<isize> for usize {
    fn zigzag(self) -> (r: isize)
        ensures
            r == zigzag_decode_spec(self as int),
    {
        let n = self;
        assert(n & 1 <= 1) by (bit_vector);
        assert(n % 2 == 0 ==> #[verifier::truncate] (((n >> 1) ^ (#[verifier::truncate] ((-((n
            & 1) as isize)) as usize))) as isize) == n / 2) by (bit_vector);
        assert(n % 2 == 1 ==> #[verifier::truncate] (((n >> 1) ^ (#[verifier::truncate] ((-((n
            & 1) as isize)) as usize))) as isize) == -((n / 2) as int) - 1) by (bit_vector);
        #[verifier::truncate] (((n >> 1) ^ (#[verifier::truncate] ((-((n & 1) as isize)) as usize)))
            as isize)
    }
}

impl ZigZagIntoSigned<i64> for u64 {
    fn zigzag(self) -> (r: i64)
        ensures
            r == zigzag_decode_spec(self as int),
    {
        let n = self;
        assert(n & 1 <= 1) by (bit_vector);
        assert(n % 2 == 0 ==> #[verifier::truncate] (((n >> 1) ^ (#[verifier::truncate] ((-((n
            & 1) as i64)) as u64))) as i64) == n / 2) by (bit_vector);
        assert(n % 2 == 1 ==> #[verifier::truncate] (((n >> 1) ^ (#[verifier::truncate] ((-((n
            & 1) as i64)) as u64))) as i64) == -((n / 2) as int) - 1) by (bit_vector);
        #[verifier::truncate] (((n >> 1) ^ (#[verifier::truncate] ((-((n & 1) as i64)) as u64)))
            as i64)
    }
}

/// Variable-length encoding of unsigned values.
pub trait VarIntEncoder {
    fn varint_size(self) -> usize;

    fn encode_as_varint(self) -> Vec<u8>;
}

/// Variable-length decoding of the front of a byte slice.
pub trait VarIntDecoder {
    /// Whether reading `length` bytes with `read_varint_with_size` stays within
    /// the slice and the 64-bit accumulator.
    spec fn sized_read_defined(&self, length: usize) -> bool;

    /// Whether `read_varint` stays within the machine word: no group is
    /// shifted by the word's width or more.
    spec fn read_defined(&self) -> bool;

    /// The length of the slice.
    spec fn slice_len(&self) -> nat;

    fn get_varint_size(&self) -> Result<usize, ()>
        requires
            self.slice_len() < usize::MAX,
    ;

    fn read_varint_with_size(&self, length: usize) -> Result<u64, ()>
        requires
            self.sized_read_defined(length),
    ;

    fn read_varint(&self) -> Result<(usize, usize), ()>
        requires
            self.read_defined(),
    ;
}

pub proof fn lemma_varint_step(n: u64)
    requires
        n >= 0x80,
    ensures
        (0x80u8 | (#[verifier::truncate] (n as u8))) == 128 + n % 128,
        n >> 7 == n / 128,
{
    assert(n >= 0x80 ==> (0x80u8 | (#[verifier::truncate] (n as u8))) == 128 + n % 128)
        by (bit_vector);
    assert(n >> 7 == n / 128) by (bit_vector);
}

pub proof fn lemma_u64_varint_len(n: u64)
    ensures
        1 <= varint_bytes(n as nat).len() <= 10,
{
    lemma_pow128_10();
    lemma_varint_bytes_len(n as nat, 10);
}

fn encode_u64(value: u64) -> (dst: Vec<u8>)
    ensures
        dst@ == varint_bytes(value as nat),
{
    let mut dst: Vec<u8> = Vec::new();
    let mut n = value;
    while n >= 0x80
        invariant
            dst@ + varint_bytes(n as nat) == varint_bytes(value as nat),
        decreases n,
    {
        proof {
            lemma_varint_step(n);
        }
        let byte = MSB | (#[verifier::truncate] (n as u8));
        let ghost before = dst@;
        dst.push(byte);
        assert(varint_bytes(n as nat) == seq![byte] + varint_bytes((n / 128) as nat));
        assert(dst@ + varint_bytes((n / 128) as nat) =~= before + varint_bytes(n as nat));
        n = n >> 7;
    }
    let ghost before = dst@;
    dst.push(n as u8);
    assert(dst@ =~= before + varint_bytes(n as nat));
    dst
}

fn varint_size_u64(value: u64) -> (size: usize)
    ensures
        size == varint_bytes(value as nat).len(),
{
    if value == 0 {
        return 1;
    }
    proof {
        lemma_u64_varint_len(value);
    }
    let mut n = value;
    let mut size: usize = 0;
    while n > 0
        invariant
            n > 0 ==> size + varint_bytes(n as nat).len() == varint_bytes(value as nat).len(),
            n == 0 ==> size == varint_bytes(value as nat).len(),
            varint_bytes(value as nat).len() <= 10,
        decreases n,
    {
        assert(n >> 7 == n / 128) by (bit_vector);
        if n >= 128 {
            assert(varint_bytes(n as nat).len() == 1 + varint_bytes((n / 128) as nat).len());
        }
        size = size + 1;
        n = n >> 7;
    }
    size
}

impl VarIntEncoder for usize {
    fn varint_size(self) -> (size: usize)
        ensures
            size == varint_bytes(self as nat).len(),
    {
        varint_size_u64(self as u64)
    }

    fn encode_as_varint(self) -> (dst: Vec<u8>)
        ensures
            dst@ == varint_bytes(self as nat),
    {
        encode_u64(self as u64)
    }
}

impl VarIntEncoder for u64 {
    fn varint_size(self) -> (size: usize)
        ensures
            size == varint_bytes(self as nat).len(),
    {
        varint_size_u64(self)
    }

    fn encode_as_varint(self) -> (dst: Vec<u8>)
        ensures
            dst@ == varint_bytes(self as nat),
    {
        encode_u64(self)
    }
}

pub proof fn lemma_byte_bits(b: u8)
    ensures
        b & 0x7f == b % 128,
        (b & 0x80 == 0) == (b < 128),
{
    assert(b & 0x7f == b % 128) by (bit_vector);
    assert((b & 0x80 == 0) == (b < 128)) by (bit_vector);
}

/// Sums the low seven bits of the first `count` bytes of `bytes`, group `i`
/// weighted by `128^i`.
pub fn accumulate(bytes: &[u8], count: usize) -> (value: u128)
    requires
        count <= bytes@.len(),
        count <= 11,
    ensures
        value == varint_value(bytes@.take(count as int)),
{
    proof {
        lemma_pow128_10();
    }
    let mut value: u128 = 0;
    let mut weight: u128 = 1;
    let mut i: usize = 0;
    while i < count
        invariant
            i <= count <= bytes@.len(),
            count <= 11,
            value == varint_value(bytes@.take(i as int)),
            weight == pow128(i as nat),
            pow128(11) == 0x2000_0000_0000_0000_0000,
        decreases count - i,
    {
        proof {
            lemma_varint_value_take(bytes@, i as int);
            lemma_varint_value_bound(bytes@.take(i as int));
            lemma_pow128_mono(i as nat, 10);
            lemma_pow128_mono((i + 1) as nat, 11);
        }
        let byte = bytes[i];
        proof {
            lemma_byte_bits(byte);
        }
        let group = (byte & DROP_MSB) as u128;
        assert(group * weight <= 127 * pow128(10)) by (nonlinear_arith)
            requires
                group <= 127,
                weight <= pow128(10),
        ;
        value = value + group * weight;
        weight = weight * 128;
        i = i + 1;
    }
    value
}

/// The index of the first byte whose high bit is clear, or the length.
pub fn varint_end_exec(bytes: &[u8]) -> (end: usize)
    ensures
        end == varint_end(bytes@),
        end <= bytes@.len(),
{
    let mut i: usize = 0;
    while i < bytes.len()
        invariant
            i <= bytes@.len(),
            forall|j: int| 0 <= j < i ==> bytes@[j] >= 128,
        decreases bytes@.len() - i,
    {
        let byte = bytes[i];
        proof {
            lemma_byte_bits(byte);
        }
        if byte & MSB == 0 {
            proof {
                lemma_varint_end(bytes@, i as int);
            }
            return i;
        }
        i = i + 1;
    }
    proof {
        lemma_varint_end(bytes@, i as int);
    }
    i
}

/// The value of the first `count` groups, cut to 64 bits, with the zigzag
/// mapping undone and read back as unsigned bits.
pub open spec fn decoded_bits(s: Seq<u8>, count: nat) -> nat {
    zigzag_decode_bits(varint_value(s.take(count as int)) % two_pow_64())
}

/// Reduces an accumulated value to 64 bits and undoes the zigzag mapping.
fn unzigzag_low64(value: u128) -> (bits: u64)
    ensures
        bits == zigzag_decode_bits(value as nat % two_pow_64()),
{
    let low = (value % 0x1_0000_0000_0000_0000) as u64;
    let signed = low.zigzag();
    let bits = #[verifier::truncate] (signed as u64);
    assert(signed >= 0 ==> #[verifier::truncate] (signed as u64) == signed) by (bit_vector);
    assert(signed < 0 ==> #[verifier::truncate] (signed as u64) == signed + 0x1_0000_0000_0000_0000)
        by (bit_vector);
    bits
}

/// One more than the largest machine word.
pub open spec fn word_modulus() -> nat {
    (usize::MAX + 1) as nat
}

/// The bits of `zigzag_decode_spec(n)` read back as an unsigned machine word.
pub open spec fn zigzag_decode_word(n: nat) -> nat {
    if n % 2 == 0 {
        n / 2
    } else {
        (usize::MAX - n / 2) as nat
    }
}

/// The value of the first `count` groups, cut to the machine word, with the
/// zigzag mapping undone and read back as unsigned word bits.
pub open spec fn decoded_word(s: Seq<u8>, count: nat) -> nat {
    zigzag_decode_word(varint_value(s.take(count as int)) % word_modulus())
}

/// Whether reading `count` groups shifts each of them by less than the width
/// of the machine word.
pub open spec fn word_shifts_fit(count: nat) -> bool {
    count * 7 <= usize::BITS + 6
}

/// Reduces an accumulated value to the machine word and undoes the zigzag
/// mapping, reading the signed result back as unsigned word bits.
fn unzigzag_word(value: u128) -> (bits: usize)
    ensures
        bits == zigzag_decode_word(value as nat % word_modulus()),
{
    let low = (value % (usize::MAX as u128 + 1)) as usize;
    if low % 2 == 0 {
        low / 2
    } else {
        usize::MAX - low / 2
    }
}

impl VarIntDecoder for &[u8] {
    open spec fn sized_read_defined(&self, length: usize) -> bool {
        length <= (*self)@.len() && length <= 10
    }

    open spec fn read_defined(&self) -> bool {
        &&& (*self)@.len() < usize::MAX
        &&& word_shifts_fit(varint_read_count((*self)@, (*self)@.len()))
    }

    open spec fn slice_len(&self) -> nat {
        (*self)@.len()
    }

    fn get_varint_size(&self) -> (size: Result<usize, ()>)
        ensures
            size == Ok::<usize, ()>((varint_end((*self)@) + 1) as usize),
    {
        let end = varint_end_exec(*self);
        Ok(end + 1)
    }

    fn read_varint_with_size(&self, length: usize) -> (value: Result<u64, ()>)
        ensures
            value == Ok::<u64, ()>(decoded_bits((*self)@, length as nat) as u64),
    {
        let sum = accumulate(*self, length);
        Ok(unzigzag_low64(sum))
    }

    fn read_varint(&self) -> (value: Result<(usize, usize), ()>)
        ensures
            value == Ok::<(usize, usize), ()>(
                (
                    decoded_word((*self)@, varint_read_count((*self)@, (*self)@.len())) as usize,
                    (varint_end((*self)@) + 1) as usize,
                ),
            ),
    {
        let end = varint_end_exec(*self);
        let count = if end < self.len() {
            end + 1
        } else {
            end
        };
        proof {
            lemma_varint_end_ge((*self)@, 0);
            assert(usize::BITS == 32 || usize::BITS == 64);
        }
        let sum = accumulate(*self, count);
        let bits = unzigzag_word(sum);
        Ok((bits, end + 1))
    }
}

} // verus!
