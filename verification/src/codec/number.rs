use crate::codec::numbers::{
    accumulate, lemma_byte_bits, lemma_pow128_10, lemma_pow128_mono, lemma_varint_bytes_len,
    lemma_varint_end, lemma_varint_end_ge, lemma_varint_value_bound, pow128, varint_bytes,
    varint_end, varint_read_count, varint_value, zigzag_decode_spec, zigzag_encode_spec,
    law_varint_roundtrip, lemma_varint_end_prefix,
};
use vstd::prelude::*;

verus! {

pub const MSB: u8 = 0b1000_0000;

const DROP_MSB: u8 = 0b0111_1111;

/// The bits of the 128-bit zigzag mapping, which shifts the sign by 63 places.
pub open spec fn zigzag_i128_bits(x: i128) -> u128 {
    ((x << 1) ^ (x >> 63)) as u128
}

/// Whether `x` lies where the 128-bit zigzag mapping agrees with the
/// mathematical one.
pub open spec fn in_i64_range(x: int) -> bool {
    -0x8000_0000_0000_0000 <= x < 0x8000_0000_0000_0000
}

/// For values in the 64-bit range, decoding what `encode_var` writes gives the
/// value back and consumes exactly the encoding.
pub proof fn law_decode_var_of_encoding(x: i128)
    requires
        in_i64_range(x as int),
    ensures
        ({
            let bytes = x.spec_encoded();
            &&& varint_read_count(bytes, 11) == bytes.len()
            &&& zigzag_decode_spec(varint_value(bytes.take(bytes.len() as int)) as int) == x
        }),
{
    let z = zigzag_encode_spec(x as int);
    assert(zigzag_i128_bits(x) == z) by {
        assert(0 <= x < 0x8000_0000_0000_0000 ==> #[verifier::truncate] (((x << 1) ^ (x >> 63))
            as u128) == 2 * x) by (bit_vector);
        assert(-0x8000_0000_0000_0000 <= x < 0 ==> #[verifier::truncate] (((x << 1) ^ (x >> 63))
            as u128) == -2 * x - 1) by (bit_vector);
    }
    let bytes = varint_bytes(z as nat);
    lemma_pow128_10();
    lemma_varint_bytes_len(z as nat, 10);
    law_varint_roundtrip(z as nat);
    assert(bytes.take(bytes.len() as int) =~= bytes);
}

/// Decoding reads several encodings placed one after the other: the first
/// value and its length come back from the front, then the second from where
/// the first ends, whatever follows.
pub proof fn law_decode_var_consecutive(x: i128, y: i128, rest: Seq<u8>)
    requires
        in_i64_range(x as int),
        in_i64_range(y as int),
    ensures
        ({
            let a = x.spec_encoded();
            let b = y.spec_encoded();
            let s = a + b + rest;
            &&& varint_read_count(s, 11) == a.len()
            &&& zigzag_decode_spec(varint_value(s.take(a.len() as int)) as int) == x
            &&& s.skip(a.len() as int) == b + rest
            &&& varint_read_count(b + rest, 11) == b.len()
            &&& zigzag_decode_spec(varint_value((b + rest).take(b.len() as int)) as int) == y
        }),
{
    let a = x.spec_encoded();
    let b = y.spec_encoded();
    let s = a + b + rest;
    law_decode_var_of_encoding(x);
    law_decode_var_of_encoding(y);
    law_varint_roundtrip(zigzag_i128_bits(x) as nat);
    law_varint_roundtrip(zigzag_i128_bits(y) as nat);
    lemma_varint_end_prefix(a, b + rest);
    lemma_varint_end_prefix(b, rest);
    assert(s =~= a + (b + rest));
    assert(s.take(a.len() as int) =~= a.take(a.len() as int));
    assert(s.skip(a.len() as int) =~= b + rest);
    assert((b + rest).take(b.len() as int) =~= b.take(b.len() as int));
}

pub trait IntoU128: Sized + Copy {
    fn zigzag_into_u128(self) -> u128;
}

pub trait IntoI128: Sized + Copy {
    fn zigzag_into_i128(self) -> i128;
}

impl IntoU128 for i128 {
    fn zigzag_into_u128(self) -> (r: u128)
        ensures
            r == zigzag_i128_bits(self),
            in_i64_range(self as int) ==> r == zigzag_encode_spec(self as int),
    {
        let x = self;
        assert(0 <= x < 0x8000_0000_0000_0000 ==> #[verifier::truncate] (((x << 1) ^ (x >> 63))
            as u128) == 2 * x) by (bit_vector);
        assert(-0x8000_0000_0000_0000 <= x < 0 ==> #[verifier::truncate] (((x << 1) ^ (x >> 63))
            as u128) == -2 * x - 1) by (bit_vector);
        #[verifier::truncate] (((x << 1) ^ (x >> 63)) as u128)
    }
}

impl IntoI128 for u128 {
    fn zigzag_into_i128(self) -> (r: i128)
        ensures
            r == zigzag_decode_spec(self as int),
    {
        let n = self;
        assert(n & 1 <= 1) by (bit_vector);
        assert(n % 2 == 0 ==> #[verifier::truncate] (((n >> 1) ^ (#[verifier::truncate] ((-((n
            & 1) as i128)) as u128))) as i128) == n / 2) by (bit_vector);
        assert(n % 2 == 1 ==> #[verifier::truncate] (((n >> 1) ^ (#[verifier::truncate] ((-((n
            & 1) as i128)) as u128))) as i128) == -((n / 2) as int) - 1) by (bit_vector);
        #[verifier::truncate] (((n >> 1) ^ (#[verifier::truncate] ((-((n & 1) as i128)) as u128)))
            as i128)
    }
}

/// Variable-length encoding of a value, zigzag mapped first.
pub trait VarInt: Sized + Copy {
    /// The bytes that `encode_var` writes.
    spec fn spec_encoded(self) -> Seq<u8>;

    /// The number of bytes that the encoding takes.
    fn required_space(self) -> (space: usize)
        ensures
            space == self.spec_encoded().len(),
    ;

    /// Decode a value from the slice. Returns the value and the number of bytes read from the
    /// slice (can be used to read several consecutive values from a big slice)
    fn decode_var(src: &[u8]) -> (Self, usize);

    /// Encode a value into the slice. The slice must be at least `required_space()` bytes long.
    /// The number of bytes taken by the encoded integer is returned.
    fn encode_var(self, dst: &mut [u8]) -> (written: usize)
        requires
            old(dst)@.len() >= self.spec_encoded().len(),
        ensures
            written == self.spec_encoded().len(),
            final(dst)@ == self.spec_encoded() + old(dst)@.skip(written as int),
    ;

    /// Helper: Encode a value and return the encoded form as Vec, of
    /// `required_space()` bytes.
    fn encode_var_vec(self) -> (v: Vec<u8>)
        ensures
            v@ == self.spec_encoded(),
    {
        let mut v = Vec::new();
        v.resize(self.required_space(), 0);
        let written = self.encode_var(&mut v);
        assert(v@ =~= self.spec_encoded());
        v
    }
}

impl VarInt for i128 {
    open spec fn spec_encoded(self) -> Seq<u8> {
        varint_bytes(zigzag_i128_bits(self) as nat)
    }

    fn required_space(self) -> (space: usize) {
        let z = self.zigzag_into_u128();
        proof {
            lemma_pow128_mono(10, 19);
            assert(pow128(19) >= 0x1_0000_0000_0000_0000_0000_0000_0000_0000int) by {
                reveal_with_fuel(pow128, 20);
            }
            lemma_varint_bytes_len(z as nat, 19);
        }
        let mut n = z;
        let mut count: usize = 1;
        while n >= 128
            invariant
                count >= 1,
                count - 1 + varint_bytes(n as nat).len() == varint_bytes(z as nat).len(),
                varint_bytes(z as nat).len() <= 19,
            decreases n,
        {
            assert(n >> 7 == n / 128) by (bit_vector);
            assert(varint_bytes(n as nat).len() == 1 + varint_bytes((n / 128) as nat).len());
            count = count + 1;
            n = n >> 7;
        }
        count
    }

    fn decode_var(src: &[u8]) -> (decoded: (i128, usize))
        ensures
            decoded.1 == varint_read_count(src@, 11),
            decoded.0 == zigzag_decode_spec(
                varint_value(src@.take(varint_read_count(src@, 11) as int)) as int,
            ),
    {
        let mut count: usize = 0;
        proof {
            lemma_varint_end_ge(src@, 0);
        }
        while count < src.len()
            invariant_except_break
                count <= src@.len(),
                count <= 10,
                forall|j: int| 0 <= j < count ==> src@[j] >= 128,
                count <= varint_end(src@) <= src@.len(),
            ensures
                count <= src@.len(),
                count == varint_read_count(src@, 11),
            decreases src@.len() - count,
        {
            let byte = src[count];
            proof {
                lemma_byte_bits(byte);
            }
            count = count + 1;
            if byte & MSB == 0 || count * 7 > 70 {
                proof {
                    if byte & MSB == 0 {
                        lemma_varint_end(src@, count - 1);
                    } else {
                        lemma_varint_end_ge(src@, count as int);
                    }
                }
                break;
            }
            proof {
                lemma_varint_end_ge(src@, count as int);
            }
        }
        let value = accumulate(src, count);
        proof {
            lemma_varint_value_bound(src@.take(count as int));
            lemma_pow128_mono(count as nat, 11);
            lemma_pow128_10();
        }
        (value.zigzag_into_i128(), count)
    }

    fn encode_var(self, dst: &mut [u8]) -> (written: usize) {
        let value = self.zigzag_into_u128();
        let ghost target = varint_bytes(value as nat);
        let mut n = value;
        let mut i: usize = 0;
        while n >= 0x80
            invariant
                i <= dst@.len(),
                dst@.len() == old(dst)@.len(),
                dst@.take(i as int) + varint_bytes(n as nat) == target,
                dst@.skip(i as int) == old(dst)@.skip(i as int),
                target.len() <= old(dst)@.len(),
            decreases n,
        {
            assert(n >= 0x80 ==> (0x80u8 | (#[verifier::truncate] (n as u8))) == 128 + n % 128)
                by (bit_vector);
            assert(n >> 7 == n / 128) by (bit_vector);
            let byte = MSB | (#[verifier::truncate] (n as u8));
            let ghost before = dst@;
            assert(varint_bytes(n as nat) == seq![byte] + varint_bytes((n / 128) as nat));
            dst[i] = byte;
            assert(dst@.take(i + 1) =~= before.take(i as int).push(byte));
            assert(dst@.skip(i + 1) =~= before.skip(i + 1));
            assert(before.skip(i + 1) =~= before.skip(i as int).skip(1));
            assert(dst@.take(i + 1) + varint_bytes((n / 128) as nat) =~= before.take(i as int)
                + varint_bytes(n as nat));
            n = n >> 7;
            i = i + 1;
        }
        let ghost before = dst@;
        dst[i] = n as u8;
        assert(dst@.take(i + 1) =~= before.take(i as int) + varint_bytes(n as nat));
        assert(dst@.skip(i + 1) =~= old(dst)@.skip(i + 1)) by {
            assert(before.skip(i + 1) =~= before.skip(i as int).skip(1));
            assert(old(dst)@.skip(i + 1) =~= old(dst)@.skip(i as int).skip(1));
        }
        assert(dst@ =~= dst@.take(i + 1) + dst@.skip(i + 1));
        i + 1
    }
}

/// The value that the low seven bits of `bytes` stand for, cut to 128 bits.
pub open spec fn varint_value_u128(bytes: Seq<u8>) -> nat {
    varint_value(bytes) % 0x1_0000_0000_0000_0000_0000_0000_0000_0000nat
}

/// Reading a zigzag variable-length integer one byte at a time.
pub trait VarIntReader: Sized {
    /// The bytes taken in so far.
    spec fn taken(&self) -> Seq<u8>;

    /// Takes one more byte in; the integer is complete when its high bit is
    /// clear. A twentieth byte would shift past 128 bits.
    fn take_byte(&mut self, byte: u8) -> (complete: bool)
        requires
            old(self).taken().len() < 19,
        ensures
            final(self).taken() == old(self).taken().push(byte),
            complete == (byte < 128),
    ;

    /// The integer read, zigzag decoded, and the number of bytes it took.
    fn read_varint_into_i128(&self) -> (read: (i128, usize))
        ensures
            read.0 == zigzag_decode_spec(varint_value_u128(self.taken()) as int),
            read.1 == self.taken().len(),
    ;
}

/// The state of a variable-length integer being read.
pub struct VarIntState {
    value: u128,
    weight: u128,
    count: usize,
    bytes: Ghost<Seq<u8>>,
}

impl VarIntState {
    #[verifier::type_invariant]
    spec fn inv(self) -> bool {
        &&& self.count == self.bytes@.len() <= 19
        &&& self.count <= 18 ==> self.weight == pow128(self.count as nat)
        &&& self.value == varint_value_u128(self.bytes@)
        &&& self.count <= 18 ==> self.value == varint_value(self.bytes@)
    }

    /// Nothing read yet.
    pub fn new() -> (state: VarIntState)
        ensures
            state.taken() == Seq::<u8>::empty(),
    {
        VarIntState { value: 0, weight: 1, count: 0, bytes: Ghost(Seq::empty()) }
    }
}

impl VarIntReader for VarIntState {
    closed spec fn taken(&self) -> Seq<u8> {
        self.bytes@
    }

    fn take_byte(&mut self, byte: u8) -> (complete: bool) {
        proof {
            use_type_invariant(&*self);
            lemma_byte_bits(byte);
        }
        let ghost before = self.bytes@;
        let ghost next = before.push(byte);
        let count = self.count;
        proof {
            assert(next.drop_last() =~= before);
            lemma_varint_value_bound(before);
            assert(pow128(18) == 0x4000_0000_0000_0000_0000_0000_0000_0000) by {
                reveal_with_fuel(pow128, 19);
            }
            lemma_pow128_mono(count as nat, 18);
        }
        let low = byte & DROP_MSB;
        if count < 18 {
            proof {
                lemma_pow128_mono((count + 1) as nat, 18);
                assert(low * pow128(count as nat) < pow128((count + 1) as nat)) by (nonlinear_arith)
                    requires
                        low < 128,
                        pow128(count as nat) >= 1,
                        pow128((count + 1) as nat) == pow128(count as nat) * 128,
                ;
                assert(varint_value(next) < pow128((count + 1) as nat)) by {
                    lemma_varint_value_bound(next);
                }
            }
            let value = self.value + (low as u128) * self.weight;
            let weight = self.weight * 128;
            *self = VarIntState { value, weight, count: count + 1, bytes: Ghost(next) };
        } else {
            let top = low % 4;
            proof {
                let w: int = 0x4000_0000_0000_0000_0000_0000_0000_0000;
                let m: int = 0x1_0000_0000_0000_0000_0000_0000_0000_0000int;
                let v = varint_value(before) as int;
                assert((v + low * w) % m == v + top * w) by (nonlinear_arith)
                    requires
                        0 <= v < w,
                        0 <= low < 128,
                        top == low % 4,
                        m == 4 * w,
                        w > 0,
                {
                    assert(low * w == (low / 4) * m + top * w);
                    vstd::arithmetic::div_mod::lemma_mod_multiples_vanish(
                        (low / 4) as int,
                        v + top * w,
                        m,
                    );
                    vstd::arithmetic::div_mod::lemma_small_mod((v + top * w) as nat, m as nat);
                }
            }
            let value = self.value + (top as u128) * self.weight;
            *self = VarIntState { value, weight: self.weight, count: count + 1, bytes: Ghost(next) };
        }
        byte & MSB == 0
    }

    fn read_varint_into_i128(&self) -> (read: (i128, usize)) {
        proof {
            use_type_invariant(self);
        }
        (self.value.zigzag_into_i128(), self.count)
    }
}

} // verus!
