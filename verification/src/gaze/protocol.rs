pub use crate::protocol::out::{ack, nack, publish};
pub use crate::protocol::types::Command;
use crate::codec::number::VarInt;
use crate::codec::numbers::{lemma_pow128_mono, lemma_varint_bytes_len, pow128};
use crate::codec::number::zigzag_i128_bits;
use crate::clock::nanos_since_epoch;
use rand::Rng;
use vstd::prelude::*;

verus! {

/// A random 128-bit integer from `rand::thread_rng().gen::<i128>()`; any value
/// may come back.
#[verifier::external_body]
fn random_i128() -> i128 {
    rand::thread_rng().gen::<i128>()
}

/// Encodes the id made of a timestamp and a random number, their sum with
/// wrap-around, into the front of `dst`; the rest of `dst` stays as it was.
pub fn write_id(dst: &mut [u8], nanos: i128, random: i128) -> (written: usize)
    requires
        old(dst)@.len() >= 19,
    ensures
        written == nanos.wrapping_add(random).spec_encoded().len(),
        final(dst)@ == nanos.wrapping_add(random).spec_encoded() + old(dst)@.skip(written as int),
{
    let id = nanos.wrapping_add(random);
    proof {
        lemma_pow128_mono(10, 19);
        assert(pow128(19) >= 0x1_0000_0000_0000_0000_0000_0000_0000_0000int) by {
            reveal_with_fuel(pow128, 20);
        }
        lemma_varint_bytes_len(zigzag_i128_bits(id) as nat, 19);
    }
    id.encode_var(dst)
}

/// Writes a fresh id into the front of `dst`: the current time in
/// nanoseconds plus a random number, encoded as a variable-length integer; the
/// buffer is handed back. Where the clock reads a time before the epoch,
/// `None` comes back and `dst` is left as it was.
pub fn generate_id(dst: &mut [u8]) -> (id: Option<&mut [u8]>)
    requires
        old(dst)@.len() >= 19,
    ensures
        match id {
            Some(written) => final(dst)@ == final(written)@ && exists|x: i128|
                written@ == x.spec_encoded() + old(dst)@.skip(x.spec_encoded().len() as int),
            None => final(dst)@ == old(dst)@,
        },
{
    let nanos = match nanos_since_epoch() {
        Some(n) => #[verifier::truncate] (n as i128),
        None => {
            return None;
        },
    };
    let random = random_i128();
    write_id(dst, nanos, random);
    Some(dst)
}

} // verus!
