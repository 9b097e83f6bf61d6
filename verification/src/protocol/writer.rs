use crate::codec::bytes::{le_bytes, u32_to_le};
use crate::protocol::command::{command_byte, Command};
use crate::protocol::out::extend_bytes;
use crate::clock::nanos_since_epoch;
use rand::RngCore;
use vstd::prelude::*;

verus! {

/// The frame of a bare command.
pub fn command_frame(command: Command) -> (frame: Vec<u8>)
    ensures
        frame@ == seq![command_byte(command)],
{
    let mut frame = Vec::new();
    frame.push(command.as_byte());
    frame
}

/// A positive acknowledgement of the message with the given id.
pub fn message_ack_frame(id: &[u8]) -> (frame: Vec<u8>)
    ensures
        frame@ == seq![command_byte(Command::MessageAck)] + id@,
{
    let mut frame = command_frame(Command::MessageAck);
    extend_bytes(&mut frame, id);
    frame
}

/// A negative acknowledgement of the message with the given id.
pub fn message_nack_frame(id: &[u8]) -> (frame: Vec<u8>)
    ensures
        frame@ == seq![command_byte(Command::MessageNack)] + id@,
{
    let mut frame = command_frame(Command::MessageNack);
    extend_bytes(&mut frame, id);
    frame
}

/// A size as it is sent: cut to 32 bits, four little-endian bytes.
pub fn size_frame(size: usize) -> (frame: Vec<u8>)
    ensures
        frame@ == le_bytes(size as nat % 0x1_0000_0000, 4),
{
    let small = #[verifier::truncate] (size as u32);
    assert(#[verifier::truncate] (size as u32) == (size as u64) % 0x1_0000_0000u64) by (bit_vector);
    u32_to_le(small)
}

/// The id of a relayed message, built from the millisecond timestamp and three
/// random bytes: the first random byte with its six high bits set, the third
/// random byte, then the four high bytes of the timestamp.
pub open spec fn relay_id_bytes(timestamp_millis: u64, random: Seq<u8>) -> Seq<u8> {
    seq![random[0] | 0b1111_1100u8, random[2]] + le_bytes(timestamp_millis as nat, 8).subrange(
        4,
        8,
    )
}

/// Builds the id of a relayed message.
pub fn message_id(timestamp_millis: u64, random: &[u8; 3]) -> (id: [u8; 6])
    ensures
        id@ == relay_id_bytes(timestamp_millis, random@),
{
    let t = timestamp_millis;
    let id = [
        random[0] | 0b1111_1100,
        random[2],
        ((t / 0x1_0000_0000) % 256) as u8,
        ((t / 0x1_0000_0000_00) % 256) as u8,
        ((t / 0x1_0000_0000_0000) % 256) as u8,
        (t / 0x1_0000_0000_0000_00) as u8,
    ];
    proof {
        reveal_with_fuel(le_bytes, 9);
        assert(t / 256 / 256 / 256 / 256 == t / 0x1_0000_0000);
        assert(t / 0x1_0000_0000 / 256 == t / 0x1_0000_0000_00);
        assert(t / 0x1_0000_0000_00 / 256 == t / 0x1_0000_0000_0000);
        assert(t / 0x1_0000_0000_0000 / 256 == t / 0x1_0000_0000_0000_00);
        assert(id@ =~= seq![random@[0] | 0b1111_1100u8, random@[2]] + le_bytes(t as nat, 8).subrange(
            4,
            8,
        ));
    }
    id
}

/// Three random bytes from `rand::thread_rng().fill_bytes`; any value may come
/// back.
#[verifier::external_body]
fn random_bytes() -> [u8; 3] {
    let mut bytes = [0u8; 3];
    rand::thread_rng().fill_bytes(&mut bytes);
    bytes
}

/// The id of a relayed message at a clock reading in nanoseconds since the
/// epoch: the reading in whole milliseconds, cut to 64 bits, with three random
/// bytes.
pub open spec fn relay_id_at_reading(nanos: u128, random: Seq<u8>) -> Seq<u8> {
    relay_id_bytes((nanos / 1_000_000) as u64, random)
}

/// Builds the id of a relayed message at a clock reading.
pub fn relay_id_at(nanos: u128, random: &[u8; 3]) -> (id: [u8; 6])
    ensures
        id@ == relay_id_at_reading(nanos, random@),
{
    let millis = #[verifier::truncate] ((nanos / 1_000_000) as u64);
    message_id(millis, random)
}

/// The id of a relayed message from what the clock gave: none where the clock
/// read a time before the epoch.
pub fn relay_id_from(clock: Option<u128>, random: &[u8; 3]) -> (id: Option<[u8; 6]>)
    ensures
        match clock {
            None => id is None,
            Some(nanos) => id matches Some(i) && i@ == relay_id_at_reading(nanos, random@),
        },
{
    match clock {
        None => None,
        Some(nanos) => Some(relay_id_at(nanos, random)),
    }
}

/// A fresh id for a relayed message, from the clock and three random bytes,
/// as `relay_id_from` makes it; `None` where the clock reads a time before the
/// epoch. What the clock and the random source give is the machine's.
pub fn new_message_id() -> (id: Option<[u8; 6]>)
    ensures
        id matches Some(i) ==> exists|nanos: u128, random: [u8; 3]|
            i@ == #[trigger] relay_id_at_reading(nanos, random@),
{
    let clock = nanos_since_epoch();
    let random = random_bytes();
    relay_id_from(clock, &random)
}

/// The frame that relays a message to a subscriber: the subscription-message
/// command, the relay id, the message type, the subscription id, the message
/// size and the message.
pub open spec fn relay_frame_bytes(
    relay_id: Seq<u8>,
    message_type: Seq<u8>,
    subscription_id: Seq<u8>,
    message: Seq<u8>,
) -> Seq<u8> {
    seq![command_byte(Command::SubscriptionMessage)] + relay_id + message_type + subscription_id
        + le_bytes(message.len() % 0x1_0000_0000, 4) + message
}

/// Builds the frame that relays a message to a subscriber.
pub fn relay_frame(
    relay_id: &[u8],
    message_type: &[u8],
    subscription_id: &[u8],
    message: &[u8],
) -> (frame: Vec<u8>)
    ensures
        frame@ == relay_frame_bytes(relay_id@, message_type@, subscription_id@, message@),
{
    let mut frame = command_frame(Command::SubscriptionMessage);
    extend_bytes(&mut frame, relay_id);
    extend_bytes(&mut frame, message_type);
    extend_bytes(&mut frame, subscription_id);
    let size = size_frame(message.len());
    extend_bytes(&mut frame, size.as_slice());
    extend_bytes(&mut frame, message);
    frame
}

} // verus!
