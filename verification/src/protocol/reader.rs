use crate::codec::bytes::{
    id_offset, le_bytes, lemma_le_value_of_le_bytes, le_value, offset_from_id, u32_from_le,
};
use crate::protocol::command::{command_byte, command_of_byte, Command};
use vstd::prelude::*;

verus! {

/// What a client asks for in one frame.
pub enum Request {
    /// A message to store and distribute.
    Message { id: [u8; 6], message_type: [u8; 4], message: Vec<u8> },
    /// A schema to register for a message type.
    Schema { message_type: [u8; 4], schema: Vec<u8> },
    /// A request for the schema of a message type.
    SchemaNeeded { message_type: [u8; 4] },
    /// A subscription starting at an offset, with a filter.
    Subscription { offset: u64, subscription_id: [u8; 4], filter: Vec<u8> },
    /// Any other command: the connection ends.
    End,
}

/// The outcome of decoding the front of the input.
pub enum Frame {
    /// The frame is not complete; it needs at least this many bytes in all.
    Incomplete(u64),
    /// A complete request, and the number of bytes that it took.
    Complete(Request, usize),
    /// The first byte stands for no command.
    UnknownCommand(u8),
}

/// The total length of a frame whose 32-bit little-endian size field sits at
/// `at` and whose payload follows it.
pub open spec fn sized_total(buf: Seq<u8>, at: int) -> nat {
    (at + 4 + le_value(buf.subrange(at, at + 4))) as nat
}

/// Whether `f` is what decoding the front of `buf` gives.
pub open spec fn frame_matches(buf: Seq<u8>, f: Frame) -> bool {
    if buf.len() == 0 {
        f == Frame::Incomplete(1)
    } else {
        match command_of_byte(buf[0]) {
            None => f == Frame::UnknownCommand(buf[0]),
            Some(Command::Message) => if buf.len() < 15 {
                f == Frame::Incomplete(15)
            } else if buf.len() < sized_total(buf, 11) {
                f == Frame::Incomplete(sized_total(buf, 11) as u64)
            } else {
                f matches Frame::Complete(Request::Message { id, message_type, message }, n) && n
                    == sized_total(buf, 11) && id@ == buf.subrange(1, 7) && message_type@
                    == buf.subrange(7, 11) && message@ == buf.subrange(15, n as int)
            },
            Some(Command::Schema) => if buf.len() < 9 {
                f == Frame::Incomplete(9)
            } else if buf.len() < sized_total(buf, 5) {
                f == Frame::Incomplete(sized_total(buf, 5) as u64)
            } else {
                f matches Frame::Complete(Request::Schema { message_type, schema }, n) && n
                    == sized_total(buf, 5) && message_type@ == buf.subrange(1, 5) && schema@
                    == buf.subrange(9, n as int)
            },
            Some(Command::SchemaNeeded) => if buf.len() < 5 {
                f == Frame::Incomplete(5)
            } else {
                f matches Frame::Complete(Request::SchemaNeeded { message_type }, n) && n == 5
                    && message_type@ == buf.subrange(1, 5)
            },
            Some(Command::Subscription) => if buf.len() < 15 {
                f == Frame::Incomplete(15)
            } else if buf.len() < sized_total(buf, 11) {
                f == Frame::Incomplete(sized_total(buf, 11) as u64)
            } else {
                f matches Frame::Complete(
                    Request::Subscription { offset, subscription_id, filter },
                    n,
                ) && n == sized_total(buf, 11) && offset == id_offset(buf.subrange(1, 7))
                    && subscription_id@ == buf.subrange(7, 11) && filter@ == buf.subrange(
                    15,
                    n as int,
                )
            },
            Some(_) => f matches Frame::Complete(Request::End, n) && n == 1,
        }
    }
}

/// Copies `buf[from..to]`.
pub fn copy_range(buf: &[u8], from: usize, to: usize) -> (out: Vec<u8>)
    requires
        from <= to <= buf@.len(),
    ensures
        out@ == buf@.subrange(from as int, to as int),
{
    let mut out = Vec::new();
    let mut i = from;
    while i < to
        invariant
            from <= i <= to <= buf@.len(),
            out@ == buf@.subrange(from as int, i as int),
        decreases to - i,
    {
        out.push(buf[i]);
        assert(out@ =~= buf@.subrange(from as int, i + 1));
        i = i + 1;
    }
    out
}

/// Reads the 32-bit size field at `at`.
fn size_at(buf: &[u8], at: usize) -> (size: u32)
    requires
        at + 4 <= buf@.len() <= usize::MAX,
    ensures
        size == le_value(buf@.subrange(at as int, at + 4)),
{
    let field = copy_range(buf, at, at + 4);
    u32_from_le(field.as_slice())
}

/// Decodes the frame at the front of `buf`: which command it carries and the
/// fields that follow, read in the order and sizes the protocol fixes.
pub fn decode_frame(buf: &[u8]) -> (f: Frame)
    requires
        buf@.len() <= usize::MAX - 20,
    ensures
        frame_matches(buf@, f),
{
    if buf.len() == 0 {
        return Frame::Incomplete(1);
    }
    let command = match Command::try_from(buf[0]) {
        Ok(c) => c,
        Err(_) => {
            return Frame::UnknownCommand(buf[0]);
        },
    };
    match command {
        Command::Message => {
            if buf.len() < 15 {
                return Frame::Incomplete(15);
            }
            let size = size_at(buf, 11);
            let total = 15u64 + size as u64;
            if (buf.len() as u64) < total {
                return Frame::Incomplete(total);
            }
            let total = total as usize;
            let id = [buf[1], buf[2], buf[3], buf[4], buf[5], buf[6]];
            let message_type = [buf[7], buf[8], buf[9], buf[10]];
            let message = copy_range(buf, 15, total);
            assert(id@ =~= buf@.subrange(1, 7));
            assert(message_type@ =~= buf@.subrange(7, 11));
            Frame::Complete(Request::Message { id, message_type, message }, total)
        },
        Command::Schema => {
            if buf.len() < 9 {
                return Frame::Incomplete(9);
            }
            let size = size_at(buf, 5);
            let total = 9u64 + size as u64;
            if (buf.len() as u64) < total {
                return Frame::Incomplete(total);
            }
            let total = total as usize;
            let message_type = [buf[1], buf[2], buf[3], buf[4]];
            let schema = copy_range(buf, 9, total);
            assert(message_type@ =~= buf@.subrange(1, 5));
            Frame::Complete(Request::Schema { message_type, schema }, total)
        },
        Command::SchemaNeeded => {
            if buf.len() < 5 {
                return Frame::Incomplete(5);
            }
            let message_type = [buf[1], buf[2], buf[3], buf[4]];
            assert(message_type@ =~= buf@.subrange(1, 5));
            Frame::Complete(Request::SchemaNeeded { message_type }, 5)
        },
        Command::Subscription => {
            if buf.len() < 15 {
                return Frame::Incomplete(15);
            }
            let raw_offset = copy_range(buf, 1, 7);
            let offset = offset_from_id(raw_offset.as_slice());
            let subscription_id = [buf[7], buf[8], buf[9], buf[10]];
            let size = size_at(buf, 11);
            let total = 15u64 + size as u64;
            if (buf.len() as u64) < total {
                return Frame::Incomplete(total);
            }
            let total = total as usize;
            let filter = copy_range(buf, 15, total);
            assert(subscription_id@ =~= buf@.subrange(7, 11));
            Frame::Complete(Request::Subscription { offset, subscription_id, filter }, total)
        },
        _ => Frame::Complete(Request::End, 1),
    }
}

/// The frame that a client sends to publish a message: the message command,
/// the id, the message type, the message's size in four little-endian bytes,
/// then the message.
pub open spec fn message_frame(id: Seq<u8>, message_type: Seq<u8>, message: Seq<u8>) -> Seq<u8> {
    seq![command_byte(Command::Message)] + id + message_type + le_bytes(message.len(), 4) + message
}

/// A message frame, whatever follows it, is read back as the message it
/// carries, and takes exactly its own bytes.
pub proof fn law_decode_message_frame(
    id: Seq<u8>,
    message_type: Seq<u8>,
    message: Seq<u8>,
    rest: Seq<u8>,
    f: Frame,
)
    requires
        id.len() == 6,
        message_type.len() == 4,
        message.len() < 0x1_0000_0000,
        frame_matches(message_frame(id, message_type, message) + rest, f),
    ensures
        f matches Frame::Complete(Request::Message { id: i, message_type: t, message: m }, n) && i@
            == id && t@ == message_type && m@ == message && n == 15 + message.len(),
{
    let size = le_bytes(message.len(), 4);
    let buf = message_frame(id, message_type, message) + rest;
    assert(size.len() == 4) by {
        reveal_with_fuel(le_bytes, 5);
    }
    lemma_le_value_of_le_bytes(message.len(), 4);
    assert(vstd::arithmetic::power::pow(256, 4) == 0x1_0000_0000) by {
        reveal_with_fuel(vstd::arithmetic::power::pow, 5);
    }
    assert(buf[0] == command_byte(Command::Message));
    assert(buf.subrange(11, 15) =~= size);
    assert(buf.subrange(1, 7) =~= id);
    assert(buf.subrange(7, 11) =~= message_type);
    assert(buf.subrange(15, 15 + message.len() as int) =~= message);
}

/// The frame that a client sends to subscribe: the subscription command, the
/// six id bytes of the message to start from, the subscription id, the
/// filter's size in four little-endian bytes, then the filter.
pub open spec fn subscription_frame(start: Seq<u8>, subscription_id: Seq<u8>, filter: Seq<u8>) -> Seq<u8> {
    seq![command_byte(Command::Subscription)] + start + subscription_id + le_bytes(filter.len(), 4)
        + filter
}

/// A subscription frame, whatever follows it, is read back as the
/// subscription it carries: the offset of its start id, its subscription id
/// byte for byte and in order, and its filter; it takes exactly its own
/// bytes.
pub proof fn law_decode_subscription_frame(
    start: Seq<u8>,
    subscription_id: Seq<u8>,
    filter: Seq<u8>,
    rest: Seq<u8>,
    f: Frame,
)
    requires
        start.len() == 6,
        subscription_id.len() == 4,
        filter.len() < 0x1_0000_0000,
        frame_matches(subscription_frame(start, subscription_id, filter) + rest, f),
    ensures
        f matches Frame::Complete(
            Request::Subscription { offset: o, subscription_id: i, filter: m },
            n,
        ) && o == id_offset(start) && i@ == subscription_id && m@ == filter && n == 15
            + filter.len(),
{
    let size = le_bytes(filter.len(), 4);
    let buf = subscription_frame(start, subscription_id, filter) + rest;
    assert(size.len() == 4) by {
        reveal_with_fuel(le_bytes, 5);
    }
    lemma_le_value_of_le_bytes(filter.len(), 4);
    assert(vstd::arithmetic::power::pow(256, 4) == 0x1_0000_0000) by {
        reveal_with_fuel(vstd::arithmetic::power::pow, 5);
    }
    assert(buf[0] == command_byte(Command::Subscription));
    assert(buf.subrange(11, 15) =~= size);
    assert(buf.subrange(1, 7) =~= start);
    assert(buf.subrange(7, 11) =~= subscription_id);
    assert(buf.subrange(15, 15 + filter.len() as int) =~= filter);
}

/// The frame that a client sends to register a schema: the schema command,
/// the message type, the schema's size in four little-endian bytes, then the
/// schema.
pub open spec fn schema_frame(message_type: Seq<u8>, schema: Seq<u8>) -> Seq<u8> {
    seq![command_byte(Command::Schema)] + message_type + le_bytes(schema.len(), 4) + schema
}

/// A schema frame, whatever follows it, is read back as the message type and
/// schema it carries, and takes exactly its own bytes.
pub proof fn law_decode_schema_frame(message_type: Seq<u8>, schema: Seq<u8>, rest: Seq<u8>, f: Frame)
    requires
        message_type.len() == 4,
        schema.len() < 0x1_0000_0000,
        frame_matches(schema_frame(message_type, schema) + rest, f),
    ensures
        f matches Frame::Complete(Request::Schema { message_type: t, schema: m }, n) && t@
            == message_type && m@ == schema && n == 9 + schema.len(),
{
    let size = le_bytes(schema.len(), 4);
    let buf = schema_frame(message_type, schema) + rest;
    assert(size.len() == 4) by {
        reveal_with_fuel(le_bytes, 5);
    }
    lemma_le_value_of_le_bytes(schema.len(), 4);
    assert(vstd::arithmetic::power::pow(256, 4) == 0x1_0000_0000) by {
        reveal_with_fuel(vstd::arithmetic::power::pow, 5);
    }
    assert(buf[0] == command_byte(Command::Schema));
    assert(buf.subrange(5, 9) =~= size);
    assert(buf.subrange(1, 5) =~= message_type);
    assert(buf.subrange(9, 9 + schema.len() as int) =~= schema);
}

/// A request for a schema, whatever follows it, is read back as the message
/// type it names, and takes five bytes.
pub proof fn law_decode_schema_request(message_type: Seq<u8>, rest: Seq<u8>, f: Frame)
    requires
        message_type.len() == 4,
        frame_matches(seq![command_byte(Command::SchemaNeeded)] + message_type + rest, f),
    ensures
        f matches Frame::Complete(Request::SchemaNeeded { message_type: t }, n) && t@
            == message_type && n == 5,
{
    let buf = seq![command_byte(Command::SchemaNeeded)] + message_type + rest;
    assert(buf[0] == command_byte(Command::SchemaNeeded));
    assert(buf.subrange(1, 5) =~= message_type);
}

/// A cut-off message frame is incomplete: before its fifteen header bytes
/// have come it asks for them, after that for the whole frame.
pub proof fn law_cut_message_frame(
    id: Seq<u8>,
    message_type: Seq<u8>,
    message: Seq<u8>,
    k: int,
    f: Frame,
)
    requires
        id.len() == 6,
        message_type.len() == 4,
        message.len() < 0x1_0000_0000,
        1 <= k < 15 + message.len(),
        frame_matches(message_frame(id, message_type, message).take(k), f),
    ensures
        f == Frame::Incomplete(if k < 15 { 15 } else { (15 + message.len()) as u64 }),
{
    let size = le_bytes(message.len(), 4);
    let frame = message_frame(id, message_type, message);
    let buf = frame.take(k);
    assert(size.len() == 4) by {
        reveal_with_fuel(le_bytes, 5);
    }
    lemma_le_value_of_le_bytes(message.len(), 4);
    assert(vstd::arithmetic::power::pow(256, 4) == 0x1_0000_0000) by {
        reveal_with_fuel(vstd::arithmetic::power::pow, 5);
    }
    assert(buf[0] == command_byte(Command::Message));
    if k >= 15 {
        assert(buf.subrange(11, 15) =~= size);
    }
}

/// A cut-off subscription frame is incomplete: before its fifteen header
/// bytes have come it asks for them, after that for the whole frame.
pub proof fn law_cut_subscription_frame(
    start: Seq<u8>,
    subscription_id: Seq<u8>,
    filter: Seq<u8>,
    k: int,
    f: Frame,
)
    requires
        start.len() == 6,
        subscription_id.len() == 4,
        filter.len() < 0x1_0000_0000,
        1 <= k < 15 + filter.len(),
        frame_matches(subscription_frame(start, subscription_id, filter).take(k), f),
    ensures
        f == Frame::Incomplete(if k < 15 { 15 } else { (15 + filter.len()) as u64 }),
{
    let size = le_bytes(filter.len(), 4);
    let frame = subscription_frame(start, subscription_id, filter);
    let buf = frame.take(k);
    assert(size.len() == 4) by {
        reveal_with_fuel(le_bytes, 5);
    }
    lemma_le_value_of_le_bytes(filter.len(), 4);
    assert(vstd::arithmetic::power::pow(256, 4) == 0x1_0000_0000) by {
        reveal_with_fuel(vstd::arithmetic::power::pow, 5);
    }
    assert(buf[0] == command_byte(Command::Subscription));
    if k >= 15 {
        assert(buf.subrange(11, 15) =~= size);
    }
}

} // verus!
