use crate::protocol::types::{client_command_byte, Command};
use vstd::prelude::*;

verus! {

/// Appends the bytes of `src` to `dst`.
pub fn extend_bytes(dst: &mut Vec<u8>, src: &[u8])
    ensures
        final(dst)@ == old(dst)@ + src@,
{
    let mut i: usize = 0;
    while i < src.len()
        invariant
            i <= src@.len(),
            dst@ == old(dst)@ + src@.take(i as int),
        decreases src@.len() - i,
    {
        let ghost before = dst@;
        dst.push(src[i]);
        assert(src@.take(i + 1) =~= src@.take(i as int).push(src@[i as int]));
        assert(dst@ =~= old(dst)@ + src@.take(i + 1));
        i = i + 1;
    }
    assert(src@.take(i as int) =~= src@);
}

/// The publish frame: the publish byte, the id, then the content.
pub fn publish(id: &[u8], content: &[u8]) -> (frame: Vec<u8>)
    ensures
        frame@ == seq![client_command_byte(Command::Publish)] + id@ + content@,
{
    let mut frame = Vec::new();
    frame.push(Command::Publish.as_byte());
    extend_bytes(&mut frame, id);
    extend_bytes(&mut frame, content);
    frame
}

/// The acknowledgement frame: the subscribe byte, then the id.
pub fn ack(id: &[u8]) -> (frame: Vec<u8>)
    ensures
        frame@ == seq![client_command_byte(Command::Subscribe)] + id@,
{
    let mut frame = Vec::new();
    frame.push(Command::Subscribe.as_byte());
    extend_bytes(&mut frame, id);
    frame
}

/// The negative acknowledgement frame, which is sent with the subscribe byte
/// too, followed by the id.
pub fn nack(id: &[u8]) -> (frame: Vec<u8>)
    ensures
        frame@ == seq![client_command_byte(Command::Subscribe)] + id@,
{
    let mut frame = Vec::new();
    frame.push(Command::Subscribe.as_byte());
    extend_bytes(&mut frame, id);
    frame
}

} // verus!
