use vstd::prelude::*;

verus! {

/// The commands of the line-oriented client protocol.
#[derive(Debug, Clone, Copy, PartialEq, Eq, Structural)]
pub enum Command {
    /// UTF8: BELL
    Publish,
    /// UTF8: ENQUIRY
    Subscribe,
    /// UTF8: ACK
    Ack,
    /// UTF8: NACK
    Nack,
}

/// The byte that stands for each client command.
pub open spec fn client_command_byte(c: Command) -> u8 {
    match c {
        Command::Publish => 0x07,
        Command::Subscribe => 0x05,
        Command::Ack => 0x06,
        Command::Nack => 0x15,
    }
}

impl Command {
    /// The byte that the command is sent as.
    pub fn as_byte(&self) -> (b: u8)
        ensures
            b == client_command_byte(*self),
    {
        match self {
            Command::Publish => 0x07,
            Command::Subscribe => 0x05,
            Command::Ack => 0x06,
            Command::Nack => 0x15,
        }
    }
}

} // verus!
