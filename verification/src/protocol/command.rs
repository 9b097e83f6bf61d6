use vstd::prelude::*;

verus! {

/// The commands of the binary protocol, each sent as one byte.
#[derive(Debug, Clone, Copy, PartialEq, Eq, Structural)]
pub enum Command {
    Message,
    SubscriptionMessage,
    Subscription,
    MessageAck,
    MessageNack,
    Schema,
    SchemaOffer,
    SchemaNeeded,
    NoSchema,
}

/// The byte that stands for each command on the wire.
pub open spec fn command_byte(c: Command) -> u8 {
    match c {
        Command::Message => 0x12,
        Command::SubscriptionMessage => 0x13,
        Command::Subscription => 0x02,
        Command::MessageAck => 0x03,
        Command::MessageNack => 0x04,
        Command::Schema => 0x08,
        Command::SchemaOffer => 0x09,
        Command::SchemaNeeded => 0x10,
        Command::NoSchema => 0x11,
    }
}

/// The command that a byte stands for, if any.
pub open spec fn command_of_byte(b: u8) -> Option<Command> {
    if b == 0x12 {
        Some(Command::Message)
    } else if b == 0x13 {
        Some(Command::SubscriptionMessage)
    } else if b == 0x02 {
        Some(Command::Subscription)
    } else if b == 0x03 {
        Some(Command::MessageAck)
    } else if b == 0x04 {
        Some(Command::MessageNack)
    } else if b == 0x08 {
        Some(Command::Schema)
    } else if b == 0x09 {
        Some(Command::SchemaOffer)
    } else if b == 0x10 {
        Some(Command::SchemaNeeded)
    } else if b == 0x11 {
        Some(Command::NoSchema)
    } else {
        None
    }
}

impl Command {
    /// The byte that the command is sent as.
    pub fn as_byte(&self) -> (b: u8)
        ensures
            b == command_byte(*self),
    {
        match self {
            Command::Message => 0x12,
            Command::SubscriptionMessage => 0x13,
            Command::Subscription => 0x02,
            Command::MessageAck => 0x03,
            Command::MessageNack => 0x04,
            Command::Schema => 0x08,
            Command::SchemaOffer => 0x09,
            Command::SchemaNeeded => 0x10,
            Command::NoSchema => 0x11,
        }
    }

    /// The command that `byte` stands for, or an error for a byte that stands
    /// for none.
    pub fn try_from(byte: u8) -> (command: Result<Command, &'static str>)
        ensures
            match command_of_byte(byte) {
                Some(c) => command == Ok::<Command, &'static str>(c),
                None => command is Err && command->Err_0@
                    == "Cannot convert u8 to Command: byte not valid"@,
            },
    {
        match byte {
            0x12 => Ok(Command::Message),
            0x13 => Ok(Command::SubscriptionMessage),
            0x02 => Ok(Command::Subscription),
            0x03 => Ok(Command::MessageAck),
            0x04 => Ok(Command::MessageNack),
            0x08 => Ok(Command::Schema),
            0x09 => Ok(Command::SchemaOffer),
            0x10 => Ok(Command::SchemaNeeded),
            0x11 => Ok(Command::NoSchema),
            _ => Err("Cannot convert u8 to Command: byte not valid"),
        }
    }
}

/// Every command is read back from its own byte, and a byte that is read as a
/// command is that command's byte.
pub proof fn law_command_byte_roundtrip(c: Command, b: u8)
    ensures
        command_of_byte(command_byte(c)) == Some(c),
        command_of_byte(b) == Some(c) ==> command_byte(c) == b,
{
}

} // verus!
