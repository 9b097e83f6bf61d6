use crate::errors::ParseError;
use vstd::prelude::*;

verus! {

/// How a client wants its replies: readable text, or the binary protocol.
#[derive(Debug, Clone, Copy, PartialEq, Eq, Structural)]
pub enum Mode {
    Readable,
    Machine,
}

/// Whether a text is `b` in either case, the only text whose lowercase form
/// is `b`.
pub open spec fn names_machine(value: Seq<char>) -> bool {
    value == "b"@ || value == "B"@
}

impl Mode {
    /// The mode that a client names: `b`, in either case, asks for the binary
    /// protocol; any other text for readable replies.
    pub fn parse(value: String) -> (mode: Result<Mode, ParseError>)
        ensures
            mode == if names_machine(value@) {
                Ok::<Mode, ParseError>(Mode::Machine)
            } else {
                Ok(Mode::Readable)
            },
    {
        proof {
            reveal_strlit("b");
            reveal_strlit("B");
        }
        let text = value.as_str();
        if text.unicode_len() == 1 {
            let c = text.get_char(0);
            if c == 'b' || c == 'B' {
                assert(value@ =~= "b"@ || value@ =~= "B"@);
                return Ok(Mode::Machine);
            }
        }
        assert(!names_machine(value@));
        Ok(Mode::Readable)
    }
}

} // verus!
