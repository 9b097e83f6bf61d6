use crate::errors::ParseError;
use vstd::prelude::*;

verus! {

/// What a schema command does.
#[derive(Debug, Clone, Copy, PartialEq, Eq, Structural)]
pub enum SchemaOperation {
    Add,
    Update,
}

/// What a line of the text protocol asks for.
#[derive(Debug, Clone, Copy, PartialEq, Eq, Structural)]
pub enum Operation {
    Subscribe,
    Publish,
    Schema(SchemaOperation),
    Close,
}

/// A line of text sent by a client.
pub struct Message<'a> {
    content: &'a str,
}

/// Whether `block` begins with `prefix`.
pub open spec fn starts_with(block: Seq<char>, prefix: Seq<char>) -> bool {
    block.len() >= prefix.len() && block.subrange(0, prefix.len() as int) == prefix
}

/// The operation that a line names by its first words, tried in this order,
/// with the length of those words.
pub open spec fn named_operation(block: Seq<char>) -> Option<(Operation, nat)> {
    if starts_with(block, "subscribe"@) {
        Some((Operation::Subscribe, "subscribe"@.len()))
    } else if starts_with(block, "publish"@) {
        Some((Operation::Publish, "publish"@.len()))
    } else if starts_with(block, "exit"@) {
        Some((Operation::Close, "exit"@.len()))
    } else if starts_with(block, "schema add"@) {
        Some((Operation::Schema(SchemaOperation::Add), "schema add"@.len()))
    } else {
        None
    }
}

/// Whether reading `block` completes: after the words that name an
/// operation there is one more character, a one-byte one, which is skipped.
pub open spec fn parse_defined(block: Seq<char>) -> bool {
    match named_operation(block) {
        Some((_, n)) => n < block.len() && (block[n as int] as u32) < 0x80,
        None => true,
    }
}

/// Whether `block` begins with `prefix`, compared character by character.
fn begins_with(block: &str, prefix: &str) -> (b: bool)
    ensures
        b == starts_with(block@, prefix@),
{
    let n = prefix.unicode_len();
    if block.unicode_len() < n {
        return false;
    }
    let mut i: usize = 0;
    while i < n
        invariant
            i <= n == prefix@.len() <= block@.len(),
            forall|j: int| 0 <= j < i ==> block@[j] == prefix@[j],
        decreases n - i,
    {
        if block.get_char(i) != prefix.get_char(i) {
            assert(block@.subrange(0, n as int)[i as int] != prefix@[i as int]);
            return false;
        }
        i = i + 1;
    }
    assert(block@.subrange(0, n as int) =~= prefix@);
    true
}

impl Operation {
    /// Reads the operation that a line begins with, and the rest of the line
    /// after the one character that follows the operation's words; a line that
    /// names no operation is refused.
    pub fn parse(block: String) -> (parsed: Result<(Operation, String), ParseError>)
        requires
            parse_defined(block@),
        ensures
            match named_operation(block@) {
                Some((op, n)) => parsed is Ok && parsed->Ok_0.0 == op && parsed->Ok_0.1@
                    == block@.subrange(n + 1int, block@.len() as int),
                None => parsed is Err,
            },
    {
        proof {
            reveal_strlit("subscribe");
            reveal_strlit("publish");
            reveal_strlit("exit");
            reveal_strlit("schema add");
        }
        let text = block.as_str();
        let len = text.unicode_len();
        let (operation, n) = if begins_with(text, "subscribe") {
            (Operation::Subscribe, 9usize)
        } else if begins_with(text, "publish") {
            (Operation::Publish, 7usize)
        } else if begins_with(text, "exit") {
            (Operation::Close, 4usize)
        } else if begins_with(text, "schema add") {
            (Operation::Schema(SchemaOperation::Add), 10usize)
        } else {
            return Err(ParseError);
        };
        let rest = text.substring_char(n + 1, len);
        Ok((operation, rest.to_owned()))
    }
}

} // verus!
