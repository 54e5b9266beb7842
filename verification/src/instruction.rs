//! Dispatch of the program's instructions by their tag byte.
use crate::layout::STORAGE_SIZE;
use crate::adapt::AFTER_SWAP_HEADER_LEN;
use vstd::prelude::*;

verus! {

/// What an instruction asks of the program.
#[derive(PartialEq, Eq, Structural, Clone, Copy, Debug)]
pub enum Instruction {
    /// Tags 0 and 1: quote a swap (the tag is the side).
    Quote,
    /// Tag 2: adapt the state after a trade.
    AfterSwap,
    /// Tag 3: return the strategy's name.
    Name,
    /// Tag 4: return the model that helped design it.
    ModelUsed,
    /// An empty instruction or any other tag: nothing to do.
    Ignored,
}

/// The instruction that `data` holds, by its first byte.
pub open spec fn instruction_of(data: Seq<u8>) -> Instruction {
    if data.len() == 0 {
        Instruction::Ignored
    } else if data[0] == 0 || data[0] == 1 {
        Instruction::Quote
    } else if data[0] == 2 {
        Instruction::AfterSwap
    } else if data[0] == 3 {
        Instruction::Name
    } else if data[0] == 4 {
        Instruction::ModelUsed
    } else {
        Instruction::Ignored
    }
}

/// Reads the instruction's tag.
pub fn decode_instruction(data: &[u8]) -> (r: Instruction)
    ensures
        r == instruction_of(data@),
{
    if data.is_empty() {
        return Instruction::Ignored;
    }
    match data[0] {
        0 | 1 => Instruction::Quote,
        2 => Instruction::AfterSwap,
        3 => Instruction::Name,
        4 => Instruction::ModelUsed,
        _ => Instruction::Ignored,
    }
}

/// The storage that a trade report carries after its header: a copy of its
/// `STORAGE_SIZE` bytes, or `None` for a report too short to carry all of them.
pub fn report_storage(data: &[u8]) -> (r: Option<Vec<u8>>)
    ensures
        r is Some <==> data@.len() >= AFTER_SWAP_HEADER_LEN + STORAGE_SIZE,
        r matches Some(buf) ==> buf@ == data@.subrange(
            AFTER_SWAP_HEADER_LEN as int,
            AFTER_SWAP_HEADER_LEN + STORAGE_SIZE,
        ),
{
    if data.len() < AFTER_SWAP_HEADER_LEN + STORAGE_SIZE {
        return None;
    }
    let mut buf: Vec<u8> = Vec::with_capacity(STORAGE_SIZE);
    let mut i: usize = 0;
    while i < STORAGE_SIZE
        invariant
            i <= STORAGE_SIZE,
            data@.len() >= AFTER_SWAP_HEADER_LEN + STORAGE_SIZE,
            buf@ == data@.subrange(AFTER_SWAP_HEADER_LEN as int, AFTER_SWAP_HEADER_LEN + i),
        decreases STORAGE_SIZE - i,
    {
        buf.push(data[AFTER_SWAP_HEADER_LEN + i]);
        i += 1;
        assert(buf@ =~= data@.subrange(AFTER_SWAP_HEADER_LEN as int, AFTER_SWAP_HEADER_LEN + i));
    }
    Some(buf)
}

} // verus!
