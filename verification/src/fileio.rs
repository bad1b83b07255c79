use vstd::prelude::*;

verus! {

/// Why writing a buffer at an offset stopped.
#[derive(Clone, Copy, Debug, PartialEq, Eq, Structural)]
pub enum WriteError {
    /// A positional write reported zero bytes written.
    ZeroWrite,
}

/// One step of writing a whole buffer with positional writes: after a write of
/// `written` bytes at `offset` with `remaining` bytes still to write, the next
/// write goes `written` bytes further with that many fewer bytes left; a write
/// of zero bytes is an error.
pub fn advance_write(offset: u64, remaining: usize, written: usize) -> (next: Result<(u64, usize), WriteError>)
    requires
        written <= remaining,
        offset + written <= u64::MAX,
    ensures
        written == 0 ==> next == Err::<(u64, usize), WriteError>(WriteError::ZeroWrite),
        written > 0 ==> next == Ok::<(u64, usize), WriteError>(((offset + written) as u64, (remaining - written) as usize)),
{
    if written == 0 {
        return Err(WriteError::ZeroWrite);
    }
    Ok((offset + written as u64, remaining - written))
}

} // verus!
