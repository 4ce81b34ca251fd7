use vstd::prelude::*;

verus! {

/// Byte sent once to every client right after its connection is accepted.
pub const HANDSHAKE: u8 = 42;

/// Byte that opens a message.
pub const START_MARKER: u8 = 94;

/// Byte that closes a message (and a number of the command sub-protocol).
pub const END_MARKER: u8 = 36;

/// Byte that, inside a message, starts the primality command.
pub const PRIME_CMD: u8 = 80;

/// The transformation applied to every data byte of a message.
pub open spec fn transform_spec(b: u8) -> u8 {
    ((b as int + 1) % 256) as u8
}

/// Returns true exactly for the start marker.
pub fn is_start(b: u8) -> (r: bool)
    ensures
        r == (b == START_MARKER),
{
    b == START_MARKER
}

/// Returns true exactly for the end marker.
pub fn is_end(b: u8) -> (r: bool)
    ensures
        r == (b == END_MARKER),
{
    b == END_MARKER
}

/// Returns true exactly for the command byte.
pub fn is_command(b: u8) -> (r: bool)
    ensures
        r == (b == PRIME_CMD),
{
    b == PRIME_CMD
}

/// Adds one to a byte, wrapping 255 round to 0.
pub fn transform(b: u8) -> (r: u8)
    ensures
        r == transform_spec(b),
        r as int == (b as int + 1) % 256,
{
    if b == 255 {
        0
    } else {
        b + 1
    }
}

} // verus!
