//! Decoding of a 16-bit instruction word into its fields.

use vstd::prelude::*;

verus! {

/// A 4-bit quantity, carried in the smallest unsigned type available.
pub type U4 = u8;

/// A 12-bit quantity, carried in the smallest unsigned type available.
pub type U12 = u16;

/// The decoded view of a 16-bit big-endian instruction word: the opcode
/// nibble, the two register nibbles `x` and `y`, the literal nibble `n`,
/// the byte literal `nn` and the 12-bit literal `nnn`.
#[derive(Debug, Clone, Copy, PartialEq, Eq, Structural)]
pub struct Instruction {
    pub opcode: U4,
    pub x: U4,
    pub y: U4,
    pub n: U4,
    pub nn: u8,
    pub nnn: U12,
}

/// What decoding two bytes yields: fixed-width nibble and byte slices of
/// the instruction word.
pub open spec fn parse_spec(first: u8, second: u8) -> Instruction {
    Instruction {
        opcode: (first >> 4) & 0xF,
        x: first & 0xF,
        y: (second >> 4) & 0xF,
        n: second & 0xF,
        nn: second,
        nnn: ((first & 0xF) as u16) << 8 | second as u16,
    }
}

/// Every decoded field stays inside its documented range: nibbles below 16
/// and the 12-bit literal below 4096.
pub proof fn lemma_parse_spec_bounds(first: u8, second: u8)
    ensures
        parse_spec(first, second).opcode < 16,
        parse_spec(first, second).x < 16,
        parse_spec(first, second).y < 16,
        parse_spec(first, second).n < 16,
        parse_spec(first, second).nnn < 4096,
{
    assert((first >> 4) & 0xF < 16) by (bit_vector);
    assert(first & 0xF < 16) by (bit_vector);
    assert((second >> 4) & 0xF < 16) by (bit_vector);
    assert(second & 0xF < 16) by (bit_vector);
    assert((((first & 0xF) as u16) << 8 | second as u16) < 4096) by (bit_vector);
}

impl Instruction {
    /// Decodes an instruction from its two bytes. Total and deterministic:
    /// every input yields the decoded fields of `parse_spec`; whether the
    /// combination is a defined instruction is the dispatcher's concern.
    pub fn parse(first: u8, second: u8) -> (r: Self)
        ensures
            r == parse_spec(first, second),
            r.opcode < 16,
            r.x < 16,
            r.y < 16,
            r.n < 16,
            r.nnn < 4096,
    {
        proof {
            lemma_parse_spec_bounds(first, second);
        }
        Instruction {
            opcode: (first >> 4) & 0xF,
            x: first & 0xF,
            y: (second >> 4) & 0xF,
            n: second & 0xF,
            nn: second,
            nnn: ((first & 0xF) as u16) << 8 | second as u16,
        }
    }
}

} // verus!
