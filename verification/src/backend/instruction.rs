use vstd::prelude::*;

verus! {

/// A 16-bit instruction word, read big-endian from memory.
///
/// The nibble fields are, from the most significant end: the operator
/// code, the `x` register operand, the `y` register operand and the
/// immediate `n`; `nn` is the low byte and `nnn` the low 12 bits.
#[derive(Clone, Copy, Debug, PartialEq, Eq, Structural)]
pub struct Instruction(pub u16);

/// The word formed by two bytes in big-endian order.
pub open spec fn word_of(hi: u8, lo: u8) -> u16 {
    (hi * 256 + lo) as u16
}

/// Operator code: the top nibble of the word.
pub open spec fn op_of(w: u16) -> int {
    w as int / 4096
}

/// The `x` register operand: the second nibble.
pub open spec fn x_of(w: u16) -> int {
    (w as int / 256) % 16
}

/// The `y` register operand: the third nibble.
pub open spec fn y_of(w: u16) -> int {
    (w as int / 16) % 16
}

/// The immediate nibble `n`: the bottom nibble.
pub open spec fn n_of(w: u16) -> int {
    w as int % 16
}

/// The immediate byte `nn`: the low byte.
pub open spec fn nn_of(w: u16) -> int {
    w as int % 256
}

/// The address operand `nnn`: the low 12 bits.
pub open spec fn nnn_of(w: u16) -> int {
    w as int % 4096
}

impl Instruction {
    pub fn new(be_bytes: [u8; 2]) -> (r: Self)
        ensures
            r.0 == word_of(be_bytes[0], be_bytes[1]),
    {
        Self((be_bytes[0] as u16) * 256 + (be_bytes[1] as u16))
    }

    pub fn operator_code(&self) -> (r: u8)
        ensures
            r == op_of(self.0),
    {
        (self.0 / 4096) as u8
    }

    pub fn operand_n(&self) -> (r: u8)
        ensures
            r == n_of(self.0),
    {
        (self.0 % 16) as u8
    }

    pub fn operand_nn(&self) -> (r: u8)
        ensures
            r == nn_of(self.0),
    {
        (self.0 % 256) as u8
    }

    pub fn operand_nnn(&self) -> (r: usize)
        ensures
            r == nnn_of(self.0),
    {
        (self.0 % 4096) as usize
    }

    pub fn operand_x(&self) -> (r: usize)
        ensures
            r == x_of(self.0),
    {
        ((self.0 / 256) % 16) as usize
    }

    pub fn operand_y(&self) -> (r: usize)
        ensures
            r == y_of(self.0),
    {
        ((self.0 / 16) % 16) as usize
    }
}

} // verus!
