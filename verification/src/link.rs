//! The serial command/data link, modelled as explicit bus operations.
//!
//! A command transfer drives the mode-select line low before clocking the
//! bytes out; a data transfer drives it high.  The driver never performs
//! the transfers itself: it appends [`BusOp`] values to a trace, and the
//! host shell performs each one on the physical bus in order.

use vstd::prelude::*;

verus! {

/// One operation on the bus or on the reset line.
#[derive(Clone, Debug, PartialEq, Eq)]
pub enum BusOp {
    /// Drive the controller reset line low.
    ResetLow,
    /// Drive the controller reset line high.
    ResetHigh,
    /// Hold the current line states for at least this many microseconds.
    DelayUs(u32),
    /// Mode-select low, then clock out the opcode byte and the parameters.
    Command(u8, Vec<u8>),
    /// Mode-select high, then clock out the bytes.
    Data(Vec<u8>),
}

/// The mathematical value of one bus operation.
#[verifier::ext_equal]
pub enum OpModel {
    ResetLow,
    ResetHigh,
    DelayUs(u32),
    Command(u8, Seq<u8>),
    Data(Seq<u8>),
}

impl View for BusOp {
    type V = OpModel;

    open spec fn view(&self) -> OpModel {
        match self {
            BusOp::ResetLow => OpModel::ResetLow,
            BusOp::ResetHigh => OpModel::ResetHigh,
            BusOp::DelayUs(us) => OpModel::DelayUs(*us),
            BusOp::Command(opcode, params) => OpModel::Command(*opcode, params@),
            BusOp::Data(bytes) => OpModel::Data(bytes@),
        }
    }
}

/// Set-column-address opcode: parameters are the first and last column.
pub const CMD_SET_COLUMN: u8 = 0x15;

/// Set-row-address opcode: parameters are the first and last row.
pub const CMD_SET_ROW: u8 = 0x75;

/// Write-RAM opcode: subsequent data fills the addressing window.
pub const CMD_WRITE_RAM: u8 = 0x5C;

} // verus!
