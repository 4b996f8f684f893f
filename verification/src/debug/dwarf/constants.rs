//! The DWARF numbers that the debugger knows.
use vstd::prelude::*;

verus! {

pub const DW_TAG_ARRAY_TYPE: u16 = 0x01;

pub const DW_TAG_CLASS_TYPE: u16 = 0x02;

pub const DW_TAG_FORMAL_PARAMETER: u16 = 0x05;

/// A legacy alias that older producers write for [`DW_TAG_VARIABLE`].
pub const DW_TAG_LOCAL_VARIABLE: u16 = 0x0c;

pub const DW_TAG_MEMBER: u16 = 0x0d;

pub const DW_TAG_POINTER_TYPE: u16 = 0x0f;

pub const DW_TAG_REFERENCE_TYPE: u16 = 0x10;

pub const DW_TAG_STRUCTURE_TYPE: u16 = 0x13;

pub const DW_TAG_TYPEDEF: u16 = 0x16;

pub const DW_TAG_UNION_TYPE: u16 = 0x17;

pub const DW_TAG_MODULE: u16 = 0x1e;

pub const DW_TAG_SUBRANGE_TYPE: u16 = 0x21;

pub const DW_TAG_BASE_TYPE: u16 = 0x24;

pub const DW_TAG_CONST_TYPE: u16 = 0x26;

pub const DW_TAG_SUBPROGRAM: u16 = 0x2e;

pub const DW_TAG_VARIABLE: u16 = 0x34;

pub const DW_TAG_VOLATILE_TYPE: u16 = 0x35;

pub const DW_TAG_RESTRICT_TYPE: u16 = 0x37;

pub const DW_TAG_NAMESPACE: u16 = 0x39;

pub const DW_TAG_RVALUE_REFERENCE_TYPE: u16 = 0x42;

pub const DW_TAG_ATOMIC_TYPE: u16 = 0x47;

pub const DW_AT_LOCATION: u16 = 0x02;

pub const DW_AT_NAME: u16 = 0x03;

pub const DW_AT_BYTE_SIZE: u16 = 0x0b;

pub const DW_AT_LOW_PC: u16 = 0x11;

pub const DW_AT_HIGH_PC: u16 = 0x12;

pub const DW_AT_LOWER_BOUND: u16 = 0x22;

pub const DW_AT_UPPER_BOUND: u16 = 0x2f;

pub const DW_AT_COUNT: u16 = 0x37;

pub const DW_AT_DATA_MEMBER_LOCATION: u16 = 0x38;

pub const DW_AT_ENCODING: u16 = 0x3e;

pub const DW_AT_FRAME_BASE: u16 = 0x40;

pub const DW_AT_TYPE: u16 = 0x49;

pub const DW_AT_EXPORT_SYMBOLS: u16 = 0x89;

pub const DW_ATE_BOOLEAN: u8 = 0x02;

pub const DW_ATE_FLOAT: u8 = 0x04;

pub const DW_ATE_SIGNED: u8 = 0x05;

pub const DW_ATE_SIGNED_CHAR: u8 = 0x06;

pub const DW_ATE_UNSIGNED: u8 = 0x07;

pub const DW_ATE_UNSIGNED_CHAR: u8 = 0x08;

pub const DW_ATE_UTF: u8 = 0x10;

pub const DW_ATE_ASCII: u8 = 0x12;

} // verus!
