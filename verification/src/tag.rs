//! The configuration tag: one byte that tells what a value is and how its
//! block is laid out.
//!
//! The six high bits name the kind (three bits of size class, three bits of
//! kind within the class); the two low bits are the escape flags. A block is
//! the fixed header, then the self type id if the self-typed flag is set, then
//! the predicate type id if the predicate-typed flag is set, then the payload.

use vstd::prelude::*;

verus! {

/// Length of the fixed header that starts every block.
pub const HEAD_LEN: usize = 8;

/// Length of a stored symbol or type id.
pub const SYMBOL_LEN: usize = 4;

/// Length of a stored handle.
pub const PTR_LEN: usize = 8;

/// Flag bit: the value carries its own type id.
pub const FLAG_SELF: u8 = 1;

/// Flag bit: the value carries the id of a predicate (parent) type.
pub const FLAG_PRED: u8 = 2;

/// The built-in kinds of value.
#[derive(Debug, Clone, Copy, PartialEq, Eq, Structural)]
pub enum CoreType {
    Nil,
    Bool,
    U8,
    I8,
    U16,
    I16,
    ErrCode,
    U32,
    I32,
    F32,
    Symbol,
    U64,
    I64,
    F64,
    Ref,
    U128,
    I128,
    VecStd,
    VecStr,
    VecHash,
    VecAny,
    ProcLambda,
    ProcNative,
    QueueTx,
    QueueRx,
}

pub const TAG_NIL: u8 = 0;
pub const TAG_BOOL_F: u8 = 4;
pub const TAG_BOOL_T: u8 = 8;
pub const TAG_U8: u8 = 32;
pub const TAG_I8: u8 = 36;
pub const TAG_U16: u8 = 64;
pub const TAG_I16: u8 = 68;
pub const TAG_ERR: u8 = 72;
pub const TAG_U32: u8 = 96;
pub const TAG_I32: u8 = 100;
pub const TAG_F32: u8 = 104;
pub const TAG_SYM: u8 = 108;
pub const TAG_U64: u8 = 128;
pub const TAG_I64: u8 = 132;
pub const TAG_F64: u8 = 136;
pub const TAG_PTR: u8 = 140;
pub const TAG_U128: u8 = 160;
pub const TAG_I128: u8 = 164;
pub const TAG_VEC_STD: u8 = 192;
pub const TAG_VEC_STR: u8 = 196;
pub const TAG_VEC_HASH: u8 = 200;
pub const TAG_VEC_ANY: u8 = 204;
pub const TAG_PROC_LAMBDA: u8 = 224;
pub const TAG_PROC_NATIVE: u8 = 228;
pub const TAG_QUEUE_TX: u8 = 232;
pub const TAG_QUEUE_RX: u8 = 236;

/// Whether the tag has the self-typed flag.
pub open spec fn spec_self_type_p(tag: u8) -> bool {
    tag % 2 == 1
}

/// Whether the tag has the predicate-typed flag.
pub open spec fn spec_pred_type_p(tag: u8) -> bool {
    (tag / 2) % 2 == 1
}

/// The built-in kind that the six high bits of the tag name, if any.
pub open spec fn spec_core_type(tag: u8) -> Option<CoreType> {
    let class = tag / 32;
    let kind = (tag / 4) % 8;
    if class == 0 {
        if kind == 0 {
            Some(CoreType::Nil)
        } else if kind == 1 || kind == 2 {
            Some(CoreType::Bool)
        } else {
            None
        }
    } else if class == 1 {
        if kind == 0 {
            Some(CoreType::U8)
        } else if kind == 1 {
            Some(CoreType::I8)
        } else {
            None
        }
    } else if class == 2 {
        if kind == 0 {
            Some(CoreType::U16)
        } else if kind == 1 {
            Some(CoreType::I16)
        } else if kind == 2 {
            Some(CoreType::ErrCode)
        } else {
            None
        }
    } else if class == 3 {
        if kind == 0 {
            Some(CoreType::U32)
        } else if kind == 1 {
            Some(CoreType::I32)
        } else if kind == 2 {
            Some(CoreType::F32)
        } else if kind == 3 {
            Some(CoreType::Symbol)
        } else {
            None
        }
    } else if class == 4 {
        if kind == 0 {
            Some(CoreType::U64)
        } else if kind == 1 {
            Some(CoreType::I64)
        } else if kind == 2 {
            Some(CoreType::F64)
        } else if kind == 3 {
            Some(CoreType::Ref)
        } else {
            None
        }
    } else if class == 5 {
        if kind == 0 {
            Some(CoreType::U128)
        } else if kind == 1 {
            Some(CoreType::I128)
        } else {
            None
        }
    } else if class == 6 {
        if kind == 0 {
            Some(CoreType::VecStd)
        } else if kind == 1 {
            Some(CoreType::VecStr)
        } else if kind == 2 {
            Some(CoreType::VecHash)
        } else if kind == 3 {
            Some(CoreType::VecAny)
        } else {
            None
        }
    } else {
        if kind == 0 {
            Some(CoreType::ProcLambda)
        } else if kind == 1 {
            Some(CoreType::ProcNative)
        } else if kind == 2 {
            Some(CoreType::QueueTx)
        } else if kind == 3 {
            Some(CoreType::QueueRx)
        } else {
            None
        }
    }
}

/// The number of payload bytes that the size class of the tag fixes; `None`
/// for vectors, procedures and queue ends, whose length is given when the
/// block is made.
pub open spec fn spec_base_size(tag: u8) -> Option<usize> {
    let class = tag / 32;
    if class == 0 {
        Some(0usize)
    } else if class == 1 {
        Some(1usize)
    } else if class == 2 {
        Some(2usize)
    } else if class == 3 {
        Some(4usize)
    } else if class == 4 {
        Some(8usize)
    } else if class == 5 {
        Some(16usize)
    } else {
        None
    }
}

/// Offset of the predicate type id in a block with this tag.
pub open spec fn spec_pred_type_offset(tag: u8) -> usize {
    if spec_self_type_p(tag) {
        12
    } else {
        8
    }
}

/// Offset of the payload in a block with this tag.
pub open spec fn spec_payload_offset(tag: u8) -> usize {
    (8 + (if spec_self_type_p(tag) { 4int } else { 0 }) + (if spec_pred_type_p(tag) { 4int } else { 0 })) as usize
}

/// The symbol id of the type of a built-in kind.
pub open spec fn spec_type_id(t: CoreType) -> u32 {
    match t {
        CoreType::Nil => 0xC000_0001,
        CoreType::Bool => 0xC000_0002,
        CoreType::U8 => 0xC000_0003,
        CoreType::I8 => 0xC000_0004,
        CoreType::U16 => 0xC000_0005,
        CoreType::I16 => 0xC000_0006,
        CoreType::U32 => 0xC000_0007,
        CoreType::I32 => 0xC000_0008,
        CoreType::U64 => 0xC000_0009,
        CoreType::I64 => 0xC000_000A,
        CoreType::U128 => 0xC000_000B,
        CoreType::I128 => 0xC000_000C,
        CoreType::F32 => 0xC000_000D,
        CoreType::F64 => 0xC000_000E,
        CoreType::Symbol => 0xC000_000F,
        CoreType::Ref => 0xC000_0010,
        CoreType::VecStd => 0xC000_0012,
        CoreType::VecStr => 0xC000_0013,
        CoreType::VecHash => 0xC000_0014,
        CoreType::VecAny => 0xC000_0015,
        CoreType::ProcLambda => 0xC000_001A,
        CoreType::ProcNative => 0xC000_001B,
        CoreType::ErrCode => 0xC000_001C,
        CoreType::QueueTx => 0xC000_001D,
        CoreType::QueueRx => 0xC000_001E,
    }
}

/// Whether the tag has the self-typed flag.
pub fn self_type_p(tag: u8) -> (r: bool)
    ensures
        r == spec_self_type_p(tag),
{
    tag % 2 == 1
}

/// Whether the tag has the predicate-typed flag.
pub fn pred_type_p(tag: u8) -> (r: bool)
    ensures
        r == spec_pred_type_p(tag),
{
    (tag / 2) % 2 == 1
}

/// The built-in kind of a tag; `None` for an extended type.
pub fn core_type_of(tag: u8) -> (r: Option<CoreType>)
    ensures
        r == spec_core_type(tag),
{
    let class: u8 = tag / 32;
    let kind: u8 = (tag / 4) % 8;
    if class == 0 {
        if kind == 0 {
            Some(CoreType::Nil)
        } else if kind == 1 || kind == 2 {
            Some(CoreType::Bool)
        } else {
            None
        }
    } else if class == 1 {
        if kind == 0 {
            Some(CoreType::U8)
        } else if kind == 1 {
            Some(CoreType::I8)
        } else {
            None
        }
    } else if class == 2 {
        if kind == 0 {
            Some(CoreType::U16)
        } else if kind == 1 {
            Some(CoreType::I16)
        } else if kind == 2 {
            Some(CoreType::ErrCode)
        } else {
            None
        }
    } else if class == 3 {
        if kind == 0 {
            Some(CoreType::U32)
        } else if kind == 1 {
            Some(CoreType::I32)
        } else if kind == 2 {
            Some(CoreType::F32)
        } else if kind == 3 {
            Some(CoreType::Symbol)
        } else {
            None
        }
    } else if class == 4 {
        if kind == 0 {
            Some(CoreType::U64)
        } else if kind == 1 {
            Some(CoreType::I64)
        } else if kind == 2 {
            Some(CoreType::F64)
        } else if kind == 3 {
            Some(CoreType::Ref)
        } else {
            None
        }
    } else if class == 5 {
        if kind == 0 {
            Some(CoreType::U128)
        } else if kind == 1 {
            Some(CoreType::I128)
        } else {
            None
        }
    } else if class == 6 {
        if kind == 0 {
            Some(CoreType::VecStd)
        } else if kind == 1 {
            Some(CoreType::VecStr)
        } else if kind == 2 {
            Some(CoreType::VecHash)
        } else if kind == 3 {
            Some(CoreType::VecAny)
        } else {
            None
        }
    } else {
        if kind == 0 {
            Some(CoreType::ProcLambda)
        } else if kind == 1 {
            Some(CoreType::ProcNative)
        } else if kind == 2 {
            Some(CoreType::QueueTx)
        } else if kind == 3 {
            Some(CoreType::QueueRx)
        } else {
            None
        }
    }
}

/// The payload length that the tag fixes, if it fixes one.
pub fn base_size(tag: u8) -> (r: Option<usize>)
    ensures
        r == spec_base_size(tag),
{
    let class: u8 = tag / 32;
    if class == 0 {
        Some(0)
    } else if class == 1 {
        Some(1)
    } else if class == 2 {
        Some(2)
    } else if class == 3 {
        Some(4)
    } else if class == 4 {
        Some(8)
    } else if class == 5 {
        Some(16)
    } else {
        None
    }
}

/// Offset of the predicate type id: past the header, and past the self type
/// id where the tag has one.
pub fn pred_type_offset(tag: u8) -> (r: usize)
    ensures
        r == spec_pred_type_offset(tag),
        r == HEAD_LEN || r == HEAD_LEN + SYMBOL_LEN,
{
    if self_type_p(tag) {
        HEAD_LEN + SYMBOL_LEN
    } else {
        HEAD_LEN
    }
}

/// Offset of the payload: the header length plus the length of each escape
/// field that the tag announces. The tag alone decides it.
pub fn payload_offset(tag: u8) -> (r: usize)
    ensures
        r == spec_payload_offset(tag),
        HEAD_LEN <= r <= HEAD_LEN + 2 * SYMBOL_LEN,
{
    let mut off: usize = HEAD_LEN;
    if self_type_p(tag) {
        off = off + SYMBOL_LEN;
    }
    if pred_type_p(tag) {
        off = off + SYMBOL_LEN;
    }
    off
}

/// The symbol id of the type of a built-in kind.
pub fn type_id(t: CoreType) -> (r: u32)
    ensures
        r == spec_type_id(t),
{
    match t {
        CoreType::Nil => 0xC000_0001,
        CoreType::Bool => 0xC000_0002,
        CoreType::U8 => 0xC000_0003,
        CoreType::I8 => 0xC000_0004,
        CoreType::U16 => 0xC000_0005,
        CoreType::I16 => 0xC000_0006,
        CoreType::U32 => 0xC000_0007,
        CoreType::I32 => 0xC000_0008,
        CoreType::U64 => 0xC000_0009,
        CoreType::I64 => 0xC000_000A,
        CoreType::U128 => 0xC000_000B,
        CoreType::I128 => 0xC000_000C,
        CoreType::F32 => 0xC000_000D,
        CoreType::F64 => 0xC000_000E,
        CoreType::Symbol => 0xC000_000F,
        CoreType::Ref => 0xC000_0010,
        CoreType::VecStd => 0xC000_0012,
        CoreType::VecStr => 0xC000_0013,
        CoreType::VecHash => 0xC000_0014,
        CoreType::VecAny => 0xC000_0015,
        CoreType::ProcLambda => 0xC000_001A,
        CoreType::ProcNative => 0xC000_001B,
        CoreType::ErrCode => 0xC000_001C,
        CoreType::QueueTx => 0xC000_001D,
        CoreType::QueueRx => 0xC000_001E,
    }
}

/// The escape flags never change which kind a tag names, and the kind never
/// changes where the escape fields and the payload lie.
pub proof fn lemma_flags_and_kind_independent(a: u8, b: u8)
    requires
        a / 4 == b / 4,
    ensures
        spec_core_type(a) == spec_core_type(b),
        spec_base_size(a) == spec_base_size(b),
{
}

} // verus!
