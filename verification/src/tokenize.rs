use vstd::prelude::*;

verus! {

/// A numeric literal with the type its suffix or default gives it. Floating
/// literals are carried as their IEEE-754 bit patterns.
#[derive(Clone, Copy, Debug, PartialEq, Eq)]
pub enum NumberKind {
    I8(i8),
    I16(i16),
    I32(i32),
    I64(i64),
    ISize(isize),
    U8(u8),
    U16(u16),
    U32(u32),
    U64(u64),
    USize(usize),
    F32Bits(u32),
    F64Bits(u64),
}

} // verus!
