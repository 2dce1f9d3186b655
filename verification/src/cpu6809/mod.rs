pub mod assembler6809;
pub mod compile;
pub mod frontend;
pub mod isa;
pub mod nodekind;
pub mod regutils;
pub mod sizer;
