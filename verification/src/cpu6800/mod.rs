pub mod assembler6800;
pub mod compiler;
pub mod frontend;
pub mod isa;
pub mod sizer;
