pub mod asmout;
pub mod binary;
pub mod bytesizes;
pub mod compile;
pub mod error;
pub mod fixerupper;
pub mod msg;
pub mod opcodes;
pub mod plan;
pub mod report;
pub mod sizer;
pub mod writers;
