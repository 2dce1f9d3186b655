//! The 6800 backend.
use vstd::prelude::*;

verus! {

/// The 6800 backend. It keeps no state: its direct page is always zero.
#[derive(PartialEq, Eq, Debug, Clone, Copy)]
pub struct Asm6800 {}

impl Asm6800 {
    /// The backend.
    pub fn new() -> (res: Asm6800)
        ensures
            res == (Asm6800 {}),
    {
        Asm6800 {  }
    }

    /// The name of the CPU.
    pub fn get_cpu_name(&self) -> (res: &'static str)
        ensures
            res@ == "6800"@,
    {
        "6800"
    }
}

} // verus!
