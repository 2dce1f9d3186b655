//! The 6809 backend.
use vstd::prelude::*;

verus! {

/// The 6809 backend, with the direct page it was last told of.
#[derive(PartialEq, Eq, Debug, Clone, Copy)]
pub struct Asm6809 {
    dp: Option<u8>,
}

impl Asm6809 {
    /// The direct page this backend holds.
    pub closed spec fn spec_dp(self) -> Option<u8> {
        self.dp
    }

    /// A backend with no direct page.
    pub fn new() -> (res: Asm6809)
        ensures
            res.spec_dp() is None,
    {
        Asm6809 { dp: None }
    }

    /// The name of the CPU.
    pub fn get_cpu_name(&self) -> (res: &'static str)
        ensures
            res@ == "6809"@,
    {
        "6809"
    }
}

impl Default for Asm6809 {
    fn default() -> (res: Asm6809)
        ensures
            res.spec_dp() is None,
    {
        Asm6809::new()
    }
}

/// The 6809 assembler backend as the compiler drives it: like [`Asm6809`], it
/// starts with no direct page.
#[derive(PartialEq, Eq, Debug, Clone, Copy)]
pub struct Assembler6809 {
    dp: Option<u8>,
}

impl Assembler6809 {
    /// The direct page this backend holds.
    pub closed spec fn spec_dp(self) -> Option<u8> {
        self.dp
    }

    /// A backend with no direct page.
    pub fn new() -> (res: Assembler6809)
        ensures
            res.spec_dp() is None,
    {
        Assembler6809 { dp: None }
    }
}

impl Default for Assembler6809 {
    fn default() -> (res: Assembler6809)
        ensures
            res.spec_dp() is None,
    {
        Assembler6809::new()
    }
}

} // verus!
