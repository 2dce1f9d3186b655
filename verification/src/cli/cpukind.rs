//! The CPU a project is assembled for.
use vstd::prelude::*;

verus! {

/// The CPU a project is assembled for.
#[derive(Debug, PartialEq, Eq, Structural, Clone, Copy)]
pub enum CpuKind {
    Cpu6809,
    Cpu6800,
    Cpu6502,
    Cpu65c02,
    CpuZ80,
}

impl Default for CpuKind {
    fn default() -> (res: CpuKind)
        ensures
            res == CpuKind::Cpu6809,
    {
        CpuKind::Cpu6809
    }
}

/// The code of `c` with ASCII capitals taken to small letters.
pub open spec fn lower_code(c: char) -> u32 {
    if 'A' <= c && c <= 'Z' {
        (c as u32 + 32) as u32
    } else {
        c as u32
    }
}

/// `s` equals the lower-case name `name` when its ASCII capitals are taken
/// to small letters.
pub open spec fn same_name(s: Seq<char>, name: Seq<char>) -> bool {
    &&& s.len() == name.len()
    &&& forall|i: int| 0 <= i < s.len() ==> lower_code(#[trigger] s[i]) == name[i] as u32
}

/// The CPU that a name given in a configuration stands for, if any. The
/// 6502 names select the 6809, for which alone a backend exists.
pub open spec fn cpu_named(s: Seq<char>) -> Option<CpuKind> {
    if same_name(s, seq!['6', '8', '0', '0']) {
        Some(CpuKind::Cpu6800)
    } else if same_name(s, seq!['6', '5', '0', '2']) {
        Some(CpuKind::Cpu6809)
    } else if same_name(s, seq!['6', '5', 'c', '0', '2']) {
        Some(CpuKind::Cpu6809)
    } else if same_name(s, seq!['z', '8', '0']) {
        Some(CpuKind::CpuZ80)
    } else if same_name(s, seq!['6', '8', '0', '9']) {
        Some(CpuKind::Cpu6809)
    } else {
        None
    }
}

/// Whether `input` is `name` up to the case of ASCII letters.
pub fn matches_name(input: &str, name: &str) -> (res: bool)
    ensures
        res == same_name(input@, name@),
{
    let n = input.unicode_len();
    if n != name.unicode_len() {
        return false;
    }
    let mut i: usize = 0;
    while i < n
        invariant
            n == input@.len(),
            n == name@.len(),
            i <= n,
            forall|j: int| 0 <= j < i ==> lower_code(#[trigger] input@[j]) == name@[j] as u32,
        decreases n - i,
    {
        let c = input.get_char(i);
        let code: u32 = if 'A' <= c && c <= 'Z' {
            c as u32 + 32
        } else {
            c as u32
        };
        if code != name.get_char(i) as u32 {
            return false;
        }
        i = i + 1;
    }
    true
}

impl CpuKind {
    /// The CPU named by `input`, up to the case of ASCII letters: "6800",
    /// "6809", "z80", and "6502" or "65c02", which select the 6809. Any
    /// other name is not accepted.
    pub fn try_from(input: &str) -> (res: Result<CpuKind, ()>)
        requires
            cpu_named(input@) is Some,
        ensures
            res == Ok::<CpuKind, ()>(cpu_named(input@)->0),
    {
        proof {
            reveal_strlit("6800");
            reveal_strlit("6502");
            reveal_strlit("65c02");
            reveal_strlit("z80");
            reveal_strlit("6809");
        }
        if matches_name(input, "6800") {
            assert("6800"@ =~= seq!['6', '8', '0', '0']);
            Ok(CpuKind::Cpu6800)
        } else if matches_name(input, "6502") {
            assert("6800"@ =~= seq!['6', '8', '0', '0']);
            assert("6502"@ =~= seq!['6', '5', '0', '2']);
            Ok(CpuKind::Cpu6809)
        } else if matches_name(input, "65c02") {
            assert("6800"@ =~= seq!['6', '8', '0', '0']);
            assert("6502"@ =~= seq!['6', '5', '0', '2']);
            assert("65c02"@ =~= seq!['6', '5', 'c', '0', '2']);
            Ok(CpuKind::Cpu6809)
        } else if matches_name(input, "z80") {
            assert("6800"@ =~= seq!['6', '8', '0', '0']);
            assert("6502"@ =~= seq!['6', '5', '0', '2']);
            assert("65c02"@ =~= seq!['6', '5', 'c', '0', '2']);
            assert("z80"@ =~= seq!['z', '8', '0']);
            Ok(CpuKind::CpuZ80)
        } else {
            assert("6800"@ =~= seq!['6', '8', '0', '0']);
            assert("6502"@ =~= seq!['6', '5', '0', '2']);
            assert("65c02"@ =~= seq!['6', '5', 'c', '0', '2']);
            assert("z80"@ =~= seq!['z', '8', '0']);
            Ok(CpuKind::Cpu6809)
        }
    }
}

} // verus!
