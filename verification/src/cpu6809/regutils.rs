//! Register encodings of the 6809: transfer/exchange register numbers and
//! the push/pull register list byte.
use vstd::prelude::*;

verus! {

/// The 6809's registers.
#[derive(Debug, Clone, Copy, PartialEq, Eq, Hash, Structural)]
pub enum RegEnum {
    D,
    X,
    Y,
    U,
    S,
    PC,
    A,
    B,
    CC,
    DP,
}

impl RegEnum {
    /// The register can be the base of an indexed operand (X, Y, U or S).
    pub open spec fn spec_valid_for_index(&self) -> bool {
        self is X || self is Y || self is U || self is S
    }

    /// The register can be an accumulator offset of an indexed operand
    /// (A, B or D).
    pub open spec fn spec_valid_abd(&self) -> bool {
        self is A || self is B || self is D
    }

    /// The register can be the base of an indexed operand (X, Y, U or S).
    #[verifier::when_used_as_spec(spec_valid_for_index)]
    pub fn valid_for_index(&self) -> (res: bool)
        ensures
            res == self.spec_valid_for_index(),
    {
        matches!(self, RegEnum::X | RegEnum::Y | RegEnum::U | RegEnum::S)
    }

    /// The register can be an accumulator offset (A, B or D).
    #[verifier::when_used_as_spec(spec_valid_abd)]
    pub fn valid_abd(&self) -> (res: bool)
        ensures
            res == self.spec_valid_abd(),
    {
        matches!(self, RegEnum::A | RegEnum::B | RegEnum::D)
    }
}

/// The 4-bit register number used by TFR/EXG.
pub open spec fn reg_num(a: RegEnum) -> u8 {
    match a {
        RegEnum::D => 0b0000,
        RegEnum::X => 0b0001,
        RegEnum::Y => 0b0010,
        RegEnum::U => 0b0011,
        RegEnum::S => 0b0100,
        RegEnum::PC => 0b0101,
        RegEnum::A => 0b1000,
        RegEnum::B => 0b1001,
        RegEnum::CC => 0b1010,
        RegEnum::DP => 0b1011,
    }
}

/// The 4-bit register number used by TFR/EXG.
pub fn reg_to_reg_num(a: RegEnum) -> (res: u8)
    ensures
        res == reg_num(a),
        res < 16,
{
    match a {
        RegEnum::D => 0b0000,
        RegEnum::X => 0b0001,
        RegEnum::Y => 0b0010,
        RegEnum::U => 0b0011,
        RegEnum::S => 0b0100,
        RegEnum::PC => 0b0101,
        RegEnum::A => 0b1000,
        RegEnum::B => 0b1001,
        RegEnum::CC => 0b1010,
        RegEnum::DP => 0b1011,
    }
}

/// The TFR/EXG postbyte of a source and a destination register.
pub open spec fn pair_postbyte(source: RegEnum, dest: RegEnum) -> u8 {
    (reg_num(source) * 16 + reg_num(dest)) as u8
}

/// The TFR/EXG postbyte: source number in the high nibble, destination in
/// the low nibble.
pub fn reg_pair_to_flags(source: RegEnum, dest: RegEnum) -> (res: u8)
    ensures
        res == pair_postbyte(source, dest),
        res == reg_num(source) * 16 + reg_num(dest),
{
    let a = reg_to_reg_num(source);
    let b = reg_to_reg_num(dest);
    assert(a < 16 && b < 16 ==> (a << 4) | b == a * 16 + b) by (bit_vector);
    (a << 4) | b
}

/// `v` when `b` holds, otherwise 0.
pub open spec fn bit_if(b: bool, v: u8) -> u8 {
    if b {
        v
    } else {
        0
    }
}

/// The PSHS/PULS register list byte of a register set: one bit per
/// register, `D` setting the bits of `A` and `B`, and `U`/`S` sharing one
/// bit.
pub open spec fn register_set_flags(regs: Seq<RegEnum>) -> u8 {
    bit_if(regs.contains(RegEnum::CC), 0x01) | bit_if(
        regs.contains(RegEnum::A) || regs.contains(RegEnum::D),
        0x02,
    ) | bit_if(regs.contains(RegEnum::B) || regs.contains(RegEnum::D), 0x04) | bit_if(
        regs.contains(RegEnum::DP),
        0x08,
    ) | bit_if(regs.contains(RegEnum::X), 0x10) | bit_if(regs.contains(RegEnum::Y), 0x20)
        | bit_if(regs.contains(RegEnum::U) || regs.contains(RegEnum::S), 0x40) | bit_if(
        regs.contains(RegEnum::PC),
        0x80,
    )
}

fn contains_reg(regs: &Vec<RegEnum>, r: RegEnum) -> (res: bool)
    ensures
        res == regs@.contains(r),
{
    let mut i: usize = 0;
    while i < regs.len()
        invariant
            0 <= i <= regs.len(),
            forall|k: int| 0 <= k < i ==> regs@[k] != r,
        decreases regs.len() - i,
    {
        if regs[i] == r {
            return true;
        }
        i = i + 1;
    }
    false
}

/// The bit `v` when `b` holds.
fn flag(b: bool, v: u8) -> (res: u8)
    ensures
        res == bit_if(b, v),
{
    if b {
        v
    } else {
        0
    }
}

/// The PSHS/PULS register list byte.
pub fn registers_to_flags(regs: &Vec<RegEnum>) -> (res: u8)
    ensures
        res == register_set_flags(regs@),
{
    let cc = contains_reg(regs, RegEnum::CC);
    let a = contains_reg(regs, RegEnum::A);
    let b = contains_reg(regs, RegEnum::B);
    let dp = contains_reg(regs, RegEnum::DP);
    let x = contains_reg(regs, RegEnum::X);
    let y = contains_reg(regs, RegEnum::Y);
    let u = contains_reg(regs, RegEnum::U);
    let s = contains_reg(regs, RegEnum::S);
    let pc = contains_reg(regs, RegEnum::PC);
    let d = contains_reg(regs, RegEnum::D);

    assert(0x02u8 | 0x04u8 == 0x06u8) by (bit_vector);
    let registers = flag(cc, 0x01) | flag(a, 0x02) | flag(b, 0x04) | flag(dp, 0x08) | flag(x, 0x10)
        | flag(y, 0x20) | flag(u, 0x40) | flag(s, 0x40) | flag(pc, 0x80) | flag(d, 0x02 | 0x04);
    assert(bit_if(cc, 0x01) | bit_if(a, 0x02) | bit_if(b, 0x04) | bit_if(dp, 0x08) | bit_if(x, 0x10)
        | bit_if(y, 0x20) | bit_if(u, 0x40) | bit_if(s, 0x40) | bit_if(pc, 0x80) | bit_if(d, 0x06)
        == bit_if(cc, 0x01) | bit_if(a || d, 0x02) | bit_if(b || d, 0x04) | bit_if(dp, 0x08)
        | bit_if(x, 0x10) | bit_if(y, 0x20) | bit_if(u || s, 0x40) | bit_if(pc, 0x80)) by (bit_vector);
    registers
}

} // verus!

verus! {

/// The bits of the PSHS/PULS list byte that a register sets: CC 0x01, A
/// 0x02, B 0x04, D both A's and B's, DP 0x08, X 0x10, Y 0x20, U and S 0x40
/// (a stack cannot push itself, so the other stack takes the bit), PC 0x80.
pub open spec fn reg_bits(r: RegEnum) -> u8 {
    match r {
        RegEnum::CC => 0x01,
        RegEnum::A => 0x02,
        RegEnum::B => 0x04,
        RegEnum::D => 0x06,
        RegEnum::DP => 0x08,
        RegEnum::X => 0x10,
        RegEnum::Y => 0x20,
        RegEnum::U => 0x40,
        RegEnum::S => 0x40,
        RegEnum::PC => 0x80,
    }
}

/// The bits of each register of a list, together.
pub open spec fn list_bits(regs: Seq<RegEnum>) -> u8
    decreases regs.len(),
{
    if regs.len() == 0 {
        0
    } else {
        list_bits(regs.drop_last()) | reg_bits(regs.last())
    }
}

/// The register list byte by which registers a list holds.
spec fn flags_by(cc: bool, a: bool, b: bool, d: bool, dp: bool, x: bool, y: bool, u: bool, s: bool, pc: bool) -> u8 {
    bit_if(cc, 0x01) | bit_if(a || d, 0x02) | bit_if(b || d, 0x04) | bit_if(dp, 0x08) | bit_if(x, 0x10)
        | bit_if(y, 0x20) | bit_if(u || s, 0x40) | bit_if(pc, 0x80)
}

proof fn lemma_flags_by(regs: Seq<RegEnum>)
    ensures
        register_set_flags(regs) == flags_by(
            regs.contains(RegEnum::CC),
            regs.contains(RegEnum::A),
            regs.contains(RegEnum::B),
            regs.contains(RegEnum::D),
            regs.contains(RegEnum::DP),
            regs.contains(RegEnum::X),
            regs.contains(RegEnum::Y),
            regs.contains(RegEnum::U),
            regs.contains(RegEnum::S),
            regs.contains(RegEnum::PC),
        ),
{
}

proof fn lemma_push_contains(s: Seq<RegEnum>, r: RegEnum, q: RegEnum)
    ensures
        s.push(r).contains(q) == (s.contains(q) || q == r),
{
    if s.contains(q) {
        let k = choose|k: int| 0 <= k < s.len() && s[k] == q;
        assert(s.push(r)[k] == q);
    }
    if q == r {
        assert(s.push(r)[s.len() as int] == q);
    }
    if s.push(r).contains(q) {
        let k = choose|k: int| 0 <= k < s.len() + 1 && s.push(r)[k] == q;
        if k < s.len() {
            assert(s[k] == q);
        }
    }
}

/// The register list byte has exactly the bits of the registers listed:
/// each register sets its own bits (`reg_bits`) and nothing else is set,
/// whatever the order of the list or its repeats.
pub proof fn lemma_register_list_bits(regs: Seq<RegEnum>)
    ensures
        register_set_flags(regs) == list_bits(regs),
    decreases regs.len(),
{
    if regs.len() == 0 {
        lemma_flags_by(regs);
        assert(flags_by(false, false, false, false, false, false, false, false, false, false) == 0u8) by (bit_vector);
    } else {
        let s = regs.drop_last();
        let r = regs.last();
        assert(s.push(r) =~= regs);
        lemma_register_list_bits(s);
        lemma_flags_by(s);
        lemma_flags_by(regs);
        lemma_push_contains(s, r, RegEnum::CC);
        lemma_push_contains(s, r, RegEnum::A);
        lemma_push_contains(s, r, RegEnum::B);
        lemma_push_contains(s, r, RegEnum::D);
        lemma_push_contains(s, r, RegEnum::DP);
        lemma_push_contains(s, r, RegEnum::X);
        lemma_push_contains(s, r, RegEnum::Y);
        lemma_push_contains(s, r, RegEnum::U);
        lemma_push_contains(s, r, RegEnum::S);
        lemma_push_contains(s, r, RegEnum::PC);
        let cc = s.contains(RegEnum::CC);
        let a = s.contains(RegEnum::A);
        let b = s.contains(RegEnum::B);
        let d = s.contains(RegEnum::D);
        let dp = s.contains(RegEnum::DP);
        let x = s.contains(RegEnum::X);
        let y = s.contains(RegEnum::Y);
        let u = s.contains(RegEnum::U);
        let st = s.contains(RegEnum::S);
        let pc = s.contains(RegEnum::PC);
        match r {
            RegEnum::CC => {
                assert(flags_by(true, a, b, d, dp, x, y, u, st, pc) == flags_by(cc, a, b, d, dp, x, y, u, st, pc) | 0x01u8) by (bit_vector);
            },
            RegEnum::A => {
                assert(flags_by(cc, true, b, d, dp, x, y, u, st, pc) == flags_by(cc, a, b, d, dp, x, y, u, st, pc) | 0x02u8) by (bit_vector);
            },
            RegEnum::B => {
                assert(flags_by(cc, a, true, d, dp, x, y, u, st, pc) == flags_by(cc, a, b, d, dp, x, y, u, st, pc) | 0x04u8) by (bit_vector);
            },
            RegEnum::D => {
                assert(flags_by(cc, a, b, true, dp, x, y, u, st, pc) == flags_by(cc, a, b, d, dp, x, y, u, st, pc) | 0x06u8) by (bit_vector);
            },
            RegEnum::DP => {
                assert(flags_by(cc, a, b, d, true, x, y, u, st, pc) == flags_by(cc, a, b, d, dp, x, y, u, st, pc) | 0x08u8) by (bit_vector);
            },
            RegEnum::X => {
                assert(flags_by(cc, a, b, d, dp, true, y, u, st, pc) == flags_by(cc, a, b, d, dp, x, y, u, st, pc) | 0x10u8) by (bit_vector);
            },
            RegEnum::Y => {
                assert(flags_by(cc, a, b, d, dp, x, true, u, st, pc) == flags_by(cc, a, b, d, dp, x, y, u, st, pc) | 0x20u8) by (bit_vector);
            },
            RegEnum::U => {
                assert(flags_by(cc, a, b, d, dp, x, y, true, st, pc) == flags_by(cc, a, b, d, dp, x, y, u, st, pc) | 0x40u8) by (bit_vector);
            },
            RegEnum::S => {
                assert(flags_by(cc, a, b, d, dp, x, y, u, true, pc) == flags_by(cc, a, b, d, dp, x, y, u, st, pc) | 0x40u8) by (bit_vector);
            },
            RegEnum::PC => {
                assert(flags_by(cc, a, b, d, dp, x, y, u, st, true) == flags_by(cc, a, b, d, dp, x, y, u, st, pc) | 0x80u8) by (bit_vector);
            },
        }
    }
}

/// A list of one register sets exactly that register's bits.
pub proof fn lemma_single_register_bits(r: RegEnum)
    ensures
        register_set_flags(seq![r]) == reg_bits(r),
{
    lemma_register_list_bits(seq![r]);
    assert(seq![r].drop_last() =~= Seq::<RegEnum>::empty());
    assert(list_bits(Seq::<RegEnum>::empty()) == 0);
    assert(seq![r].last() == r);
    let v = reg_bits(r);
    assert(0u8 | v == v) by (bit_vector);
    assert(list_bits(seq![r]) == list_bits(Seq::<RegEnum>::empty()) | v);
}

/// TFR/EXG register numbers tell registers apart, and bit 3 marks the
/// 8-bit registers (A, B, CC, DP); the pair postbyte holds the source's
/// number in its high nibble and the destination's in its low nibble.
pub proof fn lemma_pair_postbyte(source: RegEnum, dest: RegEnum, other: RegEnum)
    ensures
        reg_num(source) < 16,
        reg_num(source) == reg_num(other) ==> source == other,
        (reg_num(source) >= 8) <==> (source is A || source is B || source is CC || source is DP),
        pair_postbyte(source, dest) / 16 == reg_num(source),
        pair_postbyte(source, dest) % 16 == reg_num(dest),
{
}

} // verus!

verus! {

proof fn lemma_flags_by_bits(cc: bool, a: bool, b: bool, d: bool, dp: bool, x: bool, y: bool, u: bool, s: bool, pc: bool)
    by (bit_vector)
    ensures
        (flags_by(cc, a, b, d, dp, x, y, u, s, pc) & 0x01u8 != 0) == cc,
        (flags_by(cc, a, b, d, dp, x, y, u, s, pc) & 0x02u8 != 0) == (a || d),
        (flags_by(cc, a, b, d, dp, x, y, u, s, pc) & 0x04u8 != 0) == (b || d),
        (flags_by(cc, a, b, d, dp, x, y, u, s, pc) & 0x08u8 != 0) == dp,
        (flags_by(cc, a, b, d, dp, x, y, u, s, pc) & 0x10u8 != 0) == x,
        (flags_by(cc, a, b, d, dp, x, y, u, s, pc) & 0x20u8 != 0) == y,
        (flags_by(cc, a, b, d, dp, x, y, u, s, pc) & 0x40u8 != 0) == (u || s),
        (flags_by(cc, a, b, d, dp, x, y, u, s, pc) & 0x80u8 != 0) == pc,
{
}

/// Each bit of the register list byte is set exactly when a register that
/// owns it is listed: CC 0x01, A or D 0x02, B or D 0x04, DP 0x08, X 0x10,
/// Y 0x20, U or S 0x40, PC 0x80.
pub proof fn lemma_register_list_membership(regs: Seq<RegEnum>)
    ensures
        (register_set_flags(regs) & 0x01u8 != 0) == regs.contains(RegEnum::CC),
        (register_set_flags(regs) & 0x02u8 != 0) == (regs.contains(RegEnum::A) || regs.contains(RegEnum::D)),
        (register_set_flags(regs) & 0x04u8 != 0) == (regs.contains(RegEnum::B) || regs.contains(RegEnum::D)),
        (register_set_flags(regs) & 0x08u8 != 0) == regs.contains(RegEnum::DP),
        (register_set_flags(regs) & 0x10u8 != 0) == regs.contains(RegEnum::X),
        (register_set_flags(regs) & 0x20u8 != 0) == regs.contains(RegEnum::Y),
        (register_set_flags(regs) & 0x40u8 != 0) == (regs.contains(RegEnum::U) || regs.contains(RegEnum::S)),
        (register_set_flags(regs) & 0x80u8 != 0) == regs.contains(RegEnum::PC),
{
    lemma_flags_by(regs);
    lemma_flags_by_bits(
        regs.contains(RegEnum::CC),
        regs.contains(RegEnum::A),
        regs.contains(RegEnum::B),
        regs.contains(RegEnum::D),
        regs.contains(RegEnum::DP),
        regs.contains(RegEnum::X),
        regs.contains(RegEnum::Y),
        regs.contains(RegEnum::U),
        regs.contains(RegEnum::S),
        regs.contains(RegEnum::PC),
    );
}

} // verus!
