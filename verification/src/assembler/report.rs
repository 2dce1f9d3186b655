//! The text an assembly error is reported with.
use vstd::prelude::*;
use super::binary::{BinaryError, MemoryLocation};
use super::error::AsmError;

verus! {

/// The digit `d` (below sixteen), upper case.
pub open spec fn digit_text(d: nat) -> Seq<char> {
    if d == 0 {
        "0"@
    } else if d == 1 {
        "1"@
    } else if d == 2 {
        "2"@
    } else if d == 3 {
        "3"@
    } else if d == 4 {
        "4"@
    } else if d == 5 {
        "5"@
    } else if d == 6 {
        "6"@
    } else if d == 7 {
        "7"@
    } else if d == 8 {
        "8"@
    } else if d == 9 {
        "9"@
    } else if d == 10 {
        "A"@
    } else if d == 11 {
        "B"@
    } else if d == 12 {
        "C"@
    } else if d == 13 {
        "D"@
    } else if d == 14 {
        "E"@
    } else {
        "F"@
    }
}

/// The digits of `n` in base `base`, most significant first.
pub open spec fn radix(n: nat, base: nat) -> Seq<char>
    decreases n,
{
    if base < 2 || n < base {
        digit_text(n)
    } else {
        proof {
            assert(n / base < n) by (nonlinear_arith)
                requires
                    base >= 2,
                    n >= base,
            ;
        }
        radix(n / base, base) + digit_text(n % base)
    }
}

/// `s` with zeros in front up to `width` characters.
pub open spec fn zero_padded(s: Seq<char>, width: nat) -> Seq<char> {
    Seq::new(if s.len() < width { (width - s.len()) as nat } else { 0 }, |i: int| '0') + s
}

/// `v` in decimal, with a minus sign when negative.
pub open spec fn signed_decimal(v: int) -> Seq<char> {
    if v < 0 {
        "-"@ + radix((-v) as nat, 10)
    } else {
        radix(v as nat, 10)
    }
}

/// `n` in upper-case hexadecimal, at least `width` digits.
pub open spec fn hex(n: nat, width: nat) -> Seq<char> {
    zero_padded(radix(n, 16), width)
}

/// A memory location as the reports show it.
pub open spec fn location_text(l: MemoryLocation) -> Seq<char> {
    "physical: $"@ + hex(l.physical as nat, 5) + " logical: $"@ + hex(l.logical as nat, 4)
}

/// The report of a failed write to the image.
pub open spec fn binary_error_text(e: BinaryError) -> Seq<char> {
    match e {
        BinaryError::DoesNotMatchReference { addr, logical_addr, val, expected } => "$"@ + hex(addr as nat, 4)
            + " ($"@ + hex(logical_addr as nat, 5) + ")(expected $"@ + hex(expected as nat, 2)
            + ", found $"@ + hex(val as nat, 2) + ")"@,
        BinaryError::InvalidWriteAddress(a) => "Tried to write to "@ + hex(a as nat, 0),
        BinaryError::DoesNotFit { dest_type, val } => "Value "@ + signed_decimal(val as int)
            + " does not fit into a "@ + dest_type@,
        BinaryError::Halt(l) => "Hit watch location: "@ + location_text(l),
        BinaryError::IllegalWrite(l) => "Write to read only memory: "@ + location_text(l),
        BinaryError::AskedForZeroBytes => "Asked for zero bytes"@,
    }
}

/// The report of an assembly error.
pub open spec fn error_text(e: AsmError) -> Seq<char> {
    match e {
        AsmError::Binary(b) => binary_error_text(b),
        AsmError::BranchOutOfRange { by, val } => "Branch out of range by "@ + signed_decimal(by as int)
            + " bytes ("@ + signed_decimal(val as int) + ")"@,
        AsmError::SetDpOutOfRange(_) => "SETDP value must be between 0 and 255"@,
        AsmError::SectionOverflow { name, overflow, used, max } => "Section '"@ + name@ + "' overflowed by "@
            + radix(overflow as nat, 10) + " bytes (allocated "@ + radix(used as nat, 10)
            + " bytes, maximum size "@ + radix(max as nat, 10) + " bytes)"@,
        AsmError::UnknownSection(name) => "Unknown section '"@ + name@ + "'"@,
        AsmError::NegativeReserve(_) => "Argument for RMB must be positive"@,
        AsmError::MissingArgument => "Missing argument"@,
        AsmError::GrabOutOfRange { offset, size, file_size } => "Trying to grab "@ + hex(
            offset as u64 as nat,
            4,
        ) + " "@ + hex(size as u64 as nat, 4) + " from file size "@ + hex(file_size as nat, 0),
        AsmError::MessageValueMissing => "message value missing"@,
        AsmError::WhileLimitExceeded(n) => "while loop exceeded "@ + radix(n as nat, 10)
            + " iterations (condition never became zero?)"@,
        AsmError::LoopSignalOutsideLoop => "break/continue outside of a loop"@,
        AsmError::SymbolNotFound(_) => "Symbol not found"@,
        AsmError::ArithmeticOverflow => "Arithmetic overflow"@,
        AsmError::UnableToSize => "Unable to size"@,
    }
}

fn digit_lit(d: u64) -> (res: &'static str)
    requires
        d < 16,
    ensures
        res@ == digit_text(d as nat),
{
    if d == 0 {
        "0"
    } else if d == 1 {
        "1"
    } else if d == 2 {
        "2"
    } else if d == 3 {
        "3"
    } else if d == 4 {
        "4"
    } else if d == 5 {
        "5"
    } else if d == 6 {
        "6"
    } else if d == 7 {
        "7"
    } else if d == 8 {
        "8"
    } else if d == 9 {
        "9"
    } else if d == 10 {
        "A"
    } else if d == 11 {
        "B"
    } else if d == 12 {
        "C"
    } else if d == 13 {
        "D"
    } else if d == 14 {
        "E"
    } else {
        "F"
    }
}

fn push_radix(s: &mut String, n: u64, base: u64)
    requires
        base == 10 || base == 16,
    ensures
        final(s)@ == old(s)@ + radix(n as nat, base as nat),
    decreases n,
{
    if n >= base {
        push_radix(s, n / base, base);
    }
    s.append(digit_lit(n % base));
    assert(n < base ==> n % base == n) by (nonlinear_arith)
        requires
            base >= 10,
    ;
}

fn push_hex(s: &mut String, n: u64, width: usize)
    ensures
        final(s)@ == old(s)@ + hex(n as nat, width as nat),
{
    let mut digits = String::new();
    push_radix(&mut digits, n, 16);
    assert(digits@ =~= radix(n as nat, 16));
    let len = digits.unicode_len();
    let ghost start = s@;
    let mut k: usize = 0;
    let pad: usize = if len < width {
        width - len
    } else {
        0
    };
    while k < pad
        invariant
            k <= pad,
            s@ == start + Seq::new(k as nat, |i: int| '0'),
        decreases pad - k,
    {
        s.append("0");
        proof {
            reveal_strlit("0");
        }
        k = k + 1;
        assert(s@ =~= start + Seq::new(k as nat, |i: int| '0'));
    }
    s.append(digits.as_str());
    assert(s@ =~= start + hex(n as nat, width as nat));
}

pub(crate) fn push_signed(s: &mut String, v: i64)
    ensures
        final(s)@ == old(s)@ + signed_decimal(v as int),
{
    if v < 0 {
        s.append("-");
        let mag: u64 = if v == i64::MIN {
            9223372036854775808
        } else {
            (-v) as u64
        };
        push_radix(s, mag, 10);
        assert(s@ =~= old(s)@ + signed_decimal(v as int));
    } else {
        push_radix(s, v as u64, 10);
    }
}

fn push_location(s: &mut String, l: MemoryLocation)
    ensures
        final(s)@ == old(s)@ + location_text(l),
{
    s.append("physical: $");
    push_hex(s, l.physical as u64, 5);
    s.append(" logical: $");
    push_hex(s, l.logical as u64, 4);
    assert(s@ =~= old(s)@ + location_text(l));
}

fn binary_error_message(e: &BinaryError) -> (res: String)
    ensures
        res@ == binary_error_text(*e),
{
    let mut s = String::new();
    match e {
        BinaryError::DoesNotMatchReference { addr, logical_addr, val, expected } => {
            s.append("$");
            push_hex(&mut s, *addr as u64, 4);
            s.append(" ($");
            push_hex(&mut s, *logical_addr as u64, 5);
            s.append(")(expected $");
            push_hex(&mut s, *expected as u64, 2);
            s.append(", found $");
            push_hex(&mut s, *val as u64, 2);
            s.append(")");
        },
        BinaryError::InvalidWriteAddress(a) => {
            s.append("Tried to write to ");
            push_hex(&mut s, *a as u64, 0);
        },
        BinaryError::DoesNotFit { dest_type, val } => {
            s.append("Value ");
            push_signed(&mut s, *val);
            s.append(" does not fit into a ");
            s.append(dest_type.as_str());
        },
        BinaryError::Halt(l) => {
            s.append("Hit watch location: ");
            push_location(&mut s, *l);
        },
        BinaryError::IllegalWrite(l) => {
            s.append("Write to read only memory: ");
            push_location(&mut s, *l);
        },
        BinaryError::AskedForZeroBytes => {
            s.append("Asked for zero bytes");
        },
    }
    assert(s@ =~= binary_error_text(*e));
    s
}

impl AsmError {
    /// The text the error is reported with.
    pub fn message(&self) -> (res: String)
        ensures
            res@ == error_text(*self),
    {
        let mut s = String::new();
        match self {
            AsmError::Binary(b) => {
                return binary_error_message(b);
            },
            AsmError::BranchOutOfRange { by, val } => {
                s.append("Branch out of range by ");
                push_signed(&mut s, *by);
                s.append(" bytes (");
                push_signed(&mut s, *val);
                s.append(")");
            },
            AsmError::SetDpOutOfRange(_) => {
                s.append("SETDP value must be between 0 and 255");
            },
            AsmError::SectionOverflow { name, overflow, used, max } => {
                s.append("Section '");
                s.append(name.as_str());
                s.append("' overflowed by ");
                push_radix(&mut s, *overflow as u64, 10);
                s.append(" bytes (allocated ");
                push_radix(&mut s, *used as u64, 10);
                s.append(" bytes, maximum size ");
                push_radix(&mut s, *max as u64, 10);
                s.append(" bytes)");
            },
            AsmError::UnknownSection(name) => {
                s.append("Unknown section '");
                s.append(name.as_str());
                s.append("'");
            },
            AsmError::NegativeReserve(_) => {
                s.append("Argument for RMB must be positive");
            },
            AsmError::MissingArgument => {
                s.append("Missing argument");
            },
            AsmError::GrabOutOfRange { offset, size, file_size } => {
                s.append("Trying to grab ");
                push_hex(&mut s, *offset as u64, 4);
                s.append(" ");
                push_hex(&mut s, *size as u64, 4);
                s.append(" from file size ");
                push_hex(&mut s, *file_size as u64, 0);
            },
            AsmError::MessageValueMissing => {
                s.append("message value missing");
            },
            AsmError::WhileLimitExceeded(n) => {
                s.append("while loop exceeded ");
                push_radix(&mut s, *n, 10);
                s.append(" iterations (condition never became zero?)");
            },
            AsmError::LoopSignalOutsideLoop => {
                s.append("break/continue outside of a loop");
            },
            AsmError::SymbolNotFound(_) => {
                s.append("Symbol not found");
            },
            AsmError::ArithmeticOverflow => {
                s.append("Arithmetic overflow");
            },
            AsmError::UnableToSize => {
                s.append("Unable to size");
            },
        }
        assert(s@ =~= error_text(*self));
        s
    }
}

/// The value of a decimal or upper-case hexadecimal digit character.
pub open spec fn digit_value(c: char) -> int {
    if '0' <= c <= '9' {
        (c as int) - ('0' as int)
    } else {
        (c as int) - ('A' as int) + 10
    }
}

/// The number a string of digits spells in base `base`, most significant
/// first.
pub open spec fn radix_value(s: Seq<char>, base: nat) -> int
    decreases s.len(),
{
    if s.len() == 0 {
        0
    } else {
        radix_value(s.drop_last(), base) * base + digit_value(s.last())
    }
}

proof fn lemma_digit_text(d: nat)
    requires
        d < 16,
    ensures
        digit_text(d).len() == 1,
        digit_value(digit_text(d)[0]) == d,
        '0' <= digit_text(d)[0] <= '9' || 'A' <= digit_text(d)[0] <= 'F',
{
    reveal_strlit("0");
    reveal_strlit("1");
    reveal_strlit("2");
    reveal_strlit("3");
    reveal_strlit("4");
    reveal_strlit("5");
    reveal_strlit("6");
    reveal_strlit("7");
    reveal_strlit("8");
    reveal_strlit("9");
    reveal_strlit("A");
    reveal_strlit("B");
    reveal_strlit("C");
    reveal_strlit("D");
    reveal_strlit("E");
    reveal_strlit("F");
}

/// Digits in base 10 or 16 read back as their number, with no leading zero
/// but for zero itself.
pub proof fn lemma_radix_reads_back(n: nat, base: nat)
    requires
        base == 10 || base == 16,
    ensures
        radix_value(radix(n, base), base) == n,
        radix(n, base).len() >= 1,
        digit_value(radix(n, base)[0]) == 0 ==> n == 0,
    decreases n,
{
    if n < base {
        lemma_digit_text(n);
        assert(radix(n, base).drop_last() =~= Seq::<char>::empty());
        assert(radix_value(radix(n, base), base) == radix_value(Seq::<char>::empty(), base) * base + digit_value(
            radix(n, base).last(),
        ));
    } else {
        assert(n / base < n) by (nonlinear_arith)
            requires
                base >= 2,
                n >= base,
        ;
        assert(n % base < 16) by (nonlinear_arith)
            requires
                base <= 16,
                base >= 2,
        ;
        lemma_radix_reads_back(n / base, base);
        lemma_digit_text(n % base);
        let p = radix(n / base, base);
        assert(radix(n, base) =~= p + digit_text(n % base));
        assert(radix(n, base).drop_last() =~= p);
        assert(radix(n, base).last() == digit_text(n % base)[0]);
        assert(radix(n, base)[0] == p[0]);
        assert((n / base) * base + n % base == n) by (nonlinear_arith)
            requires
                base >= 2,
        ;
        assert(n / base >= 1) by (nonlinear_arith)
            requires
                base >= 2,
                n >= base,
        ;
    }
}

} // verus!

verus! {

proof fn lemma_zeros_value(k: nat, base: nat)
    ensures
        radix_value(Seq::new(k, |i: int| '0'), base) == 0,
    decreases k,
{
    if k > 0 {
        lemma_zeros_value((k - 1) as nat, base);
        assert(Seq::new(k, |i: int| '0').drop_last() =~= Seq::new((k - 1) as nat, |i: int| '0'));
    }
}

proof fn lemma_leading_zeros(z: Seq<char>, s: Seq<char>, base: nat)
    requires
        radix_value(z, base) == 0,
    ensures
        radix_value(z + s, base) == radix_value(s, base),
    decreases s.len(),
{
    if s.len() == 0 {
        assert(z + s =~= z);
    } else {
        lemma_leading_zeros(z, s.drop_last(), base);
        assert((z + s).drop_last() =~= z + s.drop_last());
        assert((z + s).last() == s.last());
    }
}

/// Hexadecimal of at least `width` digits reads back as its number.
pub proof fn lemma_hex_reads_back(n: nat, width: nat)
    ensures
        radix_value(hex(n, width), 16) == n,
        hex(n, width).len() >= width,
        hex(n, width).len() >= 1,
{
    lemma_radix_reads_back(n, 16);
    let s = radix(n, 16);
    let k: nat = if s.len() < width { (width - s.len()) as nat } else { 0 };
    lemma_zeros_value(k, 16);
    lemma_leading_zeros(Seq::new(k, |i: int| '0'), s, 16);
}

} // verus!
