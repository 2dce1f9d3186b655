use vstd::prelude::*;

verus! {

/// The smallest operand encoding that holds a signed offset.
#[derive(Debug, PartialEq, Eq, Clone, Copy, Structural)]
pub enum ByteSizes {
    Zero,
    Bits5(i8),
    Byte(i8),
    Word(i16),
}

impl ByteSizes {
    /// Widen this size class by one step: 5 bits becomes a byte, a byte
    /// becomes a word; zero and word are unchanged.
    pub fn promote(&mut self)
        ensures
            *final(self) == match *old(self) {
                ByteSizes::Zero => ByteSizes::Zero,
                ByteSizes::Bits5(v) => ByteSizes::Byte(v),
                ByteSizes::Byte(v) => ByteSizes::Word(v as i16),
                ByteSizes::Word(v) => ByteSizes::Word(v),
            },
    {
        *self = match *self {
            ByteSizes::Zero => ByteSizes::Zero,
            ByteSizes::Bits5(v) => ByteSizes::Byte(v),
            ByteSizes::Byte(v) => ByteSizes::Word(v as i16),
            ByteSizes::Word(v) => ByteSizes::Word(v),
        };
    }
}

/// The size class of a value, as `ByteSize::byte_size` computes it.
pub open spec fn byte_size_of(v: i64) -> ByteSizes {
    if v == 0 {
        ByteSizes::Zero
    } else if -16 < v < 16 {
        ByteSizes::Bits5(v as i8)
    } else if -128 < v < 128 {
        ByteSizes::Byte(v as i8)
    } else {
        ByteSizes::Word(v as i16)
    }
}

/// Classifies a value by the smallest signed field that holds it.
pub trait ByteSize {
    spec fn spec_value(&self) -> i64;

    fn byte_size(&self) -> (r: ByteSizes)
        ensures
            r == byte_size_of(self.spec_value()),
    ;
}

impl ByteSize for i64 {
    open spec fn spec_value(&self) -> i64 {
        *self
    }

    fn byte_size(&self) -> (r: ByteSizes) {
        let v = *self;
        if v == 0 {
            ByteSizes::Zero
        } else if v > -16 && v < 16 {
            ByteSizes::Bits5(v as i8)
        } else if v > -128 && v < 128 {
            ByteSizes::Byte(v as i8)
        } else {
            ByteSizes::Word(v as i16)
        }
    }
}

} // verus!

verus! {

/// The size class of a value is the smallest signed field that holds it:
/// zero only for zero; five bits (the indexed postbyte's field) only for a
/// value strictly between -16 and 16, kept as it is; a byte only for a value
/// strictly between -128 and 128 that five bits do not hold, kept as it
/// is; a word for the rest.
pub proof fn lemma_byte_size_fits(v: i64)
    ensures
        (byte_size_of(v) is Zero) <==> v == 0,
        byte_size_of(v) matches ByteSizes::Bits5(x) ==> v != 0 && -16 < v < 16 && x == v,
        (byte_size_of(v) is Bits5) <==> (v != 0 && -16 < v < 16),
        byte_size_of(v) matches ByteSizes::Byte(x) ==> -128 < v < 128 && !(-16 < v < 16) && x == v,
        (byte_size_of(v) is Byte) <==> (-128 < v < 128 && !(-16 < v < 16)),
        byte_size_of(v) matches ByteSizes::Word(x) ==> !(-128 < v < 128) && (-32768 <= v < 32768 ==> x == v),
{
}

} // verus!
