//! Quantised export: numbers scaled by an integer factor and written as
//! fixed-width integers, least significant byte first.
//!
//! Scaling and rounding are arithmetic on real numbers and happen before a
//! number comes here. This module decides whether the rounded product fits
//! the target's width, and writes the bytes.

use vstd::prelude::*;
use crate::bytes::{le4, push_le4};
use crate::scalar::Scalar;

verus! {

/// What numbers are written as: unchanged, or scaled by the factor given
/// and rounded toward zero to an integer of one, two or four bytes.
#[derive(Clone, Copy, Debug, PartialEq, Eq)]
pub enum QuantTarget {
    Float,
    /// The factor is an `i16` because a factor such as 128 is common with
    /// weights clipped to [-0.99, 0.99].
    I8(i16),
    I16(i16),
    I32(i32),
}

/// One number to be written.
#[derive(Clone, Copy, Debug, PartialEq, Eq)]
pub struct Sample {
    /// The number itself.
    pub value: Scalar,
    /// The number times the target's factor, rounded toward zero; none if
    /// the product is not a number or lies outside `i64`. A `Float` target
    /// does not read it.
    pub scaled: Option<i64>,
}

/// The quantisation failed: the number with the given index does not fit
/// the target's width.
#[derive(Clone, Copy, Debug, PartialEq, Eq)]
pub struct QuantError {
    pub index: usize,
}

/// The single byte of `t` in two's complement.
pub open spec fn signed1(t: int) -> Seq<u8> {
    seq![((t + 256) % 256) as u8]
}

/// The two bytes of `t` in two's complement, least significant first.
pub open spec fn signed2(t: int) -> Seq<u8> {
    seq![((t + 65536) % 256) as u8, ((t + 65536) / 256 % 256) as u8]
}

/// The four bytes of `t` in two's complement, least significant first.
pub open spec fn signed4(t: int) -> Seq<u8> {
    le4(((t + 4294967296) % 4294967296) as u32)
}

/// The integer that the bytes are in two's complement, least significant
/// byte first; for one, two or four bytes.
pub open spec fn signed_value(bytes: Seq<u8>) -> int {
    let unsigned: int = if bytes.len() == 1 {
        bytes[0] as int
    } else if bytes.len() == 2 {
        bytes[0] + bytes[1] * 256
    } else {
        bytes[0] + bytes[1] * 256 + bytes[2] * 65536 + bytes[3] * 16777216
    };
    let half: int = if bytes.len() == 1 {
        128
    } else if bytes.len() == 2 {
        32768
    } else {
        2147483648
    };
    if unsigned >= half {
        unsigned - 2 * half
    } else {
        unsigned
    }
}

impl QuantTarget {
    /// The factor numbers are scaled by; none for `Float`.
    pub open spec fn spec_factor(self) -> Option<int> {
        match self {
            QuantTarget::Float => None,
            QuantTarget::I8(q) => Some(q as int),
            QuantTarget::I16(q) => Some(q as int),
            QuantTarget::I32(q) => Some(q as int),
        }
    }

    /// The bytes one number takes.
    pub open spec fn width(self) -> int {
        match self {
            QuantTarget::Float => 4,
            QuantTarget::I8(_) => 1,
            QuantTarget::I16(_) => 2,
            QuantTarget::I32(_) => 4,
        }
    }

    /// Whether the integer fits the target's width.
    pub open spec fn fits(self, t: int) -> bool {
        match self {
            QuantTarget::Float => true,
            QuantTarget::I8(_) => -128 <= t <= 127,
            QuantTarget::I16(_) => -32768 <= t <= 32767,
            QuantTarget::I32(_) => -2147483648 <= t <= 2147483647,
        }
    }

    /// The bytes written for one number, if it can be written: for `Float`
    /// the bit pattern; otherwise the rounded product, which must fit the
    /// target's width.
    pub open spec fn quantised(self, sample: Sample) -> Option<Seq<u8>> {
        match self {
            QuantTarget::Float => Some(le4(sample.value.bits)),
            _ => match sample.scaled {
                Some(t) => if self.fits(t as int) {
                    Some(
                        match self {
                            QuantTarget::I8(_) => signed1(t as int),
                            QuantTarget::I16(_) => signed2(t as int),
                            _ => signed4(t as int),
                        },
                    )
                } else {
                    None
                },
                None => None,
            },
        }
    }

    /// The index of the first number from `from` on that cannot be
    /// written, if there is one.
    pub open spec fn first_failure(self, samples: Seq<Sample>, from: int) -> Option<int>
        decreases samples.len() - from,
    {
        if from < 0 || from >= samples.len() {
            None
        } else if self.quantised(samples[from]) is None {
            Some(from)
        } else {
            self.first_failure(samples, from + 1)
        }
    }

    /// The bytes written for the numbers, one after the other, where each
    /// can be written.
    pub open spec fn quantised_all(self, samples: Seq<Sample>) -> Seq<u8>
        decreases samples.len(),
    {
        if samples.len() == 0 {
            Seq::empty()
        } else {
            self.quantised_all(samples.drop_last()) + self.quantised(samples.last())->Some_0
        }
    }

    /// The factor numbers are scaled by; none for `Float`.
    pub fn factor(self) -> (q: Option<i32>)
        ensures
            match q {
                Some(q) => self.spec_factor() == Some(q as int),
                None => self.spec_factor() is None,
            },
    {
        match self {
            QuantTarget::Float => None,
            QuantTarget::I8(q) => Some(q as i32),
            QuantTarget::I16(q) => Some(q as i32),
            QuantTarget::I32(q) => Some(q),
        }
    }

    fn quantise_one(self, sample: &Sample, out: &mut Vec<u8>) -> (ok: bool)
        ensures
            ok == self.quantised(*sample) is Some,
            ok ==> final(out)@ == old(out)@ + self.quantised(*sample)->Some_0,
            !ok ==> final(out)@ == old(out)@,
    {
        match self {
            QuantTarget::Float => {
                push_le4(out, sample.value.bits);
                true
            },
            QuantTarget::I8(_) => match sample.scaled {
                Some(t) => {
                    if t < -128 || t > 127 {
                        return false;
                    }
                    out.push(((t + 256) % 256) as u8);
                    assert(out@ =~= old(out)@ + signed1(t as int));
                    true
                },
                None => false,
            },
            QuantTarget::I16(_) => match sample.scaled {
                Some(t) => {
                    if t < -32768 || t > 32767 {
                        return false;
                    }
                    let u = t + 65536;
                    out.push((u % 256) as u8);
                    out.push((u / 256 % 256) as u8);
                    assert(out@ =~= old(out)@ + signed2(t as int));
                    true
                },
                None => false,
            },
            QuantTarget::I32(_) => match sample.scaled {
                Some(t) => {
                    if t < -2147483648 || t > 2147483647 {
                        return false;
                    }
                    push_le4(out, ((t + 4294967296) % 4294967296) as u32);
                    true
                },
                None => false,
            },
        }
    }

    /// Writes the numbers one after the other.
    ///
    /// If a number does not fit the target's width, nothing is written and
    /// the error names the first such number; a number is never wrapped or
    /// cut to fit.
    pub fn quantise(self, buf: &[Sample]) -> (r: Result<Vec<u8>, QuantError>)
        ensures
            match r {
                Ok(bytes) => self.first_failure(buf@, 0) is None && bytes@ == self.quantised_all(
                    buf@,
                ),
                Err(e) => self.first_failure(buf@, 0) == Some(e.index as int),
            },
    {
        let mut out: Vec<u8> = Vec::new();
        let mut i: usize = 0;
        while i < buf.len()
            invariant
                i <= buf.len(),
                self.first_failure(buf@, 0) == self.first_failure(buf@, i as int),
                out@ == self.quantised_all(buf@.subrange(0, i as int)),
            decreases buf.len() - i,
        {
            let ghost done = buf@.subrange(0, i as int);
            if !self.quantise_one(&buf[i], &mut out) {
                return Err(QuantError { index: i });
            }
            proof {
                let next = buf@.subrange(0, i + 1);
                assert(next.drop_last() =~= done);
                assert(next.last() == buf@[i as int]);
            }
            i += 1;
        }
        assert(buf@.subrange(0, buf@.len() as int) =~= buf@);
        Ok(out)
    }
}

/// One byte reads back as the integer it was written for.
pub proof fn lemma_signed1(t: int)
    requires
        -128 <= t <= 127,
    ensures
        signed_value(signed1(t)) == t,
{
    let u = (t + 256) % 256;
    assert(u == if t < 0 {
        t + 256
    } else {
        t
    });
    assert(signed1(t)[0] == u);
}

/// Two bytes read back as the integer they were written for.
pub proof fn lemma_signed2(t: int)
    requires
        -32768 <= t <= 32767,
    ensures
        signed_value(signed2(t)) == t,
{
    let u = t + 65536;
    let bytes = signed2(t);
    assert(bytes[0] == u % 256);
    assert(bytes[1] == u / 256 % 256);
    assert(u % 256 + (u / 256 % 256) * 256 == u % 65536);
}

/// Four bytes read back as the integer they were written for.
pub proof fn lemma_signed4(t: int)
    requires
        -2147483648 <= t <= 2147483647,
    ensures
        signed_value(signed4(t)) == t,
{
    let u = (t + 4294967296) % 4294967296;
    assert(u == if t < 0 {
        t + 4294967296
    } else {
        t
    });
    let x = u as u32;
    let bytes = le4(x);
    assert(bytes[0] == x % 256);
    assert(bytes[1] == x / 256 % 256);
    assert(bytes[2] == x / 65536 % 256);
    assert(bytes[3] == x / 16777216 % 256);
    assert(bytes[0] + bytes[1] * 256 + bytes[2] * 65536 + bytes[3] * 16777216 == x);
}

/// An integer that fits the target's width is read back from the bytes
/// written for it; one that does not fit is not written at all.
pub proof fn lemma_quantise_round_trip(target: QuantTarget, sample: Sample)
    requires
        target != QuantTarget::Float,
    ensures
        match target.quantised(sample) {
            Some(bytes) => sample.scaled matches Some(t) && target.fits(t as int) && bytes.len()
                == target.width() && signed_value(bytes) == t,
            None => !(sample.scaled matches Some(t) && target.fits(t as int)),
        },
{
    if sample.scaled is Some && target.fits(sample.scaled->Some_0 as int) {
        let t = sample.scaled->Some_0;
        match target {
            QuantTarget::Float => {},
            QuantTarget::I8(_) => {
                lemma_signed1(t as int);
            },
            QuantTarget::I16(_) => {
                lemma_signed2(t as int);
            },
            QuantTarget::I32(_) => {
                lemma_signed4(t as int);
            },
        }
    }
}

/// The bytes of a `Float` target are the bit pattern, whatever the number.
pub proof fn lemma_float_is_kept(sample: Sample)
    ensures
        QuantTarget::Float.quantised(sample) == Some(le4(sample.value.bits)),
{
}

} // verus!
