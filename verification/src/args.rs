//! Sizes, counts and the other values a request is made of.

use vstd::prelude::*;
use crate::codec::Encoding;

verus! {

/// Unit of a byte size: decimal (powers of 1000) or binary (powers of 1024).
#[derive(Debug, Clone, Copy, PartialEq, Eq, Structural)]
pub enum ByteUnit {
    B,
    KB,
    KiB,
    MB,
    MiB,
    GB,
    GiB,
}

impl ByteUnit {
    /// Number of bytes in one unit.
    pub open spec fn factor(self) -> int {
        match self {
            ByteUnit::B => 1,
            ByteUnit::KB => 1000,
            ByteUnit::KiB => 1024,
            ByteUnit::MB => 1_000_000,
            ByteUnit::MiB => 1_048_576,
            ByteUnit::GB => 1_000_000_000,
            ByteUnit::GiB => 1_073_741_824,
        }
    }

    /// Whether the unit is a power of 1000 greater than one.
    pub open spec fn decimal(self) -> bool {
        self == ByteUnit::KB || self == ByteUnit::MB || self == ByteUnit::GB
    }
}

/// A size in bytes, written as a value and a unit.
#[derive(Debug, Clone, Copy, PartialEq, Eq, Structural)]
pub struct ByteSize {
    pub value: usize,
    pub unit: ByteUnit,
}

impl ByteSize {
    /// The size in bytes, as a mathematical integer.
    pub open spec fn bytes(self) -> int {
        self.value * self.unit.factor()
    }

    /// The size in bytes. The product has to fit in `usize`.
    pub fn to_bytes(&self) -> (r: usize)
        requires
            self.bytes() <= usize::MAX,
        ensures
            r == self.bytes(),
    {
        let v: usize = self.value;
        match self.unit {
            ByteUnit::B => v,
            ByteUnit::KB => v * 1000,
            ByteUnit::KiB => v * 1024,
            ByteUnit::MB => v * 1_000_000,
            ByteUnit::MiB => v * 1_048_576,
            ByteUnit::GB => v * 1_000_000_000,
            ByteUnit::GiB => v * 1_073_741_824,
        }
    }

    /// The size in bytes, or `None` when it does not fit in `usize`.
    pub fn checked_to_bytes(&self) -> (r: Option<usize>)
        ensures
            r == (if self.bytes() <= usize::MAX {
                Some(self.bytes() as usize)
            } else {
                None
            }),
    {
        let v: usize = self.value;
        match self.unit {
            ByteUnit::B => Some(v),
            ByteUnit::KB => v.checked_mul(1000),
            ByteUnit::KiB => v.checked_mul(1024),
            ByteUnit::MB => v.checked_mul(1_000_000),
            ByteUnit::MiB => v.checked_mul(1_048_576),
            ByteUnit::GB => v.checked_mul(1_000_000_000),
            ByteUnit::GiB => v.checked_mul(1_073_741_824),
        }
    }

    pub fn is_decimal_unit(&self) -> (r: bool)
        ensures
            r == self.unit.decimal(),
    {
        match self.unit {
            ByteUnit::KB | ByteUnit::MB | ByteUnit::GB => true,
            ByteUnit::B | ByteUnit::KiB | ByteUnit::MiB | ByteUnit::GiB => false,
        }
    }

    pub fn is_binary_unit(&self) -> (r: bool)
        ensures
            r == !self.unit.decimal(),
    {
        !self.is_decimal_unit()
    }
}

/// Unit of a count: none, or a power of 1000.
#[derive(Debug, Clone, Copy, PartialEq, Eq, Structural)]
pub enum Unit {
    /// No unit: the value itself.
    One,
    K,
    M,
    B,
    T,
}

impl Unit {
    /// What one unit counts.
    pub open spec fn factor(self) -> int {
        match self {
            Unit::One => 1,
            Unit::K => 1_000,
            Unit::M => 1_000_000,
            Unit::B => 1_000_000_000,
            Unit::T => 1_000_000_000_000,
        }
    }
}

/// A count, written as a value and a unit.
#[derive(Debug, Clone, Copy, PartialEq, Eq, Structural)]
pub struct Size {
    pub value: usize,
    pub unit: Unit,
}

impl Size {
    /// The count, as a mathematical integer.
    pub open spec fn count(self) -> int {
        self.value * self.unit.factor()
    }

    /// The count. The product has to fit in `usize`.
    pub fn get(&self) -> (r: usize)
        requires
            self.count() <= usize::MAX,
        ensures
            r == self.count(),
    {
        let v: usize = self.value;
        proof {
            assert(v * 1000 * 1000 == v * 1_000_000 && v * 1000 * 1000 * 1000 == v * 1_000_000_000
                && v * 1000 * 1000 * 1000 * 1000 == v * 1_000_000_000_000 && v * 1000 <= v
                * 1_000_000 <= v * 1_000_000_000 <= v * 1_000_000_000_000) by (nonlinear_arith);
        }
        match self.unit {
            Unit::One => v,
            Unit::K => v * 1000,
            Unit::M => v * 1000 * 1000,
            Unit::B => v * 1000 * 1000 * 1000,
            Unit::T => v * 1000 * 1000 * 1000 * 1000,
        }
    }

    /// The count, or `None` when it does not fit in `usize`.
    pub fn checked_get(&self) -> (r: Option<usize>)
        ensures
            r == (if self.count() <= usize::MAX {
                Some(self.count() as usize)
            } else {
                None
            }),
    {
        let wide: u128 = self.value as u128;
        let product: u128 = match self.unit {
            Unit::One => wide,
            Unit::K => wide * 1_000,
            Unit::M => wide * 1_000_000,
            Unit::B => wide * 1_000_000_000,
            Unit::T => wide * 1_000_000_000_000,
        };
        if product <= usize::MAX as u128 {
            Some(product as usize)
        } else {
            None
        }
    }
}

/// A Unicode encoding, as a request names it.
#[derive(Debug, Clone, Copy, PartialEq, Eq, Structural)]
pub enum UnicodeEncoding {
    Utf8,
    Utf16,
    Utf32,
}

impl UnicodeEncoding {
    /// The encoding of the output that the name stands for.
    pub open spec fn target(self) -> Encoding {
        match self {
            UnicodeEncoding::Utf8 => Encoding::Utf8,
            UnicodeEncoding::Utf16 => Encoding::Utf16LE,
            UnicodeEncoding::Utf32 => Encoding::Utf32LE,
        }
    }

    pub fn encoding(&self) -> (r: Encoding)
        ensures
            r == self.target(),
    {
        match self {
            UnicodeEncoding::Utf8 => Encoding::Utf8,
            UnicodeEncoding::Utf16 => Encoding::Utf16LE,
            UnicodeEncoding::Utf32 => Encoding::Utf32LE,
        }
    }

    /// The encoding's name as it is shown: `UTF-8`, `UTF-16` or `UTF-32`.
    pub fn name(&self) -> (r: &'static str)
        ensures
            r@ == (match self {
                UnicodeEncoding::Utf8 => "UTF-8"@,
                UnicodeEncoding::Utf16 => "UTF-16"@,
                UnicodeEncoding::Utf32 => "UTF-32"@,
            }),
    {
        match self {
            UnicodeEncoding::Utf8 => "UTF-8",
            UnicodeEncoding::Utf16 => "UTF-16",
            UnicodeEncoding::Utf32 => "UTF-32",
        }
    }
}

/// Which UUID to write.
#[derive(Debug, Clone, Copy, PartialEq, Eq, Structural)]
pub enum UuidVersion {
    /// The nil UUID: all bits zero.
    Empty,
    /// A random UUID of version 4.
    V4,
    /// The max UUID: all bits one.
    Max,
}

/// A closed range of integers.
#[derive(Debug, Clone, Copy, PartialEq, Eq, Structural)]
pub struct IntRange {
    pub min: i64,
    pub max: i64,
}

} // verus!
