//! Size expressions such as `+1024k`, `-=500c` and `=10M`: a comparison
//! sign, a decimal number and a unit, the sign and the unit both optional.

use vstd::prelude::*;
use vstd::slice::slice_subrange;
use crate::fs::file::File;

verus! {

/// The byte `+`.
pub const PLUS: u8 = 43;

/// The byte `-`.
pub const MINUS: u8 = 45;

/// The byte `=`.
pub const EQUAL_SIGN: u8 = 61;

/// The byte `0`.
pub const ZERO: u8 = 48;

/// The byte `9`.
pub const NINE: u8 = 57;

/// How a file's size is compared with the size that an expression names.
#[derive(Debug, Clone, Copy, PartialEq, Eq)]
pub enum ComparisonSign {
    /// `+`: larger.
    Superior,
    /// `-`: smaller.
    Inferior,
    /// `=`: the same size.
    Equal,
    /// `+=`: larger or the same size.
    SuperiorOrEqual,
    /// `-=`: smaller or the same size.
    InferiorOrEqual,
}

/// The unit that a size is counted in.
#[derive(Debug, Clone, Copy, PartialEq, Eq)]
pub enum FileSizeUnit {
    /// `c`: bytes.
    Byte,
    /// `k`: 1024 bytes.
    Kibibyte,
    /// `M`: 1024 * 1024 bytes.
    Megabyte,
    /// `G`: 1024 * 1024 * 1024 bytes.
    Gibibyte,
}

/// The sign that `sign` spells, where it is one of `=`, `+`, `-`, `+=`
/// and `-=`.
pub open spec fn sign_of(sign: Seq<u8>) -> Option<ComparisonSign> {
    if sign.len() == 1 && sign[0] == EQUAL_SIGN {
        Some(ComparisonSign::Equal)
    } else if sign.len() == 1 && sign[0] == PLUS {
        Some(ComparisonSign::Superior)
    } else if sign.len() == 1 && sign[0] == MINUS {
        Some(ComparisonSign::Inferior)
    } else if sign.len() == 2 && sign[0] == PLUS && sign[1] == EQUAL_SIGN {
        Some(ComparisonSign::SuperiorOrEqual)
    } else if sign.len() == 2 && sign[0] == MINUS && sign[1] == EQUAL_SIGN {
        Some(ComparisonSign::InferiorOrEqual)
    } else {
        None
    }
}

/// How many bytes at the start of `bytes` are its sign: two where it
/// starts with `+=` or `-=`, else one where it starts with `+`, `-` or `=`,
/// else none.
pub open spec fn sign_length(bytes: Seq<u8>) -> int {
    if bytes.len() >= 2 && sign_of(bytes.take(2)) is Some {
        2
    } else if bytes.len() >= 1 && sign_of(bytes.take(1)) is Some {
        1
    } else {
        0
    }
}

/// The sign at the start of `bytes`, if there is one.
pub open spec fn sign_spec(bytes: Seq<u8>) -> Option<ComparisonSign> {
    sign_of(bytes.take(sign_length(bytes)))
}

/// The unit that `byte` stands for.
pub open spec fn unit_of(byte: u8) -> Option<FileSizeUnit> {
    if byte == 99 {
        Some(FileSizeUnit::Byte)
    } else if byte == 107 {
        Some(FileSizeUnit::Kibibyte)
    } else if byte == 77 {
        Some(FileSizeUnit::Megabyte)
    } else if byte == 71 {
        Some(FileSizeUnit::Gibibyte)
    } else {
        None
    }
}

/// The unit at the end of `bytes`, if there is one.
pub open spec fn unit_spec(bytes: Seq<u8>) -> Option<FileSizeUnit> {
    if bytes.len() == 0 {
        None
    } else {
        unit_of(bytes.last())
    }
}

/// How many bytes a unit holds.
pub open spec fn unit_bytes(unit: FileSizeUnit) -> nat {
    match unit {
        FileSizeUnit::Byte => 1,
        FileSizeUnit::Kibibyte => 1024,
        FileSizeUnit::Megabyte => 1048576,
        FileSizeUnit::Gibibyte => 1073741824,
    }
}

/// What lies between the sign of `bytes` and its last byte, where
/// `with_unit` says that the last byte is a unit, or its end.
pub open spec fn literal_of(bytes: Seq<u8>, with_unit: bool) -> Seq<u8> {
    let start = sign_length(bytes);
    let end = if with_unit && start < bytes.len() {
        bytes.len() - 1
    } else {
        bytes.len() as int
    };
    bytes.subrange(start, end)
}

/// Whether `byte` is a decimal digit.
pub open spec fn is_digit(byte: u8) -> bool {
    ZERO <= byte <= NINE
}

/// The number that the decimal digits `digits` spell.
pub open spec fn decimal(digits: Seq<u8>) -> nat
    decreases digits.len(),
{
    if digits.len() == 0 {
        0
    } else {
        decimal(digits.drop_last()) * 10 + (digits.last() - ZERO) as nat
    }
}

/// The number that `literal` stands for: the one that it spells where it
/// is made of decimal digits, at least one, and spells a number that 64
/// bits hold; else zero.
pub open spec fn literal_value(literal: Seq<u8>) -> nat {
    if literal.len() > 0 && (forall|i: int| 0 <= i < literal.len() ==> is_digit(#[trigger] literal[i]))
        && decimal(literal) <= u64::MAX {
        decimal(literal)
    } else {
        0
    }
}

/// A filter on the size of a file.
#[derive(Debug, Clone, Copy, PartialEq, Eq)]
pub enum SizeFilter {
    /// Every size passes.
    Unfiltered,
    /// The size must be this many bytes.
    Equal(u64),
    /// The size must be less than this many bytes.
    Inferior(u64),
    /// The size must be more than this many bytes.
    Superior(u64),
    /// The size must be at least this many bytes.
    SuperiorOrEqual(u64),
    /// The size must be at most this many bytes.
    InferiorOrEqual(u64),
}

/// The number that the expression `bytes` holds, before its unit is
/// applied.
pub open spec fn size_number(bytes: Seq<u8>) -> nat {
    literal_value(literal_of(bytes, unit_spec(bytes) is Some))
}

/// The number of bytes that the expression `bytes` names.
pub open spec fn size_in_bytes(bytes: Seq<u8>) -> nat {
    match unit_spec(bytes) {
        Some(unit) => size_number(bytes) * unit_bytes(unit),
        None => size_number(bytes),
    }
}

/// The filter that compares with `size` as `sign` says. No sign means the
/// same as `=`.
pub open spec fn with_sign(sign: Option<ComparisonSign>, size: u64) -> SizeFilter {
    match sign {
        Some(ComparisonSign::Equal) | None => SizeFilter::Equal(size),
        Some(ComparisonSign::Inferior) => SizeFilter::Inferior(size),
        Some(ComparisonSign::Superior) => SizeFilter::Superior(size),
        Some(ComparisonSign::InferiorOrEqual) => SizeFilter::InferiorOrEqual(size),
        Some(ComparisonSign::SuperiorOrEqual) => SizeFilter::SuperiorOrEqual(size),
    }
}

/// The filter that the expression `bytes` stands for, where the number of
/// bytes that it names fits into 64 bits.
pub open spec fn size_filter_spec(bytes: Seq<u8>) -> Option<SizeFilter> {
    if size_in_bytes(bytes) <= u64::MAX {
        Some(with_sign(sign_spec(bytes), size_in_bytes(bytes) as u64))
    } else {
        None
    }
}

impl SizeFilter {
    /// Whether a file of `size` bytes passes the filter.
    pub open spec fn accepts(self, size: u64) -> bool {
        match self {
            SizeFilter::Unfiltered => true,
            SizeFilter::Equal(bound) => size == bound,
            SizeFilter::Inferior(bound) => size < bound,
            SizeFilter::Superior(bound) => size > bound,
            SizeFilter::InferiorOrEqual(bound) => size <= bound,
            SizeFilter::SuperiorOrEqual(bound) => size >= bound,
        }
    }

    /// Whether `file` passes the filter.
    pub fn match_file(&self, file: &File) -> (res: bool)
        ensures
            res == self.accepts(file.size),
    {
        let size = file.get_size();
        match self {
            SizeFilter::Unfiltered => true,
            SizeFilter::Equal(bound) => size == *bound,
            SizeFilter::Inferior(bound) => size < *bound,
            SizeFilter::Superior(bound) => size > *bound,
            SizeFilter::InferiorOrEqual(bound) => size <= *bound,
            SizeFilter::SuperiorOrEqual(bound) => size >= *bound,
        }
    }

    /// The sign at the start of a size expression: `+=` or `-=` where it
    /// starts with one of them, else `+`, `-` or `=`.
    pub fn parse_sign(bytes: &[u8]) -> (res: Option<ComparisonSign>)
        ensures
            res == sign_spec(bytes@),
    {
        if bytes.len() >= 2 {
            let two = ComparisonSign::from_str(slice_subrange(bytes, 0, 2));
            if two.is_some() {
                return two;
            }
        }
        if bytes.len() >= 1 {
            let one = ComparisonSign::from_str(slice_subrange(bytes, 0, 1));
            proof {
                if one is None {
                    assert(bytes@.take(0).len() == 0);
                }
            }
            one
        } else {
            assert(bytes@.take(0).len() == 0);
            None
        }
    }

    /// The unit that the last byte of a size expression stands for.
    pub fn parse_unit(byte: &u8) -> (res: Option<FileSizeUnit>)
        ensures
            res == unit_of(*byte),
    {
        let byte = *byte;
        if byte == 99 {
            Some(FileSizeUnit::Byte)
        } else if byte == 107 {
            Some(FileSizeUnit::Kibibyte)
        } else if byte == 77 {
            Some(FileSizeUnit::Megabyte)
        } else if byte == 71 {
            Some(FileSizeUnit::Gibibyte)
        } else {
            None
        }
    }

    /// The number in a size expression: what stands after the sign and,
    /// where `unit` was found, before the last byte. What is no decimal
    /// number counts as zero.
    pub fn parse_size(unit: &Option<FileSizeUnit>, bytes: &[u8]) -> (res: u64)
        ensures
            res == literal_value(literal_of(bytes@, *unit is Some)),
    {
        let start: usize = match Self::parse_sign(bytes) {
            Some(ComparisonSign::SuperiorOrEqual) | Some(ComparisonSign::InferiorOrEqual) => 2,
            Some(_) => 1,
            None => 0,
        };
        let end: usize = if unit.is_some() && start < bytes.len() {
            bytes.len() - 1
        } else {
            bytes.len()
        };
        parse_literal(slice_subrange(bytes, start, end))
    }

    /// The filter that compares with `size` as `sign` says.
    pub fn from_sign(sign: Option<ComparisonSign>, size: u64) -> (res: Self)
        ensures
            res == with_sign(sign, size),
    {
        match sign {
            Some(ComparisonSign::Equal) | None => SizeFilter::Equal(size),
            Some(ComparisonSign::Inferior) => SizeFilter::Inferior(size),
            Some(ComparisonSign::Superior) => SizeFilter::Superior(size),
            Some(ComparisonSign::InferiorOrEqual) => SizeFilter::InferiorOrEqual(size),
            Some(ComparisonSign::SuperiorOrEqual) => SizeFilter::SuperiorOrEqual(size),
        }
    }

    /// Reads a size expression. There is no filter where the number of
    /// bytes that the expression names does not fit into 64 bits.
    pub fn from_bytes(bytes: &[u8]) -> (res: Option<Self>)
        ensures
            res == size_filter_spec(bytes@),
    {
        let sign = Self::parse_sign(bytes);
        let unit = if bytes.len() > 0 {
            Self::parse_unit(&bytes[bytes.len() - 1])
        } else {
            None
        };
        let number = Self::parse_size(&unit, bytes);
        let size = match unit {
            Some(unit) => match number.checked_mul(unit.into_bytes()) {
                Some(size) => size,
                None => {
                    return None;
                },
            },
            None => number,
        };
        Some(Self::from_sign(sign, size))
    }
}

impl Default for SizeFilter {
    fn default() -> (res: Self)
        ensures
            res == SizeFilter::Unfiltered,
    {
        SizeFilter::Unfiltered
    }
}

impl ComparisonSign {
    /// Reads a sign that is spelled out in full.
    pub fn from_str(sign: &[u8]) -> (res: Option<Self>)
        ensures
            res == sign_of(sign@),
    {
        if sign.len() == 1 {
            if sign[0] == EQUAL_SIGN {
                Some(ComparisonSign::Equal)
            } else if sign[0] == PLUS {
                Some(ComparisonSign::Superior)
            } else if sign[0] == MINUS {
                Some(ComparisonSign::Inferior)
            } else {
                None
            }
        } else if sign.len() == 2 && sign[1] == EQUAL_SIGN {
            if sign[0] == PLUS {
                Some(ComparisonSign::SuperiorOrEqual)
            } else if sign[0] == MINUS {
                Some(ComparisonSign::InferiorOrEqual)
            } else {
                None
            }
        } else {
            None
        }
    }
}

impl FileSizeUnit {
    /// How many bytes the unit holds.
    pub fn into_bytes(&self) -> (res: u64)
        ensures
            res == unit_bytes(*self),
    {
        match self {
            FileSizeUnit::Byte => 1,
            FileSizeUnit::Kibibyte => 1024,
            FileSizeUnit::Megabyte => 1048576,
            FileSizeUnit::Gibibyte => 1073741824,
        }
    }
}

/// A longer run of digits spells no smaller a number than its beginning.
pub proof fn lemma_decimal_grows(digits: Seq<u8>, n: int)
    requires
        0 <= n <= digits.len(),
        forall|i: int| 0 <= i < digits.len() ==> is_digit(#[trigger] digits[i]),
    ensures
        decimal(digits.take(n)) <= decimal(digits),
    decreases digits.len() - n,
{
    if n == digits.len() {
        assert(digits.take(n) =~= digits);
    } else {
        lemma_decimal_grows(digits, n + 1);
        assert(digits.take(n + 1).drop_last() =~= digits.take(n));
        assert(is_digit(digits[n]));
        assert(digits.take(n + 1).last() == digits[n]);
    }
}

/// The number that `literal` stands for.
pub fn parse_literal(literal: &[u8]) -> (res: u64)
    ensures
        res == literal_value(literal@),
{
    if literal.len() == 0 {
        return 0;
    }
    let mut value: u64 = 0;
    let mut i: usize = 0;
    assert(literal@.take(0) =~= Seq::<u8>::empty());
    while i < literal.len()
        invariant
            i <= literal@.len(),
            forall|j: int| 0 <= j < i ==> is_digit(#[trigger] literal@[j]),
            value == decimal(literal@.take(i as int)),
        decreases literal@.len() - i,
    {
        let byte = literal[i];
        if byte < ZERO || byte > NINE {
            assert(!is_digit(literal@[i as int]));
            return 0;
        }
        proof {
            assert(literal@.take(i + 1).drop_last() =~= literal@.take(i as int));
            assert(literal@.take(i + 1).last() == byte);
            if decimal(literal@.take(i + 1)) > u64::MAX {
                if forall|j: int| 0 <= j < literal@.len() ==> is_digit(#[trigger] literal@[j]) {
                    lemma_decimal_grows(literal@, i + 1);
                }
            }
        }
        let tens = match value.checked_mul(10) {
            Some(tens) => tens,
            None => {
                return 0;
            },
        };
        value = match tens.checked_add((byte - ZERO) as u64) {
            Some(sum) => sum,
            None => {
                return 0;
            },
        };
        i += 1;
    }
    assert(literal@.take(i as int) =~= literal@);
    value
}

} // verus!
