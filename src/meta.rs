//! Series descriptors, sample qualities and typed sample values.

use vstd::prelude::*;

verus! {

/// Mask of the two major bits of a quality code (`QQ_SSSS_LL`).
pub const MASK_MAJOR: u8 = 0b1100_0000;

/// Mask of the sub-status bits of a quality code.
pub const MASK_SUB: u8 = 0b0011_1000;

/// Mask of the limit bits of a quality code.
pub const MASK_LIMIT: u8 = 0b0000_0111;

/// The code of a slot that holds no sample (major bits `10`).
pub const QUALITY_MISSING: u8 = 0b1000_0000;

/// The code of a good sample with no sub-status.
pub const QUALITY_GOOD: u8 = 0b1100_0000;

/// An 8-bit OPC-style quality code.
#[derive(Clone, Copy, PartialEq, Eq, Structural, Debug, Hash)]
pub struct Quality(pub u8);

impl Quality {
    /// The major part: 0 bad, 1 uncertain, 2 missing, 3 good.
    pub open spec fn major(self) -> u8 {
        self.0 / 64
    }

    pub open spec fn spec_is_missing(self) -> bool {
        self.major() == 2
    }

    /// Good or uncertain.
    pub open spec fn spec_is_valid(self) -> bool {
        self.major() == 3 || self.major() == 1
    }

    pub fn missing() -> (r: Quality)
        ensures
            r.0 == QUALITY_MISSING,
            r.spec_is_missing(),
    {
        Quality(QUALITY_MISSING)
    }

    pub fn is_good(self) -> (r: bool)
        ensures
            r == (self.major() == 3),
    {
        self.0 / 64 == 3
    }

    pub fn is_bad(self) -> (r: bool)
        ensures
            r == (self.major() == 0),
    {
        self.0 / 64 == 0
    }

    pub fn is_uncertain(self) -> (r: bool)
        ensures
            r == (self.major() == 1),
    {
        self.0 / 64 == 1
    }

    pub fn is_missing(self) -> (r: bool)
        ensures
            r == self.spec_is_missing(),
    {
        self.0 / 64 == 2
    }

    pub fn is_valid(self) -> (r: bool)
        ensures
            r == self.spec_is_valid(),
    {
        self.is_good() || self.is_uncertain()
    }
}

impl Default for Quality {
    fn default() -> (r: Quality)
        ensures
            r.0 == QUALITY_GOOD,
    {
        Quality(QUALITY_GOOD)
    }
}

/// The numeric type of a series' samples.
#[derive(Clone, Copy, PartialEq, Eq, Structural, Debug, Hash)]
pub enum StorageType {
    Float32,
    Float64,
    Int32,
    Int64,
    UInt32,
    UInt64,
    Enumeration,
}

impl StorageType {
    pub open spec fn width(self) -> nat {
        match self {
            StorageType::Float32 => 4,
            StorageType::Float64 => 8,
            StorageType::Int32 => 4,
            StorageType::Int64 => 8,
            StorageType::UInt32 => 4,
            StorageType::UInt64 => 8,
            StorageType::Enumeration => 1,
        }
    }

    pub open spec fn spec_is_float(self) -> bool {
        self is Float32 || self is Float64
    }

    /// Bytes of one sample in its native width.
    pub fn sample_bytes(self) -> (r: u64)
        ensures
            r == self.width(),
    {
        match self {
            StorageType::Float32 => 4,
            StorageType::Float64 => 8,
            StorageType::Int32 => 4,
            StorageType::Int64 => 8,
            StorageType::UInt32 => 4,
            StorageType::UInt64 => 8,
            StorageType::Enumeration => 1,
        }
    }

    pub fn is_float(self) -> (r: bool)
        ensures
            r == self.spec_is_float(),
    {
        matches!(self, StorageType::Float32 | StorageType::Float64)
    }

    /// The one-byte tag of the type in encoded blocks.
    pub open spec fn spec_tag(self) -> u8 {
        match self {
            StorageType::Float32 => 0,
            StorageType::Float64 => 1,
            StorageType::Int32 => 2,
            StorageType::Int64 => 3,
            StorageType::UInt32 => 4,
            StorageType::UInt64 => 5,
            StorageType::Enumeration => 6,
        }
    }

    pub fn tag(self) -> (r: u8)
        ensures
            r == self.spec_tag(),
    {
        match self {
            StorageType::Float32 => 0,
            StorageType::Float64 => 1,
            StorageType::Int32 => 2,
            StorageType::Int64 => 3,
            StorageType::UInt32 => 4,
            StorageType::UInt64 => 5,
            StorageType::Enumeration => 6,
        }
    }

    pub fn from_tag(t: u8) -> (r: Option<StorageType>)
        ensures
            r matches Some(st) ==> st.spec_tag() == t,
            r is None <==> t > 6,
    {
        match t {
            0 => Some(StorageType::Float32),
            1 => Some(StorageType::Float64),
            2 => Some(StorageType::Int32),
            3 => Some(StorageType::Int64),
            4 => Some(StorageType::UInt32),
            5 => Some(StorageType::UInt64),
            6 => Some(StorageType::Enumeration),
            _ => None,
        }
    }
}

/// A sample's native bit pattern fits its width.
pub open spec fn bits_fit(st: StorageType, bits: u64) -> bool {
    if st.width() == 1 {
        bits < 0x100
    } else if st.width() == 4 {
        bits < 0x1_0000_0000
    } else {
        true
    }
}

/// Whether a bit pattern fits the width of its sample type.
pub fn value_fits(st: StorageType, bits: u64) -> (r: bool)
    ensures
        r == bits_fit(st, bits),
{
    match st.sample_bytes() {
        1 => bits < 0x100,
        4 => bits < 0x1_0000_0000,
        _ => true,
    }
}

/// What an integer sample's bit pattern denotes (two's complement for the
/// signed types).
pub open spec fn sample_int(st: StorageType, bits: u64) -> int {
    match st {
        StorageType::Int32 => if bits < 0x8000_0000 {
            bits as int
        } else {
            bits - 0x1_0000_0000
        },
        StorageType::Int64 => if bits < 0x8000_0000_0000_0000 {
            bits as int
        } else {
            bits - 0x1_0000_0000_0000_0000
        },
        _ => bits as int,
    }
}

/// The sample value as a signed 128-bit number.
pub fn sample_value(st: StorageType, bits: u64) -> (r: i128)
    ensures
        r == sample_int(st, bits),
{
    match st {
        StorageType::Int32 => if bits < 0x8000_0000 {
            bits as i128
        } else {
            bits as i128 - 0x1_0000_0000
        },
        StorageType::Int64 => if bits < 0x8000_0000_0000_0000 {
            bits as i128
        } else {
            bits as i128 - 0x1_0000_0000_0000_0000
        },
        _ => bits as i128,
    }
}

/// The largest value of the sample type, as a bit pattern.
pub open spec fn spec_type_max(st: StorageType) -> u64 {
    match st {
        StorageType::Int32 => 0x7fff_ffff,
        StorageType::Int64 => 0x7fff_ffff_ffff_ffff,
        StorageType::UInt32 => 0xffff_ffff,
        StorageType::Enumeration => 0xff,
        _ => 0xffff_ffff_ffff_ffff,
    }
}

/// The smallest value of the sample type, as a bit pattern.
pub open spec fn spec_type_min(st: StorageType) -> u64 {
    match st {
        StorageType::Int32 => 0x8000_0000,
        StorageType::Int64 => 0x8000_0000_0000_0000,
        _ => 0,
    }
}

pub fn type_max(st: StorageType) -> (r: u64)
    ensures
        r == spec_type_max(st),
{
    match st {
        StorageType::Int32 => 0x7fff_ffff,
        StorageType::Int64 => 0x7fff_ffff_ffff_ffff,
        StorageType::UInt32 => 0xffff_ffff,
        StorageType::Enumeration => 0xff,
        _ => 0xffff_ffff_ffff_ffff,
    }
}

pub fn type_min(st: StorageType) -> (r: u64)
    ensures
        r == spec_type_min(st),
{
    match st {
        StorageType::Int32 => 0x8000_0000,
        StorageType::Int64 => 0x8000_0000_0000_0000,
        _ => 0,
    }
}

/// A time unit, in milliseconds.
#[derive(Clone, Copy, PartialEq, Eq, Structural, Debug, Hash)]
pub enum TimeResolution {
    Millisecond,
    Second,
    Minute,
    Hour,
}

impl TimeResolution {
    pub open spec fn spec_ms(self) -> nat {
        match self {
            TimeResolution::Millisecond => 1,
            TimeResolution::Second => 1000,
            TimeResolution::Minute => 60_000,
            TimeResolution::Hour => 3_600_000,
        }
    }

    pub fn ms(self) -> (r: u64)
        ensures
            r == self.spec_ms(),
    {
        match self {
            TimeResolution::Millisecond => 1,
            TimeResolution::Second => 1000,
            TimeResolution::Minute => 60_000,
            TimeResolution::Hour => 3_600_000,
        }
    }
}

#[derive(Clone, Copy, PartialEq, Eq, Structural, Debug, Hash, PartialOrd, Ord)]
pub struct BlockNumber(pub u64);

/// A block length in units of its resolution; positive.
#[derive(Clone, Copy, PartialEq, Eq, Structural, Debug)]
pub struct BlockLength(pub u64);

/// A sample length in units of its resolution; positive.
#[derive(Clone, Copy, PartialEq, Eq, Structural, Debug)]
pub struct SampleLength(pub u64);

/// A series identifier; nonzero.
#[derive(Clone, Copy, PartialEq, Eq, Structural, Debug, Hash, PartialOrd, Ord)]
pub struct SeriesId(pub u64);

#[derive(Clone, Debug)]
pub struct Label {
    pub name: String,
    pub value: String,
}

/// The descriptor of a series.
#[derive(Clone, Debug)]
pub struct SeriesMeta {
    pub id: SeriesId,
    pub name: String,
    pub storage_type: StorageType,
    pub block_length: BlockLength,
    pub block_resolution: TimeResolution,
    pub sample_length: SampleLength,
    pub sample_resolution: TimeResolution,
    pub first_block: BlockNumber,
    pub last_block: BlockNumber,
    pub labels: Vec<Label>,
}

impl SeriesMeta {
    /// Block duration in milliseconds.
    pub open spec fn block_ms(self) -> int {
        self.block_length.0 * self.block_resolution.spec_ms()
    }

    /// Sample duration in milliseconds.
    pub open spec fn sample_ms(self) -> int {
        self.sample_length.0 * self.sample_resolution.spec_ms()
    }

    /// Samples per block.
    pub open spec fn capacity(self) -> int {
        self.block_ms() / self.sample_ms()
    }

    /// The descriptor's invariant: positive durations that fit 64 bits, a
    /// block that is a whole number of samples longer than one, and a
    /// capacity whose offsets fit 32 bits.
    pub open spec fn wf(self) -> bool {
        &&& self.id.0 != 0
        &&& self.block_length.0 > 0
        &&& self.sample_length.0 > 0
        &&& self.block_ms() <= u64::MAX
        &&& self.sample_ms() <= u64::MAX
        &&& self.sample_ms() > 0
        &&& self.block_ms() > self.sample_ms()
        &&& self.block_ms() % self.sample_ms() == 0
        &&& self.capacity() <= u32::MAX
    }

    /// Whether the descriptor satisfies its invariant.
    pub fn check(&self) -> (r: bool)
        ensures
            r == self.wf(),
    {
        if self.id.0 == 0 || self.block_length.0 == 0 || self.sample_length.0 == 0 {
            return false;
        }
        let b = match self.block_length.0.checked_mul(self.block_resolution.ms()) {
            Some(b) => b,
            None => {
                return false;
            },
        };
        let s = match self.sample_length.0.checked_mul(self.sample_resolution.ms()) {
            Some(s) => s,
            None => {
                return false;
            },
        };
        proof {
            assert(s > 0) by (nonlinear_arith)
                requires
                    s == self.sample_length.0 * self.sample_resolution.spec_ms(),
                    self.sample_length.0 > 0,
                    self.sample_resolution.spec_ms() > 0,
            ;
        }
        b > s && b % s == 0 && b / s <= u32::MAX as u64
    }
}

/// A slice that holds at least one item.
#[derive(Debug)]
pub struct NonEmptySlice<'a, T>(&'a [T]);

impl<'a, T> NonEmptySlice<'a, T> {
    pub closed spec fn view(&self) -> Seq<T> {
        self.0@
    }

    #[verifier::type_invariant]
    spec fn non_empty(self) -> bool {
        self.0@.len() > 0
    }

    pub fn new(slice: &'a [T]) -> (r: Option<NonEmptySlice<'a, T>>)
        ensures
            r is Some <==> slice@.len() > 0,
            r matches Some(s) ==> s.view() == slice@,
    {
        if slice.len() == 0 {
            None
        } else {
            Some(NonEmptySlice(slice))
        }
    }

    pub fn as_slice(&self) -> (r: &'a [T])
        ensures
            r@ == self.view(),
            r@.len() > 0,
    {
        proof {
            use_type_invariant(self);
        }
        self.0
    }
}

/// Errors of the series catalog.
#[derive(Debug)]
pub enum MetaStoreError {
    Duplicate(SeriesId),
    NotFound(SeriesId),
    Unknown(String),
}

} // verus!
