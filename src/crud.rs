//! Validation of series create and update requests, and error mapping.

use vstd::prelude::*;
use crate::helpers::{bucket_spec, derive_block_size, first_bucket_from, initial_block_size, MIN_BLOCK_LENGTH};
use crate::ingest::ApiError;
use crate::meta::{
    BlockLength, BlockNumber, Label, MetaStoreError, SampleLength, SeriesId, SeriesMeta,
    StorageType, TimeResolution,
};

verus! {

/// The pattern series names must match.
pub const RE_NAME: &'static str = "^[a-zA-Z][a-zA-Z0-9_]*$";

/// An ASCII letter.
pub open spec fn is_letter(c: char) -> bool {
    ('a' <= c && c <= 'z') || ('A' <= c && c <= 'Z')
}

/// A valid series name: a letter, then letters, digits or underscores.
pub open spec fn is_series_name(s: Seq<char>) -> bool {
    &&& s.len() > 0
    &&& is_letter(s[0])
    &&& forall|i: int|
        1 <= i < s.len() ==> is_letter(#[trigger] s[i]) || ('0' <= s[i] && s[i] <= '9') || s[i]
            == '_'
}

/// Relies on `regex::Regex::new` and `Regex::is_match`: `RE_NAME` compiles,
/// and with `^` and `$` anchoring the whole text it matches exactly the
/// valid series names.  `None` if the pattern failed to compile.
#[verifier::external_body]
fn regex_full_match(pattern: &str, text: &str) -> (r: Option<bool>)
    ensures
        pattern@ == RE_NAME@ ==> r == Some(is_series_name(text@)),
{
    match regex::Regex::new(pattern) {
        Ok(re) => Some(re.is_match(text)),
        Err(_) => None,
    }
}

/// Why a series request was refused.
#[derive(Debug)]
pub enum CrudError {
    SampleBlockDurationMismatch,
    InvalidSeriesName(String),
}

impl CrudError {
    pub fn to_api_error(self) -> (r: ApiError)
        ensures
            r is BadRequest,
    {
        match self {
            CrudError::SampleBlockDurationMismatch => ApiError::BadRequest(
                "sample duration (length * resolution) must be strictly smaller than block duration (length * resolution), and divide it".to_string(),
            ),
            CrudError::InvalidSeriesName(name) => {
                let mut s = String::from_str("invalid series name: '");
                s.append(name.as_str());
                s.append("'. validity: /^[a-zA-Z][a-zA-Z0-9_]*$/");
                ApiError::BadRequest(s)
            },
        }
    }
}

/// Refuses a name that is not a valid series name.
pub fn validate_series_name(name: &str) -> (r: Result<(), ApiError>)
    ensures
        r is Ok <==> is_series_name(name@),
        r matches Err(e) ==> e is BadRequest || e is Internal,
        !is_series_name(name@) ==> (r matches Err(e) && e is BadRequest),
{
    match regex_full_match(RE_NAME, name) {
        Some(true) => Ok(()),
        Some(false) => Err(CrudError::InvalidSeriesName(name.to_string()).to_api_error()),
        None => Err(as_internal_err(())),
    }
}

/// Any failure that clients see only as an internal error.
pub fn as_internal_err<E>(err: E) -> (r: ApiError)
    ensures
        r is Internal,
{
    ApiError::Internal
}

/// The client error for a catalog error: conflict, not found, or internal.
pub fn into_api_error(e: MetaStoreError) -> (r: ApiError)
    ensures
        e is Duplicate <==> r is Conflict,
        e is NotFound <==> r is NotFound,
        e is Unknown <==> r is Internal,
{
    match e {
        MetaStoreError::Duplicate(id) => {
            let mut s = String::from_str("series ");
            let d = crate::text::decimal(id.0);
            s.append(d.as_str());
            s.append(" already exists.");
            ApiError::Conflict(s)
        },
        MetaStoreError::NotFound(id) => {
            let mut s = String::from_str("series ");
            let d = crate::text::decimal(id.0);
            s.append(d.as_str());
            s.append(" not found");
            ApiError::NotFound(s)
        },
        MetaStoreError::Unknown(_) => as_internal_err(e),
    }
}

/// A request to create a series.  Without both block fields the block size
/// is derived from the sample size.
#[derive(Debug)]
pub struct CreateSeries {
    pub name: String,
    pub storage_type: StorageType,
    pub block_length: Option<BlockLength>,
    pub block_resolution: Option<TimeResolution>,
    pub sample_length: SampleLength,
    pub sample_resolution: TimeResolution,
    pub labels: Vec<Label>,
}

/// `len` units of `res` in milliseconds, not bounded.
pub open spec fn spec_duration(len: u64, res: TimeResolution) -> int {
    len * res.spec_ms()
}

impl CreateSeries {
    /// Durations fit 64 bits, and, when the block size is given, the block
    /// is longer than a sample and a whole number of them.
    pub open spec fn durations_ok(&self) -> bool {
        &&& self.sample_length.0 > 0
        &&& spec_duration(self.sample_length.0, self.sample_resolution) <= u64::MAX
        &&& (self.block_length, self.block_resolution) matches (Some(bl), Some(br)) ==> {
            let b = spec_duration(bl.0, br);
            let s = spec_duration(self.sample_length.0, self.sample_resolution);
            &&& bl.0 > 0
            &&& b <= u64::MAX
            &&& b > s
            &&& b % s == 0
        }
    }

    /// Checks the request: `BadRequest` when its durations are not
    /// `durations_ok`, or when its name is not a valid series name.
    pub fn validate(&self) -> (r: Result<(), ApiError>)
        ensures
            r is Ok <==> self.durations_ok() && is_series_name(self.name@),
            !self.durations_ok() ==> (r matches Err(e) && e is BadRequest),
    {
        if self.sample_length.0 == 0 {
            return Err(CrudError::SampleBlockDurationMismatch.to_api_error());
        }
        let sample_duration = match self.sample_length.0.checked_mul(self.sample_resolution.ms()) {
            Some(d) => d,
            None => {
                return Err(CrudError::SampleBlockDurationMismatch.to_api_error());
            },
        };
        match (self.block_length, self.block_resolution) {
            (Some(bl), Some(br)) => {
                if bl.0 == 0 {
                    return Err(CrudError::SampleBlockDurationMismatch.to_api_error());
                }
                let block_duration = match bl.0.checked_mul(br.ms()) {
                    Some(d) => d,
                    None => {
                        return Err(CrudError::SampleBlockDurationMismatch.to_api_error());
                    },
                };
                proof {
                    assert(sample_duration > 0) by (nonlinear_arith)
                        requires
                            sample_duration == self.sample_length.0 * self.sample_resolution.spec_ms(),
                            self.sample_length.0 > 0,
                            self.sample_resolution.spec_ms() > 0,
                    ;
                }
                if block_duration <= sample_duration || block_duration % sample_duration != 0 {
                    return Err(CrudError::SampleBlockDurationMismatch.to_api_error());
                }
            },
            _ => {},
        }
        validate_series_name(self.name.as_str())
    }
}

impl CreateSeries {
    /// The descriptor of the new series: the given block size when both
    /// block fields are set, else one derived from the sample size.
    pub fn to_meta(&self, id: SeriesId) -> (r: SeriesMeta)
        requires
            self.sample_length.0 > 0,
            self.sample_length.0 * self.sample_resolution.spec_ms() * MIN_BLOCK_LENGTH <= u64::MAX,
        ensures
            r.id == id,
            r.name@ == self.name@,
            r.storage_type == self.storage_type,
            r.sample_length == self.sample_length,
            r.sample_resolution == self.sample_resolution,
            r.first_block.0 == 0 && r.last_block.0 == 0,
            (self.block_length, self.block_resolution) matches (Some(bl), Some(br)) ==> r.block_length
                == bl && r.block_resolution == br,
            !(self.block_length is Some && self.block_resolution is Some) ==> ({
                let ms = self.sample_length.0 * self.sample_resolution.spec_ms() * MIN_BLOCK_LENGTH;
                let (l, u) = initial_block_size(ms);
                match first_bucket_from(l * u.spec_ms(), 0) {
                    Some(i) => (r.block_length.0, r.block_resolution) == bucket_spec(i),
                    None => r.block_length.0 == l && r.block_resolution == u,
                }
            }),
    {
        let (block_length, block_resolution) = match (self.block_length, self.block_resolution) {
            (Some(bl), Some(br)) => (bl, br),
            _ => derive_block_size(self.storage_type, self.sample_resolution, self.sample_length),
        };
        SeriesMeta {
            id,
            name: self.name.clone(),
            storage_type: self.storage_type,
            block_length,
            block_resolution,
            sample_length: self.sample_length,
            sample_resolution: self.sample_resolution,
            first_block: BlockNumber(0),
            last_block: BlockNumber(0),
            labels: self.labels.clone(),
        }
    }
}

/// A request to change a series' name or labels.
#[derive(Debug)]
pub struct UpdateSeries {
    pub name: Option<String>,
    pub labels: Option<Vec<Label>>,
}

impl UpdateSeries {
    /// `BadRequest` when nothing is to change or the new name is invalid.
    pub fn validate(&self) -> (r: Result<(), ApiError>)
        ensures
            r is Ok <==> (self.name is Some || self.labels is Some) && (self.name matches Some(
                n,
            ) ==> is_series_name(n@)),
            self.name is None && self.labels is None ==> (r matches Err(e) && e is BadRequest),
    {
        if self.name.is_none() && self.labels.is_none() {
            return Err(ApiError::BadRequest("No changes to apply".to_string()));
        }
        match &self.name {
            Some(name) => validate_series_name(name.as_str()),
            None => Ok(()),
        }
    }
}

} // verus!
