//! Telemetry as the source delivers it, and the samples made of it.

use crate::track::Position;
use vstd::prelude::*;

verus! {

/// One record of the telemetry source, as it arrives: a position, the time
/// as RFC 3339 text, and the participant.
#[derive(Clone, Debug, PartialEq, Eq)]
pub struct RawRecord {
    pub x: i32,
    pub y: i32,
    pub date: String,
    pub participant_id: u32,
}

/// One observation of a participant's position at a time.
#[derive(Clone, Copy, Debug, PartialEq, Eq, Structural)]
pub struct Sample {
    pub participant_id: u32,
    pub position: Position,
    pub timestamp_ms: i64,
}

/// Why a record gives no sample.
#[derive(Clone, Copy, Debug, PartialEq, Eq, Structural)]
pub enum DataError {
    /// The position is the value that the source sends for "no data".
    NoPosition,
    /// The time is no RFC 3339 date and time.
    BadTimestamp,
}

/// The position that stands for "no data": the origin.
pub open spec fn is_no_data(p: Position) -> bool {
    p.x == 0 && p.y == 0
}

/// What chrono makes of `date` as an RFC 3339 date and time: the instant that
/// it reads, in milliseconds since 1970-01-01T00:00:00Z, or `None` where it
/// reads none.
pub uninterp spec fn rfc3339_millis(date: Seq<char>) -> Option<i64>;

/// Reads `date` with chrono's `DateTime::parse_from_rfc3339` and, where that
/// succeeds, takes the instant's `timestamp_millis`. Of the outcome the
/// contract claims only that it depends on the text alone, which is what
/// giving it the name `rfc3339_millis` says.
#[verifier::external_body]
fn parse_rfc3339_millis(date: &str) -> (millis: Option<i64>)
    ensures
        millis == rfc3339_millis(date@),
{
    match chrono::DateTime::parse_from_rfc3339(date) {
        Ok(instant) => Some(instant.timestamp_millis()),
        Err(_) => None,
    }
}

/// The sample that a record's parts make, `parsed` being what its time
/// reads as: none at the "no data" position, none without a time.
pub open spec fn sample_of(participant_id: u32, position: Position, parsed: Option<i64>) -> Result<
    Sample,
    DataError,
> {
    if is_no_data(position) {
        Err(DataError::NoPosition)
    } else {
        match parsed {
            None => Err(DataError::BadTimestamp),
            Some(timestamp_ms) => Ok(Sample { participant_id, position, timestamp_ms }),
        }
    }
}

/// The sample that a record makes, or why it makes none.
pub open spec fn sample_of_record(record: RawRecord) -> Result<Sample, DataError> {
    sample_of(
        record.participant_id,
        Position { x: record.x, y: record.y },
        rfc3339_millis(record.date@),
    )
}

/// The samples that the records of one page make, in the page's order; the
/// records that make none are left out.
pub open spec fn valid_samples(records: Seq<RawRecord>) -> Seq<Sample>
    decreases records.len(),
{
    if records.len() == 0 {
        Seq::empty()
    } else {
        match sample_of_record(records.last()) {
            Ok(sample) => valid_samples(records.drop_last()).push(sample),
            Err(_) => valid_samples(records.drop_last()),
        }
    }
}

/// No page makes more samples than it has records.
pub proof fn lemma_valid_samples_len(records: Seq<RawRecord>)
    ensures
        valid_samples(records).len() <= records.len(),
    decreases records.len(),
{
    if records.len() > 0 {
        lemma_valid_samples_len(records.drop_last());
    }
}

/// Makes a sample of a record's parts, `parsed` being what its time reads
/// as.
pub fn sample_from_parts(participant_id: u32, position: Position, parsed: Option<i64>) -> (made:
    Result<Sample, DataError>)
    ensures
        made == sample_of(participant_id, position, parsed),
{
    if position.x == 0 && position.y == 0 {
        Err(DataError::NoPosition)
    } else {
        match parsed {
            None => Err(DataError::BadTimestamp),
            Some(timestamp_ms) => Ok(Sample { participant_id, position, timestamp_ms }),
        }
    }
}

/// Makes a sample of a record: its position must not be the "no data"
/// value, and its time must read as an RFC 3339 date and time.
pub fn validate(record: &RawRecord) -> (made: Result<Sample, DataError>)
    ensures
        made == sample_of_record(*record),
{
    let position = Position { x: record.x, y: record.y };
    if position.x == 0 && position.y == 0 {
        Err(DataError::NoPosition)
    } else {
        sample_from_parts(record.participant_id, position, parse_rfc3339_millis(record.date.as_str()))
    }
}

/// Appends to `samples` the samples that the records of `page` make, in the
/// page's order, and returns how many these are.
pub fn append_valid(samples: &mut Vec<Sample>, page: &Vec<RawRecord>) -> (added: usize)
    ensures
        final(samples)@ == old(samples)@ + valid_samples(page@),
        added == valid_samples(page@).len(),
{
    let mut added: usize = 0;
    let mut i: usize = 0;
    while i < page.len()
        invariant
            i <= page@.len(),
            samples@ == old(samples)@ + valid_samples(page@.take(i as int)),
            added == valid_samples(page@.take(i as int)).len(),
        decreases page@.len() - i,
    {
        proof {
            assert(page@.take(i + 1).drop_last() =~= page@.take(i as int));
            lemma_valid_samples_len(page@.take(i as int));
        }
        match validate(&page[i]) {
            Ok(sample) => {
                samples.push(sample);
                added += 1;
            },
            Err(_) => {},
        }
        i += 1;
    }
    proof {
        assert(page@.take(page@.len() as int) =~= page@);
    }
    added
}

} // verus!
