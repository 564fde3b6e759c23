use vstd::prelude::*;
use crate::date::{parse_date, parse_date_spec, Date};
use crate::decode::{decode_records, zipped_records};
use crate::errors::{ApiError, DecodeError};
use crate::limiter::RateLimiter;
use crate::record::{MoistureQuery, SoilMoistureRecord};
use crate::store::{query_results, upsert_batch_spec, Table};

verus! {

/// Whether an HTTP status marks success: the 2xx class. The fetch path
/// treats any other status as a failed ingestion.
pub open spec fn is_success_spec(status: u16) -> bool {
    200 <= status < 300
}

pub fn status_is_success(status: u16) -> (r: bool)
    ensures
        r == is_success_spec(status),
{
    200 <= status && status < 300
}

/// The query a request's parameters describe, when both date parameters
/// parse; meaningful under that condition.
pub open spec fn parsed_query(lat: u64, lon: u64, start: Seq<u8>, end: Seq<u8>) -> MoistureQuery {
    MoistureQuery {
        lat,
        lon,
        start_date: parse_date_spec(start).unwrap(),
        end_date: parse_date_spec(end).unwrap(),
    }
}

/// Validates request parameters into a query. The coordinates arrive already
/// as bit patterns; the two dates arrive as ISO-8601 text and are accepted
/// exactly when they parse as valid calendar dates, else the caller is told
/// the input is bad.
pub fn build_query(lat: u64, lon: u64, start: &[u8], end: &[u8]) -> (r: Result<
    MoistureQuery,
    ApiError,
>)
    ensures
        r is Ok <==> parse_date_spec(start@) is Some && parse_date_spec(end@) is Some,
        r matches Ok(q) ==> q == parsed_query(lat, lon, start@, end@),
        r is Err ==> r == Result::<MoistureQuery, ApiError>::Err(ApiError::InvalidInput),
{
    let start_date = parse_date(start);
    let end_date = parse_date(end);
    match (start_date, end_date) {
        (Some(s), Some(e)) => Ok(
            MoistureQuery { lat, lon, start_date: s, end_date: e },
        ),
        _ => Err(ApiError::InvalidInput),
    }
}

/// The read path of the service, after the transport has pulled the raw
/// parameters out of the request: enforce the caller's admission gate first,
/// then validate the parameters, then run the query.
///
/// On denial the store is never touched and the caller gets
/// `RateLimitExceeded`; on admission, bad date text gets `InvalidInput`, and
/// otherwise exactly the matching rows come back in storage order. The
/// limiter moves by one admission step for this identity and not at all for
/// any other.
pub fn handle_query(
    limiter: &mut RateLimiter,
    table: &Table,
    identity: &[u8],
    lat: u64,
    lon: u64,
    start: &[u8],
    end: &[u8],
    now: u64,
) -> (r: Result<Vec<SoilMoistureRecord>, ApiError>)
    requires
        old(limiter).wf(),
    ensures
        final(limiter).wf(),
        final(limiter).contains_id(identity@),
        exists|admitted: bool| old(limiter).stepped(*final(limiter), identity@, admitted, now),
        forall|id: Seq<u8>|
            id != identity@ ==> (final(limiter).contains_id(id) == old(limiter).contains_id(id)),
        forall|id: Seq<u8>|
            id != identity@ && old(limiter).contains_id(id) ==> final(limiter).bucket_of(id) == old(
                limiter,
            ).bucket_of(id),
        forall|admitted: bool|
            old(limiter).stepped(*final(limiter), identity@, admitted, now) ==> r == (if !admitted {
                Result::<Vec<SoilMoistureRecord>, ApiError>::Err(ApiError::RateLimitExceeded)
            } else if !(parse_date_spec(start@) is Some && parse_date_spec(end@) is Some) {
                Result::<Vec<SoilMoistureRecord>, ApiError>::Err(ApiError::InvalidInput)
            } else {
                r
            }),
        (exists|admitted: bool|
            old(limiter).stepped(*final(limiter), identity@, admitted, now) && admitted)
            && parse_date_spec(start@) is Some && parse_date_spec(end@) is Some ==> (r matches Ok(v)
            && v@ == query_results(table@, parsed_query(lat, lon, start@, end@))),
{
    let admitted = limiter.admit_at(identity, now);
    if !admitted {
        return Err(ApiError::RateLimitExceeded);
    }
    match build_query(lat, lon, start, end) {
        Err(e) => Err(e),
        Ok(q) => Ok(table.query(&q)),
    }
}

/// The ingestion step behind the update trigger and the scheduled refresh,
/// once the transport has staged the three arrays: decode them whole, then
/// apply the records as one batch. A failed decode applies nothing — the
/// table is exactly as it was — and on success the count of decoded records
/// comes back.
pub fn ingest(
    table: &mut Table,
    date: Date,
    moisture: &Vec<u64>,
    lat: &Vec<u64>,
    lon: &Vec<u64>,
    chunk_size: usize,
) -> (r: Result<usize, ApiError>)
    requires
        old(table).wf(),
    ensures
        final(table).wf(),
        r is Ok <==> chunk_size >= 1 && lat@.len() == moisture@.len() && lon@.len()
            == moisture@.len(),
        r matches Ok(n) ==> n == moisture@.len() && final(table)@ == upsert_batch_spec(
            old(table)@,
            zipped_records(date, moisture@, lat@, lon@),
        ),
        r is Err ==> final(table)@ == old(table)@,
        chunk_size == 0 ==> r == Result::<usize, ApiError>::Err(
            ApiError::Decode(DecodeError::InvalidChunkSize),
        ),
        chunk_size >= 1 && !(lat@.len() == moisture@.len() && lon@.len() == moisture@.len()) ==> r
            == Result::<usize, ApiError>::Err(ApiError::Decode(DecodeError::LengthMismatch)),
{
    match decode_records(date, moisture, lat, lon, chunk_size) {
        Err(e) => Err(ApiError::Decode(e)),
        Ok(records) => {
            let n: usize = records.len();
            table.upsert_batch(&records);
            Ok(n)
        },
    }
}

} // verus!
