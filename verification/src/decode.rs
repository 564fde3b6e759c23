use vstd::prelude::*;
use crate::date::Date;
use crate::errors::DecodeError;
use crate::record::SoilMoistureRecord;

verus! {

/// The element-wise zip of the three source arrays into records, every record
/// tagged with the one ingestion date of the whole file. This is what a
/// decode yields, and it does not depend on the chunk size the decode was
/// partitioned by.
pub open spec fn zipped_records(date: Date, moisture: Seq<u64>, lat: Seq<u64>, lon: Seq<u64>) -> Seq<
    SoilMoistureRecord,
> {
    Seq::new(
        moisture.len(),
        |i: int| SoilMoistureRecord { date, lat: lat[i], lon: lon[i], moisture: moisture[i] },
    )
}

/// Decodes one contiguous index range of the source arrays. Workers that
/// split a decode share no index, so each produces exactly this slice of the
/// zip.
pub fn decode_chunk(
    date: Date,
    moisture: &[u64],
    lat: &[u64],
    lon: &[u64],
    start: usize,
    end: usize,
) -> (r: Vec<SoilMoistureRecord>)
    requires
        lat@.len() == moisture@.len(),
        lon@.len() == moisture@.len(),
        start <= end <= moisture@.len(),
    ensures
        r@ == zipped_records(date, moisture@, lat@, lon@).subrange(start as int, end as int),
{
    let mut out: Vec<SoilMoistureRecord> = Vec::new();
    let mut i: usize = start;
    while i < end
        invariant
            lat@.len() == moisture@.len(),
            lon@.len() == moisture@.len(),
            start <= i <= end <= moisture@.len(),
            out@ =~= zipped_records(date, moisture@, lat@, lon@).subrange(start as int, i as int),
        decreases end - i,
    {
        out.push(
            SoilMoistureRecord { date, lat: lat[i], lon: lon[i], moisture: moisture[i] },
        );
        i = i + 1;
    }
    proof {
        assert(out@ =~= zipped_records(date, moisture@, lat@, lon@).subrange(
            start as int,
            end as int,
        ));
    }
    out
}

/// Decodes the whole of the three parallel source arrays, chunk by chunk,
/// into the full record collection.
///
/// Succeeds exactly when the chunk size is positive and the three arrays have
/// one length; a zero chunk size or a length mismatch fails the decode as a
/// whole, and nothing partial comes back. On success the result is exactly
/// the element-wise zip, one record per source index, whatever the chunk
/// size.
pub fn decode_records(
    date: Date,
    moisture: &Vec<u64>,
    lat: &Vec<u64>,
    lon: &Vec<u64>,
    chunk_size: usize,
) -> (r: Result<Vec<SoilMoistureRecord>, DecodeError>)
    ensures
        r is Ok <==> chunk_size >= 1 && lat@.len() == moisture@.len() && lon@.len()
            == moisture@.len(),
        r matches Ok(v) ==> v@ == zipped_records(date, moisture@, lat@, lon@),
        chunk_size == 0 ==> r == Result::<Vec<SoilMoistureRecord>, DecodeError>::Err(
            DecodeError::InvalidChunkSize,
        ),
        chunk_size >= 1 && !(lat@.len() == moisture@.len() && lon@.len() == moisture@.len())
            ==> r == Result::<Vec<SoilMoistureRecord>, DecodeError>::Err(
            DecodeError::LengthMismatch,
        ),
{
    if chunk_size == 0 {
        return Err(DecodeError::InvalidChunkSize);
    }
    let n: usize = moisture.len();
    if lat.len() != n || lon.len() != n {
        return Err(DecodeError::LengthMismatch);
    }
    let mut out: Vec<SoilMoistureRecord> = Vec::new();
    let mut start: usize = 0;
    while start < n
        invariant
            chunk_size >= 1,
            lat@.len() == n,
            lon@.len() == n,
            moisture@.len() == n,
            start <= n,
            out@ =~= zipped_records(date, moisture@, lat@, lon@).subrange(0, start as int),
        decreases n - start,
    {
        let end: usize = if n - start < chunk_size {
            n
        } else {
            start + chunk_size
        };
        let mut chunk = decode_chunk(date, moisture.as_slice(), lat.as_slice(), lon.as_slice(), start, end);
        out.append(&mut chunk);
        start = end;
    }
    proof {
        assert(out@ =~= zipped_records(date, moisture@, lat@, lon@));
    }
    Ok(out)
}

/// Seen as bare triples, the decoded records are the element-wise zip of the
/// source arrays: as many records as source indices, and the multiset of
/// `(lat, lon, moisture)` triples is exactly the arrays', so no observation
/// is dropped, invented or duplicated by decoding.
pub proof fn lemma_decode_is_zip(date: Date, moisture: Seq<u64>, lat: Seq<u64>, lon: Seq<u64>)
    requires
        lat.len() == moisture.len(),
        lon.len() == moisture.len(),
    ensures
        zipped_records(date, moisture, lat, lon).len() == moisture.len(),
        zipped_records(date, moisture, lat, lon).map_values(
            |r: SoilMoistureRecord| (r.lat, r.lon, r.moisture),
        ) =~= Seq::new(moisture.len(), |i: int| (lat[i], lon[i], moisture[i])),
        zipped_records(date, moisture, lat, lon).map_values(
            |r: SoilMoistureRecord| (r.lat, r.lon, r.moisture),
        ).to_multiset() == Seq::new(
            moisture.len(),
            |i: int| (lat[i], lon[i], moisture[i]),
        ).to_multiset(),
{
    assert(zipped_records(date, moisture, lat, lon).map_values(
        |r: SoilMoistureRecord| (r.lat, r.lon, r.moisture),
    ) =~= Seq::new(moisture.len(), |i: int| (lat[i], lon[i], moisture[i])));
}

} // verus!
