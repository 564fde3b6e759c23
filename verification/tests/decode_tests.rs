use soil_moisture::date::Date;
use soil_moisture::decode::decode_records;
use soil_moisture::errors::DecodeError;
use soil_moisture::record::SoilMoistureRecord;

fn bits(xs: &[f64]) -> Vec<u64> {
    xs.iter().map(|x| x.to_bits()).collect()
}

fn sample_date() -> Date {
    Date { year: 2024, month: 7, day: 29 }
}

#[test]
fn empty_arrays_decode_to_nothing() {
    let r = decode_records(sample_date(), &vec![], &vec![], &vec![], 1000).unwrap();
    assert!(r.is_empty());
}

#[test]
fn zero_chunk_size_is_invalid_input() {
    let m = bits(&[0.5]);
    let la = bits(&[1.0]);
    let lo = bits(&[2.0]);
    assert_eq!(
        decode_records(sample_date(), &m, &la, &lo, 0),
        Err(DecodeError::InvalidChunkSize)
    );
    // Even with empty arrays, a zero chunk size is refused rather than
    // yielding a silent empty result.
    assert_eq!(
        decode_records(sample_date(), &vec![], &vec![], &vec![], 0),
        Err(DecodeError::InvalidChunkSize)
    );
}

#[test]
fn length_mismatch_fails_whole_decode() {
    let m = bits(&[0.1, 0.2]);
    let la = bits(&[1.0]);
    let lo = bits(&[2.0, 3.0]);
    assert_eq!(
        decode_records(sample_date(), &m, &la, &lo, 10),
        Err(DecodeError::LengthMismatch)
    );
}

#[test]
fn decode_zips_all_three_arrays() {
    let m = bits(&[0.1, 0.2, 0.3, 0.4, 0.5]);
    let la = bits(&[10.0, 11.0, 12.0, 13.0, 14.0]);
    let lo = bits(&[20.0, 21.0, 22.0, 23.0, 24.0]);
    let r = decode_records(sample_date(), &m, &la, &lo, 2).unwrap();
    assert_eq!(r.len(), 5);
    for i in 0..5 {
        assert_eq!(
            r[i],
            SoilMoistureRecord {
                date: sample_date(),
                lat: la[i],
                lon: lo[i],
                moisture: m[i],
            }
        );
    }
}

#[test]
fn decode_is_independent_of_chunk_size() {
    let m = bits(&[0.1, 0.2, 0.3, 0.4, 0.5, 0.6, 0.7]);
    let la = bits(&[10.0, 11.0, 12.0, 13.0, 14.0, 15.0, 16.0]);
    let lo = bits(&[20.0, 21.0, 22.0, 23.0, 24.0, 25.0, 26.0]);
    let whole = decode_records(sample_date(), &m, &la, &lo, 1000).unwrap();
    for chunk_size in 1..10 {
        let r = decode_records(sample_date(), &m, &la, &lo, chunk_size).unwrap();
        assert_eq!(r, whole);
    }
}

#[test]
fn sentinel_values_pass_through_unchanged() {
    // The source's reserved "no measurement" value is kept as it is:
    // validity filtering is the consumer's concern.
    let sentinel = -9999.0f64;
    let m = bits(&[sentinel]);
    let la = bits(&[10.0]);
    let lo = bits(&[20.0]);
    let r = decode_records(sample_date(), &m, &la, &lo, 1).unwrap();
    assert_eq!(f64::from_bits(r[0].moisture), sentinel);
}
