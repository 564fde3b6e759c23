use soil_moisture::date::Date;
use soil_moisture::errors::{ApiError, DecodeError};
use soil_moisture::handler::{build_query, handle_query, ingest, status_is_success};
use soil_moisture::limiter::{RateLimiter, QUOTA};
use soil_moisture::record::SoilMoistureRecord;
use soil_moisture::store::Table;

fn bits(xs: &[f64]) -> Vec<u64> {
    xs.iter().map(|x| x.to_bits()).collect()
}

#[test]
fn ingest_then_query_example_scenario() {
    // A synthetic single-day composite of two observations.
    let moisture = bits(&[0.12, 0.35]);
    let lat = bits(&[10.0, 20.0]);
    let lon = bits(&[30.0, 40.0]);
    let date = Date { year: 2024, month: 7, day: 29 };

    let mut table = Table::new();
    let n = ingest(&mut table, date, &moisture, &lat, &lon, 1000).unwrap();
    assert_eq!(n, 2);

    let mut limiter = RateLimiter::new();
    let got = handle_query(
        &mut limiter,
        &table,
        b"203.0.113.7",
        10.0f64.to_bits(),
        30.0f64.to_bits(),
        b"2024-07-01",
        b"2024-07-31",
        1_000,
    )
    .unwrap();
    assert_eq!(got.len(), 1);
    assert_eq!(
        got[0],
        SoilMoistureRecord {
            date: Date { year: 2024, month: 7, day: 29 },
            lat: 10.0f64.to_bits(),
            lon: 30.0f64.to_bits(),
            moisture: 0.12f64.to_bits(),
        }
    );
}

#[test]
fn denial_comes_before_the_store() {
    let table = Table::new();
    let mut limiter = RateLimiter::new();
    let t0: u64 = 77;
    for _ in 0..QUOTA {
        assert!(limiter.admit_at(b"eve", t0));
    }
    let r = handle_query(
        &mut limiter,
        &table,
        b"eve",
        10.0f64.to_bits(),
        30.0f64.to_bits(),
        b"2024-07-01",
        b"2024-07-31",
        t0,
    );
    assert_eq!(r, Err(ApiError::RateLimitExceeded));
    // A fresh caller is admitted, even against an empty table.
    let r2 = handle_query(
        &mut limiter,
        &table,
        b"mallory",
        10.0f64.to_bits(),
        30.0f64.to_bits(),
        b"2024-07-01",
        b"2024-07-31",
        t0,
    );
    assert_eq!(r2, Ok(vec![]));
}

#[test]
fn malformed_dates_are_invalid_input() {
    let table = Table::new();
    let mut limiter = RateLimiter::new();
    let r = handle_query(
        &mut limiter,
        &table,
        b"carol",
        10.0f64.to_bits(),
        30.0f64.to_bits(),
        b"2024-7-1",
        b"2024-07-31",
        5,
    );
    assert_eq!(r, Err(ApiError::InvalidInput));
    assert!(build_query(0, 0, b"not-a-date", b"2024-07-31").is_err());
    assert!(build_query(0, 0, b"2024-07-01", b"2024-07-31").is_ok());
}

#[test]
fn failed_decode_applies_nothing() {
    let mut table = Table::new();
    let date = Date { year: 2024, month: 7, day: 29 };
    let r = ingest(&mut table, date, &bits(&[0.1, 0.2]), &bits(&[1.0]), &bits(&[2.0, 3.0]), 10);
    assert_eq!(r, Err(ApiError::Decode(DecodeError::LengthMismatch)));
    assert_eq!(table.len(), 0);
    let r2 = ingest(&mut table, date, &bits(&[0.1]), &bits(&[1.0]), &bits(&[2.0]), 0);
    assert_eq!(r2, Err(ApiError::Decode(DecodeError::InvalidChunkSize)));
    assert_eq!(table.len(), 0);
}

#[test]
fn repeated_ingest_is_idempotent() {
    let moisture = bits(&[0.12, 0.35]);
    let lat = bits(&[10.0, 20.0]);
    let lon = bits(&[30.0, 40.0]);
    let date = Date { year: 2024, month: 7, day: 29 };
    let mut table = Table::new();
    ingest(&mut table, date, &moisture, &lat, &lon, 1).unwrap();
    ingest(&mut table, date, &moisture, &lat, &lon, 2).unwrap();
    assert_eq!(table.len(), 2);
}

#[test]
fn error_status_codes() {
    assert_eq!(ApiError::InvalidInput.status_code(), 400);
    assert_eq!(ApiError::RateLimitExceeded.status_code(), 429);
    assert_eq!(ApiError::Ingestion.status_code(), 500);
    assert_eq!(ApiError::Decode(DecodeError::InvalidChunkSize).status_code(), 500);
    assert_eq!(ApiError::Storage.status_code(), 500);
    assert_eq!(ApiError::Update.status_code(), 500);
}

#[test]
fn success_statuses_are_the_2xx_class() {
    assert!(status_is_success(200));
    assert!(status_is_success(204));
    assert!(status_is_success(299));
    assert!(!status_is_success(199));
    assert!(!status_is_success(300));
    assert!(!status_is_success(404));
    assert!(!status_is_success(500));
}
