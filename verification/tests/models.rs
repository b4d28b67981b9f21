use bsearch::models::{
    choose_sort_key, created_at_or, created_at_sort_key, parse_created_at, read_stored_time, Post, Source, StoredTime,
};
use bsearch::time::{format_created_at, format_indexed_at, CivilDateTime, Instant, OffsetDateTime};
use chrono::{DateTime, Datelike, Local, NaiveDate, NaiveDateTime, Timelike, Utc};

fn civil(dt: NaiveDateTime) -> CivilDateTime {
    CivilDateTime {
        year: dt.year(),
        month: dt.month(),
        day: dt.day(),
        hour: dt.hour(),
        minute: dt.minute(),
        second: dt.second(),
        nanos: dt.nanosecond(),
    }
}

fn with_offset(text: &str) -> OffsetDateTime {
    let dt = DateTime::parse_from_rfc3339(text).unwrap();
    OffsetDateTime { local: civil(dt.naive_local()), offset: dt.offset().local_minus_utc() }
}

#[test]
fn test_format_created_at_matches_python_isoformat() {
    let dt = with_offset("2026-03-29T03:11:21.467Z");
    assert_eq!(format_created_at(dt), "2026-03-29T03:11:21.467000+00:00");
}

#[test]
fn test_format_created_at_preserves_offset() {
    let dt = with_offset("2026-03-29T03:11:21.467123+01:00");
    assert_eq!(format_created_at(dt), "2026-03-29T03:11:21.467123+01:00");
}

#[test]
fn test_format_indexed_at_has_no_offset() {
    let dt = NaiveDate::from_ymd_opt(2026, 7, 25)
        .unwrap()
        .and_hms_micro_opt(23, 37, 12, 345678)
        .unwrap();
    assert_eq!(format_indexed_at(civil(dt)), "2026-07-25T23:37:12.345678");
}

#[test]
fn test_format_created_at_omits_zero_microseconds() {
    let dt = with_offset("2026-03-29T03:11:00Z");
    assert_eq!(format_created_at(dt), "2026-03-29T03:11:00+00:00");
}

#[test]
fn test_format_indexed_at_omits_zero_microseconds() {
    let dt = NaiveDate::from_ymd_opt(2026, 7, 25)
        .unwrap()
        .and_hms_opt(23, 37, 12)
        .unwrap();
    assert_eq!(format_indexed_at(civil(dt)), "2026-07-25T23:37:12");
}

#[test]
fn test_parse_created_at_round_trips_z_suffix() {
    assert_eq!(
        parse_created_at(Some("2026-03-29T03:11:21.467Z")),
        "2026-03-29T03:11:21.467000+00:00"
    );
}

#[test]
fn test_parse_created_at_falls_back_on_garbage() {
    let out = parse_created_at(Some("not a date"));
    assert!(!out.contains('+'), "fallback should be naive: {out}");
    let out = parse_created_at(None);
    assert!(!out.contains('+'), "fallback should be naive: {out}");
}

#[test]
fn test_created_at_sort_key_orders_across_offsets() {
    let earlier = created_at_sort_key("2026-03-29T10:00:00+05:00").unwrap();
    let later = created_at_sort_key("2026-03-29T09:00:00+00:00").unwrap();
    assert!(earlier < later);
    assert!("2026-03-29T10:00:00+05:00" > "2026-03-29T09:00:00+00:00");
}

#[test]
fn test_created_at_sort_key_handles_absent_fractional_part() {
    let without = created_at_sort_key("2026-03-29T03:11:00+00:00").unwrap();
    let with = created_at_sort_key("2026-03-29T03:11:00.467000+00:00").unwrap();
    assert!(without < with);
}

#[test]
fn test_created_at_sort_key_accepts_naive_fallback() {
    let naive = format_indexed_at(civil(Local::now().naive_local()));
    assert!(
        created_at_sort_key(&naive).is_some(),
        "naive fallback timestamps must still be sortable: {naive}"
    );
}

#[test]
fn test_created_at_sort_key_rejects_garbage() {
    assert_eq!(created_at_sort_key("not a date"), None);
    assert_eq!(created_at_sort_key(""), None);
}

#[test]
fn test_created_at_sort_key_round_trips_format_created_at() {
    let text = "2026-03-29T03:11:21.467123+01:00";
    let utc = DateTime::parse_from_rfc3339(text).unwrap().with_timezone(&Utc);
    let key = created_at_sort_key(&format_created_at(with_offset(text))).unwrap();
    assert_eq!(
        key,
        Instant { seconds: utc.timestamp(), nanos: utc.timestamp_subsec_nanos() }
    );
}

#[test]
fn test_source_strings_match_python() {
    assert_eq!(Source::OwnPost.as_str(), "own_post");
    assert_eq!(Source::Like.as_str(), "like");
    assert_eq!(Source::BackfillPost.as_str(), "backfill_post");
    assert_eq!(Source::BackfillLike.as_str(), "backfill_like");
}

#[test]
fn a_missing_time_is_the_given_clock_reading() {
    let now = CivilDateTime { year: 2026, month: 7, day: 25, hour: 23, minute: 37, second: 12, nanos: 345_678_000 };
    assert_eq!(created_at_or(None, now), "2026-07-25T23:37:12.345678");
    let dt = with_offset("2026-03-29T03:11:21.467-08:30");
    assert_eq!(created_at_or(Some(dt), now), "2026-03-29T03:11:21.467000-08:30");
}

#[test]
fn nanoseconds_below_a_microsecond_are_cut_off() {
    let dt = with_offset("2026-03-29T03:11:21.467123999+01:00");
    assert_eq!(format_created_at(dt), "2026-03-29T03:11:21.467123+01:00");
    let tiny = CivilDateTime { year: 2026, month: 7, day: 25, hour: 23, minute: 37, second: 12, nanos: 999 };
    assert_eq!(format_indexed_at(tiny), "2026-07-25T23:37:12");
}

#[test]
fn stored_times_are_told_apart() {
    assert_eq!(
        read_stored_time("1970-01-01T01:00:00.5+01:00"),
        StoredTime::At(Instant { seconds: 0, nanos: 500_000_000 })
    );
    assert_eq!(
        read_stored_time("2026-07-25T23:37:12.345678"),
        StoredTime::Local(CivilDateTime {
            year: 2026,
            month: 7,
            day: 25,
            hour: 23,
            minute: 37,
            second: 12,
            nanos: 345_678_000,
        })
    );
    assert_eq!(read_stored_time("2026-07-25"), StoredTime::Unreadable);
}

#[test]
fn a_post_carries_its_source_and_the_indexing_time() {
    let now = CivilDateTime { year: 2026, month: 1, day: 2, hour: 3, minute: 4, second: 5, nanos: 0 };
    let post = Post::indexed_at(
        "at://u".to_string(),
        "cid".to_string(),
        "did:plc:a".to_string(),
        "alice".to_string(),
        "text".to_string(),
        "2026-01-01T00:00:00+00:00".to_string(),
        Source::Like,
        now,
    );
    assert_eq!(post.source, "like");
    assert_eq!(post.indexed_at, "2026-01-02T03:04:05");
    assert_eq!(post.uri, "at://u");
    let fresh = Post::new(
        "at://v".to_string(),
        "cid".to_string(),
        "did:plc:a".to_string(),
        "alice".to_string(),
        "text".to_string(),
        "2026-01-01T00:00:00+00:00".to_string(),
        Source::BackfillPost,
    );
    assert_eq!(fresh.source, "backfill_post");
    assert!(matches!(read_stored_time(&fresh.indexed_at), StoredTime::Local(_)));
}

#[test]
fn local_readings_take_the_instant_of_the_clock() {
    let now = CivilDateTime { year: 2026, month: 1, day: 2, hour: 3, minute: 4, second: 5, nanos: 0 };
    let at = Instant { seconds: 7, nanos: 8 };
    let clock = Instant { seconds: 9, nanos: 10 };
    assert_eq!(choose_sort_key(StoredTime::At(at), Some(clock)), Some(at));
    assert_eq!(choose_sort_key(StoredTime::Local(now), Some(clock)), Some(clock));
    assert_eq!(choose_sort_key(StoredTime::Local(now), None), None);
    assert_eq!(choose_sort_key(StoredTime::Unreadable, Some(clock)), None);
}

#[test]
fn stored_times_keep_the_microsecond_they_were_written_from() {
    let dt = with_offset("2026-03-29T03:11:21.467123999-08:30");
    let whole = with_offset("2026-03-29T11:41:21.467123Z");
    let key = created_at_sort_key(&format_created_at(dt));
    assert!(key.is_some());
    assert_eq!(key, created_at_sort_key(&format_created_at(whole)));
}

#[test]
fn readings_without_an_offset_lie_within_a_day_of_utc() {
    let key = created_at_sort_key("2026-07-25T12:00:00.5").expect("key");
    let utc = created_at_sort_key("2026-07-25T12:00:00.5Z").expect("key");
    assert_eq!(key.nanos, 500_000_000);
    assert!((key.seconds - utc.seconds).abs() < 86_400);
}
