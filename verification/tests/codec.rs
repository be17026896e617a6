use chrono::TimeZone;
use chrono::Utc;
use exogenesis_core::file_datetime::{retrieve_file_name, PathDateTime};
use exogenesis_core::file_path::FilePath;
use exogenesis_core::local_file::get_extension;

#[test]
fn lib_test_generate_file_path() {
    let date_time = Utc.with_ymd_and_hms(1984, 4, 4, 12, 42, 42).unwrap();
    let extension = ".VIDEO";

    let result = FilePath::new().generate_file_path(date_time.to_rfc3339().as_str(), extension);

    let expected_date_time = format!(
        "/{}/{}/{}/{}-{}-{}-{}-{}-{}.{}",
        1984, 4, 4, 1984, 4, 4, 12, 42, 42, "VIDEO"
    );
    assert_eq!(result.unwrap(), expected_date_time);
}

#[test]
fn file_path_test_generate_file_path() {
    let result = FilePath::new().generate_file_path("1984-04-04T12:42:42Z", ".VIDEO");
    assert_eq!(result.unwrap(), "/1984/4/4/1984-4-4-12-42-42.VIDEO");
}

#[test]
fn lib_test_normal_case() {
    // an epoch timestamp converts to its UTC calendar fields
    let date_time = 449930090000_u128;
    let path = FilePath::new().generate_file_path(date_time, "video").unwrap();
    assert_eq!(path, "/1984/4/4/1984-4-4-12-34-50.video");
}

#[test]
fn file_path_test_normal_case() {
    // an ISO string converts to its UTC calendar fields
    let date_time = "1984-04-04T12:34:50Z";
    let path = FilePath::new().generate_file_path(date_time, "video").unwrap();
    assert_eq!(path, "/1984/4/4/1984-4-4-12-34-50.video");
}

#[test]
fn lib_test_normal_path() {
    let path = "/1984/04/04/1984-4-4-12-34-56.video";

    let result = PathDateTime::parse(path).unwrap();

    assert_eq!(result.year, 1984);
    assert_eq!(result.month, 4);
    assert_eq!(result.day, 4);
    assert_eq!(result.hour, 12);
    assert_eq!(result.minute, 34);
    assert_eq!(result.second, 56);
}

#[test]
fn lib_test_normal_path_without_slash() {
    let path = "1984/04/04/1984-4-4-12-34-56.video";

    let result = PathDateTime::parse(path).unwrap();

    assert_eq!(result.year, 1984);
    assert_eq!(result.month, 4);
    assert_eq!(result.day, 4);
    assert_eq!(result.hour, 12);
    assert_eq!(result.minute, 34);
    assert_eq!(result.second, 56);
}

#[test]
fn lib_test_invalid_year() {
    let path = "/hoge/04/04/1984-4-4-12-34-56.video";

    let result = PathDateTime::parse(path);

    assert!(result.is_err());
    assert_eq!(result.unwrap_err(), "invalid year in the file name: hoge");
}

#[test]
fn lib_test_invalid_file_length() {
    let path = "/1984/04/1984-4-4-12-34-56.video";

    let result = PathDateTime::parse(path);

    assert!(result.is_err());
}

#[test]
fn lib_test_invalid_file_name() {
    let path = "/1984/04/04/1984-4-4-34-56.video";

    let result = PathDateTime::parse(path);

    assert!(result.is_err());
}

#[test]
fn file_datetime_test_normal_path() {
    let path = "/1984/04/04/1984-4-4-12-34-56.video";

    let result = PathDateTime::parse(path).unwrap();

    assert_eq!(result.year, 1984);
    assert_eq!(result.month, 4);
    assert_eq!(result.day, 4);
    assert_eq!(result.hour, 12);
    assert_eq!(result.minute, 34);
    assert_eq!(result.second, 56);
    assert_eq!(result.file_name, "1984-4-4-12-34-56.video".to_string());
    assert_eq!(
        result.unix_time,
        Utc.with_ymd_and_hms(1984, 4, 4, 12, 34, 56)
            .unwrap()
            .timestamp_millis()
    );
}

#[test]
fn file_datetime_test_normal_path_without_slash() {
    let path = "1984/04/04/1984-4-4-12-34-56.video";

    let result = PathDateTime::parse(path).unwrap();

    assert_eq!(result.year, 1984);
    assert_eq!(result.month, 4);
    assert_eq!(result.day, 4);
    assert_eq!(result.hour, 12);
    assert_eq!(result.minute, 34);
    assert_eq!(result.second, 56);
}

#[test]
fn file_datetime_test_invalid_year() {
    let path = "/hoge/04/04/1984-4-4-12-34-56.video";

    let result = PathDateTime::parse(path);

    assert!(result.is_err());
    assert_eq!(result.unwrap_err(), "invalid year in the file name: hoge");
}

#[test]
fn file_datetime_test_invalid_file_length() {
    // three segments instead of four: a malformed path
    let path = "/1984/04/1984-4-4-12-34-56.video";

    let result = PathDateTime::parse(path);

    assert!(result.is_err());
    assert_eq!(result.unwrap_err(), "invalid file path is provided");
}

#[test]
fn file_datetime_test_invalid_file_name() {
    let path = "/1984/04/04/1984-4-4-34-56.video";

    let result = PathDateTime::parse(path);

    assert!(result.is_err());
    assert_eq!(result.unwrap_err(), "invalid file name is provided");
}

#[test]
fn test_retrieve_file_name() {
    let path = "1984/04/04/1984-4-4-12-34-56.video";
    let object_name = retrieve_file_name(path).unwrap();
    assert_eq!(object_name, "1984-4-4-12-34-56.video".to_string());
}

#[test]
fn time_to_time() {
    let date_time = Utc.with_ymd_and_hms(1984, 4, 4, 12, 34, 50).unwrap();

    let path = FilePath::new()
        .generate_file_path(date_time.to_rfc3339().as_str(), "video")
        .unwrap();
    let result = PathDateTime::parse(path.as_str()).unwrap();

    assert_eq!(result.unix_time, date_time.timestamp_millis());
}

#[test]
fn string_to_string() {
    let date_time = "1984-04-04T12:34:50+00:00";

    let path = FilePath::new()
        .generate_file_path(date_time, "video")
        .unwrap();
    let result = PathDateTime::parse(path.as_str()).unwrap();

    assert_eq!(result.iso_string, date_time);
}

#[test]
fn test_get_extension() {
    let target_file_path = "./test-data/video/IMG_0282.MOV";

    let result = get_extension(target_file_path).unwrap();

    assert_eq!(result, "MOV".to_string());
}

#[test]
fn empty_extension_is_rejected() {
    let result = FilePath::new().generate_file_path(449930090000_u128, "");
    assert_eq!(result.unwrap_err(), "Invalid extension");
    let dotted = FilePath::new().generate_file_path(449930090000_u128, ".");
    assert_eq!(dotted.unwrap_err(), "Invalid extension");
}

#[test]
fn out_of_range_epoch_is_rejected() {
    // one millisecond past the supported year 9999
    let result = FilePath::new().generate_file_path(253402300800000_u128, "mov");
    assert_eq!(result.unwrap_err(), "Cannot convert the provided epoch time");
}

#[test]
fn unparsable_iso_is_rejected() {
    let result = FilePath::new().generate_file_path("once upon a time", "mov");
    assert_eq!(
        result.unwrap_err(),
        "cannot convert the provided epoch time to datetime: once upon a time"
    );
}

#[test]
fn invalid_calendar_date_is_rejected() {
    // month 13 names no UTC instant
    let result = PathDateTime::parse("/1984/13/04/1984-13-4-12-34-56.video");
    assert_eq!(
        result.unwrap_err(),
        "Invalid path is provided, so cannot convert it."
    );
    // April has no 31st day
    let leap = PathDateTime::parse("/1984/04/31/1984-4-31-12-34-56.video");
    assert!(leap.is_err());
    // 1984 is a leap year, so February 29 is fine
    let ok = PathDateTime::parse("/1984/02/29/1984-2-29-12-34-56.video").unwrap();
    assert_eq!(ok.day, 29);
    // 1985 is not
    let bad = PathDateTime::parse("/1985/02/29/1985-2-29-12-34-56.video");
    assert!(bad.is_err());
}

#[test]
fn invalid_hour_token_is_rejected() {
    let result = PathDateTime::parse("/1984/04/04/1984-4-4-xx-34-56.video");
    assert_eq!(result.unwrap_err(), "invalid hour in the file name: xx");
    let overflow = PathDateTime::parse("/1984/04/04/1984-4-4-99999999999999999999-34-56.video");
    assert_eq!(
        overflow.unwrap_err(),
        "invalid hour in the file name: 99999999999999999999"
    );
}

#[test]
fn round_trip_recovers_fields() {
    // the proven codec round trip, observed on a handful of instants
    let millis: [u128; 4] = [0, 449930090000, 951867296000, 253402300799000];
    for ms in millis {
        let path = FilePath::new().generate_file_path(ms, "mov").unwrap();
        let parsed = PathDateTime::parse(path.as_str()).unwrap();
        assert_eq!(parsed.unix_time as u128, ms);
    }
}

#[test]
fn leading_dot_extension_is_stripped() {
    let with_dot = FilePath::new()
        .generate_file_path(449930090000_u128, ".video")
        .unwrap();
    let without_dot = FilePath::new()
        .generate_file_path(449930090000_u128, "video")
        .unwrap();
    assert_eq!(with_dot, without_dot);
}

#[test]
fn empty_and_bare_paths_are_malformed() {
    assert_eq!(
        PathDateTime::parse("").unwrap_err(),
        "invalid file path is provided"
    );
    assert_eq!(
        PathDateTime::parse("/").unwrap_err(),
        "invalid file path is provided"
    );
}

#[test]
fn earliest_supported_instant_round_trips() {
    let path = FilePath::new().generate_file_path(0_u128, "mov").unwrap();
    assert_eq!(path, "/1970/1/1/1970-1-1-0-0-0.mov");
    let parsed = PathDateTime::parse("/0/1/1/0-1-1-0-0-0.mov").unwrap();
    assert_eq!(parsed.year, 0);
    assert_eq!(parsed.unix_time, -62167219200000);
}

#[test]
fn iso_string_is_rendered_with_padding() {
    let parsed = PathDateTime::parse("/984/2/4/984-2-4-3-5-6.video").unwrap();
    assert_eq!(parsed.iso_string, "0984-02-04T03:05:06+00:00");
}
