use exogenesis_core::bucket::{
    object_keys_from_listing, remove_delimiter, retrieve_prefixes, segment_of, zero_adder,
};
use exogenesis_core::clock::get_now;
use exogenesis_core::errors::{
    ExogenesisEnsembleLocalFileErrors, ExogenesisError, WebApiAppError,
};
use exogenesis_core::store::DateMapper;
use exogenesis_core::web::{DaysVideos, MonthsVideos, VideoObjects, YearsVideos};

#[test]
fn test_add_years() {
    let mut mapper = DateMapper::default();
    mapper
        .add_years(vec!["1984".to_string(), "1985".to_string()])
        .unwrap();
    mapper
        .add_years(vec!["1985".to_string(), "1986".to_string()])
        .unwrap();

    let new_years = mapper.years().unwrap();

    assert_eq!(new_years, vec!["1984", "1985", "1986"]);
}

#[test]
fn test_add_months() {
    let mut mapper = DateMapper::default();
    let year = "1984";
    mapper
        .add_months(year, vec!["3".to_string(), "4".to_string()])
        .unwrap();
    mapper
        .add_months(year, vec!["4".to_string(), "5".to_string()])
        .unwrap();

    let new_months = mapper.months(year).unwrap();

    assert_eq!(new_months, vec!["3", "4", "5"]);
}

#[test]
fn test_add_days() {
    let mut mapper = DateMapper::default();
    let year = "1984";
    let month = "4";
    mapper
        .add_days(year, month, vec!["3".to_string(), "4".to_string()])
        .unwrap();
    mapper
        .add_days(year, month, vec!["4".to_string(), "5".to_string()])
        .unwrap();

    let new_days = mapper.days(year, month).unwrap();

    assert_eq!(new_days, vec!["3", "4", "5"]);
}

#[test]
fn mapper_objects_and_missing_keys() {
    let mut mapper = DateMapper::default();
    mapper
        .add_objects(
            "1984",
            "4",
            "4",
            vec!["b.MOV".to_string(), "a.MOV".to_string()],
        )
        .unwrap();

    assert_eq!(mapper.objects("1984", "4", "4").unwrap(), ["a.MOV", "b.MOV"]);
    assert_eq!(mapper.objects("1984", "4", "5").unwrap(), Vec::<String>::new());
    assert_eq!(mapper.months("1999").unwrap(), Vec::<String>::new());
}

#[test]
fn client_with_delimiter() {
    let prefix = "1984/4/4/";

    let result = remove_delimiter(prefix);

    assert_eq!(result, "1984/4/4");
}

#[test]
fn client_without_delimiter() {
    let prefix = "1984/4/4";

    let result = remove_delimiter(prefix);

    assert_eq!(result, "1984/4/4");
}

#[test]
fn mod_with_delimiter() {
    let prefix = "1984/4/4/";

    let result = remove_delimiter(prefix);

    assert_eq!(result, "1984/4/4");
}

#[test]
fn mod_without_delimiter() {
    let prefix = "1984/4/4";

    let result = remove_delimiter(prefix);

    assert_eq!(result, "1984/4/4");
}

#[test]
fn zero_adder_pads_to_two_digits() {
    assert_eq!(zero_adder(1), String::from("01"));
    assert_eq!(zero_adder(9), String::from("09"));
    assert_eq!(zero_adder(10), String::from("10"));
    assert_eq!(zero_adder(12), String::from("12"));
}

#[test]
fn prefixes_become_level_members() {
    let prefixes = vec!["1984/04/".to_string(), "1984/05/".to_string()];
    let names = retrieve_prefixes(&prefixes);
    assert_eq!(names, ["1984/04", "1984/05"]);

    assert_eq!(segment_of("1984/04", 1).unwrap(), "04");
    assert_eq!(segment_of("1984/04/05", 2).unwrap(), "05");
    assert_eq!(segment_of("1984", 1), None);
}

#[test]
fn listing_keys_become_object_names() {
    let keys = vec![
        "1984/04/04/1984-04-04-12-34-50.MOV".to_string(),
        "1984/04/04/1984-04-04-12-34-51.MOV".to_string(),
        "1984/04/stray".to_string(),
    ];
    let names = object_keys_from_listing(&keys);
    assert_eq!(
        names,
        ["1984-04-04-12-34-50.MOV", "1984-04-04-12-34-51.MOV"]
    );
}

#[test]
fn error_messages_match_their_variants() {
    assert_eq!(
        ExogenesisError::ReadLockFailed("years".to_string()).message(),
        "Couldn't get a read lock at years"
    );
    assert_eq!(
        ExogenesisError::FileReadError("x".to_string()).message(),
        "Reading error: x"
    );
    assert_eq!(
        ExogenesisEnsembleLocalFileErrors::FileCopyFailed.message(),
        "File already exists"
    );
    assert_eq!(
        ExogenesisEnsembleLocalFileErrors::FileNotFoundError("p".to_string()).message(),
        "File not found: p"
    );
    assert_eq!(
        ExogenesisEnsembleLocalFileErrors::ExtensionParseFailed.message(),
        "Incorrect extension is provided"
    );
    assert_eq!(
        WebApiAppError::StorageError("down".to_string()).message(),
        "Storage error: down"
    );
}

#[test]
fn http_status_of_errors() {
    assert_eq!(
        WebApiAppError::ValidationError("bad".to_string()).http_status(),
        400
    );
    assert_eq!(WebApiAppError::StorageError("x".to_string()).http_status(), 500);
    assert_eq!(WebApiAppError::DBError("x".to_string()).http_status(), 500);
}

#[test]
fn get_now_prefers_the_given_time() {
    assert_eq!(get_now(Some(449930090000)), Ok(449930090000));
    assert!(get_now(None).unwrap() > 0);
}

#[test]
fn response_shapes_carry_their_lists() {
    let years = YearsVideos { years: vec!["1984".to_string()] };
    let months = MonthsVideos { months: vec!["4".to_string()] };
    let days = DaysVideos { days: vec!["4".to_string()] };
    let objects = VideoObjects { objects: vec!["a.MOV".to_string()] };
    assert_eq!(years.years, ["1984"]);
    assert_eq!(months.months, ["4"]);
    assert_eq!(days.days, ["4"]);
    assert_eq!(objects.objects, ["a.MOV"]);
}
