use exogenesis_core::collection::{CollectionItem, LookUpItems};
use exogenesis_core::facade::GetFileListTrait;
use exogenesis_core::lookup::{merge_members, LookupStore};

fn dummy_batch() -> Vec<CollectionItem> {
    let date_times = vec![
        "1984/04/04/1984-04-04-12-34-50.MOV",
        "1984/04/04/1984-04-04-12-34-51.MOV",
        "1984/04/05/1984-04-05-12-34-50.MOV",
        "1984/05/04/1984-05-04-12-34-50.MOV",
        "1985/04/04/1985-04-04-12-34-50.MOV",
    ];

    date_times
        .iter()
        .map(|data| CollectionItem::dummy_object(data))
        .collect()
}

#[test]
fn test_collection() {
    let collections = dummy_batch();

    let look_up_items = LookUpItems::new(&collections).unwrap();

    let mut years = look_up_items.years;
    years.sort();

    assert_eq!(years, ["1984", "1985"]);

    let mut months = look_up_items.months;
    months.sort();

    let expected_month = [
        (1984u64, vec!["4".to_string(), "5".to_string()]),
        (1985u64, vec!["4".to_string()]),
    ];

    assert_eq!(months.len(), expected_month.len());

    for (month, data) in std::iter::zip(months, expected_month) {
        let mut month_list = month.1;
        month_list.sort();
        assert_eq!((month.0, month_list), data);
    }

    let mut days = look_up_items.days;
    days.sort();

    let expected_days = [
        (1984u64, 4u64, vec!["4".to_string(), "5".to_string()]),
        (1984u64, 5u64, vec!["4".to_string()]),
        (1985u64, 4u64, vec!["4".to_string()]),
    ];

    assert_eq!(days.len(), expected_days.len());

    for (day, data) in std::iter::zip(days, expected_days) {
        let mut day_list = day.2;
        day_list.sort();

        assert_eq!((day.0, day.1, day_list), data);
    }

    let mut objects = look_up_items.objects;
    objects.sort();

    let expected_objects = [
        (
            1984u64,
            4u64,
            4u64,
            vec![
                "1984/04/04/1984-04-04-12-34-50.MOV".to_string(),
                "1984/04/04/1984-04-04-12-34-51.MOV".to_string(),
            ],
        ),
        (
            1984u64,
            4u64,
            5u64,
            vec!["1984/04/05/1984-04-05-12-34-50.MOV".to_string()],
        ),
        (
            1984u64,
            5u64,
            4u64,
            vec!["1984/05/04/1984-05-04-12-34-50.MOV".to_string()],
        ),
        (
            1985u64,
            4u64,
            4u64,
            vec!["1985/04/04/1985-04-04-12-34-50.MOV".to_string()],
        ),
    ];

    assert_eq!(objects.len(), expected_objects.len());

    for (object, data) in std::iter::zip(objects, expected_objects) {
        let mut object_list = object.3;
        object_list.sort();

        assert_eq!((object.0, object.1, object.2, object_list), data);
    }
}

#[test]
fn collection_item_new_object_fields() {
    let item = CollectionItem::new_object("1984/04/04/1984-4-4-12-34-50.MOV", "vault").unwrap();
    assert_eq!(item.year, "1984");
    assert_eq!(item.unix_time, 449930090000);
    assert!(!item.is_unzipped);
    assert_eq!(item.vault, "vault");
    assert_eq!(item.key_name, "1984/04/04/1984-4-4-12-34-50.MOV");
}

#[test]
fn collection_item_bad_path_fails() {
    let item = CollectionItem::new_object("1984/04/bad.MOV", "vault");
    assert_eq!(item.unwrap_err(), "invalid file path is provided");
}

#[test]
fn merge_reports_growth_exactly_once() {
    // idempotence: the same members merged twice cause exactly one write
    let mut store = LookupStore::new();
    let fresh = vec!["1984".to_string(), "1985".to_string()];

    let first = store.merge_and_maybe_write("root", &fresh);
    let second = store.merge_and_maybe_write("root", &fresh);

    assert!(first);
    assert!(!second);
    assert_eq!(store.get_list("root"), ["1984", "1985"]);
}

#[test]
fn merge_never_shrinks() {
    // monotonicity: the stored member set only grows along merges
    let mut store = LookupStore::new();
    let mut last_len = 0;
    let batches = [
        vec!["5".to_string(), "3".to_string()],
        vec!["3".to_string()],
        vec!["1".to_string(), "3".to_string(), "9".to_string()],
        vec![],
    ];
    for batch in batches {
        store.merge_and_maybe_write("1984", &batch);
        let stored = store.get_list("1984");
        assert!(stored.len() >= last_len);
        last_len = stored.len();
    }
    assert_eq!(store.get_list("1984"), ["1", "3", "5", "9"]);
}

#[test]
fn merge_members_unions_and_sorts() {
    let current = vec!["b".to_string(), "d".to_string()];
    let fresh = vec!["c".to_string(), "a".to_string(), "b".to_string()];
    let (merged, wrote) = merge_members(&current, &fresh);
    assert_eq!(merged, ["a", "b", "c", "d"]);
    assert!(wrote);

    let (again, wrote_again) = merge_members(&merged, &fresh);
    assert_eq!(again, ["a", "b", "c", "d"]);
    assert!(!wrote_again);
}

#[test]
fn empty_is_not_error() {
    // a level never ingested answers with an empty list, not an error
    let store = LookupStore::new();
    assert_eq!(store.get_months(1984).unwrap(), Vec::<String>::new());
    assert_eq!(store.get_years().unwrap(), Vec::<String>::new());
    assert_eq!(store.get_days(1984, 4).unwrap(), Vec::<String>::new());
    assert_eq!(store.get_objects(1984, 4, 4).unwrap(), Vec::<String>::new());
}

#[test]
fn ingest_builds_all_levels() {
    // scenario: five objects across two years, two months, two days
    let mut store = LookupStore::new();
    store.put_collection_items(&dummy_batch()).unwrap();

    assert_eq!(store.get_years().unwrap(), ["1984", "1985"]);
    assert_eq!(store.get_months(1984).unwrap(), ["4", "5"]);
    assert_eq!(store.get_months(1985).unwrap(), ["4"]);
    assert_eq!(store.get_days(1984, 4).unwrap(), ["4", "5"]);
    assert_eq!(store.get_days(1984, 5).unwrap(), ["4"]);
    assert_eq!(store.get_days(1985, 4).unwrap(), ["4"]);
    assert_eq!(
        store.get_objects(1984, 4, 4).unwrap(),
        [
            "1984/04/04/1984-04-04-12-34-50.MOV",
            "1984/04/04/1984-04-04-12-34-51.MOV"
        ]
    );
    assert_eq!(
        store.get_objects(1984, 4, 5).unwrap(),
        ["1984/04/05/1984-04-05-12-34-50.MOV"]
    );
    assert_eq!(
        store.get_objects(1985, 4, 4).unwrap(),
        ["1985/04/04/1985-04-04-12-34-50.MOV"]
    );
}

#[test]
fn reingest_writes_nothing() {
    // re-ingesting the same five objects changes nothing, and every
    // level's merge reports that no write happened
    let mut store = LookupStore::new();
    store.put_collection_items(&dummy_batch()).unwrap();

    store.put_collection_items(&dummy_batch()).unwrap();

    assert_eq!(store.get_years().unwrap(), ["1984", "1985"]);
    assert_eq!(store.get_months(1984).unwrap(), ["4", "5"]);
    assert_eq!(store.get_days(1984, 4).unwrap(), ["4", "5"]);
    assert_eq!(store.get_objects(1984, 4, 4).unwrap().len(), 2);

    let items = LookUpItems::new(&dummy_batch()).unwrap();
    assert!(!store.merge_and_maybe_write("root", &items.years));
    for (year, months) in &items.months {
        assert!(!store.merge_and_maybe_write(&format!("{year}"), months));
    }
    for (year, month, days) in &items.days {
        assert!(!store.merge_and_maybe_write(&format!("{year}-{month}"), days));
    }
    for (year, month, day, objects) in &items.objects {
        assert!(!store.merge_and_maybe_write(&format!("{year}-{month}-{day}"), objects));
    }
}

#[test]
fn ingest_rejects_bad_path_before_writing() {
    let mut store = LookupStore::new();
    let mut batch = dummy_batch();
    batch.push(CollectionItem {
        year: "1984".to_string(),
        unix_time: 0,
        is_unzipped: false,
        vault: "vault".to_string(),
        key_name: "not/a/canonical/path/at/all".to_string(),
    });

    let result = store.put_collection_items(&batch);

    assert_eq!(result.unwrap_err(), "invalid file path is provided");
    assert_eq!(store.get_years().unwrap(), Vec::<String>::new());
}
