use exif_rename::datetime::create_vars_from_create_date;
use exif_rename::filename::create_vars_from_filename;
use exif_rename::vars::Vars;

#[test]
fn test_create_vars_from_create_date() {
    let create_date = "2023:09:08 18:56:54";
    let vars = create_vars_from_create_date(create_date);

    let expected = vec![
        ("D", "08"),
        ("H", "18"),
        ("M", "56"),
        ("S", "54"),
        ("W", "36"),
        ("Y", "2023"),
        ("a", "Fri"),
        ("h", "06"),
        ("m", "09"),
        ("t", "185654"),
        ("y", "23"),
    ];

    for (k, v) in expected {
        match vars.get(k) {
            Some(value) => assert_eq!(v, value),
            None => assert_eq!(v, "", "key={}", k),
        }
    }
}

#[test]
fn test_create_vars_from_filename() {
    let filename = "IMG_1234.JPG";
    let vars = create_vars_from_filename(filename);

    let expected = vec![("f", "IMG_"), ("r", "1234"), ("e", "JPG")];

    for (k, v) in expected {
        match vars.get(k) {
            Some(value) => assert_eq!(v, value),
            None => assert_eq!(v, "", "key={}", k),
        }
    }
}

fn date_keys() -> Vec<&'static str> {
    vec!["Y", "y", "m", "D", "t", "H", "h", "M", "S", "W", "a"]
}

fn get_owned(vars: &Vars, key: &str) -> Option<String> {
    vars.get(key).map(|v| v.clone())
}

#[test]
fn create_date_with_utc_offset_uses_written_clock() {
    let vars = create_vars_from_create_date("2023:09:08 18:56:54+0200");
    assert_eq!(get_owned(&vars, "Y").unwrap(), "2023");
    assert_eq!(get_owned(&vars, "t").unwrap(), "185654");
    assert_eq!(get_owned(&vars, "H").unwrap(), "18");
    assert_eq!(get_owned(&vars, "a").unwrap(), "Fri");
}

#[test]
fn create_date_unparsable_yields_no_keys() {
    let vars = create_vars_from_create_date("not-a-date");
    for k in date_keys() {
        assert!(vars.get(k).is_none(), "unexpected key {}", k);
    }
}

#[test]
fn create_date_rejects_impossible_calendar_day() {
    let vars = create_vars_from_create_date("2023:02:30 10:00:00");
    assert!(vars.get("Y").is_none());
    let leap = create_vars_from_create_date("2024:02:29 10:00:00");
    assert_eq!(get_owned(&leap, "D").unwrap(), "29");
    assert_eq!(get_owned(&leap, "a").unwrap(), "Thu");
}

#[test]
fn create_date_midnight_and_noon_render_twelve_hour_zero() {
    let midnight = create_vars_from_create_date("2023:09:08 00:05:06");
    assert_eq!(get_owned(&midnight, "H").unwrap(), "00");
    assert_eq!(get_owned(&midnight, "h").unwrap(), "00");
    let afternoon = create_vars_from_create_date("2023:09:08 13:05:06");
    assert_eq!(get_owned(&afternoon, "h").unwrap(), "01");
}

#[test]
fn create_date_iso_week_of_new_year() {
    let vars = create_vars_from_create_date("2024:01:01 00:00:00");
    assert_eq!(get_owned(&vars, "W").unwrap(), "01");
    assert_eq!(get_owned(&vars, "a").unwrap(), "Mon");
}

#[test]
fn derive_from_timestamp_is_idempotent() {
    let first = create_vars_from_create_date("2023:09:08 18:56:54");
    let second = create_vars_from_create_date("2023:09:08 18:56:54");
    for k in date_keys() {
        assert_eq!(get_owned(&first, k), get_owned(&second, k), "key={}", k);
    }
}

#[test]
fn filename_without_trailing_digits_keeps_empty_sequence() {
    let vars = create_vars_from_filename("IMG_.JPG");
    assert_eq!(get_owned(&vars, "f").unwrap(), "IMG_");
    assert_eq!(get_owned(&vars, "r").unwrap(), "");
    assert_eq!(get_owned(&vars, "e").unwrap(), "JPG");
}

#[test]
fn filename_of_digits_alone_yields_no_keys() {
    let vars = create_vars_from_filename("1234.JPG");
    assert!(vars.get("f").is_none());
    assert!(vars.get("r").is_none());
    assert!(vars.get("e").is_none());
}

#[test]
fn filename_without_extension_yields_no_keys() {
    let vars = create_vars_from_filename("photo");
    assert!(vars.get("f").is_none());
    let trailing_dot = create_vars_from_filename("photo.");
    assert!(trailing_dot.get("f").is_none());
}

#[test]
fn filename_splits_at_last_dot() {
    let vars = create_vars_from_filename("archive.tar.gz");
    assert_eq!(get_owned(&vars, "f").unwrap(), "archive.tar");
    assert_eq!(get_owned(&vars, "r").unwrap(), "");
    assert_eq!(get_owned(&vars, "e").unwrap(), "gz");
}
