use exif_rename::metadata::{read_exif_file, split_exif_line};
use exif_rename::pipeline::{extend_vars, make_filename};
use exif_rename::template::{format_filename, FormatError};
use exif_rename::vars::Vars;

fn sample_exif_vars() -> Vars {
    let mut exif_vars = Vars::new();
    exif_vars.insert("CreateDate".to_string(), "2023:09:08 18:56:54".to_string());
    exif_vars.insert("FileName".to_string(), "IMG_9876.JPG".to_string());
    exif_vars.insert("Model".to_string(), "iPhone 14".to_string());
    exif_vars
}

#[test]
fn test_format_filename() {
    let exif_vars = sample_exif_vars();

    let pattern = "{y}{m}{D}_{t}_{T2}_{r}.{e}";
    let expected = "230908_185654_iPhone 14_9876.JPG";

    let mut vars = extend_vars(&exif_vars);
    vars.extend(&exif_vars);
    let actual = format_filename(pattern, &vars).unwrap();

    assert_eq!(expected, actual)
}

#[test]
fn split_line_at_first_colon_and_trim() {
    let (key, value) = split_exif_line("  CreateDate :  2023:09:08 18:56:54  ").unwrap();
    assert_eq!(key, "CreateDate");
    assert_eq!(value, "2023:09:08 18:56:54");
    assert!(split_exif_line("no separator here").is_none());
    assert!(split_exif_line("").is_none());
}

#[test]
fn read_exif_file_parses_colon_lines_and_drops_the_rest() {
    let content = "CreateDate: 2023:09:08 18:56:54\nheader line\n\nModel: T2\n";
    let vars = read_exif_file(content).unwrap();
    assert_eq!(vars.get("CreateDate").unwrap(), "2023:09:08 18:56:54");
    assert_eq!(vars.get("Model").unwrap(), "T2");
    assert!(vars.get("header line").is_none());
}

#[test]
fn empty_text_and_empty_pattern() {
    let vars = read_exif_file("").unwrap();
    assert!(vars.get("CreateDate").is_none());
    let out = make_filename("", "").unwrap();
    assert_eq!(out, "");
}

#[test]
fn read_exif_file_lets_a_later_duplicate_win() {
    let vars = read_exif_file("Model: first\nModel: second").unwrap();
    assert_eq!(vars.get("Model").unwrap(), "second");
}

#[test]
fn reserialized_record_parses_to_the_same_record() {
    let content = "Model: T2\nFileName: IMG_0001.JPG";
    let original = read_exif_file(content).unwrap();
    let reserialized = format!(
        "{}: {}\n{}: {}",
        "Model",
        original.get("Model").unwrap(),
        "FileName",
        original.get("FileName").unwrap()
    );
    let reparsed = read_exif_file(&reserialized).unwrap();
    assert_eq!(reparsed.get("Model"), original.get("Model"));
    assert_eq!(reparsed.get("FileName"), original.get("FileName"));
}

#[test]
fn missing_variable_fails_with_its_name() {
    let vars = sample_exif_vars();
    let merged = {
        let mut m = extend_vars(&vars);
        m.extend(&vars);
        m
    };
    let result = format_filename("{y}{NoSuchKey}", &merged);
    match result {
        Err(FormatError::MissingVar(name)) => assert_eq!(name, "NoSuchKey"),
        _ => panic!("expected a missing-variable error"),
    }
}

#[test]
fn unmatched_brace_is_an_error() {
    let vars = Vars::new();
    assert!(matches!(
        format_filename("left { open", &vars),
        Err(FormatError::UnmatchedBrace)
    ));
    assert!(matches!(
        format_filename("right } alone", &vars),
        Err(FormatError::UnmatchedBrace)
    ));
}

#[test]
fn doubled_braces_render_literal_braces() {
    let mut vars = Vars::new();
    vars.insert("x".to_string(), "1".to_string());
    let out = format_filename("{{{x}}}", &vars).unwrap();
    assert_eq!(out, "{1}");
}

#[test]
fn raw_metadata_overrides_derived_variable() {
    let mut exif_vars = sample_exif_vars();
    exif_vars.insert("Y".to_string(), "raw-year".to_string());
    let mut vars = extend_vars(&exif_vars);
    vars.extend(&exif_vars);
    assert_eq!(vars.get("Y").unwrap(), "raw-year");
    let derived_only = extend_vars(&exif_vars);
    assert_eq!(derived_only.get("Y").unwrap(), "2023");
}

#[test]
fn model_is_exposed_under_alias_key() {
    let exif_vars = sample_exif_vars();
    let derived = extend_vars(&exif_vars);
    assert_eq!(derived.get("T2").unwrap(), "iPhone 14");
    assert_eq!(exif_vars.get("T2"), None);
}

#[test]
fn make_filename_runs_the_whole_pipeline() {
    let content = "CreateDate: 2023:09:08 18:56:54\nFileName: IMG_9876.JPG\nModel: iPhone 14\n";
    let out = make_filename(content, "{y}{m}{D}_{t}_{T2}_{r}.{e}").unwrap();
    assert_eq!(out, "230908_185654_iPhone 14_9876.JPG");
}

#[test]
fn unparsable_timestamp_leaves_other_metadata_usable() {
    let content = "CreateDate: not-a-date\nModel: T2\nFileName: IMG_0042.JPG";
    let out = make_filename(content, "{T2}_{r}.{e}").unwrap();
    assert_eq!(out, "T2_0042.JPG");
    assert!(matches!(
        make_filename(content, "{y}"),
        Err(FormatError::MissingVar(_))
    ));
}
