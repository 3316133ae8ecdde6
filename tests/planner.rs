use std::collections::HashMap;

use rename::{
    compose_new_name, determine_renamings, extract_file_suffix, filter_object_files, has_prefix,
    plan_renamings, read_rows, ArgumentError, Config, PlanError, RenameError, RenamePlan,
};

fn strings(names: &[&str]) -> Vec<String> {
    names.iter().map(|n| n.to_string()).collect()
}

fn as_map(plan: &RenamePlan) -> HashMap<String, String> {
    plan.entries().iter().cloned().collect()
}

/// A data row with the lot number in field 0 and the inventory number in
/// field 8.
fn row(lot: &str, inventory: &str) -> Vec<String> {
    strings(&[lot, "", "short", "long", "EUR", "1", "2", "3", inventory, ""])
}

#[test]
fn determine_file_names() {
    let data = String::from("1		\"Henricus Johannes (Harrie) Kuyten, Utrecht 1883-1952 Schoorl ...\"	\"Henricus Johannes (Harrie) Kuyten, Utrecht 1883-1952 Schoorl, Beach view with various people, oil on canvas, 43 x 36 cm.\"	EUR	4000	6000	3000	00243878										\n2		\"Henricus Johannes (Harrie) Kuyten, Utrecht 1883-1952 Schoorl ...\"	\"Henricus Johannes (Harrie) Kuyten, Utrecht 1883-1952 Schoorl, Beach view, pastel drawing, dated 1951, 31,5 x 23 cm\"	EUR	500	700	380	00243880										\n3		\"Very large antique blue/white Chinese porcelain lidded vase ...\"	\"Very large antique blue/white Chinese porcelain lidded vase with decoration of floral motifs, Qing Dynasty, approx. h.59 cm.\"	EUR	2000	3000	1500	00243344										");

    let rows = match read_rows(data.as_bytes()) {
        Ok(rows) => rows,
        Err(_) => panic!("the data should parse"),
    };

    let file_names = vec![
        "00243878.1.jpg".to_string(),
        "00243878.2.jpg".to_string(),
        "00243878.3.jpg".to_string(),
        "00243880.1.jpg".to_string(),
        "00243880.2.jpg".to_string(),
        "00243344.1.jpg".to_string(),
        "00243344.2.jpg".to_string(),
        "00243344.3.jpg".to_string(),
    ];

    let renamings = as_map(&determine_renamings(rows, file_names).unwrap());

    let expected_renamings: HashMap<String, String> = HashMap::from([
        ("00243878.1.jpg".to_string(), "1_1.jpg".to_string()),
        ("00243878.2.jpg".to_string(), "1_2.jpg".to_string()),
        ("00243878.3.jpg".to_string(), "1_3.jpg".to_string()),
        ("00243880.1.jpg".to_string(), "2_1.jpg".to_string()),
        ("00243880.2.jpg".to_string(), "2_2.jpg".to_string()),
        ("00243344.1.jpg".to_string(), "3_1.jpg".to_string()),
        ("00243344.2.jpg".to_string(), "3_2.jpg".to_string()),
        ("00243344.3.jpg".to_string(), "3_3.jpg".to_string()),
    ]);

    assert_eq!(expected_renamings, renamings)
}

#[test]
fn filter_object_files_test() {
    // The entries of the photograph directory, in the order it lists them.
    let files = strings(&[
        "00243880.6.jpg",
        "00243880.4.jpg",
        "00243880.5.jpg",
        "00243880.1.jpg",
        "00243880.2.jpg",
        "00243880.3.jpg",
        "00243344.6.jpg",
        "00243344.7.jpg",
        "00243878.1.jpg",
        "00243344.5.jpg",
        "00243878.3.jpg",
        "00243878.2.jpg",
        "00243344.4.jpg",
        "00243878.6.jpg",
        "00243878.7.jpg",
        "00243344.1.jpg",
        "00243878.5.jpg",
        "00243344.3.jpg",
        "00243344.2.jpg",
        "00243878.4.jpg",
    ]);
    let object_id = String::from("00243344");

    assert_eq!(
        vec![
            "00243344.6.jpg",
            "00243344.7.jpg",
            "00243344.5.jpg",
            "00243344.4.jpg",
            "00243344.1.jpg",
            "00243344.3.jpg",
            "00243344.2.jpg",
        ],
        filter_object_files(&files, &object_id)
    );
}

#[test]
fn matched_files_take_lot_and_suffix() {
    let rows = vec![row("1", "00243878")];
    let files = strings(&["00243878.1.jpg", "00243878.2.jpg"]);
    let plan = determine_renamings(rows, files).unwrap();
    let expected: HashMap<String, String> = HashMap::from([
        ("00243878.1.jpg".to_string(), "1_1.jpg".to_string()),
        ("00243878.2.jpg".to_string(), "1_2.jpg".to_string()),
    ]);
    assert_eq!(expected, as_map(&plan));
    assert_eq!(plan.len(), 2);
}

#[test]
fn unmatched_files_are_left_out() {
    let rows = vec![row("4", "00243878")];
    let files = strings(&["00243878.1.jpg", "00999999.1.jpg", "notes.txt"]);
    let plan = as_map(&determine_renamings(rows, files).unwrap());
    assert_eq!(plan.len(), 1);
    assert_eq!(plan.get("00243878.1.jpg").map(|s| s.as_str()), Some("4_1.jpg"));
    assert!(!plan.contains_key("00999999.1.jpg"));
    assert!(!plan.contains_key("notes.txt"));
}

#[test]
fn prefix_matching_is_exact_text() {
    assert!(!has_prefix("0024337", "00243344"));
    assert!(!has_prefix("00243344.1.jpg", "243344"));
    assert!(has_prefix("ABC.1.jpg", "ABC"));
    assert!(!has_prefix("abc.1.jpg", "ABC"));
    assert!(has_prefix("anything", ""));

    let rows = vec![row("1", "00243344"), row("2", "ABC")];
    let files = strings(&["0024337", "0243344.1.jpg", "abc.1.jpg", "ABC.2.jpg"]);
    let plan = as_map(&determine_renamings(rows, files).unwrap());
    let expected: HashMap<String, String> =
        HashMap::from([("ABC.2.jpg".to_string(), "2_2.jpg".to_string())]);
    assert_eq!(expected, plan);
}

#[test]
fn replanning_renamed_files_is_empty() {
    let rows = vec![row("1", "00243878"), row("2", "00243880")];
    let files = strings(&["00243878.1.jpg", "00243880.1.jpg", "00243880.2.jpg"]);
    let plan = determine_renamings(rows.clone(), files).unwrap();
    let renamed: Vec<String> = plan.entries().iter().map(|(_, new)| new.clone()).collect();
    let again = determine_renamings(rows, renamed).unwrap();
    assert_eq!(again.len(), 0);
    assert!(again.entries().is_empty());
}

#[test]
fn later_row_wins_on_shared_file() {
    let rows = vec![row("7", "0024"), row("9", "002438")];
    let files = strings(&["00243878.3.jpg", "00240000.1.png"]);
    let plan = as_map(&determine_renamings(rows, files).unwrap());
    let expected: HashMap<String, String> = HashMap::from([
        ("00243878.3.jpg".to_string(), "9_3.jpg".to_string()),
        ("00240000.1.png".to_string(), "7_1.jpg".to_string()),
    ]);
    assert_eq!(expected, plan);
}

#[test]
fn file_without_period_aborts_plan() {
    let rows = vec![row("1", "00243878")];
    let files = strings(&["00243878.1.jpg", "00243878", "00243878.2.jpg"]);
    assert_eq!(determine_renamings(rows, files).err(), Some(PlanError::SuffixExtraction));
}

#[test]
fn file_without_period_is_harmless_when_unmatched() {
    let rows = vec![row("1", "00243878")];
    let files = strings(&["00243878.1.jpg", "README"]);
    let plan = as_map(&determine_renamings(rows, files).unwrap());
    assert_eq!(plan.len(), 1);
}

#[test]
fn short_row_aborts_plan() {
    let rows = vec![row("1", "00243878"), strings(&["2", "", "x", "y", "EUR", "1", "2", "3"])];
    let files = strings(&["00243878.1.jpg"]);
    assert_eq!(determine_renamings(rows, files).err(), Some(PlanError::MalformedRow));
}

#[test]
fn first_failing_row_decides_error() {
    let rows = vec![row("1", "0024"), strings(&["2"])];
    let files = strings(&["0024"]);
    assert_eq!(determine_renamings(rows, files).err(), Some(PlanError::SuffixExtraction));

    let rows = vec![strings(&["2"]), row("1", "0024")];
    let files = strings(&["0024"]);
    assert_eq!(determine_renamings(rows, files).err(), Some(PlanError::MalformedRow));
}

#[test]
fn no_rows_no_plan() {
    let plan = determine_renamings(Vec::new(), strings(&["00243878.1.jpg"])).unwrap();
    assert_eq!(plan.len(), 0);
}

#[test]
fn suffix_is_second_segment_verbatim() {
    assert_eq!(extract_file_suffix("00243878.07.jpg"), Some("07"));
    assert_eq!(extract_file_suffix("00243878.1.jpg"), Some("1"));
    assert_eq!(extract_file_suffix("00243878.12"), Some("12"));
    assert_eq!(extract_file_suffix("a.b.c.d"), Some("b"));
    assert_eq!(extract_file_suffix("a."), Some(""));
    assert_eq!(extract_file_suffix(".x"), Some("x"));
    assert_eq!(extract_file_suffix("00243878"), None);
    assert_eq!(extract_file_suffix(""), None);
    assert_eq!(extract_file_suffix("ü.ß.jpg"), Some("ß"));
}

#[test]
fn new_name_has_fixed_shape() {
    assert_eq!(compose_new_name("1", "1"), "1_1.jpg");
    assert_eq!(compose_new_name("12", "07"), "12_07.jpg");
    assert_eq!(compose_new_name("", ""), "_.jpg");
}

#[test]
fn suffix_kept_and_extension_replaced() {
    let rows = vec![row("15", "00243878")];
    let files = strings(&["00243878.07.png"]);
    let plan = as_map(&determine_renamings(rows, files).unwrap());
    assert_eq!(plan.get("00243878.07.png").map(|s| s.as_str()), Some("15_07.jpg"));
}

#[test]
fn reads_tab_delimited_rows() {
    let rows = read_rows(b"a\tb\tc\n1\t2\t3\n").ok().unwrap();
    assert_eq!(rows, vec![strings(&["a", "b", "c"]), strings(&["1", "2", "3"])]);
    let rows = read_rows(b"x,y\tz\n").ok().unwrap();
    assert_eq!(rows, vec![strings(&["x,y", "z"])]);
    let rows = read_rows(b"").ok().unwrap();
    assert!(rows.is_empty());
}

#[test]
fn malformed_data_is_a_parse_error() {
    assert!(matches!(read_rows(b"a\tb\nc\n"), Err(RenameError::Parse(_))));
    assert!(matches!(read_rows(b"a\t\xff\n"), Err(RenameError::Parse(_))));
}

#[test]
fn plans_from_data_file_contents() {
    let data = b"1\t\t\t\t\t\t\t\t00243878\n2\t\t\t\t\t\t\t\t00243880\n";
    let files = strings(&["00243878.1.jpg", "00243880.2.jpg", "other.1.jpg"]);
    let plan = match plan_renamings(data, files) {
        Ok(plan) => as_map(&plan),
        Err(_) => panic!("planning should succeed"),
    };
    let expected: HashMap<String, String> = HashMap::from([
        ("00243878.1.jpg".to_string(), "1_1.jpg".to_string()),
        ("00243880.2.jpg".to_string(), "2_2.jpg".to_string()),
    ]);
    assert_eq!(expected, plan);
}

#[test]
fn planning_from_data_reports_errors() {
    let files = strings(&["00243878"]);
    assert!(matches!(
        plan_renamings(b"1\t\t\t\t\t\t\t\t00243878\n", files.clone()),
        Err(RenameError::Plan(PlanError::SuffixExtraction))
    ));
    assert!(matches!(
        plan_renamings(b"1\t2\n", files.clone()),
        Err(RenameError::Plan(PlanError::MalformedRow))
    ));
    assert!(matches!(plan_renamings(b"1\t2\n3\n", files), Err(RenameError::Parse(_))));
}

#[test]
fn plan_keeps_each_old_name_once() {
    let mut plan = RenamePlan::new();
    plan.insert("a.1.jpg".to_string(), "1_1.jpg".to_string());
    plan.insert("b.1.jpg".to_string(), "2_1.jpg".to_string());
    plan.insert("a.1.jpg".to_string(), "3_1.jpg".to_string());
    assert_eq!(plan.len(), 2);
    assert_eq!(
        plan.entries(),
        &vec![
            ("a.1.jpg".to_string(), "3_1.jpg".to_string()),
            ("b.1.jpg".to_string(), "2_1.jpg".to_string()),
        ]
    );
}

#[test]
fn non_directory_argument_is_refused() {
    let args = strings(&["rename", "data.csv", "not_a_dir.txt"]);
    assert_eq!(Config::from_args(&args, false).err(), Some(ArgumentError::NotADirectory));
}

#[test]
fn wrong_argument_count_is_refused() {
    let args = strings(&["rename", "data.csv"]);
    assert_eq!(Config::from_args(&args, true).err(), Some(ArgumentError::WrongArgumentCount));
    let args = strings(&["rename", "data.csv", "dir", "extra"]);
    assert_eq!(Config::from_args(&args, true).err(), Some(ArgumentError::WrongArgumentCount));
    assert_eq!(
        ArgumentError::WrongArgumentCount.message(),
        "received incorrect number of arguments: need 2"
    );
}

#[test]
fn arguments_build_config() {
    let args = strings(&["rename", "data.csv", "photos"]);
    let config = Config::from_args(&args, true).ok().unwrap();
    assert_eq!(config.data_file, "data.csv");
    assert_eq!(config.dir, "photos");
    let config = Config::new("d".to_string(), "p".to_string());
    assert_eq!((config.data_file.as_str(), config.dir.as_str()), ("d", "p"));
}
