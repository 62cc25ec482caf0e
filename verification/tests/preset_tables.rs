use capture::presets::{get_all_presets, get_builtin_presets, preset_lookup};

fn value_of(table: &Vec<(String, String)>, name: &str) -> Option<String> {
    preset_lookup(table, name)
}

#[test]
fn builtin_table_holds_the_seven_presets() {
    let table = get_builtin_presets();
    assert_eq!(table.len(), 7);
    assert_eq!(value_of(&table, "1080p"), Some("0,0,1920,1080".to_string()));
    assert_eq!(value_of(&table, "720p"), Some("0,0,1280,720".to_string()));
    assert_eq!(value_of(&table, "4k"), Some("0,0,3840,2160".to_string()));
    assert_eq!(value_of(&table, "naver-series"), Some("607,23,690,1007".to_string()));
    assert_eq!(value_of(&table, "vm-small"), Some("100,100,1024,768".to_string()));
    assert_eq!(value_of(&table, "vm-medium"), Some("100,100,1280,800".to_string()));
    assert_eq!(value_of(&table, "vm-large"), Some("100,100,1920,1080".to_string()));
}

#[test]
fn builtin_rectangle_strings_all_parse() {
    let table = get_builtin_presets();
    for (name, value) in table.iter() {
        assert!(
            capture::presets::parse_crop_region(value).is_some(),
            "preset {} holds a malformed rectangle: {}",
            name,
            value
        );
    }
}

#[test]
fn no_custom_presets_keep_the_builtin_table() {
    let merged = get_all_presets(&Vec::new());
    assert_eq!(merged.len(), 7);
    assert_eq!(value_of(&merged, "1080p"), Some("0,0,1920,1080".to_string()));
}

#[test]
fn custom_preset_overrides_builtin_of_same_name() {
    let custom = vec![("1080p".to_string(), "5,5,100,100".to_string())];
    let merged = get_all_presets(&custom);
    assert_eq!(merged.len(), 7);
    assert_eq!(value_of(&merged, "1080p"), Some("5,5,100,100".to_string()));
    // The other built-ins stay.
    assert_eq!(value_of(&merged, "720p"), Some("0,0,1280,720".to_string()));
}

#[test]
fn new_custom_preset_joins_the_table() {
    let custom = vec![("mine".to_string(), "1,2,3,4".to_string())];
    let merged = get_all_presets(&custom);
    assert_eq!(merged.len(), 8);
    assert_eq!(value_of(&merged, "mine"), Some("1,2,3,4".to_string()));
}

#[test]
fn later_custom_entry_wins() {
    let custom = vec![
        ("mine".to_string(), "1,2,3,4".to_string()),
        ("mine".to_string(), "9,9,9,9".to_string()),
    ];
    let merged = get_all_presets(&custom);
    assert_eq!(merged.len(), 8);
    assert_eq!(value_of(&merged, "mine"), Some("9,9,9,9".to_string()));
}

#[test]
fn unknown_preset_name_answers_nothing() {
    let merged = get_all_presets(&Vec::new());
    assert_eq!(value_of(&merged, "no-such-preset"), None);
}
