use particle_sim::saves::{list_saves, remove_save, save_file_for, save_file_name, save_label, save_stem};

#[test]
fn stems_follow_path_rules() {
    assert_eq!(save_stem("a.json"), Some("a".to_string()));
    assert_eq!(save_stem("a.b.json"), Some("a.b".to_string()));
    assert_eq!(save_stem("..json"), Some(".".to_string()));
    assert_eq!(save_stem(".json"), None);
    assert_eq!(save_stem("a.JSON"), None);
    assert_eq!(save_stem("a.json.bak"), None);
    assert_eq!(save_stem("json"), None);
    assert_eq!(save_stem("a."), None);
    for name in ["a.json", "x.y.json", ".json", "..json", "q.txt", "plain"] {
        let p = std::path::Path::new(name);
        let expected = if p.extension().and_then(|e| e.to_str()) == Some("json") {
            p.file_stem().and_then(|s| s.to_str()).map(|s| s.to_string())
        } else {
            None
        };
        assert_eq!(save_stem(name), expected, "{}", name);
    }
}

#[test]
fn listing_keeps_order() {
    let names = vec!["b.json".to_string(), "notes.txt".to_string(), "a.json".to_string()];
    assert_eq!(list_saves(&names), vec!["b".to_string(), "a".to_string()]);
}

#[test]
fn removing_drops_all_equal_entries() {
    let mut list = vec!["a".to_string(), "b".to_string(), "a".to_string(), "c".to_string()];
    remove_save(&mut list, &"a".to_string());
    assert_eq!(list, vec!["b".to_string(), "c".to_string()]);
    remove_save(&mut list, &"zzz".to_string());
    assert_eq!(list, vec!["b".to_string(), "c".to_string()]);
}

#[test]
fn save_names() {
    assert_eq!(save_file_name("2024-05-01-10-00-00", 0), "save_2024-05-01-10-00-00.json");
    assert_eq!(save_file_name("2024-05-01-10-00-00", 3), "save_2024-05-01-10-00-00-3.json");
    assert_eq!(save_file_name("1714557600", 12), "save_1714557600-12.json");
    assert_eq!(save_label("save_x.json"), "save_x");
    assert_eq!(save_file_for("save_x"), "save_x.json");
}

#[test]
fn new_save_is_listed_under_its_label() {
    for attempt in [0usize, 1, 25] {
        let file = save_file_name("2024-05-01-10-00-00", attempt);
        assert_eq!(list_saves(&vec![file.clone()]), vec![save_label(&file)]);
        assert_eq!(save_file_for(&save_label(&file)), file);
    }
}
