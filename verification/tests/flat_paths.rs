use ferail_gpui::file_list::flat::FlatPathStore;

fn rows(v: &[(&str, &str)]) -> Vec<(String, String)> {
    v.iter().map(|(n, d)| (n.to_string(), d.to_string())).collect()
}

#[test]
fn flat_arena_shares_names_and_reconstructs_paths_after_finish() {
    let root = std::path::PathBuf::from("/flat-root");
    let base = 1_u64 << 60;
    let mut store = FlatPathStore::new("/flat-root", base);
    store.append(&rows(&[("one.txt", "nested"), ("two.txt", "nested")]));
    assert_eq!(store.directory_ranks().len(), 1);
    assert!(store.claim_detail(base + 1));
    assert!(!store.claim_detail(base + 1));

    store.finish_detail(base + 1);
    store.finish();
    assert_eq!(
        store.path_for(base + 2).map(std::path::PathBuf::from),
        Some(root.join("nested/two.txt"))
    );
    assert_eq!(store.display_directory(base + 1).as_deref(), Some("nested"));
}

#[test]
fn rows_outside_the_listing_resolve_to_nothing() {
    let base = 100;
    let mut store = FlatPathStore::new("/r", base);
    store.append(&rows(&[("a", "")]));
    assert!(store.entry_location(base).is_none());
    assert!(store.entry_location(base + 2).is_none());
    assert!(store.path_for(7).is_none());
    assert!(!store.claim_detail(base + 5));
    assert_eq!(store.display_directory(base + 1).as_deref(), Some("\u{b7}"));
    assert_eq!(
        store.entry_location(base + 1),
        Some((String::new(), "a".to_string()))
    );
}

#[test]
fn directories_are_stored_once_and_ranked_case_insensitively() {
    let base = 0;
    let mut store = FlatPathStore::new("/r", base);
    store.append(&rows(&[("1", "b"), ("2", "B/c"), ("3", "a"), ("4", "b")]));
    store.append(&rows(&[("5", "a"), ("6", "Zed")]));
    // Arena: b, B/c, a, Zed.
    let ranks = store.directory_ranks();
    assert_eq!(ranks, vec![1, 2, 0, 3]);
    assert_eq!(store.directory_rank(4, &ranks), 1);
    assert_eq!(store.directory_rank(5, &ranks), 0);
    assert_eq!(store.directory_rank(99, &ranks), u32::MAX);
    assert_eq!(store.entry_location(6), Some(("Zed".to_string(), "6".to_string())));
}
