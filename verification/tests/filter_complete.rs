use ferail_gpui::filter_complete::{single_line_suggestions, SingleLineSuggestion, TokenHelp};

fn help(key: &str, detail: &str, values: &[&str]) -> TokenHelp {
    TokenHelp {
        key: key.to_string(),
        detail: detail.to_string(),
        values: values.iter().map(|v| v.to_string()).collect(),
    }
}

/// The filter grammar's tokens, as the catalogue lists them.
fn table() -> Vec<TokenHelp> {
    vec![
        help("locked:", "Locked files", &["yes", "no"]),
        help("size:", "File size", &[">1mb", ">100mb", "<1mb", "1mb..100mb"]),
        help("ext:", "Extension", &[]),
        help("kind:", "Entry kind", &["folder", "file", "link"]),
        help("mod:", "Modified", &["today", "week", "month"]),
    ]
}

/// Alias keys offered beside the canonical ones.
const ALIASES: usize = 1;

fn items(value: &str) -> Vec<SingleLineSuggestion> {
    single_line_suggestions(value, value.len(), &table())
}

fn labels(upto: &str) -> Vec<String> {
    items(upto).into_iter().map(|i| i.label).collect()
}

#[test]
fn empty_input_lists_every_token() {
    assert_eq!(labels("").len(), table().len() + ALIASES);
}

#[test]
fn key_prefix_narrows() {
    assert_eq!(labels("loc"), vec!["locked:"]);
    assert_eq!(labels("report loc"), vec!["locked:"]);
    assert_eq!(labels("LOC"), vec!["locked:"]);
    assert_eq!(labels("typ"), vec!["type:"]);
}

#[test]
fn plain_search_keeps_appendable_filter_tokens_visible() {
    let found = items("report");
    assert_eq!(found.len(), table().len() + ALIASES);
    assert_eq!(found[0].replacement, (6, 6));
    assert!(found[0].insertion.starts_with(' '));

    let after_space = items("report ");
    assert_eq!(after_space.len(), table().len() + ALIASES);
    assert_eq!(after_space[0].replacement, (7, 7));
    assert!(!after_space[0].insertion.starts_with(' '));
}

#[test]
fn key_chains_into_values() {
    assert_eq!(labels("locked:"), vec!["locked:yes", "locked:no"]);
    assert_eq!(labels("locked:y"), vec!["locked:yes"]);
    assert_eq!(
        labels("size:".trim()),
        vec!["size:>1mb", "size:>100mb", "size:<1mb", "size:1mb..100mb"]
    );
    assert!(labels("ext:").is_empty());
    assert_eq!(labels("type:"), vec!["type:folder", "type:file", "type:link"]);
}

#[test]
fn value_edit_replaces_only_the_value() {
    let found = items("big mod:t");
    let today = found.iter().find(|i| i.label == "mod:today").unwrap();
    assert_eq!(today.replacement, (8, 9));
    assert_eq!(today.insertion, "today ");
}

#[test]
fn multibyte_prefix_ranges_are_utf8_bytes() {
    let value = "é🙂 loc";
    let found = single_line_suggestions(value, value.len(), &table());
    assert_eq!(found[0].replacement.0, 7);
}

#[test]
fn a_caret_inside_a_character_gets_nothing() {
    let value = "é";
    assert!(single_line_suggestions(value, 1, &table()).is_empty());
}

#[test]
fn key_suggestions_carry_their_detail() {
    let found = items("mo");
    assert_eq!(found.len(), 1);
    assert_eq!(found[0].label, "mod:");
    assert_eq!(found[0].detail.as_deref(), Some("Modified"));
    assert_eq!(found[0].replacement, (0, 2));
}
