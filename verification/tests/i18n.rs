use ferail_gpui::i18n::{
    eq_ignore_ascii_case, installed_packs, merge_packs, resolve, sort_packs, user_dir, LanguageInfo,
    Languages, Origin, ENGLISH, SYSTEM,
};

fn info(code: &str, origin: Origin) -> LanguageInfo {
    LanguageInfo {
        code: code.into(),
        name: code.into(),
        english_name: code.into(),
        translated: 1,
        total: 1,
        origin,
        path: None,
    }
}

/// The language subtag of a locale or pack code: what precedes the first
/// `-` or `_`.
fn subtag(code: &str) -> String {
    code.split(['-', '_']).next().unwrap_or("").to_string()
}

fn resolve_with(selection: &str, packs: &[LanguageInfo], locale: Option<&str>) -> Option<LanguageInfo> {
    let pack_subtags: Vec<String> = packs.iter().map(|p| subtag(&p.code)).collect();
    let locale_subtag = locale.map(subtag).unwrap_or_default();
    resolve(selection, packs, locale, &locale_subtag, &pack_subtags)
}

#[test]
fn resolve_selection() {
    let packs = vec![
        info("fr", Origin::Bundled),
        info("pt-BR", Origin::User),
        info("zh-Hans", Origin::User),
    ];
    assert!(resolve_with(ENGLISH, &packs, Some("fr-FR")).is_none());
    assert_eq!(resolve_with("fr", &packs, None).unwrap().code, "fr");
    assert!(resolve_with("xx", &packs, None).is_none());
    assert_eq!(resolve_with(SYSTEM, &packs, Some("fr-CH")).unwrap().code, "fr");
    assert_eq!(resolve_with(SYSTEM, &packs, Some("zh-Hans-CN")).unwrap().code, "zh-Hans");
    assert_eq!(resolve_with(SYSTEM, &packs, Some("pt_PT")).unwrap().code, "pt-BR");
    assert!(resolve_with(SYSTEM, &packs, Some("en-US")).is_none());
    assert!(resolve_with(SYSTEM, &packs, None).is_none());
}

#[test]
fn label_shows_coverage() {
    let mut i = info("fr", Origin::Bundled);
    i.name = "Français".into();
    i.translated = 87;
    i.total = 100;
    assert_eq!(i.label(), "Français (87 %)");
}

#[test]
fn a_pack_without_a_name_is_listed_by_its_code() {
    let i = LanguageInfo::from_pack("de", "  ", "German", (3, 4), Origin::User, Some("/x/de.json"));
    assert_eq!(i.name, "de");
    assert_eq!(i.english_name, "German");
    assert_eq!((i.translated, i.total), (3, 4));
    assert_eq!(i.path.as_deref(), Some("/x/de.json"));
    let copy = i.duplicate();
    assert_eq!(copy.code, "de");
    assert_eq!(copy.origin, Origin::User);
}

#[test]
fn generations_make_older_loads_stale() {
    let mut l = Languages::new();
    assert_eq!(l.selection, SYSTEM);
    assert_eq!(l.active, ENGLISH);
    let first = l.next_generation();
    assert!(l.is_current(first));
    let second = l.next_generation();
    assert!(!l.is_current(first));
    assert!(l.is_current(second));
}

#[test]
fn ascii_case_is_ignored_but_length_is_not() {
    let a: Vec<char> = "PT-br".chars().collect();
    let b: Vec<char> = "pt-BR".chars().collect();
    let c: Vec<char> = "pt-BRx".chars().collect();
    assert!(eq_ignore_ascii_case(&a, &b));
    assert!(!eq_ignore_ascii_case(&a, &c));
}

#[test]
fn the_user_folder_is_languages_inside_the_config_dir() {
    assert!(user_dir(None).is_none());
    let dir = user_dir(Some("/home/u/.config/ferail")).unwrap();
    assert!(dir.starts_with("/home/u/.config/ferail"));
    assert!(dir.ends_with("languages"));
    assert_ne!(dir, "/home/u/.config/ferail");
    assert_eq!(user_dir(Some("/cfg")).as_deref(), Some("/cfg/languages"));
    assert_eq!(user_dir(Some("/cfg/")).as_deref(), Some("/cfg/languages"));
    assert_eq!(user_dir(Some("")).as_deref(), Some("languages"));
}

fn named(code: &str, english: &str, origin: Origin) -> LanguageInfo {
    let mut i = info(code, origin);
    i.english_name = english.into();
    i
}

#[test]
fn a_user_pack_replaces_the_bundled_one_with_its_code() {
    let bundled = vec![named("fr", "French", Origin::Bundled), named("de", "German", Origin::Bundled)];
    let user = vec![named("fr", "French (mine)", Origin::User), named("xx", "Klingon", Origin::User)];
    let merged = merge_packs(bundled, user);
    let codes: Vec<(&str, Origin)> = merged.iter().map(|p| (p.code.as_str(), p.origin)).collect();
    assert_eq!(codes, vec![("de", Origin::Bundled), ("fr", Origin::User), ("xx", Origin::User)]);
}

#[test]
fn languages_are_listed_by_english_name_then_code() {
    let packs = vec![
        named("zh-Hant", "chinese", Origin::Bundled),
        named("pt", "Portuguese", Origin::Bundled),
        named("zh-Hans", "Chinese", Origin::Bundled),
        named("ar", "Arabic", Origin::User),
    ];
    let sorted = sort_packs(packs);
    let codes: Vec<&str> = sorted.iter().map(|p| p.code.as_str()).collect();
    assert_eq!(codes, vec!["ar", "zh-Hans", "zh-Hant", "pt"]);
    let listed = installed_packs(
        vec![named("pt", "Portuguese", Origin::Bundled)],
        vec![named("ar", "Arabic", Origin::User), named("pt", "Portuguese", Origin::User)],
    );
    let codes: Vec<(&str, Origin)> = listed.iter().map(|p| (p.code.as_str(), p.origin)).collect();
    assert_eq!(codes, vec![("ar", Origin::User), ("pt", Origin::User)]);
}
