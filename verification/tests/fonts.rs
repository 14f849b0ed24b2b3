use designlibre::DirListing;
use designlibre::FontDirectoryProvider;
use designlibre::get_system_fonts;
use designlibre::is_font_file;
use designlibre::text_order::str_lex_lt;

fn listed(names: &[&str]) -> DirListing {
    DirListing::Listed(names.iter().map(|n| n.to_string()).collect())
}

#[test]
fn font_suffixes_recognized() {
    assert!(is_font_file("Arial.ttf"));
    assert!(is_font_file("Arial.otf"));
    assert!(is_font_file("Arial.ttc"));
    assert!(is_font_file(".ttf"));
    assert!(!is_font_file("Arial.txt"));
    assert!(!is_font_file("Arial.TTF"));
    assert!(!is_font_file("Arial.ttf.bak"));
    assert!(!is_font_file("ttf"));
    assert!(!is_font_file(""));
}

#[test]
fn filtered_enumeration_sorts_dedups_and_drops_non_fonts() {
    let provider = FontDirectoryProvider::Windows;
    let scans = vec![listed(&["b.ttf", "a.otf", "a.otf", "c.txt"])];
    let fonts = get_system_fonts(&provider, &scans).unwrap();
    assert_eq!(fonts, vec!["a.otf".to_string(), "b.ttf".to_string()]);
}

#[test]
fn unreadable_directories_are_skipped_silently() {
    let provider = FontDirectoryProvider::Windows;
    let scans = vec![DirListing::Unreadable, listed(&["a.ttf"]), DirListing::Unreadable];
    let fonts = get_system_fonts(&provider, &scans).unwrap();
    assert_eq!(fonts, vec!["a.ttf".to_string()]);
}

#[test]
fn no_readable_directory_yields_empty_not_error() {
    let provider = FontDirectoryProvider::MacOs { home: None };
    let scans = vec![DirListing::Unreadable, DirListing::Unreadable];
    let fonts = get_system_fonts(&provider, &scans).unwrap();
    assert!(fonts.is_empty());
}

#[test]
fn unfiltered_platform_keeps_every_entry() {
    let provider = FontDirectoryProvider::Linux;
    let scans = vec![listed(&["zz.txt", "a.ttf", "README"])];
    let fonts = get_system_fonts(&provider, &scans).unwrap();
    assert_eq!(
        fonts,
        vec!["README".to_string(), "a.ttf".to_string(), "zz.txt".to_string()],
    );
}

#[test]
fn duplicates_across_directories_appear_once() {
    let provider = FontDirectoryProvider::MacOs { home: None };
    let scans = vec![listed(&["a.ttf", "b.otf"]), listed(&["a.ttf", "c.ttc"])];
    let fonts = get_system_fonts(&provider, &scans).unwrap();
    assert_eq!(
        fonts,
        vec!["a.ttf".to_string(), "b.otf".to_string(), "c.ttc".to_string()],
    );
}

#[test]
fn enumeration_is_repeatable_sorted_and_duplicate_free() {
    let provider = FontDirectoryProvider::Windows;
    let scans = vec![
        listed(&["c.ttf", "a.ttf", "b.otf", "a.ttf"]),
        DirListing::Unreadable,
        listed(&["b.otf", "d.ttc"]),
    ];
    let first = get_system_fonts(&provider, &scans).unwrap();
    let second = get_system_fonts(&provider, &scans).unwrap();
    assert_eq!(first, second);
    for pair in first.windows(2) {
        assert!(str_lex_lt(&pair[0], &pair[1]));
        assert_ne!(pair[0], pair[1]);
    }
    assert_eq!(
        first,
        vec!["a.ttf".to_string(), "b.otf".to_string(), "c.ttf".to_string(), "d.ttc".to_string()],
    );
}

#[test]
fn directories_per_platform() {
    let with_home = FontDirectoryProvider::MacOs { home: Some("/Users/me".to_string()) };
    assert_eq!(
        with_home.font_directories(),
        vec![
            "/System/Library/Fonts".to_string(),
            "/Library/Fonts".to_string(),
            "/Users/me/Library/Fonts".to_string(),
        ],
    );

    let without_home = FontDirectoryProvider::MacOs { home: None };
    assert_eq!(
        without_home.font_directories(),
        vec!["/System/Library/Fonts".to_string(), "/Library/Fonts".to_string()],
    );

    assert_eq!(
        FontDirectoryProvider::Linux.font_directories(),
        vec!["/usr/share/fonts".to_string(), "/usr/local/share/fonts".to_string()],
    );

    assert_eq!(
        FontDirectoryProvider::Windows.font_directories(),
        vec!["C:\\Windows\\Fonts".to_string()],
    );
}

#[test]
fn filter_policy_per_platform() {
    assert!(FontDirectoryProvider::MacOs { home: None }.filters_extensions());
    assert!(FontDirectoryProvider::MacOs { home: Some("/Users/me".to_string()) }
        .filters_extensions());
    assert!(FontDirectoryProvider::Windows.filters_extensions());
    assert!(!FontDirectoryProvider::Linux.filters_extensions());
}

#[test]
fn lexicographic_order_on_names() {
    assert!(str_lex_lt("a", "b"));
    assert!(str_lex_lt("a", "ab"));
    assert!(str_lex_lt("", "a"));
    assert!(!str_lex_lt("b", "a"));
    assert!(!str_lex_lt("same", "same"));
    assert!(str_lex_lt("A.ttf", "a.ttf"));
}
