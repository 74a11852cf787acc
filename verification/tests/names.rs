use markdown_fs::names::{
    chars_of, extension, has_markdown_extension, is_hidden, is_markdown, text_precedes,
};

#[test]
fn a_leading_dot_hides_a_name() {
    assert!(is_hidden(".git"));
    assert!(is_hidden(".hidden.md"));
    assert!(is_hidden("."));
    assert!(is_hidden(".."));
    assert!(!is_hidden("guide"));
    assert!(!is_hidden("a.b"));
    assert!(!is_hidden("trailing."));
    assert!(!is_hidden(""));
}

#[test]
fn chars_of_gives_every_character() {
    assert_eq!(chars_of(""), Vec::<char>::new());
    assert_eq!(chars_of("a.md"), vec!['a', '.', 'm', 'd']);
    assert_eq!(chars_of("é漢😀"), vec!['é', '漢', '😀']);
}

#[test]
fn extension_is_what_follows_the_last_dot() {
    assert_eq!(extension("Readme.md"), Some("md".to_string()));
    assert_eq!(extension("archive.tar.gz"), Some("gz".to_string()));
    assert_eq!(extension("a..b"), Some("b".to_string()));
    assert_eq!(extension("..a"), Some("a".to_string()));
    assert_eq!(extension("notes.MDX"), Some("MDX".to_string()));
    assert_eq!(extension("ünï.cödé"), Some("cödé".to_string()));
}

#[test]
fn extension_may_be_empty() {
    assert_eq!(extension("trailing."), Some(String::new()));
    assert_eq!(extension("..."), Some(String::new()));
}

#[test]
fn names_without_an_extension() {
    assert_eq!(extension(""), None);
    assert_eq!(extension("md"), None);
    assert_eq!(extension("Makefile"), None);
    assert_eq!(extension(".md"), None);
    assert_eq!(extension(".gitignore"), None);
    assert_eq!(extension("."), None);
    assert_eq!(extension(".."), None);
}

#[test]
fn extension_agrees_with_the_path_rules_of_std() {
    let names = [
        "", ".", "..", "...", "a", ".a", "a.", "a.b", "a.b.c", "..a", ".a.b", "a..", "Readme.MD",
        "x.mdx", " .md", "é.ü",
    ];
    for name in names {
        let expected = std::path::Path::new(name)
            .extension()
            .map(|e| e.to_string_lossy().to_string());
        assert_eq!(extension(name), expected, "name {:?}", name);
    }
}

#[test]
fn lowercase_extensions_md_and_mdx_pass() {
    assert!(has_markdown_extension("md"));
    assert!(has_markdown_extension("mdx"));
    assert!(!has_markdown_extension("MD"));
    assert!(!has_markdown_extension("Mdx"));
    assert!(!has_markdown_extension(""));
    assert!(!has_markdown_extension("m"));
    assert!(!has_markdown_extension("mdd"));
    assert!(!has_markdown_extension("mdxx"));
    assert!(!has_markdown_extension("markdown"));
    assert!(!has_markdown_extension("dm"));
}

#[test]
fn markdown_filter_ignores_case() {
    assert!(is_markdown("a.md"));
    assert!(is_markdown("a.MD"));
    assert!(is_markdown("a.Md"));
    assert!(is_markdown("a.mD"));
    assert!(is_markdown("a.mdx"));
    assert!(is_markdown("a.MDX"));
    assert!(is_markdown("a.MdX"));
    assert!(is_markdown("x.y.md"));
}

#[test]
fn markdown_filter_refuses_other_names() {
    assert!(!is_markdown("a.txt"));
    assert!(!is_markdown("a.markdown"));
    assert!(!is_markdown("a.md.bak"));
    assert!(!is_markdown("md"));
    assert!(!is_markdown("mdx"));
    assert!(!is_markdown(".md"));
    assert!(!is_markdown(".mdx"));
    assert!(!is_markdown("a.md "));
    assert!(!is_markdown("a.md."));
    assert!(!is_markdown(""));
}

#[test]
fn texts_are_ordered_by_code_points() {
    assert!(text_precedes("", ""));
    assert!(text_precedes("", "a"));
    assert!(!text_precedes("a", ""));
    assert!(text_precedes("a", "a"));
    assert!(text_precedes("a", "b"));
    assert!(!text_precedes("b", "a"));
    assert!(text_precedes("ab", "abc"));
    assert!(!text_precedes("abc", "ab"));
    assert!(text_precedes("abc", "abd"));
    assert!(text_precedes("B", "a"));
    assert!(!text_precedes("a", "B"));
    assert!(text_precedes("z", "ä"));
    assert!(!text_precedes("ä", "z"));
    assert!(text_precedes("\u{ffff}", "\u{10000}"));
    assert!(!text_precedes("\u{10000}", "\u{ffff}"));
}

#[test]
fn text_order_agrees_with_the_order_of_strings() {
    let texts = ["", "a", "A", "ab", "b", "guide", "readme.md", "ä", "z", "\u{e000}", "😀", "漢"];
    for a in texts {
        for b in texts {
            assert_eq!(text_precedes(a, b), a <= b, "{:?} and {:?}", a, b);
        }
    }
}
