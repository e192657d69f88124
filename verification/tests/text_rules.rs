use shinsho_rss::text::{clean_author_prefix, join_nonempty, normalize_isbn, normalize_space};

#[test]
fn normalize_space_folds_runs_and_ends() {
    assert_eq!(normalize_space("  新しい \t\n 本\u{3000}の  話 "), "新しい 本 の 話");
    assert_eq!(normalize_space(""), "");
    assert_eq!(normalize_space(" \u{a0}\u{2003} "), "");
    assert_eq!(normalize_space("one"), "one");
}

#[test]
fn normalize_space_twice_is_once() {
    let inputs = ["  a  b ", "\u{3000}x\u{3000}\u{3000}y", "", "z"];
    for s in inputs {
        let once = normalize_space(s);
        assert_eq!(normalize_space(&once), once);
    }
}

#[test]
fn normalized_text_has_only_single_spaces() {
    let t = normalize_space("\t a \r\n\r\n b\u{205f}\u{205f}c \u{85}");
    assert_eq!(t, "a b c");
    assert!(!t.contains("  "));
    assert!(!t.starts_with(' ') && !t.ends_with(' '));
}

#[test]
fn author_marks_are_dropped() {
    assert_eq!(clean_author_prefix("著：山田 太郎"), "山田 太郎");
    assert_eq!(clean_author_prefix("  [著]   佐藤\u{3000}花子 "), "佐藤 花子");
    assert_eq!(clean_author_prefix("［著］鈴木 一郎"), "鈴木 一郎");
    assert_eq!(clean_author_prefix("著： 山田"), "山田");
    assert_eq!(clean_author_prefix("監修：田中"), "監修：田中");
    assert_eq!(clean_author_prefix("   "), "");
}

#[test]
fn only_the_first_mark_is_dropped() {
    assert_eq!(clean_author_prefix("著：著：山田"), "著：山田");
}

#[test]
fn isbn_keeps_digits_and_x() {
    assert_eq!(normalize_isbn("ISBN 978-4-00-431999-8"), "9784004319998");
    assert_eq!(normalize_isbn("4-00-431999-X"), "400431999X");
    assert_eq!(normalize_isbn("x-１２３"), "");
    let once = normalize_isbn("978-4-06-534567-1");
    assert_eq!(normalize_isbn(&once), once);
}

#[test]
fn join_nonempty_trims_and_skips_blanks() {
    assert_eq!(join_nonempty([" 上 ", "", "  ", "下"], "/"), "上/下");
    assert_eq!(join_nonempty(["題名", "副題"], "　"), "題名　副題");
    assert_eq!(join_nonempty(["", " "], " "), "");
    assert_eq!(join_nonempty(["\u{3000}a b\u{3000}"], "-"), "a b");
}
