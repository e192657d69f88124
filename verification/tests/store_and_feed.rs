use shinsho_rss::book::{every_source_failed, merge_books, text_order, Book, State, SOURCE_COUNT};
use shinsho_rss::date::calendar_date;
use shinsho_rss::feed::{feed_item, feed_items, render_feed, sort_for_feed, MAX_FEED_ITEMS};

fn book(id: &str, label: &str, title: &str, date: Option<(i32, u32, u32)>) -> Book {
    Book {
        id: id.to_string(),
        label: label.to_string(),
        title: title.to_string(),
        author: "著者".to_string(),
        publication_date: date.map(|(y, m, d)| calendar_date(y, m, d).unwrap()),
        isbn: None,
        url: format!("https://example.com/{id}"),
    }
}

#[test]
fn a_stored_book_is_found_again() {
    let mut s = State::new();
    s.insert(book("b", "L", "first", None));
    s.insert(book("a", "L", "other", None));
    assert_eq!(s.len(), 2);
    s.insert(book("b", "L", "second", None));
    assert_eq!(s.len(), 2);
    assert_eq!(s.get("b").unwrap().title, "second");
    assert_eq!(s.get("a").unwrap().title, "other");
    assert!(s.get("c").is_none());
    let ids: Vec<&str> = s.books().iter().map(|b| b.id.as_str()).collect();
    assert_eq!(ids, vec!["a", "b"]);
}

#[test]
fn merging_counts_new_ids_and_later_wins() {
    let mut s = State::new();
    s.insert(book("x", "L", "old", None));
    let fetched = vec![book("x", "L", "new", None), book("y", "L", "y1", None), book("y", "L", "y2", None)];
    let added = merge_books(&mut s, &fetched);
    assert_eq!(added, 1);
    assert_eq!(s.len(), 2);
    assert_eq!(s.get("x").unwrap().title, "new");
    assert_eq!(s.get("y").unwrap().title, "y2");
    assert_eq!(merge_books(&mut s, &Vec::new()), 0);
}

#[test]
fn strings_order_by_code_point() {
    assert!(text_order("a", "b") < 0);
    assert!(text_order("ab", "a") > 0);
    assert_eq!(text_order("同じ", "同じ"), 0);
    assert!(text_order("Z", "a") < 0);
    assert!(text_order("\u{ff}", "\u{100}") < 0);
    for (a, b) in [("iwanami:1", "iwanami:10"), ("nhk:9", "kodansha:1"), ("é", "z"), ("", "")] {
        assert_eq!(text_order(a, b).signum() as i32, a.cmp(b) as i32);
    }
}

#[test]
fn sources_all_failed_only_when_every_one_did() {
    assert_eq!(SOURCE_COUNT, 8);
    assert!(every_source_failed(8));
    assert!(!every_source_failed(7));
    assert!(!every_source_failed(0));
}

#[test]
fn feed_order_is_newest_first_and_stable() {
    let books = vec![
        book("1", "A", "t", Some((2024, 5, 1))),
        book("2", "A", "t", None),
        book("3", "B", "t", Some((2024, 5, 1))),
        book("4", "A", "t", Some((2024, 6, 1))),
        book("5", "A", "t", Some((2024, 5, 1))),
        book("6", "A", "u", Some((2024, 5, 1))),
    ];
    let sorted = sort_for_feed(&books);
    let ids: Vec<&str> = sorted.iter().map(|b| b.id.as_str()).collect();
    assert_eq!(ids, vec!["4", "3", "6", "1", "5", "2"]);
}

#[test]
fn feed_entries_are_written_from_books() {
    let mut b = book("kodansha:x", "講談社現代新書", "題名", Some((2024, 5, 1)));
    b.author = "山田 太郎".to_string();
    b.isbn = Some("9784061234567".to_string());
    let item = feed_item(&b);
    assert_eq!(item.title, "[講談社現代新書] 題名");
    assert_eq!(item.link, "https://example.com/kodansha:x");
    assert_eq!(item.guid, "kodansha:x");
    assert!(!item.permalink);
    assert_eq!(item.pub_date.as_deref(), Some("Wed, 01 May 2024 00:00:00 +0900"));
    assert_eq!(item.description, "講談社現代新書 / 山田 太郎 / ISBN 9784061234567");
    let plain = feed_item(&book("n", "L", "T", None));
    assert_eq!(plain.pub_date, None);
    assert_eq!(plain.description, "L / 著者");
}

#[test]
fn the_feed_holds_at_most_the_limit() {
    let mut s = State::new();
    for i in 0..150u32 {
        s.insert(book(&format!("id{i:03}"), "L", "t", Some((2000 + (i % 20) as i32, 1, 1))));
    }
    let items = feed_items(&s);
    assert_eq!(items.len(), MAX_FEED_ITEMS);
    assert!(items[0].pub_date.as_deref().unwrap().contains("2019"));
}

#[test]
fn the_feed_renders_as_rss() {
    let mut s = State::new();
    s.insert(book("chikuma:978", "ちくま新書", "題名", Some((2024, 1, 1))));
    let xml = render_feed(&s, "https://example.invalid/shinsho.xml");
    assert!(xml.contains("<rss"));
    assert!(xml.contains("<title>新書・学術文庫 新刊</title>"));
    assert!(xml.contains("<link>https://example.invalid/shinsho.xml</link>"));
    assert!(xml.contains("<title>[ちくま新書] 題名</title>"));
    assert!(xml.contains("isPermaLink=\"false\""));
    assert!(xml.contains("chikuma:978"));
    assert!(xml.contains("Mon, 01 Jan 2024 00:00:00 +0900"));
    assert!(xml.contains("岩波新書、岩波ジュニア新書、中公新書、講談社現代新書、ちくま新書、ブルーバックス、NHK出版新書、ちくま学芸文庫"));
}
