use shinsho_rss::error::FeedError;
use shinsho_rss::html::sel;
use shinsho_rss::json::{find_json_isbn, isbn_from_scripts, json_well_formed, JsonValue};
use shinsho_rss::links::absolutize;
use shinsho_rss::pattern::{captures, date_in_text, group_names, TextPattern};
use shinsho_rss::sources::{
    chikuma_author, chikuma_books, chuko_book, chuko_entries, iwanami_book, iwanami_books, iwanami_id, iwanami_query,
    chuko_detail_isbn, known_isbn, kodansha_book, kodansha_detail, kodansha_detail_or_stored, kodansha_entries,
    kodansha_known_detail, linked_data_scripts, nhk_book, nhk_books, release_date, IwanamiBook, SpecRow,
    JAPANESE_DATE_PATTERN, NHK_CODE_PATTERN,
};
use shinsho_rss::book::State;
use shinsho_rss::date::calendar_date;

fn ymd(d: &Option<shinsho_rss::date::Date>) -> Option<(i32, u32, u32)> {
    d.as_ref().map(|d| (d.year(), d.month(), d.day()))
}

#[test]
fn links_resolve_against_the_page() {
    assert_eq!(
        absolutize("https://www.chuko.co.jp/shinsho/", "2024/05/102800.html").unwrap(),
        "https://www.chuko.co.jp/shinsho/2024/05/102800.html"
    );
    assert_eq!(
        absolutize("https://www.kodansha.co.jp/book/labels/bluebacks", "/titles/1").unwrap(),
        "https://www.kodansha.co.jp/titles/1"
    );
    match absolutize("not a url", "x") {
        Err(FeedError::InvalidUrl(b, h)) => {
            assert_eq!(b, "not a url");
            assert_eq!(h, "x");
        }
        _ => panic!("expected an invalid url"),
    }
}

#[test]
fn bad_selectors_and_patterns_are_refused() {
    assert!(sel("div > p").is_ok());
    assert!(matches!(sel("$$$"), Err(FeedError::InvalidSelector(t)) if t == "$$$"));
    assert!(matches!(TextPattern::new("(unclosed"), Err(FeedError::InvalidPattern(t)) if t == "(unclosed"));
}

#[test]
fn patterns_find_dates_and_groups() {
    let p = TextPattern::new(JAPANESE_DATE_PATTERN).unwrap();
    assert_eq!(ymd(&date_in_text(&p, "発売日：2024年5月10日")), Some((2024, 5, 10)));
    assert_eq!(ymd(&date_in_text(&p, "２０２４年5月10日")), None);
    assert_eq!(ymd(&date_in_text(&p, "2024年2月30日")), None);
    assert_eq!(ymd(&date_in_text(&p, "日付なし")), None);
    let named = TextPattern::new(r"(?P<y>\d{4})/(?P<m>\d{1,2})/(?P<d>\d{1,2})").unwrap();
    assert_eq!(ymd(&date_in_text(&named, "2024/5/20 刊行")), Some((2024, 5, 20)));
    assert_eq!(ymd(&date_in_text(&named, "2024/2/30")), None);
    let unnamed = TextPattern::new(r"(\d{4})/(\d{1,2})/(\d{1,2})").unwrap();
    assert_eq!(ymd(&date_in_text(&unnamed, "2024/5/20")), None);
    let reordered = TextPattern::new(r"(?P<d>\d{1,2})\.(?P<m>\d{1,2})\.(?P<y>\d{4})").unwrap();
    assert_eq!(ymd(&date_in_text(&reordered, "20.5.2024")), Some((2024, 5, 20)));
    assert_eq!(
        group_names(&named),
        vec![None, Some("y".to_string()), Some("m".to_string()), Some("d".to_string())]
    );
    let code = TextPattern::new(NHK_CODE_PATTERN).unwrap();
    let g = captures(&code, "/detail/000088107102024.html").unwrap();
    assert_eq!(g[0].as_deref(), Some("/detail/000088107102024.html"));
    assert_eq!(g[1].as_deref(), Some("000088107102024"));
}

#[test]
fn iwanami_answers_become_books() {
    let raw = IwanamiBook {
        id: "1234".to_string(),
        title1: " 本の ".to_string(),
        title2: "".to_string(),
        subtitle: "話".to_string(),
        author: " 山田  太郎 ".to_string(),
        date: Some(20240521),
        isbn: Some("978-4-00-431999-8".to_string()),
    };
    let b = iwanami_book(&raw, "岩波新書");
    assert_eq!(b.id, "iwanami:1234");
    assert_eq!(b.label, "岩波新書");
    assert_eq!(b.title, "本の 話");
    assert_eq!(b.author, "山田 太郎");
    assert_eq!(ymd(&b.publication_date), Some((2024, 5, 21)));
    assert_eq!(b.isbn.as_deref(), Some("9784004319998"));
    assert_eq!(b.url, "https://catalog.iwanami.co.jp/book/1234");
    let bs = iwanami_books(&vec![raw], "岩波ジュニア新書");
    assert_eq!(bs.len(), 1);
    assert_eq!(bs[0].label, "岩波ジュニア新書");
    let q = iwanami_query(4);
    assert_eq!((q.label, q.limit, q.offset, q.order.as_str(), q.direction.as_str()), (4, 48, 0, "date", "DESC"));
}

const CHUKO_PAGE: &str = r#"<html><body><div id="book_list"><ul id="list">
<li class="linkbox"><div class="book_txt"><h3> 日本の 歴史 </h3><p class="book_tit">副題です</p>
<p class="book_auth">山田  太郎 著</p><p class="book_desc">定価 1,000円</p><p class="book_desc">2024/5/21 刊行</p></div>
<div class="fullstory"><a href="/shinsho/2024/05/102800.html">詳しく</a></div></li>
<li class="linkbox"><div class="book_txt"><h3>リンクなし</h3></div></li>
</ul></div></body></html>"#;

#[test]
fn iwanami_ids_as_text() {
    assert_eq!(iwanami_id(r#""b123""#), "b123");
    assert_eq!(iwanami_id(r#""a\"b""#), "a\"b");
    assert_eq!(iwanami_id("4321"), "4321");
    assert_eq!(iwanami_id("null"), "null");
    assert_eq!(iwanami_id(&serde_json::Value::from(77).to_string()), "77");
}

#[test]
fn chuko_rows_and_books() {
    let es = chuko_entries(CHUKO_PAGE).unwrap();
    assert_eq!(es.len(), 1);
    let e = &es[0];
    assert_eq!(e.url, "https://www.chuko.co.jp/shinsho/2024/05/102800.html");
    assert_eq!(e.id, "chuko:https://www.chuko.co.jp/shinsho/2024/05/102800.html");
    assert_eq!(e.title, "日本の 歴史");
    assert_eq!(e.subtitle, "副題です");
    assert_eq!(e.author, "山田 太郎 著");
    assert_eq!(ymd(&e.publication_date), Some((2024, 5, 21)));
    let b = chuko_book(e, Some("9784121028000".to_string()));
    assert_eq!(b.label, "中公新書");
    assert_eq!(b.title, "日本の 歴史　副題です");
    assert_eq!(b.isbn.as_deref(), Some("9784121028000"));
    let mut state = State::new();
    assert_eq!(known_isbn(&state, &e.id), None);
    state.insert(b);
    assert_eq!(known_isbn(&state, &e.id).as_deref(), Some("9784121028000"));
}

#[test]
fn chuko_detail_isbn_from_linked_data() {
    let page = r#"<html><head><script type="application/ld+json">{"@type": "Book", "name": "x"}</script>
<script type="application/ld+json">{"a": {"isbn": 9, "b": {"isbn": "978-4-12-102800-0"}}}</script></head></html>"#;
    let scripts = linked_data_scripts(page).unwrap();
    assert_eq!(scripts.len(), 2);
    assert!(scripts[1].contains("978-4-12-102800-0"));
    let nested = JsonValue::Object(vec![(
        "a".to_string(),
        JsonValue::Object(vec![
            ("b".to_string(), JsonValue::Object(vec![("isbn".to_string(), JsonValue::Str("978-4-12-102800-0".to_string()))])),
            ("isbn".to_string(), JsonValue::Number("9".to_string())),
        ]),
    )]);
    assert_eq!(find_json_isbn(&nested).as_deref(), Some("978-4-12-102800-0"));
    let own = JsonValue::Object(vec![
        ("a".to_string(), JsonValue::Object(vec![("isbn".to_string(), JsonValue::Str("inner".to_string()))])),
        ("isbn".to_string(), JsonValue::Str("outer".to_string())),
    ]);
    assert_eq!(find_json_isbn(&own).as_deref(), Some("outer"));
    let arr = JsonValue::Array(vec![JsonValue::Null, JsonValue::Bool(true), JsonValue::Object(vec![("isbn".to_string(), JsonValue::Str("1-2".to_string()))])]);
    assert_eq!(find_json_isbn(&arr).as_deref(), Some("1-2"));
    assert_eq!(find_json_isbn(&JsonValue::Str("isbn".to_string())), None);
    assert!(json_well_formed(&nested) && json_well_formed(&own) && json_well_formed(&arr));
    let repeated = JsonValue::Object(vec![
        ("isbn".to_string(), JsonValue::Null),
        ("isbn".to_string(), JsonValue::Str("x".to_string())),
    ]);
    assert!(!json_well_formed(&repeated));
    let unordered = JsonValue::Array(vec![JsonValue::Object(vec![
        ("b".to_string(), JsonValue::Null),
        ("a".to_string(), JsonValue::Null),
    ])]);
    assert!(!json_well_formed(&unordered));
    let values = vec![None, Some(JsonValue::Null), Some(nested)];
    assert_eq!(isbn_from_scripts(&values).as_deref(), Some("9784121028000"));
    assert_eq!(isbn_from_scripts(&vec![None]), None);
}

#[test]
fn chuko_detail_page_gives_its_isbn() {
    let page = r#"<html><head><script type="application/ld+json">not json {</script>
<script type="application/ld+json">{"@type": "Book", "name": "x"}</script>
<script type="application/ld+json">{"z": 1, "a": {"isbn": 9, "b": {"isbn": "978-4-12-102800-0"}}}</script>
<script type="application/ld+json">{"isbn": "978-4-00-000000-0"}</script></head></html>"#;
    assert_eq!(chuko_detail_isbn(page).unwrap().as_deref(), Some("9784121028000"));
    let own = r#"<script type="application/ld+json">[{"isbn": "4-00-431234-X", "b": {"isbn": "no"}}]</script>"#;
    assert_eq!(chuko_detail_isbn(own).unwrap().as_deref(), Some("400431234X"));
    let repeated = r#"<script type="application/ld+json">{"isbn": 1, "isbn": "978-1"}</script>"#;
    assert_eq!(chuko_detail_isbn(repeated).unwrap().as_deref(), Some("9781"));
    assert_eq!(chuko_detail_isbn("<p>no scripts</p>").unwrap(), None);
    assert_eq!(chuko_detail_isbn(r#"<script type="application/ld+json">{"name": "x"}</script>"#).unwrap(), None);
}

#[test]
fn kodansha_rows_details_and_choices() {
    let list = r#"<html><body><a class="app-product-list-item" href="/titles/0000123">
<div class="app-product-list-item-detail-name">  題名  です </div><div class="app-product-list-item-detail-authors">著：山田 太郎</div></a>
<a class="app-product-list-item"><div class="app-product-list-item-detail-name">no link</div></a></body></html>"#;
    let es = kodansha_entries(list, "https://www.kodansha.co.jp/book/labels/gendai-shinsho").unwrap();
    assert_eq!(es.len(), 1);
    assert_eq!(es[0].url, "https://www.kodansha.co.jp/titles/0000123");
    assert_eq!(es[0].id, "kodansha:https://www.kodansha.co.jp/titles/0000123");
    let detail = r#"<html><head><meta property="books:isbn" content="978-4-06-123456-7"></head><body>
<section data-scroll-anchor="specs"><section><h5>発行日</h5><p>2024年1月1日</p></section>
<section><h5> 発売日 </h5><p>2024年5月16日</p></section><section><h5>発売日</h5><p>2024年6月1日</p></section></section></body></html>"#;
    let (isbn, date) = kodansha_detail(detail).unwrap();
    assert_eq!(isbn.as_deref(), Some("9784061234567"));
    assert_eq!(ymd(&date), Some((2024, 5, 16)));
    let (isbn, date) = kodansha_detail("<html></html>").unwrap();
    assert!(isbn.is_none() && date.is_none());
    let b = kodansha_book(&es[0], "ブルーバックス", isbn, date);
    assert_eq!(b.title, "題名 です");
    assert_eq!(b.author, "山田 太郎");
    assert_eq!(b.label, "ブルーバックス");

    let mut state = State::new();
    assert!(kodansha_known_detail(&state, &es[0].id).is_none());
    let (i, d) = kodansha_detail_or_stored(&state, &es[0].id, None);
    assert!(i.is_none() && d.is_none());
    let mut stored = kodansha_book(&es[0], "ブルーバックス", Some("1".to_string()), None);
    state.insert(kodansha_book(&es[0], "ブルーバックス", Some("1".to_string()), None));
    assert!(kodansha_known_detail(&state, &es[0].id).is_none());
    let (i, d) = kodansha_detail_or_stored(&state, &es[0].id, None);
    assert_eq!(i.as_deref(), Some("1"));
    assert!(d.is_none());
    stored.publication_date = calendar_date(2024, 1, 2);
    state.insert(stored);
    let (i, d) = kodansha_known_detail(&state, &es[0].id).unwrap();
    assert_eq!((i.as_deref(), ymd(&d)), (Some("1"), Some((2024, 1, 2))));
    let (i, d) = kodansha_detail_or_stored(&state, &es[0].id, Some((Some("2".to_string()), None)));
    assert_eq!(i.as_deref(), Some("2"));
    assert!(d.is_none());
}

#[test]
fn release_dates_take_the_first_sales_row() {
    let p = TextPattern::new(JAPANESE_DATE_PATTERN).unwrap();
    let row = |k: &str, v: Option<&str>| SpecRow { key: k.to_string(), value: v.map(|s| s.to_string()) };
    let rows = vec![row("発売日", None), row("発売日", Some("未定")), row("発売日", Some("2024年1月1日"))];
    assert_eq!(ymd(&release_date(&p, &rows)), None);
    let rows = vec![row("発売日", None), row(" 発売日 ", Some("2024年1月1日"))];
    assert_eq!(ymd(&release_date(&p, &rows)), Some((2024, 1, 1)));
    assert_eq!(ymd(&release_date(&p, &vec![])), None);
}

const CHIKUMA_PAGE: &str = r#"<html><body>
<a href="/product/9784480076250/"><h2>題名</h2><h4>副題</h4><h3>山田太郎</h3><h3> </h3><h3>鈴木花子</h3><p>2024/05/08 978-4-480-07625-0</p></a>
<a href="/product/9784480012345/"><h2>二冊目</h2><p>12024/05/08</p></a>
<a href="/other/1"><h2>対象外</h2></a>
</body></html>"#;

#[test]
fn chikuma_rows_become_books() {
    let bs = chikuma_books(CHIKUMA_PAGE, "https://www.chikumashobo.co.jp/chikuma_shinsho/", "ちくま新書").unwrap();
    assert_eq!(bs.len(), 2);
    assert_eq!(bs[0].id, "chikuma:9784480076250");
    assert_eq!(bs[0].url, "https://www.chikumashobo.co.jp/product/9784480076250/");
    assert_eq!(bs[0].title, "題名　副題");
    assert_eq!(bs[0].author, "山田太郎・鈴木花子");
    assert_eq!(ymd(&bs[0].publication_date), Some((2024, 5, 8)));
    assert_eq!(bs[0].isbn.as_deref(), Some("9784480076250"));
    assert_eq!(bs[1].id, "chikuma:9784480012345");
    assert_eq!(bs[1].isbn.as_deref(), Some("9784480012345"));
    assert_eq!(bs[1].title, "二冊目");
    assert_eq!(bs[1].author, "");
    assert_eq!(ymd(&bs[1].publication_date), None);
}

#[test]
fn chikuma_author_lines() {
    let ts = vec!["山田".to_string(), "  ".to_string(), "".to_string(), " 鈴木 ".to_string()];
    assert_eq!(chikuma_author(&ts), "山田・ 鈴木");
    assert_eq!(chikuma_author(&vec![]), "");
}

const NHK_PAGE: &str = r#"<html><body>
<div class="itmlist-one"><p class="itmlist-one-series">ＮＨＫ出版新書 710</p><p class="itmlist-one-name"> 題名 </p>
<p class="itmlist-one-persons">著：山田太郎</p><p class="itmlist-one-about-cap">発売日：2024年5月10日</p>
<div class="itmlist-one-blockDetail"><a href="/detail/000088107102024.html">詳細</a></div></div>
<div class="itmlist-one"><p class="itmlist-one-series">ＮＨＫテキスト</p><p class="itmlist-one-name">別</p>
<div class="itmlist-one-blockDetail"><a href="/detail/1.html">詳細</a></div></div>
<div class="itmlist-one"><p class="itmlist-one-series">ＮＨＫ出版新書</p><p class="itmlist-one-name">リンクなし</p></div>
</body></html>"#;

#[test]
fn nhk_rows_become_books() {
    let bs = nhk_books(NHK_PAGE).unwrap();
    assert_eq!(bs.len(), 1);
    assert_eq!(bs[0].id, "nhk:000088107102024");
    assert_eq!(bs[0].label, "NHK出版新書");
    assert_eq!(bs[0].url, "https://www.nhk-book.co.jp/detail/000088107102024.html");
    assert_eq!(bs[0].title, "題名");
    assert_eq!(bs[0].author, "山田太郎");
    assert_eq!(ymd(&bs[0].publication_date), Some((2024, 5, 10)));
    assert!(bs[0].isbn.is_none());
}

#[test]
fn nhk_codes_fall_back_to_the_link() {
    let dp = TextPattern::new(JAPANESE_DATE_PATTERN).unwrap();
    let cp = TextPattern::new(NHK_CODE_PATTERN).unwrap();
    let s = |t: &str| Some(t.to_string());
    let b = nhk_book(s("ＮＨＫ出版新書"), s("/detail/abc.html"), s("t"), None, None, &dp, &cp).unwrap().unwrap();
    assert_eq!(b.id, "nhk:/detail/abc.html");
    assert!(b.publication_date.is_none());
    assert_eq!(b.author, "");
    assert!(nhk_book(s(" ＮＨＫ出版新書"), None, None, None, None, &dp, &cp).unwrap().is_none());
    assert!(nhk_book(None, s("/detail/1.html"), None, None, None, &dp, &cp).unwrap().is_none());
}
