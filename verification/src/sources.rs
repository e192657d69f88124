use vstd::prelude::*;

use crate::book::{book_views, find_book, opt_text, Book, BookView, State};
use crate::date::{parse_yyyymmdd, yyyymmdd_date, Date};
use crate::error::FeedError;
use crate::html::{
    attr, attribute_value, element_concat_text, element_text, first_text_at, match_count, sel,
    string_views, text_at, text_first, text_nodes, Element, Page, PathStep,
};
use crate::html::selector_parses;
use crate::json::{isbn_from_scripts, json_valid, parse_json, parsed_json, scripts_isbn, JsonValue};
use crate::links::{absolutize, joined_url};
use crate::pattern::{
    captures, date_found, date_in_text, match_texts, regex_captures, regex_compiles, TextPattern,
};
use crate::date::group_text;
use crate::book::text_order;
use crate::text::{
    append_str, chars_of, has_prefix, trimmed, clean_author_prefix, cleaned_author, isbn_chars, join, join_nonempty, normalize_isbn,
    normalize_space, normalized, single_space, trimmed_nonempty,
};

verus! {

/// `prefix` followed by `s`, as a new string.
pub fn prefixed(prefix: &str, s: &str) -> (res: String)
    ensures
        res@ == prefix@ + s@,
{
    let mut out = String::new();
    append_str(&mut out, prefix);
    append_str(&mut out, s);
    assert(out@ =~= prefix@ + s@);
    out
}

// ---------------------------------------------------------------------------
// Iwanami: the catalogue's search service.

/// The search request the Iwanami catalogue is sent for one series: the
/// newest 48 titles of series `label`, by date, descending.
#[derive(Debug)]
pub struct IwanamiQuery {
    pub keyword: String,
    pub label: u8,
    pub genre: Option<u32>,
    pub genre_or: Option<u32>,
    pub offset: u32,
    pub limit: u32,
    pub random_seed: Option<u32>,
    pub order: String,
    pub direction: String,
    pub first: Option<String>,
    pub id: Option<String>,
    pub filter_field: Option<String>,
    pub filter_start: u32,
    pub filter_end: u32,
    pub filter_stock: bool,
    pub filter_electric: bool,
    pub filter_bunko100: bool,
}

/// The search request for series `label_id`.
pub fn iwanami_query(label_id: u8) -> (res: IwanamiQuery)
    ensures
        res.keyword@ == Seq::<char>::empty(),
        res.label == label_id,
        res.genre is None,
        res.genre_or is None,
        res.offset == 0,
        res.limit == 48,
        res.random_seed is None,
        res.order@ == "date"@,
        res.direction@ == "DESC"@,
        res.first is None,
        res.id is None,
        res.filter_field is None,
        res.filter_start == 0,
        res.filter_end == 0,
        !res.filter_stock,
        !res.filter_electric,
        !res.filter_bunko100,
{
    IwanamiQuery {
        keyword: String::new(),
        label: label_id,
        genre: None,
        genre_or: None,
        offset: 0,
        limit: 48,
        random_seed: None,
        order: "date".to_owned(),
        direction: "DESC".to_owned(),
        first: None,
        id: None,
        filter_field: None,
        filter_start: 0,
        filter_end: 0,
        filter_stock: false,
        filter_electric: false,
        filter_bunko100: false,
    }
}

/// One title as the Iwanami catalogue answers it; `id` is the catalogue's
/// id as text (a JSON string as it is, another JSON value as JSON).
#[derive(Debug)]
pub struct IwanamiBook {
    pub id: String,
    pub title1: String,
    pub title2: String,
    pub subtitle: String,
    pub author: String,
    pub date: Option<u32>,
    pub isbn: Option<String>,
}

/// The catalogue id as text, given the id's JSON text: the string itself
/// where the JSON is a string, else the JSON text as it is.
pub open spec fn iwanami_id_of(json: Seq<char>) -> Seq<char> {
    match parsed_json(json) {
        Some(JsonValue::Str(s)) => s@,
        _ => json,
    }
}

/// The catalogue id as text, given the id's JSON text.
pub fn iwanami_id(json: &str) -> (res: String)
    ensures
        res@ == iwanami_id_of(json@),
{
    match parse_json(json) {
        Some(JsonValue::Str(s)) => s,
        _ => json.to_owned(),
    }
}

/// The book an Iwanami catalogue answer describes, in series `label`.
pub open spec fn iwanami_book_of(raw: IwanamiBook, label: Seq<char>) -> BookView {
    BookView {
        id: "iwanami:"@ + raw.id@,
        label: label,
        title: join(trimmed_nonempty(seq![raw.title1@, raw.title2@, raw.subtitle@]), single_space()),
        author: normalized(raw.author@),
        publication_date: match raw.date {
            Some(v) => yyyymmdd_date(v),
            None => None,
        },
        isbn: match raw.isbn {
            Some(s) => Some(isbn_chars(s@)),
            None => None,
        },
        url: "https://catalog.iwanami.co.jp/book/"@ + raw.id@,
    }
}

/// The book an Iwanami catalogue answer describes.
pub fn iwanami_book(raw: &IwanamiBook, label: &str) -> (res: Book)
    ensures
        res@ == iwanami_book_of(*raw, label@),
{
    let parts = [raw.title1.as_str(), raw.title2.as_str(), raw.subtitle.as_str()];
    assert(crate::text::str_views(parts@) =~= seq![raw.title1@, raw.title2@, raw.subtitle@]);
    let title = join_nonempty(parts, " ");
    let publication_date = match raw.date {
        Some(v) => parse_yyyymmdd(v),
        None => None,
    };
    let isbn = match &raw.isbn {
        Some(s) => Some(normalize_isbn(s.as_str())),
        None => None,
    };
    let res = Book {
        id: prefixed("iwanami:", raw.id.as_str()),
        label: label.to_owned(),
        title,
        author: normalize_space(raw.author.as_str()),
        publication_date,
        isbn,
        url: prefixed("https://catalog.iwanami.co.jp/book/", raw.id.as_str()),
    };
    assert(" "@ == single_space()) by {
        reveal_strlit(" ");
    }
    res
}

/// The text `a` followed by one space, or nothing where `a` is empty.
pub open spec fn with_space_after(a: Seq<char>) -> Seq<char> {
    if a.len() > 0 {
        a + single_space()
    } else {
        Seq::empty()
    }
}

/// One space followed by the text `c`, or nothing where `c` is empty.
pub open spec fn with_space_before(c: Seq<char>) -> Seq<char> {
    if c.len() > 0 {
        single_space() + c
    } else {
        Seq::empty()
    }
}

/// Law: the title of an Iwanami book is made of its trimmed title, second
/// title and subtitle in that order, one space between each two that are
/// not blank: a non-blank second title stands, trimmed, between the title
/// and the subtitle; a blank one leaves the title and subtitle side by side.
pub proof fn lemma_iwanami_title(raw: IwanamiBook, label: Seq<char>)
    ensures
        trimmed(raw.title2@).len() > 0 ==> iwanami_book_of(raw, label).title == with_space_after(
            trimmed(raw.title1@),
        ) + trimmed(raw.title2@) + with_space_before(trimmed(raw.subtitle@)),
        trimmed(raw.title2@).len() == 0 && trimmed(raw.title1@).len() > 0 ==> iwanami_book_of(
            raw,
            label,
        ).title == trimmed(raw.title1@) + with_space_before(trimmed(raw.subtitle@)),
        trimmed(raw.title2@).len() == 0 && trimmed(raw.title1@).len() == 0 ==> iwanami_book_of(
            raw,
            label,
        ).title == trimmed(raw.subtitle@),
{
    let a = trimmed(raw.title1@);
    let b = trimmed(raw.title2@);
    let c = trimmed(raw.subtitle@);
    let parts = seq![raw.title1@, raw.title2@, raw.subtitle@];
    assert(parts.drop_last() =~= seq![raw.title1@, raw.title2@]);
    assert(parts.drop_last().drop_last() =~= seq![raw.title1@]);
    assert(parts.drop_last().drop_last().drop_last() =~= Seq::<Seq<char>>::empty());
    let t1 = trimmed_nonempty(parts.drop_last().drop_last());
    let t2 = trimmed_nonempty(parts.drop_last());
    let t3 = trimmed_nonempty(parts);
    assert(t1 == if a.len() > 0 { seq![a] } else { Seq::<Seq<char>>::empty() }) by {
        let one = parts.drop_last().drop_last();
        assert(one.last() == raw.title1@);
        assert(trimmed_nonempty(one.drop_last()) =~= Seq::<Seq<char>>::empty());
        assert(Seq::<Seq<char>>::empty().push(a) =~= seq![a]);
    }
    assert(parts.drop_last().last() == raw.title2@);
    assert(parts.last() == raw.subtitle@);
    let sp = single_space();
    if a.len() > 0 {
        if b.len() > 0 {
            assert(t2 =~= seq![a, b]);
            assert(seq![a, b].drop_last() =~= seq![a]);
            assert(join(seq![a], sp) == a);
            assert(seq![a, b].last() == b);
            assert(join(seq![a, b], sp) == a + sp + b);
            if c.len() > 0 {
                assert(t3 =~= seq![a, b, c]);
                assert(seq![a, b, c].drop_last() =~= seq![a, b]);
                assert(seq![a, b, c].last() == c);
                assert(join(t3, sp) == a + sp + b + sp + c);
                assert(a + sp + b + sp + c =~= (a + sp) + b + (sp + c));
            } else {
                assert(t3 == t2);
                assert(a + sp + b =~= (a + sp) + b + Seq::<char>::empty());
            }
        } else {
            assert(t2 == t1);
            if c.len() > 0 {
                assert(t3 =~= seq![a, c]);
                assert(seq![a, c].drop_last() =~= seq![a]);
                assert(join(seq![a], sp) == a);
                assert(seq![a, c].last() == c);
                assert(join(t3, sp) == a + sp + c);
                assert(a + sp + c =~= a + (sp + c));
            } else {
                assert(t3 == t2);
                assert(a =~= a + Seq::<char>::empty());
            }
        }
    } else {
        if b.len() > 0 {
            assert(t2 =~= seq![b]);
            if c.len() > 0 {
                assert(t3 =~= seq![b, c]);
                assert(seq![b, c].drop_last() =~= seq![b]);
                assert(join(seq![b], sp) == b);
                assert(seq![b, c].last() == c);
                assert(join(t3, sp) == b + sp + c);
                assert(b + sp + c =~= Seq::<char>::empty() + b + (sp + c));
            } else {
                assert(t3 == t2);
                assert(b =~= Seq::<char>::empty() + b + Seq::<char>::empty());
            }
        } else {
            assert(t2 == t1);
            if c.len() > 0 {
                assert(t3 =~= seq![c]);
            } else {
                assert(t3 == t2);
                assert(c.len() == 0);
                assert(join(t3, sp) =~= c);
            }
        }
    }
}

/// Law: an Iwanami book is in the series it was read for, dated by the
/// answer's `yyyymmdd` number where that is a date, carries the answer's ISBN
/// with only its digits and `X`, and its id and address both end in the
/// catalogue id.
pub proof fn lemma_iwanami_book_details(raw: IwanamiBook, label: Seq<char>)
    ensures
        iwanami_book_of(raw, label).label == label,
        raw.date is None ==> iwanami_book_of(raw, label).publication_date is None,
        raw.date matches Some(v) ==> iwanami_book_of(raw, label).publication_date == yyyymmdd_date(v),
        raw.isbn is None ==> iwanami_book_of(raw, label).isbn is None,
        raw.isbn matches Some(i) ==> iwanami_book_of(raw, label).isbn == Some(isbn_chars(i@)),
        raw.id@.is_suffix_of(iwanami_book_of(raw, label).id),
        raw.id@.is_suffix_of(iwanami_book_of(raw, label).url),
{
    let b = iwanami_book_of(raw, label);
    assert(b.id.subrange(b.id.len() - raw.id@.len(), b.id.len() as int) =~= raw.id@);
    assert(b.url.subrange(b.url.len() - raw.id@.len(), b.url.len() as int) =~= raw.id@);
}

/// The books of one Iwanami catalogue answer, in the order given.
pub fn iwanami_books(raws: &Vec<IwanamiBook>, label: &str) -> (res: Vec<Book>)
    ensures
        book_views(res@) == raws@.map_values(|r: IwanamiBook| iwanami_book_of(r, label@)),
{
    let mut res: Vec<Book> = Vec::new();
    let mut i: usize = 0;
    while i < raws.len()
        invariant
            i <= raws.len(),
            book_views(res@) == raws@.take(i as int).map_values(
                |r: IwanamiBook| iwanami_book_of(r, label@),
            ),
        decreases raws.len() - i,
    {
        let ghost prev = book_views(res@);
        let b = iwanami_book(&raws[i], label);
        res.push(b);
        assert(book_views(res@) =~= prev.push(iwanami_book_of(raws@[i as int], label@)));
        assert(raws@.take(i + 1).map_values(|r: IwanamiBook| iwanami_book_of(r, label@))
            =~= raws@.take(i as int).map_values(|r: IwanamiBook| iwanami_book_of(r, label@)).push(
            iwanami_book_of(raws@[i as int], label@),
        ));
        i = i + 1;
    }
    assert(raws@.take(raws.len() as int) =~= raws@);
    res
}

/// The text, or the empty text where there is none.
pub open spec fn text_or_empty(t: Option<Seq<char>>) -> Seq<char> {
    match t {
        Some(s) => s,
        None => Seq::empty(),
    }
}

/// The text, or an empty string where there is none.
pub fn unwrap_text(t: Option<String>) -> (res: String)
    ensures
        res@ == text_or_empty(opt_text(t)),
{
    match t {
        Some(s) => s,
        None => String::new(),
    }
}

/// The first date that pattern `p` finds in the texts, tried in order.
pub open spec fn first_date_in(p: Seq<char>, texts: Seq<Seq<char>>) -> Option<Date>
    decreases texts.len(),
{
    if texts.len() == 0 {
        None
    } else {
        match date_found(p, texts[0]) {
            Some(d) => Some(d),
            None => first_date_in(p, texts.drop_first()),
        }
    }
}

/// The first date that `p` finds in the texts, tried in order.
pub fn first_date_in_texts(p: &TextPattern, texts: &Vec<String>) -> (res: Option<Date>)
    ensures
        res == first_date_in(p.source_text(), crate::html::string_views(texts@)),
{
    let ghost ts = crate::html::string_views(texts@);
    let mut i: usize = 0;
    assert(ts.skip(0) =~= ts);
    while i < texts.len()
        invariant
            i <= texts.len(),
            ts == crate::html::string_views(texts@),
            first_date_in(p.source_text(), ts) == first_date_in(p.source_text(), ts.skip(i as int)),
        decreases texts.len() - i,
    {
        assert(ts.skip(i as int)[0] == texts@[i as int]@);
        assert(ts.skip(i as int).drop_first() =~= ts.skip(i + 1));
        match date_in_text(p, texts[i].as_str()) {
            Some(d) => {
                return Some(d);
            },
            None => {},
        }
        i = i + 1;
    }
    None
}

/// The texts of the elements that `selector` matches inside the element at
/// `path` of `page`, in order.
pub open spec fn texts_at(page: Seq<char>, path: Seq<PathStep>, selector: Seq<char>) -> Seq<Seq<char>> {
    Seq::new(match_count(page, path, selector), |k: int| text_at(page, path.push((selector, k))))
}

/// The value of attribute `name` of the first element that `selector`
/// matches inside the element at `path` of `page`, if any.
pub open spec fn first_attribute_at(
    page: Seq<char>,
    path: Seq<PathStep>,
    selector: Seq<char>,
    name: Seq<char>,
) -> Option<Seq<char>> {
    if match_count(page, path, selector) == 0 {
        None
    } else {
        attribute_value(page, path.push((selector, 0)), name)
    }
}

/// The texts of the given elements.
fn texts_of(elements: &Vec<Element>) -> (res: Vec<String>)
    ensures
        res.len() == elements.len(),
        forall|k: int|
            0 <= k < res.len() ==> (#[trigger] res@[k])@ == text_at(
                elements@[k].page_text(),
                elements@[k].path_of(),
            ),
{
    let mut res: Vec<String> = Vec::new();
    let mut i: usize = 0;
    while i < elements.len()
        invariant
            i <= elements.len(),
            res.len() == i,
            forall|k: int|
                0 <= k < i ==> (#[trigger] res@[k])@ == text_at(
                    elements@[k].page_text(),
                    elements@[k].path_of(),
                ),
        decreases elements.len() - i,
    {
        res.push(element_text(&elements[i]));
        i = i + 1;
    }
    res
}

/// The value of attribute `name` of the first of `elements`, if any.
fn first_attribute(elements: &Vec<Element>, name: &str) -> (res: Option<String>)
    ensures
        elements.len() == 0 ==> res is None,
        elements.len() > 0 ==> opt_text(res) == attribute_value(
            elements@[0].page_text(),
            elements@[0].path_of(),
            name@,
        ),
{
    if elements.len() > 0 {
        attr(&elements[0], name)
    } else {
        None
    }
}

/// `e` is an error that a page reader gives: one of its selectors (those
/// `is_selector` holds of) that does not parse, one of its patterns (those
/// `is_pattern` holds of) that does not compile, or, where it resolves links
/// against the page address `base`, a link that does not resolve.
pub open spec fn is_reader_error(
    e: FeedError,
    is_selector: spec_fn(Seq<char>) -> bool,
    is_pattern: spec_fn(Seq<char>) -> bool,
    base: Option<Seq<char>>,
) -> bool {
    match e {
        FeedError::InvalidSelector(t) => is_selector(t@) && !selector_parses(t@),
        FeedError::InvalidPattern(t) => is_pattern(t@) && !regex_compiles(t@),
        FeedError::InvalidUrl(b, h) => base == Some(b@) && joined_url(b@, h@) is None,
    }
}

/// No text is one of the reader's patterns.
pub open spec fn no_pattern(t: Seq<char>) -> bool {
    false
}

// ---------------------------------------------------------------------------
// Chuko: the list page of the series, and the detail page of a title.

/// The list page of the Chuko series.
pub const CHUKO_LIST_URL: &'static str = "https://www.chuko.co.jp/shinsho/";

/// The date line of a Chuko list row: `yyyy/m/d` then `刊行`.
pub const CHUKO_DATE_PATTERN: &'static str = r"(?P<y>\d{4})/(?P<m>\d{1,2})/(?P<d>\d{1,2})\s*刊行";

/// A row of the Chuko list, before its ISBN is known.
#[derive(Debug)]
pub struct ChukoEntry {
    pub id: String,
    pub url: String,
    pub title: String,
    pub subtitle: String,
    pub author: String,
    pub publication_date: Option<Date>,
}

/// The entry for a Chuko row whose link is `href` on the page at `base`,
/// with the given title, subtitle and author texts and description texts,
/// where the link resolves (else `None`).
pub open spec fn chuko_entry_ok(
    e: ChukoEntry,
    base: Seq<char>,
    href: Seq<char>,
    title: Option<Seq<char>>,
    subtitle: Option<Seq<char>>,
    author: Option<Seq<char>>,
    desc: Seq<Seq<char>>,
    date_pattern: Seq<char>,
) -> bool {
    &&& joined_url(base, href) == Some(e.url@)
    &&& e.id@ == "chuko:"@ + e.url@
    &&& e.title@ == text_or_empty(title)
    &&& e.subtitle@ == text_or_empty(subtitle)
    &&& e.author@ == text_or_empty(author)
    &&& e.publication_date == first_date_in(date_pattern, desc)
}

/// The entry of one Chuko row.
pub fn chuko_entry(
    base: &str,
    href: &str,
    title: Option<String>,
    subtitle: Option<String>,
    author: Option<String>,
    desc_texts: &Vec<String>,
    date_pattern: &TextPattern,
) -> (res: Result<ChukoEntry, FeedError>)
    ensures
        match res {
            Ok(e) => chuko_entry_ok(e, base@, href@, opt_text(title), opt_text(subtitle), opt_text(
                author,
            ), string_views(desc_texts@), date_pattern.source_text()),
            Err(FeedError::InvalidUrl(b, h)) => joined_url(base@, href@) is None && b@ == base@
                && h@ == href@,
            Err(_) => false,
        },
{
    let url = absolutize(base, href)?;
    let id = prefixed("chuko:", url.as_str());
    let publication_date = first_date_in_texts(date_pattern, desc_texts);
    Ok(ChukoEntry {
        id,
        url,
        title: unwrap_text(title),
        subtitle: unwrap_text(subtitle),
        author: unwrap_text(author),
        publication_date,
    })
}

/// The Chuko list rows.
pub const CHUKO_ROW_SELECTOR: &'static str = "#book_list #list > li.linkbox";

/// A Chuko row's title.
pub const CHUKO_TITLE_SELECTOR: &'static str = ".book_txt h3";

/// A Chuko row's subtitle.
pub const CHUKO_SUBTITLE_SELECTOR: &'static str = ".book_txt .book_tit";

/// A Chuko row's author line.
pub const CHUKO_AUTHOR_SELECTOR: &'static str = ".book_txt .book_auth";

/// A Chuko row's description lines.
pub const CHUKO_DESC_SELECTOR: &'static str = ".book_txt .book_desc";

/// A Chuko row's link to the title's page.
pub const CHUKO_LINK_SELECTOR: &'static str = ".fullstory a[href]";

/// What a [`ChukoEntry`] holds, as character sequences.
pub struct ChukoEntryView {
    pub id: Seq<char>,
    pub url: Seq<char>,
    pub title: Seq<char>,
    pub subtitle: Seq<char>,
    pub author: Seq<char>,
    pub publication_date: Option<Date>,
}

impl View for ChukoEntry {
    type V = ChukoEntryView;

    open spec fn view(&self) -> ChukoEntryView {
        ChukoEntryView {
            id: self.id@,
            url: self.url@,
            title: self.title@,
            subtitle: self.subtitle@,
            author: self.author@,
            publication_date: self.publication_date,
        }
    }
}

/// The path of the `i`-th row matched by `selector` in a page.
pub open spec fn row_path(selector: Seq<char>, i: int) -> Seq<PathStep> {
    seq![(selector, i)]
}

/// The entry of the Chuko row at `row` of `page`, whose link resolves to `url`.
pub open spec fn chuko_entry_at(page: Seq<char>, row: Seq<PathStep>, url: Seq<char>) -> ChukoEntryView {
    ChukoEntryView {
        id: "chuko:"@ + url,
        url: url,
        title: text_or_empty(first_text_at(page, row, CHUKO_TITLE_SELECTOR@)),
        subtitle: text_or_empty(first_text_at(page, row, CHUKO_SUBTITLE_SELECTOR@)),
        author: text_or_empty(first_text_at(page, row, CHUKO_AUTHOR_SELECTOR@)),
        publication_date: first_date_in(CHUKO_DATE_PATTERN@, texts_at(page, row, CHUKO_DESC_SELECTOR@)),
    }
}

/// The entries of the first `n` Chuko rows of `page`: a row without a link
/// is skipped; the first link that does not resolve is the error.
pub open spec fn chuko_rows(page: Seq<char>, n: nat) -> Result<Seq<ChukoEntryView>, Seq<char>>
    decreases n,
{
    if n == 0 {
        Ok(Seq::empty())
    } else {
        match chuko_rows(page, (n - 1) as nat) {
            Err(h) => Err(h),
            Ok(es) => {
                let row = row_path(CHUKO_ROW_SELECTOR@, n - 1);
                match first_attribute_at(page, row, CHUKO_LINK_SELECTOR@, "href"@) {
                    None => Ok(es),
                    Some(h) => match joined_url(CHUKO_LIST_URL@, h) {
                        Some(u) => Ok(es.push(chuko_entry_at(page, row, u))),
                        None => Err(h),
                    },
                }
            },
        }
    }
}

/// The entries of all Chuko rows of `page`.
pub open spec fn chuko_entries_of(page: Seq<char>) -> Result<Seq<ChukoEntryView>, Seq<char>> {
    chuko_rows(page, match_count(page, Seq::empty(), CHUKO_ROW_SELECTOR@))
}

proof fn lemma_chuko_rows_fail(page: Seq<char>, n: nat, m: nat)
    requires
        n <= m,
        chuko_rows(page, n) is Err,
    ensures
        chuko_rows(page, m) == chuko_rows(page, n),
    decreases m,
{
    if n < m {
        lemma_chuko_rows_fail(page, n, (m - 1) as nat);
    }
}

/// The selectors that read the Chuko list page.
pub open spec fn chuko_selector(t: Seq<char>) -> bool {
    ||| t == CHUKO_ROW_SELECTOR@
    ||| t == CHUKO_TITLE_SELECTOR@
    ||| t == CHUKO_SUBTITLE_SELECTOR@
    ||| t == CHUKO_AUTHOR_SELECTOR@
    ||| t == CHUKO_DESC_SELECTOR@
    ||| t == CHUKO_LINK_SELECTOR@
}

/// The rows of the Chuko list page that carry a link, in page order.
pub fn chuko_entries(html: &str) -> (res: Result<Vec<ChukoEntry>, FeedError>)
    ensures
        match res {
            Ok(es) => chuko_entries_of(html@) == Ok::<Seq<ChukoEntryView>, Seq<char>>(es@.map_values(|e: ChukoEntry| e@)),
            Err(e) => is_reader_error(e, |t: Seq<char>| chuko_selector(t), |t: Seq<char>| t
                == CHUKO_DATE_PATTERN@, Some(CHUKO_LIST_URL@)) && (e matches FeedError::InvalidUrl(
                _,
                h,
            ) ==> chuko_entries_of(html@) == Err::<Seq<ChukoEntryView>, Seq<char>>(h@)),
        },
{
    let page = Page::parse(html);
    let row_sel = sel(CHUKO_ROW_SELECTOR)?;
    let title_sel = sel(CHUKO_TITLE_SELECTOR)?;
    let subtitle_sel = sel(CHUKO_SUBTITLE_SELECTOR)?;
    let author_sel = sel(CHUKO_AUTHOR_SELECTOR)?;
    let desc_sel = sel(CHUKO_DESC_SELECTOR)?;
    let link_sel = sel(CHUKO_LINK_SELECTOR)?;
    let date_pattern = TextPattern::new(CHUKO_DATE_PATTERN)?;
    let rows = page.select(&row_sel);
    let ghost pg = html@;
    let ghost count = match_count(pg, Seq::empty(), CHUKO_ROW_SELECTOR@);
    let mut out: Vec<ChukoEntry> = Vec::new();
    assert(out@.map_values(|e: ChukoEntry| e@) =~= Seq::<ChukoEntryView>::empty());
    let mut i: usize = 0;
    while i < rows.len()
        invariant
            i <= rows.len() == count,
            pg == html@,
            count == match_count(pg, Seq::empty(), CHUKO_ROW_SELECTOR@),
            forall|k: int|
                0 <= k < rows.len() ==> (#[trigger] rows@[k]).page_text() == pg && rows@[k].path_of()
                    == row_path(CHUKO_ROW_SELECTOR@, k),
            date_pattern.source_text() == CHUKO_DATE_PATTERN@,
            title_sel.source_text() == CHUKO_TITLE_SELECTOR@,
            subtitle_sel.source_text() == CHUKO_SUBTITLE_SELECTOR@,
            author_sel.source_text() == CHUKO_AUTHOR_SELECTOR@,
            desc_sel.source_text() == CHUKO_DESC_SELECTOR@,
            link_sel.source_text() == CHUKO_LINK_SELECTOR@,
            chuko_rows(pg, i as nat) == Ok::<Seq<ChukoEntryView>, Seq<char>>(
                out@.map_values(|e: ChukoEntry| e@),
            ),
        decreases rows.len() - i,
    {
        let row = &rows[i];
        let ghost rp = row_path(CHUKO_ROW_SELECTOR@, i as int);
        assert(row.path_of() == rp && row.page_text() == pg);
        let links = row.select(&link_sel);
        let href = first_attribute(&links, "href");
        assert(opt_text(href) == first_attribute_at(pg, rp, CHUKO_LINK_SELECTOR@, "href"@));
        let ghost before = out@.map_values(|e: ChukoEntry| e@);
        match href {
            Some(href) => {
                let title = text_first(row, &title_sel);
                let subtitle = text_first(row, &subtitle_sel);
                let author = text_first(row, &author_sel);
                let descs = row.select(&desc_sel);
                let desc_texts = texts_of(&descs);
                assert(string_views(desc_texts@) =~= texts_at(pg, rp, CHUKO_DESC_SELECTOR@));
                let e = match chuko_entry(
                    CHUKO_LIST_URL,
                    href.as_str(),
                    title,
                    subtitle,
                    author,
                    &desc_texts,
                    &date_pattern,
                ) {
                    Ok(e) => e,
                    Err(err) => {
                        proof {
                            lemma_chuko_rows_fail(pg, (i + 1) as nat, count);
                        }
                        return Err(err);
                    },
                };
                assert(e@ == chuko_entry_at(pg, rp, e.url@));
                out.push(e);
                assert(out@.map_values(|e: ChukoEntry| e@) =~= before.push(e@));
            },
            None => {},
        }
        i = i + 1;
    }
    Ok(out)
}

/// The ISBN already stored for `id`, if the state holds that book with one.
pub fn known_isbn(state: &State, id: &str) -> (res: Option<String>)
    ensures
        opt_text(res) == match find_book(state@, id@) {
            Some(b) => b.isbn,
            None => None,
        },
{
    match state.get(id) {
        Some(b) => crate::book::copy_opt_text(&b.isbn),
        None => None,
    }
}

/// The book of a Chuko entry with the ISBN found for it.
pub open spec fn chuko_book_of(e: ChukoEntry, isbn: Option<Seq<char>>) -> BookView {
    BookView {
        id: e.id@,
        label: "中公新書"@,
        title: join(trimmed_nonempty(seq![e.title@, e.subtitle@]), "　"@),
        author: normalized(e.author@),
        publication_date: e.publication_date,
        isbn: isbn,
        url: e.url@,
    }
}

/// The book of a Chuko entry with the ISBN found for it.
pub fn chuko_book(e: &ChukoEntry, isbn: Option<String>) -> (res: Book)
    ensures
        res@ == chuko_book_of(*e, opt_text(isbn)),
        res@.publication_date == e.publication_date,
        res@.isbn == opt_text(isbn),
{
    let parts = [e.title.as_str(), e.subtitle.as_str()];
    assert(crate::text::str_views(parts@) =~= seq![e.title@, e.subtitle@]);
    Book {
        id: e.id.clone(),
        label: "中公新書".to_owned(),
        title: join_nonempty(parts, "　"),
        author: normalize_space(e.author.as_str()),
        publication_date: e.publication_date,
        isbn,
        url: e.url.clone(),
    }
}

/// Law: a Chuko book keeps the publication date of its list entry and the
/// ISBN found for it.
pub proof fn lemma_chuko_book_keeps_date(e: ChukoEntry, isbn: Option<Seq<char>>)
    ensures
        chuko_book_of(e, isbn).publication_date == e.publication_date,
        chuko_book_of(e, isbn).isbn == isbn,
{
}

/// The selector of a detail page's linked-data scripts.
pub const LINKED_DATA_SELECTOR: &'static str = r#"script[type="application/ld+json"]"#;

/// The texts of the linked-data scripts of `page`, each script's text nodes
/// concatenated, in page order.
pub open spec fn linked_data_of(page: Seq<char>) -> Seq<Seq<char>> {
    Seq::new(
        match_count(page, Seq::empty(), LINKED_DATA_SELECTOR@),
        |k: int| join(text_nodes(page, row_path(LINKED_DATA_SELECTOR@, k)), Seq::empty()),
    )
}

/// The texts of a detail page's linked-data scripts, each script's text
/// nodes concatenated, in page order.
pub fn linked_data_scripts(html: &str) -> (res: Result<Vec<String>, FeedError>)
    ensures
        match res {
            Ok(ts) => selector_parses(LINKED_DATA_SELECTOR@) && string_views(ts@) == linked_data_of(
                html@,
            ),
            Err(e) => is_reader_error(e, |t: Seq<char>| t == LINKED_DATA_SELECTOR@, |t: Seq<char>|
                no_pattern(t), None),
        },
{
    let page = Page::parse(html);
    let script_sel = sel(LINKED_DATA_SELECTOR)?;
    let scripts = page.select(&script_sel);
    let mut out: Vec<String> = Vec::new();
    let mut i: usize = 0;
    while i < scripts.len()
        invariant
            i <= scripts.len(),
            scripts.len() == match_count(html@, Seq::empty(), LINKED_DATA_SELECTOR@),
            forall|k: int|
                0 <= k < scripts.len() ==> (#[trigger] scripts@[k]).page_text() == html@
                    && scripts@[k].path_of() == row_path(LINKED_DATA_SELECTOR@, k),
            string_views(out@) == linked_data_of(html@).take(i as int),
        decreases scripts.len() - i,
    {
        let t = element_concat_text(&scripts[i]);
        let ghost before = string_views(out@);
        out.push(t);
        assert(string_views(out@) =~= before.push(t@));
        assert(linked_data_of(html@).take(i + 1) =~= linked_data_of(html@).take(i as int).push(t@));
        i = i + 1;
    }
    assert(linked_data_of(html@).take(scripts.len() as int) =~= linked_data_of(html@));
    Ok(out)
}

/// The ISBN of a Chuko detail page: the normalized ISBN of the first of its
/// linked-data scripts that reads as JSON and carries one.
pub open spec fn chuko_detail_isbn_of(page: Seq<char>) -> Option<Seq<char>> {
    scripts_isbn(linked_data_of(page).map_values(|t: Seq<char>| parsed_json(t)))
}

/// The ISBN on a Chuko detail page, read from its linked-data scripts.
pub fn chuko_detail_isbn(html: &str) -> (res: Result<Option<String>, FeedError>)
    ensures
        match res {
            Ok(i) => opt_text(i) == chuko_detail_isbn_of(html@),
            Err(e) => is_reader_error(e, |t: Seq<char>| t == LINKED_DATA_SELECTOR@, |t: Seq<char>|
                no_pattern(t), None),
        },
{
    let scripts = match linked_data_scripts(html) {
        Ok(ts) => ts,
        Err(e) => {
            return Err(e);
        },
    };
    let ghost texts = linked_data_of(html@);
    let mut values: Vec<Option<JsonValue>> = Vec::new();
    let mut i: usize = 0;
    while i < scripts.len()
        invariant
            i <= scripts.len(),
            string_views(scripts@) == texts,
            values@ == texts.take(i as int).map_values(|t: Seq<char>| parsed_json(t)),
            forall|k: int|
                0 <= k < values.len() && (#[trigger] values@[k]) is Some ==> json_valid(
                    values@[k]->Some_0,
                ),
        decreases scripts.len() - i,
    {
        let v = parse_json(scripts[i].as_str());
        assert(texts[i as int] == scripts@[i as int]@);
        let ghost before = values@;
        values.push(v);
        assert(texts.take(i + 1).map_values(|t: Seq<char>| parsed_json(t)) =~= before.push(
            parsed_json(texts[i as int]),
        ));
        i = i + 1;
    }
    assert(texts.take(scripts.len() as int) =~= texts);
    Ok(isbn_from_scripts(&values))
}

// ---------------------------------------------------------------------------
// Kodansha: the list page of a series, and the detail page of a title.

/// A row of a Kodansha list, before its ISBN and date are known.
#[derive(Debug)]
pub struct KodanshaEntry {
    pub id: String,
    pub url: String,
    pub title: String,
    pub author: String,
}

/// `e` is the entry of a Kodansha row whose link is `href` on the page at
/// `list_url`, with the given title and author texts.
pub open spec fn kodansha_entry_ok(
    e: KodanshaEntry,
    list_url: Seq<char>,
    href: Seq<char>,
    title: Option<Seq<char>>,
    author: Option<Seq<char>>,
) -> bool {
    &&& joined_url(list_url, href) == Some(e.url@)
    &&& e.id@ == "kodansha:"@ + e.url@
    &&& e.title@ == text_or_empty(title)
    &&& e.author@ == text_or_empty(author)
}

/// The entry of one Kodansha row whose link is `href` on the page at `list_url`.
pub fn kodansha_entry(list_url: &str, href: &str, title: Option<String>, author: Option<String>) -> (res:
    Result<KodanshaEntry, FeedError>)
    ensures
        match res {
            Ok(e) => kodansha_entry_ok(e, list_url@, href@, opt_text(title), opt_text(author)),
            Err(FeedError::InvalidUrl(b, h)) => joined_url(list_url@, href@) is None && b@
                == list_url@ && h@ == href@,
            Err(_) => false,
        },
{
    let url = absolutize(list_url, href)?;
    let id = prefixed("kodansha:", url.as_str());
    Ok(KodanshaEntry { id, url, title: unwrap_text(title), author: unwrap_text(author) })
}

/// The Kodansha list items.
pub const KODANSHA_ROW_SELECTOR: &'static str = "a.app-product-list-item";

/// A Kodansha list item's title.
pub const KODANSHA_TITLE_SELECTOR: &'static str = ".app-product-list-item-detail-name";

/// A Kodansha list item's author line.
pub const KODANSHA_AUTHOR_SELECTOR: &'static str = ".app-product-list-item-detail-authors";

/// What a [`KodanshaEntry`] holds, as character sequences.
pub struct KodanshaEntryView {
    pub id: Seq<char>,
    pub url: Seq<char>,
    pub title: Seq<char>,
    pub author: Seq<char>,
}

impl View for KodanshaEntry {
    type V = KodanshaEntryView;

    open spec fn view(&self) -> KodanshaEntryView {
        KodanshaEntryView { id: self.id@, url: self.url@, title: self.title@, author: self.author@ }
    }
}

/// The entry of the Kodansha item at `row` of `page`, whose link resolves to `url`.
pub open spec fn kodansha_entry_at(page: Seq<char>, row: Seq<PathStep>, url: Seq<char>) -> KodanshaEntryView {
    KodanshaEntryView {
        id: "kodansha:"@ + url,
        url: url,
        title: text_or_empty(first_text_at(page, row, KODANSHA_TITLE_SELECTOR@)),
        author: text_or_empty(first_text_at(page, row, KODANSHA_AUTHOR_SELECTOR@)),
    }
}

/// The entries of the first `n` Kodansha items of `page` listed at
/// `list_url`: an item without a link is skipped; the first link that does
/// not resolve is the error.
pub open spec fn kodansha_rows(page: Seq<char>, list_url: Seq<char>, n: nat) -> Result<
    Seq<KodanshaEntryView>,
    Seq<char>,
>
    decreases n,
{
    if n == 0 {
        Ok(Seq::empty())
    } else {
        match kodansha_rows(page, list_url, (n - 1) as nat) {
            Err(h) => Err(h),
            Ok(es) => {
                let row = row_path(KODANSHA_ROW_SELECTOR@, n - 1);
                match attribute_value(page, row, "href"@) {
                    None => Ok(es),
                    Some(h) => match joined_url(list_url, h) {
                        Some(u) => Ok(es.push(kodansha_entry_at(page, row, u))),
                        None => Err(h),
                    },
                }
            },
        }
    }
}

/// The entries of all Kodansha items of `page` listed at `list_url`.
pub open spec fn kodansha_entries_of(page: Seq<char>, list_url: Seq<char>) -> Result<
    Seq<KodanshaEntryView>,
    Seq<char>,
> {
    kodansha_rows(page, list_url, match_count(page, Seq::empty(), KODANSHA_ROW_SELECTOR@))
}

proof fn lemma_kodansha_rows_fail(page: Seq<char>, list_url: Seq<char>, n: nat, m: nat)
    requires
        n <= m,
        kodansha_rows(page, list_url, n) is Err,
    ensures
        kodansha_rows(page, list_url, m) == kodansha_rows(page, list_url, n),
    decreases m,
{
    if n < m {
        lemma_kodansha_rows_fail(page, list_url, n, (m - 1) as nat);
    }
}

/// The selectors that read a Kodansha list page.
pub open spec fn kodansha_list_selector(t: Seq<char>) -> bool {
    ||| t == KODANSHA_ROW_SELECTOR@
    ||| t == KODANSHA_TITLE_SELECTOR@
    ||| t == KODANSHA_AUTHOR_SELECTOR@
}

/// The items of a Kodansha list page that carry a link, in page order.
pub fn kodansha_entries(html: &str, list_url: &str) -> (res: Result<Vec<KodanshaEntry>, FeedError>)
    ensures
        match res {
            Ok(es) => kodansha_entries_of(html@, list_url@) == Ok::<Seq<KodanshaEntryView>, Seq<char>>(
                es@.map_values(|e: KodanshaEntry| e@),
            ),
            Err(e) => is_reader_error(e, |t: Seq<char>| kodansha_list_selector(t), |t: Seq<char>|
                no_pattern(t), Some(list_url@)) && (e matches FeedError::InvalidUrl(_, h)
                ==> kodansha_entries_of(html@, list_url@) == Err::<Seq<KodanshaEntryView>, Seq<char>>(
                h@,
            )),
        },
{
    let page = Page::parse(html);
    let row_sel = sel(KODANSHA_ROW_SELECTOR)?;
    let title_sel = sel(KODANSHA_TITLE_SELECTOR)?;
    let author_sel = sel(KODANSHA_AUTHOR_SELECTOR)?;
    let rows = page.select(&row_sel);
    let ghost pg = html@;
    let ghost count = match_count(pg, Seq::empty(), KODANSHA_ROW_SELECTOR@);
    let mut out: Vec<KodanshaEntry> = Vec::new();
    assert(out@.map_values(|e: KodanshaEntry| e@) =~= Seq::<KodanshaEntryView>::empty());
    let mut i: usize = 0;
    while i < rows.len()
        invariant
            i <= rows.len() == count,
            pg == html@,
            count == match_count(pg, Seq::empty(), KODANSHA_ROW_SELECTOR@),
            forall|k: int|
                0 <= k < rows.len() ==> (#[trigger] rows@[k]).page_text() == pg && rows@[k].path_of()
                    == row_path(KODANSHA_ROW_SELECTOR@, k),
            title_sel.source_text() == KODANSHA_TITLE_SELECTOR@,
            author_sel.source_text() == KODANSHA_AUTHOR_SELECTOR@,
            kodansha_rows(pg, list_url@, i as nat) == Ok::<Seq<KodanshaEntryView>, Seq<char>>(
                out@.map_values(|e: KodanshaEntry| e@),
            ),
        decreases rows.len() - i,
    {
        let row = &rows[i];
        let ghost rp = row_path(KODANSHA_ROW_SELECTOR@, i as int);
        assert(row.path_of() == rp && row.page_text() == pg);
        let ghost before = out@.map_values(|e: KodanshaEntry| e@);
        match attr(row, "href") {
            Some(href) => {
                let title = text_first(row, &title_sel);
                let author = text_first(row, &author_sel);
                let e = match kodansha_entry(list_url, href.as_str(), title, author) {
                    Ok(e) => e,
                    Err(err) => {
                        proof {
                            lemma_kodansha_rows_fail(pg, list_url@, (i + 1) as nat, count);
                        }
                        return Err(err);
                    },
                };
                assert(e@ == kodansha_entry_at(pg, rp, e.url@));
                out.push(e);
                assert(out@.map_values(|e: KodanshaEntry| e@) =~= before.push(e@));
            },
            None => {},
        }
        i = i + 1;
    }
    Ok(out)
}

/// The ISBN and date stored for `id`, where the state holds that book with both.
pub fn kodansha_known_detail(state: &State, id: &str) -> (res: Option<(Option<String>, Option<Date>)>)
    ensures
        match res {
            Some((isbn, date)) => match find_book(state@, id@) {
                Some(b) => b.isbn is Some && b.publication_date is Some && opt_text(isbn) == b.isbn
                    && date == b.publication_date,
                None => false,
            },
            None => match find_book(state@, id@) {
                Some(b) => b.isbn is None || b.publication_date is None,
                None => true,
            },
        },
{
    match state.get(id) {
        Some(b) => {
            if b.isbn.is_some() && b.publication_date.is_some() {
                Some((crate::book::copy_opt_text(&b.isbn), b.publication_date))
            } else {
                None
            }
        },
        None => None,
    }
}

/// The ISBN and date to keep for `id` given what the detail page gave
/// (`None` where fetching or reading it failed): the page's where it was
/// read, else what the state holds, else nothing.
pub fn kodansha_detail_or_stored(
    state: &State,
    id: &str,
    fetched: Option<(Option<String>, Option<Date>)>,
) -> (res: (Option<String>, Option<Date>))
    ensures
        match fetched {
            Some((isbn, date)) => opt_text(res.0) == opt_text(isbn) && res.1 == date,
            None => match find_book(state@, id@) {
                Some(b) => opt_text(res.0) == b.isbn && res.1 == b.publication_date,
                None => res.0 is None && res.1 is None,
            },
        },
{
    match fetched {
        Some(v) => v,
        None => match state.get(id) {
            Some(b) => (crate::book::copy_opt_text(&b.isbn), b.publication_date),
            None => (None, None),
        },
    }
}

/// The book of a Kodansha entry in series `label`, with its ISBN and date.
pub open spec fn kodansha_book_of(
    e: KodanshaEntry,
    label: Seq<char>,
    isbn: Option<Seq<char>>,
    date: Option<Date>,
) -> BookView {
    BookView {
        id: e.id@,
        label: label,
        title: normalized(e.title@),
        author: cleaned_author(e.author@),
        publication_date: date,
        isbn: isbn,
        url: e.url@,
    }
}

/// The book of a Kodansha entry in series `label`, with its ISBN and date.
pub fn kodansha_book(e: &KodanshaEntry, label: &str, isbn: Option<String>, date: Option<Date>) -> (res:
    Book)
    ensures
        res@ == kodansha_book_of(*e, label@, opt_text(isbn), date),
        res@.publication_date == date,
        res@.label == label@,
        res@.isbn == opt_text(isbn),
{
    Book {
        id: e.id.clone(),
        label: label.to_owned(),
        title: normalize_space(e.title.as_str()),
        author: clean_author_prefix(e.author.as_str()),
        publication_date: date,
        isbn,
        url: e.url.clone(),
    }
}

/// Law: a Kodansha book carries the series, ISBN and release date it is given.
pub proof fn lemma_kodansha_book_keeps_details(
    e: KodanshaEntry,
    label: Seq<char>,
    isbn: Option<Seq<char>>,
    date: Option<Date>,
)
    ensures
        kodansha_book_of(e, label, isbn, date).publication_date == date,
        kodansha_book_of(e, label, isbn, date).label == label,
        kodansha_book_of(e, label, isbn, date).isbn == isbn,
{
}

/// The date line of a Kodansha or NHK page: `yyyy年m月d日`.
pub const JAPANESE_DATE_PATTERN: &'static str = r"(?P<y>\d{4})年(?P<m>\d{1,2})月(?P<d>\d{1,2})日";

/// A section of a detail page's specification table: its heading text (empty
/// where it has none) and its first paragraph's text.
#[derive(Debug)]
pub struct SpecRow {
    pub key: String,
    pub value: Option<String>,
}

impl View for SpecRow {
    type V = (Seq<char>, Option<Seq<char>>);

    open spec fn view(&self) -> (Seq<char>, Option<Seq<char>>) {
        (self.key@, opt_text(self.value))
    }
}

/// The views of the given table rows.
pub open spec fn spec_row_views(rows: Seq<SpecRow>) -> Seq<(Seq<char>, Option<Seq<char>>)> {
    rows.map_values(|r: SpecRow| r@)
}

/// The release date of a specification table (heading, paragraph per
/// section): the date in the paragraph of the first section headed `発売日`
/// that has a paragraph (none where that paragraph holds no date, or no such
/// section exists).
pub open spec fn release_date_in(p: Seq<char>, rows: Seq<(Seq<char>, Option<Seq<char>>)>) -> Option<Date>
    decreases rows.len(),
{
    if rows.len() == 0 {
        None
    } else if normalized(rows[0].0) == "発売日"@ && rows[0].1 is Some {
        date_found(p, rows[0].1.unwrap())
    } else {
        release_date_in(p, rows.drop_first())
    }
}

/// The release date of a specification table.
pub fn release_date(p: &TextPattern, rows: &Vec<SpecRow>) -> (res: Option<Date>)
    ensures
        res == release_date_in(p.source_text(), spec_row_views(rows@)),
{
    let ghost rs = spec_row_views(rows@);
    let mut i: usize = 0;
    assert(rs.skip(0) =~= rs);
    while i < rows.len()
        invariant
            i <= rows.len(),
            rs == spec_row_views(rows@),
            release_date_in(p.source_text(), rs) == release_date_in(p.source_text(), rs.skip(i as int)),
        decreases rows.len() - i,
    {
        assert(rs.skip(i as int)[0] == rows@[i as int]@);
        assert(rs.skip(i as int).drop_first() =~= rs.skip(i + 1));
        let key = normalize_space(rows[i].key.as_str());
        if text_order(key.as_str(), "発売日") == 0 {
            match &rows[i].value {
                Some(v) => {
                    return date_in_text(p, v.as_str());
                },
                None => {},
            }
        }
        i = i + 1;
    }
    None
}

/// The meta element that carries a Kodansha title's ISBN.
pub const KODANSHA_ISBN_SELECTOR: &'static str = r#"meta[property="books:isbn"]"#;

/// The specification table of a Kodansha detail page.
pub const KODANSHA_SPECS_SELECTOR: &'static str = r#"section[data-scroll-anchor="specs"]"#;

/// The rows of the first specification table of `page`: for each section in
/// it, its first heading's text (empty where none) and its first paragraph's text.
pub open spec fn spec_rows_at(page: Seq<char>) -> Seq<(Seq<char>, Option<Seq<char>>)> {
    let table = row_path(KODANSHA_SPECS_SELECTOR@, 0);
    Seq::new(
        match_count(page, table, "section"@),
        |k: int|
            (
                text_or_empty(first_text_at(page, table.push(("section"@, k)), "h5"@)),
                first_text_at(page, table.push(("section"@, k)), "p"@),
            ),
    )
}

/// The ISBN and release date of a Kodansha detail page: the `content` of the
/// first ISBN meta element, normalized; the release date of the first
/// specification table (none where the page has none).
pub open spec fn kodansha_detail_of(page: Seq<char>) -> (Option<Seq<char>>, Option<Date>) {
    (
        match first_attribute_at(page, Seq::empty(), KODANSHA_ISBN_SELECTOR@, "content"@) {
            Some(c) => Some(isbn_chars(c)),
            None => None,
        },
        if match_count(page, Seq::empty(), KODANSHA_SPECS_SELECTOR@) == 0 {
            None
        } else {
            release_date_in(JAPANESE_DATE_PATTERN@, spec_rows_at(page))
        },
    )
}

/// The selectors that read a Kodansha detail page.
pub open spec fn kodansha_detail_selector(t: Seq<char>) -> bool {
    ||| t == KODANSHA_ISBN_SELECTOR@
    ||| t == KODANSHA_SPECS_SELECTOR@
    ||| t == "section"@
    ||| t == "h5"@
    ||| t == "p"@
}

/// The ISBN and release date on a Kodansha detail page.
pub fn kodansha_detail(html: &str) -> (res: Result<(Option<String>, Option<Date>), FeedError>)
    ensures
        match res {
            Ok((isbn, date)) => kodansha_detail_of(html@) == (opt_text(isbn), date),
            Err(e) => is_reader_error(e, |t: Seq<char>| kodansha_detail_selector(t), |t: Seq<char>|
                t == JAPANESE_DATE_PATTERN@, None),
        },
{
    let page = Page::parse(html);
    let isbn_sel = sel(KODANSHA_ISBN_SELECTOR)?;
    let metas = page.select(&isbn_sel);
    let content = first_attribute(&metas, "content");
    let isbn = match &content {
        Some(v) => Some(normalize_isbn(v.as_str())),
        None => None,
    };
    let specs_sel = sel(KODANSHA_SPECS_SELECTOR)?;
    let section_sel = sel("section")?;
    let h5_sel = sel("h5")?;
    let p_sel = sel("p")?;
    let date_pattern = TextPattern::new(JAPANESE_DATE_PATTERN)?;
    let specs = page.select(&specs_sel);
    let mut date: Option<Date> = None;
    if specs.len() > 0 {
        let ghost table = row_path(KODANSHA_SPECS_SELECTOR@, 0);
        assert(specs@[0].path_of() == table);
        let sections = specs[0].select(&section_sel);
        let mut rows: Vec<SpecRow> = Vec::new();
        assert(spec_row_views(rows@) =~= spec_rows_at(html@).take(0));
        let mut i: usize = 0;
        while i < sections.len()
            invariant
                i <= sections.len(),
                rows.len() == i,
                table == row_path(KODANSHA_SPECS_SELECTOR@, 0),
                sections.len() == match_count(html@, table, "section"@),
                forall|k: int|
                    0 <= k < sections.len() ==> (#[trigger] sections@[k]).page_text() == html@
                        && sections@[k].path_of() == table.push(("section"@, k)),
                h5_sel.source_text() == "h5"@,
                p_sel.source_text() == "p"@,
                spec_row_views(rows@) == spec_rows_at(html@).take(i as int),
            decreases sections.len() - i,
        {
            let ghost sp = table.push(("section"@, i as int));
            assert(sections@[i as int].path_of() == sp && sections@[i as int].page_text() == html@);
            let heading = text_first(&sections[i], &h5_sel);
            assert(opt_text(heading) == first_text_at(html@, sp, "h5"@));
            let key = unwrap_text(heading);
            let value = text_first(&sections[i], &p_sel);
            assert(opt_text(value) == first_text_at(html@, sp, "p"@));
            assert(spec_rows_at(html@)[i as int] == (key@, opt_text(value)));
            let r = SpecRow { key, value };
            let ghost before = spec_row_views(rows@);
            rows.push(r);
            assert(spec_row_views(rows@) =~= before.push(rows@[i as int]@));
            assert(spec_rows_at(html@).take(i + 1) =~= spec_rows_at(html@).take(i as int).push(
                rows@[i as int]@,
            ));
            i = i + 1;
        }
        assert(spec_rows_at(html@).take(sections.len() as int) =~= spec_rows_at(html@));
        date = release_date(&date_pattern, &rows);
    }
    Ok((isbn, date))
}

// ---------------------------------------------------------------------------
// Chikuma: the list page of a series.

/// The date of a Chikuma row: `yyyy/mm/dd` standing as a word of its own.
pub const CHIKUMA_DATE_PATTERN: &'static str = r"\b(?P<y>\d{4})/(?P<m>\d{2})/(?P<d>\d{2})\b";

/// An ISBN-13 as Chikuma prints it, hyphenated.
pub const CHIKUMA_ISBN_PATTERN: &'static str = r"978-\d-\d+-\d+-\d";

/// The ISBN-13 in the path of a Chikuma product link.
pub const CHIKUMA_PATH_ISBN_PATTERN: &'static str = r"/product/(978\d{10})/";

/// The texts that are not blank (not empty once trimmed), as they are, in order.
pub open spec fn nonblank_texts(ts: Seq<Seq<char>>) -> Seq<Seq<char>>
    decreases ts.len(),
{
    if ts.len() == 0 {
        Seq::empty()
    } else if trimmed(ts.last()).len() > 0 {
        nonblank_texts(ts.drop_last()).push(ts.last())
    } else {
        nonblank_texts(ts.drop_last())
    }
}

/// The author line of a Chikuma row: its author texts that are not blank,
/// joined by `・`, white space folded.
pub fn chikuma_author(texts: &Vec<String>) -> (res: String)
    ensures
        res@ == normalized(join(nonblank_texts(crate::html::string_views(texts@)), "・"@)),
{
    let ghost ts = crate::html::string_views(texts@);
    let mut joined = String::new();
    let mut count: usize = 0;
    let mut i: usize = 0;
    while i < texts.len()
        invariant
            i <= texts.len(),
            count <= i,
            ts == crate::html::string_views(texts@),
            count == nonblank_texts(ts.take(i as int)).len(),
            joined@ == join(nonblank_texts(ts.take(i as int)), "・"@),
        decreases texts.len() - i,
    {
        let ghost before = nonblank_texts(ts.take(i as int));
        assert(ts.take(i + 1).drop_last() =~= ts.take(i as int));
        assert(ts.take(i + 1).last() == texts@[i as int]@);
        let t = crate::text::trim_chars(&chars_of(texts[i].as_str()));
        if t.len() > 0 {
            if count > 0 {
                append_str(&mut joined, "・");
            }
            append_str(&mut joined, texts[i].as_str());
            assert(before.push(texts@[i as int]@).drop_last() =~= before);
            count = count + 1;
        }
        i = i + 1;
    }
    assert(ts.take(texts.len() as int) =~= ts);
    normalize_space(joined.as_str())
}

/// The ISBN of a Chikuma row: the first hyphenated ISBN-13 in the row's text,
/// normalized; else the ISBN-13 in its link's path, as it stands; else none.
pub open spec fn chikuma_isbn_of(
    isbn_pattern: Seq<char>,
    path_pattern: Seq<char>,
    whole: Seq<char>,
    href: Seq<char>,
) -> Option<Seq<char>> {
    match regex_captures(isbn_pattern, whole) {
        Some(groups) => match group_text(groups, 0) {
            Some(m) => Some(isbn_chars(m)),
            None => match regex_captures(path_pattern, href) {
                Some(g) => group_text(g, 1),
                None => None,
            },
        },
        None => match regex_captures(path_pattern, href) {
            Some(g) => group_text(g, 1),
            None => None,
        },
    }
}

/// The text of group `i` of a match, where there is a match with that group.
fn group_of(m: Option<Vec<Option<String>>>, i: usize) -> (res: Option<String>)
    ensures
        opt_text(res) == match match_texts(m) {
            Some(g) => group_text(g, i as int),
            None => None,
        },
{
    match m {
        Some(groups) => {
            if i < groups.len() {
                let ghost gs = crate::date::group_texts(groups@);
                assert(gs[i as int] == opt_text(groups@[i as int]));
                crate::book::copy_opt_text(&groups[i])
            } else {
                None
            }
        },
        None => None,
    }
}

/// The ISBN of a Chikuma row.
pub fn chikuma_isbn(isbn_pattern: &TextPattern, path_pattern: &TextPattern, whole: &str, href: &str) -> (res:
    Option<String>)
    ensures
        opt_text(res) == chikuma_isbn_of(
            isbn_pattern.source_text(),
            path_pattern.source_text(),
            whole@,
            href@,
        ),
{
    match group_of(captures(isbn_pattern, whole), 0) {
        Some(m) => Some(normalize_isbn(m.as_str())),
        None => group_of(captures(path_pattern, href), 1),
    }
}

/// The book of a Chikuma row in series `label`.
pub open spec fn chikuma_book_of(
    url: Seq<char>,
    whole: Seq<char>,
    title: Option<Seq<char>>,
    subtitle: Option<Seq<char>>,
    author: Seq<char>,
    isbn: Option<Seq<char>>,
    date: Option<Date>,
    label: Seq<char>,
) -> BookView {
    BookView {
        id: "chikuma:"@ + match isbn {
            Some(i) => i,
            None => url,
        },
        label: label,
        title: join(trimmed_nonempty(seq![text_or_empty(title), text_or_empty(subtitle)]), "　"@),
        author: author,
        publication_date: date,
        isbn: isbn,
        url: url,
    }
}

/// Law: a Chikuma book carries the series, address, ISBN and date it is made
/// with, and its id is the ISBN where there is one, else the address.
pub proof fn lemma_chikuma_book_details(
    url: Seq<char>,
    whole: Seq<char>,
    title: Option<Seq<char>>,
    subtitle: Option<Seq<char>>,
    author: Seq<char>,
    isbn: Option<Seq<char>>,
    date: Option<Date>,
    label: Seq<char>,
)
    ensures
        chikuma_book_of(url, whole, title, subtitle, author, isbn, date, label).label == label,
        chikuma_book_of(url, whole, title, subtitle, author, isbn, date, label).url == url,
        chikuma_book_of(url, whole, title, subtitle, author, isbn, date, label).isbn == isbn,
        chikuma_book_of(url, whole, title, subtitle, author, isbn, date, label).publication_date == date,
        isbn matches Some(i) ==> i.is_suffix_of(
            chikuma_book_of(url, whole, title, subtitle, author, isbn, date, label).id,
        ),
        isbn is None ==> url.is_suffix_of(
            chikuma_book_of(url, whole, title, subtitle, author, isbn, date, label).id,
        ),
{
    let id = chikuma_book_of(url, whole, title, subtitle, author, isbn, date, label).id;
    match isbn {
        Some(i) => {
            assert(id.subrange(id.len() - i.len(), id.len() as int) =~= i);
        },
        None => {
            assert(id.subrange(id.len() - url.len(), id.len() as int) =~= url);
        },
    }
}

/// The book of one Chikuma row: its link `href` on the page at `list_url`,
/// the row's whole text, its title, subtitle and author texts.
pub fn chikuma_book(
    list_url: &str,
    href: &str,
    whole: &str,
    title: Option<String>,
    subtitle: Option<String>,
    author_texts: &Vec<String>,
    label: &str,
    date_pattern: &TextPattern,
    isbn_pattern: &TextPattern,
    path_pattern: &TextPattern,
) -> (res: Result<Book, FeedError>)
    ensures
        match res {
            Ok(b) => joined_url(list_url@, href@) == Some(b@.url) && b@ == chikuma_book_of(
                b@.url,
                whole@,
                opt_text(title),
                opt_text(subtitle),
                normalized(join(nonblank_texts(crate::html::string_views(author_texts@)), "・"@)),
                chikuma_isbn_of(isbn_pattern.source_text(), path_pattern.source_text(), whole@, href@),
                date_found(date_pattern.source_text(), whole@),
                label@,
            ),
            Err(FeedError::InvalidUrl(b, h)) => joined_url(list_url@, href@) is None && b@
                == list_url@ && h@ == href@,
            Err(_) => false,
        },
        res matches Ok(b) ==> b@.label == label@,
{
    let url = absolutize(list_url, href)?;
    let author = chikuma_author(author_texts);
    let publication_date = date_in_text(date_pattern, whole);
    let isbn = chikuma_isbn(isbn_pattern, path_pattern, whole, href);
    let id = match &isbn {
        Some(i) => prefixed("chikuma:", i.as_str()),
        None => prefixed("chikuma:", url.as_str()),
    };
    let t = unwrap_text(title);
    let st = unwrap_text(subtitle);
    let parts = [t.as_str(), st.as_str()];
    assert(crate::text::str_views(parts@) =~= seq![t@, st@]);
    Ok(Book {
        id,
        label: label.to_owned(),
        title: join_nonempty(parts, "　"),
        author,
        publication_date,
        isbn,
        url,
    })
}

/// The Chikuma product links, one per listed title.
pub const CHIKUMA_ROW_SELECTOR: &'static str = r#"a[href^="/product/978"]"#;

/// The book of the Chikuma row at `row` of `page` in series `label`, whose
/// link `href` resolves to `url`.
pub open spec fn chikuma_book_at(
    page: Seq<char>,
    row: Seq<PathStep>,
    href: Seq<char>,
    url: Seq<char>,
    label: Seq<char>,
) -> BookView {
    let whole = text_at(page, row);
    chikuma_book_of(
        url,
        whole,
        first_text_at(page, row, "h2"@),
        first_text_at(page, row, "h4"@),
        normalized(join(nonblank_texts(texts_at(page, row, "h3"@)), "・"@)),
        chikuma_isbn_of(CHIKUMA_ISBN_PATTERN@, CHIKUMA_PATH_ISBN_PATTERN@, whole, href),
        date_found(CHIKUMA_DATE_PATTERN@, whole),
        label,
    )
}

/// The books of the first `n` Chikuma rows of `page` listed at `list_url`
/// in series `label`: a row without a link is skipped; the first link that
/// does not resolve is the error.
pub open spec fn chikuma_rows(page: Seq<char>, list_url: Seq<char>, label: Seq<char>, n: nat) -> Result<
    Seq<BookView>,
    Seq<char>,
>
    decreases n,
{
    if n == 0 {
        Ok(Seq::empty())
    } else {
        match chikuma_rows(page, list_url, label, (n - 1) as nat) {
            Err(h) => Err(h),
            Ok(bs) => {
                let row = row_path(CHIKUMA_ROW_SELECTOR@, n - 1);
                match attribute_value(page, row, "href"@) {
                    None => Ok(bs),
                    Some(h) => match joined_url(list_url, h) {
                        Some(u) => Ok(bs.push(chikuma_book_at(page, row, h, u, label))),
                        None => Err(h),
                    },
                }
            },
        }
    }
}

/// The books of all Chikuma rows of `page` listed at `list_url` in series `label`.
pub open spec fn chikuma_books_of(page: Seq<char>, list_url: Seq<char>, label: Seq<char>) -> Result<
    Seq<BookView>,
    Seq<char>,
> {
    chikuma_rows(page, list_url, label, match_count(page, Seq::empty(), CHIKUMA_ROW_SELECTOR@))
}

proof fn lemma_chikuma_rows_fail(page: Seq<char>, list_url: Seq<char>, label: Seq<char>, n: nat, m: nat)
    requires
        n <= m,
        chikuma_rows(page, list_url, label, n) is Err,
    ensures
        chikuma_rows(page, list_url, label, m) == chikuma_rows(page, list_url, label, n),
    decreases m,
{
    if n < m {
        lemma_chikuma_rows_fail(page, list_url, label, n, (m - 1) as nat);
    }
}

proof fn lemma_chikuma_rows_label(page: Seq<char>, list_url: Seq<char>, label: Seq<char>, n: nat)
    ensures
        chikuma_rows(page, list_url, label, n) matches Ok(bs) ==> forall|i: int|
            0 <= i < bs.len() ==> (#[trigger] bs[i]).label == label,
    decreases n,
{
    if n > 0 {
        lemma_chikuma_rows_label(page, list_url, label, (n - 1) as nat);
    }
}

/// Law: every book read from a Chikuma list page carries the series it was
/// read for.
pub proof fn lemma_chikuma_books_carry_label(page: Seq<char>, list_url: Seq<char>, label: Seq<char>)
    ensures
        chikuma_books_of(page, list_url, label) matches Ok(bs) ==> forall|i: int|
            0 <= i < bs.len() ==> (#[trigger] bs[i]).label == label,
{
    lemma_chikuma_rows_label(page, list_url, label, match_count(page, Seq::empty(), CHIKUMA_ROW_SELECTOR@));
}

/// The selectors that read a Chikuma list page.
pub open spec fn chikuma_selector(t: Seq<char>) -> bool {
    ||| t == CHIKUMA_ROW_SELECTOR@
    ||| t == "h2"@
    ||| t == "h4"@
    ||| t == "h3"@
}

/// The patterns that read a Chikuma list row.
pub open spec fn chikuma_pattern(t: Seq<char>) -> bool {
    ||| t == CHIKUMA_DATE_PATTERN@
    ||| t == CHIKUMA_ISBN_PATTERN@
    ||| t == CHIKUMA_PATH_ISBN_PATTERN@
}

/// The books of a Chikuma list page of series `label` (the rows that carry a
/// link), in page order.
pub fn chikuma_books(html: &str, list_url: &str, label: &str) -> (res: Result<Vec<Book>, FeedError>)
    ensures
        match res {
            Ok(bs) => chikuma_books_of(html@, list_url@, label@) == Ok::<Seq<BookView>, Seq<char>>(book_views(bs@)),
            Err(e) => is_reader_error(e, |t: Seq<char>| chikuma_selector(t), |t: Seq<char>|
                chikuma_pattern(t), Some(list_url@)) && (e matches FeedError::InvalidUrl(_, h)
                ==> chikuma_books_of(html@, list_url@, label@) == Err::<Seq<BookView>, Seq<char>>(h@)),
        },
        res matches Ok(bs) ==> forall|k: int| 0 <= k < bs.len() ==> (#[trigger] bs@[k])@.label == label@,
{
    let page = Page::parse(html);
    let row_sel = sel(CHIKUMA_ROW_SELECTOR)?;
    let title_sel = sel("h2")?;
    let subtitle_sel = sel("h4")?;
    let author_sel = sel("h3")?;
    let date_pattern = TextPattern::new(CHIKUMA_DATE_PATTERN)?;
    let isbn_pattern = TextPattern::new(CHIKUMA_ISBN_PATTERN)?;
    let path_pattern = TextPattern::new(CHIKUMA_PATH_ISBN_PATTERN)?;
    let rows = page.select(&row_sel);
    let ghost pg = html@;
    let ghost count = match_count(pg, Seq::empty(), CHIKUMA_ROW_SELECTOR@);
    let mut out: Vec<Book> = Vec::new();
    assert(book_views(out@) =~= Seq::<BookView>::empty());
    let mut i: usize = 0;
    while i < rows.len()
        invariant
            i <= rows.len() == count,
            pg == html@,
            count == match_count(pg, Seq::empty(), CHIKUMA_ROW_SELECTOR@),
            forall|k: int|
                0 <= k < rows.len() ==> (#[trigger] rows@[k]).page_text() == pg && rows@[k].path_of()
                    == row_path(CHIKUMA_ROW_SELECTOR@, k),
            title_sel.source_text() == "h2"@,
            subtitle_sel.source_text() == "h4"@,
            author_sel.source_text() == "h3"@,
            date_pattern.source_text() == CHIKUMA_DATE_PATTERN@,
            isbn_pattern.source_text() == CHIKUMA_ISBN_PATTERN@,
            path_pattern.source_text() == CHIKUMA_PATH_ISBN_PATTERN@,
            chikuma_rows(pg, list_url@, label@, i as nat) == Ok::<Seq<BookView>, Seq<char>>(
                book_views(out@),
            ),
        decreases rows.len() - i,
    {
        let row = &rows[i];
        let ghost rp = row_path(CHIKUMA_ROW_SELECTOR@, i as int);
        assert(row.path_of() == rp && row.page_text() == pg);
        let ghost before = book_views(out@);
        match attr(row, "href") {
            Some(href) => {
                let whole = element_text(row);
                let title = text_first(row, &title_sel);
                let subtitle = text_first(row, &subtitle_sel);
                let authors = row.select(&author_sel);
                let author_texts = texts_of(&authors);
                assert(string_views(author_texts@) =~= texts_at(pg, rp, "h3"@));
                let b = match chikuma_book(
                    list_url,
                    href.as_str(),
                    whole.as_str(),
                    title,
                    subtitle,
                    &author_texts,
                    label,
                    &date_pattern,
                    &isbn_pattern,
                    &path_pattern,
                ) {
                    Ok(b) => b,
                    Err(err) => {
                        proof {
                            lemma_chikuma_rows_fail(pg, list_url@, label@, (i + 1) as nat, count);
                        }
                        return Err(err);
                    },
                };
                assert(b@ == chikuma_book_at(pg, rp, href@, b@.url, label@));
                out.push(b);
                assert(book_views(out@) =~= before.push(b@));
            },
            None => {},
        }
        i = i + 1;
    }
    proof {
        lemma_chikuma_books_carry_label(html@, list_url@, label@);
        assert forall|k: int| 0 <= k < out.len() implies (#[trigger] out@[k])@.label == label@ by {
            assert(book_views(out@)[k] == out@[k]@);
        }
    }
    Ok(out)
}

// ---------------------------------------------------------------------------
// NHK: the list page of the publisher's paperbacks, of which one series is kept.

/// The list page of the NHK publisher's paperbacks.
pub const NHK_LIST_URL: &'static str = "https://www.nhk-book.co.jp/list/midcategory-203.html";

/// The product code in an NHK detail link.
pub const NHK_CODE_PATTERN: &'static str = r"/detail/(\d+)\.html";

/// The book of one NHK row, or `None` where the row is of another series or
/// carries no link: series line (white space folded) must begin with
/// `ＮＨＫ出版新書`.
pub open spec fn nhk_book_of(
    series: Option<Seq<char>>,
    href: Option<Seq<char>>,
    url: Seq<char>,
    title: Option<Seq<char>>,
    author: Option<Seq<char>>,
    date_text: Option<Seq<char>>,
    date_pattern: Seq<char>,
    code_pattern: Seq<char>,
) -> Option<BookView> {
    if !"ＮＨＫ出版新書"@.is_prefix_of(normalized(text_or_empty(series))) {
        None
    } else {
        match href {
            None => None,
            Some(h) => Some(
                BookView {
                    id: "nhk:"@ + match regex_captures(code_pattern, h) {
                        Some(g) => match group_text(g, 1) {
                            Some(code) => code,
                            None => h,
                        },
                        None => h,
                    },
                    label: "NHK出版新書"@,
                    title: normalized(text_or_empty(title)),
                    author: cleaned_author(text_or_empty(author)),
                    publication_date: date_found(date_pattern, text_or_empty(date_text)),
                    isbn: None,
                    url: url,
                },
            ),
        }
    }
}

/// The book of one NHK row: its series, link, title, author and date texts.
pub fn nhk_book(
    series: Option<String>,
    href: Option<String>,
    title: Option<String>,
    author: Option<String>,
    date_text: Option<String>,
    date_pattern: &TextPattern,
    code_pattern: &TextPattern,
) -> (res: Result<Option<Book>, FeedError>)
    ensures
        match res {
            Ok(Some(b)) => href is Some && joined_url(NHK_LIST_URL@, href.unwrap()@) == Some(b@.url)
                && nhk_book_of(opt_text(series), opt_text(href), b@.url, opt_text(title), opt_text(author),
                opt_text(date_text), date_pattern.source_text(), code_pattern.source_text()) == Some(b@),
            Ok(None) => nhk_book_of(opt_text(series), opt_text(href), Seq::empty(), opt_text(title),
                opt_text(author), opt_text(date_text), date_pattern.source_text(),
                code_pattern.source_text()) is None,
            Err(FeedError::InvalidUrl(b, h)) => href is Some && joined_url(NHK_LIST_URL@, href.unwrap()@)
                is None && b@ == NHK_LIST_URL@ && h@ == href.unwrap()@ && "ＮＨＫ出版新書"@.is_prefix_of(
                normalized(text_or_empty(opt_text(series)))),
            Err(_) => false,
        },
{
    let series_text = normalize_space(unwrap_text(series).as_str());
    if !has_prefix(&chars_of(series_text.as_str()), &chars_of("ＮＨＫ出版新書")) {
        return Ok(None);
    }
    let h = match href {
        Some(h) => h,
        None => return Ok(None),
    };
    let url = absolutize(NHK_LIST_URL, h.as_str())?;
    let code = match group_of(captures(code_pattern, h.as_str()), 1) {
        Some(c) => c,
        None => h.clone(),
    };
    let publication_date = date_in_text(date_pattern, unwrap_text(date_text).as_str());
    Ok(Some(Book {
        id: prefixed("nhk:", code.as_str()),
        label: "NHK出版新書".to_owned(),
        title: normalize_space(unwrap_text(title).as_str()),
        author: clean_author_prefix(unwrap_text(author).as_str()),
        publication_date,
        isbn: None,
        url,
    }))
}

/// The NHK list rows.
pub const NHK_ROW_SELECTOR: &'static str = ".itmlist-one";

/// An NHK row's series line.
pub const NHK_SERIES_SELECTOR: &'static str = ".itmlist-one-series";

/// An NHK row's title.
pub const NHK_TITLE_SELECTOR: &'static str = ".itmlist-one-name";

/// An NHK row's author line.
pub const NHK_AUTHOR_SELECTOR: &'static str = ".itmlist-one-persons";

/// An NHK row's date line.
pub const NHK_DATE_SELECTOR: &'static str = ".itmlist-one-about-cap";

/// An NHK row's link to the title's page.
pub const NHK_LINK_SELECTOR: &'static str = r#".itmlist-one-blockDetail > a[href^="/detail/"]"#;

/// The series line of the NHK row at `row` of `page` names the kept series.
pub open spec fn nhk_row_kept(page: Seq<char>, row: Seq<PathStep>) -> bool {
    "ＮＨＫ出版新書"@.is_prefix_of(normalized(text_or_empty(first_text_at(page, row, NHK_SERIES_SELECTOR@))))
}

/// The book of the kept NHK row at `row` of `page` whose link `href`
/// resolves to `url`.
pub open spec fn nhk_book_at(page: Seq<char>, row: Seq<PathStep>, href: Seq<char>, url: Seq<char>) -> BookView {
    nhk_book_of(
        first_text_at(page, row, NHK_SERIES_SELECTOR@),
        Some(href),
        url,
        first_text_at(page, row, NHK_TITLE_SELECTOR@),
        first_text_at(page, row, NHK_AUTHOR_SELECTOR@),
        first_text_at(page, row, NHK_DATE_SELECTOR@),
        JAPANESE_DATE_PATTERN@,
        NHK_CODE_PATTERN@,
    ).unwrap()
}

/// The books of the first `n` NHK rows of `page`: rows of other series and
/// rows without a link are skipped; the first link that does not resolve is
/// the error.
pub open spec fn nhk_rows(page: Seq<char>, n: nat) -> Result<Seq<BookView>, Seq<char>>
    decreases n,
{
    if n == 0 {
        Ok(Seq::empty())
    } else {
        match nhk_rows(page, (n - 1) as nat) {
            Err(h) => Err(h),
            Ok(bs) => {
                let row = row_path(NHK_ROW_SELECTOR@, n - 1);
                if !nhk_row_kept(page, row) {
                    Ok(bs)
                } else {
                    match first_attribute_at(page, row, NHK_LINK_SELECTOR@, "href"@) {
                        None => Ok(bs),
                        Some(h) => match joined_url(NHK_LIST_URL@, h) {
                            Some(u) => Ok(bs.push(nhk_book_at(page, row, h, u))),
                            None => Err(h),
                        },
                    }
                }
            },
        }
    }
}

/// The books of all NHK rows of `page`.
pub open spec fn nhk_books_of(page: Seq<char>) -> Result<Seq<BookView>, Seq<char>> {
    nhk_rows(page, match_count(page, Seq::empty(), NHK_ROW_SELECTOR@))
}

proof fn lemma_nhk_rows_fail(page: Seq<char>, n: nat, m: nat)
    requires
        n <= m,
        nhk_rows(page, n) is Err,
    ensures
        nhk_rows(page, m) == nhk_rows(page, n),
    decreases m,
{
    if n < m {
        lemma_nhk_rows_fail(page, n, (m - 1) as nat);
    }
}

/// The selectors that read the NHK list page.
pub open spec fn nhk_selector(t: Seq<char>) -> bool {
    ||| t == NHK_ROW_SELECTOR@
    ||| t == NHK_SERIES_SELECTOR@
    ||| t == NHK_TITLE_SELECTOR@
    ||| t == NHK_AUTHOR_SELECTOR@
    ||| t == NHK_DATE_SELECTOR@
    ||| t == NHK_LINK_SELECTOR@
}

/// The books of the NHK series on the NHK list page, in page order.
pub fn nhk_books(html: &str) -> (res: Result<Vec<Book>, FeedError>)
    ensures
        match res {
            Ok(bs) => nhk_books_of(html@) == Ok::<Seq<BookView>, Seq<char>>(book_views(bs@)),
            Err(e) => is_reader_error(e, |t: Seq<char>| nhk_selector(t), |t: Seq<char>|
                t == JAPANESE_DATE_PATTERN@ || t == NHK_CODE_PATTERN@, Some(NHK_LIST_URL@)) && (e matches FeedError::InvalidUrl(
                _,
                h,
            ) ==> nhk_books_of(html@) == Err::<Seq<BookView>, Seq<char>>(h@)),
        },
{
    let page = Page::parse(html);
    let row_sel = sel(NHK_ROW_SELECTOR)?;
    let series_sel = sel(NHK_SERIES_SELECTOR)?;
    let title_sel = sel(NHK_TITLE_SELECTOR)?;
    let author_sel = sel(NHK_AUTHOR_SELECTOR)?;
    let date_sel = sel(NHK_DATE_SELECTOR)?;
    let link_sel = sel(NHK_LINK_SELECTOR)?;
    let date_pattern = TextPattern::new(JAPANESE_DATE_PATTERN)?;
    let code_pattern = TextPattern::new(NHK_CODE_PATTERN)?;
    let rows = page.select(&row_sel);
    let ghost pg = html@;
    let ghost count = match_count(pg, Seq::empty(), NHK_ROW_SELECTOR@);
    let mut out: Vec<Book> = Vec::new();
    assert(book_views(out@) =~= Seq::<BookView>::empty());
    let mut i: usize = 0;
    while i < rows.len()
        invariant
            i <= rows.len() == count,
            pg == html@,
            count == match_count(pg, Seq::empty(), NHK_ROW_SELECTOR@),
            forall|k: int|
                0 <= k < rows.len() ==> (#[trigger] rows@[k]).page_text() == pg && rows@[k].path_of()
                    == row_path(NHK_ROW_SELECTOR@, k),
            series_sel.source_text() == NHK_SERIES_SELECTOR@,
            title_sel.source_text() == NHK_TITLE_SELECTOR@,
            author_sel.source_text() == NHK_AUTHOR_SELECTOR@,
            date_sel.source_text() == NHK_DATE_SELECTOR@,
            link_sel.source_text() == NHK_LINK_SELECTOR@,
            date_pattern.source_text() == JAPANESE_DATE_PATTERN@,
            code_pattern.source_text() == NHK_CODE_PATTERN@,
            nhk_rows(pg, i as nat) == Ok::<Seq<BookView>, Seq<char>>(book_views(out@)),
        decreases rows.len() - i,
    {
        let row = &rows[i];
        let ghost rp = row_path(NHK_ROW_SELECTOR@, i as int);
        assert(row.path_of() == rp && row.page_text() == pg);
        let ghost before = book_views(out@);
        let series = text_first(row, &series_sel);
        let links = row.select(&link_sel);
        let href = first_attribute(&links, "href");
        assert(opt_text(href) == first_attribute_at(pg, rp, NHK_LINK_SELECTOR@, "href"@));
        let title = text_first(row, &title_sel);
        let author = text_first(row, &author_sel);
        let date_text = text_first(row, &date_sel);
        let ghost hv = opt_text(href);
        match nhk_book(series, href, title, author, date_text, &date_pattern, &code_pattern) {
            Ok(Some(b)) => {
                assert(b@ == nhk_book_at(pg, rp, hv.unwrap(), b@.url));
                out.push(b);
                assert(book_views(out@) =~= before.push(b@));
            },
            Ok(None) => {},
            Err(err) => {
                proof {
                    lemma_nhk_rows_fail(pg, (i + 1) as nat, count);
                }
                return Err(err);
            },
        }
        i = i + 1;
    }
    Ok(out)
}

} // verus!
