use vstd::prelude::*;

use crate::book::{
    book_views, lemma_text_less_total, lemma_text_less_transitive, text_less, text_order, Book,
    BookView, State,
};
use crate::date::{day_text, format_day, Date};
use crate::text::{append_chars, append_str, push_char};

verus! {

/// `a` is an earlier publication date than `b`; a missing date comes before every date.
pub open spec fn date_less(a: Option<Date>, b: Option<Date>) -> bool {
    match (a, b) {
        (None, Some(_)) => true,
        (Some(x), Some(y)) => x.year_of() < y.year_of() || (x.year_of() == y.year_of() && (x.month_of()
            < y.month_of() || (x.month_of() == y.month_of() && x.day_of() < y.day_of()))),
        _ => false,
    }
}

/// The feed orders books by publication date, then series name, then title.
/// `a` is below `b` in that order.
pub open spec fn key_less(a: BookView, b: BookView) -> bool {
    ||| date_less(a.publication_date, b.publication_date)
    ||| (a.publication_date == b.publication_date && text_less(a.label, b.label))
    ||| (a.publication_date == b.publication_date && a.label == b.label && text_less(a.title, b.title))
}

/// `a` and `b` share date, series name and title.
pub open spec fn same_key(a: BookView, b: BookView) -> bool {
    a.publication_date == b.publication_date && a.label == b.label && a.title == b.title
}

proof fn lemma_date_less_order(a: Option<Date>, b: Option<Date>, c: Option<Date>)
    ensures
        !date_less(a, a),
        date_less(a, b) || date_less(b, a) || a == b,
        date_less(a, b) && date_less(b, c) ==> date_less(a, c),
{
    match (a, b) {
        (Some(x), Some(y)) => {
            x.lemma_date_parts(y);
        },
        _ => {},
    }
}

/// Law: the feed order of keys is a strict weak order: never reflexive,
/// transitive, and any two books are ordered one way or share their key.
pub proof fn lemma_key_order(a: BookView, b: BookView, c: BookView)
    ensures
        same_key(a, b) ==> !key_less(a, b),
        key_less(a, b) || key_less(b, a) || same_key(a, b),
        key_less(a, b) && key_less(b, c) ==> key_less(a, c),
        key_less(a, c) ==> key_less(a, b) || key_less(b, c),
{
    lemma_date_less_order(a.publication_date, b.publication_date, c.publication_date);
    lemma_date_less_order(b.publication_date, a.publication_date, c.publication_date);
    lemma_date_less_order(a.publication_date, c.publication_date, b.publication_date);
    lemma_date_less_order(b.publication_date, c.publication_date, a.publication_date);
    lemma_text_less_total(a.label, b.label);
    lemma_text_less_total(a.title, b.title);
    lemma_text_less_total(a.label, c.label);
    lemma_text_less_total(a.title, c.title);
    lemma_text_less_total(b.label, c.label);
    lemma_text_less_total(b.title, c.title);
    if text_less(a.label, b.label) && text_less(b.label, c.label) {
        lemma_text_less_transitive(a.label, b.label, c.label);
    }
    if text_less(a.title, b.title) && text_less(b.title, c.title) {
        lemma_text_less_transitive(a.title, b.title, c.title);
    }
    if text_less(b.label, a.label) && text_less(a.label, c.label) {
        lemma_text_less_transitive(b.label, a.label, c.label);
    }
    if text_less(b.title, a.title) && text_less(a.title, c.title) {
        lemma_text_less_transitive(b.title, a.title, c.title);
    }
    if text_less(a.label, c.label) && text_less(c.label, b.label) {
        lemma_text_less_transitive(a.label, c.label, b.label);
    }
    if text_less(a.title, c.title) && text_less(c.title, b.title) {
        lemma_text_less_transitive(a.title, c.title, b.title);
    }
}

/// `r` is `s` arranged by `p` (`r[i]` is `s[p[i]]`, each position of `s` used
/// once) in descending feed order, books of equal key keeping their order in `s`.
pub open spec fn is_feed_arrangement(s: Seq<BookView>, r: Seq<BookView>, p: Seq<int>) -> bool {
    &&& r.len() == s.len()
    &&& p.len() == r.len()
    &&& forall|i: int| 0 <= i < p.len() ==> 0 <= #[trigger] p[i] < s.len() && r[i] == s[p[i]]
    &&& forall|i: int, j: int| 0 <= i < j < p.len() ==> #[trigger] p[i] != #[trigger] p[j]
    &&& forall|i: int, j: int| 0 <= i < j < r.len() ==> !key_less(#[trigger] r[i], #[trigger] r[j])
    &&& forall|i: int, j: int|
        0 <= i < j < r.len() && same_key(#[trigger] r[i], #[trigger] r[j]) ==> p[i] < p[j]
}

/// `r` is `s` stably sorted newest first (by date, then series, then title, all descending).
pub open spec fn is_feed_order(s: Seq<BookView>, r: Seq<BookView>) -> bool {
    exists|p: Seq<int>| is_feed_arrangement(s, r, p)
}

/// Law: the feed compares publication dates as the calendar does: by year,
/// then (within a year) by month whatever the days, then by day; a book
/// without a date counts as older than every dated one.
pub proof fn lemma_date_order_is_chronological(x: Date, y: Date)
    ensures
        date_less(Some(x), Some(y)) <==> (x.year_of() < y.year_of() || (x.year_of() == y.year_of()
            && x.month_of() < y.month_of()) || (x.year_of() == y.year_of() && x.month_of()
            == y.month_of() && x.day_of() < y.day_of())),
        date_less(None, Some(x)),
        !date_less(Some(x), None),
        !date_less(None::<Date>, None),
{
}

/// Law: in the feed a book never stands before one published later: of two
/// dated books the earlier one in the feed has the later or same year, then
/// (in one year) the later or same month, then the later or same day; and an
/// undated book is followed by undated books only.
pub proof fn lemma_feed_newest_first(s: Seq<BookView>, r: Seq<BookView>, i: int, j: int)
    requires
        is_feed_order(s, r),
        0 <= i < j < r.len(),
    ensures
        r[i].publication_date is None ==> r[j].publication_date is None,
        r[i].publication_date is Some && r[j].publication_date is Some ==> ({
            let x = r[i].publication_date->Some_0;
            let y = r[j].publication_date->Some_0;
            &&& y.year_of() <= x.year_of()
            &&& y.year_of() == x.year_of() ==> y.month_of() <= x.month_of()
            &&& y.year_of() == x.year_of() && y.month_of() == x.month_of() ==> y.day_of()
                <= x.day_of()
        }),
{
    let p = choose|p: Seq<int>| is_feed_arrangement(s, r, p);
    assert(!key_less(r[i], r[j]));
}

/// Whether book `a` is below book `b` in the feed's key order.
pub fn key_below(a: &Book, b: &Book) -> (res: bool)
    ensures
        res == key_less(a@, b@),
{
    let d = match (&a.publication_date, &b.publication_date) {
        (None, None) => 0i8,
        (None, Some(_)) => -1i8,
        (Some(_), None) => 1i8,
        (Some(x), Some(y)) => {
            proof {
                x.lemma_date_parts(*y);
            }
            if x.year() != y.year() {
                if x.year() < y.year() { -1i8 } else { 1i8 }
            } else if x.month() != y.month() {
                if x.month() < y.month() { -1i8 } else { 1i8 }
            } else if x.day() != y.day() {
                if x.day() < y.day() { -1i8 } else { 1i8 }
            } else {
                0i8
            }
        },
    };
    proof {
        lemma_date_less_order(a@.publication_date, b@.publication_date, a@.publication_date);
    }
    if d != 0 {
        return d < 0;
    }
    let l = text_order(a.label.as_str(), b.label.as_str());
    if l != 0 {
        return l < 0;
    }
    text_order(a.title.as_str(), b.title.as_str()) < 0
}

/// The books sorted stably for the feed, newest first.
pub fn sort_for_feed(books: &Vec<Book>) -> (res: Vec<Book>)
    ensures
        is_feed_order(book_views(books@), book_views(res@)),
{
    let ghost s = book_views(books@);
    let mut res: Vec<Book> = Vec::new();
    let ghost mut p: Seq<int> = Seq::empty();
    let mut k: usize = 0;
    while k < books.len()
        invariant
            k <= books.len(),
            s == book_views(books@),
            p.len() == res.len() == k,
            forall|i: int| 0 <= i < p.len() ==> 0 <= #[trigger] p[i] < k && res@[i]@ == s[p[i]],
            forall|i: int, j: int| 0 <= i < j < p.len() ==> #[trigger] p[i] != #[trigger] p[j],
            forall|i: int, j: int|
                0 <= i < j < res.len() ==> !key_less(#[trigger] res@[i]@, #[trigger] res@[j]@),
            forall|i: int, j: int|
                0 <= i < j < res.len() && same_key(#[trigger] res@[i]@, #[trigger] res@[j]@) ==> p[i]
                    < p[j],
        decreases books.len() - k,
    {
        let x = books[k].clone();
        let mut j: usize = res.len();
        while j > 0 && key_below(&res[j - 1], &x)
            invariant
                j <= res.len(),
                forall|t: int| j <= t < res.len() ==> key_less(#[trigger] res@[t]@, x@),
            decreases j,
        {
            j = j - 1;
        }
        let ghost old_res = book_views(res@);
        let ghost xv = x@;
        proof {
            assert forall|i: int| 0 <= i < j implies !key_less(#[trigger] res@[i]@, xv) by {
                if i < j - 1 {
                    lemma_key_order(res@[i]@, res@[j - 1]@, xv);
                }
            }
            assert forall|t: int| j <= t < res.len() implies !key_less(xv, #[trigger] res@[t]@)
                && !same_key(res@[t]@, xv) by {
                assert(key_less(res@[t]@, xv));
                lemma_key_order(res@[t]@, xv, res@[t]@);
                lemma_key_order(res@[t]@, res@[t]@, res@[t]@);
            }
        }
        res.insert(j, x);
        proof {
            let np = p.insert(j as int, k as int);
            assert forall|i: int| 0 <= i < np.len() implies 0 <= #[trigger] np[i] < k + 1
                && res@[i]@ == s[np[i]] by {
                if i < j {
                    assert(np[i] == p[i]);
                } else if i > j {
                    assert(np[i] == p[i - 1]);
                }
            }
            assert forall|a: int, b: int| 0 <= a < b < np.len() implies #[trigger] np[a]
                != #[trigger] np[b] by {
                if a != j && b != j {
                    let a0 = if a < j { a } else { a - 1 };
                    let b0 = if b < j { b } else { b - 1 };
                    assert(np[a] == p[a0] && np[b] == p[b0]);
                } else if a == j {
                    assert(np[b] == p[b - 1]);
                } else {
                    assert(np[a] == p[a]);
                }
            }
            assert forall|a: int, b: int| 0 <= a < b < res.len() implies !key_less(
                #[trigger] res@[a]@,
                #[trigger] res@[b]@,
            ) by {
                if a != j && b != j {
                    let a0 = if a < j { a } else { a - 1 };
                    let b0 = if b < j { b } else { b - 1 };
                    assert(res@[a]@ == old_res[a0] && res@[b]@ == old_res[b0]);
                } else if a == j {
                    assert(res@[b]@ == old_res[b - 1]);
                } else {
                    assert(res@[a]@ == old_res[a]);
                }
            }
            assert forall|a: int, b: int|
                0 <= a < b < res.len() && same_key(#[trigger] res@[a]@, #[trigger] res@[b]@) implies np[a]
                < np[b] by {
                if a != j && b != j {
                    let a0 = if a < j { a } else { a - 1 };
                    let b0 = if b < j { b } else { b - 1 };
                    assert(res@[a]@ == old_res[a0] && res@[b]@ == old_res[b0]);
                    assert(np[a] == p[a0] && np[b] == p[b0]);
                } else if a == j {
                    assert(res@[b]@ == old_res[b - 1]);
                } else {
                    assert(np[a] == p[a]);
                }
            }
            p = np;
        }
        k = k + 1;
    }
    proof {
        assert(is_feed_arrangement(s, book_views(res@), p));
    }
    res
}

/// The most items the feed carries.
pub const MAX_FEED_ITEMS: usize = 100;

/// One entry of the feed.
#[derive(Debug)]
pub struct FeedItem {
    pub title: String,
    pub link: String,
    pub guid: String,
    pub permalink: bool,
    pub pub_date: Option<String>,
    pub description: String,
}

/// What a [`FeedItem`] holds, as character sequences.
pub struct FeedItemView {
    pub title: Seq<char>,
    pub link: Seq<char>,
    pub guid: Seq<char>,
    pub permalink: bool,
    pub pub_date: Option<Seq<char>>,
    pub description: Seq<char>,
}

impl View for FeedItem {
    type V = FeedItemView;

    open spec fn view(&self) -> FeedItemView {
        FeedItemView {
            title: self.title@,
            link: self.link@,
            guid: self.guid@,
            permalink: self.permalink,
            pub_date: match self.pub_date {
                Some(t) => Some(t@),
                None => None,
            },
            description: self.description@,
        }
    }
}

/// The views of `items`, in order.
pub open spec fn item_views(items: Seq<FeedItem>) -> Seq<FeedItemView> {
    items.map_values(|i: FeedItem| i@)
}

/// The time of day and zone every publication date is given at.
pub open spec fn day_start_suffix() -> Seq<char> {
    seq![' ', '0', '0', ':', '0', '0', ':', '0', '0', ' ', '+', '0', '9', '0', '0']
}

/// The feed entry of a book: `[series] title`, its page, its id as a
/// guid that is not a permalink, its date at midnight Japan time, and
/// `series / author` with ` / ISBN number` where the number is known.
pub open spec fn item_of(b: BookView) -> FeedItemView {
    FeedItemView {
        title: seq!['['] + b.label + seq![']', ' '] + b.title,
        link: b.url,
        guid: b.id,
        permalink: false,
        pub_date: match b.publication_date {
            Some(d) => Some(day_text(d) + day_start_suffix()),
            None => None,
        },
        description: b.label + seq![' ', '/', ' '] + b.author + match b.isbn {
            Some(i) => seq![' ', '/', ' ', 'I', 'S', 'B', 'N', ' '] + i,
            None => Seq::empty(),
        },
    }
}

/// The feed entry of a book.
pub fn feed_item(book: &Book) -> (res: FeedItem)
    ensures
        res@ == item_of(book@),
{
    let mut title = String::new();
    push_char(&mut title, '[');
    append_str(&mut title, book.label.as_str());
    append_chars(&mut title, &vec![']', ' ']);
    append_str(&mut title, book.title.as_str());
    let pub_date = match &book.publication_date {
        Some(d) => {
            let mut t = format_day(d);
            append_chars(
                &mut t,
                &vec![' ', '0', '0', ':', '0', '0', ':', '0', '0', ' ', '+', '0', '9', '0', '0'],
            );
            Some(t)
        },
        None => None,
    };
    let mut description = String::new();
    append_str(&mut description, book.label.as_str());
    append_chars(&mut description, &vec![' ', '/', ' ']);
    append_str(&mut description, book.author.as_str());
    match &book.isbn {
        Some(i) => {
            append_chars(&mut description, &vec![' ', '/', ' ', 'I', 'S', 'B', 'N', ' ']);
            append_str(&mut description, i.as_str());
        },
        None => {},
    }
    let res = FeedItem {
        title,
        link: book.url.clone(),
        guid: book.id.clone(),
        permalink: false,
        pub_date,
        description,
    };
    assert(res@.title =~= item_of(book@).title);
    assert(res@.description =~= item_of(book@).description);
    res
}

/// The number of entries a feed of `n` books carries.
pub open spec fn feed_len(n: nat) -> nat {
    if n < MAX_FEED_ITEMS {
        n
    } else {
        MAX_FEED_ITEMS as nat
    }
}

/// Law: the feed carries every book where there are at most a hundred, and
/// a hundred where there are more.
pub proof fn lemma_feed_len(n: nat)
    ensures
        feed_len(n) <= 100,
        feed_len(n) <= n,
        n <= 100 ==> feed_len(n) == n,
        n >= 100 ==> feed_len(n) == 100,
{
}

/// The entries of the feed: the books sorted stably newest first, at most
/// [`MAX_FEED_ITEMS`] of them.
pub fn feed_items(state: &State) -> (res: Vec<FeedItem>)
    ensures
        exists|r: Seq<BookView>|
            is_feed_order(state@, r) && item_views(res@) == r.take(feed_len(r.len()) as int).map_values(
                |b: BookView| item_of(b),
            ),
{
    let sorted = sort_for_feed(state.books());
    let n = if sorted.len() < MAX_FEED_ITEMS { sorted.len() } else { MAX_FEED_ITEMS };
    let ghost r = book_views(sorted@);
    let mut res: Vec<FeedItem> = Vec::new();
    let mut i: usize = 0;
    while i < n
        invariant
            i <= n <= sorted.len(),
            n == feed_len(r.len()),
            r == book_views(sorted@),
            item_views(res@) == r.take(i as int).map_values(|b: BookView| item_of(b)),
        decreases n - i,
    {
        let ghost prev = item_views(res@);
        let item = feed_item(&sorted[i]);
        res.push(item);
        assert(r[i as int] == sorted@[i as int]@);
        assert(item_views(res@) =~= prev.push(item_of(r[i as int])));
        assert(r.take(i + 1).map_values(|b: BookView| item_of(b)) =~= r.take(i as int).map_values(
            |b: BookView| item_of(b),
        ).push(item_of(r[i as int])));
        assert(item_views(res@) =~= r.take(i + 1).map_values(|b: BookView| item_of(b)));
        i = i + 1;
    }
    res
}

/// What the `rss` crate writes for a channel with the given title, link,
/// description and items (each item with a title, link, description, guid
/// with its permalink flag, and publication date).
pub uninterp spec fn rss_channel_xml(
    title: Seq<char>,
    link: Seq<char>,
    description: Seq<char>,
    items: Seq<FeedItemView>,
) -> Seq<char>;

/// `rss::Channel`'s `Display` (its XML) for a channel built of the given
/// title, link, description and items, every other field left at its default.
/// The text is named by [`rss_channel_xml`] on those arguments; nothing more
/// of the XML is stated.
#[verifier::external_body]
fn channel_xml(title: &str, link: &str, description: &str, items: &Vec<FeedItem>) -> (res: String)
    ensures
        res@ == rss_channel_xml(title@, link@, description@, item_views(items@)),
{
    let items = items.iter().map(|i| rss::Item {
        title: Some(i.title.clone()),
        link: Some(i.link.clone()),
        description: Some(i.description.clone()),
        guid: Some(rss::Guid { value: i.guid.clone(), permalink: i.permalink }),
        pub_date: i.pub_date.clone(),
        ..Default::default()
    }).collect();
    let channel = rss::Channel { title: title.to_string(), link: link.to_string(),
        description: description.to_string(), items, ..Default::default() };
    channel.to_string()
}

/// The title of the feed.
pub open spec fn feed_title() -> Seq<char> {
    seq!['新', '書', '・', '学', '術', '文', '庫', ' ', '新', '刊']
}

/// The series the feed gathers, as its description names them.
pub open spec fn feed_description() -> Seq<char> {
    seq![
        '岩', '波', '新', '書', '、', '岩', '波', 'ジ', 'ュ', 'ニ', 'ア', '新', '書', '、',
        '中', '公', '新', '書', '、', '講', '談', '社', '現', '代', '新', '書', '、',
        'ち', 'く', 'ま', '新', '書', '、', 'ブ', 'ル', 'ー', 'バ', 'ッ', 'ク', 'ス', '、',
        'N', 'H', 'K', '出', '版', '新', '書', '、', 'ち', 'く', 'ま', '学', '芸', '文', '庫',
    ]
}

/// The feed as RSS 2.0 XML: the fixed title and description, `feed_link` as
/// its link, and the entries of [`feed_items`].
pub fn render_feed(state: &State, feed_link: &str) -> (res: String)
    ensures
        exists|r: Seq<BookView>|
            is_feed_order(state@, r) && res@ == rss_channel_xml(
                feed_title(),
                feed_link@,
                feed_description(),
                r.take(feed_len(r.len()) as int).map_values(|b: BookView| item_of(b)),
            ),
{
    let items = feed_items(state);
    let title = crate::text::string_of(&vec!['新', '書', '・', '学', '術', '文', '庫', ' ', '新', '刊']);
    let description = crate::text::string_of(
        &vec![
            '岩', '波', '新', '書', '、', '岩', '波', 'ジ', 'ュ', 'ニ', 'ア', '新', '書', '、',
            '中', '公', '新', '書', '、', '講', '談', '社', '現', '代', '新', '書', '、',
            'ち', 'く', 'ま', '新', '書', '、', 'ブ', 'ル', 'ー', 'バ', 'ッ', 'ク', 'ス', '、',
            'N', 'H', 'K', '出', '版', '新', '書', '、', 'ち', 'く', 'ま', '学', '芸', '文', '庫',
        ],
    );
    channel_xml(title.as_str(), feed_link, description.as_str(), &items)
}

} // verus!
