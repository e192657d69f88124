use vstd::prelude::*;

use crate::date::Date;
use crate::text::chars_of;

verus! {

/// One title of one series, as the feed and the saved state know it.
#[derive(Debug)]
pub struct Book {
    pub id: String,
    pub label: String,
    pub title: String,
    pub author: String,
    pub publication_date: Option<Date>,
    pub isbn: Option<String>,
    pub url: String,
}

/// What a [`Book`] holds, as character sequences.
pub struct BookView {
    pub id: Seq<char>,
    pub label: Seq<char>,
    pub title: Seq<char>,
    pub author: Seq<char>,
    pub publication_date: Option<Date>,
    pub isbn: Option<Seq<char>>,
    pub url: Seq<char>,
}

/// The characters of an optional text.
pub open spec fn opt_text(t: Option<String>) -> Option<Seq<char>> {
    match t {
        Some(s) => Some(s@),
        None => None,
    }
}

impl View for Book {
    type V = BookView;

    open spec fn view(&self) -> BookView {
        BookView {
            id: self.id@,
            label: self.label@,
            title: self.title@,
            author: self.author@,
            publication_date: self.publication_date,
            isbn: opt_text(self.isbn),
            url: self.url@,
        }
    }
}

/// A copy of an optional text.
pub fn copy_opt_text(t: &Option<String>) -> (res: Option<String>)
    ensures
        opt_text(res) == opt_text(*t),
{
    match t {
        Some(s) => Some(s.clone()),
        None => None,
    }
}

impl Clone for Book {
    fn clone(&self) -> (res: Self)
        ensures
            res@ == self@,
    {
        Book {
            id: self.id.clone(),
            label: self.label.clone(),
            title: self.title.clone(),
            author: self.author.clone(),
            publication_date: self.publication_date,
            isbn: copy_opt_text(&self.isbn),
            url: self.url.clone(),
        }
    }
}

/// `a` comes before `b` in the order of strings: by code point, character by
/// character, a proper prefix first. On UTF-8 text this is the byte order
/// that `String`'s `Ord` uses.
pub open spec fn text_less(a: Seq<char>, b: Seq<char>) -> bool
    decreases a.len(),
{
    if a.len() == 0 {
        b.len() > 0
    } else if b.len() == 0 {
        false
    } else if a[0] != b[0] {
        a[0] < b[0]
    } else {
        text_less(a.drop_first(), b.drop_first())
    }
}

/// Law: the order of strings is a strict total order.
pub proof fn lemma_text_less_total(a: Seq<char>, b: Seq<char>)
    ensures
        !text_less(a, a),
        text_less(a, b) ==> !text_less(b, a),
        a != b ==> text_less(a, b) || text_less(b, a),
    decreases a.len(),
{
    if a.len() > 0 && b.len() > 0 {
        lemma_text_less_total(a.drop_first(), b.drop_first());
        lemma_text_less_total(a.drop_first(), a.drop_first());
        if a[0] == b[0] && a != b {
            assert(a =~= seq![a[0]] + a.drop_first());
            assert(b =~= seq![b[0]] + b.drop_first());
        }
    } else if a.len() > 0 {
        lemma_text_less_total(a.drop_first(), a.drop_first());
    } else if b.len() == 0 {
        assert(a =~= b);
    }
}

/// Law: the order of strings is transitive.
pub proof fn lemma_text_less_transitive(a: Seq<char>, b: Seq<char>, c: Seq<char>)
    requires
        text_less(a, b),
        text_less(b, c),
    ensures
        text_less(a, c),
    decreases a.len(),
{
    if a.len() > 0 && a[0] == b[0] && b[0] == c[0] {
        lemma_text_less_transitive(a.drop_first(), b.drop_first(), c.drop_first());
    }
}

/// How two strings compare: below zero when `a` comes first, zero when they
/// are equal, above zero when `b` comes first.
pub fn text_order(a: &str, b: &str) -> (res: i8)
    ensures
        res < 0 <==> text_less(a@, b@),
        res == 0 <==> a@ == b@,
        res > 0 <==> text_less(b@, a@),
{
    let x = chars_of(a);
    let y = chars_of(b);
    proof {
        lemma_text_less_total(a@, b@);
        lemma_text_less_total(b@, a@);
    }
    let mut i: usize = 0;
    assert(x@.skip(0) =~= x@);
    assert(y@.skip(0) =~= y@);
    while i < x.len() && i < y.len()
        invariant
            i <= x.len(),
            i <= y.len(),
            x@ == a@,
            y@ == b@,
            x@.take(i as int) == y@.take(i as int),
            text_less(a@, b@) == text_less(x@.skip(i as int), y@.skip(i as int)),
            text_less(b@, a@) == text_less(y@.skip(i as int), x@.skip(i as int)),
        decreases x.len() - i,
    {
        assert(x@.skip(i as int)[0] == x@[i as int]);
        assert(y@.skip(i as int)[0] == y@[i as int]);
        if x[i] < y[i] {
            return -1;
        }
        if x[i] > y[i] {
            return 1;
        }
        assert(x@.skip(i as int).drop_first() =~= x@.skip(i + 1));
        assert(y@.skip(i as int).drop_first() =~= y@.skip(i + 1));
        assert(x@.take(i + 1) =~= x@.take(i as int).push(x@[i as int]));
        assert(y@.take(i + 1) =~= y@.take(i as int).push(y@[i as int]));
        i = i + 1;
    }
    if x.len() == y.len() {
        assert(x@ =~= x@.take(i as int));
        assert(y@ =~= y@.take(i as int));
        0
    } else if x.len() < y.len() {
        -1
    } else {
        1
    }
}

/// The views of `books`, in order.
pub open spec fn book_views(books: Seq<Book>) -> Seq<BookView> {
    books.map_values(|b: Book| b@)
}

/// Entries stand in strictly ascending order of their ids (so no id occurs twice).
pub open spec fn ids_ascending(s: Seq<BookView>) -> bool {
    forall|i: int, j: int| 0 <= i < j < s.len() ==> text_less(#[trigger] s[i].id, #[trigger] s[j].id)
}

/// The entry with id `k`, where there is one.
pub open spec fn find_book(s: Seq<BookView>, k: Seq<char>) -> Option<BookView> {
    if exists|i: int| 0 <= i < s.len() && #[trigger] s[i].id == k {
        Some(s[choose|i: int| 0 <= i < s.len() && #[trigger] s[i].id == k])
    } else {
        None
    }
}

proof fn lemma_find_book_at(s: Seq<BookView>, i: int)
    requires
        ids_ascending(s),
        0 <= i < s.len(),
    ensures
        find_book(s, s[i].id) == Some(s[i]),
{
    let k = s[i].id;
    assert(s[i].id == k);
    let j = choose|j: int| 0 <= j < s.len() && #[trigger] s[j].id == k;
    lemma_text_less_total(k, k);
    if j < i {
        assert(text_less(s[j].id, s[i].id));
    } else if i < j {
        assert(text_less(s[i].id, s[j].id));
    }
}

/// The books gathered so far, keyed by id and kept in ascending id order.
pub struct State {
    books: Vec<Book>,
}

impl View for State {
    type V = Seq<BookView>;

    closed spec fn view(&self) -> Seq<BookView> {
        book_views(self.books@)
    }
}

impl State {
    /// The state is well formed: its entries stand in ascending order of id.
    #[verifier::type_invariant]
    pub open spec fn wf(&self) -> bool {
        ids_ascending(self@)
    }

    /// A state that holds no book.
    pub fn new() -> (res: State)
        ensures
            res@ == Seq::<BookView>::empty(),
    {
        let res = State { books: Vec::new() };
        assert(res@ =~= Seq::<BookView>::empty());
        res
    }

    /// The number of books held.
    pub fn len(&self) -> (res: usize)
        ensures
            res == self@.len(),
    {
        self.books.len()
    }

    /// The books held, in ascending order of id.
    pub fn books(&self) -> (res: &Vec<Book>)
        ensures
            book_views(res@) == self@,
            ids_ascending(self@),
    {
        proof {
            use_type_invariant(self);
        }
        &self.books
    }

    /// The book stored under `id`, if any.
    pub fn get(&self, id: &str) -> (res: Option<&Book>)
        ensures
            match res {
                Some(b) => find_book(self@, id@) == Some(b@),
                None => find_book(self@, id@) is None,
            },
    {
        proof {
            use_type_invariant(self);
        }
        let mut i: usize = 0;
        while i < self.books.len()
            invariant
                i <= self.books.len(),
                self.wf(),
                forall|j: int| 0 <= j < i ==> self@[j].id != id@,
            decreases self.books.len() - i,
        {
            assert(self@[i as int] == self.books@[i as int]@);
            if text_order(self.books[i].id.as_str(), id) == 0 {
                proof {
                    lemma_find_book_at(self@, i as int);
                }
                return Some(&self.books[i]);
            }
            i = i + 1;
        }
        None
    }

    /// Stores `book` under its id, replacing the book stored there before.
    pub fn insert(&mut self, book: Book)
        ensures
            forall|k: Seq<char>|
                #[trigger] find_book(final(self)@, k) == if k == book@.id {
                    Some(book@)
                } else {
                    find_book(old(self)@, k)
                },
            final(self)@.len() == if find_book(old(self)@, book@.id) is Some {
                old(self)@.len()
            } else {
                old(self)@.len() + 1
            },
    {
        proof {
            use_type_invariant(&*self);
        }
        let ghost old_view = self@;
        let ghost b = book@;
        let mut books: Vec<Book> = Vec::new();
        std::mem::swap(&mut books, &mut self.books);
        let mut i: usize = 0;
        let mut order: i8 = -1;
        while i < books.len()
            invariant
                i <= books.len(),
                book_views(books@) == old_view,
                ids_ascending(old_view),
                b == book@,
                forall|j: int| 0 <= j < i ==> text_less(#[trigger] old_view[j].id, b.id),
            ensures
                i <= books.len(),
                forall|j: int| 0 <= j < i ==> text_less(#[trigger] old_view[j].id, b.id),
                i < books.len() ==> !text_less(old_view[i as int].id, b.id) && (order == 0
                    <==> old_view[i as int].id == b.id),
            decreases books.len() - i,
        {
            assert(old_view[i as int] == books@[i as int]@);
            order = text_order(books[i].id.as_str(), book.id.as_str());
            if order >= 0 {
                break;
            }
            i = i + 1;
        }
        proof {
            lemma_text_less_total(b.id, b.id);
        }
        if i < books.len() && order == 0 {
            books.set(i, book);
            proof {
                let nv = book_views(books@);
                assert(nv =~= old_view.update(i as int, b));
                assert forall|x: int, y: int| 0 <= x < y < nv.len() implies text_less(
                    #[trigger] nv[x].id,
                    #[trigger] nv[y].id,
                ) by {
                    assert(old_view[x].id == nv[x].id);
                    assert(old_view[y].id == nv[y].id);
                }
                assert forall|k: Seq<char>| #[trigger]
                    find_book(nv, k) == if k == b.id {
                        Some(b)
                    } else {
                        find_book(old_view, k)
                    } by {
                    if k == b.id {
                        lemma_find_book_at(nv, i as int);
                    } else {
                        if exists|j: int| 0 <= j < nv.len() && #[trigger] nv[j].id == k {
                            let j = choose|j: int| 0 <= j < nv.len() && #[trigger] nv[j].id == k;
                            lemma_find_book_at(nv, j);
                            lemma_find_book_at(old_view, j);
                        } else {
                            assert forall|j: int| 0 <= j < old_view.len() implies #[trigger] old_view[j].id != k by {
                                assert(nv[j].id == old_view[j].id || j == i);
                            }
                        }
                    }
                }
                lemma_find_book_at(old_view, i as int);
            }
        } else {
            books.insert(i, book);
            proof {
                let nv = book_views(books@);
                assert(nv =~= old_view.insert(i as int, b));
                assert forall|x: int, y: int| 0 <= x < y < nv.len() implies text_less(
                    #[trigger] nv[x].id,
                    #[trigger] nv[y].id,
                ) by {
                    if y < i {
                        assert(nv[x] == old_view[x] && nv[y] == old_view[y]);
                    } else if y == i {
                        assert(nv[x] == old_view[x]);
                    } else if x == i {
                        assert(nv[y] == old_view[y - 1]);
                        if y - 1 > i {
                            assert(text_less(old_view[i as int].id, old_view[y - 1].id));
                            lemma_text_less_total(old_view[i as int].id, b.id);
                            if old_view[i as int].id != b.id {
                                lemma_text_less_transitive(b.id, old_view[i as int].id, old_view[y - 1].id);
                            }
                        } else {
                            lemma_text_less_total(old_view[i as int].id, b.id);
                        }
                    } else if x < i {
                        assert(nv[x] == old_view[x] && nv[y] == old_view[y - 1]);
                    } else {
                        assert(nv[x] == old_view[x - 1] && nv[y] == old_view[y - 1]);
                    }
                }
                assert(nv[i as int] == b);
                assert forall|k: Seq<char>| #[trigger]
                    find_book(nv, k) == if k == b.id {
                        Some(b)
                    } else {
                        find_book(old_view, k)
                    } by {
                    if k == b.id {
                        lemma_find_book_at(nv, i as int);
                    } else {
                        if exists|j: int| 0 <= j < nv.len() && #[trigger] nv[j].id == k {
                            let j = choose|j: int| 0 <= j < nv.len() && #[trigger] nv[j].id == k;
                            lemma_find_book_at(nv, j);
                            if j < i {
                                lemma_find_book_at(old_view, j);
                            } else {
                                assert(nv[j] == old_view[j - 1]);
                                lemma_find_book_at(old_view, j - 1);
                            }
                        } else {
                            assert forall|j: int| 0 <= j < old_view.len() implies #[trigger] old_view[j].id != k by {
                                if j < i {
                                    assert(nv[j] == old_view[j]);
                                } else {
                                    assert(nv[j + 1] == old_view[j]);
                                }
                            }
                        }
                    }
                }
                assert(find_book(old_view, b.id) is None) by {
                    if exists|j: int| 0 <= j < old_view.len() && #[trigger] old_view[j].id == b.id {
                        let j = choose|j: int| 0 <= j < old_view.len() && #[trigger] old_view[j].id == b.id;
                        if j >= i {
                            if i < old_view.len() && old_view[i as int].id != b.id {
                                if j > i {
                                    assert(text_less(old_view[i as int].id, old_view[j].id));
                                    lemma_text_less_total(old_view[i as int].id, b.id);
                                }
                            }
                        }
                    }
                }
            }
        }
        self.books = books;
    }
}

/// Of the books `fs`, the last one with id `k`.
pub open spec fn last_with_id(fs: Seq<BookView>, k: Seq<char>) -> Option<BookView>
    decreases fs.len(),
{
    if fs.len() == 0 {
        None
    } else if fs.last().id == k {
        Some(fs.last())
    } else {
        last_with_id(fs.drop_last(), k)
    }
}

/// The book under id `k` after storing the books `fs` in order over `s`.
pub open spec fn merged_book(s: Seq<BookView>, fs: Seq<BookView>, k: Seq<char>) -> Option<BookView> {
    match last_with_id(fs, k) {
        Some(b) => Some(b),
        None => find_book(s, k),
    }
}

/// Stores each fetched book in turn (a later one with the same id wins) and
/// says how many ids were new.
pub fn merge_books(state: &mut State, fetched: &Vec<Book>) -> (added: usize)
    ensures
        forall|k: Seq<char>| #[trigger]
            find_book(final(state)@, k) == merged_book(old(state)@, book_views(fetched@), k),
        final(state)@.len() == old(state)@.len() + added,
{
    let before = state.len();
    let ghost start = state@;
    let ghost fs = book_views(fetched@);
    let mut i: usize = 0;
    while i < fetched.len()
        invariant
            i <= fetched.len(),
            fs == book_views(fetched@),
            before == start.len(),
            state@.len() >= before,
            forall|k: Seq<char>| #[trigger]
                find_book(state@, k) == merged_book(start, fs.take(i as int), k),
        decreases fetched.len() - i,
    {
        let b = fetched[i].clone();
        let ghost prev = state@;
        state.insert(b);
        proof {
            assert(fs.take(i + 1).drop_last() =~= fs.take(i as int));
            assert(fs.take(i + 1).last() == fetched@[i as int]@);
            assert forall|k: Seq<char>| #[trigger]
                find_book(state@, k) == merged_book(start, fs.take(i + 1), k) by {
                assert(find_book(state@, k) == if k == fetched@[i as int]@.id {
                    Some(fetched@[i as int]@)
                } else {
                    find_book(prev, k)
                });
            }
        }
        i = i + 1;
    }
    assert(fs.take(fetched.len() as int) =~= fs);
    state.len() - before
}

/// How many sources the collector asks.
pub const SOURCE_COUNT: usize = 8;

/// The run has failed when no source answered.
pub fn every_source_failed(failures: usize) -> (res: bool)
    ensures
        res == (failures == SOURCE_COUNT),
{
    failures == SOURCE_COUNT
}

/// Law: after a book is stored, looking up its id gives that book back, and
/// every other id gives what it gave before.
pub proof fn lemma_store_then_lookup(s: Seq<BookView>, fs: Seq<BookView>, b: BookView, k: Seq<char>)
    ensures
        merged_book(s, fs.push(b), b.id) == Some(b),
        k != b.id ==> merged_book(s, fs.push(b), k) == merged_book(s, fs, k),
{
    assert(fs.push(b).drop_last() =~= fs);
}

/// Law: merging never loses a stored book: an id held before is held after.
pub proof fn lemma_merge_keeps_stored(s: Seq<BookView>, fs: Seq<BookView>, k: Seq<char>)
    ensures
        find_book(s, k) is Some ==> merged_book(s, fs, k) is Some,
        merged_book(s, fs, k) is Some <==> (find_book(s, k) is Some || last_with_id(fs, k) is Some),
{
}

} // verus!
