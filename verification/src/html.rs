use vstd::prelude::*;

use crate::error::FeedError;
use crate::text::{is_folded, join, normalize_space, normalized, single_space, append_str, push_char};

verus! {

#[verifier::external_type_specification]
#[verifier::external_body]
pub struct ExHtml(scraper::Html);

#[verifier::external_type_specification]
#[verifier::external_body]
pub struct ExSelector(scraper::Selector);

#[verifier::external_type_specification]
#[verifier::external_body]
pub struct ExElementRef<'a>(scraper::ElementRef<'a>);

#[verifier::external_type_specification]
#[verifier::external_body]
pub struct ExSelectorErrorKind(scraper::error::SelectorErrorKind);

/// Whether `text` is a CSS selector group that `scraper` parses.
pub uninterp spec fn selector_parses(text: Seq<char>) -> bool;

/// A step of a selection path: a selector's text and the position of the
/// chosen match among the matches it yields.
pub type PathStep = (Seq<char>, int);

/// How many elements `selector` matches inside the element at `path` of the
/// page whose text is `page` (the empty path is the whole document), as
/// `scraper` yields them: `Html::select` on the parsed document, then
/// `ElementRef::select` on the chosen match at each step.
pub uninterp spec fn match_count(page: Seq<char>, path: Seq<PathStep>, selector: Seq<char>) -> nat;

/// The text nodes of the element at `path` of the page `page`, in the order
/// `ElementRef::text` yields them.
pub uninterp spec fn text_nodes(page: Seq<char>, path: Seq<PathStep>) -> Seq<Seq<char>>;

/// The value of attribute `name` of the element at `path` of the page `page`,
/// as `ElementRef::attr` gives it.
pub uninterp spec fn attribute_value(page: Seq<char>, path: Seq<PathStep>, name: Seq<char>) -> Option<
    Seq<char>,
>;

/// A parsed page together with its text.
pub struct Page {
    source: String,
    html: scraper::Html,
}

/// A compiled selector together with its text.
pub struct CssSelector {
    source: String,
    compiled: scraper::Selector,
}

/// An element of a page, with the selection path that reached it.
pub struct Element<'a> {
    page: &'a Page,
    node: scraper::ElementRef<'a>,
    path: Vec<(String, usize)>,
}

/// The selection path of stored steps, as text and positions.
pub open spec fn path_view(steps: Seq<(String, usize)>) -> Seq<PathStep> {
    steps.map_values(|s: (String, usize)| (s.0@, s.1 as int))
}

/// `scraper::Html::parse_document`. Parsing never fails; the tree is kept
/// beside the text it was parsed from.
#[verifier::external_body]
fn parse_document(text: &str) -> (res: scraper::Html) {
    scraper::Html::parse_document(text)
}

/// `scraper::Selector::parse`: it succeeds exactly on the texts named by
/// [`selector_parses`].
#[verifier::external_body]
fn parse_selector(text: &str) -> (res: Result<scraper::Selector, scraper::error::SelectorErrorKind>)
    ensures
        res is Ok <==> selector_parses(text@),
{
    scraper::Selector::parse(text)
}

/// `scraper::Html::select` of the selector on the page's tree, the matches
/// collected in the order it yields them: as many as [`match_count`] names
/// for the page text, the empty path and the selector text (a `Page` and a
/// `CssSelector` are only ever made by parsing their own texts).
#[verifier::external_body]
fn document_matches<'a>(page: &'a Page, selector: &CssSelector) -> (res: Vec<scraper::ElementRef<'a>>)
    ensures
        res.len() == match_count(page.source_text(), Seq::empty(), selector.source_text()),
{
    page.html.select(&selector.compiled).collect()
}

/// `scraper::ElementRef::select` of the selector on the element, the matches
/// collected in the order it yields them: as many as [`match_count`] names
/// for the element's page text and path (an `Element` is only ever made, by
/// [`Page::select`] and [`Element::select`], for the match its path names).
#[verifier::external_body]
fn element_matches<'a>(element: &Element<'a>, selector: &CssSelector) -> (res: Vec<
    scraper::ElementRef<'a>,
>)
    ensures
        res.len() == match_count(element.page_text(), element.path_of(), selector.source_text()),
{
    element.node.select(&selector.compiled).collect()
}

/// `scraper::ElementRef::text` of the element, each text node copied out in
/// order: what [`text_nodes`] names for its page text and path.
#[verifier::external_body]
fn element_text_nodes(element: &Element) -> (res: Vec<String>)
    ensures
        string_views(res@) == text_nodes(element.page_text(), element.path_of()),
{
    element.node.text().map(|t| t.to_string()).collect()
}

/// `scraper::ElementRef::attr` of the element, copied out: what
/// [`attribute_value`] names for its page text, path and the attribute name.
#[verifier::external_body]
fn element_attribute(element: &Element, name: &str) -> (res: Option<String>)
    ensures
        match res {
            Some(v) => attribute_value(element.page_text(), element.path_of(), name@) == Some(v@),
            None => attribute_value(element.page_text(), element.path_of(), name@) is None,
        },
{
    element.node.attr(name).map(|v| v.to_string())
}

impl Page {
    /// The text the page was parsed from.
    pub closed spec fn source_text(&self) -> Seq<char> {
        self.source@
    }

    /// Parses a page.
    pub fn parse(text: &str) -> (res: Page)
        ensures
            res.source_text() == text@,
    {
        Page { source: text.to_owned(), html: parse_document(text) }
    }

    /// The elements of the page that `selector` matches, in the order
    /// `scraper` yields them; the `i`-th is reached by the path `[(selector, i)]`.
    pub fn select<'a>(&'a self, selector: &CssSelector) -> (res: Vec<Element<'a>>)
        ensures
            res.len() == match_count(self.source_text(), Seq::empty(), selector.source_text()),
            forall|i: int|
                0 <= i < res.len() ==> (#[trigger] res@[i]).page_text() == self.source_text()
                    && res@[i].path_of() == seq![(selector.source_text(), i)],
    {
        let nodes = document_matches(self, selector);
        let mut res: Vec<Element<'a>> = Vec::new();
        let mut i: usize = 0;
        while i < nodes.len()
            invariant
                i <= nodes.len(),
                res.len() == i,
                forall|k: int|
                    0 <= k < i ==> (#[trigger] res@[k]).page_text() == self.source_text()
                        && res@[k].path_of() == seq![(selector.source_text(), k)],
            decreases nodes.len() - i,
        {
            let mut path: Vec<(String, usize)> = Vec::new();
            path.push((selector.source.clone(), i));
            assert(path_view(path@) =~= seq![(selector.source_text(), i as int)]);
            res.push(Element { page: self, node: nodes[i], path });
            i = i + 1;
        }
        res
    }
}

impl CssSelector {
    /// The text the selector was parsed from.
    pub closed spec fn source_text(&self) -> Seq<char> {
        self.source@
    }
}

impl<'a> Element<'a> {
    /// The text of the page the element belongs to.
    pub closed spec fn page_text(&self) -> Seq<char> {
        self.page.source_text()
    }

    /// The selection path that reached the element.
    pub closed spec fn path_of(&self) -> Seq<PathStep> {
        path_view(self.path@)
    }

    /// The descendants of the element that `selector` matches, in the order
    /// `scraper` yields them; the `i`-th is reached by this element's path
    /// followed by `(selector, i)`.
    pub fn select(&self, selector: &CssSelector) -> (res: Vec<Element<'a>>)
        ensures
            res.len() == match_count(self.page_text(), self.path_of(), selector.source_text()),
            forall|i: int|
                0 <= i < res.len() ==> (#[trigger] res@[i]).page_text() == self.page_text()
                    && res@[i].path_of() == self.path_of().push((selector.source_text(), i)),
    {
        let nodes = element_matches(self, selector);
        let mut res: Vec<Element<'a>> = Vec::new();
        let mut i: usize = 0;
        while i < nodes.len()
            invariant
                i <= nodes.len(),
                res.len() == i,
                forall|k: int|
                    0 <= k < i ==> (#[trigger] res@[k]).page_text() == self.page_text()
                        && res@[k].path_of() == self.path_of().push((selector.source_text(), k)),
            decreases nodes.len() - i,
        {
            let mut path: Vec<(String, usize)> = Vec::new();
            let mut j: usize = 0;
            while j < self.path.len()
                invariant
                    j <= self.path.len(),
                    path_view(path@) == path_view(self.path@).take(j as int),
                decreases self.path.len() - j,
            {
                let step = (self.path[j].0.clone(), self.path[j].1);
                let ghost before = path_view(path@);
                path.push(step);
                assert(path_view(path@) =~= before.push((step.0@, step.1 as int)));
                assert(path_view(self.path@)[j as int] == (self.path@[j as int].0@, self.path@[j as int].1 as int));
                assert(path_view(path@) =~= path_view(self.path@).take(j + 1));
                j = j + 1;
            }
            let ghost before = path_view(path@);
            assert(path_view(self.path@).take(self.path.len() as int) =~= path_view(self.path@));
            path.push((selector.source.clone(), i));
            assert(path_view(path@) =~= before.push((selector.source_text(), i as int)));
            assert(path_view(path@) =~= path_view(self.path@).push((selector.source_text(), i as int)));
            res.push(Element { page: self.page, node: nodes[i], path });
            i = i + 1;
        }
        res
    }
}

/// Parses a CSS selector.
pub fn sel(text: &str) -> (res: Result<CssSelector, FeedError>)
    ensures
        match res {
            Ok(s) => selector_parses(text@) && s.source_text() == text@,
            Err(FeedError::InvalidSelector(t)) => !selector_parses(text@) && t@ == text@,
            Err(_) => false,
        },
{
    match parse_selector(text) {
        Ok(s) => Ok(CssSelector { source: text.to_owned(), compiled: s }),
        Err(_) => Err(FeedError::InvalidSelector(text.to_owned())),
    }
}

/// The views of the given strings.
pub open spec fn string_views(ts: Seq<String>) -> Seq<Seq<char>> {
    ts.map_values(|t: String| t@)
}

/// The text pieces joined by single spaces, white space then folded.
pub fn text_of_pieces(pieces: &Vec<String>) -> (res: String)
    ensures
        res@ == normalized(join(string_views(pieces@), single_space())),
{
    let mut joined = String::new();
    let mut i: usize = 0;
    while i < pieces.len()
        invariant
            i <= pieces.len(),
            joined@ == join(string_views(pieces@.take(i as int)), single_space()),
        decreases pieces.len() - i,
    {
        let ghost before = string_views(pieces@.take(i as int));
        assert(string_views(pieces@.take(i + 1)) =~= before.push(pieces@[i as int]@));
        assert(before.push(pieces@[i as int]@).drop_last() =~= before);
        if i > 0 {
            push_char(&mut joined, ' ');
        }
        append_str(&mut joined, pieces[i].as_str());
        i = i + 1;
    }
    assert(pieces@.take(pieces.len() as int) =~= pieces@);
    normalize_space(joined.as_str())
}

/// The text pieces concatenated with nothing between them.
pub fn concat_pieces(pieces: &Vec<String>) -> (res: String)
    ensures
        res@ == join(string_views(pieces@), Seq::empty()),
{
    let mut out = String::new();
    let mut i: usize = 0;
    while i < pieces.len()
        invariant
            i <= pieces.len(),
            out@ == join(string_views(pieces@.take(i as int)), Seq::empty()),
        decreases pieces.len() - i,
    {
        let ghost before = string_views(pieces@.take(i as int));
        assert(string_views(pieces@.take(i + 1)) =~= before.push(pieces@[i as int]@));
        assert(before.push(pieces@[i as int]@).drop_last() =~= before);
        append_str(&mut out, pieces[i].as_str());
        assert(out@ =~= join(string_views(pieces@.take(i + 1)), Seq::empty()));
        i = i + 1;
    }
    assert(pieces@.take(pieces.len() as int) =~= pieces@);
    out
}

/// The text of the element at `path` of `page`: its text nodes joined by
/// spaces, white space folded.
pub open spec fn text_at(page: Seq<char>, path: Seq<PathStep>) -> Seq<char> {
    normalized(join(text_nodes(page, path), single_space()))
}

/// The text of the first element that `selector` matches inside the element
/// at `path` of `page`, or `None` where it matches nothing.
pub open spec fn first_text_at(page: Seq<char>, path: Seq<PathStep>, selector: Seq<char>) -> Option<
    Seq<char>,
> {
    if match_count(page, path, selector) == 0 {
        None
    } else {
        Some(text_at(page, path.push((selector, 0))))
    }
}

/// The text of `element`: its text nodes joined by spaces, white space folded.
pub fn element_text(element: &Element) -> (res: String)
    ensures
        res@ == text_at(element.page_text(), element.path_of()),
        is_folded(res@),
        normalized(res@) == res@,
{
    let pieces = element_text_nodes(element);
    let res = text_of_pieces(&pieces);
    proof {
        crate::text::lemma_normalized_is_folded(join(string_views(pieces@), single_space()));
        crate::text::lemma_normalize_space_idempotent(join(string_views(pieces@), single_space()));
    }
    res
}

/// The text of the first descendant of `root` that `selector` matches, or
/// `None` where none does.
pub fn text_first(root: &Element, selector: &CssSelector) -> (res: Option<String>)
    ensures
        match res {
            Some(t) => first_text_at(root.page_text(), root.path_of(), selector.source_text())
                == Some(t@) && is_folded(t@) && normalized(t@) == t@,
            None => first_text_at(root.page_text(), root.path_of(), selector.source_text()) is None,
        },
{
    let found = root.select(selector);
    if found.len() > 0 {
        Some(element_text(&found[0]))
    } else {
        None
    }
}

/// The concatenated text nodes of `element`, with nothing between them.
pub fn element_concat_text(element: &Element) -> (res: String)
    ensures
        res@ == join(text_nodes(element.page_text(), element.path_of()), Seq::empty()),
{
    concat_pieces(&element_text_nodes(element))
}

/// The value of attribute `name` of `element`.
pub fn attr(element: &Element, name: &str) -> (res: Option<String>)
    ensures
        match res {
            Some(v) => attribute_value(element.page_text(), element.path_of(), name@) == Some(v@),
            None => attribute_value(element.page_text(), element.path_of(), name@) is None,
        },
{
    element_attribute(element, name)
}

} // verus!
