use vstd::prelude::*;

use crate::date::{date_of_groups, group_texts, ymd_caps, Date};
use crate::error::FeedError;

verus! {

#[verifier::external_type_specification]
#[verifier::external_body]
pub struct ExRegex(regex::Regex);

#[verifier::external_type_specification]
#[verifier::external_body]
pub struct ExRegexError(regex::Error);

/// Whether `pattern` is a regular expression the `regex` crate compiles.
pub uninterp spec fn regex_compiles(pattern: Seq<char>) -> bool;

/// The groups of the leftmost-first match of `pattern` in `text` (group 0 the
/// whole match), as the `regex` crate finds them, or `None` without a match.
pub uninterp spec fn regex_captures(pattern: Seq<char>, text: Seq<char>) -> Option<
    Seq<Option<Seq<char>>>,
>;

/// The names of the groups of `pattern`, by group number (`None` for group 0
/// and for groups without a name), as the `regex` crate reads them.
pub uninterp spec fn regex_group_names(pattern: Seq<char>) -> Seq<Option<Seq<char>>>;

/// `regex::Regex::new`: it compiles exactly the patterns named by [`regex_compiles`].
#[verifier::external_body]
fn compile_regex(source: &str) -> (res: Result<regex::Regex, regex::Error>)
    ensures
        res is Ok <==> regex_compiles(source@),
{
    regex::Regex::new(source)
}

/// A compiled regular expression together with its source text.
pub struct TextPattern {
    source: String,
    compiled: regex::Regex,
}

impl TextPattern {
    /// The source text of the pattern.
    pub closed spec fn source_text(&self) -> Seq<char> {
        self.source@
    }

    /// Compiles `source`.
    pub fn new(source: &str) -> (res: Result<TextPattern, FeedError>)
        ensures
            match res {
                Ok(p) => regex_compiles(source@) && p.source_text() == source@,
                Err(FeedError::InvalidPattern(t)) => !regex_compiles(source@) && t@ == source@,
                Err(_) => false,
            },
    {
        match compile_regex(source) {
            Ok(compiled) => Ok(TextPattern { source: source.to_owned(), compiled }),
            Err(_) => Err(FeedError::InvalidPattern(source.to_owned())),
        }
    }
}

/// The groups of a match as texts, where there is a match.
pub open spec fn match_texts(m: Option<Vec<Option<String>>>) -> Option<Seq<Option<Seq<char>>>> {
    match m {
        Some(groups) => Some(group_texts(groups@)),
        None => None,
    }
}

/// `regex::Regex::captures` of the pattern's compiled form on `text`, each
/// group (by number, from `Captures::iter`) copied out as an owned string.
/// The result is what [`regex_captures`] names for the pattern's source and
/// the text; it holds because a `TextPattern` is only ever made by compiling
/// its own source.
#[verifier::external_body]
fn captures_of(p: &TextPattern, text: &str) -> (res: Option<Vec<Option<String>>>)
    ensures
        match_texts(res) == regex_captures(p.source_text(), text@),
{
    p.compiled.captures(text).map(|c| c.iter().map(|g| g.map(|g| g.as_str().to_string())).collect())
}

/// The groups of the first match of `p` in `text`.
pub fn captures(p: &TextPattern, text: &str) -> (res: Option<Vec<Option<String>>>)
    ensures
        match_texts(res) == regex_captures(p.source_text(), text@),
{
    captures_of(p, text)
}

/// `regex::Regex::capture_names` of the pattern's compiled form, copied
/// out: what [`regex_group_names`] names for the pattern's source (a
/// `TextPattern` is only ever made by compiling its own source).
#[verifier::external_body]
fn group_names_of(p: &TextPattern) -> (res: Vec<Option<String>>)
    ensures
        group_texts(res@) == regex_group_names(p.source_text()),
{
    p.compiled.capture_names().map(|n| n.map(|n| n.to_string())).collect()
}

/// The names of the groups of `p`, by group number.
pub fn group_names(p: &TextPattern) -> (res: Vec<Option<String>>)
    ensures
        group_texts(res@) == regex_group_names(p.source_text()),
{
    group_names_of(p)
}

/// The date spelled by the groups named `y`, `m`, `d` of a match of a
/// pattern with group names `names`, where there is a match.
pub open spec fn date_of_match(
    names: Seq<Option<Seq<char>>>,
    m: Option<Seq<Option<Seq<char>>>>,
) -> Option<Date> {
    match m {
        Some(groups) => date_of_groups(groups, names),
        None => None,
    }
}

/// The date that the first match of the pattern `p` in `text` spells.
pub open spec fn date_found(p: Seq<char>, text: Seq<char>) -> Option<Date> {
    date_of_match(regex_group_names(p), regex_captures(p, text))
}

/// The date that the first match of a year-month-day pattern in `text` spells.
pub fn date_in_text(p: &TextPattern, text: &str) -> (res: Option<Date>)
    ensures
        res == date_found(p.source_text(), text@),
{
    match captures(p, text) {
        Some(groups) => {
            let names = group_names(p);
            ymd_caps(&groups, &names)
        },
        None => None,
    }
}

} // verus!
