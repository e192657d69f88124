use vstd::prelude::*;

use crate::error::FeedError;

verus! {

#[verifier::external_type_specification]
#[verifier::external_body]
pub struct ExUrlParseError(url::ParseError);

/// The address that `href` names when read on the page at `base`, in the
/// `url` crate's serialization, or `None` where one of the two does not parse.
pub uninterp spec fn joined_url(base: Seq<char>, href: Seq<char>) -> Option<Seq<char>>;

/// `url::Url::join` of `href` on `base` (itself read with `url::Url::parse`),
/// serialized back into a string: the address [`joined_url`] names.
#[verifier::external_body]
fn url_join(base: &str, href: &str) -> (res: Result<String, url::ParseError>)
    ensures
        match res {
            Ok(s) => joined_url(base@, href@) == Some(s@),
            Err(_) => joined_url(base@, href@) is None,
        },
{
    Ok(url::Url::parse(base)?.join(href)?.into())
}

/// The absolute address of the link `href` on the page at `base`.
pub fn absolutize(base: &str, href: &str) -> (res: Result<String, FeedError>)
    ensures
        match res {
            Ok(s) => joined_url(base@, href@) == Some(s@),
            Err(FeedError::InvalidUrl(b, h)) => joined_url(base@, href@) is None && b@ == base@
                && h@ == href@,
            Err(_) => false,
        },
{
    match url_join(base, href) {
        Ok(s) => Ok(s),
        Err(_) => Err(FeedError::InvalidUrl(base.to_owned(), href.to_owned())),
    }
}

} // verus!
