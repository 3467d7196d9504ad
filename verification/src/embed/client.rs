//! The addresses of the embedding service: a base URL without trailing
//! slashes, and its single and batch endpoints.
use vstd::prelude::*;
use vstd::string::{StrSliceExecFns, StringExecFns};

verus! {

/// `s` without the slashes that end it.
pub open spec fn trim_trailing_slashes(s: Seq<char>) -> Seq<char>
    decreases s.len(),
{
    if s.len() > 0 && s.last() == '/' {
        trim_trailing_slashes(s.drop_last())
    } else {
        s
    }
}

/// The base URL of the embedding service: `url` without its trailing
/// slashes.
pub fn base_url(url: &str) -> (res: String)
    ensures
        res@ == trim_trailing_slashes(url@),
{
    let mut end = url.unicode_len();
    assert(url@.take(end as int) =~= url@);
    while end > 0 && url.get_char(end - 1) == '/'
        invariant
            end <= url@.len(),
            trim_trailing_slashes(url@) == trim_trailing_slashes(url@.take(end as int)),
        decreases end,
    {
        assert(url@.take(end as int).drop_last() =~= url@.take(end - 1));
        end -= 1;
    }
    let ghost t = url@.take(end as int);
    assert(url@.subrange(0, end as int) == t);
    String::from_str(url.substring_char(0, end))
}

/// The endpoint that embeds one text: the base URL and `/embed`.
pub fn embed_url(base: &String) -> (res: String)
    ensures
        res@ == base@ + "/embed"@,
{
    let mut r = base.clone();
    r.append("/embed");
    r
}

/// The endpoint that embeds a batch of texts: the base URL and
/// `/embed-batch`.
pub fn embed_batch_url(base: &String) -> (res: String)
    ensures
        res@ == base@ + "/embed-batch"@,
{
    let mut r = base.clone();
    r.append("/embed-batch");
    r
}

/// Whether a batch of texts needs a request to the embedding service: an
/// empty batch is answered with no embeddings without one.
pub fn batch_needs_request(texts: &[String]) -> (res: bool)
    ensures
        res == (texts@.len() > 0),
{
    texts.len() > 0
}

} // verus!
