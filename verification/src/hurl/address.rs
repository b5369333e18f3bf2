//! The address of a request: the URL of the host with the parameters of the
//! query added to it. The `url` crate parses and writes the URL.

use crate::hurl::params;
use vstd::prelude::*;
use vstd::string::StringExecFns;
use vstd::utf8::encode_utf8;

verus! {

/// A parsed URL of the `url` crate.
#[verifier::external_type_specification]
#[verifier::external_body]
pub struct ExUrl(url::Url);

/// The text of a parsed URL, as `url::Url::as_str` returns it.
pub uninterp spec fn url_text(url: url::Url) -> Seq<char>;

/// What `url::Url::parse` makes of a text: the text of the parsed URL, or the
/// name of the parse error.
pub uninterp spec fn parsed(input: Seq<char>) -> Result<Seq<char>, Seq<char>>;

/// The name and value pairs that `url::Url::query_pairs` reads from the
/// query of the URL with the given text.
pub uninterp spec fn pairs_of(address: Seq<char>) -> Seq<(Seq<char>, Seq<char>)>;

/// The text of the URL after its query was cleared and the pairs were written
/// to it with `extend_pairs`.
pub uninterp spec fn with_pairs(address: Seq<char>, pairs: Seq<(Seq<char>, Seq<char>)>) -> Seq<
    char,
>;

/// The pairs of a vector of owned names and values.
pub open spec fn owned_pairs(pairs: Seq<(String, String)>) -> Seq<(Seq<char>, Seq<char>)> {
    pairs.map_values(|p: (String, String)| (p.0@, p.1@))
}

/// An upper bound on the bytes that the pairs take in a query: each byte of
/// a name or value is written as up to three, and each pair brings a `=` and
/// a `&`.
pub open spec fn pairs_cost(pairs: Seq<(Seq<char>, Seq<char>)>) -> int
    decreases pairs.len(),
{
    if pairs.len() == 0 {
        0
    } else {
        pairs_cost(pairs.drop_last()) + 3 * (encode_utf8(pairs.last().0).len() + encode_utf8(
            pairs.last().1,
        ).len()) + 2
    }
}

/// The URL with these pairs as its query stays within the four gigabytes
/// that the `url` crate can address.
pub open spec fn fits(address: Seq<char>, pairs: Seq<(Seq<char>, Seq<char>)>) -> bool {
    encode_utf8(address).len() + 1 + pairs_cost(pairs) <= u32::MAX
}

/// `url::Url::parse`: parses an absolute URL. The error is handed on as its
/// `Debug` text, which is the name of the `ParseError` variant.
///
/// The contract claims only that the outcome is a function of the input.
#[verifier::external_body]
fn parse(input: &str) -> (r: Result<url::Url, String>)
    ensures
        match r {
            Ok(url) => parsed(input@) == Ok::<Seq<char>, Seq<char>>(url_text(url)),
            Err(e) => parsed(input@) == Err::<Seq<char>, Seq<char>>(e@),
        },
{
    url::Url::parse(input).map_err(|e| format!("{:?}", e))
}

/// `url::Url::as_str`: the serialization of the URL.
///
/// The contract gives that text its name.
#[verifier::external_body]
fn as_str(url: &url::Url) -> (r: &str)
    ensures
        r@ == url_text(*url),
{
    url.as_str()
}

/// `url::Url::query_pairs`: the pairs of the URL's query, percent-decoded,
/// in the order of the query.
///
/// The contract claims only that the pairs are a function of the URL's text.
#[verifier::external_body]
fn query_pairs(url: &url::Url) -> (r: Vec<(String, String)>)
    ensures
        owned_pairs(r@) == pairs_of(url_text(*url)),
{
    url.query_pairs().map(|(name, value)| (name.to_string(), value.to_string())).collect()
}

/// `url::Url::query_pairs_mut`, then `clear` and `extend_pairs` on the
/// serializer that it returns: the query of the URL is replaced by the
/// pairs, in their order. The three calls stand in one item because the
/// serializer borrows the URL and writes it back when it is dropped.
///
/// The contract claims only that the new text is a function of the old text
/// and the pairs. The crate keeps positions in the text as `u32` and stops
/// the program where one does not fit; `fits` keeps the text short enough.
#[verifier::external_body]
fn set_query_pairs(url: &mut url::Url, pairs: &Vec<(String, String)>)
    requires
        fits(url_text(*old(url)), owned_pairs(pairs@)),
    ensures
        url_text(*final(url)) == with_pairs(url_text(*old(url)), owned_pairs(pairs@)),
{
    url.query_pairs_mut().clear().extend_pairs(pairs.iter().map(|p| (&p.0[..], &p.1[..])));
}

/// The text of the URL with the pairs of `query` added behind those that its
/// query already holds.
pub open spec fn merged(address: Seq<char>, query: Seq<(Seq<char>, Seq<char>)>) -> Seq<char> {
    with_pairs(address, pairs_of(address) + query)
}

/// Appends the parameters of a request to the pairs that a URL already
/// holds.
pub fn append_params(pairs: &mut Vec<(String, String)>, query: &Vec<(&str, String)>)
    ensures
        owned_pairs(final(pairs)@) == owned_pairs(old(pairs)@) + params(query@),
{
    let mut i: usize = 0;
    proof {
        assert(owned_pairs(pairs@) + params(query@).take(0) =~= owned_pairs(pairs@));
    }
    while i < query.len()
        invariant
            i <= query.len(),
            owned_pairs(pairs@) == owned_pairs(old(pairs)@) + params(query@).take(i as int),
        decreases query.len() - i,
    {
        let ghost before = owned_pairs(pairs@);
        pairs.push((query[i].0.to_owned(), query[i].1.clone()));
        proof {
            assert(owned_pairs(pairs@) =~= before.push((query@[i as int].0@, query@[i as int].1@)));
            assert(params(query@).take(i + 1) =~= params(query@).take(i as int).push(
                (query@[i as int].0@, query@[i as int].1@),
            ));
        }
        i = i + 1;
    }
    proof {
        assert(params(query@).take(query.len() as int) =~= params(query@));
    }
}

proof fn lemma_pairs_cost_positive(pairs: Seq<(Seq<char>, Seq<char>)>)
    ensures
        0 <= pairs_cost(pairs),
    decreases pairs.len(),
{
    if pairs.len() > 0 {
        lemma_pairs_cost_positive(pairs.drop_last());
    }
}

proof fn lemma_pairs_cost_grows(pairs: Seq<(Seq<char>, Seq<char>)>, n: int)
    requires
        0 <= n <= pairs.len(),
    ensures
        0 <= pairs_cost(pairs.take(n)) <= pairs_cost(pairs),
    decreases pairs.len() - n,
{
    if n == pairs.len() {
        assert(pairs.take(n) =~= pairs);
        lemma_pairs_cost_positive(pairs);
    } else {
        lemma_pairs_cost_grows(pairs, n + 1);
        lemma_pairs_cost_positive(pairs.take(n));
        assert(pairs.take(n + 1).drop_last() =~= pairs.take(n));
    }
}

/// The room that is left of `room` bytes when the pairs have taken their
/// cost, or `None` where they take more.
pub fn room_after(room: u32, pairs: &Vec<(String, String)>) -> (r: Option<u32>)
    ensures
        match r {
            Some(left) => left == room - pairs_cost(owned_pairs(pairs@)),
            None => pairs_cost(owned_pairs(pairs@)) > room,
        },
{
    let ghost all = owned_pairs(pairs@);
    let mut left: u64 = room as u64;
    let mut i: usize = 0;
    while i < pairs.len()
        invariant
            i <= pairs.len(),
            all == owned_pairs(pairs@),
            left == room - pairs_cost(all.take(i as int)),
        decreases pairs.len() - i,
    {
        let name = pairs[i].0.as_str().as_bytes().len();
        let value = pairs[i].1.as_str().as_bytes().len();
        proof {
            assert(all.take(i + 1).drop_last() =~= all.take(i as int));
            assert(all.take(i + 1).last() == (pairs@[i as int].0@, pairs@[i as int].1@));
            lemma_pairs_cost_grows(all, i + 1);
            lemma_pairs_cost_positive(all.take(i as int));
        }
        if name > 0xffff_ffff || value > 0xffff_ffff {
            return None;
        }
        let cost: u64 = 3 * (name as u64 + value as u64) + 2;
        if cost > left {
            return None;
        }
        left = left - cost;
        i = i + 1;
    }
    proof {
        assert(all.take(pairs.len() as int) =~= all);
        lemma_pairs_cost_positive(all);
    }
    Some(left as u32)
}

/// Whether the URL can take the pairs as its query.
pub fn has_room(url: &url::Url, pairs: &Vec<(String, String)>) -> (r: bool)
    ensures
        r == fits(url_text(*url), owned_pairs(pairs@)),
{
    let length = as_str(url).as_bytes().len();
    proof {
        lemma_pairs_cost_positive(owned_pairs(pairs@));
    }
    if length >= 0xffff_ffff {
        return false;
    }
    let room: u32 = 0xffff_ffff - (length as u32) - 1;
    room_after(room, pairs).is_some()
}

/// The text that reports a URL that could not be parsed.
pub open spec fn parse_failure(name: Seq<char>) -> Seq<char> {
    "could not parse url: "@ + name
}

/// Writes the text that reports a URL that could not be parsed, from the name
/// of the parse error.
pub fn parse_error(name: &str) -> (r: String)
    ensures
        r@ == parse_failure(name@),
{
    let mut text = "could not parse url: ".to_owned();
    text.append(name);
    text
}

/// The address that a request goes to: the URL as the `url` crate writes
/// it, with the parameters of the query, if there is one, added behind those
/// that the URL already holds. A URL that cannot be parsed gives the error
/// text; one that would grow beyond what the `url` crate can address gives
/// `None`.
pub open spec fn address_of(url: Seq<char>, query: Option<Seq<(Seq<char>, Seq<char>)>>) -> Option<
    Result<Seq<char>, Seq<char>>,
> {
    match parsed(url) {
        Err(name) => Some(Err(parse_failure(name))),
        Ok(address) => match query {
            None => Some(Ok(address)),
            Some(q) => if fits(address, pairs_of(address) + q) {
                Some(Ok(merged(address, q)))
            } else {
                None
            },
        },
    }
}

/// The view of an address or of what stood in its way.
pub open spec fn address_view(r: Option<Result<String, String>>) -> Option<
    Result<Seq<char>, Seq<char>>,
> {
    match r {
        None => None,
        Some(Ok(address)) => Some(Ok(address@)),
        Some(Err(e)) => Some(Err(e@)),
    }
}

/// The view of the query of a request.
pub open spec fn query_view(query: Option<Vec<(&str, String)>>) -> Option<
    Seq<(Seq<char>, Seq<char>)>,
> {
    match query {
        Some(q) => Some(params(q@)),
        None => None,
    }
}

/// Works out the address that a request goes to.
pub fn request_address(url: &str, query: &Option<Vec<(&str, String)>>) -> (r: Option<
    Result<String, String>,
>)
    ensures
        address_view(r) == address_of(url@, query_view(*query)),
{
    match parse(url) {
        Err(name) => Some(Err(parse_error(name.as_str()))),
        Ok(parsed_url) => {
            let mut address = parsed_url;
            match query {
                None => Some(Ok(as_str(&address).to_owned())),
                Some(q) => {
                    let mut pairs = query_pairs(&address);
                    append_params(&mut pairs, q);
                    if has_room(&address, &pairs) {
                        set_query_pairs(&mut address, &pairs);
                        Some(Ok(as_str(&address).to_owned()))
                    } else {
                        None
                    }
                },
            }
        },
    }
}

} // verus!
