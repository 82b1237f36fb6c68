//! Resolution of an accession to its assembly directory: the listing request
//! that precedes it, and the reading of the listing page that settles it.
use vstd::prelude::*;
use crate::accession::{
    AccessionParts, directory_url, directory_url_of, parse_accession, parts_of, trimmed,
};
use crate::text::{first_index, index_of, slice_string, starts_with, lemma_find_from_bounds};

verus! {

/// Pattern of a link attribute in a listing page, with its quoted value.
pub const LINK_PATTERN: &'static str = "href=\"([^\"]*)\"";

/// The text that opens each match of `LINK_PATTERN`, before the link itself.
pub const LINK_OPEN: &'static str = "href=\"";

/// Whether `regex::Regex::new` accepts a pattern.
pub uninterp spec fn pattern_compiles(p: Seq<char>) -> bool;

/// The texts of the successive non-overlapping matches of a pattern in a text,
/// as `regex::Regex::find_iter` yields them.
pub uninterp spec fn pattern_matches(p: Seq<char>, t: Seq<char>) -> Seq<Seq<char>>;

/// Relies on `regex::Regex::new`, which fails only on an invalid pattern or
/// one over the default size limit (the short, valid `LINK_PATTERN` is
/// neither), and on `regex::Regex::find_iter`, which yields the successive
/// non-overlapping matches from left to right.
#[verifier::external_body]
fn find_all_matches(pattern: &str, text: &str) -> (r: Option<Vec<String>>)
    ensures
        r is Some <==> pattern_compiles(pattern@),
        pattern@ == LINK_PATTERN@ ==> r is Some,
        r matches Some(v) ==> v@.map_values(|m: String| m@) == pattern_matches(pattern@, text@),
{
    let re = regex::Regex::new(pattern).ok()?;
    Some(re.find_iter(text).map(|m| m.as_str().to_string()).collect())
}

/// Why an accession could not be resolved to a directory.
#[derive(Debug, Clone, PartialEq, Eq)]
pub enum ResolutionError {
    /// The accession holds no `_`.
    MalformedAccession,
    /// The listing request to `url` failed before a response came.
    DirectoryUnreachable { url: String },
    /// The listing at `url` answered with a status other than success.
    DirectoryUnavailable { url: String, status: u16 },
    /// No entry of the listing belongs to the accession (which is carried).
    NoMatch(String),
}

/// Whether an HTTP status is a success (`2xx`).
pub open spec fn is_success_status(status: u16) -> bool {
    200 <= status < 300
}

pub fn is_success(status: u16) -> (r: bool)
    ensures
        r == is_success_status(status),
{
    200 <= status && status < 300
}

/// The link inside one match of `LINK_PATTERN`: what lies between the opening
/// text and the closing quote.
pub open spec fn href_of(m: Seq<char>) -> Option<Seq<char>> {
    let k = LINK_OPEN@.len();
    if LINK_OPEN@.is_prefix_of(m) && m.len() > k && m.last() == '"' {
        Some(m.subrange(k as int, m.len() - 1))
    } else {
        None
    }
}

/// A link without its trailing `/`, if it has one.
pub open spec fn strip_slash(h: Seq<char>) -> Seq<char> {
    if h.len() > 0 && h.last() == '/' {
        h.drop_last()
    } else {
        h
    }
}

/// The second `_`-separated field of a name, if it has one.
pub open spec fn second_field(name: Seq<char>) -> Option<Seq<char>> {
    match first_index(name, '_') {
        None => None,
        Some(k) => {
            let rest = name.skip(k + 1);
            Some(
                match first_index(rest, '_') {
                    Some(j) => rest.take(j),
                    None => rest,
                },
            )
        },
    }
}

/// Whether a directory name belongs to the namespace `db` and the number
/// `number`: it starts with `db`, and its second `_`-field starts with
/// `number`.
pub open spec fn entry_matches(name: Seq<char>, db: Seq<char>, number: Seq<char>) -> bool {
    db.is_prefix_of(name) && match second_field(name) {
        Some(f) => number.is_prefix_of(f),
        None => false,
    }
}

/// The first entry, from match `i` on, whose name (link without trailing
/// `/`) belongs to `db` and `number`.
pub open spec fn first_entry_from(
    ms: Seq<Seq<char>>,
    db: Seq<char>,
    number: Seq<char>,
    i: int,
) -> Option<Seq<char>>
    decreases ms.len() - i,
{
    if i < 0 || i >= ms.len() {
        None
    } else {
        match href_of(ms[i]) {
            Some(h) if entry_matches(strip_slash(h), db, number) => Some(strip_slash(h)),
            _ => first_entry_from(ms, db, number, i + 1),
        }
    }
}

/// The first entry of a listing's link matches that belongs to `db` and
/// `number`.
pub open spec fn first_entry(ms: Seq<Seq<char>>, db: Seq<char>, number: Seq<char>) -> Option<
    Seq<char>,
> {
    first_entry_from(ms, db, number, 0)
}

/// The link inside one match, without a trailing `/`.
pub fn entry_name(m: &str) -> (r: Option<String>)
    ensures
        match r {
            Some(n) => href_of(m@) is Some && n@ == strip_slash(href_of(m@)->Some_0),
            None => href_of(m@) is None,
        },
{
    let k = LINK_OPEN.unicode_len();
    let n = m.unicode_len();
    if !starts_with(m, LINK_OPEN) || n <= k || m.get_char(n - 1) != '"' {
        return None;
    }
    let h = m.substring_char(k, n - 1);
    let hn = h.unicode_len();
    if hn > 0 && h.get_char(hn - 1) == '/' {
        let r = slice_string(h, 0, hn - 1);
        assert(r@ =~= h@.drop_last());
        Some(r)
    } else {
        Some(String::from_str(h))
    }
}

/// Whether a directory name belongs to the namespace `db` and number `number`.
pub fn name_matches(name: &str, db: &str, number: &str) -> (r: bool)
    ensures
        r == entry_matches(name@, db@, number@),
{
    if !starts_with(name, db) {
        return false;
    }
    match index_of(name, '_') {
        None => false,
        Some(k) => {
            proof {
                lemma_find_from_bounds(name@, '_', 0);
            }
            let n = name.unicode_len();
            let rest = name.substring_char(k + 1, n);
            assert(rest@ =~= name@.skip(k + 1));
            match index_of(rest, '_') {
                Some(j) => {
                    proof {
                        lemma_find_from_bounds(rest@, '_', 0);
                    }
                    let field = rest.substring_char(0, j);
                    assert(field@ =~= rest@.take(j as int));
                    starts_with(field, number)
                },
                None => starts_with(rest, number),
            }
        },
    }
}

/// Picks, among the link matches of a listing page in page order, the first
/// entry that belongs to `db` and `number`, without its trailing `/`.
pub fn select_entry(matches: &Vec<String>, db: &str, number: &str) -> (r: Option<String>)
    ensures
        match r {
            Some(n) => first_entry(matches@.map_values(|m: String| m@), db@, number@) == Some(n@),
            None => first_entry(matches@.map_values(|m: String| m@), db@, number@) is None,
        },
{
    let ghost ms = matches@.map_values(|m: String| m@);
    let mut i: usize = 0;
    while i < matches.len()
        invariant
            i <= matches.len(),
            ms == matches@.map_values(|m: String| m@),
            first_entry(ms, db@, number@) == first_entry_from(ms, db@, number@, i as int),
        decreases matches.len() - i,
    {
        assert(ms[i as int] == matches@[i as int]@);
        match entry_name(matches[i].as_str()) {
            Some(name) => {
                if name_matches(name.as_str(), db, number) {
                    return Some(name);
                }
            },
            None => {},
        }
        i = i + 1;
    }
    None
}

/// The listing request that resolution starts with.
#[derive(Debug, Clone, PartialEq, Eq)]
pub struct ListingRequest {
    /// The accession as given.
    pub accession: String,
    /// Its namespace and number.
    pub parts: AccessionParts,
    /// The directory whose listing is to be fetched.
    pub url: String,
}

/// What the listing request brought back.
#[derive(Debug, Clone, PartialEq, Eq)]
pub enum ListingResponse {
    /// The request failed, or its body could not be read.
    Unreachable,
    /// A response with its status and its body.
    Page { status: u16, body: String },
}

/// A resolved assembly directory: its URL and its name.
#[derive(Debug, Clone, PartialEq, Eq)]
pub struct Resolved {
    pub url: String,
    pub name: String,
}

/// Starts the resolution of an accession: the listing to fetch, or
/// `MalformedAccession`, decided before any request, when the trimmed
/// accession has no `_`.
pub fn start_resolution(accession: &str) -> (r: Result<ListingRequest, ResolutionError>)
    ensures
        r is Err <==> !trimmed(accession@).contains('_'),
        r matches Err(e) ==> e is MalformedAccession,
        !accession@.contains('_') ==> r matches Err(ResolutionError::MalformedAccession),
        r matches Ok(q) ==> ({
            &&& q.accession@ == accession@
            &&& parts_of(trimmed(accession@)) == Some((q.parts.db@, q.parts.number@))
            &&& q.url@ == directory_url_of(q.parts.db@, q.parts.number@)
        }),
{
    match parse_accession(accession) {
        None => Err(ResolutionError::MalformedAccession),
        Some(parts) => {
            let url = directory_url(&parts);
            Ok(ListingRequest { accession: String::from_str(accession), parts, url })
        },
    }
}

/// The outcome of resolution for a request and the response to it: the
/// listing's own failure, or the first matching entry, or `NoMatch`.
pub open spec fn resolution_of(q: ListingRequest, resp: ListingResponse) -> Result<
    (Seq<char>, Seq<char>),
    ResolutionError,
> {
    match resp {
        ListingResponse::Unreachable => Err(ResolutionError::DirectoryUnreachable { url: q.url }),
        ListingResponse::Page { status, body } => {
            if !is_success_status(status) {
                Err(ResolutionError::DirectoryUnavailable { url: q.url, status })
            } else {
                match first_entry(pattern_matches(LINK_PATTERN@, body@), q.parts.db@, q.parts.number@) {
                    Some(name) => Ok((q.url@ + seq!['/'] + name, name)),
                    None => Err(ResolutionError::NoMatch(q.accession)),
                }
            }
        },
    }
}

/// Finishes resolution from the listing response: the directory's URL and
/// name, or the error that stopped it.
pub fn resolve_listing(request: &ListingRequest, response: &ListingResponse) -> (r: Result<
    Resolved,
    ResolutionError,
>)
    ensures
        match (r, resolution_of(*request, *response)) {
            (Ok(d), Ok((url, name))) => d.url@ == url && d.name@ == name,
            (Err(e), Err(f)) => e == f,
            _ => false,
        },
{
    match response {
        ListingResponse::Unreachable => Err(
            ResolutionError::DirectoryUnreachable { url: request.url.clone() },
        ),
        ListingResponse::Page { status, body } => {
            if !is_success(*status) {
                return Err(
                    ResolutionError::DirectoryUnavailable {
                        url: request.url.clone(),
                        status: *status,
                    },
                );
            }
            match find_all_matches(LINK_PATTERN, body.as_str()) {
                None => Err(ResolutionError::NoMatch(request.accession.clone())),
                Some(matches) => {
                    match select_entry(&matches, request.parts.db.as_str(), request.parts.number.as_str()) {
                        Some(name) => {
                            proof {
                                reveal_strlit("/");
                            }
                            let mut url = request.url.clone();
                            url.append("/");
                            url.append(name.as_str());
                            Ok(Resolved { url, name })
                        },
                        None => Err(ResolutionError::NoMatch(request.accession.clone())),
                    }
                },
            }
        },
    }
}

} // verus!
