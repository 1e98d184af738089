use vstd::prelude::*;
use crate::repository::{into_repositories, to_repository, Repository, RepositoryWithStars, SearchResult};

verus! {

/// The search that every page request repeats.
pub const BASE_URL: &'static str = "https://api.github.com/search/repositories?q=nvim+plugin";

/// The client name sent with every request; the API refuses requests without one.
pub const USER_AGENT: &'static str = "Rust reqwest";

/// How many pages one run of the pipeline fetches.
pub const PAGE_COUNT: u32 = 4;

/// How many items each page asks for.
pub const PER_PAGE: u32 = 100;

/// Why one page contributes nothing.
#[derive(PartialEq, Eq, Structural, Debug, Clone, Copy)]
pub enum PageError {
    /// The request could not be sent or its body could not be read.
    Transport,
    /// The server answered with a status outside the success range.
    Status(u16),
    /// The body is not a page of search results.
    Parse,
    /// The page holds no items.
    Empty,
}

pub open spec fn digit_char(d: nat) -> char {
    if d == 0 { '0' }
    else if d == 1 { '1' }
    else if d == 2 { '2' }
    else if d == 3 { '3' }
    else if d == 4 { '4' }
    else if d == 5 { '5' }
    else if d == 6 { '6' }
    else if d == 7 { '7' }
    else if d == 8 { '8' }
    else { '9' }
}

/// The decimal digits of `n`, most significant first, without leading zeros.
pub open spec fn decimal(n: nat) -> Seq<char>
    decreases n,
{
    if n < 10 {
        seq![digit_char(n)]
    } else {
        decimal(n / 10).push(digit_char(n % 10))
    }
}

/// The address of page `page` of the search.
pub open spec fn page_url_spec(page: nat) -> Seq<char> {
    BASE_URL@ + "&per_page="@ + decimal(PER_PAGE as nat) + "&page="@ + decimal(page)
}

/// Whether a status code lies in the success range 200 to 299, the rule of
/// `http::StatusCode::is_success`.
pub open spec fn success_status(status: u16) -> bool {
    200 <= status < 300
}

/// The outcome owed for a page body that was read and parsed.
pub open spec fn page_outcome(items: Seq<RepositoryWithStars>) -> Result<Seq<Repository>, PageError> {
    if items.len() == 0 {
        Err(PageError::Empty)
    } else {
        Ok(items.map_values(|i: RepositoryWithStars| to_repository(i)))
    }
}

fn digit_str(d: u32) -> (r: &'static str)
    requires
        d < 10,
    ensures
        r@ == seq![digit_char(d as nat)],
{
    if d == 0 {
        proof { reveal_strlit("0"); }
        "0"
    } else if d == 1 {
        proof { reveal_strlit("1"); }
        "1"
    } else if d == 2 {
        proof { reveal_strlit("2"); }
        "2"
    } else if d == 3 {
        proof { reveal_strlit("3"); }
        "3"
    } else if d == 4 {
        proof { reveal_strlit("4"); }
        "4"
    } else if d == 5 {
        proof { reveal_strlit("5"); }
        "5"
    } else if d == 6 {
        proof { reveal_strlit("6"); }
        "6"
    } else if d == 7 {
        proof { reveal_strlit("7"); }
        "7"
    } else if d == 8 {
        proof { reveal_strlit("8"); }
        "8"
    } else {
        proof { reveal_strlit("9"); }
        "9"
    }
}

/// Appends the decimal digits of `n` to `s`.
pub fn push_decimal(s: &mut String, n: u32)
    ensures
        final(s)@ == old(s)@ + decimal(n as nat),
    decreases n,
{
    if n >= 10 {
        push_decimal(s, n / 10);
    }
    s.append(digit_str(n % 10));
    proof {
        if n >= 10 {
            assert(decimal(n as nat) == decimal((n / 10) as nat).push(digit_char((n % 10) as nat)));
        }
    }
    assert(final(s)@ =~= old(s)@ + decimal(n as nat));
}

/// The address of page `page` of the search: the base query, the page size
/// and the page number.
pub fn page_url(page: u32) -> (r: String)
    ensures
        r@ == page_url_spec(page as nat),
{
    let mut s = String::from_str(BASE_URL);
    s.append("&per_page=");
    push_decimal(&mut s, PER_PAGE);
    s.append("&page=");
    push_decimal(&mut s, page);
    s
}

/// The addresses of all pages, page 1 first.
pub fn page_urls() -> (r: Vec<String>)
    ensures
        r@.len() == PAGE_COUNT,
        forall|i: int| 0 <= i < r@.len() ==> #[trigger] r@[i]@ == page_url_spec((i + 1) as nat),
{
    let mut out: Vec<String> = Vec::new();
    let mut page: u32 = 1;
    while page <= PAGE_COUNT
        invariant
            1 <= page <= PAGE_COUNT + 1,
            out@.len() == page - 1,
            forall|i: int| 0 <= i < out@.len() ==> #[trigger] out@[i]@ == page_url_spec((i + 1) as nat),
        decreases PAGE_COUNT + 1 - page,
    {
        out.push(page_url(page));
        page = page + 1;
    }
    out
}

/// Whether `status` is a success status (200 to 299).
pub fn is_success(status: u16) -> (r: bool)
    ensures
        r == success_status(status),
{
    200 <= status && status < 300
}

/// A page whose response has a status outside the success range fails with
/// that status; any other goes on to have its body read.
pub fn check_status(status: u16) -> (r: Result<(), PageError>)
    ensures
        success_status(status) ==> r == Ok::<(), PageError>(()),
        !success_status(status) ==> r == Err::<(), PageError>(PageError::Status(status)),
{
    if is_success(status) {
        Ok(())
    } else {
        Err(PageError::Status(status))
    }
}

/// The repositories of a parsed page, in the page's order; a page with no
/// items is a failure.
pub fn page_repositories(result: SearchResult) -> (r: Result<Vec<Repository>, PageError>)
    ensures
        match (r, page_outcome(result.items@)) {
            (Ok(v), Ok(s)) => v@ == s,
            (Err(e), Err(f)) => e == f,
            _ => false,
        },
{
    if result.items.len() == 0 {
        Err(PageError::Empty)
    } else {
        Ok(into_repositories(result.items))
    }
}

} // verus!
