//! The web fetch tool: the text of a page.
use vstd::prelude::*;
use crate::error::{ErrorView, FrameworkError};
use crate::error;
use crate::text;
use crate::tools::common::parse_simple_text_arg;
use crate::tools::common;

verus! {

/// The settings of the tool.
#[derive(Debug, PartialEq, Eq)]
pub struct WebFetchToolConfig {
    pub timeout_seconds: Option<u64>,
    pub max_chars: Option<u32>,
}

impl Default for WebFetchToolConfig {
    fn default() -> (r: Self)
        ensures
            r.timeout_seconds is None && r.max_chars is None,
    {
        WebFetchToolConfig { timeout_seconds: None, max_chars: None }
    }
}

/// The web fetch tool, with its settings.
#[derive(Debug, PartialEq, Eq)]
pub struct WebFetchTool {
    pub config: WebFetchToolConfig,
}

impl WebFetchTool {
    /// What the tool is called.
    pub fn name(&self) -> (r: &'static str)
        ensures
            r@ == "web_fetch"@,
    {
        "web_fetch"
    }

    /// What the tool is for.
    pub fn description(&self) -> (r: &'static str)
        ensures
            r@ == "Fetch URL content using JSON: {url}"@,
    {
        "Fetch URL content using JSON: {url}"
    }

    /// What arguments the tool takes.
    pub fn input_schema_json(&self) -> (r: &'static str)
        ensures
            r@ == "{\"type\":\"object\",\"properties\":{\"url\":{\"type\":\"string\"}},\"required\":[\"url\"]}"@,
    {
        "{\"type\":\"object\",\"properties\":{\"url\":{\"type\":\"string\"}},\"required\":[\"url\"]}"
    }

    /// The address that is fetched.
    pub fn url(&self, args_json: &str) -> (r: Result<String, FrameworkError>)
        ensures
            error::text_result(r) == fetched_url(
                common::simple_text(common::document_of(args_json@), args_json@),
            ),
    {
        let given = parse_simple_text_arg(args_json);
        checked_url(given.as_str())
    }

    /// How many seconds a step of the fetch may take.
    pub fn timeout_seconds(&self) -> (r: u64)
        ensures
            r == match self.config.timeout_seconds {
                Some(seconds) => seconds,
                None => 20,
            },
    {
        match self.config.timeout_seconds {
            Some(seconds) => seconds,
            None => 20,
        }
    }

    /// How many characters are shown.
    pub fn max_chars(&self) -> (r: usize)
        ensures
            r == match self.config.max_chars {
                Some(max_chars) => max_chars as usize,
                None => 8000,
            },
    {
        match self.config.max_chars {
            Some(max_chars) => max_chars as usize,
            None => 8000,
        }
    }
}

/// The address that is fetched: there must be one.
pub open spec fn fetched_url(given: Seq<char>) -> Result<Seq<char>, ErrorView> {
    if text::trim(given).len() == 0 {
        Err(ErrorView::Tool("fetch requires a non-empty url"@))
    } else {
        Ok(text::trim(given))
    }
}

/// The address that is fetched: there must be one.
pub fn checked_url(given: &str) -> (r: Result<String, FrameworkError>)
    ensures
        error::text_result(r) == fetched_url(given@),
{
    let url = text::trimmed(given);
    if url.as_str().is_empty() {
        return Err(error::tool_error("fetch requires a non-empty url"));
    }
    Ok(url)
}

/// What a request says of the program that sends it.
pub fn fetch_headers() -> (r: Vec<(String, String)>)
    ensures
        r@.len() == 3,
        (r@[0].0@, r@[0].1@) == (
            "user-agent"@,
            "Mozilla/5.0 (Macintosh; Intel Mac OS X 10_15_7) AppleWebKit/537.36 (KHTML, like Gecko) Chrome/134.0.0.0 Safari/537.36"@,
        ),
        (r@[1].0@, r@[1].1@) == (
            "accept"@,
            "text/html,application/xhtml+xml,application/xml;q=0.9,*/*;q=0.8"@,
        ),
        (r@[2].0@, r@[2].1@) == ("accept-language"@, "en-US,en;q=0.9"@),
{
    vec![
        (
            "user-agent".to_owned(),
            "Mozilla/5.0 (Macintosh; Intel Mac OS X 10_15_7) AppleWebKit/537.36 (KHTML, like Gecko) Chrome/134.0.0.0 Safari/537.36".to_owned(),
        ),
        (
            "accept".to_owned(),
            "text/html,application/xhtml+xml,application/xml;q=0.9,*/*;q=0.8".to_owned(),
        ),
        ("accept-language".to_owned(), "en-US,en;q=0.9".to_owned()),
    ]
}

/// The elements of a page that hold what it says.
pub const PAGE_TEXT_SELECTOR: &'static str = "body";

/// The pieces of text that `scraper` finds in the elements of a page: those of `ElementRef::text`
/// for each element that `Html::select` gives with a selector; or the message of the error of
/// `Selector::parse`.
pub uninterp spec fn element_texts(page: Seq<char>, selector: Seq<char>) -> Result<
    Seq<Seq<char>>,
    Seq<char>,
>;

/// Whether a selector is nothing but the name of an element, in small letters.
pub open spec fn names_element(selector: Seq<char>) -> bool {
    &&& selector.len() > 0
    &&& forall|i: int| 0 <= i < selector.len() ==> 'a' <= #[trigger] selector[i] <= 'z'
}

/// What pieces of text read.
pub open spec fn pieces_result(r: Result<Vec<String>, String>) -> Result<Seq<Seq<char>>, Seq<char>> {
    match r {
        Ok(pieces) => Ok(text::views(pieces@)),
        Err(message) => Err(message@),
    }
}

/// `scraper::Html::parse_document`, `scraper::Html::select` with `scraper::Selector::parse`, and
/// `scraper::ElementRef::text`.  The pieces of text in the elements of a page depend on the page
/// and the selector alone, and are named.  A selector that nests without bound is not parsed in
/// bounded space, so it is the name of an element.
#[verifier::external_body]
fn texts_in(page: &str, selector: &str) -> (r: Result<Vec<String>, String>)
    requires
        names_element(selector@),
    ensures
        pieces_result(r) == element_texts(page@, selector@),
{
    let document = scraper::Html::parse_document(page);
    let selector = scraper::Selector::parse(selector).map_err(|e| e.to_string())?;
    Ok(document.select(&selector).flat_map(|node| node.text()).map(|s| s.to_owned()).collect())
}

/// Pieces of text that say something, without the space around them.
pub open spec fn filled_pieces(pieces: Seq<Seq<char>>) -> Seq<Seq<char>>
    decreases pieces.len(),
{
    if pieces.len() == 0 {
        Seq::empty()
    } else {
        let before = filled_pieces(pieces.drop_last());
        let piece = text::trim(pieces.last());
        if piece.len() == 0 {
            before
        } else {
            before.push(piece)
        }
    }
}

/// A page as it is shown: its pieces of text, with a space between them.
pub open spec fn shown_page(
    pieces: Result<Seq<Seq<char>>, Seq<char>>,
    max_chars: int,
) -> Result<Seq<char>, ErrorView> {
    match pieces {
        Ok(pieces) => Ok(text::clip(text::join(filled_pieces(pieces), " "@), max_chars)),
        Err(message) => Err(ErrorView::Tool("html selector parse failed: "@ + message)),
    }
}

/// A page as it is shown, given its pieces of text.
pub fn render_page(pieces: Result<Vec<String>, String>, max_chars: usize) -> (r: Result<
    String,
    FrameworkError,
>)
    ensures
        error::text_result(r) == shown_page(pieces_result(pieces), max_chars as int),
{
    let pieces = match pieces {
        Ok(pieces) => pieces,
        Err(message) => {
            return Err(
                FrameworkError::Tool(
                    text::concat2("html selector parse failed: ", message.as_str()),
                ),
            );
        },
    };
    let ghost all = text::views(pieces@);
    let mut kept: Vec<String> = Vec::new();
    let mut i: usize = 0;
    assert(all.take(0) =~= Seq::<Seq<char>>::empty());
    assert(text::views(kept@) =~= Seq::<Seq<char>>::empty());
    while i < pieces.len()
        invariant
            i <= pieces@.len(),
            all == text::views(pieces@),
            text::views(kept@) == filled_pieces(all.take(i as int)),
        decreases pieces@.len() - i,
    {
        let ghost before = text::views(kept@);
        proof {
            assert(all.take(i + 1).drop_last() =~= all.take(i as int));
            assert(all.take(i + 1).last() == pieces@[i as int]@);
        }
        let piece = text::trimmed(pieces[i].as_str());
        if !piece.as_str().is_empty() {
            let ghost added = piece@;
            kept.push(piece);
            assert(text::views(kept@) =~= before.push(added));
        }
        i = i + 1;
    }
    assert(all.take(all.len() as int) =~= all);
    let whole = text::joined(&kept, " ");
    Ok(text::clipped(whole.as_str(), max_chars))
}

/// Whether a body is a page.
pub open spec fn is_page(body: Seq<char>) -> bool {
    text::contains(body, "<html"@) || text::contains(body, "<body"@)
}

/// What a fetch answers to a response: the text of a page, or else the body.
pub open spec fn fetch_result(
    url: Seq<char>,
    status_code: u16,
    body: Seq<char>,
    max_chars: int,
) -> Result<Seq<char>, ErrorView> {
    if !(200 <= status_code < 300) {
        Err(
            ErrorView::Tool(
                "fetch response error: status="@ + text::decimal(status_code as nat) + " url="@
                    + url,
            ),
        )
    } else if is_page(body) {
        shown_page(element_texts(body, PAGE_TEXT_SELECTOR@), max_chars)
    } else {
        Ok(text::clip(body, max_chars))
    }
}

/// What a fetch answers to a response: the text of a page, or else the body.
pub fn render_fetch_response(url: &str, status_code: u16, body: &str, max_chars: usize) -> (r: Result<
    String,
    FrameworkError,
>)
    ensures
        error::text_result(r) == fetch_result(url@, status_code, body@, max_chars as int),
{
    if status_code < 200 || status_code >= 300 {
        let head = text::concat2(
            "fetch response error: status=",
            text::decimal_of(status_code as u64).as_str(),
        );
        return Err(FrameworkError::Tool(text::concat3(head.as_str(), " url=", url)));
    }
    if text::has_text(body, "<html") || text::has_text(body, "<body") {
        proof {
            reveal_strlit("body");
        }
        return render_page(texts_in(body, PAGE_TEXT_SELECTOR), max_chars);
    }
    Ok(text::clipped(body, max_chars))
}

/// What a fetch answers that takes too long.
pub fn timed_out(timeout_seconds: u64) -> (r: FrameworkError)
    ensures
        r@ == ErrorView::Tool(
            "fetch timed out after "@ + text::decimal(timeout_seconds as nat) + "s"@,
        ),
{
    FrameworkError::Tool(
        text::concat3("fetch timed out after ", text::decimal_of(timeout_seconds).as_str(), "s"),
    )
}

/// What a fetch answers that failed at a step: the step is one of `client build`, `request` and
/// `body read`.
pub fn fetch_failed(step: &str, message: &str) -> (r: FrameworkError)
    ensures
        r@ == ErrorView::Tool("fetch "@ + step@ + " failed: "@ + message@),
{
    let head = text::concat3("fetch ", step, " failed: ");
    FrameworkError::Tool(text::concat2(head.as_str(), message))
}

/// What is fetched is never shown at greater length than asked for.
pub proof fn law_fetched_texts_are_bounded(
    url: Seq<char>,
    status_code: u16,
    body: Seq<char>,
    max_chars: int,
)
    requires
        max_chars >= 0,
    ensures
        match fetch_result(url, status_code, body, max_chars) {
            Ok(shown) => shown.len() <= max_chars,
            Err(_) => true,
        },
{
}

/// A page that came is shown, and one that did not come is an error that names status and address.
pub proof fn law_pages_that_came_are_shown(
    url: Seq<char>,
    status_code: u16,
    body: Seq<char>,
    max_chars: int,
)
    requires
        0 <= max_chars,
    ensures
        status_code < 200 || status_code >= 300 ==> fetch_result(url, status_code, body, max_chars)
            == Err::<Seq<char>, ErrorView>(
            ErrorView::Tool(
                "fetch response error: status="@ + text::decimal(status_code as nat) + " url="@
                    + url,
            ),
        ),
        200 <= status_code < 300 && !text::contains(body, "<html"@) && !text::contains(
            body,
            "<body"@,
        ) && body.len() <= max_chars ==> fetch_result(url, status_code, body, max_chars) == Ok::<
            Seq<char>,
            ErrorView,
        >(body),
        200 <= status_code < 300 && !text::contains(body, "<html"@) && !text::contains(
            body,
            "<body"@,
        ) && body.len() > max_chars ==> fetch_result(url, status_code, body, max_chars) == Ok::<
            Seq<char>,
            ErrorView,
        >(body.take(max_chars)),
        200 <= status_code < 300 && (text::contains(body, "<html"@) || text::contains(
            body,
            "<body"@,
        )) ==> match element_texts(body, "body"@) {
            Ok(pieces) => fetch_result(url, status_code, body, max_chars) == Ok::<
                Seq<char>,
                ErrorView,
            >(text::clip(text::join(filled_pieces(pieces), " "@), max_chars)),
            Err(_) => fetch_result(url, status_code, body, max_chars) is Err,
        },
{
}

/// The texts of a page are shown in their order, without the white space around each, and none is
/// left out but those that say nothing.
pub proof fn law_texts_of_a_page_are_kept(first: Seq<Seq<char>>, second: Seq<Seq<char>>)
    ensures
        filled_pieces(first + second) == filled_pieces(first) + filled_pieces(second),
        first.len() == 1 ==> filled_pieces(first) == if text::is_blank(first[0]) {
            Seq::empty()
        } else {
            seq![text::trim(first[0])]
        },
    decreases second.len(),
{
    reveal_with_fuel(filled_pieces, 2);
    if second.len() == 0 {
        assert(first + second =~= first);
        assert(filled_pieces(first) + filled_pieces(second) =~= filled_pieces(first));
    } else {
        law_texts_of_a_page_are_kept(first, second.drop_last());
        assert((first + second).drop_last() =~= first + second.drop_last());
        assert(filled_pieces(first + second) =~= filled_pieces(first) + filled_pieces(second));
    }
}

/// Any address that says something is fetched, without the white space around it.
pub proof fn law_addresses_are_fetched_as_given(given: Seq<char>)
    ensures
        text::is_blank(given) ==> fetched_url(given) is Err,
        !text::is_blank(given) ==> fetched_url(given) == Ok::<Seq<char>, ErrorView>(
            text::trim(given),
        ),
{
}

} // verus!
