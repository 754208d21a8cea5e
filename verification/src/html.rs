//! The web front-end's pages, built by verified concatenation.
//!
//! Every page is the fixed template around the caller's fragments, so each
//! builder's contract pins the output down to the exact character sequence.
//! Escaping is delegated to the `html_escape` crate, whose documented
//! behavior is stated exactly, character for character.

use vstd::prelude::*;

use crate::service::MergedPage;
use crate::service::MergedResult;
use vstd::string::StringSliceAdditionalSpecFns;
use vstd::utf8::encode_utf8;

verus! {

/// The escape of one character in HTML text: `&`, `<` and `>` are
/// replaced by their entities.
pub open spec fn text_escape_of_char(c: char) -> Seq<char> {
    if c == '&' {
        seq!['&', 'a', 'm', 'p', ';']
    } else if c == '<' {
        seq!['&', 'l', 't', ';']
    } else if c == '>' {
        seq!['&', 'g', 't', ';']
    } else {
        seq![c]
    }
}

/// The escape of one character in a double-quoted attribute: as in text,
/// and `"` becomes its entity.
pub open spec fn attr_escape_of_char(c: char) -> Seq<char> {
    if c == '"' {
        seq!['&', 'q', 'u', 'o', 't', ';']
    } else {
        text_escape_of_char(c)
    }
}

/// A string escaped for HTML text.
pub open spec fn text_escaped(s: Seq<char>) -> Seq<char>
    decreases s.len(),
{
    if s.len() == 0 {
        Seq::empty()
    } else {
        text_escape_of_char(s.first()) + text_escaped(s.drop_first())
    }
}

/// A string escaped for a double-quoted attribute.
pub open spec fn attr_escaped(s: Seq<char>) -> Seq<char>
    decreases s.len(),
{
    if s.len() == 0 {
        Seq::empty()
    } else {
        attr_escape_of_char(s.first()) + attr_escaped(s.drop_first())
    }
}

/// Relies on `html_escape::encode_text`: it replaces exactly `&`, `<` and
/// `>` by their entities and keeps every other character.
#[verifier::external_body]
pub(crate) fn encode_text(s: &String) -> (r: String)
    ensures
        r@ == text_escaped(s@),
{
    html_escape::encode_text(s.as_str()).to_string()
}

/// Relies on `html_escape::encode_double_quoted_attribute`: it replaces
/// exactly `&`, `<`, `>` and `"` by their entities and keeps every other
/// character.
#[verifier::external_body]
pub(crate) fn encode_double_quoted_attribute(s: &String) -> (r: String)
    ensures
        r@ == attr_escaped(s@),
{
    html_escape::encode_double_quoted_attribute(s.as_str()).to_string()
}

/// The frame every page shares, with the title and body filled in.
pub open spec fn page_text(title: Seq<char>, body: Seq<char>) -> Seq<char> {
    "<html>\n<head>\n<title>"@ + title
        + "</title>\n<meta name=\"viewport\" content=\"width=device-width, initial-scale=1.0\">\n<style>\n  body { font-family: sans-serif; margin: 0; }\n  h1 { color: #4f009f; font-weight: 300; }\n  .search > input { font-size: 1.2em; border-radius: 0.3em; padding: 0.5em; }\n  .results { max-width: 800px; color: #141414; }\n  .result-title { font-size: 1.3em; }\n  .result-text { margin-bottom: 1.4em; margin-top: 0.4em; }\n</style>\n</head>\n<body>\n"@
        + body + "\n</body>\n</html>\n"@
}

/// The search form with the query filled in, escaped.
pub open spec fn search_box_text(escaped_query: Seq<char>) -> Seq<char> {
    "<form method=\"get\" class=\"search\">\n<input name=\"q\" id=\"searchbox\" class=\"search-input\" value=\""@
        + escaped_query
        + "\">\n<input type=\"submit\" value=\"Explore\" class=\"search-button\">\n</form>\n"@
}

/// Wrap a title and a body fragment in the shared page frame.
pub fn page(title: &String, body: &String) -> (r: String)
    ensures
        r@ == page_text(title@, body@),
{
    let mut out: String = String::new();
    out.append("<html>\n<head>\n<title>");
    out.append(title.as_str());
    out.append(
        "</title>\n<meta name=\"viewport\" content=\"width=device-width, initial-scale=1.0\">\n<style>\n  body { font-family: sans-serif; margin: 0; }\n  h1 { color: #4f009f; font-weight: 300; }\n  .search > input { font-size: 1.2em; border-radius: 0.3em; padding: 0.5em; }\n  .results { max-width: 800px; color: #141414; }\n  .result-title { font-size: 1.3em; }\n  .result-text { margin-bottom: 1.4em; margin-top: 0.4em; }\n</style>\n</head>\n<body>\n",
    );
    out.append(body.as_str());
    out.append("\n</body>\n</html>\n");
    out
}

/// The search form, with the query escaped for its attribute.
pub fn search_box(search_query: &String) -> (r: String)
    ensures
        r@ == search_box_text(attr_escaped(search_query@)),
{
    let escaped: String = encode_double_quoted_attribute(search_query);
    let mut out: String = String::new();
    out.append(
        "<form method=\"get\" class=\"search\">\n<input name=\"q\" id=\"searchbox\" class=\"search-input\" value=\"",
    );
    out.append(escaped.as_str());
    out.append("\">\n<input type=\"submit\" value=\"Explore\" class=\"search-button\">\n</form>\n");
    out
}

/// The landing page's body: masthead, empty search form, description.
pub open spec fn main_body_text() -> Seq<char> {
    "<div class=\"index-page\">\n<h1 class=\"title\">DawnSearch</h1>\n<p class=\"tagline\">The open source distributed web search engine that searches by meaning</p>\n"@
        + search_box_text(attr_escaped(""@))
        + "<div class=\"description\">\n<p>DawnSearch converts your query into a location in a 384-dimensional space and looks for the pages closest to it, on this node and on its peers.</p>\n</div>\n</div>\n"@
}

/// The landing page.
pub fn main_page() -> (r: String)
    ensures
        r@ == page_text("DawnSearch"@, main_body_text()),
{
    let mut body: String = String::new();
    body.append(
        "<div class=\"index-page\">\n<h1 class=\"title\">DawnSearch</h1>\n<p class=\"tagline\">The open source distributed web search engine that searches by meaning</p>\n",
    );
    let empty: String = String::new();
    let sb: String = search_box(&empty);
    body.append(sb.as_str());
    body.append(
        "<div class=\"description\">\n<p>DawnSearch converts your query into a location in a 384-dimensional space and looks for the pages closest to it, on this node and on its peers.</p>\n</div>\n</div>\n",
    );
    proof {
        reveal_strlit("");
        assert(attr_escaped(""@) =~= attr_escaped(Seq::<char>::empty()));
        assert(body@ =~= main_body_text());
    }
    let title: String = String::from_str("DawnSearch");
    page(&title, &body)
}

/// The result page's body: masthead, the form with the query kept, and the
/// caller's formatted results.
pub open spec fn results_body_text(escaped_query: Seq<char>, results: Seq<char>) -> Seq<char> {
    "<div class=\"top-search\">\n<h1 class=\"small\"><a href=\"/\">DawnSearch</a></h1>\n"@
        + search_box_text(escaped_query) + "</div>\n<div class=\"results\">\n"@ + results
        + "</div>\n"@
}

/// The page shown for a search: the query stays in the form and in the
/// title, and the formatted results fill the body.
pub fn results_page(search_query: &String, results: &String) -> (r: String)
    ensures
        r@ == page_text(
            search_query@ + " - DawnSearch"@,
            results_body_text(attr_escaped(search_query@), results@),
        ),
{
    let mut title: String = search_query.clone();
    title.append(" - DawnSearch");
    let mut body: String = String::new();
    body.append(
        "<div class=\"top-search\">\n<h1 class=\"small\"><a href=\"/\">DawnSearch</a></h1>\n",
    );
    let sb: String = search_box(search_query);
    body.append(sb.as_str());
    body.append("</div>\n<div class=\"results\">\n");
    body.append(results.as_str());
    body.append("</div>\n");
    page(&title, &body)
}

/// The character for one decimal digit.
pub open spec fn digit_char(d: int) -> char {
    if d == 0 {
        '0'
    } else if d == 1 {
        '1'
    } else if d == 2 {
        '2'
    } else if d == 3 {
        '3'
    } else if d == 4 {
        '4'
    } else if d == 5 {
        '5'
    } else if d == 6 {
        '6'
    } else if d == 7 {
        '7'
    } else if d == 8 {
        '8'
    } else {
        '9'
    }
}

/// The decimal digits of a positive number, most significant first.
pub open spec fn dec_digits(n: int) -> Seq<char>
    decreases n,
{
    if n <= 0 {
        Seq::empty()
    } else {
        dec_digits(n / 10).push(digit_char(n % 10))
    }
}

/// A number printed in decimal.
pub open spec fn decimal(n: int) -> Seq<char> {
    if n == 0 {
        seq!['0']
    } else {
        dec_digits(n)
    }
}

/// Print a number in decimal.
pub fn u64_to_decimal(n: u64) -> (r: String)
    ensures
        r@ == decimal(n as int),
{
    proof {
        reveal_strlit("0");
        reveal_strlit("1");
        reveal_strlit("2");
        reveal_strlit("3");
        reveal_strlit("4");
        reveal_strlit("5");
        reveal_strlit("6");
        reveal_strlit("7");
        reveal_strlit("8");
        reveal_strlit("9");
    }
    if n == 0 {
        let r: String = String::from_str("0");
        proof {
            assert(r@ =~= seq!['0']);
        }
        return r;
    }
    let mut digits: Vec<u64> = Vec::new();
    let mut m: u64 = n;
    while m > 0
        invariant
            dec_digits(n as int) =~= dec_digits(m as int) + Seq::new(
                digits@.len(),
                |t: int| digit_char(digits@[digits@.len() - 1 - t] as int),
            ),
            forall|t: int| 0 <= t < digits@.len() ==> #[trigger] digits@[t] < 10,
        decreases m,
    {
        let d: u64 = m % 10;
        digits.push(d);
        proof {
            vstd::arithmetic::div_mod::lemma_fundamental_div_mod(m as int, 10);
            assert(m as int / 10 < m as int) by (nonlinear_arith)
                requires
                    m >= 1,
            ;
            assert(dec_digits(m as int) == dec_digits(m as int / 10).push(
                digit_char(m as int % 10),
            ));
            assert(dec_digits(n as int) =~= dec_digits((m / 10) as int) + Seq::new(
                digits@.len(),
                |t: int| digit_char(digits@[digits@.len() - 1 - t] as int),
            ));
        }
        m = m / 10;
    }
    let count: usize = digits.len();
    let mut out: String = String::new();
    let mut k: usize = 0;
    while k < count
        invariant
            count == digits@.len(),
            k <= count,
            forall|t: int| 0 <= t < digits@.len() ==> #[trigger] digits@[t] < 10,
            out@ =~= Seq::new(k as nat, |t: int| digit_char(digits@[digits@.len() - 1 - t] as int)),
        decreases count - k,
    {
        proof {
            reveal_strlit("0");
            reveal_strlit("1");
            reveal_strlit("2");
            reveal_strlit("3");
            reveal_strlit("4");
            reveal_strlit("5");
            reveal_strlit("6");
            reveal_strlit("7");
            reveal_strlit("8");
            reveal_strlit("9");
        }
        let d: u64 = digits[count - 1 - k];
        if d == 0 {
            out.append("0");
        } else if d == 1 {
            out.append("1");
        } else if d == 2 {
            out.append("2");
        } else if d == 3 {
            out.append("3");
        } else if d == 4 {
            out.append("4");
        } else if d == 5 {
            out.append("5");
        } else if d == 6 {
            out.append("6");
        } else if d == 7 {
            out.append("7");
        } else if d == 8 {
            out.append("8");
        } else {
            out.append("9");
        }
        proof {
            assert(out@ =~= Seq::new(
                (k + 1) as nat,
                |t: int| digit_char(digits@[digits@.len() - 1 - t] as int),
            ));
        }
        k = k + 1;
    }
    proof {
        assert(dec_digits(0int) =~= Seq::<char>::empty());
        assert(out@ =~= dec_digits(n as int));
    }
    out
}

/// A result page's snippet: the text cut to its longest character
/// boundary within 400 bytes.
pub open spec fn snippet_text(text: Seq<char>) -> Seq<char> {
    let bs = encode_utf8(text);
    if bs.len() <= 400 {
        text
    } else {
        vstd::utf8::decode_utf8(bs.subrange(0, crate::util::boundary_at_or_below(bs, 400)))
    }
}

/// One formatted result row, every interpolated field escaped.
pub open spec fn result_row_text(p: MergedPage) -> Seq<char> {
    "<div class=\"result\">\n<div class=\"result-top\">"@ + decimal(p.distance as int)
        + " <a href=\"?s="@ + attr_escaped(p.instance_id@) + ":"@ + decimal(p.page_id as int)
        + "\" title=\"Find pages like this one\" class=\"result-explore\">explore</a> <i class=\"result-url\">"@
        + text_escaped(p.url@) + "</i></div>\n<div class=\"result-title\"><a href=\""@
        + attr_escaped(p.url@) + "\">"@ + text_escaped(p.title@)
        + "</a></div>\n<div class=\"result-text\">"@ + text_escaped(snippet_text(p.text@))
        + "...</div>\n</div>\n"@
}

/// The formatted rows of a result list.
pub open spec fn result_rows_text(pages: Seq<MergedPage>) -> Seq<char>
    decreases pages.len(),
{
    if pages.len() == 0 {
        Seq::empty()
    } else {
        result_rows_text(pages.drop_last()) + result_row_text(pages.last())
    }
}

/// The whole formatted result list: the counts, then one row per page.
pub open spec fn results_text(r: MergedResult) -> Seq<char> {
    "<p>Searched "@ + decimal(r.pages_searched as int) + " pages on "@ + decimal(
        if r.servers_contacted == u64::MAX {
            r.servers_contacted as int
        } else {
            r.servers_contacted + 1
        },
    ) + " instances</p>\n"@ + result_rows_text(r.pages@)
}

/// Format a merged search result for the results page.  Every field that
/// came from a page — local or remote — is escaped before it reaches the
/// markup; the snippet is cut to 400 bytes.
#[verifier::rlimit(100)]
#[verifier::spinoff_prover]
pub fn format_results(result: &MergedResult) -> (r: String)
    ensures
        r@ == results_text(*result),
{
    let mut out: String = String::new();
    out.append("<p>Searched ");
    let ps: String = u64_to_decimal(result.pages_searched);
    out.append(ps.as_str());
    out.append(" pages on ");
    let instances: u64 = if result.servers_contacted == u64::MAX {
        result.servers_contacted
    } else {
        result.servers_contacted + 1
    };
    let inst: String = u64_to_decimal(instances);
    out.append(inst.as_str());
    out.append(" instances</p>\n");
    let n: usize = result.pages.len();
    let mut i: usize = 0;
    while i < n
        invariant
            n == result.pages@.len(),
            i <= n,
            out@ =~= "<p>Searched "@ + decimal(result.pages_searched as int) + " pages on "@
                + decimal(
                if result.servers_contacted == u64::MAX {
                    result.servers_contacted as int
                } else {
                    result.servers_contacted + 1
                },
            ) + " instances</p>\n"@ + result_rows_text(result.pages@.take(i as int)),
        decreases n - i,
    {
        let ghost row_base = out@;
        let page: &MergedPage = &result.pages[i];
        out.append("<div class=\"result\">\n<div class=\"result-top\">");
        let dist: String = u64_to_decimal(page.distance);
        out.append(dist.as_str());
        out.append(" <a href=\"?s=");
        let inst_esc: String = encode_double_quoted_attribute(&page.instance_id);
        out.append(inst_esc.as_str());
        out.append(":");
        let pid: String = u64_to_decimal(page.page_id);
        out.append(pid.as_str());
        out.append(
            "\" title=\"Find pages like this one\" class=\"result-explore\">explore</a> <i class=\"result-url\">",
        );
        let url_text: String = encode_text(&page.url);
        out.append(url_text.as_str());
        out.append("</i></div>\n<div class=\"result-title\"><a href=\"");
        let url_attr: String = encode_double_quoted_attribute(&page.url);
        out.append(url_attr.as_str());
        out.append("\">");
        let title_text: String = encode_text(&page.title);
        out.append(title_text.as_str());
        out.append("</a></div>\n<div class=\"result-text\">");
        let snippet: String = crate::util::slice_up_to(page.text.as_str(), 400).to_owned();
        proof {
            broadcast use vstd::utf8::encode_utf8_decode_utf8, vstd::utf8::encode_utf8_valid_utf8;

            crate::util::lemma_boundary_at_or_below(encode_utf8(page.text@), 400);
            if encode_utf8(page.text@).len() <= 400 {
                assert(snippet@ == snippet_text(page.text@));
            } else {
                assert(encode_utf8(snippet@) =~= encode_utf8(page.text@).subrange(
                    0,
                    crate::util::boundary_at_or_below(encode_utf8(page.text@), 400),
                ));
                assert(vstd::utf8::decode_utf8(encode_utf8(snippet@)) == snippet@);
                assert(snippet@ == snippet_text(page.text@));
            }
        }
        let snip_esc: String = encode_text(&snippet);
        out.append(snip_esc.as_str());
        out.append("...</div>\n</div>\n");
        proof {
            assert(result.pages@.take(i + 1).drop_last() =~= result.pages@.take(i as int));
            assert(result.pages@.take(i + 1).last() == result.pages@[i as int]);
            assert(out@ =~= row_base + result_row_text(result.pages@[i as int]));
            assert(out@ =~= "<p>Searched "@ + decimal(result.pages_searched as int)
                + " pages on "@ + decimal(
                if result.servers_contacted == u64::MAX {
                    result.servers_contacted as int
                } else {
                    result.servers_contacted + 1
                },
            ) + " instances</p>\n"@ + result_rows_text(result.pages@.take(i + 1)));
        }
        i = i + 1;
    }
    proof {
        assert(result.pages@.take(n as int) =~= result.pages@);
        assert(out@ =~= results_text(*result));
    }
    out
}

} // verus!
