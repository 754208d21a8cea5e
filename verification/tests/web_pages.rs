use dawnsearch::html::{format_results, main_page, page, results_page, search_box, u64_to_decimal};
use dawnsearch::service::{MergedPage, MergedResult};
use dawnsearch::util::slice_up_to;

#[test]
fn escaping_rewrites_special_characters() {
    let r = search_box(&String::from("say \"hi\" & <go>"));
    assert!(r.contains("value=\"say &quot;hi&quot; &amp; &lt;go&gt;\""));
}

#[test]
fn page_wraps_title_and_body() {
    let r = page(&String::from("My Title"), &String::from("BODY-HERE"));
    assert!(r.starts_with("<html>\n<head>\n<title>My Title</title>"));
    assert!(r.contains("BODY-HERE"));
    assert!(r.ends_with("</body>\n</html>\n"));
}

#[test]
fn search_box_escapes_the_query() {
    let r = search_box(&String::from("a\"b"));
    assert!(r.contains("value=\"a&quot;b\""));
}

#[test]
fn main_page_has_the_masthead_and_empty_form() {
    let r = main_page();
    assert!(r.contains("<title>DawnSearch</title>"));
    assert!(r.contains("value=\"\""));
}

#[test]
fn results_page_keeps_the_query() {
    let r = results_page(&String::from("fruit"), &String::from("<div>r1</div>"));
    assert!(r.contains("<title>fruit - DawnSearch</title>"));
    assert!(r.contains("value=\"fruit\""));
    assert!(r.contains("<div>r1</div>"));
}

#[test]
fn decimal_printing_is_exact() {
    assert_eq!(u64_to_decimal(0), "0");
    assert_eq!(u64_to_decimal(7), "7");
    assert_eq!(u64_to_decimal(90210), "90210");
    assert_eq!(u64_to_decimal(u64::MAX), "18446744073709551615");
}

#[test]
fn formatted_results_escape_remote_fields() {
    let result = MergedResult {
        pages: vec![MergedPage {
            instance_id: String::from("peer1"),
            page_id: 3,
            distance: 42,
            url: String::from("https://e.org/?a=1&b=2"),
            title: String::from("<script>alert(1)</script>"),
            text: String::from("x < y & y > z"),
        }],
        pages_searched: 12,
        servers_contacted: 1,
    };
    let html = format_results(&result);
    assert!(html.contains("<p>Searched 12 pages on 2 instances</p>"));
    assert!(html.contains("?s=peer1:3"));
    // the raw title must not appear; its escape must
    assert!(!html.contains("<script>alert(1)</script>"));
    assert!(html.contains("&lt;script&gt;alert(1)&lt;/script&gt;"));
    assert!(html.contains("x &lt; y &amp; y &gt; z"));
    assert!(html.contains("https://e.org/?a=1&amp;b=2"));
}

#[test]
fn slice_up_to_respects_character_boundaries() {
    assert_eq!(slice_up_to("hello", 10), "hello");
    assert_eq!(slice_up_to("hello", 3), "hel");
    // the e-acute takes two bytes; cutting inside it backs up
    let s = "ab\u{e9}cd";
    assert_eq!(slice_up_to(s, 3), "ab");
    assert_eq!(slice_up_to(s, 4), "ab\u{e9}");
    assert_eq!(slice_up_to(s, 0), "");
}
