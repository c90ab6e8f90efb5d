use i3_controller::devtools::{choose_web_url, chromium_debug_urls, unescape_json_string};

#[test]
fn escapes_are_turned_back() {
    assert_eq!(
        unescape_json_string(r#"https:\/\/a.b\/\"q\"\\"#),
        "https://a.b/\"q\"\\"
    );
    assert_eq!(unescape_json_string("plain"), "plain");
    assert_eq!(unescape_json_string(r"\\\/"), r"\/");
    assert_eq!(unescape_json_string(r"\\/"), r"\/");
}

#[test]
fn pages_are_sorted_and_named_once() {
    let response = r#"HTTP/1.1 200 OK

[ {
   "title": "b",
   "url": "https://b.test/",
   "webSocketDebuggerUrl": "ws://127.0.0.1:9222/x"
}, {
   "url" :  "http:\/\/a.test\/"
}, {
   "url": "chrome://newtab/"
}, {
   "url": null, "x": "url"
}, {
   "url": "https://b.test/"
}, {
   "url": "https://b.test/z"
} ]"#;
    assert_eq!(
        chromium_debug_urls(response),
        vec!["http://a.test/", "https://b.test/", "https://b.test/z"]
    );
}

#[test]
fn the_order_is_that_of_std() {
    let urls = [
        "https://z", "https://a", "http://\u{e9}", "http://z", "https://aa", "https://a",
        "http://\u{1f600}", "https://", "http://A",
    ];
    let response: String = urls.iter().map(|url| format!("\"url\":\"{url}\",")).collect();
    let mut expected = urls.to_vec();
    expected.sort();
    expected.dedup();
    assert_eq!(chromium_debug_urls(&response), expected);
}

#[test]
fn a_response_that_is_cut_off_gives_what_it_has() {
    assert!(chromium_debug_urls("").is_empty());
    assert!(chromium_debug_urls("\"url\"").is_empty());
    assert!(chromium_debug_urls("\"url\":\"https://a").is_empty());
    assert_eq!(
        chromium_debug_urls("\"url\": \"https://a\" \"url\" \"https://b\""),
        vec!["https://a"]
    );
    assert_eq!(
        chromium_debug_urls("\"url\": 1, \"url\": \"https://c\""),
        vec!["https://c"]
    );
}

#[test]
fn pages_are_picked_by_number() {
    let urls = vec!["http://a".to_string(), "http://b".to_string()];
    assert_eq!(choose_web_url(&urls, "1"), "http://a");
    assert_eq!(choose_web_url(&urls, "2"), "http://b");
    assert_eq!(choose_web_url(&urls, "0"), "http://a");
    assert_eq!(choose_web_url(&urls, "3"), "3");
    assert_eq!(choose_web_url(&urls, "18446744073709551615"), "18446744073709551615");
    assert_eq!(choose_web_url(&urls, "http://c"), "http://c");
    assert_eq!(choose_web_url(&vec![], "1"), "1");
}
