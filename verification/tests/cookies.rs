use i12377_api::cookies::{cookie_pairs, session_id_from_set_cookie, CookieJar};

#[test]
fn jar_adds_replaces_and_lists_in_order() {
    let mut jar = CookieJar::new();
    assert_eq!(jar.header_value(), "");
    jar.add("guestKey", "20240612000000ABC123");
    assert_eq!(jar.header_value(), "guestKey=20240612000000ABC123");
    jar.add("JSESSIONID", "xyz");
    jar.add("guestKey", "new");
    assert_eq!(jar.header_value(), "guestKey=new; JSESSIONID=xyz");
}

#[test]
fn adding_twice_is_adding_once() {
    let mut a = CookieJar::new();
    a.add("n", "v");
    let mut b = CookieJar::new();
    b.add("n", "v");
    b.add("n", "v");
    assert_eq!(a.header_value(), b.header_value());
}

#[test]
fn session_id_is_read_from_set_cookie() {
    assert_eq!(
        session_id_from_set_cookie("JSESSIONID=ABC123; Path=/; HttpOnly").as_deref(),
        Some("ABC123")
    );
    assert_eq!(session_id_from_set_cookie("x=1; JSESSIONID=Q").as_deref(), Some("Q"));
    assert_eq!(session_id_from_set_cookie("JSESSIONID=; Path=/"), None);
    assert_eq!(session_id_from_set_cookie("SESSION=1"), None);
    assert_eq!(
        session_id_from_set_cookie("JSESSIONID=aJSESSIONID=b").as_deref(),
        Some("a")
    );
}

#[test]
fn cookie_pairs_split_on_semicolons() {
    let pairs = cookie_pairs("SERVERID=abc|123; Path=/ ; flag; =x; y= ; k = v=w");
    let got: Vec<(&str, &str)> = pairs.iter().map(|(n, v)| (n.as_str(), v.as_str())).collect();
    assert_eq!(got, vec![("SERVERID", "abc|123"), ("Path", "/"), ("k", "v=w")]);
    assert!(cookie_pairs("").is_empty());
}

#[test]
fn capture_updates_the_jar() {
    let mut jar = CookieJar::new();
    jar.add("guestKey", "g");
    jar.capture_session_id("JSESSIONID=S1; Path=/");
    jar.capture_cookies("SERVERID=s; Path=/");
    assert_eq!(jar.header_value(), "guestKey=g; JSESSIONID=S1; SERVERID=s; Path=/");
    jar.capture_session_id("nothing here");
    jar.capture_session_id("JSESSIONID=S2");
    assert_eq!(jar.header_value(), "guestKey=g; JSESSIONID=S2; SERVERID=s; Path=/");
}
