use html_markup::codec::{br, escape, rm_br, unescape};
use html_markup::{HTMLDecode, HTMLEncode, Text};

#[test]
fn escape_without_specials_hands_text_back() {
    let s = "plain text, nothing to replace";
    let r = escape(s, true);
    assert!(matches!(r, Text::Borrowed(b) if std::ptr::eq(b, s)));
}

#[test]
fn escape_with_quotes() {
    let r = escape("<a href=\"x\">&'", true).into_string();
    assert_eq!(r, "&lt;a href=&quot;x&quot;&gt;&amp;&apos;");
}

#[test]
fn escape_without_quotes() {
    let r = escape("<a href=\"x\">&'", false);
    assert!(matches!(r, Text::Owned(_)));
    assert_eq!(r.into_string(), "&lt;a href=\"x\"&gt;&amp;'");
}

#[test]
fn escape_keeps_quotes_borrowed_when_not_asked() {
    assert!(matches!(escape("say \"hi\" it's", false), Text::Borrowed(_)));
    assert!(matches!(escape("say \"hi\" it's", true), Text::Owned(_)));
}

#[test]
fn unescape_known_and_unknown_entities() {
    let r = unescape("&lt;b&gt; &amp;amp; &#39;x&apos; &nbsp;&quot;&unknown; & end&").into_string();
    assert_eq!(r, "<b> &amp; 'x'  \"&unknown; & end&");
}

#[test]
fn unescape_without_ampersand_hands_text_back() {
    assert!(matches!(unescape("no entities <here>"), Text::Borrowed(_)));
}

#[test]
fn decode_of_encode_round_trips() {
    let t = "a<b>&\"c'd &amp; é";
    let e = escape(t, true).into_string();
    assert_eq!(e, "a&lt;b&gt;&amp;&quot;c&apos;d &amp;amp; é");
    assert_eq!(unescape(&e).into_string(), t);
}

#[test]
fn nbsp_decodes_to_space_and_does_not_round_trip() {
    let d = unescape("a&nbsp;b").into_string();
    assert_eq!(d, "a b");
    assert_eq!(escape(&d, true).into_string(), "a b");
}

#[test]
fn br_turns_each_break_into_one_tag() {
    assert_eq!(br("a\r\nb\rc\nd\n\r"), "a<br>b<br>c<br>d<br><br>");
    assert_eq!(br(""), "");
    assert_eq!(br("\r\n\r\n"), "<br><br>");
}

#[test]
fn rm_br_removes_breaks() {
    assert_eq!(rm_br("a\r\nb\rc\nd"), "abcd");
    assert_eq!(rm_br("none"), "none");
}

#[test]
fn traits_on_str() {
    assert_eq!("x\ny".br(), "x<br>y");
    assert_eq!("a&b".escape(false).into_string(), "a&amp;b");
    assert_eq!("&lt;".unescape().into_string(), "<");
    assert_eq!("a\nb".rm_br(), "ab");
}
