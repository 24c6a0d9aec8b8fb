use html_markup::autolink::compose;
use html_markup::codec::escape;
use html_markup::{Autolinker, HTMLEncode, LinkKind, LinkPiece};

fn link(s: &str) -> String {
    Autolinker::new().unwrap().escape_and_link(s)
}

#[test]
fn empty_input_gives_empty_output() {
    assert_eq!(link(""), "");
}

#[test]
fn no_token_equals_plain_escape() {
    assert_eq!(link("hello"), escape("hello", false).into_string());
    assert_eq!(link("a < b & \"c\""), "a &lt; b &amp; \"c\"");
}

#[test]
fn url_with_quote() {
    assert_eq!(
        link("check https://example.com/a\"b now"),
        "check <a target=\"_blank\" href=\"https://example.com/a%22b\">https://example.com/a&quot;b</a> now"
    );
}

#[test]
fn federated_handle() {
    assert_eq!(
        link("@alice@example.social hi"),
        "<a target=\"_blank\" href=\"https://example.social/alice\">@alice@example.social</a> hi"
    );
}

#[test]
fn single_domain_handle() {
    assert_eq!(
        link("hi @user.bsky.social"),
        "hi <a target=\"_blank\" href=\"https://bsky.app/profile/user.bsky.social\">@user.bsky.social</a>"
    );
}

#[test]
fn short_handle() {
    assert_eq!(link("@jack_dorsey!"), "<a target=\"_blank\" href=\"https://x.com/jack_dorsey\">@jack_dorsey</a>!");
}

#[test]
fn too_short_handle_and_mid_word_are_not_links() {
    assert_eq!(link("@abc"), "@abc");
    assert_eq!(link("x@abcd"), "x@abcd");
}

#[test]
fn text_around_links_is_escaped() {
    assert_eq!(
        link("a<b @abcd >c"),
        "a&lt;b <a target=\"_blank\" href=\"https://x.com/abcd\">@abcd</a> &gt;c"
    );
}

#[test]
fn trait_escape_and_link() {
    assert_eq!("see @abcde".escape_and_link(), "see <a target=\"_blank\" href=\"https://x.com/abcde\">@abcde</a>");
}

#[test]
fn compose_given_pieces() {
    let pieces = vec![
        LinkPiece { gap: "a&b".to_string(), lead: " ".to_string(), kind: LinkKind::Misskey, token: "@u@d.io".to_string() },
        LinkPiece { gap: String::new(), lead: "\n".to_string(), kind: LinkKind::Url, token: "http://q\"<".to_string() },
    ];
    assert_eq!(
        compose(&pieces, " <end>"),
        "a&amp;b <a target=\"_blank\" href=\"https://d.io/u\">@u@d.io</a>\n<a target=\"_blank\" href=\"http://q%22<\">http://q&quot;&lt;</a> &lt;end&gt;"
    );
}

#[test]
fn compose_without_pieces_is_plain_escape() {
    assert_eq!(compose(&Vec::new(), "x<y"), "x&lt;y");
}

#[test]
fn compose_bluesky_and_twitter() {
    let pieces = vec![
        LinkPiece { gap: String::new(), lead: String::new(), kind: LinkKind::Bluesky, token: "@n.tld".to_string() },
        LinkPiece { gap: String::new(), lead: " ".to_string(), kind: LinkKind::Twitter, token: "@name".to_string() },
    ];
    assert_eq!(
        compose(&pieces, ""),
        "<a target=\"_blank\" href=\"https://bsky.app/profile/n.tld\">@n.tld</a> <a target=\"_blank\" href=\"https://x.com/name\">@name</a>"
    );
}
