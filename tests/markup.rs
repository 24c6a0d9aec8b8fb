use html_markup::{CommonTag, HTMLEncode, TagFormat};

fn render(s: &str) -> String {
    CommonTag { picks: vec![0] }.render(s)
}

#[test]
fn nested_bold_and_italic() {
    assert_eq!(render("[b/hi [i/there/i]/b]"), "<b>hi <i>there</i></b>");
}

#[test]
fn unmatched_open_stays() {
    assert_eq!(render("[unmatched"), "[unmatched");
    assert_eq!(render("x [y"), "x [y");
}

#[test]
fn escaped_bracket_is_restored() {
    assert_eq!(render("a\\[b"), "a[b");
    assert_eq!(render("a\\\\b\\|c\\/d"), "a\\b|c/d");
}

#[test]
fn stray_close_stays() {
    assert_eq!(render("a]b"), "a]b");
}

#[test]
fn anonymous_tag_picks_by_index() {
    let raw = "[|a|b|c/]";
    assert_eq!(CommonTag { picks: vec![0] }.render(raw), "");
    assert_eq!(CommonTag { picks: vec![1] }.render(raw), "a");
    assert_eq!(CommonTag { picks: vec![2] }.render(raw), "b");
    assert_eq!(CommonTag { picks: vec![3] }.render(raw), "c");
    assert_eq!(CommonTag { picks: vec![5] }.render(raw), "a");
}

#[test]
fn empty_anonymous_tag() {
    assert_eq!(render("[/]"), "");
    assert_eq!(render("x[/]y"), "xy");
}

#[test]
fn ruby_with_two_parts() {
    assert_eq!(
        render("[ruby/漢字|かんじ/ruby]"),
        "<ruby>漢字<rp>(</rp><rt>かんじ</rt><rp>)</rp></ruby>"
    );
}

#[test]
fn ruby_with_one_part() {
    assert_eq!(render("[ruby/abc/ruby]"), "<em>abc</em>");
}

#[test]
fn ruby_pipe_inside_nested_tag_does_not_split() {
    assert_eq!(render("[ruby/[b/x|y/b]/ruby]"), "<em><b>x|y</b></em>");
}

#[test]
fn image_content_is_kept_raw() {
    assert_eq!(render("[image/http://x/y.png/image]"), "<img src=\"http://x/y.png\">");
}

#[test]
fn unknown_tag_passes_through() {
    assert_eq!(render("[foo/[b/x/b]/foo]"), "[foo/<b>x</b>/foo]");
}

#[test]
fn escape_inside_tag_resolved_later() {
    assert_eq!(render("[b/a\\]b/b]"), "<b>a]b</b>");
}

#[test]
fn formatting_tags() {
    assert_eq!(render("x [large/big/large] y"), "x <large>big</large> y");
    assert_eq!(render("[rainbow/r/rainbow][s/z/s]"), "<rainbow>r</rainbow><s>z</s>");
}

#[test]
fn plain_text_unchanged() {
    assert_eq!(render("nothing here"), "nothing here");
    assert_eq!(render(""), "");
}

#[test]
fn tag_through_trait() {
    assert_eq!("[u/x/u]".tag(CommonTag { picks: vec![0] }), "<u>x</u>");
    assert_eq!(CommonTag { picks: vec![0] }.parse("[i/y/i]"), "<i>y</i>");
}

#[test]
fn each_anonymous_tag_takes_its_own_index() {
    assert_eq!(CommonTag { picks: vec![0, 1] }.render("[a|b/][a|b/]"), "ab");
    assert_eq!(CommonTag { picks: vec![1, 0] }.render("[a|b/][a|b/]"), "ba");
    assert_eq!(CommonTag { picks: vec![1] }.render("[a|b/][a|b/]"), "ba");
    assert_eq!(CommonTag { picks: vec![] }.render("[a|b/]"), "a");
}

#[test]
fn nested_anonymous_tags_take_indices_in_order() {
    assert_eq!(CommonTag { picks: vec![1, 2] }.render("[x|[p|q|r/]/]"), "r");
    assert_eq!(CommonTag { picks: vec![0, 2] }.render("[x|[p|q|r/]/]z"), "xz");
}
