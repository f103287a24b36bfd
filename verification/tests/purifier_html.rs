use html_purifier::purifier;
use html_purifier::Settings;

#[test]
fn test_purifier() {
    let settings = Settings { ..Settings::default() };
    let input = r#"<div style="display: block;"><span style="color: black;"><a href="/test" onclick="javascript:;"><img src="/logo.png" onerror="javascript:;"/>Rust</a></span></div>"#;
    let output = purifier(input, settings);
    assert_eq!(
        output,
        r#"<div><span style="color: black;"><a href="/test"><img src="/logo.png" />Rust</a></span></div>"#
    );
}

#[test]
fn test_purifier_remove_comments() {
    let settings = Settings { ..Settings::default() };
    let input = r#"<div style="display: block;"><!--Comment 1--><span style="color: black;"><a href="/test" onclick="javascript:;"><img src="/logo.png" onerror="javascript:;"/>Rust</a></span></div>"#;
    let output = purifier(input, settings);
    assert_eq!(
        output,
        r#"<div><span style="color: black;"><a href="/test"><img src="/logo.png" />Rust</a></span></div>"#
    );
}

#[test]
fn test_purifier_show_comments() {
    let settings = Settings { remove_comments: false, ..Settings::default() };
    let input = r#"<div style="display: block;"><span style="color: black;"><!--Comment 1--><a href="/test" onclick="javascript:;"><img src="/logo.png" onerror="javascript:;"/>Rust</a></span></div>"#;
    let output = purifier(input, settings);
    assert_eq!(
        output,
        r#"<div><span style="color: black;"><!--Comment 1--><a href="/test"><img src="/logo.png" />Rust</a></span></div>"#
    );
}

#[test]
fn anchor_and_image_keep_safe_attributes() {
    let settings = Settings::default();
    let input =
        r#"<a href="/test" style="color: black;"><img src="/logo.png" onerror="javascript:;"/>Rust</a>"#;
    let output = purifier(input, settings);
    assert_eq!(output, r#"<a href="/test"><img src="/logo.png" />Rust</a>"#);
}

#[test]
fn nested_styles_follow_each_elements_rule() {
    let settings = Settings::default();
    let input = r#"<div style="display: block;"><span style="color: black;"><a href="/test" onclick="javascript:;">Rust</a></span></div>"#;
    let output = purifier(input, settings);
    assert_eq!(
        output,
        r#"<div><span style="color: black;"><a href="/test">Rust</a></span></div>"#
    );
}

#[test]
fn comment_dropped_between_elements() {
    let settings = Settings::default();
    let input = r#"<div><!--Comment 1--><span>x</span></div>"#;
    let output = purifier(input, settings);
    assert_eq!(output, r#"<div><span>x</span></div>"#);
}

#[test]
fn comment_kept_byte_for_byte() {
    let settings = Settings { remove_comments: false, ..Settings::default() };
    let input = r#"<div><!--Comment 1--><span>x</span></div>"#;
    let output = purifier(input, settings);
    assert_eq!(output, r#"<div><!--Comment 1--><span>x</span></div>"#);
}

#[test]
fn script_is_unwrapped_text_survives() {
    let settings = Settings::default();
    let output = purifier("<script>alert(1)</script>Hi", settings);
    assert_eq!(output, "alert(1)Hi");
}

#[test]
fn empty_allowlist_strips_all_tags_keeps_text() {
    let settings = Settings { allowed: vec![], remove_comments: true };
    let output = purifier("<p>Hello <b>world</b></p>", settings);
    assert_eq!(output, "Hello world");
}

#[test]
fn purifier_is_idempotent_on_sample() {
    let input = r#"<div style="display: block;"><span style="color: black;"><a href="/test" onclick="javascript:;">Rust</a></span></div>"#;
    let once = purifier(input, Settings::default());
    let twice = purifier(&once, Settings::default());
    assert_eq!(twice, once);
}

#[test]
fn clean_anchor_passes_through_unchanged() {
    let settings = Settings::default();
    let input = r#"<a href="/test" title="x">Rust</a>"#;
    let output = purifier(input, settings);
    assert_eq!(output, input);
}

#[test]
fn repeated_disallowed_attributes_all_go() {
    let settings = Settings::default();
    let input = r#"<a href="/x" onclick="a" onclick="b">t</a>"#;
    let output = purifier(input, settings);
    assert_eq!(output, r#"<a href="/x">t</a>"#);
}

#[test]
fn try_purifier_succeeds_on_ordinary_markup() {
    let settings = Settings::default();
    let result = html_purifier::try_purifier("<b>ok</b><script>x</script>", &settings);
    assert_eq!(result, Ok("<b>ok</b>x".to_owned()));
}
