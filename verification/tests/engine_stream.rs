use html_purifier::AllowedElement;
use html_purifier::Settings;
use html_purifier::engine::Action;
use html_purifier::engine::Attr;
use html_purifier::engine::Event;
use html_purifier::engine::decide;
use html_purifier::engine::filter_attributes;
use html_purifier::stream::sanitize_events;

fn attr(name: &str, value: &str) -> Attr {
    Attr { name: name.to_owned(), value: value.to_owned() }
}

fn open_tag(name: &str, attrs: Vec<Attr>) -> Event {
    Event::TagOpen { name: name.to_owned(), attributes: attrs, self_closing: false }
}

fn close_tag(name: &str) -> Event {
    Event::TagClose { name: name.to_owned() }
}

fn text(content: &str) -> Event {
    Event::Text { content: content.to_owned() }
}

fn comment(content: &str) -> Event {
    Event::Comment { content: content.to_owned() }
}

#[test]
fn default_policy_table_is_the_documented_one() {
    let settings = Settings::default();
    assert!(settings.remove_comments);
    assert_eq!(settings.allowed.len(), 14);
    assert_eq!(settings.allowed[0].name, "div");
    assert!(settings.allowed[0].attributes.is_empty());
    assert_eq!(settings.allowed[6].name, "a");
    assert_eq!(settings.allowed[6].attributes, vec!["href".to_owned(), "title".to_owned()]);
    assert_eq!(settings.allowed[13].name, "img");
    assert_eq!(
        settings.allowed[13].attributes,
        vec!["width".to_owned(), "height".to_owned(), "alt".to_owned(), "src".to_owned()]
    );
}

#[test]
fn lookup_finds_first_match_and_misses_unknown() {
    let settings = Settings::default();
    assert_eq!(settings.lookup(&"span".to_owned()), Some(12));
    assert_eq!(settings.lookup(&"script".to_owned()), None);
    let rule = &settings.allowed[12];
    assert!(rule.is_attribute_allowed(&"style".to_owned()));
    assert!(!rule.is_attribute_allowed(&"onclick".to_owned()));
}

#[test]
fn filter_attributes_keeps_order_and_values() {
    let rule = AllowedElement {
        name: "a".to_owned(),
        attributes: vec!["href".to_owned(), "title".to_owned()],
    };
    let attrs = vec![
        attr("onclick", "javascript:;"),
        attr("href", "/test"),
        attr("style", "color: black;"),
        attr("title", "home"),
    ];
    let kept = filter_attributes(&rule, &attrs);
    assert_eq!(kept, vec![attr("href", "/test"), attr("title", "home")]);
}

#[test]
fn decide_suppresses_unknown_tags_both_ways() {
    let settings = Settings::default();
    let verdict = decide(&settings, &open_tag("script", vec![attr("type", "text/javascript")]));
    assert_eq!(verdict, Action::Suppress);
    let verdict = decide(&settings, &close_tag("script"));
    assert_eq!(verdict, Action::Suppress);
}

#[test]
fn decide_emits_clean_tags_unchanged() {
    let settings = Settings::default();
    let verdict = decide(&settings, &open_tag("a", vec![attr("href", "/test")]));
    assert_eq!(verdict, Action::Emit);
    let verdict = decide(&settings, &text("Rust"));
    assert_eq!(verdict, Action::Emit);
}

#[test]
fn decide_filters_dirty_attribute_lists() {
    let settings = Settings::default();
    let verdict = decide(
        &settings,
        &open_tag("a", vec![attr("href", "/test"), attr("onclick", "javascript:;")]),
    );
    assert_eq!(verdict, Action::EmitWithAttributes(vec![attr("href", "/test")]));
}

#[test]
fn decide_follows_the_comment_flag() {
    let removing = Settings::default();
    assert_eq!(decide(&removing, &comment("Comment 1")), Action::Drop);
    let keeping = Settings { remove_comments: false, ..Settings::default() };
    assert_eq!(decide(&keeping, &comment("Comment 1")), Action::Emit);
}

#[test]
fn sanitize_events_single_pass_over_a_stream() {
    let settings = Settings::default();
    let events = vec![
        open_tag("script", vec![attr("type", "text/javascript")]),
        text("alert(1)"),
        close_tag("script"),
        comment("Comment 1"),
        open_tag("b", vec![]),
        text("safe"),
        close_tag("b"),
    ];
    let out = sanitize_events(&settings, &events);
    assert_eq!(
        out,
        vec![text("alert(1)"), open_tag("b", vec![]), text("safe"), close_tag("b")]
    );
}

#[test]
fn sanitize_events_is_idempotent_on_sample() {
    let settings = Settings::default();
    let events = vec![
        open_tag("div", vec![attr("style", "display: block;")]),
        comment("Comment 1"),
        open_tag("span", vec![attr("style", "color: black;")]),
        text("Rust"),
        close_tag("span"),
        close_tag("div"),
    ];
    let once = sanitize_events(&settings, &events);
    let twice = sanitize_events(&settings, &once);
    assert_eq!(twice, once);
}

#[test]
fn sanitize_events_preserves_all_text_in_order() {
    let settings = Settings { allowed: vec![], remove_comments: true };
    let events = vec![
        open_tag("p", vec![]),
        text("Hello "),
        open_tag("b", vec![]),
        text("world"),
        close_tag("b"),
        close_tag("p"),
    ];
    let out = sanitize_events(&settings, &events);
    assert_eq!(out, vec![text("Hello "), text("world")]);
}

#[test]
fn sanitize_events_keeps_comments_byte_for_byte_when_configured() {
    let settings = Settings { remove_comments: false, ..Settings::default() };
    let events = vec![comment("Comment 1"), open_tag("u", vec![]), close_tag("u")];
    let out = sanitize_events(&settings, &events);
    assert_eq!(out, vec![comment("Comment 1"), open_tag("u", vec![]), close_tag("u")]);
}

#[test]
fn surviving_attributes_keep_their_relative_order() {
    let settings = Settings::default();
    let verdict = decide(
        &settings,
        &open_tag(
            "img",
            vec![
                attr("onerror", "javascript:;"),
                attr("src", "/logo.png"),
                attr("style", "border: 0;"),
                attr("width", "10"),
                attr("alt", "logo"),
            ],
        ),
    );
    assert_eq!(
        verdict,
        Action::EmitWithAttributes(vec![
            attr("src", "/logo.png"),
            attr("width", "10"),
            attr("alt", "logo"),
        ])
    );
}
