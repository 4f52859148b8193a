use oneline_eyre::Handler;

#[test]
fn renders_chain_with_default_separator() {
    let handler = Handler::new(": ");
    let messages = vec!["outer".to_string(), "middle".to_string(), "cause".to_string()];
    assert_eq!(handler.render(&messages), "outer: middle: cause");
}

#[test]
fn renders_single_message_without_separator() {
    let handler = Handler::new(": ");
    let messages = vec!["cause".to_string()];
    assert_eq!(handler.render(&messages), "cause");
}

#[test]
fn renders_with_custom_separator() {
    let handler = Handler::new(" / ");
    let messages = vec!["a".to_string(), "b".to_string()];
    assert_eq!(handler.render(&messages), "a / b");
}

#[test]
fn same_messages_under_two_separators() {
    let messages = vec![
        "read config".to_string(),
        "open file".to_string(),
        "permission denied".to_string(),
    ];
    let first = Handler::new(": ").render(&messages);
    let second = Handler::new(" -> ").render(&messages);
    assert_eq!(first, "read config: open file: permission denied");
    assert_eq!(second, "read config -> open file -> permission denied");
}

#[test]
fn rendering_twice_is_identical() {
    let handler = Handler::new(": ");
    let messages = vec!["outer".to_string(), "cause".to_string()];
    let first = handler.render(&messages);
    let second = handler.render(&messages);
    assert_eq!(first, second);
    assert_eq!(first, "outer: cause");
}

#[test]
fn empty_separator_concatenates_messages() {
    let handler = Handler::new("");
    let messages = vec!["a".to_string(), "b".to_string()];
    assert_eq!(handler.render(&messages), "ab");
}

#[test]
fn message_may_contain_separator_text() {
    let handler = Handler::new(": ");
    let messages = vec!["outer: inner".to_string(), "cause".to_string()];
    assert_eq!(handler.render(&messages), "outer: inner: cause");
}

#[test]
fn empty_messages_keep_their_places() {
    let handler = Handler::new(": ");
    let messages = vec!["".to_string(), "cause".to_string(), "".to_string()];
    assert_eq!(handler.render(&messages), ": cause: ");
}
