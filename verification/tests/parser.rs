use nu_plugin_from_sse::event::Event;
use nu_plugin_from_sse::parser::Parser;

const ALERT: &str = "id: 1\nevent: creatureAlert\ndata: {\"id\":\"dra789\"}\n\n";

/// The fields of each event, as plain values.
fn fields(events: &[Event]) -> Vec<(Option<String>, Option<String>, String)> {
    events.iter().map(|e| (e.id().clone(), e.name().clone(), e.data().to_string())).collect()
}

/// The events that come out when `chunks` are pushed in order into a new parser.
fn feed(chunks: &[&str]) -> Vec<(Option<String>, Option<String>, String)> {
    let mut parser = Parser::new();
    let mut out = Vec::new();
    for chunk in chunks {
        out.extend(fields(&parser.push(chunk)));
    }
    out
}

fn alert() -> Vec<(Option<String>, Option<String>, String)> {
    vec![(Some("1".to_string()), Some("creatureAlert".to_string()), "{\"id\":\"dra789\"}\n".to_string())]
}

#[test]
fn round_trip_literal_in_one_chunk() {
    let mut parser = Parser::new();
    let events = parser.push(ALERT);
    assert_eq!(events.len(), 1);
    assert_eq!(events[0].id().as_deref(), Some("1"));
    assert_eq!(events[0].name().as_deref(), Some("creatureAlert"));
    assert_eq!(events[0].data(), "{\"id\":\"dra789\"}\n");
}

#[test]
fn round_trip_literal_in_two_chunks_cut_anywhere() {
    for at in 0..=ALERT.len() {
        assert_eq!(feed(&[&ALERT[..at], &ALERT[at..]]), alert(), "cut at {}", at);
    }
}

#[test]
fn round_trip_literal_one_character_at_a_time() {
    let pieces: Vec<String> = ALERT.chars().map(|c| c.to_string()).collect();
    let chunks: Vec<&str> = pieces.iter().map(|s| s.as_str()).collect();
    assert_eq!(feed(&chunks), alert());
}

#[test]
fn chunk_boundaries_never_change_the_events() {
    let text = "data: first\n\nid: 2\ndata: a\ndata: b\n\n:note\nevent: e\n\n\ndata: open";
    let whole = feed(&[text]);
    assert_eq!(whole.len(), 3);
    for i in 0..=text.len() {
        for j in i..=text.len() {
            assert_eq!(feed(&[&text[..i], &text[i..j], &text[j..]]), whole, "cut at {} and {}", i, j);
        }
    }
}

#[test]
fn chunk_boundaries_never_change_the_state_left_behind() {
    let text = "data: a\nevent: x\nid: 9";
    for at in 0..=text.len() {
        let mut whole = Parser::new();
        assert!(whole.push(text).is_empty());
        let mut cut = Parser::new();
        assert!(cut.push(&text[..at]).is_empty());
        assert!(cut.push(&text[at..]).is_empty());
        // What is held back shows once the stream goes on.
        assert_eq!(fields(&cut.push("9\n\n")), fields(&whole.push("9\n\n")));
    }
}

#[test]
fn empty_chunks_change_nothing() {
    assert_eq!(feed(&["", ALERT, ""]), alert());
    assert_eq!(feed(&["", "", ""]), vec![]);
    assert_eq!(feed(&["id: 1\nevent: creatureAlert\n", "", "data: {\"id\":\"dra789\"}\n", "", "\n"]), alert());
}

#[test]
fn data_field_cut_inside_its_value() {
    let text = "data: hello world\n\n";
    let whole = feed(&[text]);
    assert_eq!(whole, vec![(None, None, "hello world\n".to_string())]);
    for at in "data: ".len()..="data: hello world".len() {
        assert_eq!(feed(&[&text[..at], &text[at..]]), whole, "cut at {}", at);
    }
}

#[test]
fn data_field_cut_between_characters_of_many_bytes() {
    let text = "data: \u{65E5}\u{672C}\u{8A9E} \u{1F600}\n\n";
    let whole = feed(&[text]);
    assert_eq!(whole, vec![(None, None, "\u{65E5}\u{672C}\u{8A9E} \u{1F600}\n".to_string())]);
    for (at, _) in text.char_indices() {
        assert_eq!(feed(&[&text[..at], &text[at..]]), whole, "cut at {}", at);
    }
}

#[test]
fn two_blank_lines_close_one_event() {
    assert_eq!(feed(&["data: a\n\n\n"]), vec![(None, None, "a\n".to_string())]);
    assert_eq!(feed(&["data: a\n", "\n", "\n"]), vec![(None, None, "a\n".to_string())]);
    let mut parser = Parser::new();
    assert!(parser.parse_line("data: a\n").is_none());
    assert!(parser.parse_line("\n").is_some());
    assert!(parser.parse_line("\n").is_none());
}

#[test]
fn repeated_event_line_keeps_the_last_name() {
    assert_eq!(
        feed(&["event: first\nevent: second\n\n"]),
        vec![(None, Some("second".to_string()), String::new())]
    );
    assert_eq!(
        feed(&["event: first\ndata: x\nid: 3\n:c\nevent: second\ndata: y\n\n"]),
        vec![(Some("3".to_string()), Some("second".to_string()), "x\ny\n".to_string())]
    );
}

#[test]
fn repeated_id_line_keeps_the_last_id() {
    assert_eq!(
        feed(&["id: 1\nid: 2\n\n"]),
        vec![(Some("2".to_string()), None, String::new())]
    );
}

#[test]
fn unterminated_event_is_not_returned() {
    assert_eq!(feed(&["data: a\n"]), vec![]);
    assert_eq!(feed(&["data: a"]), vec![]);
    assert_eq!(feed(&["id: 1\nevent: e\ndata: a\n"]), vec![]);
}

#[test]
fn unterminated_event_comes_out_once_the_blank_line_arrives() {
    let mut parser = Parser::new();
    assert!(parser.push("data: a\n").is_empty());
    assert_eq!(fields(&parser.push("\n")), vec![(None, None, "a\n".to_string())]);
}

#[test]
fn only_blank_lines_close_nothing() {
    assert_eq!(feed(&["\n\n\n"]), vec![]);
    assert_eq!(feed(&["\n", "\n", "\n"]), vec![]);
    assert_eq!(feed(&[" \n\t\n\r\n"]), vec![]);
}

#[test]
fn comment_between_two_events_is_ignored() {
    assert_eq!(
        feed(&["data: one\n\n:keepalive\ndata: two\n\n"]),
        vec![(None, None, "one\n".to_string()), (None, None, "two\n".to_string())]
    );
    assert_eq!(
        feed(&["data: one\n\n:keepalive\ndata: two\n\n"]),
        feed(&["data: one\n\ndata: two\n\n"])
    );
}

#[test]
fn comment_inside_an_event_is_ignored() {
    assert_eq!(
        feed(&["data: one\n:keepalive\ndata: two\n\n"]),
        vec![(None, None, "one\ntwo\n".to_string())]
    );
}

#[test]
fn comment_alone_sets_nothing() {
    assert_eq!(feed(&[":keepalive\n\n"]), vec![]);
}

#[test]
fn unknown_fields_are_ignored() {
    assert_eq!(feed(&["retry: 10\nfoo\ndata\nid\n\n"]), vec![]);
    assert_eq!(feed(&["retry: 10\ndata: x\n\n"]), vec![(None, None, "x\n".to_string())]);
}

#[test]
fn prefixes_are_literal() {
    // Upper case, or whitespace before the prefix, makes another line of it.
    assert_eq!(feed(&["Data: x\nEVENT: y\nId: 1\n\n"]), vec![]);
    assert_eq!(feed(&[" data: x\n\tid: 1\n\n"]), vec![]);
    // Whitespace before the colon too.
    assert_eq!(feed(&["data : x\n\n"]), vec![]);
}

#[test]
fn data_lines_join_with_newlines() {
    assert_eq!(
        feed(&["data: a\ndata: b\ndata: c\n\n"]),
        vec![(None, None, "a\nb\nc\n".to_string())]
    );
}

#[test]
fn values_are_trimmed() {
    assert_eq!(
        feed(&["id:   7  \nevent:\tname\t\ndata:no space\n\n"]),
        vec![(Some("7".to_string()), Some("name".to_string()), "no space\n".to_string())]
    );
    assert_eq!(
        feed(&["data: \u{A0}x y\u{3000}\n\n"]),
        vec![(None, None, "x y\n".to_string())]
    );
}

#[test]
fn carriage_returns_are_trimmed_away() {
    assert_eq!(
        feed(&["id: 1\r\nevent: e\r\ndata: d\r\n\r\n"]),
        vec![(Some("1".to_string()), Some("e".to_string()), "d\n".to_string())]
    );
}

#[test]
fn empty_values_still_set_their_field() {
    assert_eq!(feed(&["data:\n\n"]), vec![(None, None, "\n".to_string())]);
    assert_eq!(feed(&["id:\n\n"]), vec![(Some(String::new()), None, String::new())]);
    assert_eq!(feed(&["event: \n\n"]), vec![(None, Some(String::new()), String::new())]);
}

#[test]
fn whitespace_line_is_a_boundary() {
    assert_eq!(feed(&["data: a\n \t \n"]), vec![(None, None, "a\n".to_string())]);
}

#[test]
fn events_come_out_in_order() {
    assert_eq!(
        feed(&["id: 1\n\nid: 2\n\nid: 3\n\n"]),
        vec![
            (Some("1".to_string()), None, String::new()),
            (Some("2".to_string()), None, String::new()),
            (Some("3".to_string()), None, String::new()),
        ]
    );
}

#[test]
fn state_is_reset_after_each_event() {
    assert_eq!(
        feed(&["id: 1\nevent: e\ndata: a\n\ndata: b\n\n"]),
        vec![
            (Some("1".to_string()), Some("e".to_string()), "a\n".to_string()),
            (None, None, "b\n".to_string()),
        ]
    );
}

#[test]
fn returned_event_is_independent_of_the_parser() {
    let mut parser = Parser::new();
    let first = parser.push("data: a\n\n");
    let _ = parser.push("data: b\nid: 5\n\n");
    assert_eq!(fields(&first), vec![(None, None, "a\n".to_string())]);
}

#[test]
fn parse_line_takes_a_line_without_newline() {
    let mut parser = Parser::new();
    assert!(parser.parse_line("data: a").is_none());
    let closed = parser.parse_line("").unwrap();
    assert_eq!(closed.data(), "a\n");
}

#[test]
fn parse_line_leaves_the_held_text_alone() {
    let mut parser = Parser::new();
    assert!(parser.push("data: par").is_empty());
    assert!(parser.parse_line("id: 4\n").is_none());
    let events = parser.push("tial\n\n");
    assert_eq!(fields(&events), vec![(Some("4".to_string()), None, "partial\n".to_string())]);
}
