use std::collections::BTreeSet;

use steam_cmd::events::{error_line_event, extract_events};
use steam_cmd::{Event, ItemId, OutputLine};

fn normal(line: &str) -> Event {
    Event::Output(OutputLine::Normal(String::from(line)))
}

#[test]
fn start_message_emits_starting_then_line() {
    let line = "Downloading item 1631756268";
    let events = extract_events(line);
    assert_eq!(events, vec![Event::Starting(ItemId(1631756268)), normal(line)]);
}

#[test]
fn done_message_emits_done_then_line() {
    let line = "Downloaded item 1631756268 to \"/home/user/workshop/1631756268\" (4096 bytes)";
    let events = extract_events(line);
    assert_eq!(
        events,
        vec![
            Event::Done(
                ItemId(1631756268),
                String::from("/home/user/workshop/1631756268"),
                4096
            ),
            normal(line),
        ]
    );
}

#[test]
fn done_path_keeps_embedded_spaces() {
    let line = "Downloaded item 5 to \"/home/user/my workshop dir/5\" (10 bytes)";
    let events = extract_events(line);
    assert_eq!(
        events,
        vec![
            Event::Done(ItemId(5), String::from("/home/user/my workshop dir/5"), 10),
            normal(line),
        ]
    );
}

#[test]
fn unrecognized_line_is_only_forwarded() {
    let line = "Update state (0x3) downloading";
    let events = extract_events(line);
    assert_eq!(events, vec![normal(line)]);
}

#[test]
fn empty_line_is_only_forwarded() {
    let events = extract_events("");
    assert_eq!(events, vec![normal("")]);
}

#[test]
fn surrounding_text_does_not_hide_a_pattern() {
    let line = "log: Downloading item 42 now";
    let events = extract_events(line);
    assert_eq!(events, vec![Event::Starting(ItemId(42)), normal(line)]);
}

#[test]
fn two_patterns_in_one_line_emit_two_events() {
    let line = "Downloading item 1 Downloading item 2";
    let events = extract_events(line);
    assert_eq!(
        events,
        vec![Event::Starting(ItemId(1)), Event::Starting(ItemId(2)), normal(line)]
    );
}

#[test]
fn trailing_carriage_return_is_trimmed_from_the_identifier() {
    let line = "Downloading item 77\r";
    let events = extract_events(line);
    assert_eq!(events, vec![Event::Starting(ItemId(77)), normal(line)]);
}

#[test]
fn start_without_identifier_is_only_forwarded() {
    let line = "Downloading item";
    assert_eq!(extract_events(line), vec![normal(line)]);
    let line = "Downloading item soon";
    assert_eq!(extract_events(line), vec![normal(line)]);
}

#[test]
fn identifier_too_large_for_a_machine_word_is_only_forwarded() {
    let line = "Downloading item 99999999999999999999999999999999";
    assert_eq!(extract_events(line), vec![normal(line)]);
}

#[test]
fn done_without_terminator_is_only_forwarded() {
    let line = "Downloaded item 5 to \"/home/user/x\"";
    assert_eq!(extract_events(line), vec![normal(line)]);
}

#[test]
fn done_without_the_to_word_is_only_forwarded() {
    let line = "Downloaded item 5 into \"/home/user/x\" (10 bytes)";
    assert_eq!(extract_events(line), vec![normal(line)]);
}

#[test]
fn done_with_unquoted_path_is_only_forwarded() {
    let line = "Downloaded item 5 to /home/user/x (10 bytes)";
    assert_eq!(extract_events(line), vec![normal(line)]);
}

#[test]
fn done_with_non_numeric_size_is_only_forwarded() {
    let line = "Downloaded item 5 to \"/home/user/x\" (many bytes)";
    assert_eq!(extract_events(line), vec![normal(line)]);
}

#[test]
fn lowercase_keyword_does_not_match() {
    let line = "downloading item 5";
    assert_eq!(extract_events(line), vec![normal(line)]);
}

#[test]
fn error_line_is_wrapped_verbatim() {
    let ev = error_line_event(String::from("something went wrong"));
    assert_eq!(ev, Event::Output(OutputLine::Error(String::from("something went wrong"))));
}

#[test]
fn synthetic_transcript_round_trip() {
    let configured: Vec<usize> = vec![1631756268, 2009463077, 7];
    let mut transcript: Vec<String> = Vec::new();
    transcript.push(String::from("Redirecting stderr to console"));
    for id in &configured {
        transcript.push(format!("Downloading item {id}"));
        transcript.push(format!("Downloaded item {id} to \"/home/user/ws/{id}\" (4096 bytes)"));
    }
    transcript.push(String::from("+quit"));

    let mut starting: BTreeSet<usize> = BTreeSet::new();
    let mut done: BTreeSet<usize> = BTreeSet::new();
    for line in &transcript {
        for event in extract_events(line) {
            match event {
                Event::Starting(ItemId(id)) => {
                    starting.insert(id);
                },
                Event::Done(ItemId(id), _, _) => {
                    done.insert(id);
                },
                Event::Output(_) => {},
            }
        }
    }
    let expected: BTreeSet<usize> = configured.iter().copied().collect();
    assert_eq!(starting, expected);
    assert_eq!(done, expected);
}
