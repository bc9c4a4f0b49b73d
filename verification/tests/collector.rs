use pty_for_each::collector::{message_for, Action, Message, ProgramSet};

#[test]
fn reader_passes_lines_on_and_stops_at_the_end() {
    assert_eq!(message_for(4, Some("x\n".to_string())), Message::Line(4, "x\n".to_string()));
    assert_eq!(message_for(4, Some("no newline".to_string())), Message::Line(4, "no newline".to_string()));
    assert_eq!(message_for(4, Some("\n".to_string())), Message::Line(4, "\n".to_string()));
    assert_eq!(message_for(4, Some(String::new())), Message::Terminated(4));
    assert_eq!(message_for(4, None), Message::Terminated(4));
}

#[test]
fn messages_know_their_key_and_whether_the_reader_stopped() {
    let line = Message::Line(9, "a\n".to_string());
    let end = Message::Terminated(11);
    assert_eq!(line.key(), 9);
    assert_eq!(end.key(), 11);
    assert!(!line.ends_reader());
    assert!(end.ends_reader());
}

#[test]
fn two_lines_then_the_end_empty_the_set() {
    let mut set = ProgramSet::new();
    set.insert(5, "job: ".to_string());
    assert!(!set.is_empty());
    let reads = vec![Some("x\n".to_string()), Some("y\n".to_string()), None];
    let mut actions = Vec::new();
    for read in reads {
        let message = message_for(5, read);
        assert!(set.contains(message.key()));
        actions.push(set.handle(message));
    }
    assert_eq!(
        actions,
        vec![
            Action::Print("job: x\n".to_string()),
            Action::Print("job: y\n".to_string()),
            Action::Retire(5),
        ]
    );
    assert!(set.is_empty());
    assert_eq!(set.len(), 0);
}

#[test]
fn lines_of_two_children_stay_whole_however_they_interleave() {
    let mut set = ProgramSet::new();
    set.insert(3, "many: ".to_string());
    set.insert(4, "one: ".to_string());
    assert_eq!(set.len(), 2);
    let mut printed = Vec::new();
    for n in 0..1000 {
        if n == 500 {
            match set.handle(Message::Line(4, "the only line\n".to_string())) {
                Action::Print(text) => printed.push(text),
                Action::Retire(_) => panic!("a line retires nothing"),
            }
            assert_eq!(set.handle(Message::Terminated(4)), Action::Retire(4));
            assert!(!set.contains(4));
            assert_eq!(set.len(), 1);
        }
        match set.handle(Message::Line(3, format!("line {}\n", n))) {
            Action::Print(text) => printed.push(text),
            Action::Retire(_) => panic!("a line retires nothing"),
        }
    }
    assert_eq!(set.handle(Message::Terminated(3)), Action::Retire(3));
    assert!(set.is_empty());
    assert_eq!(printed.len(), 1001);
    assert_eq!(printed[0], "many: line 0\n");
    assert_eq!(printed[500], "one: the only line\n");
    assert_eq!(printed[501], "many: line 500\n");
    assert_eq!(printed[1000], "many: line 999\n");
    assert_eq!(printed.iter().filter(|text| text.starts_with("one: ")).count(), 1);
}

#[test]
fn set_records_and_replaces_children() {
    let mut set = ProgramSet::new();
    assert!(set.is_empty());
    assert_eq!(set.len(), 0);
    assert!(!set.contains(1));
    set.insert(1, "a: ".to_string());
    set.insert(2, "".to_string());
    assert!(set.contains(1));
    assert!(set.contains(2));
    assert!(!set.contains(3));
    assert_eq!(set.len(), 2);
    set.insert(1, "b: ".to_string());
    assert_eq!(set.len(), 2);
    assert_eq!(set.handle(Message::Line(1, "x".to_string())), Action::Print("b: x".to_string()));
    assert_eq!(set.handle(Message::Line(2, "x".to_string())), Action::Print("x".to_string()));
    assert_eq!(set.handle(Message::Line(1, String::new())), Action::Print("b: ".to_string()));
}

#[test]
fn a_run_prints_its_lines_in_order_and_ends_with_the_last_child() {
    let mut set = ProgramSet::new();
    set.insert(1, "a: ".to_string());
    set.insert(2, "b: ".to_string());
    let messages = vec![
        Message::Line(1, "one\n".to_string()),
        Message::Line(2, "two\n".to_string()),
        Message::Terminated(2),
        Message::Line(1, "three\n".to_string()),
        Message::Terminated(1),
    ];
    let mut output = String::new();
    let mut retired = Vec::new();
    let mut empty_after = Vec::new();
    for message in messages {
        assert!(set.contains(message.key()));
        match set.handle(message) {
            Action::Print(text) => output.push_str(&text),
            Action::Retire(key) => retired.push(key),
        }
        empty_after.push(set.is_empty());
    }
    assert_eq!(output, "a: one\nb: two\na: three\n");
    assert_eq!(retired, vec![2, 1]);
    assert_eq!(empty_after, vec![false, false, false, false, true]);
}
