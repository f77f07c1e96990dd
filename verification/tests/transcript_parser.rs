use collab_mode::number::NumberError;
use collab_mode::transcript::parser::{
    get_editor_count, parse_checked, parse_headers, parse_transcript, plan_run, title,
    TranscriptCommand, TranscriptError,
};

const SCRIPT: &str = "Name: Two editors\nAuthor : me: you \n\nE1 INSERT a\\nb\\tc d\nE2 MOVE -3\n  E1 DELETE 2  \n\nE2 UNDO\nE2 REDO\nE1 SEND\nE1 BEGIN_GROUP\nE1 END_GROUP\n# a remark\nE3\n===CHECK===\n";

#[test]
fn script_is_parsed() {
    let (headers, commands) = parse_transcript(SCRIPT).unwrap();
    assert_eq!(headers.get("Name").unwrap(), "Two editors");
    assert_eq!(headers.get("Author").unwrap(), "me: you");
    assert_eq!(title(&headers), "Two editors");
    assert_eq!(
        commands,
        vec![
            TranscriptCommand::Insert { editor: 0, text: "a\nb\tc d".to_string() },
            TranscriptCommand::Move { editor: 1, offset: -3 },
            TranscriptCommand::Delete { editor: 0, count: 2 },
            TranscriptCommand::Undo { editor: 1 },
            TranscriptCommand::Redo { editor: 1 },
            TranscriptCommand::Send { editor: 0 },
            TranscriptCommand::BeginGroup { editor: 0 },
            TranscriptCommand::EndGroup { editor: 0 },
            TranscriptCommand::Check,
        ]
    );
    assert_eq!(get_editor_count(&commands), 2);
}

#[test]
fn headers_end_at_the_first_empty_line() {
    let headers = parse_headers("Name: a\n  \nKey: b\n");
    assert_eq!(headers.get("Name").unwrap(), "a");
    assert!(headers.get("Key").is_none());
}

#[test]
fn later_header_wins_and_title_has_a_default() {
    let headers = parse_headers("Name: a\nno colon\nName: b");
    assert_eq!(title(&headers), "b");
    assert_eq!(title(&parse_headers("")), "Unnamed Test");
}

#[test]
fn missing_arguments() {
    assert_eq!(
        parse_transcript("\nE1 MOVE").err(),
        Some(TranscriptError::MissingOffset)
    );
    assert_eq!(
        parse_transcript("\nE1 INSERT").err(),
        Some(TranscriptError::MissingText)
    );
    assert_eq!(
        parse_transcript("\nE1 DELETE").err(),
        Some(TranscriptError::MissingCount)
    );
    assert_eq!(TranscriptError::MissingOffset.message(), "MOVE requires offset");
    assert_eq!(TranscriptError::MissingText.message(), "INSERT requires text");
    assert_eq!(TranscriptError::MissingCount.message(), "DELETE requires count");
}

#[test]
fn unknown_command() {
    let e = parse_transcript("\nE1 JUMP 3").err().unwrap();
    assert_eq!(e, TranscriptError::UnknownCommand("JUMP".to_string()));
    assert_eq!(e.message(), "Unknown command: JUMP");
}

#[test]
fn numbers_that_cannot_be_read() {
    assert_eq!(
        parse_transcript("\nEx MOVE 1").err(),
        Some(TranscriptError::Number(NumberError::InvalidDigit))
    );
    assert_eq!(
        parse_transcript("\nE MOVE 1").err(),
        Some(TranscriptError::Number(NumberError::Empty))
    );
    assert_eq!(
        parse_transcript("\nE1 MOVE 9223372036854775808").err(),
        Some(TranscriptError::Number(NumberError::TooLarge))
    );
    assert_eq!(
        parse_transcript("\nE1 MOVE -9223372036854775809").err(),
        Some(TranscriptError::Number(NumberError::TooSmall))
    );
    assert_eq!(
        TranscriptError::Number(NumberError::InvalidDigit).message(),
        "x".parse::<usize>().unwrap_err().to_string()
    );
    assert_eq!(
        TranscriptError::Number(NumberError::Empty).message(),
        "".parse::<usize>().unwrap_err().to_string()
    );
    assert_eq!(
        TranscriptError::Number(NumberError::TooLarge).message(),
        "9223372036854775808".parse::<i64>().unwrap_err().to_string()
    );
    assert_eq!(
        TranscriptError::Number(NumberError::TooSmall).message(),
        "-9223372036854775809".parse::<i64>().unwrap_err().to_string()
    );
}

#[test]
fn editor_zero_is_refused() {
    assert_eq!(
        parse_checked("\nE0 SEND").err(),
        Some(TranscriptError::EditorZero)
    );
}

#[test]
fn plan_counts_editors() {
    let plan = plan_run(SCRIPT).unwrap();
    assert_eq!(plan.title, "Two editors");
    assert_eq!(plan.editors, 2);
    assert_eq!(plan.commands.len(), 9);
    let plan = plan_run("Name: x\n\n===CHECK===").unwrap();
    assert_eq!(plan.editors, 1);
}

#[test]
fn commands_are_written_out() {
    let commands = vec![
        TranscriptCommand::Move { editor: 1, offset: -3 },
        TranscriptCommand::Insert { editor: 0, text: "a\n\"b\" é".to_string() },
        TranscriptCommand::Delete { editor: 0, count: 2 },
        TranscriptCommand::Undo { editor: 1 },
        TranscriptCommand::Redo { editor: 1 },
        TranscriptCommand::Send { editor: 0 },
        TranscriptCommand::BeginGroup { editor: 0 },
        TranscriptCommand::EndGroup { editor: 0 },
        TranscriptCommand::Check,
    ];
    for c in &commands {
        assert_eq!(c.to_text(), format!("{:?}", c));
    }
    assert_eq!(commands[1].to_text(), "Insert { editor: 0, text: \"a\\n\\\"b\\\" é\" }");
}

#[test]
fn lines_that_mean_nothing() {
    let top = "Name: a\r\n\r\n";
    let plain = format!("{}E1 MOVE 2\nE2 UNDO\r", top);
    let (headers, commands) = parse_transcript(&plain).unwrap();
    assert_eq!(commands.len(), 2);
    for line in ["", "  \t", "# remark", "Name: b", "e1 UNDO", "E7", "===CHECK"] {
        let between = format!("{}{}\nE1 MOVE 2\nE2 UNDO\r", top, line);
        let behind = format!("{}E1 MOVE 2\nE2 UNDO\r\n{}", top, line);
        for more in [between, behind] {
            let (h, c) = parse_transcript(&more).unwrap();
            assert_eq!(h.get("Name"), headers.get("Name"));
            assert_eq!(c, commands);
        }
    }
    let bad = format!("{}E1 JUMP\n", top);
    let more = format!("{}# remark\nE1 JUMP\n", top);
    assert_eq!(parse_transcript(&more).err(), parse_transcript(&bad).err());
}
