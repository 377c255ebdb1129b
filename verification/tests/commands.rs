use spatial_annotation_sync::cli::{handle_command, parse_command, Command, CommandError, Outcome};
use spatial_annotation_sync::crdt::{AnnotationId, Point, SpatialEnvironment};

fn parsed(line: &str) -> Result<Command, CommandError> {
    parse_command(line).expect("a finished command")
}

fn error_of(line: &str) -> CommandError {
    match parsed(line) {
        Err(e) => e,
        Ok(c) => panic!("{line:?} parsed as {c:?}"),
    }
}

#[test]
fn parse_exit_and_list() {
    assert!(matches!(parsed("exit"), Ok(Command::Exit)));
    assert!(matches!(parsed("  list  "), Ok(Command::List)));
    assert!(matches!(parsed("list extra words"), Ok(Command::List)));
}

#[test]
fn parse_add_with_quoted_words() {
    match parsed("add 5 \"(1, 2)\" 'Front door'") {
        Ok(Command::Add { id, text, coord }) => {
            assert_eq!(id, 5);
            assert_eq!(text, "Front door");
            assert_eq!(coord, Point(1, 2));
        }
        other => panic!("unexpected {other:?}"),
    }
    match parsed("add +340282366920938463463374607431768211455 (0,-1) x") {
        Ok(Command::Add { id, .. }) => assert_eq!(id, u128::MAX),
        other => panic!("unexpected {other:?}"),
    }
}

#[test]
fn parse_errors() {
    assert_eq!(error_of(""), CommandError::EmptyInput);
    assert_eq!(error_of("   "), CommandError::EmptyInput);
    assert_eq!(error_of("# only a comment"), CommandError::EmptyInput);
    assert_eq!(error_of("frobnicate"), CommandError::UnknownCommand);
    assert_eq!(error_of("add 5 (1,2)"), CommandError::IncorrectArgumentCount);
    assert_eq!(error_of("add x (1,2) t"), CommandError::NotU128);
    assert_eq!(error_of("add -7 (1,2) t"), CommandError::NotU128);
    assert_eq!(error_of("add 340282366920938463463374607431768211456 (1,2) t"), CommandError::NotU128);
    assert_eq!(error_of("add 1 (1,2 t"), CommandError::NotPointFormated);
    assert_eq!(error_of("add 1 \"oops"), CommandError::UnmatchedQuote);
    assert_eq!(error_of("edit 1"), CommandError::IncorrectArgumentCount);
    assert_eq!(error_of("move 1 (1,2)"), CommandError::IncorrectArgumentCount);
    assert_eq!(error_of("delete"), CommandError::IncorrectArgumentCount);
}

#[test]
fn unfinished_commands_are_reported() {
    assert!(parse_command("edit 1 text").is_none());
    assert!(parse_command("move 1 (1,2) text").is_none());
    assert!(parse_command("delete 1").is_none());
    assert!(parse_command("sync").is_none());
}

#[test]
fn error_messages() {
    assert_eq!(CommandError::EmptyInput.message(), "Empty input");
    assert_eq!(CommandError::UnmatchedQuote.message(), "Unmatched quote");
    assert_eq!(CommandError::NotPointFormated.message(), "Argument should be a (x, y)");
}

#[test]
fn handle_add_then_list_then_exit() {
    let mut env = SpatialEnvironment::new();
    let outcome = handle_command(
        &mut env,
        Command::Add { id: 7, text: String::from("Bed"), coord: Point(2, 1) },
    );
    assert!(matches!(outcome, Outcome::Created(AnnotationId(7))));
    let stored = env.read_annotation(AnnotationId::new(7)).expect("stored");
    assert_eq!(stored.get_coord(), Some(&Point(2, 1)));
    assert_eq!(stored.get_text().map(|s| s.as_str()), Some("Bed"));
    match handle_command(&mut env, Command::List) {
        Outcome::Listing(items) => assert_eq!(items.len(), 1),
        other => panic!("unexpected {other:?}"),
    }
    assert!(matches!(handle_command(&mut env, Command::Exit), Outcome::Quit));
    assert_eq!(env.len(), 1);
}

#[test]
fn annotation_label_shows_last_two_hex_digits() {
    assert_eq!(AnnotationId::new(0xab).to_display_string(), "id-ab");
    assert_eq!(AnnotationId::new(1).to_display_string(), "id-01");
    let id: u128 = 0x1234_5678_9abc_def0_0fed_cba9_8765_4321;
    let simple = uuid::Uuid::from_u128(id).simple().to_string();
    assert_eq!(AnnotationId::new(id).to_display_string(), format!("id-{}", &simple[30..32]));
}
