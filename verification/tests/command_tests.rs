use hex_editor::buffer::{EditError, EditorState};
use hex_editor::command::{fold_case, is_word, parse_offset, tokenize, Action, CommandLine};

fn session(raw: &[u8]) -> CommandLine {
    let mut state = EditorState::new("a.bin".to_string(), 0, Vec::new(), false, b".".to_vec());
    state.parse_file(raw);
    CommandLine::new(state)
}

fn chars(s: &str) -> Vec<char> {
    s.chars().collect()
}

#[test]
fn new_lists_the_four_commands() {
    let line = session(b"");
    let names: Vec<&str> = line.command_names.iter().map(|c| c.0.as_str()).collect();
    assert_eq!(names, vec!["help", "quit", "get", "save"]);
    assert_eq!(line.command_names[0].1, "Prints the help menu");
    assert_eq!(line.command_names[1].1, "Quit the menu");
    assert_eq!(line.command_names[2].1, "Get a line of hex and be able to edit it.");
    assert_eq!(line.command_names[3].1, "Save the file");
}

#[test]
fn tokenize_cuts_at_every_space() {
    assert_eq!(tokenize(&chars("get 10")), vec![chars("get"), chars("10")]);
    assert_eq!(tokenize(&chars("")), vec![chars("")]);
    assert_eq!(tokenize(&chars("a  b ")), vec![chars("a"), chars(""), chars("b"), chars("")]);
    assert_eq!(tokenize(&chars(" x")), vec![chars(""), chars("x")]);
}

#[test]
fn names_match_whatever_their_case() {
    assert_eq!(fold_case('A'), 'a');
    assert_eq!(fold_case('Z'), 'z');
    assert_eq!(fold_case('a'), 'a');
    assert_eq!(fold_case('['), '[');
    assert_eq!(fold_case('@'), '@');
    assert!(is_word(&chars("HeLp"), &chars("help")));
    assert!(!is_word(&chars("help"), &chars("hel")));
    assert!(!is_word(&chars("helq"), &chars("help")));
}

#[test]
fn parse_offset_reads_hexadecimal() {
    assert_eq!(parse_offset(&chars("10")), Some(16));
    assert_eq!(parse_offset(&chars("0")), Some(0));
    assert_eq!(parse_offset(&chars("fF")), Some(255));
    assert_eq!(parse_offset(&chars("0000000000001A")), Some(26));
    assert_eq!(parse_offset(&chars("7FFFFFFF")), Some(0x7FFF_FFFF));
    assert_eq!(parse_offset(&chars("80000000")), None);
    assert_eq!(parse_offset(&chars("123456789")), None);
    assert_eq!(parse_offset(&chars("")), None);
    assert_eq!(parse_offset(&chars("1g")), None);
    assert_eq!(parse_offset(&chars("-1")), None);
    assert_eq!(parse_offset(&chars("0x10")), None);
}

#[test]
fn help_quit_and_empty_input() {
    let mut line = session(b"abc");
    assert!(matches!(line.new_command("help".to_string()), Action::ShowHelp));
    assert!(matches!(line.new_command("HELP me".to_string()), Action::ShowHelp));
    assert!(matches!(line.new_command("Quit".to_string()), Action::Quit));
    assert!(matches!(line.new_command("".to_string()), Action::Nothing));
    assert!(matches!(line.new_command(" help".to_string()), Action::Nothing));
}

#[test]
fn get_selects_the_line_that_holds_the_offset() {
    let mut line = session(b"ABCDEFGHIJKLMNOPQRST");
    match line.new_command("get 10".to_string()) {
        Action::EditLine { index, line } => {
            assert_eq!(index, 1);
            assert_eq!(line, b"51 52 53 54 ".to_vec());
        }
        other => panic!("{:?}", other),
    }
    match line.new_command("GET f".to_string()) {
        Action::EditLine { index, line } => {
            assert_eq!(index, 0);
            assert_eq!(line, b"41 42 43 44 45 46 47 48 49 4A 4B 4C 4D 4E 4F 50 ".to_vec());
        }
        other => panic!("{:?}", other),
    }
    match line.new_command("get 1F".to_string()) {
        Action::EditLine { index, .. } => assert_eq!(index, 1),
        other => panic!("{:?}", other),
    }
}

#[test]
fn get_without_a_readable_offset_is_invalid_offset() {
    let mut line = session(b"ABCDEFGHIJKLMNOPQRST");
    for command in ["get", "get ", "get zz", "get -1", "get 80000000", "get  10"] {
        assert!(matches!(
            line.new_command(command.to_string()),
            Action::Report { error: EditError::InvalidOffset }
        ));
    }
}

#[test]
fn get_beyond_the_file_is_out_of_range_and_changes_nothing() {
    let mut line = session(b"ABCDEFGHIJKLMNOPQRST");
    line.editor.render().unwrap();
    let lines = line.editor.hex_lines.clone();
    let dump = line.editor.pretty_print.clone();
    let offset = line.editor.offset;
    for command in ["get 20", "get 21", "get 7FFFFFFF"] {
        assert!(matches!(
            line.new_command(command.to_string()),
            Action::Report { error: EditError::LineOutOfRange }
        ));
    }
    assert_eq!(line.editor.hex_lines, lines);
    assert_eq!(line.editor.pretty_print, dump);
    assert_eq!(line.editor.offset, offset);
    assert_eq!(line.editor.file, "a.bin");
    let mut empty = session(b"");
    assert!(matches!(
        empty.new_command("get 0".to_string()),
        Action::Report { error: EditError::LineOutOfRange }
    ));
}

#[test]
fn save_takes_the_path_if_one_is_given() {
    let mut line = session(b"abc");
    match line.new_command("save".to_string()) {
        Action::Save { path } => assert_eq!(path, None),
        other => panic!("{:?}", other),
    }
    match line.new_command("SAVE out.bin".to_string()) {
        Action::Save { path } => assert_eq!(path, Some(chars("out.bin"))),
        other => panic!("{:?}", other),
    }
    match line.new_command("save ".to_string()) {
        Action::Save { path } => assert_eq!(path, Some(chars(""))),
        other => panic!("{:?}", other),
    }
}

#[test]
fn an_unknown_name_gets_a_suggestion() {
    let mut line = session(b"abc");
    match line.new_command("hepl".to_string()) {
        Action::Suggest { candidate } => {
            assert_eq!(candidate, Some(0));
            assert_eq!(line.command_names[candidate.unwrap()].0, "help");
        }
        other => panic!("{:?}", other),
    }
    match line.new_command("sve now".to_string()) {
        Action::Suggest { candidate } => assert_eq!(candidate, Some(3)),
        other => panic!("{:?}", other),
    }
    line.command_names.clear();
    match line.new_command("hepl".to_string()) {
        Action::Suggest { candidate } => assert_eq!(candidate, None),
        other => panic!("{:?}", other),
    }
}

#[test]
fn parse_command_takes_the_tokens() {
    let mut line = session(b"ABCDEFGHIJKLMNOPQRST");
    assert!(matches!(line.parse_command(&vec![chars("quit")]), Action::Quit));
    match line.select_line(&vec![chars("get"), chars("10")]) {
        Action::EditLine { index, .. } => assert_eq!(index, 1),
        other => panic!("{:?}", other),
    }
}

#[test]
fn an_empty_replacement_changes_nothing() {
    let mut line = session(b"ABCDEFGHIJKLMNOPQRST");
    line.editor.render().unwrap();
    let dump = line.editor.pretty_print.clone();
    assert_eq!(line.replace_line(1, Vec::new()), Ok(()));
    assert_eq!(line.editor.hex_lines[1], b"51 52 53 54 ".to_vec());
    assert_eq!(line.editor.pretty_print, dump);
}

#[test]
fn a_replacement_is_stored_and_the_dump_made_anew() {
    let mut line = session(b"ABCDEFGHIJKLMNOPQRST");
    line.editor.render().unwrap();
    assert_eq!(line.replace_line(1, b"48 69".to_vec()), Ok(()));
    assert_eq!(line.editor.hex_lines[1], b"48 69".to_vec());
    let dump = line.editor.pretty_print.clone().unwrap();
    assert!(dump.ends_with(b"  Hi\n"));
    assert_eq!(line.editor.offset, 32);
    assert_eq!(line.replace_line(2, b"48".to_vec()), Err(EditError::LineOutOfRange));
    assert_eq!(line.editor.pretty_print, Some(dump));
    assert_eq!(line.replace_line(0, b"4".to_vec()), Err(EditError::CorruptLine));
    assert_eq!(line.editor.hex_lines[0], b"4".to_vec());
    assert_eq!(line.editor.pretty_print, None);
}

#[test]
fn load_edit_save_end_to_end() {
    let mut line = session(b"ABCDEFGHIJKLMNOPQRST");
    assert_eq!(line.editor.hex_lines.len(), 2);
    let index = match line.new_command("get 10".to_string()) {
        Action::EditLine { index, .. } => index,
        other => panic!("{:?}", other),
    };
    assert_eq!(index, 1);
    assert_eq!(line.replace_line(index, b"58 59".to_vec()), Ok(()));
    assert!(matches!(line.new_command("save".to_string()), Action::Save { path: None }));
    let written = line.save_contents().unwrap();
    assert_eq!(written.len(), 18);
    assert_eq!(written, b"ABCDEFGHIJKLMNOPXY".to_vec());
}
