use hex_editor::keys::{press_key, KeyAction};

#[test]
fn text_keys_are_typed() {
    let mut pending = Vec::new();
    for key in b"get 1A" {
        assert!(matches!(press_key(&mut pending, *key), KeyAction::Redraw));
    }
    assert_eq!(pending, b"get 1A".to_vec());
    for key in [b'Z', b'.', b'-', b'/', b':', b'@', b'[', b'`', b'{', 0, 127, 200] {
        assert!(matches!(press_key(&mut pending, key), KeyAction::Redraw));
    }
    assert_eq!(pending, b"get 1A".to_vec());
    for key in [b'A', b'Y', b'a', b'z', b'0', b'9', b' '] {
        press_key(&mut pending, key);
    }
    assert_eq!(pending, b"get 1AAYaz09 ".to_vec());
}

#[test]
fn backspace_takes_the_last_character_back() {
    let mut pending = b"ab".to_vec();
    assert!(matches!(press_key(&mut pending, 8), KeyAction::Redraw));
    assert_eq!(pending, b"a".to_vec());
    press_key(&mut pending, 8);
    press_key(&mut pending, 8);
    assert_eq!(pending, Vec::<u8>::new());
}

#[test]
fn enter_hands_the_command_out() {
    let mut pending = b"save".to_vec();
    match press_key(&mut pending, 13) {
        KeyAction::Submit { line } => assert_eq!(line, b"save".to_vec()),
        other => panic!("{:?}", other),
    }
    assert_eq!(pending, Vec::<u8>::new());
}

#[test]
fn escape_and_interrupt_leave_the_command_alone() {
    let mut pending = b"qu".to_vec();
    assert!(matches!(press_key(&mut pending, 27), KeyAction::Leave));
    assert!(matches!(press_key(&mut pending, 3), KeyAction::Exit));
    assert_eq!(pending, b"qu".to_vec());
}
