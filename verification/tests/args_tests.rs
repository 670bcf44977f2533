use hex_editor::args::{classify, get_args, get_file_arg, same_text, Flag, Startup};

fn argv(list: &[&str]) -> Vec<String> {
    list.iter().map(|s| s.to_string()).collect()
}

#[test]
fn get_file_arg_is_the_argument_after_the_option() {
    let args = argv(&["prog", "-c", "-p", "file.bin"]);
    assert_eq!(get_file_arg(&args, 1), "file.bin");
    assert_eq!(get_file_arg(&args, 0), "-p");
}

#[test]
fn classify_knows_short_and_long_forms() {
    let of = |s: &str| classify(&s.chars().collect::<Vec<char>>());
    assert_eq!(of("-h"), Some(Flag::Help));
    assert_eq!(of("--help"), Some(Flag::Help));
    assert_eq!(of("-c"), Some(Flag::Colors));
    assert_eq!(of("--colors"), Some(Flag::Colors));
    assert_eq!(of("-p"), Some(Flag::Path));
    assert_eq!(of("--path"), Some(Flag::Path));
    assert_eq!(of("-H"), None);
    assert_eq!(of("--h"), None);
    assert_eq!(of("path"), None);
    assert_eq!(of(""), None);
    assert!(same_text(&['a', 'b'], &['a', 'b']));
    assert!(!same_text(&['a', 'b'], &['a', 'c']));
    assert!(!same_text(&['a'], &['a', 'b']));
}

#[test]
fn a_path_and_the_colors_flag() {
    match get_args(&argv(&["prog", "-p", "a.bin"])) {
        Startup::Run { args } => {
            assert_eq!(args.file, "a.bin");
            assert!(!args.colors);
        }
        other => panic!("{:?}", other),
    }
    match get_args(&argv(&["prog", "--colors", "--path", "b.bin"])) {
        Startup::Run { args } => {
            assert_eq!(args.file, "b.bin");
            assert!(args.colors);
        }
        other => panic!("{:?}", other),
    }
    match get_args(&argv(&["prog", "-p", "-c", "-p", "--help"])) {
        Startup::Run { args } => {
            assert_eq!(args.file, "--help");
            assert!(!args.colors);
        }
        other => panic!("{:?}", other),
    }
}

#[test]
fn no_file_named() {
    assert!(matches!(get_args(&argv(&["prog"])), Startup::NoFile));
    assert!(matches!(get_args(&argv(&[])), Startup::NoFile));
    assert!(matches!(get_args(&argv(&["prog", "-c"])), Startup::NoFile));
    assert!(matches!(get_args(&argv(&["prog", "-p"])), Startup::NoFile));
    assert!(matches!(get_args(&argv(&["prog", "-p", ""])), Startup::NoFile));
}

#[test]
fn help_and_unknown_arguments_end_the_reading() {
    assert!(matches!(get_args(&argv(&["prog", "-h", "bogus"])), Startup::Help));
    assert!(matches!(get_args(&argv(&["prog", "-c", "--help"])), Startup::Help));
    assert!(matches!(
        get_args(&argv(&["prog", "-c", "bogus", "-h"])),
        Startup::Unknown { place: 2 }
    ));
    assert!(matches!(get_args(&argv(&["prog", "a.bin"])), Startup::Unknown { place: 1 }));
}
