//! The command interpreter.
//!
//! A line of input is cut at its spaces into a name and arguments. The name,
//! whatever its case, selects what is to be done; the interpreter decides and
//! hands back an `Action`, and its caller does the talking to the terminal
//! and to the file system.

use vstd::prelude::*;
use vstd::string::*;
use crate::buffer::{all_decodable, is_contents, EditError, EditorState};
use crate::fuzzy::{chars_of, is_first_nearest, nearest, words_of};

verus! {

/// What the caller is to do after a command.
#[derive(Debug)]
pub enum Action {
    /// List the commands with their descriptions and wait for a key.
    ShowHelp,
    /// End the session without writing.
    Quit,
    /// Show `line`, which is line `index`, read its replacement and hand it
    /// to `replace_line`.
    EditLine { index: usize, line: Vec<u8> },
    /// Write the buffer's contents to `path`, or to the buffer's own file.
    Save { path: Option<Vec<char>> },
    /// Nothing was entered.
    Nothing,
    /// The name is no command: offer the command at this place in the list.
    Suggest { candidate: Option<usize> },
    /// Tell the user, and go on.
    Report { error: EditError },
}

/// The interpreter with the buffer it works on.
pub struct CommandLine {
    /// The buffer.
    pub editor: EditorState,
    /// The commands: name and description.
    pub command_names: Vec<(String, String)>,
}

/// The character of a space.
pub const BLANK: char = ' ';

/// The largest offset that can be asked for.
pub const MAX_OFFSET: i32 = 0x7FFF_FFFF;

/// The tokens of a line: what stands between its spaces. A line without a
/// space is one token, and two spaces in a row hold an empty token.
pub open spec fn split_spec(text: Seq<char>) -> Seq<Seq<char>>
    decreases text.len(),
{
    if text.len() == 0 {
        seq![Seq::<char>::empty()]
    } else {
        let head = split_spec(text.drop_last());
        if text.last() == BLANK {
            head.push(Seq::<char>::empty())
        } else {
            head.update(head.len() - 1, head.last().push(text.last()))
        }
    }
}

/// A character, an ASCII capital replaced by its small letter.
pub open spec fn folded(c: char) -> char {
    match c {
        'A' => 'a',
        'B' => 'b',
        'C' => 'c',
        'D' => 'd',
        'E' => 'e',
        'F' => 'f',
        'G' => 'g',
        'H' => 'h',
        'I' => 'i',
        'J' => 'j',
        'K' => 'k',
        'L' => 'l',
        'M' => 'm',
        'N' => 'n',
        'O' => 'o',
        'P' => 'p',
        'Q' => 'q',
        'R' => 'r',
        'S' => 's',
        'T' => 't',
        'U' => 'u',
        'V' => 'v',
        'W' => 'w',
        'X' => 'x',
        'Y' => 'y',
        'Z' => 'z',
        _ => c,
    }
}

/// Whether `token` is `word` but for the case of its letters.
pub open spec fn matches_name(token: Seq<char>, word: Seq<char>) -> bool {
    &&& token.len() == word.len()
    &&& forall|k: int| 0 <= k < token.len() ==> folded(#[trigger] token[k]) == word[k]
}

/// The name of the command that lists the commands.
pub open spec fn word_help() -> Seq<char> {
    seq!['h', 'e', 'l', 'p']
}

/// The name of the command that ends the session.
pub open spec fn word_quit() -> Seq<char> {
    seq!['q', 'u', 'i', 't']
}

/// The name of the command that selects a line to edit.
pub open spec fn word_get() -> Seq<char> {
    seq!['g', 'e', 't']
}

/// The name of the command that writes the file.
pub open spec fn word_save() -> Seq<char> {
    seq!['s', 'a', 'v', 'e']
}

/// The value of a hexadecimal digit of either case, if `c` is one.
pub open spec fn char_digit(c: char) -> Option<int> {
    match c {
        '0' => Some(0),
        '1' => Some(1),
        '2' => Some(2),
        '3' => Some(3),
        '4' => Some(4),
        '5' => Some(5),
        '6' => Some(6),
        '7' => Some(7),
        '8' => Some(8),
        '9' => Some(9),
        'A' | 'a' => Some(10),
        'B' | 'b' => Some(11),
        'C' | 'c' => Some(12),
        'D' | 'd' => Some(13),
        'E' | 'e' => Some(14),
        'F' | 'f' => Some(15),
        _ => None,
    }
}

/// Whether every character is a hexadecimal digit.
pub open spec fn all_hex(text: Seq<char>) -> bool {
    forall|k: int| 0 <= k < text.len() ==> (#[trigger] char_digit(text[k])) is Some
}

/// The number that hexadecimal digits write.
pub open spec fn hex_value(text: Seq<char>) -> int
    decreases text.len(),
{
    if text.len() == 0 {
        0
    } else {
        16 * hex_value(text.drop_last()) + char_digit(text.last()).unwrap()
    }
}

/// The byte offset that `text` writes: one hexadecimal digit or more, no
/// sign, and a value up to the largest offset.
pub open spec fn parse_offset_spec(text: Seq<char>) -> Option<int> {
    if text.len() > 0 && all_hex(text) && hex_value(text) <= MAX_OFFSET {
        Some(hex_value(text))
    } else {
        None
    }
}

/// The names of a list of commands.
pub open spec fn names_of(commands: Seq<(String, String)>) -> Seq<Seq<char>> {
    Seq::new(commands.len(), |k: int| commands[k].0@)
}

/// What `get` with these arguments leads to, on a buffer of these lines.
pub open spec fn is_get_action(args: Seq<Seq<char>>, lines: Seq<Seq<u8>>, r: Action) -> bool {
    let offset = if args.len() < 2 {
        None
    } else {
        parse_offset_spec(args[1])
    };
    match offset {
        None => r == (Action::Report { error: EditError::InvalidOffset }),
        Some(at) => if at / 16 < lines.len() {
            match r {
                Action::EditLine { index, line } => index == at / 16 && line@ == lines[at / 16],
                _ => false,
            }
        } else {
            r == (Action::Report { error: EditError::LineOutOfRange })
        },
    }
}

/// Whether `r` is what the tokens `args` of a command lead to, on a buffer of
/// these lines and with these command names to suggest from.
pub open spec fn is_action(
    args: Seq<Seq<char>>,
    lines: Seq<Seq<u8>>,
    names: Seq<Seq<char>>,
    r: Action,
) -> bool {
    let name = args[0];
    if matches_name(name, word_help()) {
        r == Action::ShowHelp
    } else if matches_name(name, word_quit()) {
        r == Action::Quit
    } else if matches_name(name, word_get()) {
        is_get_action(args, lines, r)
    } else if matches_name(name, word_save()) {
        match r {
            Action::Save { path: Some(p) } => args.len() >= 2 && p@ == args[1],
            Action::Save { path: None } => args.len() < 2,
            _ => false,
        }
    } else if name.len() == 0 {
        r == Action::Nothing
    } else {
        match r {
            Action::Suggest { candidate: Some(p) } => is_first_nearest(name, names, p as int),
            Action::Suggest { candidate: None } => names.len() == 0,
            _ => false,
        }
    }
}

/// A prefix of hexadecimal digits writes no more than the whole.
pub proof fn lemma_hex_value_prefix(text: Seq<char>, i: int)
    requires
        all_hex(text),
        0 <= i <= text.len(),
    ensures
        0 <= hex_value(text.take(i)) <= hex_value(text),
    decreases text.len(),
{
    if i == text.len() {
        assert(text.take(i) =~= text);
        if text.len() > 0 {
            assert(char_digit(text[text.len() - 1]) is Some);
            assert(all_hex(text.drop_last())) by {
                assert forall|k: int| 0 <= k < text.drop_last().len() implies (
                #[trigger] char_digit(text.drop_last()[k])) is Some by {
                    assert(char_digit(text[k]) is Some);
                }
            }
            lemma_hex_value_prefix(text.drop_last(), i - 1);
            assert(text.drop_last().take(i - 1) =~= text.drop_last());
        }
    } else {
        assert(char_digit(text[text.len() - 1]) is Some);
        assert(all_hex(text.drop_last())) by {
            assert forall|k: int| 0 <= k < text.drop_last().len() implies (#[trigger] char_digit(
                text.drop_last()[k],
            )) is Some by {
                assert(char_digit(text[k]) is Some);
            }
        }
        lemma_hex_value_prefix(text.drop_last(), i);
        lemma_hex_value_prefix(text.drop_last(), text.len() - 1);
        assert(text.drop_last().take(i) =~= text.take(i));
        assert(text.drop_last().take(text.len() - 1) =~= text.drop_last());
    }
}

/// Cuts a line at its spaces.
pub fn tokenize(command: &[char]) -> (tokens: Vec<Vec<char>>)
    ensures
        words_of(tokens@) == split_spec(command@),
        tokens@.len() >= 1,
{
    let mut tokens: Vec<Vec<char>> = Vec::new();
    let mut current: Vec<char> = Vec::new();
    let mut i: usize = 0;
    while i < command.len()
        invariant
            i <= command.len(),
            split_spec(command@.take(i as int)) == words_of(tokens@).push(current@),
        decreases command.len() - i,
    {
        let ghost head = split_spec(command@.take(i as int));
        proof {
            assert(command@.take(i + 1).drop_last() =~= command@.take(i as int));
        }
        if command[i] == BLANK {
            tokens.push(current);
            current = Vec::new();
            proof {
                assert(words_of(tokens@) =~= head);
            }
        } else {
            current.push(command[i]);
            proof {
                assert(head.update(head.len() - 1, head.last().push(command@[i as int]))
                    =~= words_of(tokens@).push(current@));
            }
        }
        i += 1;
    }
    proof {
        assert(command@.take(i as int) =~= command@);
    }
    tokens.push(current);
    proof {
        assert(words_of(tokens@) =~= split_spec(command@));
    }
    tokens
}

/// A character, an ASCII capital replaced by its small letter.
pub fn fold_case(c: char) -> (r: char)
    ensures
        r == folded(c),
{
    match c {
        'A' => 'a',
        'B' => 'b',
        'C' => 'c',
        'D' => 'd',
        'E' => 'e',
        'F' => 'f',
        'G' => 'g',
        'H' => 'h',
        'I' => 'i',
        'J' => 'j',
        'K' => 'k',
        'L' => 'l',
        'M' => 'm',
        'N' => 'n',
        'O' => 'o',
        'P' => 'p',
        'Q' => 'q',
        'R' => 'r',
        'S' => 's',
        'T' => 't',
        'U' => 'u',
        'V' => 'v',
        'W' => 'w',
        'X' => 'x',
        'Y' => 'y',
        'Z' => 'z',
        _ => c,
    }
}

/// Whether `token` is `word` but for the case of its letters; `word` is in
/// lower case.
pub fn is_word(token: &[char], word: &[char]) -> (r: bool)
    ensures
        r == matches_name(token@, word@),
{
    if token.len() != word.len() {
        return false;
    }
    let mut k: usize = 0;
    while k < token.len()
        invariant
            k <= token.len(),
            token.len() == word.len(),
            forall|q: int| 0 <= q < k ==> folded(#[trigger] token@[q]) == word@[q],
        decreases token.len() - k,
    {
        if fold_case(token[k]) != word[k] {
            proof {
                assert(folded(token@[k as int]) != word@[k as int]);
            }
            return false;
        }
        k += 1;
    }
    true
}

/// The value of the digit `c`, or `None` where `c` is no hexadecimal digit.
pub fn char_digit_of(c: char) -> (v: Option<u8>)
    ensures
        match v {
            Some(n) => char_digit(c) == Some(n as int) && n < 16,
            None => char_digit(c) is None,
        },
{
    match c {
        '0' => Some(0u8),
        '1' => Some(1u8),
        '2' => Some(2u8),
        '3' => Some(3u8),
        '4' => Some(4u8),
        '5' => Some(5u8),
        '6' => Some(6u8),
        '7' => Some(7u8),
        '8' => Some(8u8),
        '9' => Some(9u8),
        'A' | 'a' => Some(10u8),
        'B' | 'b' => Some(11u8),
        'C' | 'c' => Some(12u8),
        'D' | 'd' => Some(13u8),
        'E' | 'e' => Some(14u8),
        'F' | 'f' => Some(15u8),
        _ => None,
    }
}

/// Reads a byte offset written in hexadecimal digits.
pub fn parse_offset(text: &[char]) -> (r: Option<i32>)
    ensures
        match r {
            Some(v) => parse_offset_spec(text@) == Some(v as int) && v >= 0,
            None => parse_offset_spec(text@) is None,
        },
{
    if text.len() == 0 {
        return None;
    }
    let mut value: i32 = 0;
    let mut i: usize = 0;
    while i < text.len()
        invariant
            i <= text.len(),
            all_hex(text@.take(i as int)),
            value == hex_value(text@.take(i as int)),
            0 <= value <= MAX_OFFSET,
        decreases text.len() - i,
    {
        proof {
            assert(text@.take(i + 1).drop_last() =~= text@.take(i as int));
        }
        match char_digit_of(text[i]) {
            None => {
                proof {
                    assert(char_digit(text@[i as int]) is None);
                }
                return None;
            },
            Some(d) => {
                proof {
                    assert forall|k: int| 0 <= k < i + 1 implies (#[trigger] char_digit(
                        text@.take(i + 1)[k],
                    )) is Some by {
                        if k < i {
                            assert(text@.take(i as int)[k] == text@[k]);
                        }
                    }
                }
                if value > (MAX_OFFSET - d as i32) / 16 {
                    proof {
                        assert(hex_value(text@.take(i + 1)) > MAX_OFFSET);
                        if all_hex(text@) {
                            lemma_hex_value_prefix(text@, i + 1);
                        }
                    }
                    return None;
                }
                value = value * 16 + d as i32;
            },
        }
        i += 1;
    }
    proof {
        assert(text@.take(i as int) =~= text@);
    }
    Some(value)
}

impl CommandLine {
    /// The interpreter for a buffer, with the four commands.
    pub fn new(editor: EditorState) -> (r: CommandLine)
        ensures
            r.editor == editor,
            r.command_names@.len() == 4,
            r.command_names@[0].0@ == "help"@,
            r.command_names@[0].1@ == "Prints the help menu"@,
            r.command_names@[1].0@ == "quit"@,
            r.command_names@[1].1@ == "Quit the menu"@,
            r.command_names@[2].0@ == "get"@,
            r.command_names@[2].1@ == "Get a line of hex and be able to edit it."@,
            r.command_names@[3].0@ == "save"@,
            r.command_names@[3].1@ == "Save the file"@,
    {
        let mut commands: Vec<(String, String)> = Vec::new();
        commands.push((String::from_str("help"), String::from_str("Prints the help menu")));
        commands.push((String::from_str("quit"), String::from_str("Quit the menu")));
        commands.push(
            (
                String::from_str("get"),
                String::from_str("Get a line of hex and be able to edit it."),
            ),
        );
        commands.push((String::from_str("save"), String::from_str("Save the file")));
        CommandLine { editor, command_names: commands }
    }

    /// Decides what a line of input asks for. The buffer is left as it is.
    pub fn new_command(&mut self, command: String) -> (r: Action)
        ensures
            *final(self) == *old(self),
            is_action(
                split_spec(command@),
                old(self).editor@.lines,
                names_of(old(self).command_names@),
                r,
            ),
    {
        let text = chars_of(command.as_str());
        let args = tokenize(text.as_slice());
        self.parse_command(&args)
    }

    /// Decides what the tokens of a command ask for. The buffer is left as it
    /// is.
    pub fn parse_command(&mut self, args: &Vec<Vec<char>>) -> (r: Action)
        requires
            args@.len() >= 1,
        ensures
            *final(self) == *old(self),
            is_action(
                words_of(args@),
                old(self).editor@.lines,
                names_of(old(self).command_names@),
                r,
            ),
    {
        let name = args[0].as_slice();
        let help: Vec<char> = vec!['h', 'e', 'l', 'p'];
        let quit: Vec<char> = vec!['q', 'u', 'i', 't'];
        let get: Vec<char> = vec!['g', 'e', 't'];
        let save: Vec<char> = vec!['s', 'a', 'v', 'e'];
        proof {
            assert(help@ =~= word_help());
            assert(quit@ =~= word_quit());
            assert(get@ =~= word_get());
            assert(save@ =~= word_save());
            assert(words_of(args@)[0] == name@);
        }
        if is_word(name, help.as_slice()) {
            Action::ShowHelp
        } else if is_word(name, quit.as_slice()) {
            Action::Quit
        } else if is_word(name, get.as_slice()) {
            self.select_line(args)
        } else if is_word(name, save.as_slice()) {
            if args.len() >= 2 {
                let mut path: Vec<char> = Vec::new();
                let given = args[1].as_slice();
                let mut k: usize = 0;
                while k < given.len()
                    invariant
                        k <= given.len(),
                        path@ == given@.take(k as int),
                    decreases given.len() - k,
                {
                    path.push(given[k]);
                    k += 1;
                    proof {
                        assert(path@ =~= given@.take(k as int));
                    }
                }
                proof {
                    assert(given@.take(k as int) =~= given@);
                    assert(words_of(args@)[1] == given@);
                }
                Action::Save { path: Some(path) }
            } else {
                Action::Save { path: None }
            }
        } else if name.len() == 0 {
            Action::Nothing
        } else {
            let mut names: Vec<Vec<char>> = Vec::new();
            let mut k: usize = 0;
            while k < self.command_names.len()
                invariant
                    k <= self.command_names@.len(),
                    names@.len() == k,
                    forall|q: int|
                        0 <= q < k ==> (#[trigger] names@[q])@ == self.command_names@[q].0@,
                decreases self.command_names@.len() - k,
            {
                names.push(chars_of(self.command_names[k].0.as_str()));
                k += 1;
            }
            proof {
                assert(words_of(names@) =~= names_of(self.command_names@));
            }
            Action::Suggest { candidate: nearest(name, &names) }
        }
    }

    /// Finds the line that `get` asks for: the one that holds the byte at
    /// the offset given as the first argument.
    pub fn select_line(&self, args: &Vec<Vec<char>>) -> (r: Action)
        requires
            args@.len() >= 1,
        ensures
            is_get_action(words_of(args@), self.editor@.lines, r),
    {
        if args.len() < 2 {
            return Action::Report { error: EditError::InvalidOffset };
        }
        proof {
            assert(words_of(args@)[1] == args@[1]@);
        }
        match parse_offset(args[1].as_slice()) {
            None => Action::Report { error: EditError::InvalidOffset },
            Some(at) => {
                let index: usize = (at / 16) as usize;
                match self.editor.get_line(index) {
                    Ok(line) => Action::EditLine { index, line },
                    Err(e) => Action::Report { error: e },
                }
            },
        }
    }

    /// Takes the replacement that the user gave for line `index`. An empty
    /// replacement changes nothing. Any other text takes the line's place as
    /// it is, and the dump is made anew at once: where the new line does not
    /// decode, that is `CorruptLine`, and the line stays replaced.
    pub fn replace_line(&mut self, index: usize, input: Vec<u8>) -> (r: Result<(), EditError>)
        requires
            old(self).editor@.wf(),
        ensures
            final(self).command_names == old(self).command_names,
            final(self).editor@.wf(),
            input@.len() == 0 ==> r is Ok && *final(self) == *old(self),
            input@.len() > 0 && index >= old(self).editor@.lines.len() ==> r == Err::<
                (),
                EditError,
            >(EditError::LineOutOfRange) && *final(self) == *old(self),
            input@.len() > 0 && index < old(self).editor@.lines.len() ==> final(self).editor@
                == old(self).editor@.with_line(index as int, input@).rendered() && r == (
            if all_decodable(old(self).editor@.lines.update(index as int, input@)) {
                Ok::<(), EditError>(())
            } else {
                Err::<(), EditError>(EditError::CorruptLine)
            }),
    {
        if input.len() == 0 {
            return Ok(());
        }
        match self.editor.set_line(index, input) {
            Err(e) => Err(e),
            Ok(_) => match self.editor.render() {
                Ok(_) => Ok(()),
                Err(e) => Err(e),
            },
        }
    }

    /// The file that the buffer stands for, to be written by `save`.
    pub fn save_contents(&self) -> (r: Result<Vec<u8>, EditError>)
        ensures
            is_contents(
                self.editor@.lines,
                match r {
                    Ok(bytes) => Ok(bytes@),
                    Err(e) => Err(e),
                },
            ),
    {
        self.editor.contents()
    }
}

} // verus!
