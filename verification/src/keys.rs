//! The command being typed: what each key does to it.

use vstd::prelude::*;

verus! {

/// The key that leaves the session.
pub const KEY_ESCAPE: u8 = 27;

/// The key that ends the program at once.
pub const KEY_INTERRUPT: u8 = 3;

/// The key that submits the command.
pub const KEY_ENTER: u8 = 13;

/// The key that takes the last character back.
pub const KEY_BACKSPACE: u8 = 8;

/// What the caller is to do after a key.
#[derive(Debug)]
pub enum KeyAction {
    /// Leave the session.
    Leave,
    /// End the program at once.
    Exit,
    /// Run this command; nothing is pending any more.
    Submit { line: Vec<u8> },
    /// Show the pending command again.
    Redraw,
}

/// Whether a key writes a character of a command: a letter from `A` to `Y`
/// or from `a` to `z`, a digit or a space.
pub open spec fn is_text_key(key: u8) -> bool {
    ||| 64 < key < 90
    ||| 96 < key < 123
    ||| 47 < key < 58
    ||| key == 32
}

/// The pending command after a key that neither submits nor leaves.
pub open spec fn typed(pending: Seq<u8>, key: u8) -> Seq<u8> {
    if is_text_key(key) {
        pending.push(key)
    } else if key == KEY_BACKSPACE && pending.len() > 0 {
        pending.drop_last()
    } else {
        pending
    }
}

/// Takes one key. Escape and interrupt leave the pending command alone; enter
/// hands it out and starts an empty one; any other key is typed.
pub fn press_key(pending: &mut Vec<u8>, key: u8) -> (r: KeyAction)
    ensures
        key == KEY_ESCAPE ==> r == KeyAction::Leave && final(pending)@ == old(pending)@,
        key == KEY_INTERRUPT ==> r == KeyAction::Exit && final(pending)@ == old(pending)@,
        key == KEY_ENTER ==> final(pending)@.len() == 0 && match r {
            KeyAction::Submit { line } => line@ == old(pending)@,
            _ => false,
        },
        key != KEY_ESCAPE && key != KEY_INTERRUPT && key != KEY_ENTER ==> r == KeyAction::Redraw
            && final(pending)@ == typed(old(pending)@, key),
{
    if key == KEY_ESCAPE {
        KeyAction::Leave
    } else if key == KEY_INTERRUPT {
        KeyAction::Exit
    } else if key == KEY_ENTER {
        let mut line: Vec<u8> = Vec::new();
        let mut k: usize = 0;
        while k < pending.len()
            invariant
                k <= pending@.len(),
                pending@ == old(pending)@,
                line@ == pending@.take(k as int),
            decreases pending@.len() - k,
        {
            line.push(pending[k]);
            k += 1;
            proof {
                assert(line@ =~= pending@.take(k as int));
            }
        }
        proof {
            assert(pending@.take(k as int) =~= pending@);
        }
        pending.clear();
        KeyAction::Submit { line }
    } else {
        if (key > 64 && key < 90) || (key > 96 && key < 123) || (key > 47 && key < 58) || key == 32 {
            pending.push(key);
        } else if key == KEY_BACKSPACE {
            if pending.len() > 0 {
                pending.pop();
            }
        }
        KeyAction::Redraw
    }
}

} // verus!
