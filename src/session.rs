use vstd::prelude::*;

use crate::cursor::Motion;
use crate::position::SearchDirection;
use crate::row::push_char;

verus! {

/// A key press, as the editor reads it.
#[derive(PartialEq, Eq, Structural, Copy, Clone, Debug)]
pub enum Input {
    /// A character typed without the control key.
    Char(char),
    /// A character typed with the control key.
    Ctrl(char),
    Enter,
    Backspace,
    Delete,
    Tab,
    Esc,
    Move(Motion),
    Other,
}

/// What the editor does for a key press.
#[derive(PartialEq, Eq, Structural, Copy, Clone, Debug)]
pub enum Command {
    Quit,
    Save,
    Find,
    Insert(char),
    Newline,
    DeleteForward,
    DeleteBackward,
    Indent,
    Move(Motion),
    Nothing,
}

/// The command for a key press: control with q, s or f (either case) quits,
/// saves or searches; a plain character is typed in.
pub open spec fn command_of(key: Input) -> Command {
    match key {
        Input::Ctrl(c) => if c == 'q' || c == 'Q' {
            Command::Quit
        } else if c == 's' || c == 'S' {
            Command::Save
        } else if c == 'f' || c == 'F' {
            Command::Find
        } else {
            Command::Nothing
        },
        Input::Char(c) => Command::Insert(c),
        Input::Enter => Command::Newline,
        Input::Delete => Command::DeleteForward,
        Input::Backspace => Command::DeleteBackward,
        Input::Tab => Command::Indent,
        Input::Move(m) => Command::Move(m),
        Input::Esc => Command::Nothing,
        Input::Other => Command::Nothing,
    }
}

/// The command for a key press.
pub fn command_for(key: Input) -> (r: Command)
    ensures
        r == command_of(key),
{
    match key {
        Input::Ctrl(c) => {
            if c == 'q' || c == 'Q' {
                Command::Quit
            } else if c == 's' || c == 'S' {
                Command::Save
            } else if c == 'f' || c == 'F' {
                Command::Find
            } else {
                Command::Nothing
            }
        },
        Input::Char(c) => Command::Insert(c),
        Input::Enter => Command::Newline,
        Input::Delete => Command::DeleteForward,
        Input::Backspace => Command::DeleteBackward,
        Input::Tab => Command::Indent,
        Input::Move(m) => Command::Move(m),
        Input::Esc => Command::Nothing,
        Input::Other => Command::Nothing,
    }
}

/// Relies on `String::pop`: the last character, if any, is removed.
#[verifier::external_body]
fn pop_char(s: &mut String)
    ensures
        final(s)@ == if old(s)@.len() > 0 {
            old(s)@.drop_last()
        } else {
            old(s)@
        },
{
    s.pop();
}

/// Applies a key press to the answer being typed at a prompt, and tells
/// whether the prompt is over. Enter ends it; escape or a control key ends it
/// with the answer cleared; backspace takes back one character; a character
/// is added.
pub fn prompt_edit(text: &mut String, key: Input) -> (done: bool)
    ensures
        done == (key is Enter || key is Esc || key is Ctrl),
        (key is Esc || key is Ctrl) ==> final(text)@ == Seq::<char>::empty(),
        key is Enter ==> final(text)@ == old(text)@,
        key is Backspace ==> final(text)@ == if old(text)@.len() > 0 {
            old(text)@.drop_last()
        } else {
            old(text)@
        },
        key is Char ==> final(text)@ == old(text)@.push(key->Char_0),
        (key is Delete || key is Tab || key is Move || key is Other) ==> final(text)@ == old(
            text,
        )@,
{
    match key {
        Input::Ctrl(_) => {
            *text = String::new();
            true
        },
        Input::Esc => {
            *text = String::new();
            true
        },
        Input::Enter => true,
        Input::Backspace => {
            pop_char(text);
            false
        },
        Input::Char(c) => {
            push_char(text, c);
            false
        },
        _ => false,
    }
}

/// What a prompt gives back once over: nothing where the session is ending or
/// the answer is empty, else the answer.
pub fn prompt_result(text: String, quitting: bool) -> (r: Option<String>)
    ensures
        (quitting || text@.len() == 0) ==> r is None,
        !(quitting || text@.len() == 0) ==> r is Some && r->Some_0@ == text@,
{
    if quitting || text.as_str().unicode_len() == 0 {
        None
    } else {
        Some(text)
    }
}

/// The answer to "save the modified document before quitting?".
#[derive(PartialEq, Eq, Structural, Copy, Clone, Debug)]
pub enum QuitAnswer {
    /// Save, then quit if saving worked.
    Save,
    /// Quit without saving.
    Discard,
    /// The answer is not understood: ask again.
    AskAgain,
    /// The prompt was abandoned: stay.
    Cancel,
}

/// The meaning of an answer to the quit question: y or Y saves, n or N
/// discards, no answer cancels, and anything else asks again.
pub fn quit_answer(response: &Option<String>) -> (r: QuitAnswer)
    ensures
        response is None ==> r == QuitAnswer::Cancel,
        response is Some ==> {
            let a = response->Some_0@;
            &&& (a == seq!['y'] || a == seq!['Y']) ==> r == QuitAnswer::Save
            &&& (a == seq!['n'] || a == seq!['N']) ==> r == QuitAnswer::Discard
            &&& !(a == seq!['y'] || a == seq!['Y'] || a == seq!['n'] || a == seq!['N']) ==> r
                == QuitAnswer::AskAgain
        },
{
    match response {
        None => QuitAnswer::Cancel,
        Some(a) => {
            let s = a.as_str();
            if s.unicode_len() != 1 {
                return QuitAnswer::AskAgain;
            }
            let c = s.get_char(0);
            proof {
                assert(s@ == seq![c]);
            }
            if c == 'y' || c == 'Y' {
                QuitAnswer::Save
            } else if c == 'n' || c == 'N' {
                QuitAnswer::Discard
            } else {
                QuitAnswer::AskAgain
            }
        },
    }
}

/// How an incremental search goes on after a key press: right or down looks
/// for the next match after stepping one cluster on; left or up looks for the
/// previous match; any other key searches forward from the cursor. The second
/// part tells whether to step first.
pub fn search_step(key: Input) -> (r: (SearchDirection, bool))
    ensures
        (key == Input::Move(Motion::Right) || key == Input::Move(Motion::Down)) ==> r == (
            SearchDirection::Forward,
            true,
        ),
        (key == Input::Move(Motion::Left) || key == Input::Move(Motion::Up)) ==> r == (
            SearchDirection::Backward,
            false,
        ),
        !(key == Input::Move(Motion::Right) || key == Input::Move(Motion::Down) || key
            == Input::Move(Motion::Left) || key == Input::Move(Motion::Up)) ==> r == (
            SearchDirection::Forward,
            false,
        ),
{
    match key {
        Input::Move(Motion::Right) | Input::Move(Motion::Down) => (SearchDirection::Forward, true),
        Input::Move(Motion::Left) | Input::Move(Motion::Up) => (SearchDirection::Backward, false),
        _ => (SearchDirection::Forward, false),
    }
}

} // verus!
