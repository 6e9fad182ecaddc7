use vstd::prelude::*;

verus! {

/// A key press as the page reads it.
#[derive(Clone, Copy, Debug, PartialEq, Eq, Structural)]
pub enum Key {
    /// A character typed without exactly the control modifier.
    Char(char),
    /// A character typed with the control modifier alone.
    CtrlChar(char),
    Home,
    End,
    PageUp,
    PageDown,
    Up,
    Down,
    Enter,
    /// Any other key.
    Other,
}

/// What a key asks the page to do.
#[derive(Clone, Copy, Debug, PartialEq, Eq, Structural)]
pub enum Action {
    Quit,
    ScrollHome,
    ScrollEnd,
    /// Scroll up by half a screen.
    ScrollUp,
    /// Scroll down by half a screen.
    ScrollDown,
    CursorBackward,
    CursorForward,
    CursorBottom,
    CursorTop,
    CursorMiddle,
    /// Focus the outline on the module under the cursor.
    FoldCurrentModule,
    ExpandAll,
    ExpandZeroLevel,
    ExpandFirstLevelModules,
    /// Expand or fold the module under the cursor.
    ExpandToggle,
    Nothing,
}

/// The action of a typed character; `c` quits only with the control modifier.
pub open spec fn char_action(c: char, ctrl: bool) -> Action {
    if c == 'q' {
        Action::Quit
    } else if c == 'c' || c == 'C' {
        if ctrl {
            Action::Quit
        } else {
            Action::Nothing
        }
    } else if c == 'L' {
        Action::CursorBottom
    } else if c == 'H' {
        Action::CursorTop
    } else if c == 'M' {
        Action::CursorMiddle
    } else if c == 'm' {
        Action::FoldCurrentModule
    } else if c == '/' {
        Action::ExpandAll
    } else if c == '0' {
        Action::ExpandZeroLevel
    } else if c == '1' {
        Action::ExpandFirstLevelModules
    } else {
        Action::Nothing
    }
}

/// The action of a key.
pub open spec fn key_action(k: Key) -> Action {
    match k {
        Key::Char(c) => char_action(c, false),
        Key::CtrlChar(c) => char_action(c, true),
        Key::Home => Action::ScrollHome,
        Key::End => Action::ScrollEnd,
        Key::PageUp => Action::ScrollUp,
        Key::PageDown => Action::ScrollDown,
        Key::Up => Action::CursorBackward,
        Key::Down => Action::CursorForward,
        Key::Enter => Action::ExpandToggle,
        Key::Other => Action::Nothing,
    }
}

/// What the keys mean, whatever else the mapping says: the Up arrow, and no other key, moves
/// the cursor one line back (up), and the Down arrow, and no other key, one line forward
/// (down); Page Up and Page Down alone scroll up and down, Home and End alone go to the top
/// and the end, only `q` (with or without control) and control-`c` quit, Enter alone
/// toggles a module, and each letter or digit command has its one character.
pub proof fn law_keys_do_what_they_say(k: Key)
    ensures
        key_action(k) == Action::CursorBackward <==> k == Key::Up,
        key_action(k) == Action::CursorForward <==> k == Key::Down,
        key_action(k) == Action::ScrollUp <==> k == Key::PageUp,
        key_action(k) == Action::ScrollDown <==> k == Key::PageDown,
        key_action(k) == Action::ScrollHome <==> k == Key::Home,
        key_action(k) == Action::ScrollEnd <==> k == Key::End,
        key_action(k) == Action::Quit <==> (k == Key::Char('q') || k == Key::CtrlChar('q')
            || k == Key::CtrlChar('c') || k == Key::CtrlChar('C')),
        key_action(k) == Action::ExpandToggle <==> k == Key::Enter,
        key_action(k) == Action::CursorBottom <==> (k == Key::Char('L') || k == Key::CtrlChar('L')),
        key_action(k) == Action::CursorTop <==> (k == Key::Char('H') || k == Key::CtrlChar('H')),
        key_action(k) == Action::CursorMiddle <==> (k == Key::Char('M') || k == Key::CtrlChar('M')),
        key_action(k) == Action::FoldCurrentModule <==> (k == Key::Char('m') || k == Key::CtrlChar('m')),
        key_action(k) == Action::ExpandAll <==> (k == Key::Char('/') || k == Key::CtrlChar('/')),
        key_action(k) == Action::ExpandZeroLevel <==> (k == Key::Char('0') || k == Key::CtrlChar('0')),
        key_action(k) == Action::ExpandFirstLevelModules <==> (k == Key::Char('1') || k == Key::CtrlChar('1')),
{
}

fn char_update(c: char, ctrl: bool) -> (r: Action)
    ensures
        r == char_action(c, ctrl),
{
    if c == 'q' {
        Action::Quit
    } else if c == 'c' || c == 'C' {
        if ctrl {
            Action::Quit
        } else {
            Action::Nothing
        }
    } else if c == 'L' {
        Action::CursorBottom
    } else if c == 'H' {
        Action::CursorTop
    } else if c == 'M' {
        Action::CursorMiddle
    } else if c == 'm' {
        Action::FoldCurrentModule
    } else if c == '/' {
        Action::ExpandAll
    } else if c == '0' {
        Action::ExpandZeroLevel
    } else if c == '1' {
        Action::ExpandFirstLevelModules
    } else {
        Action::Nothing
    }
}

/// What a key asks the page to do: scrolling, cursor moves, folding the outline, or quitting.
pub fn update(key: Key) -> (r: Action)
    ensures
        r == key_action(key),
{
    match key {
        Key::Char(c) => char_update(c, false),
        Key::CtrlChar(c) => char_update(c, true),
        Key::Home => Action::ScrollHome,
        Key::End => Action::ScrollEnd,
        Key::PageUp => Action::ScrollUp,
        Key::PageDown => Action::ScrollDown,
        Key::Up => Action::CursorBackward,
        Key::Down => Action::CursorForward,
        Key::Enter => Action::ExpandToggle,
        Key::Other => Action::Nothing,
    }
}

} // verus!
