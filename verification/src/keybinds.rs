//! The actions of the editor window and the keys that trigger them.
use vstd::prelude::*;
use vstd::string::StringExecFns;

verus! {

/// An action of the editor window.
#[derive(Clone, Copy, Debug, PartialEq, Eq, Structural)]
pub enum Action {
    /// Show the About Evk dialog.
    AboutEvk,
    /// Open a markdown file.
    OpenFile,
    /// Save the current file.
    SaveFile,
    /// Save the current file with a new name.
    SaveFileAs,
    /// Open a folder as the workspace root.
    OpenFolder,
    /// Toggle between light and dark themes.
    ToggleTheme,
    /// Set the dark theme.
    SetThemeDark,
    /// Set the light theme.
    SetThemeLight,
    /// Toggle the file tree sidebar visibility.
    ToggleTree,
    /// Quit the application.
    Quit,
}

/// The action a key press triggers: none while the divider is dragged; with Control
/// alone, `o` opens a file, `s` saves, `t` toggles the theme and `b` the file tree; with
/// Control and Shift, `s` saves under a new name and `o` opens a folder.
pub open spec fn key_binding(is_dragging: bool, control: bool, shift: bool, key: Seq<char>) -> Option<Action> {
    if is_dragging || !control {
        None
    } else if !shift {
        if key == seq!['o'] {
            Some(Action::OpenFile)
        } else if key == seq!['s'] {
            Some(Action::SaveFile)
        } else if key == seq!['t'] {
            Some(Action::ToggleTheme)
        } else if key == seq!['b'] {
            Some(Action::ToggleTree)
        } else {
            None
        }
    } else if key == seq!['s'] {
        Some(Action::SaveFileAs)
    } else if key == seq!['o'] {
        Some(Action::OpenFolder)
    } else {
        None
    }
}

fn key_is(key: &str, letter: &str) -> (r: bool)
    ensures
        r == (key@ == letter@),
{
    String::from_str(key) == String::from_str(letter)
}

/// The action that pressing `key` triggers, given the modifiers held and whether the
/// divider is being dragged.
pub fn action_for_key(is_dragging: bool, control: bool, shift: bool, key: &str) -> (r: Option<Action>)
    ensures
        r == key_binding(is_dragging, control, shift, key@),
        !control ==> r is None,
        is_dragging ==> r is None,
{
    proof {
        reveal_strlit("o");
        reveal_strlit("s");
        reveal_strlit("t");
        reveal_strlit("b");
        assert("o"@ =~= seq!['o']);
        assert("s"@ =~= seq!['s']);
        assert("t"@ =~= seq!['t']);
        assert("b"@ =~= seq!['b']);
    }
    if is_dragging || !control {
        None
    } else if !shift {
        if key_is(key, "o") {
            Some(Action::OpenFile)
        } else if key_is(key, "s") {
            Some(Action::SaveFile)
        } else if key_is(key, "t") {
            Some(Action::ToggleTheme)
        } else if key_is(key, "b") {
            Some(Action::ToggleTree)
        } else {
            None
        }
    } else if key_is(key, "s") {
        Some(Action::SaveFileAs)
    } else if key_is(key, "o") {
        Some(Action::OpenFolder)
    } else {
        None
    }
}

/// Key presses trigger actions only with Control held and the divider at rest, and only
/// for the letters `o`, `s`, `t` and `b`: typing (without Control) never triggers one.
/// Shift tells saving from saving under a new name and opening a file from opening a
/// folder; `t` and `b` act only without Shift.
pub proof fn keys_act_only_with_control(is_dragging: bool, control: bool, shift: bool, key: Seq<char>)
    ensures
        !control ==> key_binding(is_dragging, control, shift, key) is None,
        is_dragging ==> key_binding(is_dragging, control, shift, key) is None,
        key_binding(is_dragging, control, shift, key) is Some ==> control && !is_dragging
            && key.len() == 1 && (key[0] == 'o' || key[0] == 's' || key[0] == 't' || key[0]
            == 'b'),
        key_binding(is_dragging, control, shift, key) == Some(Action::SaveFile) ==> !shift && key
            == seq!['s'],
        key_binding(is_dragging, control, shift, key) == Some(Action::SaveFileAs) ==> shift && key
            == seq!['s'],
        key_binding(is_dragging, control, shift, key) == Some(Action::OpenFile) ==> !shift && key
            == seq!['o'],
        key_binding(is_dragging, control, shift, key) == Some(Action::OpenFolder) ==> shift && key
            == seq!['o'],
        shift ==> !(key_binding(is_dragging, control, shift, key) matches Some(Action::ToggleTheme))
            && !(key_binding(is_dragging, control, shift, key) matches Some(Action::ToggleTree)),
        control && !is_dragging && key == seq!['s'] ==> key_binding(is_dragging, control, shift, key)
            is Some,
        control && !is_dragging && key == seq!['o'] ==> key_binding(is_dragging, control, shift, key)
            is Some,
{
}

} // verus!
