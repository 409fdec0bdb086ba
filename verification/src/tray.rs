//! The system tray's menu: which command each menu id means (the ids are the contract between
//! the menu and its handler), and the live label of the play/pause item.
use vstd::prelude::*;

use crate::text::{chars_eq, chars_of};

verus! {

/// What a tray menu click asks for.
#[derive(PartialEq, Eq, Structural, Clone, Copy, Debug)]
pub enum MenuCommand {
    /// Bring the main window back.
    Show,
    /// Save the resume position (and the widget's), then quit.
    Quit,
    /// Save the resume position (and the widget's), then restart.
    Restart,
    PlayPause,
    Next,
    Prev,
    /// An id no handler knows: nothing happens.
    Nothing,
}

pub open spec fn menu_command_spec(id: Seq<char>) -> MenuCommand {
    if id == seq!['s', 'h', 'o', 'w'] {
        MenuCommand::Show
    } else if id == seq!['q', 'u', 'i', 't'] {
        MenuCommand::Quit
    } else if id == seq!['r', 'e', 's', 't', 'a', 'r', 't'] {
        MenuCommand::Restart
    } else if id == seq!['p', 'l', 'a', 'y', '_', 'p', 'a', 'u', 's', 'e'] {
        MenuCommand::PlayPause
    } else if id == seq!['n', 'e', 'x', 't'] {
        MenuCommand::Next
    } else if id == seq!['p', 'r', 'e', 'v'] {
        MenuCommand::Prev
    } else {
        MenuCommand::Nothing
    }
}

/// The command a menu id means (see `menu_command_spec`).
pub fn menu_command(id: &str) -> (c: MenuCommand)
    ensures
        c == menu_command_spec(id@),
{
    let v = chars_of(id);
    let show = vec!['s', 'h', 'o', 'w'];
    let quit = vec!['q', 'u', 'i', 't'];
    let restart = vec!['r', 'e', 's', 't', 'a', 'r', 't'];
    let pp = vec!['p', 'l', 'a', 'y', '_', 'p', 'a', 'u', 's', 'e'];
    let next = vec!['n', 'e', 'x', 't'];
    let prev = vec!['p', 'r', 'e', 'v'];
    assert(show@ =~= seq!['s', 'h', 'o', 'w']);
    assert(quit@ =~= seq!['q', 'u', 'i', 't']);
    assert(restart@ =~= seq!['r', 'e', 's', 't', 'a', 'r', 't']);
    assert(pp@ =~= seq!['p', 'l', 'a', 'y', '_', 'p', 'a', 'u', 's', 'e']);
    assert(next@ =~= seq!['n', 'e', 'x', 't']);
    assert(prev@ =~= seq!['p', 'r', 'e', 'v']);
    if chars_eq(&v, &show) {
        MenuCommand::Show
    } else if chars_eq(&v, &quit) {
        MenuCommand::Quit
    } else if chars_eq(&v, &restart) {
        MenuCommand::Restart
    } else if chars_eq(&v, &pp) {
        MenuCommand::PlayPause
    } else if chars_eq(&v, &next) {
        MenuCommand::Next
    } else if chars_eq(&v, &prev) {
        MenuCommand::Prev
    } else {
        MenuCommand::Nothing
    }
}

/// The play/pause item reads "Pause" while playing and "Play" otherwise.
pub fn play_pause_label(playing: bool) -> (r: &'static str)
    ensures
        r@ == (if playing {
            seq!['P', 'a', 'u', 's', 'e']
        } else {
            seq!['P', 'l', 'a', 'y']
        }),
{
    if playing {
        proof {
            reveal_strlit("Pause");
        }
        "Pause"
    } else {
        proof {
            reveal_strlit("Play");
        }
        "Play"
    }
}

} // verus!
