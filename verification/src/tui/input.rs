//! From keys to actions.
use crate::config::KeybindingsConfig;
use crate::text::{push_char, text_eq};
use vstd::prelude::*;
use vstd::string::*;

verus! {

/// What the user asks for.
#[derive(Debug, Clone, Copy, PartialEq, Eq)]
pub enum UserAction {
    Quit,
    MoveUp,
    MoveDown,
    MoveLeft,
    MoveRight,
    ScrollDetailUp,
    ScrollDetailDown,
    Help,
    Filter,
    Select,
    Confirm,
    NoAction,
}

/// A key of the keyboard, as far as the dashboard tells keys apart.
#[derive(Debug, Clone, Copy, PartialEq, Eq)]
pub enum KeyCode {
    Char(char),
    Up,
    Down,
    Left,
    Right,
    Enter,
    Esc,
    Other,
}

/// A key's name and the action bound to it.
#[derive(Debug)]
pub struct ActionBinding {
    pub key: String,
    pub action: UserAction,
}

/// Maps keys to actions under a set of key bindings.
pub struct InputHandler {
    keybindings: KeybindingsConfig,
}

/// What a binding holds.
pub open spec fn binding_views(map: Seq<ActionBinding>) -> Seq<(Seq<char>, UserAction)> {
    Seq::new(map.len(), |i: int| (map[i].key@, map[i].action))
}

/// The action of the first binding from `from` on whose key has the name, or
/// no action where none has it.
pub open spec fn first_action(map: Seq<(Seq<char>, UserAction)>, name: Seq<char>, from: int) -> UserAction
    decreases map.len() - from,
{
    if from < 0 || from >= map.len() {
        UserAction::NoAction
    } else if map[from].0 == name {
        map[from].1
    } else {
        first_action(map, name, from + 1)
    }
}

/// The action that the name of a movement key stands for: the arrow keys by
/// their names, and `k`, `j`, `h`, `l` for up, down, left, right.
pub open spec fn move_action_of(name: Seq<char>) -> UserAction {
    if name == "up"@ {
        UserAction::MoveUp
    } else if name == "down"@ {
        UserAction::MoveDown
    } else if name == "left"@ {
        UserAction::MoveLeft
    } else if name == "right"@ {
        UserAction::MoveRight
    } else if name == "k"@ {
        UserAction::MoveUp
    } else if name == "j"@ {
        UserAction::MoveDown
    } else if name == "h"@ {
        UserAction::MoveLeft
    } else if name == "l"@ {
        UserAction::MoveRight
    } else {
        UserAction::NoAction
    }
}

impl InputHandler {
    /// The key bindings.
    pub closed spec fn bindings(&self) -> KeybindingsConfig {
        self.keybindings
    }

    /// The bindings of the character keys, in the order in which they are
    /// tried.
    pub open spec fn action_map(&self) -> Seq<(Seq<char>, UserAction)> {
        seq![
            (self.bindings().quit@, UserAction::Quit),
            (self.bindings().help@, UserAction::Help),
            (self.bindings().filter@, UserAction::Filter),
            (self.bindings().select@, UserAction::Select),
            (self.bindings().scroll_detail_up@, UserAction::ScrollDetailUp),
            (self.bindings().scroll_detail_down@, UserAction::ScrollDetailDown),
            (self.bindings().up@, UserAction::MoveUp),
            (self.bindings().down@, UserAction::MoveDown),
            (self.bindings().left@, UserAction::MoveLeft),
            (self.bindings().right@, UserAction::MoveRight),
            (self.bindings().confirm@, UserAction::Confirm),
        ]
    }

    /// The action that a key means.
    pub open spec fn action_of(&self, key: KeyCode) -> UserAction {
        match key {
            KeyCode::Char(c) => first_action(self.action_map(), seq![c], 0),
            KeyCode::Up => move_action_of(self.bindings().up@),
            KeyCode::Down => move_action_of(self.bindings().down@),
            KeyCode::Left => move_action_of(self.bindings().left@),
            KeyCode::Right => move_action_of(self.bindings().right@),
            KeyCode::Enter => if self.bindings().confirm@ == "enter"@ {
                UserAction::Confirm
            } else {
                UserAction::NoAction
            },
            KeyCode::Esc => UserAction::Quit,
            KeyCode::Other => UserAction::NoAction,
        }
    }

    /// A handler for the key bindings.
    pub fn new(keybindings: KeybindingsConfig) -> (r: Self)
        ensures
            r.bindings() == keybindings,
    {
        Self { keybindings }
    }

    /// The action that a key means: a character key by the bindings of the
    /// character keys, an arrow key by the name bound to its direction, the
    /// enter key by the name bound to confirming, the escape key always
    /// quitting.
    pub fn handle_key_event(&self, key: KeyCode) -> (r: UserAction)
        ensures
            r == self.action_of(key),
    {
        match key {
            KeyCode::Char(c) => self.handle_char_key(c),
            KeyCode::Up => self.get_move_action(self.keybindings.up.as_str()),
            KeyCode::Down => self.get_move_action(self.keybindings.down.as_str()),
            KeyCode::Left => self.get_move_action(self.keybindings.left.as_str()),
            KeyCode::Right => self.get_move_action(self.keybindings.right.as_str()),
            KeyCode::Enter => self.get_action(self.keybindings.confirm.as_str(), UserAction::Confirm),
            KeyCode::Esc => UserAction::Quit,
            KeyCode::Other => UserAction::NoAction,
        }
    }

    /// The action that a character key means.
    pub fn handle_char_key(&self, c: char) -> (r: UserAction)
        ensures
            r == first_action(self.action_map(), seq![c], 0),
    {
        let mut key_str = String::new();
        push_char(&mut key_str, c);
        assert(key_str@ =~= seq![c]);
        let action_map = self.build_action_map();
        self.find_matching_action(key_str.as_str(), &action_map)
    }

    /// The bindings of the character keys, in the order in which they are
    /// tried.
    pub fn build_action_map(&self) -> (r: Vec<ActionBinding>)
        ensures
            binding_views(r@) == self.action_map(),
    {
        let mut map: Vec<ActionBinding> = Vec::new();
        map.push(ActionBinding { key: self.keybindings.quit.clone(), action: UserAction::Quit });
        map.push(ActionBinding { key: self.keybindings.help.clone(), action: UserAction::Help });
        map.push(
            ActionBinding { key: self.keybindings.filter.clone(), action: UserAction::Filter },
        );
        map.push(
            ActionBinding { key: self.keybindings.select.clone(), action: UserAction::Select },
        );
        map.push(
            ActionBinding {
                key: self.keybindings.scroll_detail_up.clone(),
                action: UserAction::ScrollDetailUp,
            },
        );
        map.push(
            ActionBinding {
                key: self.keybindings.scroll_detail_down.clone(),
                action: UserAction::ScrollDetailDown,
            },
        );
        map.push(ActionBinding { key: self.keybindings.up.clone(), action: UserAction::MoveUp });
        map.push(
            ActionBinding { key: self.keybindings.down.clone(), action: UserAction::MoveDown },
        );
        map.push(
            ActionBinding { key: self.keybindings.left.clone(), action: UserAction::MoveLeft },
        );
        map.push(
            ActionBinding { key: self.keybindings.right.clone(), action: UserAction::MoveRight },
        );
        map.push(
            ActionBinding { key: self.keybindings.confirm.clone(), action: UserAction::Confirm },
        );
        assert(binding_views(map@) =~= self.action_map());
        map
    }

    /// The action of the first binding whose key has the name.
    pub fn find_matching_action(&self, key_str: &str, action_map: &Vec<ActionBinding>) -> (r:
        UserAction)
        ensures
            r == first_action(binding_views(action_map@), key_str@, 0),
    {
        let ghost views = binding_views(action_map@);
        let mut i: usize = 0;
        while i < action_map.len()
            invariant
                i <= action_map.len(),
                views == binding_views(action_map@),
                first_action(views, key_str@, 0) == first_action(views, key_str@, i as int),
            decreases action_map.len() - i,
        {
            if text_eq(key_str, action_map[i].key.as_str()) {
                return action_map[i].action;
            }
            i += 1;
        }
        UserAction::NoAction
    }

    /// The action that the name of a movement key stands for.
    pub fn get_move_action(&self, configured_key: &str) -> (r: UserAction)
        ensures
            r == move_action_of(configured_key@),
    {
        if text_eq(configured_key, "up") {
            UserAction::MoveUp
        } else if text_eq(configured_key, "down") {
            UserAction::MoveDown
        } else if text_eq(configured_key, "left") {
            UserAction::MoveLeft
        } else if text_eq(configured_key, "right") {
            UserAction::MoveRight
        } else if text_eq(configured_key, "k") {
            UserAction::MoveUp
        } else if text_eq(configured_key, "j") {
            UserAction::MoveDown
        } else if text_eq(configured_key, "h") {
            UserAction::MoveLeft
        } else if text_eq(configured_key, "l") {
            UserAction::MoveRight
        } else {
            UserAction::NoAction
        }
    }

    /// The given action where the name is `enter`, else no action.
    pub fn get_action(&self, configured_key: &str, default_action: UserAction) -> (r: UserAction)
        ensures
            r == if configured_key@ == "enter"@ {
                default_action
            } else {
                UserAction::NoAction
            },
    {
        if text_eq(configured_key, "enter") {
            default_action
        } else {
            UserAction::NoAction
        }
    }
}

} // verus!
