//! The actions of the main menu, and the menu's selection.
use crate::edit::EditKey;
use vstd::prelude::*;

verus! {

/// An entry of the main menu.
#[derive(Debug, Clone, Copy, PartialEq, Eq, Structural, Default)]
pub enum MainMenuAction {
    InitStore,
    #[default]
    LoadStore,
    LoadUnencryptedStore,
    EditStore,
    SaveStore,
    SaveUnencryptedStore,
}

/// The action works on a loaded store.
pub open spec fn needs_store(a: MainMenuAction) -> bool {
    a != MainMenuAction::InitStore && a != MainMenuAction::LoadStore
}

/// Number of menu actions.
pub const ACTION_COUNT: usize = 6;

/// The position of an action in the menu, from the top.
pub open spec fn action_index(a: MainMenuAction) -> int {
    match a {
        MainMenuAction::InitStore => 0,
        MainMenuAction::LoadStore => 1,
        MainMenuAction::LoadUnencryptedStore => 2,
        MainMenuAction::EditStore => 3,
        MainMenuAction::SaveStore => 4,
        MainMenuAction::SaveUnencryptedStore => 5,
    }
}

/// The title and the description of an action.
pub open spec fn action_labels(a: MainMenuAction) -> (&'static str, &'static str) {
    match a {
        MainMenuAction::InitStore => ("Init Store", "Generate new 256-bit key and create empty store"),
        MainMenuAction::LoadStore => ("Load Store", "Load existing store from file"),
        MainMenuAction::LoadUnencryptedStore => (
            "Load Store Data From Unencrypted File",
            "Load current store data from unencrypted file",
        ),
        MainMenuAction::EditStore => ("Edit Store", "View and modify store contents"),
        MainMenuAction::SaveStore => ("Save Store", "Save store to file"),
        MainMenuAction::SaveUnencryptedStore => (
            "Save Unencrypted Store",
            "Save store to file without encryption (NOT RECOMMENDED!)",
        ),
    }
}

impl MainMenuAction {
    /// The title and the description of the action.
    pub fn to_string(&self) -> (r: (&'static str, &'static str))
        ensures
            r == action_labels(*self),
    {
        match self {
            MainMenuAction::InitStore => ("Init Store", "Generate new 256-bit key and create empty store"),
            MainMenuAction::LoadStore => ("Load Store", "Load existing store from file"),
            MainMenuAction::LoadUnencryptedStore => (
                "Load Store Data From Unencrypted File",
                "Load current store data from unencrypted file",
            ),
            MainMenuAction::EditStore => ("Edit Store", "View and modify store contents"),
            MainMenuAction::SaveStore => ("Save Store", "Save store to file"),
            MainMenuAction::SaveUnencryptedStore => (
                "Save Unencrypted Store",
                "Save store to file without encryption (NOT RECOMMENDED!)",
            ),
        }
    }

    /// Whether the action needs a loaded store.
    pub fn requires_store(&self) -> (r: bool)
        ensures
            r == needs_store(*self),
    {
        match self {
            MainMenuAction::LoadUnencryptedStore
            | MainMenuAction::EditStore
            | MainMenuAction::SaveStore
            | MainMenuAction::SaveUnencryptedStore => true,
            _ => false,
        }
    }

    /// The position of the action in the menu, from the top.
    pub fn index(&self) -> (r: usize)
        ensures
            r == action_index(*self),
            r < ACTION_COUNT,
    {
        match self {
            MainMenuAction::InitStore => 0,
            MainMenuAction::LoadStore => 1,
            MainMenuAction::LoadUnencryptedStore => 2,
            MainMenuAction::EditStore => 3,
            MainMenuAction::SaveStore => 4,
            MainMenuAction::SaveUnencryptedStore => 5,
        }
    }

    /// The action at a position of the menu.
    pub fn from_index(i: usize) -> (r: MainMenuAction)
        requires
            i < ACTION_COUNT,
        ensures
            action_index(r) == i,
    {
        if i == 0 {
            MainMenuAction::InitStore
        } else if i == 1 {
            MainMenuAction::LoadStore
        } else if i == 2 {
            MainMenuAction::LoadUnencryptedStore
        } else if i == 3 {
            MainMenuAction::EditStore
        } else if i == 4 {
            MainMenuAction::SaveStore
        } else {
            MainMenuAction::SaveUnencryptedStore
        }
    }

    /// Every action, from the top of the menu.
    pub fn all() -> (r: Vec<MainMenuAction>)
        ensures
            r@.len() == ACTION_COUNT,
            forall|i: int| 0 <= i < ACTION_COUNT ==> action_index(#[trigger] r@[i]) == i,
    {
        let mut r: Vec<MainMenuAction> = Vec::new();
        let mut i: usize = 0;
        while i < ACTION_COUNT
            invariant
                i <= ACTION_COUNT,
                r@.len() == i,
                forall|k: int| 0 <= k < i ==> action_index(#[trigger] r@[k]) == k,
            decreases ACTION_COUNT - i,
        {
            r.push(Self::from_index(i));
            i = i + 1;
        }
        r
    }
}

/// The main menu, with one action selected.
#[derive(Debug, Clone, Copy, PartialEq, Eq, Structural, Default)]
pub struct MainMenuState {
    selected_action: MainMenuAction,
}

impl View for MainMenuState {
    type V = MainMenuAction;

    closed spec fn view(&self) -> MainMenuAction {
        self.selected_action
    }
}

impl MainMenuState {
    pub closed spec fn new_spec(action: MainMenuAction) -> Self {
        Self { selected_action: action }
    }

    pub fn new(action: MainMenuAction) -> (r: Self)
        ensures
            r@ == action,
            r == Self::new_spec(action),
    {
        Self { selected_action: action }
    }

    /// The selected action.
    pub fn selected(&self) -> (r: MainMenuAction)
        ensures
            r == self@,
    {
        self.selected_action
    }

    /// The menu with the selection moved up one line, from the top to the bottom.
    pub fn with_previous(&self) -> (r: Self)
        ensures
            action_index(r@) == (action_index(self@) + ACTION_COUNT
                - 1) % (ACTION_COUNT as int),
    {
        let i = self.selected_action.index();
        let prev = if i == 0 { ACTION_COUNT - 1 } else { i - 1 };
        Self::new(MainMenuAction::from_index(prev))
    }

    /// The menu with the selection moved down one line, from the bottom to the top.
    pub fn with_next(&self) -> (r: Self)
        ensures
            action_index(r@) == (action_index(self@) + 1) % (
            ACTION_COUNT as int),
    {
        let i = self.selected_action.index();
        Self::new(MainMenuAction::from_index((i + 1) % ACTION_COUNT))
    }

    /// The outcome of a key press: Up and Down move the selection, Enter
    /// opens the selected action unless it needs a store and none is loaded,
    /// anything else stays.
    pub fn handle_key(&self, key: EditKey, store_loaded: bool) -> (r: MenuOutcome)
        ensures
            key == EditKey::Up ==> r is Stay && action_index(r->Stay_0@) == (action_index(self@)
                + ACTION_COUNT - 1) % (ACTION_COUNT as int),
            key == EditKey::Down ==> r is Stay && action_index(r->Stay_0@) == (action_index(self@)
                + 1) % (ACTION_COUNT as int),
            key == EditKey::Enter ==> r == (if needs_store(self@) && !store_loaded {
                MenuOutcome::NeedsStore(*self)
            } else {
                MenuOutcome::Open(self@)
            }),
            key != EditKey::Up && key != EditKey::Down && key != EditKey::Enter ==> r == MenuOutcome::Stay(*self),
    {
        match key {
            EditKey::Up => MenuOutcome::Stay(self.with_previous()),
            EditKey::Down => MenuOutcome::Stay(self.with_next()),
            EditKey::Enter => {
                if self.selected_action.requires_store() && !store_loaded {
                    MenuOutcome::NeedsStore(*self)
                } else {
                    MenuOutcome::Open(self.selected_action)
                }
            },
            _ => MenuOutcome::Stay(*self),
        }
    }
}

/// What a key press on the main menu leads to.
#[derive(Debug, Clone, Copy, PartialEq, Eq, Structural)]
pub enum MenuOutcome {
    /// Stay on the menu, with this selection.
    Stay(MainMenuState),
    /// Stay on the menu, and report that the action needs a loaded store.
    NeedsStore(MainMenuState),
    /// Open the screen of this action.
    Open(MainMenuAction),
}

} // verus!