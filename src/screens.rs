//! The screens that load, save and create a store. Each decides, from a key
//! press, whether it stays (with its field edited), is left, or asks the
//! caller to do its work (read or write a file) with the values it gathered.
use crate::app_data::AppData;
use crate::edit::{EditKey, EditStoreState};
use crate::menu::{MainMenuAction, MainMenuState};
use crate::error::BunkeysError;
use crate::mnemonic::{mnemonic_of, Bip39};
use crate::store::{store_set, SectionView, Store};
use crate::text_input::TextInput;
use vstd::prelude::*;

verus! {

/// The key press edits a text field: a character, a deletion or a move.
pub open spec fn edits_text(key: EditKey) -> bool {
    match key {
        EditKey::Char(_) | EditKey::Backspace | EditKey::Left | EditKey::Right => true,
        _ => false,
    }
}

/// The field after a key press that edits it.
pub open spec fn edited_view(t: (Seq<char>, int), key: EditKey) -> (Seq<char>, int) {
    match key {
        EditKey::Char(c) => (t.0.take(t.1) + seq![c] + t.0.skip(t.1), t.1 + 1),
        EditKey::Backspace => if t.1 > 0 {
            (t.0.remove(t.1 - 1), t.1 - 1)
        } else {
            t
        },
        EditKey::Left => (t.0, if t.1 > 0 { t.1 - 1 } else { t.1 }),
        EditKey::Right => (t.0, if t.1 < t.0.len() { t.1 + 1 } else { t.1 }),
        _ => t,
    }
}

fn is_edit_key(key: EditKey) -> (r: bool)
    ensures
        r == edits_text(key),
{
    match key {
        EditKey::Char(_) | EditKey::Backspace | EditKey::Left | EditKey::Right => true,
        _ => false,
    }
}

/// Apply a key press to a text field.
pub fn edit_field(input: &TextInput, key: EditKey) -> (r: TextInput)
    requires
        input.wf(),
        input@.0.len() < usize::MAX,
        edits_text(key),
    ensures
        r.wf(),
        r@ == edited_view(input@, key),
{
    match key {
        EditKey::Char(c) => input.with_insert_char(c),
        EditKey::Backspace => input.with_delete_char(),
        EditKey::Left => input.with_move_left(),
        _ => input.with_move_right(),
    }
}

/// The step of loading a store: its path is asked first, then its key.
#[derive(Debug, Clone, PartialEq)]
pub enum AppLoadStoreStep {
    EnterPath(TextInput),
    EnterKey(TextInput),
}

/// The load screen: whether the store is encrypted, and the current step.
#[derive(Debug, Clone, PartialEq)]
pub struct LoadStoreState {
    pub encrypted: bool,
    pub step: AppLoadStoreStep,
}

/// What a key press on the load screen leads to.
#[derive(Debug, Clone, PartialEq)]
pub enum LoadOutcome {
    /// Stay on the screen, in this state.
    Stay(LoadStoreState),
    /// Back to the main menu.
    Leave,
    /// Read the unencrypted store at this path.
    LoadPlain(String),
    /// The path is chosen; ask for the key next.
    AskKey(String, LoadStoreState),
    /// Read the store with the key typed here.
    LoadWithKey(String),
}

/// `r` is what key press `key` on load screen `st` leads to.
pub open spec fn load_outcome(st: LoadStoreState, key: EditKey, r: LoadOutcome) -> bool {
    if key == EditKey::Esc {
        r == LoadOutcome::Leave
    } else {
        match st.step {
            AppLoadStoreStep::EnterPath(t) => if edits_text(key) {
                match r {
                    LoadOutcome::Stay(s) => s.encrypted == st.encrypted && match s.step {
                        AppLoadStoreStep::EnterPath(u) => u@ == edited_view(t@, key) && u.wf(),
                        _ => false,
                    },
                    _ => false,
                }
            } else if key == EditKey::Enter && t@.0.len() > 0 {
                if !st.encrypted {
                    match r {
                        LoadOutcome::LoadPlain(p) => p@ == t@.0,
                        _ => false,
                    }
                } else {
                    match r {
                        LoadOutcome::AskKey(p, s) => p@ == t@.0 && s.encrypted && match s.step {
                            AppLoadStoreStep::EnterKey(u) => u@ == (Seq::<char>::empty(), 0int) && u.wf(),
                            _ => false,
                        },
                        _ => false,
                    }
                }
            } else {
                r == LoadOutcome::Stay(st)
            },
            AppLoadStoreStep::EnterKey(t) => if edits_text(key) {
                match r {
                    LoadOutcome::Stay(s) => s.encrypted == st.encrypted && match s.step {
                        AppLoadStoreStep::EnterKey(u) => u@ == edited_view(t@, key) && u.wf(),
                        _ => false,
                    },
                    _ => false,
                }
            } else if key == EditKey::Enter && t@.0.len() > 0 {
                match r {
                    LoadOutcome::LoadWithKey(k) => k@ == t@.0,
                    _ => false,
                }
            } else {
                r == LoadOutcome::Stay(st)
            },
        }
    }
}

/// The path that a screen offers first: the given one, or `store.enc` (or
/// `store.yaml` for an unencrypted store) in the current directory.
pub open spec fn offered_path(encrypted: bool, path: Option<Seq<char>>, current_dir: Seq<char>) -> Seq<char> {
    match path {
        Some(p) => p,
        None => current_dir + (if encrypted {
            "/store.enc"@
        } else {
            "/store.yaml"@
        }),
    }
}

/// The text field holding the path that a screen offers first.
fn offered_field(encrypted: bool, path: Option<String>, current_dir: &str) -> (r: TextInput)
    requires
        match path {
            Some(p) => p@.len() <= usize::MAX,
            None => current_dir@.len() + 11 <= usize::MAX,
        },
    ensures
        r.wf(),
        r@ == (offered_path(encrypted, option_view(path), current_dir@), offered_path(encrypted, option_view(path), current_dir@).len() as int),
{
    match path {
        Some(p) => TextInput::new(p),
        None => {
            let mut p = current_dir.to_owned();
            if encrypted {
                p.append("/store.enc");
            } else {
                p.append("/store.yaml");
            }
            proof {
                reveal_strlit("/store.enc");
                reveal_strlit("/store.yaml");
            }
            TextInput::new(p)
        },
    }
}

/// The characters of an optional string.
pub open spec fn option_view(s: Option<String>) -> Option<Seq<char>> {
    match s {
        Some(v) => Some(v@),
        None => None,
    }
}

impl LoadStoreState {
    /// The screen asking for the path of the store, offering `path`, or the
    /// default file name in `current_dir`.
    pub fn new(encrypted: bool, path: Option<String>, current_dir: &str) -> (r: Self)
        requires
            match path {
                Some(p) => p@.len() <= usize::MAX,
                None => current_dir@.len() + 11 <= usize::MAX,
            },
        ensures
            r.encrypted == encrypted,
            r.step matches AppLoadStoreStep::EnterPath(t) && t.wf() && t@.0 == offered_path(
                encrypted,
                option_view(path),
                current_dir@,
            ),
    {
        Self::new_path(encrypted, offered_field(encrypted, path, current_dir))
    }

    /// The screen asking for the path, with the given field.
    pub fn new_path(encrypted: bool, path: TextInput) -> (r: Self)
        ensures
            r.encrypted == encrypted,
            r.step == AppLoadStoreStep::EnterPath(path),
    {
        Self { encrypted, step: AppLoadStoreStep::EnterPath(path) }
    }

    /// The screen asking for the key, with the given field.
    pub fn new_key(encrypted: bool, raw_key: TextInput) -> (r: Self)
        ensures
            r.encrypted == encrypted,
            r.step == AppLoadStoreStep::EnterKey(raw_key),
    {
        Self { encrypted, step: AppLoadStoreStep::EnterKey(raw_key) }
    }

    /// The outcome of a key press: Esc leaves; editing keys edit the field;
    /// Enter on a non-empty path loads an unencrypted store or asks for the
    /// key, and Enter on a non-empty key loads with it; anything else stays.
    pub fn handle_key(&self, key: EditKey) -> (r: LoadOutcome)
        requires
            match self.step {
                AppLoadStoreStep::EnterPath(t) => t.wf() && t@.0.len() < usize::MAX,
                AppLoadStoreStep::EnterKey(t) => t.wf() && t@.0.len() < usize::MAX,
            },
        ensures
            load_outcome(*self, key, r),
    {
        if key == EditKey::Esc {
            return LoadOutcome::Leave;
        }
        match &self.step {
            AppLoadStoreStep::EnterPath(path) => {
                if is_edit_key(key) {
                    return LoadOutcome::Stay(Self::new_path(self.encrypted, edit_field(path, key)));
                }
                if key == EditKey::Enter && !path.get_text().as_str().is_empty() {
                    let p = path.get_text().clone();
                    if !self.encrypted {
                        return LoadOutcome::LoadPlain(p);
                    }
                    return LoadOutcome::AskKey(p, Self::new_key(true, TextInput::new(String::new())));
                }
                LoadOutcome::Stay(self.copy())
            },
            AppLoadStoreStep::EnterKey(raw_key) => {
                if is_edit_key(key) {
                    return LoadOutcome::Stay(Self::new_key(self.encrypted, edit_field(raw_key, key)));
                }
                if key == EditKey::Enter && !raw_key.get_text().as_str().is_empty() {
                    return LoadOutcome::LoadWithKey(raw_key.get_text().clone());
                }
                LoadOutcome::Stay(self.copy())
            },
        }
    }

    fn copy(&self) -> (r: Self)
        ensures
            r == *self,
    {
        Self {
            encrypted: self.encrypted,
            step: match &self.step {
                AppLoadStoreStep::EnterPath(t) => AppLoadStoreStep::EnterPath(t.copy()),
                AppLoadStoreStep::EnterKey(t) => AppLoadStoreStep::EnterKey(t.copy()),
            },
        }
    }
}

/// The save screen: whether the store is saved encrypted, and its path.
#[derive(Debug, Clone, PartialEq)]
pub struct SaveStoreState {
    pub encrypted: bool,
    pub path: TextInput,
}

/// What a key press on the save screen leads to.
#[derive(Debug, Clone, PartialEq)]
pub enum SaveOutcome {
    /// Stay on the screen, in this state.
    Stay(SaveStoreState),
    /// Stay on the screen, and report that the path is empty.
    EmptyPath(SaveStoreState),
    /// Back to the main menu.
    Leave,
    /// Write the store to this path.
    Save(String),
}

/// `r` is what key press `key` on save screen `st` leads to.
pub open spec fn save_outcome(st: SaveStoreState, key: EditKey, r: SaveOutcome) -> bool {
    if edits_text(key) {
        match r {
            SaveOutcome::Stay(s) => s.encrypted == st.encrypted && s.path@ == edited_view(st.path@, key)
                && s.path.wf(),
            _ => false,
        }
    } else if key == EditKey::Enter {
        if st.path@.0.len() > 0 {
            match r {
                SaveOutcome::Save(p) => p@ == st.path@.0,
                _ => false,
            }
        } else {
            r == SaveOutcome::EmptyPath(st)
        }
    } else if key == EditKey::Esc {
        r == SaveOutcome::Leave
    } else {
        r == SaveOutcome::Stay(st)
    }
}

impl SaveStoreState {
    /// The screen asking where to save the store, offering `path`, or the
    /// default file name in `current_dir`.
    pub fn new(encrypted: bool, path: Option<String>, current_dir: &str) -> (r: Self)
        requires
            match path {
                Some(p) => p@.len() <= usize::MAX,
                None => current_dir@.len() + 11 <= usize::MAX,
            },
        ensures
            r.encrypted == encrypted,
            r.path.wf(),
            r.path@.0 == offered_path(encrypted, option_view(path), current_dir@),
    {
        Self::from_text_input(encrypted, offered_field(encrypted, path, current_dir))
    }

    pub fn from_text_input(encrypted: bool, path: TextInput) -> (r: Self)
        ensures
            r.encrypted == encrypted,
            r.path == path,
    {
        Self { encrypted, path }
    }

    /// The outcome of a key press: editing keys edit the path, Enter saves to
    /// a non-empty path, Esc leaves, anything else stays.
    pub fn handle_key(&self, key: EditKey) -> (r: SaveOutcome)
        requires
            self.path.wf(),
            self.path@.0.len() < usize::MAX,
        ensures
            save_outcome(*self, key, r),
    {
        if is_edit_key(key) {
            return SaveOutcome::Stay(Self::from_text_input(self.encrypted, edit_field(&self.path, key)));
        }
        let me = Self::from_text_input(self.encrypted, self.path.copy());
        match key {
            EditKey::Enter => {
                if !self.path.get_text().as_str().is_empty() {
                    SaveOutcome::Save(self.path.get_text().clone())
                } else {
                    SaveOutcome::EmptyPath(me)
                }
            },
            EditKey::Esc => SaveOutcome::Leave,
            _ => SaveOutcome::Stay(me),
        }
    }
}

/// The screen shown after a new key is made: the key and its mnemonic.
#[derive(Debug, Clone, PartialEq, Default)]
pub struct InitStoreState {
    pub generated_key: Vec<u8>,
    pub generated_mnemonic: String,
}

impl InitStoreState {
    /// The screen for a freshly made key: the key with its mnemonic.
    pub fn new(bip39: &Bip39, key: Vec<u8>) -> (r: Result<Self, BunkeysError>)
        requires
            bip39.wf(),
        ensures
            r is Ok <==> crate::mnemonic::fits_256(key@),
            r matches Ok(s) ==> s.generated_key@ == key@ && s.generated_mnemonic@ == mnemonic_of(
                bip39@,
                crate::mnemonic::entropy_of(key@),
            ),
            r matches Err(e) ==> e == BunkeysError::SecretTooLarge,
    {
        match bip39.encode(key.as_slice()) {
            Ok(mnemonic) => Ok(Self { generated_key: key, generated_mnemonic: mnemonic }),
            Err(e) => Err(e),
        }
    }

    /// The store that a new key starts with: two example sections.
    pub fn initial_store() -> (r: Store)
        ensures
            r.wf(),
            r@ == store_set(
                store_set(
                    store_set(Seq::<SectionView>::empty(), "example_section"@, "key"@, "value"@),
                    "section2"@,
                    "entry_name"@,
                    "val"@,
                ),
                "section2"@,
                "Nom test"@,
                "Secret key"@,
            ),
    {
        let mut store = Store::new();
        store.set("example_section", "key", "value".to_owned());
        store.set("section2", "entry_name", "val".to_owned());
        store.set("section2", "Nom test", "Secret key".to_owned());
        store
    }
}

/// The screen on show.
#[derive(Debug, Clone, PartialEq)]
pub enum AppState {
    MainMenu(MainMenuState),
    InitStore(InitStoreState),
    LoadStore(LoadStoreState),
    EditStore(EditStoreState),
    SaveStore(SaveStoreState),
}

impl Default for AppState {
    /// The main menu, with loading a store selected.
    fn default() -> (r: Self)
        ensures
            r == AppState::MainMenu(MainMenuState::new_spec(MainMenuAction::LoadStore)),
    {
        AppState::MainMenu(MainMenuState::new(MainMenuAction::LoadStore))
    }
}

/// The front end's whole state: the screen on show and the session data.
pub struct App {
    pub state: AppState,
    pub data: AppData,
}

impl App {
    /// The main menu, with no store loaded.
    pub fn new() -> (r: Self)
        ensures
            r.state == AppState::MainMenu(MainMenuState::new_spec(MainMenuAction::LoadStore)),
            r.data.message is None,
            r.data.error is None,
            r.data.store_path is None,
            r.data.store_key is None,
            r.data.sections@.len() == 0,
    {
        Self { state: AppState::default(), data: AppData::default() }
    }

    /// Clear the status line before the next key press is handled.
    pub fn clear_status(&mut self)
        ensures
            final(self).data.message is None,
            final(self).data.error is None,
            final(self).state == old(self).state,
            final(self).data.store_path == old(self).data.store_path,
            final(self).data.store_key == old(self).data.store_key,
            final(self).data.sections == old(self).data.sections,
    {
        self.data.message = None;
        self.data.error = None;
    }
}

} // verus!
