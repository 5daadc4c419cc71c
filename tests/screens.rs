use bunkeys::edit::EditKey;
use bunkeys::error::BunkeysError;
use bunkeys::menu::{MainMenuAction, MainMenuState, MenuOutcome};
use bunkeys::mnemonic::Bip39;
use bunkeys::screens::{
    AppLoadStoreStep, AppState, InitStoreState, LoadOutcome, LoadStoreState, SaveOutcome,
    SaveStoreState,
};
use bunkeys::text_input::TextInput;

#[test]
fn load_screen_asks_for_the_key_of_an_encrypted_store() {
    let state = LoadStoreState::new_path(true, TextInput::new("store.en".to_string()));
    let state = match state.handle_key(EditKey::Char('c')) {
        LoadOutcome::Stay(s) => s,
        other => panic!("unexpected {:?}", other),
    };
    let asked = match state.handle_key(EditKey::Enter) {
        LoadOutcome::AskKey(path, next) => {
            assert_eq!(path, "store.enc");
            next
        }
        other => panic!("unexpected {:?}", other),
    };
    assert_eq!(asked.step, AppLoadStoreStep::EnterKey(TextInput::new(String::new())));
    let typed = match asked.handle_key(EditKey::Char('a')) {
        LoadOutcome::Stay(s) => s,
        other => panic!("unexpected {:?}", other),
    };
    assert_eq!(typed.handle_key(EditKey::Enter), LoadOutcome::LoadWithKey("a".to_string()));
    assert_eq!(typed.handle_key(EditKey::Esc), LoadOutcome::Leave);
}

#[test]
fn load_screen_reads_an_unencrypted_store_at_once() {
    let state = LoadStoreState::new_path(false, TextInput::new("s.yaml".to_string()));
    assert_eq!(state.handle_key(EditKey::Enter), LoadOutcome::LoadPlain("s.yaml".to_string()));
    let empty = LoadStoreState::new_path(false, TextInput::new(String::new()));
    assert_eq!(empty.handle_key(EditKey::Enter), LoadOutcome::Stay(empty.clone()));
}

#[test]
fn save_screen_needs_a_path() {
    let state = SaveStoreState::from_text_input(true, TextInput::new("x".to_string()));
    assert_eq!(state.handle_key(EditKey::Enter), SaveOutcome::Save("x".to_string()));
    let emptied = match state.handle_key(EditKey::Backspace) {
        SaveOutcome::Stay(s) => s,
        other => panic!("unexpected {:?}", other),
    };
    assert_eq!(emptied.handle_key(EditKey::Enter), SaveOutcome::EmptyPath(emptied.clone()));
    assert_eq!(emptied.handle_key(EditKey::Esc), SaveOutcome::Leave);
}

#[test]
fn menu_opens_actions_that_can_run() {
    let menu = MainMenuState::new(MainMenuAction::EditStore);
    assert_eq!(menu.handle_key(EditKey::Enter, false), MenuOutcome::NeedsStore(menu));
    assert_eq!(menu.handle_key(EditKey::Enter, true), MenuOutcome::Open(MainMenuAction::EditStore));
    let init = MainMenuState::new(MainMenuAction::InitStore);
    assert_eq!(init.handle_key(EditKey::Enter, false), MenuOutcome::Open(MainMenuAction::InitStore));
    assert_eq!(
        init.handle_key(EditKey::Up, false),
        MenuOutcome::Stay(MainMenuState::new(MainMenuAction::SaveUnencryptedStore))
    );
    assert_eq!(AppState::default(), AppState::MainMenu(MainMenuState::new(MainMenuAction::LoadStore)));
}

#[test]
fn new_key_screen_shows_its_mnemonic() {
    let bip39 = Bip39::new((0..2048).map(|i| format!("x{:04}", i)).collect()).unwrap();
    let state = InitStoreState::new(&bip39, vec![0u8; 32]).unwrap();
    assert_eq!(state.generated_key, vec![0u8; 32]);
    assert_eq!(state.generated_mnemonic, bip39.encode(&[0u8; 32]).unwrap());
    let mut too_long = vec![1u8];
    too_long.extend_from_slice(&[0u8; 32]);
    assert_eq!(InitStoreState::new(&bip39, too_long), Err(BunkeysError::SecretTooLarge));

    let store = InitStoreState::initial_store();
    assert_eq!(store.list_sections(), vec!["example_section", "section2"]);
    assert_eq!(store.list_entries("section2"), vec!["entry_name", "Nom test"]);
}

#[test]
fn screens_offer_a_default_path() {
    let load = LoadStoreState::new(true, None, "/home/u");
    assert_eq!(load.step, AppLoadStoreStep::EnterPath(TextInput::new("/home/u/store.enc".to_string())));
    let load = LoadStoreState::new(false, Some("/x.yaml".to_string()), "/home/u");
    assert_eq!(load.step, AppLoadStoreStep::EnterPath(TextInput::new("/x.yaml".to_string())));
    let save = SaveStoreState::new(false, None, "/home/u");
    assert_eq!(save.path.get_text(), "/home/u/store.yaml");
    assert!(!save.encrypted);
}
