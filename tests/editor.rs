use bunkeys::app_data::AppData;
use bunkeys::edit::{EditKey, EditStoreSelection, EditStoreState};
use bunkeys::error::BunkeysError;
use bunkeys::key::parse_raw_key;
use bunkeys::menu::{MainMenuAction, MainMenuState};
use bunkeys::mnemonic::Bip39;
use bunkeys::store::{Entry, Section};
use bunkeys::text_input::TextInput;

#[test]
fn text_input_edits_at_the_cursor() {
    let input = TextInput::new("héllo".to_string());
    assert_eq!(input.cursor_char_pos(), 5);
    let input = input.with_move_left().with_move_left();
    assert_eq!(input.cursor_char_pos(), 3);
    let input = input.with_insert_char('X');
    assert_eq!(input.get_text(), "hélXlo");
    assert_eq!(input.cursor_char_pos(), 4);
    let input = input.with_delete_char().with_delete_char();
    assert_eq!(input.get_text(), "hélo");
    assert_eq!(input.cursor_char_pos(), 2);
    let input = input.with_delete_char().with_delete_char().with_delete_char();
    assert_eq!(input.get_text(), "lo");
    assert_eq!(input.cursor_char_pos(), 0);
    let input = input.with_move_left().with_move_right().with_move_right().with_move_right();
    assert_eq!(input.cursor_char_pos(), 2);
    assert_eq!(input.with_insert_char('!').get_text(), "lo!");
}

#[test]
fn store_path_switches_extension() {
    let mut data = AppData::default();
    assert_eq!(data.get_store_path_string_as_enc(), None);
    data.store_path = Some("/tmp/store.yaml".to_string());
    assert_eq!(data.get_store_path_string_as_enc(), Some("/tmp/store.enc".to_string()));
    assert_eq!(data.get_store_path_string_as_yaml(), Some("/tmp/store.yaml".to_string()));
    data.store_path = Some("/tmp/store.enc".to_string());
    assert_eq!(data.get_store_path_string_as_yaml(), Some("/tmp/store.yaml".to_string()));
    data.store_path = Some("enc".to_string());
    assert_eq!(data.get_store_path_string_as_yaml(), Some("enc".to_string()));
}

#[test]
fn menu_wraps_around() {
    let menu = MainMenuState::new(MainMenuAction::InitStore);
    assert_eq!(menu.with_previous().selected(), MainMenuAction::SaveUnencryptedStore);
    assert_eq!(menu.with_next().selected(), MainMenuAction::LoadStore);
    assert_eq!(menu.with_previous().with_next(), menu);
    assert_eq!(MainMenuAction::all().len(), 6);
    assert_eq!(MainMenuAction::default(), MainMenuAction::LoadStore);
    assert!(MainMenuAction::EditStore.requires_store());
    assert!(!MainMenuAction::InitStore.requires_store());
    assert_eq!(MainMenuAction::SaveStore.to_string(), ("Save Store", "Save store to file"));
}

fn editor_data() -> AppData {
    let mut data = AppData::default();
    data.sections = vec![
        Section {
            name: "s0".to_string(),
            entries: vec![Entry { key: "k0".to_string(), value: "v0".to_string() }],
        },
        Section { name: "s1".to_string(), entries: vec![] },
    ];
    data
}

#[test]
fn flat_index_selects_lines() {
    let data = editor_data();
    let mut state = EditStoreState::default();
    assert_eq!(state.flattened_len(&data), 6 + 4 + 2);
    let expected = [
        EditStoreSelection::Section(0),
        EditStoreSelection::Section(0),
        EditStoreSelection::EntryKey(0, 0),
        EditStoreSelection::EntryValue(0, 0),
        EditStoreSelection::AddEntry(0),
        EditStoreSelection::AddEntry(0),
        EditStoreSelection::Section(1),
        EditStoreSelection::Section(1),
        EditStoreSelection::AddEntry(1),
        EditStoreSelection::AddEntry(1),
        EditStoreSelection::AddSection,
        EditStoreSelection::AddSection,
    ];
    for (i, sel) in expected.iter().enumerate() {
        state.flattened_index = i;
        assert_eq!(state.get_selected_item(&data), *sel);
    }
    assert_eq!(EditStoreSelection::EntryValue(0, 0).get_text(&data), "v0");
    assert_eq!(EditStoreSelection::Section(1).get_text(&data), "s1");
    assert_eq!(EditStoreSelection::AddSection.get_text(&data), "");
}

fn word(i: usize) -> String {
    format!("w{:04}", i)
}

#[test]
fn raw_key_is_hex_or_mnemonic() {
    let bip39 = Bip39::new((0..2048).map(word).collect()).unwrap();
    let hex_key = "00112233445566778899aabbccddeeff00112233445566778899AABBCCDDEEFF";
    let parsed = parse_raw_key(&bip39, hex_key).unwrap();
    assert_eq!(parsed, hex::decode(hex_key).unwrap());

    let mnemonic = bip39.encode(&parsed).unwrap();
    assert_eq!(parse_raw_key(&bip39, &mnemonic).unwrap(), parsed);

    assert_eq!(parse_raw_key(&bip39, "abcd"), Err(BunkeysError::InvalidKeyFormat));
    assert_eq!(parse_raw_key(&bip39, &hex_key.replace('0', "g")), Err(BunkeysError::InvalidKeyFormat));
    assert_eq!(parse_raw_key(&bip39, "one two"), Err(BunkeysError::WrongWordCount));
}

fn press(state: &EditStoreState, data: &mut AppData, keys: &[EditKey]) -> Option<EditStoreState> {
    let mut current = state.clone();
    for key in keys {
        current = current.handle_key(data, *key)?;
    }
    Some(current)
}

#[test]
fn editor_navigation_wraps() {
    let mut data = editor_data();
    let state = EditStoreState::default();
    let up = press(&state, &mut data, &[EditKey::Up]).unwrap();
    assert_eq!(up.flattened_index, 10);
    let down = press(&up, &mut data, &[EditKey::Down]).unwrap();
    assert_eq!(down.flattened_index, 0);
    let right = press(&state, &mut data, &[EditKey::Down, EditKey::Right]).unwrap();
    assert_eq!(right.flattened_index, 3);
    let left = press(&right, &mut data, &[EditKey::Left, EditKey::Left]).unwrap();
    assert_eq!(left.flattened_index, 2);
    assert!(press(&state, &mut data, &[EditKey::Esc]).is_none());
}

#[test]
fn editor_renames_and_rejects_duplicates() {
    let mut data = editor_data();
    let state = EditStoreState::default();
    let editing = press(&state, &mut data, &[EditKey::Enter]).unwrap();
    assert!(editing.is_editing);
    assert_eq!(editing.input.get_text(), "s0");
    let renamed = press(&editing, &mut data, &[EditKey::Backspace, EditKey::Char('x'), EditKey::Enter]).unwrap();
    assert!(!renamed.is_editing);
    assert_eq!(data.sections[0].name, "sx");

    let clash = press(&renamed, &mut data, &[EditKey::Enter, EditKey::Backspace, EditKey::Char('1'), EditKey::Enter]).unwrap();
    assert!(clash.is_editing);
    assert_eq!(data.sections[0].name, "sx");
    assert!(data.error.is_some());
}

#[test]
fn editor_creates_and_deletes_lines() {
    let mut data = editor_data();
    let mut state = EditStoreState::default();
    state.flattened_index = 10;
    let created = press(&state, &mut data, &[EditKey::Enter]).unwrap();
    assert_eq!(data.sections.len(), 3);
    assert!(created.was_created && created.is_editing);
    assert_eq!(created.get_selected_item(&data), EditStoreSelection::Section(2));
    let cancelled = press(&created, &mut data, &[EditKey::Esc]).unwrap();
    assert_eq!(data.sections.len(), 2);
    assert!(!cancelled.is_editing);

    state.flattened_index = 3;
    let emptied = press(&state, &mut data, &[EditKey::Backspace]).unwrap();
    assert_eq!(data.sections[0].entries[0].value, "");
    assert_eq!(emptied.flattened_index, 3);
    let deleted = press(&emptied, &mut data, &[EditKey::Backspace]).unwrap();
    assert!(data.sections[0].entries.is_empty());
    assert_eq!(deleted.flattened_index, 1);
}
