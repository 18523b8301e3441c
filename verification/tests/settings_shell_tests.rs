use floaty_notes::settings::{
    default_settings, encode_settings, load_settings, parse_settings, save_settings,
    SettingsFile, UserSettings,
};
use floaty_notes::shell::{preview_line, App};
use floaty_notes::store::{append_note, load_notes, NoteFile};

#[test]
fn missing_settings_file_yields_defaults_without_creating_it() {
    let file = SettingsFile { content: None };
    let s = load_settings(&file);
    assert_eq!(s.open_same, false);
    assert_eq!(s.key_cmd, "cmd+n");
    assert!(file.content.is_none(), "loading must not create the file");
}

#[test]
fn settings_save_then_load_round_trips() {
    let mut file = SettingsFile { content: None };
    let wanted = UserSettings { open_same: true, key_cmd: "alt+n".to_string() };
    save_settings(&mut file, &wanted);
    let got = load_settings(&file);
    assert_eq!(got.open_same, true);
    assert_eq!(got.key_cmd, "alt+n");
}

#[test]
fn settings_encode_exact_form() {
    let s = UserSettings { open_same: false, key_cmd: "cmd+n".to_string() };
    assert_eq!(encode_settings(&s), "{\"open_same\":false,\"key_cmd\":\"cmd+n\"}");
    let t = UserSettings { open_same: true, key_cmd: "alt+n".to_string() };
    assert_eq!(encode_settings(&t), "{\"open_same\":true,\"key_cmd\":\"alt+n\"}");
}

#[test]
fn corrupt_settings_yield_defaults() {
    let file = SettingsFile { content: Some("{not valid at all".to_string()) };
    let s = load_settings(&file);
    assert_eq!(s.open_same, false);
    assert_eq!(s.key_cmd, "cmd+n");
}

#[test]
fn settings_parse_tolerates_trailing_whitespace() {
    let s = parse_settings("{\"open_same\":true,\"key_cmd\":\"alt+n\"}\n  \t\n");
    assert_eq!(s.open_same, true);
    assert_eq!(s.key_cmd, "alt+n");
}

#[test]
fn default_settings_values() {
    let d = default_settings();
    assert_eq!(d.open_same, false);
    assert_eq!(d.key_cmd, "cmd+n");
}

#[test]
fn cache_starts_unloaded_and_loads_lazily() {
    let mut file = NoteFile { canonical: None, temp: None };
    append_note(&mut file, "A", "x");

    let mut app = App::new();
    assert!(!app.loaded);
    app.ensure_loaded(&file);
    assert!(app.loaded);
    assert_eq!(app.notes.len(), 1);
    assert_eq!(app.notes[0].title, "A");

    // A second call is a no-op even if the file moved on underneath.
    append_note(&mut file, "B", "y");
    app.ensure_loaded(&file);
    assert_eq!(app.notes.len(), 1);
}

#[test]
fn cache_merges_append_when_loaded() {
    let mut file = NoteFile { canonical: None, temp: None };
    let mut app = App::new();
    app.ensure_loaded(&file);
    let n = append_note(&mut file, "A", "x");
    app.note_appended(n);
    assert_eq!(app.notes.len(), 1);
    let (on_disk, _) = load_notes(&file);
    assert_eq!(on_disk.len(), 1);
    assert_eq!(on_disk[0].title, app.notes[0].title);
}

#[test]
fn cache_ignores_append_when_unloaded() {
    let mut file = NoteFile { canonical: None, temp: None };
    let mut app = App::new();
    let n = append_note(&mut file, "A", "x");
    app.note_appended(n);
    assert!(!app.loaded);
    assert!(app.notes.is_empty());
}

#[test]
fn invalidate_discards_the_mirror() {
    let mut file = NoteFile { canonical: None, temp: None };
    append_note(&mut file, "A", "x");
    let mut app = App::new();
    app.ensure_loaded(&file);
    app.invalidate();
    assert!(!app.loaded);
    assert!(app.notes.is_empty());
}

#[test]
fn preview_takes_first_line() {
    assert_eq!(preview_line(&"first line\nsecond".to_string()), "first line");
    assert_eq!(preview_line(&"only".to_string()), "only");
    assert_eq!(preview_line(&"".to_string()), "");
}

#[test]
fn preview_strips_carriage_return() {
    assert_eq!(preview_line(&"windows line\r\nnext".to_string()), "windows line");
}

#[test]
fn preview_truncates_long_lines() {
    let long: String = "x".repeat(70);
    let cut = preview_line(&long);
    assert_eq!(cut.chars().count(), 60);
    assert_eq!(cut, format!("{}...", "x".repeat(57)));
    let exact: String = "y".repeat(60);
    assert_eq!(preview_line(&exact), exact);
}
