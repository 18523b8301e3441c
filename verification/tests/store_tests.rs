use floaty_notes::codec::encode_note;
use floaty_notes::store::{
    append_note, commit_temp, delete_note, edit_note, load_notes, rewrite_all, write_temp,
    NoteFile, StoreError,
};
use floaty_notes::Note;

fn empty_file() -> NoteFile {
    NoteFile { canonical: None, temp: None }
}

fn titles(file: &NoteFile) -> Vec<String> {
    let (notes, _) = load_notes(file);
    notes.into_iter().map(|n| n.title).collect()
}

#[test]
fn load_missing_file_is_empty() {
    let file = empty_file();
    let (notes, skipped) = load_notes(&file);
    assert!(notes.is_empty());
    assert_eq!(skipped, 0);
}

#[test]
fn append_then_load_ends_with_record() {
    let mut file = empty_file();
    let first = append_note(&mut file, "A", "x");
    let (notes, skipped) = load_notes(&file);
    assert_eq!(skipped, 0);
    assert_eq!(notes.len(), 1);
    assert_eq!(notes[0].title, "A");
    assert_eq!(notes[0].content, "x");
    assert_eq!(notes[0].ts, first.ts);

    let before: Vec<(String, String)> =
        notes.into_iter().map(|n| (n.title, n.content)).collect();
    append_note(&mut file, "B", "y");
    let (after, skipped2) = load_notes(&file);
    assert_eq!(skipped2, 0);
    assert_eq!(after.len(), 2);
    for (i, (t, c)) in before.iter().enumerate() {
        assert_eq!(&after[i].title, t, "prior element changed by append");
        assert_eq!(&after[i].content, c, "prior element changed by append");
    }
    assert_eq!(after[1].title, "B");
    assert_eq!(after[1].content, "y");
}

#[test]
fn append_merges_multiline_content() {
    let mut file = empty_file();
    append_note(&mut file, "plan", "first\nsecond");
    let (notes, skipped) = load_notes(&file);
    assert_eq!(skipped, 0);
    assert_eq!(notes.len(), 1);
    assert_eq!(notes[0].content, "first\nsecond");
}

#[test]
fn failed_rewrite_before_rename_leaves_canonical_intact() {
    let mut file = empty_file();
    append_note(&mut file, "A", "x");
    append_note(&mut file, "B", "y");
    let before = file.canonical.clone().unwrap();

    // The process dies after the temporary file is fully written but before
    // the rename: only the first half of the protocol runs.
    let (notes, _) = load_notes(&file);
    let shorter: Vec<Note> = notes.into_iter().take(1).collect();
    write_temp(&mut file, &shorter);

    assert_eq!(file.canonical.as_deref().unwrap(), before, "canonical file must be byte-identical");

    // After the rename commits, the canonical file is the new complete text.
    commit_temp(&mut file);
    assert!(file.temp.is_none());
    assert_eq!(titles(&file), vec!["A".to_string()]);
}

#[test]
fn rewrite_all_replaces_whole_sequence() {
    let mut file = empty_file();
    append_note(&mut file, "old", "gone");
    let fresh = vec![
        Note { ts: "t1".to_string(), title: "n1".to_string(), content: "c1".to_string() },
        Note { ts: "t2".to_string(), title: "n2".to_string(), content: "c2".to_string() },
    ];
    rewrite_all(&mut file, &fresh);
    let (notes, skipped) = load_notes(&file);
    assert_eq!(skipped, 0);
    assert_eq!(notes.len(), 2);
    assert_eq!(notes[0].ts, "t1");
    assert_eq!(notes[1].title, "n2");
    let expected = format!("{}\n{}\n", encode_note(&fresh[0]), encode_note(&fresh[1]));
    assert_eq!(file.canonical.as_deref().unwrap(), expected);
}

#[test]
fn noop_edit_leaves_file_untouched() {
    let mut file = empty_file();
    append_note(&mut file, "A", "x");
    let before = file.canonical.clone().unwrap();
    let (notes, _) = load_notes(&file);
    let old_ts = notes[0].ts.clone();

    let r = edit_note(&mut file, 0, "A", "x");
    assert!(r.is_ok());
    assert_eq!(file.canonical.as_deref().unwrap(), before, "no-op edit must not rewrite");
    let (after, _) = load_notes(&file);
    assert_eq!(after[0].ts, old_ts, "no-op edit must not advance the timestamp");
}

#[test]
fn empty_edit_deletes_and_shifts() {
    let mut file = empty_file();
    append_note(&mut file, "A", "x");
    append_note(&mut file, "B", "y");
    append_note(&mut file, "C", "z");
    let r = edit_note(&mut file, 1, "", "");
    assert!(r.is_ok());
    assert_eq!(titles(&file), vec!["A".to_string(), "C".to_string()]);
}

#[test]
fn real_edit_replaces_fields_and_restamps() {
    let mut file = empty_file();
    append_note(&mut file, "A", "x");
    append_note(&mut file, "B", "y");
    let r = edit_note(&mut file, 1, "B2", "y2");
    assert!(r.is_ok());
    let (notes, skipped) = load_notes(&file);
    assert_eq!(skipped, 0);
    assert_eq!(notes.len(), 2);
    assert_eq!(notes[0].title, "A");
    assert_eq!(notes[1].title, "B2");
    assert_eq!(notes[1].content, "y2");
}

#[test]
fn edit_out_of_range_is_refused() {
    let mut file = empty_file();
    append_note(&mut file, "A", "x");
    let before = file.canonical.clone();
    assert_eq!(edit_note(&mut file, 1, "t", "c"), Err(StoreError::IndexOutOfRange));
    assert_eq!(file.canonical, before);
}

#[test]
fn delete_out_of_range_is_refused() {
    let mut file = empty_file();
    assert_eq!(delete_note(&mut file, 0), Err(StoreError::IndexOutOfRange));
    assert!(file.canonical.is_none());
}

#[test]
fn corrupt_line_is_skipped_and_counted() {
    let mut file = empty_file();
    append_note(&mut file, "A", "x");
    append_note(&mut file, "B", "y");
    append_note(&mut file, "C", "z");
    // Corrupt the middle line by hand, as a torn write would.
    let content = file.canonical.take().unwrap();
    let mut lines: Vec<&str> = content.lines().collect();
    lines[1] = "{\"ts\":\"broken";
    let mut mangled = lines.join("\n");
    mangled.push('\n');
    file.canonical = Some(mangled);

    let (notes, skipped) = load_notes(&file);
    assert_eq!(skipped, 1, "exactly one decode diagnostic");
    assert_eq!(notes.len(), 2, "the other records all load");
    assert_eq!(notes[0].title, "A");
    assert_eq!(notes[1].title, "C");
}

#[test]
fn blank_lines_are_ignored() {
    let mut file = empty_file();
    append_note(&mut file, "A", "x");
    let mut content = file.canonical.take().unwrap();
    content.push_str("   \n\n\t\n");
    file.canonical = Some(content);
    let (notes, skipped) = load_notes(&file);
    assert_eq!(skipped, 0);
    assert_eq!(notes.len(), 1);
}

#[test]
fn scenario_append_delete_edit_to_empty() {
    let mut file = empty_file();
    append_note(&mut file, "A", "x");
    append_note(&mut file, "B", "y");

    let (notes, _) = load_notes(&file);
    assert_eq!(notes.len(), 2);
    assert_eq!((notes[0].title.as_str(), notes[0].content.as_str()), ("A", "x"));
    assert_eq!((notes[1].title.as_str(), notes[1].content.as_str()), ("B", "y"));

    assert!(delete_note(&mut file, 0).is_ok());
    let (notes, _) = load_notes(&file);
    assert_eq!(notes.len(), 1);
    assert_eq!((notes[0].title.as_str(), notes[0].content.as_str()), ("B", "y"));

    assert!(edit_note(&mut file, 0, "", "").is_ok());
    let (notes, _) = load_notes(&file);
    assert!(notes.is_empty());
}
