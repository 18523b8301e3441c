//! The durable log store, modeled on its file content.
//!
//! A [`NoteFile`] holds what is on disk: the canonical file's text (or `None`
//! when the file is absent) and the sibling temporary file's text. Append
//! writes one encoded line onto the canonical tail; edit and delete go
//! through the sole rewrite path, which first writes the temporary file in
//! full — leaving the canonical text untouched — and only then renames it
//! over the canonical path. The surrounding program mirrors each step with
//! the matching file operation.

use vstd::prelude::*;

use crate::codec::{encode_note, encode_spec, no_nl};
use crate::log::{
    lemma_parse_append, lemma_parse_serialize, lemma_parse_single, lemma_serialize_terminated,
    nl_terminated, parse_log, parse_notes, serialize_notes, serialize_spec,
};
use crate::note::{Note, NoteV, notes_view};
use crate::text::{push_char, str_eq};

verus! {

/// Why a store operation was refused. I/O failures are the caller's to
/// report; the store itself refuses only a target that does not exist.
#[derive(Clone, Copy, Debug, PartialEq, Eq, Structural)]
pub enum StoreError {
    IndexOutOfRange,
}

/// The note file and its sibling temporary file, each `None` when absent.
pub struct NoteFile {
    pub canonical: Option<String>,
    pub temp: Option<String>,
}

/// The canonical file's text, an absent file reading as empty.
pub open spec fn canonical_text(f: NoteFile) -> Seq<char> {
    match f.canonical {
        Some(c) => c@,
        None => Seq::empty(),
    }
}

impl NoteFile {
    /// The records the canonical file holds.
    pub open spec fn records(self) -> Seq<NoteV> {
        parse_log(canonical_text(self)).0
    }

    /// How many canonical lines are malformed and skipped on load.
    pub open spec fn skipped(self) -> int {
        parse_log(canonical_text(self)).1
    }

    /// Every writer leaves the canonical text empty or newline-terminated.
    pub open spec fn wf(self) -> bool {
        nl_terminated(canonical_text(self))
    }
}

/// Relies on `chrono::Local::now` and chrono's `format` with
/// `"%Y-%m-%d %H:%M:%S"`: the rendering is digits, `-`, `:` and spaces, so it
/// never holds a newline. Nothing else is assumed of the clock.
#[verifier::external_body]
pub fn now_string() -> (r: String)
    ensures
        no_nl(r@),
{
    chrono::Local::now().format("%Y-%m-%d %H:%M:%S").to_string()
}

/// Appends one record, stamped with the current time, to the canonical tail:
/// exactly one encoded, newline-terminated line. The prior text is kept
/// byte for byte, and on a well-formed file the new record is durably the
/// new last element, with everything before it unchanged.
pub fn append_note(file: &mut NoteFile, title: &str, content: &str) -> (n: Note)
    ensures
        n@.title == title@,
        n@.content == content@,
        final(file).temp == old(file).temp,
        final(file).canonical is Some,
        canonical_text(*final(file)) == canonical_text(*old(file)) + encode_spec(n@) + seq!['\n'],
        old(file).wf() ==> final(file).wf() && final(file).records() == old(
            file,
        ).records().push(n@) && final(file).skipped() == old(file).skipped(),
{
    let n = Note { ts: now_string(), title: title.to_owned(), content: content.to_owned() };
    let line = encode_note(&n);
    let mut c: String = match &file.canonical {
        Some(cur) => cur.clone(),
        None => String::new(),
    };
    let ghost c0 = c@;
    c.append(line.as_str());
    push_char(&mut c, '\n');
    proof {
        assert(c@ =~= c0 + encode_spec(n@) + seq!['\n']);
        if nl_terminated(c0) {
            lemma_parse_append(c0, encode_spec(n@) + seq!['\n']);
            lemma_parse_single(n@);
            assert(c0 + (encode_spec(n@) + seq!['\n']) =~= c@);
            assert(parse_log(c@).0 =~= parse_log(c0).0.push(n@));
            assert(c@[c@.len() - 1] == '\n');
        }
    }
    file.canonical = Some(c);
    n
}

/// Loads the whole record sequence from the canonical file. An absent file
/// is an empty store, not an error; each malformed line is skipped and
/// counted, never fatal.
pub fn load_notes(file: &NoteFile) -> (r: (Vec<Note>, usize))
    ensures
        notes_view(r.0@) == file.records(),
        r.1 as int == file.skipped(),
{
    match &file.canonical {
        None => {
            let r: (Vec<Note>, usize) = (Vec::new(), 0);
            proof {
                assert(notes_view(r.0@) =~= Seq::<NoteV>::empty());
                assert(parse_log(Seq::<char>::empty()).0.len() == 0);
                assert(parse_log(Seq::<char>::empty()).1 == 0);
            }
            r
        },
        Some(c) => parse_notes(c.as_str()),
    }
}

/// The first half of the rewrite protocol: the temporary file receives the
/// full serialization while the canonical file stays untouched, byte for
/// byte. A failure after this step therefore loses nothing.
pub fn write_temp(file: &mut NoteFile, notes: &Vec<Note>)
    ensures
        final(file).canonical == old(file).canonical,
        final(file).temp matches Some(t) && t@ == serialize_spec(notes_view(notes@)),
{
    let content = serialize_notes(notes);
    file.temp = Some(content);
}

/// The second half of the rewrite protocol: the atomic rename. The
/// temporary file's complete text becomes the canonical text in one step.
pub fn commit_temp(file: &mut NoteFile)
    requires
        old(file).temp is Some,
    ensures
        final(file).canonical == old(file).temp,
        final(file).temp is None,
{
    let t = file.temp.take();
    file.canonical = t;
}

/// The sole write path for edit and delete: serialize every record to the
/// temporary file, then rename it over the canonical path. Afterwards the
/// canonical file holds exactly the given records and nothing is skipped.
pub fn rewrite_all(file: &mut NoteFile, notes: &Vec<Note>)
    ensures
        final(file).temp is None,
        final(file).canonical matches Some(c) && c@ == serialize_spec(notes_view(notes@)),
        final(file).records() == notes_view(notes@),
        final(file).skipped() == 0,
        final(file).wf(),
{
    write_temp(file, notes);
    commit_temp(file);
    proof {
        lemma_parse_serialize(notes_view(notes@));
        lemma_serialize_terminated(notes_view(notes@));
    }
}

/// The record at `index` replaced with the given title and content (and
/// some fresh timestamp), all other records untouched.
pub open spec fn replaced_at(
    old_recs: Seq<NoteV>,
    new_recs: Seq<NoteV>,
    index: int,
    title: Seq<char>,
    content: Seq<char>,
) -> bool {
    &&& new_recs.len() == old_recs.len()
    &&& forall|k: int| 0 <= k < old_recs.len() && k != index ==> new_recs[k] == old_recs[k]
    &&& new_recs[index].title == title
    &&& new_recs[index].content == content
}

/// Deletes the record at `index`: the remainder is rewritten through the
/// atomic path, every later record shifting down by one. An out-of-range
/// index is refused with the store untouched.
pub fn delete_note(file: &mut NoteFile, index: usize) -> (r: Result<(), StoreError>)
    ensures
        r is Ok <==> index < old(file).records().len(),
        r matches Err(e) ==> e == StoreError::IndexOutOfRange && *final(file) == *old(file),
        r is Ok ==> final(file).records() == old(file).records().remove(index as int)
            && final(file).skipped() == 0 && final(file).wf() && final(file).temp is None,
{
    let (mut notes, _skipped) = load_notes(file);
    if index >= notes.len() {
        return Err(StoreError::IndexOutOfRange);
    }
    notes.remove(index);
    rewrite_all(file, &notes);
    proof {
        assert(notes_view(notes@) =~= old(file).records().remove(index as int));
    }
    Ok(())
}

/// Edits the record at `index` with the store's documented semantics: an
/// out-of-range index is refused untouched; an edit to wholly empty fields
/// is an implicit delete; an edit that changes nothing leaves the file
/// entirely alone — no rewrite, no timestamp bump; any other edit replaces
/// the record's title and content, stamps it with the current time, and
/// rewrites the whole sequence through the atomic path.
pub fn edit_note(file: &mut NoteFile, index: usize, title: &str, content: &str) -> (r: Result<
    (),
    StoreError,
>)
    ensures
        r is Ok <==> index < old(file).records().len(),
        r matches Err(e) ==> e == StoreError::IndexOutOfRange && *final(file) == *old(file),
        (r is Ok && title@.len() == 0 && content@.len() == 0)
            ==> final(file).records() == old(file).records().remove(index as int)
            && final(file).skipped() == 0 && final(file).wf(),
        (r is Ok && !(title@.len() == 0 && content@.len() == 0)
            && title@ == old(file).records()[index as int].title
            && content@ == old(file).records()[index as int].content)
            ==> *final(file) == *old(file),
        (r is Ok && !(title@.len() == 0 && content@.len() == 0)
            && !(title@ == old(file).records()[index as int].title
                && content@ == old(file).records()[index as int].content))
            ==> replaced_at(old(file).records(), final(file).records(), index as int, title@, content@)
            && final(file).skipped() == 0 && final(file).wf(),
{
    let (mut notes, _skipped) = load_notes(file);
    if index >= notes.len() {
        return Err(StoreError::IndexOutOfRange);
    }
    if title.is_empty() && content.is_empty() {
        notes.remove(index);
        rewrite_all(file, &notes);
        proof {
            assert(notes_view(notes@) =~= old(file).records().remove(index as int));
        }
        return Ok(());
    }
    let same = str_eq(title, notes[index].title.as_str()) && str_eq(
        content,
        notes[index].content.as_str(),
    );
    if same {
        return Ok(());
    }
    let fresh = Note { ts: now_string(), title: title.to_owned(), content: content.to_owned() };
    notes.remove(index);
    notes.insert(index, fresh);
    rewrite_all(file, &notes);
    proof {
        assert forall|k: int|
            0 <= k < old(file).records().len() && k != index implies final(file).records()[k]
            == old(file).records()[k] by {
            assert(notes_view(notes@)[k] == notes@[k]@);
        }
    }
    Ok(())
}

} // verus!
