//! The record type persisted by the log store.

use vstd::prelude::*;

verus! {

/// Mathematical view of a [`Note`]: the three fields as character sequences.
pub ghost struct NoteV {
    pub ts: Seq<char>,
    pub title: Seq<char>,
    pub content: Seq<char>,
}

/// One user-authored record: a timestamp plus a title and a body, all free-form
/// text. The body may span several lines; the codec keeps each record on one
/// physical line of the log file.
#[derive(Debug, Clone)]
pub struct Note {
    pub ts: String,
    pub title: String,
    pub content: String,
}

impl View for Note {
    type V = NoteV;

    open spec fn view(&self) -> NoteV {
        NoteV { ts: self.ts@, title: self.title@, content: self.content@ }
    }
}

/// The view of a sequence of notes, element by element.
pub open spec fn notes_view(notes: Seq<Note>) -> Seq<NoteV> {
    notes.map_values(|n: Note| n@)
}

} // verus!
