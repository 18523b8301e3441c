//! The interactive session's read cache and its display helper.
//!
//! The cache is an explicit value owned by one session: a record sequence
//! plus a `loaded` flag. Unloaded at start, it is filled lazily from the
//! store, a successful append is merged straight into a loaded cache, and
//! anything that bypasses the cache invalidates it rather than leaving it
//! stale.

use vstd::prelude::*;

use crate::log::line_len;
use crate::note::{Note, notes_view};
use crate::store::{load_notes, NoteFile};
use crate::text::push_char;

verus! {

/// The lazy in-memory mirror of the note file.
pub struct App {
    pub notes: Vec<Note>,
    pub loaded: bool,
}

impl App {
    /// A loaded cache mirrors the file's records exactly.
    pub open spec fn in_sync(self, file: NoteFile) -> bool {
        self.loaded ==> notes_view(self.notes@) == file.records()
    }

    /// A fresh, unloaded cache.
    pub fn new() -> (r: App)
        ensures
            !r.loaded,
            r.notes@.len() == 0,
    {
        App { notes: Vec::new(), loaded: false }
    }

    /// Fills the cache from the store when it is not loaded yet; a no-op on
    /// a cache that is already loaded. Either way the cache ends loaded, and
    /// a cache that was in sync stays in sync.
    pub fn ensure_loaded(&mut self, file: &NoteFile)
        ensures
            final(self).loaded,
            old(self).loaded ==> *final(self) == *old(self),
            !old(self).loaded ==> notes_view(final(self).notes@) == file.records(),
            old(self).in_sync(*file) ==> final(self).in_sync(*file),
    {
        if !self.loaded {
            let (notes, _skipped) = load_notes(file);
            self.notes = notes;
            self.loaded = true;
        }
    }

    /// Discards the mirror; the next access will reload from the store.
    pub fn invalidate(&mut self)
        ensures
            !final(self).loaded,
            final(self).notes@.len() == 0,
    {
        self.notes.clear();
        self.loaded = false;
    }

    /// Merges a freshly appended record into a loaded cache without a disk
    /// re-read; an unloaded cache stays unloaded and will pick the record up
    /// on its next load.
    pub fn note_appended(&mut self, n: Note)
        ensures
            old(self).loaded ==> final(self).loaded && final(self).notes@ == old(
                self,
            ).notes@.push(n),
            !old(self).loaded ==> *final(self) == *old(self),
    {
        if self.loaded {
            self.notes.push(n);
        }
    }
}

/// The first line of `s`, without a trailing carriage return, shortened to
/// at most 60 characters with a three-dot ellipsis.
pub open spec fn preview_spec(s: Seq<char>) -> Seq<char> {
    let fl0 = s.take(line_len(s) as int);
    let fl = if fl0.len() > 0 && fl0[fl0.len() - 1] == '\r' {
        fl0.drop_last()
    } else {
        fl0
    };
    if fl.len() > 60 {
        fl.take(57) + seq!['.', '.', '.']
    } else {
        fl
    }
}

/// Renders the one-line preview shown beside a record in a listing.
pub fn preview_line(s: &String) -> (r: String)
    ensures
        r@ == preview_spec(s@),
{
    let chars = crate::text::str_to_chars(s.as_str());
    let mut e: usize = 0;
    while e < chars.len() && chars[e] != '\n'
        invariant
            e <= chars@.len(),
            chars@ == s@,
            forall|k: int| 0 <= k < e ==> s@[k] != '\n',
        decreases chars@.len() - e,
    {
        e = e + 1;
    }
    proof {
        crate::log::lemma_line_len_props(s@);
        if e < s@.len() {
            assert(s@[e as int] == '\n');
        }
        assert(line_len(s@) == e) by {
            if line_len(s@) < e {
                assert(s@[line_len(s@) as int] != '\n');
            }
            if line_len(s@) > e {
                assert(s@[e as int] != '\n');
            }
        }
    }
    let mut fl_end = e;
    if fl_end > 0 && chars[fl_end - 1] == '\r' {
        fl_end = fl_end - 1;
    }
    let ghost fl = if fl_end < e {
        s@.take(e as int).drop_last()
    } else {
        s@.take(e as int)
    };
    proof {
        assert(fl =~= s@.take(fl_end as int));
    }
    let mut out = String::new();
    let limit: usize = if fl_end > 60 {
        57
    } else {
        fl_end
    };
    let mut i: usize = 0;
    while i < limit
        invariant
            i <= limit,
            limit <= fl_end <= chars@.len(),
            chars@ == s@,
            out@ == s@.take(i as int),
        decreases limit - i,
    {
        push_char(&mut out, chars[i]);
        i = i + 1;
        proof {
            assert(out@ =~= s@.take(i as int));
        }
    }
    if fl_end > 60 {
        push_char(&mut out, '.');
        push_char(&mut out, '.');
        push_char(&mut out, '.');
        proof {
            assert(s@.take(57) =~= fl.take(57));
            assert(out@ =~= fl.take(57) + seq!['.', '.', '.']);
        }
    } else {
        proof {
            assert(out@ =~= fl);
        }
    }
    out
}

} // verus!
