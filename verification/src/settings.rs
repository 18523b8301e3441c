//! The settings store: one configuration document, overwritten whole.
//!
//! The document has exactly two fields. It is rendered in the same
//! JSON-shaped form as a record line. Absence of the file and any parse
//! failure both resolve to the hard-coded defaults — configuration is never
//! allowed to become a hard failure.

use vstd::prelude::*;

use crate::codec::{esc, lemma_scan_esc, match_at, push_escaped, scan_chars, scan_str};
use crate::text::{push_char, push_chars};

verus! {

/// Mathematical view of a [`UserSettings`] document.
pub ghost struct SettingsV {
    pub open_same: bool,
    pub key_cmd: Seq<char>,
}

/// The configuration document: whether the main window reopens on restart,
/// and the global shortcut binding.
#[derive(Debug, Clone)]
pub struct UserSettings {
    pub open_same: bool,
    pub key_cmd: String,
}

impl View for UserSettings {
    type V = SettingsV;

    open spec fn view(&self) -> SettingsV {
        SettingsV { open_same: self.open_same, key_cmd: self.key_cmd@ }
    }
}

/// The hard-coded default document.
pub open spec fn default_settings_spec() -> SettingsV {
    SettingsV { open_same: false, key_cmd: seq!['c', 'm', 'd', '+', 'n'] }
}

/// `{"open_same":` — the opening of an encoded document.
pub open spec fn lit_s_open() -> Seq<char> {
    seq!['{', '"', 'o', 'p', 'e', 'n', '_', 's', 'a', 'm', 'e', '"', ':']
}

/// `true`.
pub open spec fn lit_true() -> Seq<char> {
    seq!['t', 'r', 'u', 'e']
}

/// `false`.
pub open spec fn lit_false() -> Seq<char> {
    seq!['f', 'a', 'l', 's', 'e']
}

/// `,"key_cmd":"` — between the flag and the binding.
pub open spec fn lit_s_key() -> Seq<char> {
    seq![',', '"', 'k', 'e', 'y', '_', 'c', 'm', 'd', '"', ':', '"']
}

/// The full encoding of one document.
pub open spec fn settings_encode_spec(v: SettingsV) -> Seq<char> {
    lit_s_open() + (if v.open_same {
        lit_true()
    } else {
        lit_false()
    }) + lit_s_key() + esc(v.key_cmd) + seq!['"', '}']
}

/// Trailing whitespace, as a writer's final newline leaves it.
pub open spec fn is_ws(c: char) -> bool {
    c == ' ' || c == '\t' || c == '\n' || c == '\r'
}

/// The sequence with its trailing whitespace removed.
pub open spec fn trim_end_spec(s: Seq<char>) -> Seq<char>
    decreases s.len(),
{
    if s.len() > 0 && is_ws(s[s.len() - 1]) {
        trim_end_spec(s.drop_last())
    } else {
        s
    }
}

/// Decoding after trimming: the shape check on an exact document.
pub open spec fn settings_decode_core(s: Seq<char>) -> Option<SettingsV> {
    if s.len() < 13 || s.subrange(0, 13) != lit_s_open() {
        None
    } else if s.len() >= 17 && s.subrange(13, 17) == lit_true() {
        settings_decode_tail(s, true, 17)
    } else if s.len() >= 18 && s.subrange(13, 18) == lit_false() {
        settings_decode_tail(s, false, 18)
    } else {
        None
    }
}

/// The binding field and the closing brace, from position `i` on.
pub open spec fn settings_decode_tail(s: Seq<char>, flag: bool, i: int) -> Option<SettingsV> {
    if s.len() < i + 12 || s.subrange(i, i + 12) != lit_s_key() {
        None
    } else {
        match scan_str(s.skip(i + 12)) {
            None => None,
            Some((key, n)) => {
                let j = i + 12 + n;
                if s.len() == j + 1 && s[j] == '}' {
                    Some(SettingsV { open_same: flag, key_cmd: key })
                } else {
                    None
                }
            },
        }
    }
}

/// The decoding of a document file's text: trailing whitespace is ignored,
/// and `Some` comes exactly on the image of `settings_encode_spec`.
pub open spec fn settings_decode_spec(raw: Seq<char>) -> Option<SettingsV> {
    settings_decode_core(trim_end_spec(raw))
}

/// What a document file's text means: the decoded document, or the defaults
/// when it cannot be read.
pub open spec fn settings_of(raw: Seq<char>) -> SettingsV {
    match settings_decode_spec(raw) {
        Some(v) => v,
        None => default_settings_spec(),
    }
}

/// Round trip: decoding an encoded document — with or without the trailing
/// newline the writer adds — gives back exactly that document.
pub proof fn lemma_settings_decode_encode(v: SettingsV)
    ensures
        settings_decode_spec(settings_encode_spec(v)) == Some(v),
        settings_decode_spec(settings_encode_spec(v) + seq!['\n']) == Some(v),
{
    let e = settings_encode_spec(v);
    assert(e[e.len() - 1] == '}');
    assert(trim_end_spec(e) == e);
    assert((e + seq!['\n']).drop_last() =~= e);
    assert(trim_end_spec(e + seq!['\n']) == e);
    let i: int = if v.open_same {
        17
    } else {
        18
    };
    assert(e.subrange(0, 13) =~= lit_s_open());
    if v.open_same {
        assert(e.subrange(13, 17) =~= lit_true());
    } else {
        assert(e.subrange(13, 18) =~= lit_false());
        assert(e.subrange(13, 17)[0] == 'f');
        assert(lit_true()[0] == 't');
    }
    assert(e.subrange(i, i + 12) =~= lit_s_key());
    let r = seq!['}'];
    assert(seq!['"', '}'] =~= seq!['"'] + r);
    assert(e.skip(i + 12) =~= esc(v.key_cmd) + seq!['"'] + r);
    lemma_scan_esc(v.key_cmd, r);
    let j: int = i + 12 + esc(v.key_cmd).len() + 1;
    assert(e.len() == j + 1);
    assert(e[j] == '}');
    assert(settings_decode_core(e) == Some(SettingsV { open_same: v.open_same, key_cmd: v.key_cmd }));
}

/// A computed trim point pins down `trim_end_spec`.
proof fn lemma_trim_end_at(s: Seq<char>, m: int)
    requires
        0 <= m <= s.len(),
        forall|k: int| m <= k < s.len() ==> is_ws(s[k]),
        m == 0 || !is_ws(s[m - 1]),
    ensures
        trim_end_spec(s) == s.take(m),
    decreases s.len(),
{
    if s.len() == m {
        assert(s.take(m) =~= s);
    } else {
        assert(is_ws(s[s.len() - 1]));
        lemma_trim_end_at(s.drop_last(), m);
        assert(s.drop_last().take(m) =~= s.take(m));
    }
}

/// Whether a character counts as trailing whitespace.
fn is_ws_char(c: char) -> (b: bool)
    ensures
        b == is_ws(c),
{
    c == ' ' || c == '\t' || c == '\n' || c == '\r'
}

/// The default document as a value.
pub fn default_settings() -> (r: UserSettings)
    ensures
        r@ == default_settings_spec(),
{
    let key = String::from_str("cmd+n");
    proof {
        reveal_strlit("cmd+n");
        assert(key@ =~= seq!['c', 'm', 'd', '+', 'n']);
    }
    UserSettings { open_same: false, key_cmd: key }
}

/// The `{"open_same":` literal as an executable vector.
fn lit_s_open_vec() -> (v: Vec<char>)
    ensures
        v@ == lit_s_open(),
{
    let mut v: Vec<char> = Vec::new();
    v.push('{');
    v.push('"');
    v.push('o');
    v.push('p');
    v.push('e');
    v.push('n');
    v.push('_');
    v.push('s');
    v.push('a');
    v.push('m');
    v.push('e');
    v.push('"');
    v.push(':');
    proof {
        assert(v@ =~= lit_s_open());
    }
    v
}

/// The `true` literal as an executable vector.
fn lit_true_vec() -> (v: Vec<char>)
    ensures
        v@ == lit_true(),
{
    let mut v: Vec<char> = Vec::new();
    v.push('t');
    v.push('r');
    v.push('u');
    v.push('e');
    proof {
        assert(v@ =~= lit_true());
    }
    v
}

/// The `false` literal as an executable vector.
fn lit_false_vec() -> (v: Vec<char>)
    ensures
        v@ == lit_false(),
{
    let mut v: Vec<char> = Vec::new();
    v.push('f');
    v.push('a');
    v.push('l');
    v.push('s');
    v.push('e');
    proof {
        assert(v@ =~= lit_false());
    }
    v
}

/// The `,"key_cmd":"` literal as an executable vector.
fn lit_s_key_vec() -> (v: Vec<char>)
    ensures
        v@ == lit_s_key(),
{
    let mut v: Vec<char> = Vec::new();
    v.push(',');
    v.push('"');
    v.push('k');
    v.push('e');
    v.push('y');
    v.push('_');
    v.push('c');
    v.push('m');
    v.push('d');
    v.push('"');
    v.push(':');
    v.push('"');
    proof {
        assert(v@ =~= lit_s_key());
    }
    v
}

/// Encodes one document onto a single line (no trailing newline).
pub fn encode_settings(s: &UserSettings) -> (r: String)
    ensures
        r@ == settings_encode_spec(s@),
{
    let mut out = String::new();
    let open = lit_s_open_vec();
    push_chars(&mut out, &open);
    if s.open_same {
        let t = lit_true_vec();
        push_chars(&mut out, &t);
    } else {
        let f = lit_false_vec();
        push_chars(&mut out, &f);
    }
    let key = lit_s_key_vec();
    push_chars(&mut out, &key);
    push_escaped(&mut out, s.key_cmd.as_str());
    push_char(&mut out, '"');
    push_char(&mut out, '}');
    proof {
        assert(out@ =~= settings_encode_spec(s@));
    }
    out
}

/// Decodes a trimmed document.
fn settings_decode_chars(s: &Vec<char>) -> (r: Option<UserSettings>)
    ensures
        r matches Some(v) ==> settings_decode_core(s@) == Some(v@),
        r is None ==> settings_decode_core(s@) is None,
{
    let slen = s.len();
    proof {
        assert(s@.len() <= usize::MAX);
    }
    let open = lit_s_open_vec();
    if !match_at(s, 0, &open) {
        return None;
    }
    let t = lit_true_vec();
    let f = lit_false_vec();
    let (flag, i): (bool, usize) = if match_at(s, 13, &t) {
        (true, 17)
    } else if match_at(s, 13, &f) {
        (false, 18)
    } else {
        return None;
    };
    let key_lit = lit_s_key_vec();
    if !match_at(s, i, &key_lit) {
        return None;
    }
    let (key, j) = match scan_chars(s, i + 12) {
        Some(p) => p,
        None => {
            return None;
        },
    };
    if j < s.len() && j + 1 == s.len() && s[j] == '}' {
        let v = UserSettings { open_same: flag, key_cmd: key };
        proof {
            assert(settings_decode_core(s@) == Some(v@));
        }
        Some(v)
    } else {
        None
    }
}

/// Reads a document from file text: the decoded document, or the defaults
/// on any parse failure.
pub fn parse_settings(content: &str) -> (r: UserSettings)
    ensures
        r@ == settings_of(content@),
{
    let mut chars = crate::text::str_to_chars(content);
    let mut m: usize = chars.len();
    while m > 0 && is_ws_char(chars[m - 1])
        invariant
            m <= chars@.len(),
            forall|k: int| m <= k < chars@.len() ==> is_ws(chars@[k]),
        decreases m,
    {
        m = m - 1;
    }
    proof {
        lemma_trim_end_at(chars@, m as int);
    }
    chars.truncate(m);
    match settings_decode_chars(&chars) {
        Some(v) => v,
        None => default_settings(),
    }
}

/// The settings file, `None` when absent.
pub struct SettingsFile {
    pub content: Option<String>,
}

impl SettingsFile {
    /// The document this file denotes: the decoded text, or the defaults
    /// when the file is absent or unreadable.
    pub open spec fn document(self) -> SettingsV {
        match self.content {
            Some(c) => settings_of(c@),
            None => default_settings_spec(),
        }
    }
}

/// Loads the document. A missing file yields the defaults without touching
/// the store — no file is created as a side effect — and a corrupt file
/// yields the defaults as well.
pub fn load_settings(file: &SettingsFile) -> (r: UserSettings)
    ensures
        r@ == file.document(),
{
    match &file.content {
        None => default_settings(),
        Some(c) => parse_settings(c.as_str()),
    }
}

/// Saves the document by one whole overwrite of the file's text — the
/// narrower durability tier: a torn write can lose only settings, never
/// note data. Loading afterwards gives back exactly this document.
pub fn save_settings(file: &mut SettingsFile, s: &UserSettings)
    ensures
        final(file).content matches Some(c) && c@ == settings_encode_spec(s@) + seq!['\n'],
        final(file).document() == s@,
{
    let mut out = encode_settings(s);
    push_char(&mut out, '\n');
    proof {
        assert(out@ =~= settings_encode_spec(s@) + seq!['\n']);
        lemma_settings_decode_encode(s@);
    }
    file.content = Some(out);
}

} // verus!
