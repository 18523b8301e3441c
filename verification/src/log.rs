//! The log file's content model: one encoded record per line, oldest first.
//!
//! `parse_log` is the meaning of a file's text: blank lines are ignored,
//! well-formed lines decode to records, and every malformed line is skipped
//! and counted, never fatal. `serialize_spec` is the canonical rendering
//! written by a full rewrite. The lemmas here connect the two: a serialized
//! sequence parses back to itself, appending one encoded line appends exactly
//! one record, and one corrupt line costs exactly that line.

use vstd::prelude::*;

use crate::codec::{decode_spec, encode_spec, no_nl, lemma_decode_encode, lemma_encode_no_nl};
use crate::note::{Note, NoteV, notes_view};
use crate::text::push_char;

verus! {

/// The length of the first line: the index of the first newline, or the whole
/// sequence when there is none.
pub open spec fn line_len(s: Seq<char>) -> nat
    decreases s.len(),
{
    if s.len() == 0 {
        0
    } else if s[0] == '\n' {
        0
    } else {
        1 + line_len(s.skip(1))
    }
}

/// A line of nothing but horizontal whitespace (or nothing at all); such
/// lines are ignored when a log is read.
pub open spec fn is_blank(s: Seq<char>) -> bool {
    forall|i: int| 0 <= i < s.len() ==> (s[i] == ' ' || s[i] == '\t' || s[i] == '\r')
}

/// Empty, or ending in a newline: the shape every writer of the log leaves
/// behind.
pub open spec fn nl_terminated(s: Seq<char>) -> bool {
    s.len() == 0 || s[s.len() - 1] == '\n'
}

/// The meaning of a log file's text: the records of its decodable lines in
/// order, and the count of malformed lines that were skipped.
pub open spec fn parse_log(s: Seq<char>) -> (Seq<NoteV>, int)
    decreases s.len(),
{
    if s.len() == 0 {
        (Seq::empty(), 0)
    } else {
        let n = line_len(s);
        let line = s.take(n as int);
        let rest = if n < s.len() {
            s.skip(n as int + 1)
        } else {
            Seq::empty()
        };
        let tail = parse_log(rest);
        if is_blank(line) {
            tail
        } else {
            match decode_spec(line) {
                Some(nv) => (seq![nv] + tail.0, tail.1),
                None => (tail.0, tail.1 + 1),
            }
        }
    }
}

/// The canonical rendering of a record sequence: each record encoded onto its
/// own newline-terminated line.
pub open spec fn serialize_spec(notes: Seq<NoteV>) -> Seq<char>
    decreases notes.len(),
{
    if notes.len() == 0 {
        Seq::empty()
    } else {
        encode_spec(notes[0]) + seq!['\n'] + serialize_spec(notes.skip(1))
    }
}

/// The first line stops at the first newline and holds no newline itself.
pub proof fn lemma_line_len_props(s: Seq<char>)
    ensures
        line_len(s) <= s.len(),
        forall|k: int| 0 <= k < line_len(s) ==> s[k] != '\n',
        line_len(s) < s.len() ==> s[line_len(s) as int] == '\n',
    decreases s.len(),
{
    if s.len() == 0 {
    } else if s[0] == '\n' {
    } else {
        lemma_line_len_props(s.skip(1));
        assert forall|k: int| 0 <= k < line_len(s) implies s[k] != '\n' by {
            if k > 0 {
                assert(s.skip(1)[k - 1] == s[k]);
            }
        }
        if line_len(s) < s.len() {
            assert(s.skip(1)[line_len(s) as int - 1] == s[line_len(s) as int]);
        }
    }
}

/// How the first line of a concatenation relates to the first line of its
/// left part.
pub proof fn lemma_line_len_concat(a: Seq<char>, b: Seq<char>)
    ensures
        line_len(a) < a.len() ==> line_len(a + b) == line_len(a),
        line_len(a) == a.len() ==> line_len(a + b) == a.len() + line_len(b),
    decreases a.len(),
{
    lemma_line_len_props(a);
    if a.len() == 0 {
        assert(a + b =~= b);
    } else if a[0] == '\n' {
        assert((a + b)[0] == '\n');
    } else {
        assert((a + b)[0] == a[0]);
        assert((a + b).skip(1) =~= a.skip(1) + b);
        lemma_line_len_concat(a.skip(1), b);
    }
}

/// A sequence without newlines is all one line.
pub proof fn lemma_no_nl_line_len(s: Seq<char>)
    requires
        no_nl(s),
    ensures
        line_len(s) == s.len(),
{
    lemma_line_len_props(s);
    if line_len(s) < s.len() {
        assert(s[line_len(s) as int] != '\n');
    }
}

/// No more lines are skipped than the file has characters.
pub proof fn lemma_parse_count_bound(s: Seq<char>)
    ensures
        0 <= parse_log(s).1 <= s.len(),
    decreases s.len(),
{
    if s.len() == 0 {
    } else {
        lemma_line_len_props(s);
        let n = line_len(s);
        let rest = if n < s.len() {
            s.skip(n as int + 1)
        } else {
            Seq::<char>::empty()
        };
        lemma_parse_count_bound(rest);
        if !is_blank(s.take(n as int)) && decode_spec(s.take(n as int)) is None {
            assert(n >= 1) by {
                if n == 0 {
                    assert(s.take(0).len() == 0);
                }
            }
        }
    }
}

/// Serialized output is always newline-terminated.
pub proof fn lemma_serialize_terminated(notes: Seq<NoteV>)
    ensures
        nl_terminated(serialize_spec(notes)),
    decreases notes.len(),
{
    if notes.len() == 0 {
    } else {
        lemma_serialize_terminated(notes.skip(1));
        let s = serialize_spec(notes);
        let head = encode_spec(notes[0]) + seq!['\n'];
        let tail = serialize_spec(notes.skip(1));
        assert(s =~= head + tail);
        if tail.len() == 0 {
            assert(s[s.len() - 1] == head[head.len() - 1]);
        } else {
            assert(s[s.len() - 1] == tail[tail.len() - 1]);
        }
    }
}

/// Serialization distributes over concatenation.
pub proof fn lemma_serialize_append(a: Seq<NoteV>, b: Seq<NoteV>)
    ensures
        serialize_spec(a + b) == serialize_spec(a) + serialize_spec(b),
    decreases a.len(),
{
    if a.len() == 0 {
        assert(a + b =~= b);
        assert(serialize_spec(a) + serialize_spec(b) =~= serialize_spec(b));
    } else {
        assert((a + b)[0] == a[0]);
        assert((a + b).skip(1) =~= a.skip(1) + b);
        lemma_serialize_append(a.skip(1), b);
        assert(encode_spec(a[0]) + seq!['\n'] + (serialize_spec(a.skip(1)) + serialize_spec(b))
            =~= (encode_spec(a[0]) + seq!['\n'] + serialize_spec(a.skip(1))) + serialize_spec(b));
    }
}

/// Parsing splits over a newline-terminated prefix: the records concatenate
/// and the skip counts add.
pub proof fn lemma_parse_append(c: Seq<char>, d: Seq<char>)
    requires
        nl_terminated(c),
    ensures
        parse_log(c + d).0 == parse_log(c).0 + parse_log(d).0,
        parse_log(c + d).1 == parse_log(c).1 + parse_log(d).1,
    decreases c.len(),
{
    if c.len() == 0 {
        assert(c + d =~= d);
        assert(parse_log(c).0 + parse_log(d).0 =~= parse_log(d).0);
    } else {
        lemma_line_len_props(c);
        let n = line_len(c);
        assert(n < c.len()) by {
            if n == c.len() {
                assert(c[c.len() - 1] != '\n');
            }
        }
        lemma_line_len_concat(c, d);
        assert((c + d).take(n as int) =~= c.take(n as int));
        let rest = c.skip(n as int + 1);
        assert((c + d).skip(n as int + 1) =~= rest + d);
        assert(nl_terminated(rest)) by {
            if rest.len() > 0 {
                assert(rest[rest.len() - 1] == c[c.len() - 1]);
            }
        }
        lemma_parse_append(rest, d);
        if !is_blank(c.take(n as int)) {
            match decode_spec(c.take(n as int)) {
                Some(nv) => {
                    assert(seq![nv] + (parse_log(rest).0 + parse_log(d).0) =~= (seq![nv]
                        + parse_log(rest).0) + parse_log(d).0);
                },
                None => {},
            }
        }
    }
}

/// One encoded, newline-terminated record parses to exactly that record.
pub proof fn lemma_parse_single(n: NoteV)
    ensures
        parse_log(encode_spec(n) + seq!['\n']).0 == seq![n],
        parse_log(encode_spec(n) + seq!['\n']).1 == 0,
{
    let e = encode_spec(n);
    let s = e + seq!['\n'];
    lemma_encode_no_nl(n);
    lemma_no_nl_line_len(e);
    lemma_line_len_concat(e, seq!['\n']);
    assert(line_len(seq!['\n']) == 0);
    assert(line_len(s) == e.len());
    assert(s.take(e.len() as int) =~= e);
    assert(s.skip(e.len() as int + 1) =~= Seq::<char>::empty());
    assert(parse_log(Seq::<char>::empty()).0.len() == 0);
    assert(parse_log(Seq::<char>::empty()).1 == 0);
    assert(e[0] == '{');
    assert(!is_blank(e));
    lemma_decode_encode(n);
    assert(parse_log(s).0 =~= seq![n]);
}

/// A full serialization parses back to exactly the records it was made from,
/// with nothing skipped.
pub proof fn lemma_parse_serialize(notes: Seq<NoteV>)
    ensures
        parse_log(serialize_spec(notes)).0 == notes,
        parse_log(serialize_spec(notes)).1 == 0,
    decreases notes.len(),
{
    if notes.len() == 0 {
        assert(parse_log(serialize_spec(notes)).0 =~= notes);
    } else {
        let e1 = encode_spec(notes[0]) + seq!['\n'];
        assert(serialize_spec(notes) =~= e1 + serialize_spec(notes.skip(1)));
        assert(nl_terminated(e1));
        lemma_parse_append(e1, serialize_spec(notes.skip(1)));
        lemma_parse_single(notes[0]);
        lemma_parse_serialize(notes.skip(1));
        assert(seq![notes[0]] + notes.skip(1) =~= notes);
    }
}

/// Corrupt-line tolerance: a log made of well-formed records with one
/// malformed, non-blank line in their midst loads every record around the bad
/// line and counts exactly one skipped line.
pub proof fn lemma_corrupt_line_tolerance(pre: Seq<NoteV>, bad: Seq<char>, post: Seq<NoteV>)
    requires
        no_nl(bad),
        !is_blank(bad),
        decode_spec(bad) is None,
    ensures
        parse_log(serialize_spec(pre) + bad + seq!['\n'] + serialize_spec(post)).0 == pre + post,
        parse_log(serialize_spec(pre) + bad + seq!['\n'] + serialize_spec(post)).1 == 1,
{
    let mid = bad + seq!['\n'];
    let tail = mid + serialize_spec(post);
    lemma_no_nl_line_len(bad);
    lemma_line_len_concat(bad, seq!['\n'] + serialize_spec(post));
    assert(tail =~= bad + (seq!['\n'] + serialize_spec(post)));
    assert(line_len(seq!['\n'] + serialize_spec(post)) == 0);
    assert(line_len(tail) == bad.len());
    assert(tail.take(bad.len() as int) =~= bad);
    assert(tail.skip(bad.len() as int + 1) =~= serialize_spec(post));
    lemma_parse_serialize(post);
    assert(parse_log(tail).0 == post);
    assert(parse_log(tail).1 == 1);
    lemma_serialize_terminated(pre);
    lemma_parse_append(serialize_spec(pre), tail);
    lemma_parse_serialize(pre);
    assert(serialize_spec(pre) + bad + seq!['\n'] + serialize_spec(post) =~= serialize_spec(pre)
        + tail);
}

/// Whether a line is nothing but horizontal whitespace.
pub(crate) fn is_blank_chars(v: &Vec<char>) -> (b: bool)
    ensures
        b == is_blank(v@),
{
    let mut i: usize = 0;
    while i < v.len()
        invariant
            i <= v@.len(),
            forall|k: int| 0 <= k < i ==> (v@[k] == ' ' || v@[k] == '\t' || v@[k] == '\r'),
        decreases v@.len() - i,
    {
        let c = v[i];
        if c != ' ' && c != '\t' && c != '\r' {
            return false;
        }
        i = i + 1;
    }
    true
}

/// Renders a record sequence as full file content: one line per record.
pub fn serialize_notes(notes: &Vec<Note>) -> (r: String)
    ensures
        r@ == serialize_spec(notes_view(notes@)),
{
    let mut out = String::new();
    let mut i: usize = 0;
    while i < notes.len()
        invariant
            i <= notes@.len(),
            out@ == serialize_spec(notes_view(notes@).take(i as int)),
        decreases notes@.len() - i,
    {
        let line = crate::codec::encode_note(&notes[i]);
        out.append(line.as_str());
        push_char(&mut out, '\n');
        proof {
            let vs = notes_view(notes@);
            lemma_serialize_append(vs.take(i as int), seq![vs[i as int]]);
            assert(vs.take(i + 1) =~= vs.take(i as int) + seq![vs[i as int]]);
            assert(serialize_spec(Seq::<NoteV>::empty()) == Seq::<char>::empty());
            assert(seq![vs[i as int]].skip(1) =~= Seq::<NoteV>::empty());
            assert(serialize_spec(seq![vs[i as int]]) =~= encode_spec(vs[i as int]) + seq!['\n']);
            assert(out@ =~= serialize_spec(vs.take(i + 1)));
        }
        i = i + 1;
    }
    proof {
        assert(notes_view(notes@).take(notes@.len() as int) =~= notes_view(notes@));
    }
    out
}

/// Parses the tail of `s` beginning at `start` as log content.
fn parse_from(s: &Vec<char>, start: usize) -> (r: (Vec<Note>, usize))
    requires
        start <= s@.len(),
    ensures
        notes_view(r.0@) == parse_log(s@.skip(start as int)).0,
        r.1 as int == parse_log(s@.skip(start as int)).1,
    decreases s@.len() - start,
{
    let ghost t = s@.skip(start as int);
    if start == s.len() {
        proof {
            assert(t =~= Seq::<char>::empty());
            assert(notes_view(Seq::<Note>::empty()) =~= Seq::<NoteV>::empty());
        }
        return (Vec::new(), 0);
    }
    let mut e: usize = start;
    while e < s.len() && s[e] != '\n'
        invariant
            start <= e <= s@.len(),
            forall|k: int| start <= k < e ==> s@[k] != '\n',
        decreases s@.len() - e,
    {
        e = e + 1;
    }
    proof {
        lemma_line_len_props(t);
        assert forall|k: int| 0 <= k < e - start implies t[k] != '\n' by {
            assert(t[k] == s@[start + k]);
        }
        if e < s@.len() {
            assert(t[e - start] == s@[e as int]);
        }
        assert(line_len(t) == e - start) by {
            if line_len(t) < e - start {
                assert(t[line_len(t) as int] != '\n');
            }
            if line_len(t) > e - start {
                assert(t[e - start] != '\n');
            }
        }
    }
    let mut line: Vec<char> = Vec::new();
    let mut k: usize = start;
    while k < e
        invariant
            start <= k <= e <= s@.len(),
            line@ == s@.subrange(start as int, k as int),
        decreases e - k,
    {
        line.push(s[k]);
        k = k + 1;
        proof {
            assert(line@ =~= s@.subrange(start as int, k as int));
        }
    }
    proof {
        assert(line@ =~= t.take(e - start));
    }
    let rest_start = if e < s.len() {
        e + 1
    } else {
        e
    };
    proof {
        if e < s@.len() {
            assert(s@.skip(rest_start as int) =~= t.skip(e - start + 1));
        } else {
            assert(s@.skip(rest_start as int) =~= Seq::<char>::empty());
        }
        lemma_parse_count_bound(s@.skip(rest_start as int));
    }
    let (mut tail_notes, tail_bad) = parse_from(s, rest_start);
    if is_blank_chars(&line) {
        (tail_notes, tail_bad)
    } else {
        match crate::codec::decode_chars(&line) {
            Some(n) => {
                tail_notes.insert(0, n);
                proof {
                    assert(notes_view(tail_notes@) =~= seq![n@] + parse_log(
                        s@.skip(rest_start as int),
                    ).0);
                }
                (tail_notes, tail_bad)
            },
            None => (tail_notes, tail_bad + 1),
        }
    }
}

/// Parses full file content: the records of its decodable lines, in order,
/// and the number of malformed lines that were skipped.
pub fn parse_notes(content: &str) -> (r: (Vec<Note>, usize))
    ensures
        notes_view(r.0@) == parse_log(content@).0,
        r.1 as int == parse_log(content@).1,
{
    let chars = crate::text::str_to_chars(content);
    let r = parse_from(&chars, 0);
    proof {
        assert(chars@.skip(0) =~= content@);
    }
    r
}

} // verus!
