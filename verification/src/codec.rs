//! The record codec: one note to and from one physical line of text.
//!
//! A record is rendered as a single JSON-shaped object with three string
//! fields. The quote, the backslash and the line-control characters are
//! escaped, so a record always occupies exactly one line, and decoding is the
//! exact inverse of encoding. Decoding any other line yields `None`, never a
//! panic.

use vstd::prelude::*;

use crate::note::{Note, NoteV};
use crate::text::{push_char, str_to_chars};

verus! {

/// The escape of one character inside a quoted string.
pub open spec fn esc_char(c: char) -> Seq<char> {
    if c == '"' {
        seq!['\\', '"']
    } else if c == '\\' {
        seq!['\\', '\\']
    } else if c == '\n' {
        seq!['\\', 'n']
    } else if c == '\r' {
        seq!['\\', 'r']
    } else if c == '\t' {
        seq!['\\', 't']
    } else {
        seq![c]
    }
}

/// The escape of a whole string: each character in turn.
pub open spec fn esc(s: Seq<char>) -> Seq<char>
    decreases s.len(),
{
    if s.len() == 0 {
        Seq::empty()
    } else {
        esc_char(s[0]) + esc(s.skip(1))
    }
}

/// What one escape character stands for, if anything.
pub open spec fn unesc_char(c: char) -> Option<char> {
    if c == '"' {
        Some('"')
    } else if c == '\\' {
        Some('\\')
    } else if c == 'n' {
        Some('\n')
    } else if c == 'r' {
        Some('\r')
    } else if c == 't' {
        Some('\t')
    } else {
        None
    }
}

/// Scans a quoted-string body up to and including its closing quote.
/// Yields the unescaped contents and the number of characters consumed,
/// or `None` when no well-formed closing quote is reached.
pub open spec fn scan_str(s: Seq<char>) -> Option<(Seq<char>, int)>
    decreases s.len(),
{
    if s.len() == 0 {
        None
    } else if s[0] == '"' {
        Some((Seq::empty(), 1))
    } else if s[0] == '\\' {
        if s.len() >= 2 {
            match unesc_char(s[1]) {
                Some(c) => match scan_str(s.skip(2)) {
                    Some(p) => Some((seq![c] + p.0, p.1 + 2)),
                    None => None,
                },
                None => None,
            }
        } else {
            None
        }
    } else {
        match scan_str(s.skip(1)) {
            Some(p) => Some((seq![s[0]] + p.0, p.1 + 1)),
            None => None,
        }
    }
}

/// `{"ts":"` — the opening of an encoded record.
pub open spec fn lit_open() -> Seq<char> {
    seq!['{', '"', 't', 's', '"', ':', '"']
}

/// `,"title":"` — between the timestamp and the title.
pub open spec fn lit_title() -> Seq<char> {
    seq![',', '"', 't', 'i', 't', 'l', 'e', '"', ':', '"']
}

/// `,"content":"` — between the title and the body.
pub open spec fn lit_content() -> Seq<char> {
    seq![',', '"', 'c', 'o', 'n', 't', 'e', 'n', 't', '"', ':', '"']
}

/// The full encoding of one record.
pub open spec fn encode_spec(n: NoteV) -> Seq<char> {
    lit_open() + esc(n.ts) + seq!['"'] + lit_title() + esc(n.title) + seq!['"'] + lit_content()
        + esc(n.content) + seq!['"', '}']
}

/// The decoding of one line: `Some` exactly on the image of `encode_spec`.
pub open spec fn decode_spec(s: Seq<char>) -> Option<NoteV> {
    if s.len() < 7 || s.subrange(0, 7) != lit_open() {
        None
    } else {
        match scan_str(s.skip(7)) {
            None => None,
            Some((ts, n1)) => {
                let i1 = 7 + n1;
                if s.len() < i1 + 10 || s.subrange(i1, i1 + 10) != lit_title() {
                    None
                } else {
                    match scan_str(s.skip(i1 + 10)) {
                        None => None,
                        Some((title, n2)) => {
                            let i2 = i1 + 10 + n2;
                            if s.len() < i2 + 12 || s.subrange(i2, i2 + 12) != lit_content() {
                                None
                            } else {
                                match scan_str(s.skip(i2 + 12)) {
                                    None => None,
                                    Some((content, n3)) => {
                                        let i3 = i2 + 12 + n3;
                                        if s.len() == i3 + 1 && s[i3] == '}' {
                                            Some(NoteV { ts, title, content })
                                        } else {
                                            None
                                        }
                                    },
                                }
                            }
                        },
                    }
                }
            },
        }
    }
}

/// No raw newline anywhere in the sequence.
pub open spec fn no_nl(s: Seq<char>) -> bool {
    forall|i: int| 0 <= i < s.len() ==> s[i] != '\n'
}

/// Escaping distributes over concatenation.
pub proof fn lemma_esc_append(a: Seq<char>, b: Seq<char>)
    ensures
        esc(a + b) == esc(a) + esc(b),
    decreases a.len(),
{
    if a.len() == 0 {
        assert(a + b =~= b);
        assert(esc(a) + esc(b) =~= esc(b));
    } else {
        assert((a + b).skip(1) =~= a.skip(1) + b);
        assert((a + b)[0] == a[0]);
        lemma_esc_append(a.skip(1), b);
        assert(esc_char(a[0]) + (esc(a.skip(1)) + esc(b)) =~= (esc_char(a[0]) + esc(a.skip(1)))
            + esc(b));
    }
}

/// An escaped string holds no raw newline.
pub proof fn lemma_esc_no_nl(s: Seq<char>)
    ensures
        no_nl(esc(s)),
    decreases s.len(),
{
    if s.len() == 0 {
    } else {
        lemma_esc_no_nl(s.skip(1));
        assert forall|i: int| 0 <= i < esc(s).len() implies esc(s)[i] != '\n' by {
            assert(esc(s) == esc_char(s[0]) + esc(s.skip(1)));
            if i >= esc_char(s[0]).len() {
                assert(esc(s)[i] == esc(s.skip(1))[i - esc_char(s[0]).len()]);
            }
        }
    }
}

/// Scanning an escaped string followed by a closing quote recovers the
/// string exactly and stops at the quote, whatever follows it.
pub proof fn lemma_scan_esc(v: Seq<char>, rest: Seq<char>)
    ensures
        scan_str(esc(v) + seq!['"'] + rest) == Some((v, esc(v).len() as int + 1)),
    decreases v.len(),
{
    let s = esc(v) + seq!['"'] + rest;
    if v.len() == 0 {
        assert(s[0] == '"');
        assert(v =~= Seq::<char>::empty());
    } else {
        let c = v[0];
        let tail = v.skip(1);
        assert(esc(v) == esc_char(c) + esc(tail));
        lemma_scan_esc(tail, rest);
        if c == '"' || c == '\\' || c == '\n' || c == '\r' || c == '\t' {
            assert(esc_char(c).len() == 2);
            assert(s[0] == '\\');
            assert(s[1] == esc_char(c)[1]);
            assert(unesc_char(s[1]) == Some(c));
            assert(s.skip(2) =~= esc(tail) + seq!['"'] + rest);
            assert(seq![c] + tail =~= v);
        } else {
            assert(s[0] == c);
            assert(s.skip(1) =~= esc(tail) + seq!['"'] + rest);
            assert(seq![c] + tail =~= v);
        }
    }
}

/// An encoded record stays on one line.
pub proof fn lemma_encode_no_nl(n: NoteV)
    ensures
        no_nl(encode_spec(n)),
{
    lemma_esc_no_nl(n.ts);
    lemma_esc_no_nl(n.title);
    lemma_esc_no_nl(n.content);
    let s = encode_spec(n);
    assert forall|i: int| 0 <= i < s.len() implies s[i] != '\n' by {
        let a1 = lit_open();
        let a2 = esc(n.ts);
        let a3 = seq!['"'];
        let a4 = lit_title();
        let a5 = esc(n.title);
        let a6 = seq!['"'];
        let a7 = lit_content();
        let a8 = esc(n.content);
        let a9 = seq!['"', '}'];
        assert(s =~= a1 + a2 + a3 + a4 + a5 + a6 + a7 + a8 + a9);
    }
}

/// Round trip: decoding an encoded record gives back exactly that record.
pub proof fn lemma_decode_encode(n: NoteV)
    ensures
        decode_spec(encode_spec(n)) == Some(n),
{
    let s = encode_spec(n);
    let r1 = lit_title() + esc(n.title) + seq!['"'] + lit_content() + esc(n.content) + seq![
        '"',
        '}',
    ];
    assert(s.subrange(0, 7) =~= lit_open());
    assert(s.skip(7) =~= esc(n.ts) + seq!['"'] + r1);
    lemma_scan_esc(n.ts, r1);
    let n1: int = esc(n.ts).len() as int + 1;
    let i1 = 7 + n1;
    assert(s.subrange(i1, i1 + 10) =~= lit_title());
    let r2 = lit_content() + esc(n.content) + seq!['"', '}'];
    assert(s.skip(i1 + 10) =~= esc(n.title) + seq!['"'] + r2);
    lemma_scan_esc(n.title, r2);
    let n2: int = esc(n.title).len() as int + 1;
    let i2 = i1 + 10 + n2;
    assert(s.subrange(i2, i2 + 12) =~= lit_content());
    let r3 = seq!['}'];
    assert(seq!['"', '}'] =~= seq!['"'] + r3);
    assert(s.skip(i2 + 12) =~= esc(n.content) + seq!['"'] + r3);
    lemma_scan_esc(n.content, r3);
    let n3: int = esc(n.content).len() as int + 1;
    let i3 = i2 + 12 + n3;
    assert(s.len() == i3 + 1);
    assert(s[i3] == '}');
    assert(decode_spec(s) == Some(NoteV { ts: n.ts, title: n.title, content: n.content }));
}

/// The opening literal as an executable vector.
fn lit_open_vec() -> (v: Vec<char>)
    ensures
        v@ == lit_open(),
{
    let mut v: Vec<char> = Vec::new();
    v.push('{');
    v.push('"');
    v.push('t');
    v.push('s');
    v.push('"');
    v.push(':');
    v.push('"');
    proof {
        assert(v@ =~= lit_open());
    }
    v
}

/// The title separator literal as an executable vector.
fn lit_title_vec() -> (v: Vec<char>)
    ensures
        v@ == lit_title(),
{
    let mut v: Vec<char> = Vec::new();
    v.push(',');
    v.push('"');
    v.push('t');
    v.push('i');
    v.push('t');
    v.push('l');
    v.push('e');
    v.push('"');
    v.push(':');
    v.push('"');
    proof {
        assert(v@ =~= lit_title());
    }
    v
}

/// The content separator literal as an executable vector.
fn lit_content_vec() -> (v: Vec<char>)
    ensures
        v@ == lit_content(),
{
    let mut v: Vec<char> = Vec::new();
    v.push(',');
    v.push('"');
    v.push('c');
    v.push('o');
    v.push('n');
    v.push('t');
    v.push('e');
    v.push('n');
    v.push('t');
    v.push('"');
    v.push(':');
    v.push('"');
    proof {
        assert(v@ =~= lit_content());
    }
    v
}

/// Whether `pat` occurs in `s` starting at position `from`.
pub(crate) fn match_at(s: &Vec<char>, from: usize, pat: &Vec<char>) -> (b: bool)
    requires
        from <= s@.len(),
    ensures
        b == (from + pat@.len() <= s@.len() && s@.subrange(
            from as int,
            from + pat@.len(),
        ) == pat@),
{
    if s.len() - from < pat.len() {
        return false;
    }
    let mut k: usize = 0;
    while k < pat.len()
        invariant
            from + pat@.len() <= s@.len(),
            s@.len() <= usize::MAX,
            k <= pat@.len(),
            forall|j: int| 0 <= j < k ==> s@[from + j] == pat@[j],
        decreases pat@.len() - k,
    {
        if s[from + k] != pat[k] {
            proof {
                assert(s@.subrange(from as int, from + pat@.len())[k as int] != pat@[k as int]);
            }
            return false;
        }
        k = k + 1;
    }
    proof {
        assert(s@.subrange(from as int, from + pat@.len()) =~= pat@);
    }
    true
}

/// Appends the escaped form of `s` to `out`.
pub(crate) fn push_escaped(out: &mut String, s: &str)
    ensures
        final(out)@ == old(out)@ + esc(s@),
{
    let n = s.unicode_len();
    let mut i: usize = 0;
    while i < n
        invariant
            i <= n,
            n == s@.len(),
            out@ == old(out)@ + esc(s@.take(i as int)),
        decreases n - i,
    {
        let c = s.get_char(i);
        if c == '"' {
            push_char(out, '\\');
            push_char(out, '"');
        } else if c == '\\' {
            push_char(out, '\\');
            push_char(out, '\\');
        } else if c == '\n' {
            push_char(out, '\\');
            push_char(out, 'n');
        } else if c == '\r' {
            push_char(out, '\\');
            push_char(out, 'r');
        } else if c == '\t' {
            push_char(out, '\\');
            push_char(out, 't');
        } else {
            push_char(out, c);
        }
        proof {
            lemma_esc_append(s@.take(i as int), seq![c]);
            assert(seq![c].skip(1) =~= Seq::<char>::empty());
            assert(esc(Seq::<char>::empty()) == Seq::<char>::empty());
            assert(esc(seq![c]) =~= esc_char(c));
            assert(s@.take(i + 1) =~= s@.take(i as int) + seq![c]);
            assert(out@ =~= old(out)@ + esc(s@.take(i + 1)));
        }
        i = i + 1;
    }
    proof {
        assert(s@.take(n as int) =~= s@);
    }
}

/// Encodes one record onto a single line.
pub fn encode_note(n: &Note) -> (r: String)
    ensures
        r@ == encode_spec(n@),
        no_nl(r@),
{
    let mut out = String::new();
    let open = lit_open_vec();
    crate::text::push_chars(&mut out, &open);
    push_escaped(&mut out, n.ts.as_str());
    push_char(&mut out, '"');
    let tl = lit_title_vec();
    crate::text::push_chars(&mut out, &tl);
    push_escaped(&mut out, n.title.as_str());
    push_char(&mut out, '"');
    let ct = lit_content_vec();
    crate::text::push_chars(&mut out, &ct);
    push_escaped(&mut out, n.content.as_str());
    push_char(&mut out, '"');
    push_char(&mut out, '}');
    proof {
        assert(out@ =~= encode_spec(n@));
        lemma_encode_no_nl(n@);
    }
    out
}

/// The scan result of a suffix, lifted back to the whole string: `pre`
/// characters already produced and `consumed` characters already passed.
pub open spec fn scan_cont(
    pre: Seq<char>,
    consumed: int,
    inner: Option<(Seq<char>, int)>,
) -> Option<(Seq<char>, int)> {
    match inner {
        Some(p) => Some((pre + p.0, consumed + p.1)),
        None => None,
    }
}

/// Scans a quoted-string body of `s` starting at `from`, mirroring
/// [`scan_str`] on the corresponding suffix.
pub(crate) fn scan_chars(s: &Vec<char>, from: usize) -> (r: Option<(String, usize)>)
    requires
        from <= s@.len(),
    ensures
        r matches Some(p) ==> from < p.1 <= s@.len() && scan_str(s@.skip(from as int)) == Some(
            (p.0@, p.1 - from as int),
        ),
        r is None ==> scan_str(s@.skip(from as int)) is None,
{
    let mut acc = String::new();
    let mut i: usize = from;
    proof {
        let r0 = scan_str(s@.skip(from as int));
        if r0 is Some {
            assert(Seq::<char>::empty() + r0.unwrap().0 =~= r0.unwrap().0);
        }
    }
    loop
        invariant
            from <= i <= s@.len(),
            scan_str(s@.skip(from as int)) == scan_cont(
                acc@,
                i - from as int,
                scan_str(s@.skip(i as int)),
            ),
        decreases s@.len() - i,
    {
        if i == s.len() {
            proof {
                assert(s@.skip(i as int) =~= Seq::<char>::empty());
            }
            return None;
        }
        let c = s[i];
        let ghost t = s@.skip(i as int);
        proof {
            assert(t[0] == s@[i as int]);
        }
        if c == '"' {
            proof {
                assert(scan_str(t) == Some((Seq::<char>::empty(), 1int)));
                assert(acc@ + Seq::<char>::empty() =~= acc@);
            }
            return Some((acc, i + 1));
        } else if c == '\\' {
            if i + 1 == s.len() {
                proof {
                    assert(t.len() == 1);
                    assert(scan_str(t) is None);
                }
                return None;
            }
            let e = s[i + 1];
            proof {
                assert(t[1] == s@[i + 1]);
            }
            let d_opt: Option<char> = if e == '"' {
                Some('"')
            } else if e == '\\' {
                Some('\\')
            } else if e == 'n' {
                Some('\n')
            } else if e == 'r' {
                Some('\r')
            } else if e == 't' {
                Some('\t')
            } else {
                None
            };
            proof {
                assert(d_opt == unesc_char(e));
            }
            match d_opt {
                None => {
                    proof {
                        assert(scan_str(t) is None);
                    }
                    return None;
                },
                Some(d) => {
                    let ghost acc0 = acc@;
                    let ghost i0 = i as int;
                    push_char(&mut acc, d);
                    i = i + 2;
                    proof {
                        assert(t.skip(2) =~= s@.skip(i as int));
                        let inner = scan_str(s@.skip(i as int));
                        if inner is Some {
                            let p = inner.unwrap();
                            assert(scan_str(t) == Some((seq![d] + p.0, p.1 + 2)));
                            assert(acc0 + (seq![d] + p.0) =~= acc0.push(d) + p.0);
                        } else {
                            assert(scan_str(t) is None);
                        }
                    }
                },
            }
        } else {
            let ghost acc0 = acc@;
            push_char(&mut acc, c);
            i = i + 1;
            proof {
                assert(t.skip(1) =~= s@.skip(i as int));
                let inner = scan_str(s@.skip(i as int));
                if inner is Some {
                    let p = inner.unwrap();
                    assert(scan_str(t) == Some((seq![c] + p.0, p.1 + 1)));
                    assert(acc0 + (seq![c] + p.0) =~= acc0.push(c) + p.0);
                } else {
                    assert(scan_str(t) is None);
                }
            }
        }
    }
}

/// Decodes one line already split into characters.
pub(crate) fn decode_chars(s: &Vec<char>) -> (r: Option<Note>)
    ensures
        r matches Some(n) ==> decode_spec(s@) == Some(n@),
        r is None ==> decode_spec(s@) is None,
{
    let slen = s.len();
    proof {
        assert(s@.len() <= usize::MAX);
    }
    let open = lit_open_vec();
    if !match_at(s, 0, &open) {
        return None;
    }
    let (ts, j1) = match scan_chars(s, 7) {
        Some(p) => p,
        None => {
            return None;
        },
    };
    let tl = lit_title_vec();
    if !match_at(s, j1, &tl) {
        return None;
    }
    let (title, j2) = match scan_chars(s, j1 + 10) {
        Some(p) => p,
        None => {
            return None;
        },
    };
    let ct = lit_content_vec();
    if !match_at(s, j2, &ct) {
        return None;
    }
    let (content, j3) = match scan_chars(s, j2 + 12) {
        Some(p) => p,
        None => {
            return None;
        },
    };
    if j3 < s.len() && j3 + 1 == s.len() && s[j3] == '}' {
        let n = Note { ts, title, content };
        proof {
            assert(decode_spec(s@) == Some(n@));
        }
        Some(n)
    } else {
        None
    }
}

/// Decodes one line of text into a record, or `None` when the line is not a
/// well-formed encoding. Never panics, whatever the line holds.
pub fn decode_note(line: &str) -> (r: Option<Note>)
    ensures
        r matches Some(n) ==> decode_spec(line@) == Some(n@),
        r is None ==> decode_spec(line@) is None,
{
    let chars = str_to_chars(line);
    decode_chars(&chars)
}

} // verus!
