//! Canonical encoding of domain records.
//!
//! Every column family stores one canonical JSON text per record: a record is
//! an array of its fields in a fixed order, a field is a string (with `"` and
//! `\` escaped), a list of strings, an optional string (`null` when absent).
//! The decoder accepts exactly the canonical form; `decode(encode(r))`
//! returns `r` for every record, which the round-trip lemmas below prove.

use vstd::prelude::*;

use crate::records::{ContentMetadata, ContentMetadataV, ExecutorMetadata, ExecutorMetadataV,
    Task, TaskV};
use crate::strutil::{chars_vec, string_of_chars};

verus! {

// ---------------------------------------------------------------------------
// Strings
// ---------------------------------------------------------------------------
/// Escape one character: `"` and `\` get a backslash, all else is itself.
pub open spec fn esc_char(c: char) -> Seq<char> {
    if c == '"' {
        seq!['\\', '"']
    } else if c == '\\' {
        seq!['\\', '\\']
    } else {
        seq![c]
    }
}

/// Escape a whole sequence of characters.
pub open spec fn esc(s: Seq<char>) -> Seq<char>
    decreases s.len(),
{
    if s.len() == 0 {
        Seq::empty()
    } else {
        esc_char(s[0]) + esc(s.drop_first())
    }
}

/// Canonical encoding of a string: quote, escaped body, quote.
pub open spec fn enc_string(s: Seq<char>) -> Seq<char> {
    seq!['"'] + esc(s) + seq!['"']
}

pub proof fn lemma_esc_concat(a: Seq<char>, b: Seq<char>)
    ensures
        esc(a + b) == esc(a) + esc(b),
    decreases a.len(),
{
    if a.len() == 0 {
        assert(a + b =~= b);
        assert(esc(a) + esc(b) =~= esc(b));
    } else {
        assert((a + b).drop_first() =~= a.drop_first() + b);
        lemma_esc_concat(a.drop_first(), b);
        assert(esc_char((a + b)[0]) + (esc(a.drop_first()) + esc(b)) =~= (esc_char(a[0]) + esc(
            a.drop_first(),
        )) + esc(b));
    }
}

/// A window into a buffer restricts: if `buf` holds `whole` starting at `i`,
/// it holds every sub-window of `whole` at the shifted position.
pub proof fn lemma_subrange_shift(buf: Seq<char>, i: int, whole: Seq<char>, a: int, b: int)
    requires
        0 <= i,
        i + whole.len() <= buf.len(),
        buf.subrange(i, i + whole.len()) == whole,
        0 <= a <= b <= whole.len(),
    ensures
        buf.subrange(i + a, i + b) == whole.subrange(a, b),
{
    let sub = buf.subrange(i, i + whole.len());
    assert forall|m: int| 0 <= m < b - a implies buf.subrange(i + a, i + b)[m] == whole.subrange(
        a,
        b,
    )[m] by {
        assert(sub[a + m] == buf[i + a + m]);
    }
    assert(buf.subrange(i + a, i + b) =~= whole.subrange(a, b));
}

/// Parse the body of a string after the opening quote: characters until an
/// unescaped closing quote, undoing the escapes.  Returns the decoded body
/// and the position just past the closing quote.
pub open spec fn parse_body(s: Seq<char>, i: int) -> Option<(Seq<char>, int)>
    decreases s.len() - i,
{
    if i < 0 || i >= s.len() {
        None
    } else if s[i] == '"' {
        Some((Seq::empty(), i + 1))
    } else if s[i] == '\\' {
        if i + 1 < s.len() && (s[i + 1] == '"' || s[i + 1] == '\\') {
            match parse_body(s, i + 2) {
                Some((t, j)) => Some((seq![s[i + 1]] + t, j)),
                None => None,
            }
        } else {
            None
        }
    } else {
        match parse_body(s, i + 1) {
            Some((t, j)) => Some((seq![s[i]] + t, j)),
            None => None,
        }
    }
}

/// Parse a canonical string starting at `i` (which must hold the opening
/// quote).
pub open spec fn parse_string(s: Seq<char>, i: int) -> Option<(Seq<char>, int)> {
    if 0 <= i && i < s.len() && s[i] == '"' {
        parse_body(s, i + 1)
    } else {
        None
    }
}

/// Parsing recovers an escaped body: if the buffer from `i` on starts with
/// `esc(s)` followed by a closing quote, the body parse yields `s` exactly.
pub proof fn lemma_parse_body_at(buf: Seq<char>, i: int, s: Seq<char>)
    requires
        0 <= i,
        i + esc(s).len() + 1 <= buf.len(),
        buf.subrange(i, i + esc(s).len() + 1) == esc(s) + seq!['"'],
    ensures
        parse_body(buf, i) == Some((s, i + esc(s).len() + 1)),
    decreases s.len(),
{
    let sub = buf.subrange(i, i + esc(s).len() + 1);
    if s.len() == 0 {
        assert(buf[i] == sub[0]);
        assert(buf[i] == '"');
    } else {
        let c = s[0];
        let s1 = s.drop_first();
        assert(esc(s) == esc_char(c) + esc(s1));
        let k = esc_char(c).len() as int;
        assert(buf[i] == sub[0]);
        let whole = esc(s) + seq!['"'];
        lemma_subrange_shift(buf, i, whole, k, whole.len() as int);
        assert(whole.subrange(k, whole.len() as int) =~= esc(s1) + seq!['"']);
        lemma_parse_body_at(buf, i + k, s1);
        if c == '"' || c == '\\' {
            assert(buf[i] == '\\');
            assert(buf[i + 1] == sub[1]);
            assert(buf[i + 1] == c);
            assert(parse_body(buf, i) == Some((seq![c] + s1, i + esc(s).len() + 1)));
            assert(seq![c] + s1 =~= s);
        } else {
            assert(buf[i] == c);
            assert(parse_body(buf, i) == Some((seq![c] + s1, i + esc(s).len() + 1)));
            assert(seq![c] + s1 =~= s);
        }
    }
}

/// Parsing recovers an encoded string embedded at position `i`.
pub proof fn lemma_parse_string_at(buf: Seq<char>, i: int, s: Seq<char>)
    requires
        0 <= i,
        i + enc_string(s).len() <= buf.len(),
        buf.subrange(i, i + enc_string(s).len()) == enc_string(s),
    ensures
        parse_string(buf, i) == Some((s, i + enc_string(s).len())),
{
    let sub = buf.subrange(i, i + enc_string(s).len());
    assert(buf[i] == sub[0]);
    assert(buf[i] == '"');
    let whole = enc_string(s);
    lemma_subrange_shift(buf, i, whole, 1, whole.len() as int);
    assert(whole.subrange(1, whole.len() as int) =~= esc(s) + seq!['"']);
    lemma_parse_body_at(buf, i + 1, s);
}

/// Two encoded strings laid end to end determine their two sources: the
/// canonical string encoding is pairwise injective.
pub proof fn lemma_enc_pair_injective(a1: Seq<char>, b1: Seq<char>, a2: Seq<char>, b2: Seq<char>)
    requires
        enc_string(a1) + enc_string(b1) == enc_string(a2) + enc_string(b2),
    ensures
        a1 == a2,
        b1 == b2,
{
    let buf = enc_string(a1) + enc_string(b1);
    assert(buf.subrange(0, enc_string(a1).len() as int) =~= enc_string(a1));
    lemma_parse_string_at(buf, 0, a1);
    assert(buf.subrange(0, enc_string(a2).len() as int) =~= enc_string(a2));
    lemma_parse_string_at(buf, 0, a2);
    let l = enc_string(a1).len() as int;
    assert(l == enc_string(a2).len() as int);
    assert(buf.subrange(l, l + enc_string(b1).len()) =~= enc_string(b1));
    lemma_parse_string_at(buf, l, b1);
    assert(buf.subrange(l, l + enc_string(b2).len()) =~= enc_string(b2));
    lemma_parse_string_at(buf, l, b2);
}

/// Append the canonical encoding of `s` to `out`.
pub fn push_enc_str(s: &str, out: &mut Vec<char>)
    ensures
        final(out)@ == old(out)@ + enc_string(s@),
{
    let cs = chars_vec(s);
    out.push('"');
    let mut i: usize = 0;
    while i < cs.len()
        invariant
            0 <= i <= cs.len(),
            cs@ == s@,
            out@ == old(out)@ + seq!['"'] + esc(s@.take(i as int)),
        decreases cs.len() - i,
    {
        let c = cs[i];
        if c == '"' {
            out.push('\\');
            out.push('"');
        } else if c == '\\' {
            out.push('\\');
            out.push('\\');
        } else {
            out.push(c);
        }
        proof {
            lemma_esc_concat(s@.take(i as int), seq![s@[i as int]]);
            assert(s@.take(i as int) + seq![s@[i as int]] =~= s@.take(i + 1 as int));
            assert(seq![s@[i as int]].drop_first() =~= Seq::<char>::empty());
            assert(esc(Seq::<char>::empty()) == Seq::<char>::empty());
            assert(esc(seq![s@[i as int]]) == esc_char(s@[i as int]) + esc(
                Seq::<char>::empty(),
            ));
            assert(esc_char(s@[i as int]) + Seq::<char>::empty() =~= esc_char(s@[i as int]));
            assert(esc(seq![s@[i as int]]) =~= esc_char(s@[i as int]));
            assert(out@ =~= old(out)@ + seq!['"'] + esc(s@.take(i + 1 as int)));
        }
        i = i + 1;
    }
    out.push('"');
    proof {
        assert(s@.take(cs.len() as int) =~= s@);
        assert(out@ =~= old(out)@ + enc_string(s@));
    }
}

/// Parse a canonical string at `i`; on success returns the decoded string
/// and the position just past it.
pub fn parse_string_exec(buf: &Vec<char>, i: usize) -> (r: Option<(String, usize)>)
    ensures
        (match r {
            Some(p) => {
                &&& parse_string(buf@, i as int) == Some((p.0@, p.1 as int))
                &&& i < p.1 <= buf.len()
            },
            None => parse_string(buf@, i as int) is None,
        }),
{
    if i >= buf.len() || buf[i] != '"' {
        return None;
    }
    let mut acc: Vec<char> = Vec::new();
    let mut k: usize = i + 1;
    loop
        invariant
            i + 1 <= k <= buf.len(),
            i < buf.len() && buf@[i as int] == '"',
            parse_body(buf@, i + 1 as int) == (match parse_body(buf@, k as int) {
                Some((t, j)) => Some((acc@ + t, j)),
                None => None::<(Seq<char>, int)>,
            }),
        decreases buf.len() - k,
    {
        if k >= buf.len() {
            return None;
        }
        let c = buf[k];
        if c == '"' {
            proof {
                assert(parse_body(buf@, k as int) == Some((Seq::<char>::empty(), k + 1 as int)));
                assert(acc@ + Seq::<char>::empty() =~= acc@);
            }
            let t = string_of_chars(&acc);
            return Some((t, k + 1));
        } else if c == '\\' {
            if k + 1 >= buf.len() {
                return None;
            }
            let d = buf[k + 1];
            if d != '"' && d != '\\' {
                return None;
            }
            proof {
                let ghost rest = parse_body(buf@, k + 2 as int);
                if rest is Some {
                    let ghost (t, j) = rest->Some_0;
                    assert(parse_body(buf@, k as int) == Some((seq![buf@[k + 1 as int]] + t, j)));
                    assert(acc@ + (seq![buf@[k + 1 as int]] + t) =~= (acc@ + seq![buf@[k
                        + 1 as int]]) + t);
                }
            }
            acc.push(d);
            k = k + 2;
        } else {
            proof {
                let ghost rest = parse_body(buf@, k + 1 as int);
                if rest is Some {
                    let ghost (t, j) = rest->Some_0;
                    assert(parse_body(buf@, k as int) == Some((seq![buf@[k as int]] + t, j)));
                    assert(acc@ + (seq![buf@[k as int]] + t) =~= (acc@ + seq![buf@[k as int]])
                        + t);
                }
            }
            acc.push(c);
            k = k + 1;
        }
    }
}

// ---------------------------------------------------------------------------
// Lists of strings
// ---------------------------------------------------------------------------
/// Comma-separated encodings of the list's items (at least one item).
pub open spec fn enc_items(ss: Seq<Seq<char>>) -> Seq<char>
    decreases ss.len(),
{
    if ss.len() == 0 {
        Seq::empty()
    } else if ss.len() == 1 {
        enc_string(ss[0])
    } else {
        enc_string(ss[0]) + seq![','] + enc_items(ss.drop_first())
    }
}

/// Canonical encoding of a list of strings.
pub open spec fn enc_list(ss: Seq<Seq<char>>) -> Seq<char> {
    if ss.len() == 0 {
        seq!['[', ']']
    } else {
        seq!['['] + enc_items(ss) + seq![']']
    }
}

/// Appending one item extends the comma-separated encoding at its end.
pub proof fn lemma_enc_items_push(ss: Seq<Seq<char>>, t: Seq<char>)
    ensures
        enc_items(ss.push(t)) == if ss.len() == 0 {
            enc_string(t)
        } else {
            enc_items(ss) + seq![','] + enc_string(t)
        },
    decreases ss.len(),
{
    let p = ss.push(t);
    if ss.len() == 0 {
        assert(p.len() == 1);
        assert(p[0] == t);
    } else {
        assert(p[0] == ss[0]);
        assert(p.drop_first() =~= ss.drop_first().push(t));
        lemma_enc_items_push(ss.drop_first(), t);
        if ss.len() == 1 {
            assert(enc_items(p) == enc_string(ss[0]) + seq![','] + enc_string(t));
        } else {
            assert(enc_string(p[0]) + seq![','] + (enc_items(ss.drop_first()) + seq![',']
                + enc_string(t)) =~= (enc_string(ss[0]) + seq![','] + enc_items(ss.drop_first()))
                + seq![','] + enc_string(t));
        }
    }
}

/// Parse one or more comma-separated strings up to a closing bracket.
pub open spec fn parse_items(s: Seq<char>, i: int) -> Option<(Seq<Seq<char>>, int)>
    decreases s.len() - i,
{
    match parse_string(s, i) {
        None => None,
        Some((t, j)) => {
            if j <= i || j >= s.len() {
                None
            } else if s[j] == ']' {
                Some((seq![t], j + 1))
            } else if s[j] == ',' {
                match parse_items(s, j + 1) {
                    None => None,
                    Some((ts, k)) => Some((seq![t] + ts, k)),
                }
            } else {
                None
            }
        },
    }
}

/// Parse a canonical list of strings at `i`.
pub open spec fn parse_list(s: Seq<char>, i: int) -> Option<(Seq<Seq<char>>, int)> {
    if 0 <= i && i < s.len() && s[i] == '[' {
        if i + 1 < s.len() && s[i + 1] == ']' {
            Some((Seq::empty(), i + 2))
        } else {
            parse_items(s, i + 1)
        }
    } else {
        None
    }
}

pub proof fn lemma_parse_items_at(buf: Seq<char>, i: int, ss: Seq<Seq<char>>)
    requires
        0 <= i,
        ss.len() >= 1,
        i + enc_items(ss).len() + 1 <= buf.len(),
        buf.subrange(i, i + enc_items(ss).len() + 1) == enc_items(ss) + seq![']'],
    ensures
        parse_items(buf, i) == Some((ss, i + enc_items(ss).len() + 1)),
    decreases ss.len(),
{
    let e0 = enc_string(ss[0]);
    if ss.len() == 1 {
        assert(buf.subrange(i, i + e0.len()) =~= e0);
        lemma_parse_string_at(buf, i, ss[0]);
        let j = i + e0.len();
        assert(buf[j] == buf.subrange(i, i + enc_items(ss).len() + 1)[e0.len() as int]);
        assert(buf[j] == ']');
        assert(seq![ss[0]] =~= ss);
    } else {
        assert(enc_items(ss) == e0 + seq![','] + enc_items(ss.drop_first()));
        assert(buf.subrange(i, i + e0.len()) =~= e0);
        lemma_parse_string_at(buf, i, ss[0]);
        let j = i + e0.len();
        assert(buf[j] == buf.subrange(i, i + enc_items(ss).len() + 1)[e0.len() as int]);
        assert(buf[j] == ',');
        let whole = enc_items(ss) + seq![']'];
        lemma_subrange_shift(buf, i, whole, e0.len() as int + 1, whole.len() as int);
        assert(whole.subrange(e0.len() as int + 1, whole.len() as int) =~= enc_items(
            ss.drop_first(),
        )
            + seq![']']);
        lemma_parse_items_at(buf, j + 1, ss.drop_first());
        assert(seq![ss[0]] + ss.drop_first() =~= ss);
    }
}

/// Parsing recovers an encoded list embedded at position `i`.
pub proof fn lemma_parse_list_at(buf: Seq<char>, i: int, ss: Seq<Seq<char>>)
    requires
        0 <= i,
        i + enc_list(ss).len() <= buf.len(),
        buf.subrange(i, i + enc_list(ss).len()) == enc_list(ss),
    ensures
        parse_list(buf, i) == Some((ss, i + enc_list(ss).len())),
{
    let sub = buf.subrange(i, i + enc_list(ss).len());
    assert(buf[i] == sub[0]);
    assert(buf[i] == '[');
    if ss.len() == 0 {
        assert(buf[i + 1] == sub[1]);
        assert(buf[i + 1] == ']');
    } else {
        assert(buf[i + 1] == sub[1]);
        assert(sub[1] == enc_items(ss)[0]);
        assert(enc_items(ss)[0] == enc_string(ss[0])[0]);
        assert(buf[i + 1] == '"');
        let whole = enc_list(ss);
        lemma_subrange_shift(buf, i, whole, 1, whole.len() as int);
        assert(whole.subrange(1, whole.len() as int) =~= enc_items(ss) + seq![']']);
        lemma_parse_items_at(buf, i + 1, ss);
    }
}

/// Append the canonical encoding of a list of strings to `out`.
pub fn push_enc_list(ss: &Vec<String>, out: &mut Vec<char>)
    ensures
        final(out)@ == old(out)@ + enc_list(ss.deep_view()),
{
    out.push('[');
    if ss.len() == 0 {
        out.push(']');
        proof {
            assert(out@ =~= old(out)@ + enc_list(ss.deep_view()));
        }
        return ;
    }
    let mut i: usize = 0;
    while i < ss.len()
        invariant
            0 <= i <= ss.len(),
            ss.len() >= 1,
            out@ == old(out)@ + seq!['['] + enc_items(ss.deep_view().take(i as int)),
        decreases ss.len() - i,
    {
        if i > 0 {
            out.push(',');
            push_enc_str(ss[i].as_str(), out);
        } else {
            push_enc_str(ss[i].as_str(), out);
        }
        proof {
            lemma_enc_items_push(ss.deep_view().take(i as int), ss.deep_view()[i as int]);
            assert(ss.deep_view().take(i as int).push(ss.deep_view()[i as int])
                =~= ss.deep_view().take(i + 1 as int));
            if i > 0 {
                assert(out@ =~= old(out)@ + seq!['['] + enc_items(ss.deep_view().take(i
                    + 1 as int)));
            } else {
                assert(out@ =~= old(out)@ + seq!['['] + enc_items(ss.deep_view().take(i
                    + 1 as int)));
            }
        }
        i = i + 1;
    }
    out.push(']');
    proof {
        assert(ss.deep_view().take(ss.len() as int) =~= ss.deep_view());
        assert(out@ =~= old(out)@ + enc_list(ss.deep_view()));
    }
}

/// Parse a canonical list of strings at `i`; on success returns the decoded
/// items and the position just past the list.
pub fn parse_list_exec(buf: &Vec<char>, i: usize) -> (r: Option<(Vec<String>, usize)>)
    ensures
        (match r {
            Some(p) => {
                &&& parse_list(buf@, i as int) == Some((p.0.deep_view(), p.1 as int))
                &&& i < p.1 <= buf.len()
            },
            None => parse_list(buf@, i as int) is None,
        }),
{
    if i >= buf.len() || buf[i] != '[' {
        return None;
    }
    if i + 1 < buf.len() && buf[i + 1] == ']' {
        let empty: Vec<String> = Vec::new();
        proof {
            assert(empty.deep_view() =~= Seq::<Seq<char>>::empty());
        }
        return Some((empty, i + 2));
    }
    let mut acc: Vec<String> = Vec::new();
    let mut k: usize = i + 1;
    loop
        invariant
            i + 1 <= k <= buf.len(),
            i < buf.len() && buf@[i as int] == '[',
            !(i + 1 < buf.len() && buf@[i + 1 as int] == ']'),
            parse_items(buf@, i + 1 as int) == (match parse_items(buf@, k as int) {
                Some((ts, j)) => Some((acc.deep_view() + ts, j)),
                None => None::<(Seq<Seq<char>>, int)>,
            }),
        decreases buf.len() - k,
    {
        let parsed = parse_string_exec(buf, k);
        match parsed {
            None => {
                return None;
            },
            Some((t, j)) => {
                if j >= buf.len() {
                    return None;
                }
                let c = buf[j];
                if c == ']' {
                    proof {
                        assert(parse_items(buf@, k as int) == Some((seq![t@], j + 1 as int)));
                        assert(acc.deep_view() + seq![t@] =~= acc.deep_view().push(t@));
                    }
                    acc.push(t);
                    return Some((acc, j + 1));
                } else if c == ',' {
                    proof {
                        let ghost rest = parse_items(buf@, j + 1 as int);
                        if rest is Some {
                            let ghost (ts, m) = rest->Some_0;
                            assert(parse_items(buf@, k as int) == Some((seq![t@] + ts, m)));
                            assert(acc.deep_view() + (seq![t@] + ts) =~= acc.deep_view().push(t@)
                                + ts);
                        } else {
                            assert(parse_items(buf@, k as int) is None);
                        }
                    }
                    acc.push(t);
                    k = j + 1;
                } else {
                    return None;
                }
            },
        }
    }
}

// ---------------------------------------------------------------------------
// Optional strings
// ---------------------------------------------------------------------------
/// Canonical encoding of an optional string: `null` when absent.
pub open spec fn enc_opt(o: Option<Seq<char>>) -> Seq<char> {
    match o {
        None => seq!['n', 'u', 'l', 'l'],
        Some(s) => enc_string(s),
    }
}

/// Parse an optional string at `i`.
pub open spec fn parse_opt(s: Seq<char>, i: int) -> Option<(Option<Seq<char>>, int)> {
    if 0 <= i && i < s.len() && s[i] == 'n' {
        if i + 4 <= s.len() && s[i + 1] == 'u' && s[i + 2] == 'l' && s[i + 3] == 'l' {
            Some((None, i + 4))
        } else {
            None
        }
    } else {
        match parse_string(s, i) {
            Some((t, j)) => Some((Some(t), j)),
            None => None,
        }
    }
}

/// Parsing recovers an encoded optional string embedded at position `i`.
pub proof fn lemma_parse_opt_at(buf: Seq<char>, i: int, o: Option<Seq<char>>)
    requires
        0 <= i,
        i + enc_opt(o).len() <= buf.len(),
        buf.subrange(i, i + enc_opt(o).len()) == enc_opt(o),
    ensures
        parse_opt(buf, i) == Some((o, i + enc_opt(o).len())),
{
    let sub = buf.subrange(i, i + enc_opt(o).len());
    match o {
        None => {
            assert(buf[i] == sub[0]);
            assert(buf[i + 1] == sub[1]);
            assert(buf[i + 2] == sub[2]);
            assert(buf[i + 3] == sub[3]);
        },
        Some(s) => {
            assert(buf[i] == sub[0]);
            assert(buf[i] == '"');
            lemma_parse_string_at(buf, i, s);
        },
    }
}

/// Append the canonical encoding of an optional string to `out`.
pub fn push_enc_opt(o: &Option<String>, out: &mut Vec<char>)
    ensures
        final(out)@ == old(out)@ + enc_opt(match *o {
            Some(ref s) => Some(s@),
            None => None,
        }),
{
    match o {
        None => {
            out.push('n');
            out.push('u');
            out.push('l');
            out.push('l');
            proof {
                assert(out@ =~= old(out)@ + seq!['n', 'u', 'l', 'l']);
            }
        },
        Some(s) => {
            push_enc_str(s.as_str(), out);
        },
    }
}

/// Parse an optional string at `i` in exec code.
pub fn parse_opt_exec(buf: &Vec<char>, i: usize) -> (r: Option<(Option<String>, usize)>)
    ensures
        (match r {
            Some(p) => {
                &&& parse_opt(buf@, i as int) == Some((
                    match p.0 {
                        Some(ref s) => Some(s@),
                        None => None,
                    },
                    p.1 as int,
                ))
                &&& i < p.1 <= buf.len()
            },
            None => parse_opt(buf@, i as int) is None,
        }),
{
    if i < buf.len() && buf[i] == 'n' {
        if buf.len() >= 4 && i <= buf.len() - 4 && buf[i + 1] == 'u' && buf[i + 2] == 'l' && buf[i
            + 3] == 'l' {
            Some((None, i + 4))
        } else {
            None
        }
    } else {
        match parse_string_exec(buf, i) {
            Some((t, j)) => Some((Some(t), j)),
            None => None,
        }
    }
}

// ---------------------------------------------------------------------------
// Records
// ---------------------------------------------------------------------------
/// Canonical encoding of a task: its five fields, in order.
pub open spec fn enc_task_v(t: TaskV) -> Seq<char> {
    seq!['['] + enc_string(t.id) + seq![','] + enc_string(t.executor_id) + seq![','] + enc_string(
        t.extractor_name,
    ) + seq![','] + enc_string(t.status) + seq![','] + enc_string(t.payload_ref) + seq![']']
}

/// Decode a task from a whole canonical text (nothing may follow it).
pub open spec fn decode_task_spec(s: Seq<char>) -> Option<TaskV> {
    if !(s.len() > 0 && s[0] == '[') {
        None
    } else {
        match parse_string(s, 1) {
            None => None,
            Some((id, j1)) => {
                if !(j1 < s.len() && s[j1] == ',') {
                    None
                } else {
                    match parse_string(s, j1 + 1) {
                        None => None,
                        Some((executor_id, j2)) => {
                            if !(j2 < s.len() && s[j2] == ',') {
                                None
                            } else {
                                match parse_string(s, j2 + 1) {
                                    None => None,
                                    Some((extractor_name, j3)) => {
                                        if !(j3 < s.len() && s[j3] == ',') {
                                            None
                                        } else {
                                            match parse_string(s, j3 + 1) {
                                                None => None,
                                                Some((status, j4)) => {
                                                    if !(j4 < s.len() && s[j4] == ',') {
                                                        None
                                                    } else {
                                                        match parse_string(s, j4 + 1) {
                                                            None => None,
                                                            Some((payload_ref, j5)) => {
                                                                if j5 + 1 == s.len() && s[j5]
                                                                    == ']' {
                                                                    Some(
                                                                        TaskV {
                                                                            id,
                                                                            executor_id,
                                                                            extractor_name,
                                                                            status,
                                                                            payload_ref,
                                                                        },
                                                                    )
                                                                } else {
                                                                    None
                                                                }
                                                            },
                                                        }
                                                    }
                                                },
                                            }
                                        }
                                    },
                                }
                            }
                        },
                    }
                }
            },
        }
    }
}

pub fn encode_task(t: &Task) -> (r: String)
    ensures
        r@ == enc_task_v(t@),
{
    let mut out: Vec<char> = Vec::new();
    out.push('[');
    push_enc_str(t.id.as_str(), &mut out);
    out.push(',');
    push_enc_str(t.executor_id.as_str(), &mut out);
    out.push(',');
    push_enc_str(t.extractor_name.as_str(), &mut out);
    out.push(',');
    push_enc_str(t.status.as_str(), &mut out);
    out.push(',');
    push_enc_str(t.payload_ref.as_str(), &mut out);
    out.push(']');
    proof {
        assert(out@ =~= enc_task_v(t@));
    }
    string_of_chars(&out)
}

pub fn decode_task(s: &str) -> (r: Option<Task>)
    ensures
        (match r {
            Some(t) => decode_task_spec(s@) == Some(t@),
            None => decode_task_spec(s@) is None,
        }),
{
    let buf = chars_vec(s);
    if buf.len() == 0 || buf[0] != '[' {
        return None;
    }
    let p1 = parse_string_exec(&buf, 1);
    let (id, j1) = match p1 {
        None => { return None; },
        Some(p) => p,
    };
    if j1 >= buf.len() || buf[j1] != ',' {
        return None;
    }
    let p2 = parse_string_exec(&buf, j1 + 1);
    let (executor_id, j2) = match p2 {
        None => { return None; },
        Some(p) => p,
    };
    if j2 >= buf.len() || buf[j2] != ',' {
        return None;
    }
    let p3 = parse_string_exec(&buf, j2 + 1);
    let (extractor_name, j3) = match p3 {
        None => { return None; },
        Some(p) => p,
    };
    if j3 >= buf.len() || buf[j3] != ',' {
        return None;
    }
    let p4 = parse_string_exec(&buf, j3 + 1);
    let (status, j4) = match p4 {
        None => { return None; },
        Some(p) => p,
    };
    if j4 >= buf.len() || buf[j4] != ',' {
        return None;
    }
    let p5 = parse_string_exec(&buf, j4 + 1);
    let (payload_ref, j5) = match p5 {
        None => { return None; },
        Some(p) => p,
    };
    if j5 < buf.len() && buf[j5] == ']' && j5 + 1 == buf.len() {
        Some(Task { id, executor_id, extractor_name, status, payload_ref })
    } else {
        None
    }
}

/// Decoding undoes encoding for every task.
pub proof fn lemma_task_round_trip(t: TaskV)
    ensures
        decode_task_spec(enc_task_v(t)) == Some(t),
{
    let buf = enc_task_v(t);
    let e1 = enc_string(t.id);
    let e2 = enc_string(t.executor_id);
    let e3 = enc_string(t.extractor_name);
    let e4 = enc_string(t.status);
    let e5 = enc_string(t.payload_ref);
    assert(buf[0] == '[');
    assert(buf.subrange(1, 1 + e1.len() as int) =~= e1);
    lemma_parse_string_at(buf, 1, t.id);
    let j1 = 1 + e1.len() as int;
    assert(buf[j1] == ',');
    assert(buf.subrange(j1 + 1, j1 + 1 + e2.len()) =~= e2);
    lemma_parse_string_at(buf, j1 + 1, t.executor_id);
    let j2 = j1 + 1 + e2.len() as int;
    assert(buf[j2] == ',');
    assert(buf.subrange(j2 + 1, j2 + 1 + e3.len()) =~= e3);
    lemma_parse_string_at(buf, j2 + 1, t.extractor_name);
    let j3 = j2 + 1 + e3.len() as int;
    assert(buf[j3] == ',');
    assert(buf.subrange(j3 + 1, j3 + 1 + e4.len()) =~= e4);
    lemma_parse_string_at(buf, j3 + 1, t.status);
    let j4 = j3 + 1 + e4.len() as int;
    assert(buf[j4] == ',');
    assert(buf.subrange(j4 + 1, j4 + 1 + e5.len()) =~= e5);
    lemma_parse_string_at(buf, j4 + 1, t.payload_ref);
    let j5 = j4 + 1 + e5.len() as int;
    assert(buf[j5] == ']');
    assert(j5 + 1 == buf.len());
}

/// Canonical encoding of an executor record: id, address, labels.
pub open spec fn enc_executor_v(e: ExecutorMetadataV) -> Seq<char> {
    seq!['['] + enc_string(e.id) + seq![','] + enc_string(e.addr) + seq![','] + enc_list(e.labels)
        + seq![']']
}

/// Decode an executor record from a whole canonical text.
pub open spec fn decode_executor_spec(s: Seq<char>) -> Option<ExecutorMetadataV> {
    if !(s.len() > 0 && s[0] == '[') {
        None
    } else {
        match parse_string(s, 1) {
            None => None,
            Some((id, j1)) => {
                if !(j1 < s.len() && s[j1] == ',') {
                    None
                } else {
                    match parse_string(s, j1 + 1) {
                        None => None,
                        Some((addr, j2)) => {
                            if !(j2 < s.len() && s[j2] == ',') {
                                None
                            } else {
                                match parse_list(s, j2 + 1) {
                                    None => None,
                                    Some((labels, j3)) => {
                                        if j3 + 1 == s.len() && s[j3] == ']' {
                                            Some(ExecutorMetadataV { id, addr, labels })
                                        } else {
                                            None
                                        }
                                    },
                                }
                            }
                        },
                    }
                }
            },
        }
    }
}

pub fn encode_executor(e: &ExecutorMetadata) -> (r: String)
    ensures
        r@ == enc_executor_v(e@),
{
    let mut out: Vec<char> = Vec::new();
    out.push('[');
    push_enc_str(e.id.as_str(), &mut out);
    out.push(',');
    push_enc_str(e.addr.as_str(), &mut out);
    out.push(',');
    push_enc_list(&e.labels, &mut out);
    out.push(']');
    proof {
        assert(out@ =~= enc_executor_v(e@));
    }
    string_of_chars(&out)
}

pub fn decode_executor(s: &str) -> (r: Option<ExecutorMetadata>)
    ensures
        (match r {
            Some(e) => decode_executor_spec(s@) == Some(e@),
            None => decode_executor_spec(s@) is None,
        }),
{
    let buf = chars_vec(s);
    if buf.len() == 0 || buf[0] != '[' {
        return None;
    }
    let p1 = parse_string_exec(&buf, 1);
    let (id, j1) = match p1 {
        None => { return None; },
        Some(p) => p,
    };
    if j1 >= buf.len() || buf[j1] != ',' {
        return None;
    }
    let p2 = parse_string_exec(&buf, j1 + 1);
    let (addr, j2) = match p2 {
        None => { return None; },
        Some(p) => p,
    };
    if j2 >= buf.len() || buf[j2] != ',' {
        return None;
    }
    let p3 = parse_list_exec(&buf, j2 + 1);
    let (labels, j3) = match p3 {
        None => { return None; },
        Some(p) => p,
    };
    if j3 < buf.len() && buf[j3] == ']' && j3 + 1 == buf.len() {
        Some(ExecutorMetadata { id, addr, labels })
    } else {
        None
    }
}

/// Decoding undoes encoding for every executor record.
pub proof fn lemma_executor_round_trip(e: ExecutorMetadataV)
    ensures
        decode_executor_spec(enc_executor_v(e)) == Some(e),
{
    let buf = enc_executor_v(e);
    let e1 = enc_string(e.id);
    let e2 = enc_string(e.addr);
    let e3 = enc_list(e.labels);
    assert(buf[0] == '[');
    assert(buf.subrange(1, 1 + e1.len() as int) =~= e1);
    lemma_parse_string_at(buf, 1, e.id);
    let j1 = 1 + e1.len() as int;
    assert(buf[j1] == ',');
    assert(buf.subrange(j1 + 1, j1 + 1 + e2.len()) =~= e2);
    lemma_parse_string_at(buf, j1 + 1, e.addr);
    let j2 = j1 + 1 + e2.len() as int;
    assert(buf[j2] == ',');
    assert(buf.subrange(j2 + 1, j2 + 1 + e3.len()) =~= e3);
    lemma_parse_list_at(buf, j2 + 1, e.labels);
    let j3 = j2 + 1 + e3.len() as int;
    assert(buf[j3] == ']');
    assert(j3 + 1 == buf.len());
}

/// Canonical encoding of a content record: id, optional parent, mime type,
/// storage pointer.
pub open spec fn enc_content_v(c: ContentMetadataV) -> Seq<char> {
    seq!['['] + enc_string(c.id) + seq![','] + enc_opt(c.parent_id) + seq![','] + enc_string(
        c.content_type,
    ) + seq![','] + enc_string(c.storage_ptr) + seq![']']
}

/// Decode a content record from a whole canonical text.
pub open spec fn decode_content_spec(s: Seq<char>) -> Option<ContentMetadataV> {
    if !(s.len() > 0 && s[0] == '[') {
        None
    } else {
        match parse_string(s, 1) {
            None => None,
            Some((id, j1)) => {
                if !(j1 < s.len() && s[j1] == ',') {
                    None
                } else {
                    match parse_opt(s, j1 + 1) {
                        None => None,
                        Some((parent_id, j2)) => {
                            if !(j2 < s.len() && s[j2] == ',') {
                                None
                            } else {
                                match parse_string(s, j2 + 1) {
                                    None => None,
                                    Some((content_type, j3)) => {
                                        if !(j3 < s.len() && s[j3] == ',') {
                                            None
                                        } else {
                                            match parse_string(s, j3 + 1) {
                                                None => None,
                                                Some((storage_ptr, j4)) => {
                                                    if j4 + 1 == s.len() && s[j4] == ']' {
                                                        Some(
                                                            ContentMetadataV {
                                                                id,
                                                                parent_id,
                                                                content_type,
                                                                storage_ptr,
                                                            },
                                                        )
                                                    } else {
                                                        None
                                                    }
                                                },
                                            }
                                        }
                                    },
                                }
                            }
                        },
                    }
                }
            },
        }
    }
}

pub fn encode_content(c: &ContentMetadata) -> (r: String)
    ensures
        r@ == enc_content_v(c@),
{
    let mut out: Vec<char> = Vec::new();
    out.push('[');
    push_enc_str(c.id.as_str(), &mut out);
    out.push(',');
    push_enc_opt(&c.parent_id, &mut out);
    out.push(',');
    push_enc_str(c.content_type.as_str(), &mut out);
    out.push(',');
    push_enc_str(c.storage_ptr.as_str(), &mut out);
    out.push(']');
    proof {
        assert(out@ =~= enc_content_v(c@));
    }
    string_of_chars(&out)
}

pub fn decode_content(s: &str) -> (r: Option<ContentMetadata>)
    ensures
        (match r {
            Some(c) => decode_content_spec(s@) == Some(c@),
            None => decode_content_spec(s@) is None,
        }),
{
    let buf = chars_vec(s);
    if buf.len() == 0 || buf[0] != '[' {
        return None;
    }
    let p1 = parse_string_exec(&buf, 1);
    let (id, j1) = match p1 {
        None => { return None; },
        Some(p) => p,
    };
    if j1 >= buf.len() || buf[j1] != ',' {
        return None;
    }
    let p2 = parse_opt_exec(&buf, j1 + 1);
    let (parent_id, j2) = match p2 {
        None => { return None; },
        Some(p) => p,
    };
    if j2 >= buf.len() || buf[j2] != ',' {
        return None;
    }
    let p3 = parse_string_exec(&buf, j2 + 1);
    let (content_type, j3) = match p3 {
        None => { return None; },
        Some(p) => p,
    };
    if j3 >= buf.len() || buf[j3] != ',' {
        return None;
    }
    let p4 = parse_string_exec(&buf, j3 + 1);
    let (storage_ptr, j4) = match p4 {
        None => { return None; },
        Some(p) => p,
    };
    if j4 < buf.len() && buf[j4] == ']' && j4 + 1 == buf.len() {
        Some(ContentMetadata { id, parent_id, content_type, storage_ptr })
    } else {
        None
    }
}

/// Decoding undoes encoding for every content record.
pub proof fn lemma_content_round_trip(c: ContentMetadataV)
    ensures
        decode_content_spec(enc_content_v(c)) == Some(c),
{
    let buf = enc_content_v(c);
    let e1 = enc_string(c.id);
    let e2 = enc_opt(c.parent_id);
    let e3 = enc_string(c.content_type);
    let e4 = enc_string(c.storage_ptr);
    assert(buf[0] == '[');
    assert(buf.subrange(1, 1 + e1.len() as int) =~= e1);
    lemma_parse_string_at(buf, 1, c.id);
    let j1 = 1 + e1.len() as int;
    assert(buf[j1] == ',');
    assert(buf.subrange(j1 + 1, j1 + 1 + e2.len()) =~= e2);
    lemma_parse_opt_at(buf, j1 + 1, c.parent_id);
    let j2 = j1 + 1 + e2.len() as int;
    assert(buf[j2] == ',');
    assert(buf.subrange(j2 + 1, j2 + 1 + e3.len()) =~= e3);
    lemma_parse_string_at(buf, j2 + 1, c.content_type);
    let j3 = j2 + 1 + e3.len() as int;
    assert(buf[j3] == ',');
    assert(buf.subrange(j3 + 1, j3 + 1 + e4.len()) =~= e4);
    lemma_parse_string_at(buf, j3 + 1, c.storage_ptr);
    let j4 = j3 + 1 + e4.len() as int;
    assert(buf[j4] == ']');
    assert(j4 + 1 == buf.len());
}

// ---------------------------------------------------------------------------
// Task-assignment id lists
// ---------------------------------------------------------------------------
/// Decode an ordered task-id list from a whole canonical text.
pub open spec fn decode_id_list_spec(s: Seq<char>) -> Option<Seq<Seq<char>>> {
    match parse_list(s, 0) {
        None => None,
        Some((ids, j)) => {
            if j == s.len() {
                Some(ids)
            } else {
                None
            }
        },
    }
}

pub fn encode_id_list(ids: &Vec<String>) -> (r: String)
    ensures
        r@ == enc_list(ids.deep_view()),
{
    let mut out: Vec<char> = Vec::new();
    push_enc_list(ids, &mut out);
    string_of_chars(&out)
}

pub fn decode_id_list(s: &str) -> (r: Option<Vec<String>>)
    ensures
        (match r {
            Some(ids) => decode_id_list_spec(s@) == Some(ids.deep_view()),
            None => decode_id_list_spec(s@) is None,
        }),
{
    let buf = chars_vec(s);
    let p = parse_list_exec(&buf, 0);
    match p {
        None => None,
        Some((ids, j)) => {
            if j == buf.len() {
                Some(ids)
            } else {
                None
            }
        },
    }
}

/// Decoding undoes encoding for every id list.
pub proof fn lemma_id_list_round_trip(ss: Seq<Seq<char>>)
    ensures
        decode_id_list_spec(enc_list(ss)) == Some(ss),
{
    let buf = enc_list(ss);
    assert(buf.subrange(0, buf.len() as int) =~= buf);
    lemma_parse_list_at(buf, 0, ss);
}

} // verus!
