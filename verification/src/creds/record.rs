//! The on-disk cache record: a single JSON-shaped object with the two
//! credential fields, written compactly as
//! `{"username":"...","password":"..."}` with `"` and `\` escaped by a
//! backslash. Serializing and parsing are exact inverses of one another.

use crate::creds::{PairView, UsernamePasswordPair};
use crate::strutil::{push_char, str_eq};
use vstd::prelude::*;

verus! {

/// The opening of the record, up to and including the quote that starts the
/// username value.
pub open spec fn record_head() -> Seq<char> {
    "{\"username\":\""@
}

/// The text between the quote closing the username value and the quote
/// opening the password value.
pub open spec fn record_mid() -> Seq<char> {
    ",\"password\":\""@
}

/// How one character is written inside a quoted value.
pub open spec fn esc_char(c: char) -> Seq<char> {
    if c == '"' || c == '\\' {
        seq!['\\', c]
    } else {
        seq![c]
    }
}

/// How a whole value is written inside its quotes.
pub open spec fn esc(s: Seq<char>) -> Seq<char>
    decreases s.len(),
{
    if s.len() == 0 {
        Seq::empty()
    } else {
        esc_char(s[0]) + esc(s.drop_first())
    }
}

/// The full record text for a credential pair.
pub open spec fn spec_record(p: PairView) -> Seq<char> {
    record_head() + esc(p.username) + seq!['"'] + record_mid() + esc(p.password) + seq![
        '"',
        '}',
    ]
}

/// Reads one quoted value starting at `i` (just after its opening quote):
/// the value's characters, unescaped, and the position just after its
/// closing quote. `None` when the text to the end never closes the value or
/// escapes something other than `"` or `\`.
pub open spec fn parse_quoted(s: Seq<char>, i: int) -> Option<(Seq<char>, int)>
    decreases s.len() - i,
{
    if i < 0 || i >= s.len() {
        None
    } else if s[i] == '"' {
        Some((Seq::empty(), i + 1))
    } else if s[i] == '\\' {
        if i + 1 < s.len() && (s[i + 1] == '"' || s[i + 1] == '\\') {
            match parse_quoted(s, i + 2) {
                Some((t, k)) => Some((seq![s[i + 1]] + t, k)),
                None => None,
            }
        } else {
            None
        }
    } else {
        match parse_quoted(s, i + 1) {
            Some((t, k)) => Some((seq![s[i]] + t, k)),
            None => None,
        }
    }
}

/// The pair a record text stands for, if it is exactly one record.
pub open spec fn spec_parse_record(s: Seq<char>) -> Option<PairView> {
    if s.len() >= 13 && s.subrange(0, 13) == record_head() {
        match parse_quoted(s, 13) {
            Some((u, j)) => if j + 13 <= s.len() && s.subrange(j, j + 13) == record_mid() {
                match parse_quoted(s, j + 13) {
                    Some((p, k)) => if k + 1 == s.len() && s[k] == '}' {
                        Some(PairView { username: u, password: p })
                    } else {
                        None
                    },
                    None => None,
                }
            } else {
                None
            },
            None => None,
        }
    } else {
        None
    }
}

/// Escaping distributes over concatenation.
proof fn lemma_esc_append(a: Seq<char>, b: Seq<char>)
    ensures
        esc(a + b) == esc(a) + esc(b),
    decreases a.len(),
{
    if a.len() == 0 {
        assert(a + b =~= b);
        assert(esc(a) + esc(b) =~= esc(b));
    } else {
        assert((a + b).drop_first() =~= a.drop_first() + b);
        lemma_esc_append(a.drop_first(), b);
        assert((a + b)[0] == a[0]);
        assert(esc(a + b) == esc_char(a[0]) + (esc(a.drop_first()) + esc(b)));
        assert(esc_char(a[0]) + (esc(a.drop_first()) + esc(b)) =~= (esc_char(a[0]) + esc(
            a.drop_first(),
        )) + esc(b));
    }
}

/// Reading a quoted value back from its escaped form finds exactly the
/// original value, stopping at the closing quote, whatever follows it.
proof fn lemma_parse_quoted_esc(s: Seq<char>, t: Seq<char>, i: int)
    requires
        0 <= i,
        i + esc(t).len() + 1 <= s.len(),
        s.subrange(i, i + esc(t).len() as int) == esc(t),
        s[i + esc(t).len() as int] == '"',
    ensures
        parse_quoted(s, i) == Some((t, i + esc(t).len() + 1)),
    decreases t.len(),
{
    if t.len() == 0 {
        assert(esc(t).len() == 0);
        assert(s[i] == '"');
    } else {
        let c = t[0];
        let rest = t.drop_first();
        assert(esc(t) == esc_char(c) + esc(rest));
        let el = esc_char(c).len();
        assert(esc(t).len() == el + esc(rest).len());
        assert forall|m: int| 0 <= m < esc(t).len() implies s[i + m] == esc(t)[m] by {
            assert(esc(t)[m] == s.subrange(i, i + esc(t).len() as int)[m]);
        }
        assert(s.subrange(i + el, i + el + esc(rest).len() as int) =~= esc(rest)) by {
            assert forall|m: int| 0 <= m < esc(rest).len() implies s.subrange(
                i + el,
                i + el + esc(rest).len() as int,
            )[m] == esc(rest)[m] by {
                assert(s[i + el + m] == esc(t)[el + m]);
                assert(esc(t)[el + m] == esc(rest)[m]);
            }
        }
        lemma_parse_quoted_esc(s, rest, i + el);
        if c == '"' || c == '\\' {
            assert(el == 2);
            assert(s[i] == esc(t)[0] && esc(t)[0] == '\\');
            assert(s[i + 1] == esc(t)[1] && esc(t)[1] == c);
            assert(parse_quoted(s, i) == Some((seq![c] + rest, i + esc(t).len() + 1)));
            assert(seq![c] + rest =~= t);
        } else {
            assert(el == 1);
            assert(s[i] == esc(t)[0] && esc(t)[0] == c);
            assert(s[i] != '"' && s[i] != '\\');
            assert(parse_quoted(s, i) == Some((seq![c] + rest, i + esc(t).len() + 1)));
            assert(seq![c] + rest =~= t);
        }
    }
}

/// The record codec round-trips: parsing what was serialized for any pair
/// gives back exactly that pair.
pub proof fn lemma_record_roundtrip(p: PairView)
    ensures
        spec_parse_record(spec_record(p)) == Some(p),
{
    let s = spec_record(p);
    let eu = esc(p.username).len() as int;
    let ep = esc(p.password).len() as int;
    assert(record_head().len() == 13) by {
        reveal_strlit("{\"username\":\"");
    }
    assert(record_mid().len() == 13) by {
        reveal_strlit(",\"password\":\"");
    }
    assert(s.len() == 13 + eu + 1 + 13 + ep + 2);
    assert(s.subrange(0, 13) =~= record_head());
    assert(s.subrange(13, 13 + eu) =~= esc(p.username));
    assert(s[13 + eu] == '"');
    lemma_parse_quoted_esc(s, p.username, 13);
    assert(parse_quoted(s, 13) == Some((p.username, 13 + eu + 1)));
    let j = 13 + eu + 1;
    assert(s.subrange(j, j + 13) =~= record_mid());
    assert(s.subrange(j + 13, j + 13 + ep) =~= esc(p.password));
    assert(s[j + 13 + ep] == '"');
    lemma_parse_quoted_esc(s, p.password, j + 13);
    let k = j + 13 + ep + 1;
    assert(s[k] == '}');
    assert(k + 1 == s.len());
}

/// Appends the escaped form of `value` to `buf`.
fn append_escaped(buf: &mut String, value: &str)
    ensures
        final(buf)@ == old(buf)@ + esc(value@),
{
    let n = value.unicode_len();
    let mut i: usize = 0;
    proof {
        assert(value@.subrange(0, 0) =~= Seq::<char>::empty());
        assert(buf@ + esc(value@.subrange(0, 0)) =~= buf@);
    }
    while i < n
        invariant
            0 <= i <= n,
            n == value@.len(),
            buf@ == old(buf)@ + esc(value@.subrange(0, i as int)),
        decreases n - i,
    {
        let c = value.get_char(i);
        if c == '"' || c == '\\' {
            push_char(buf, '\\');
            push_char(buf, c);
        } else {
            push_char(buf, c);
        }
        proof {
            let pre = value@.subrange(0, i as int);
            let post = value@.subrange(0, i as int + 1);
            assert(post =~= pre + seq![c]);
            lemma_esc_append(pre, seq![c]);
            assert(esc(seq![c]) == esc_char(c) + esc(seq![c].drop_first()));
            assert(seq![c].drop_first() =~= Seq::<char>::empty());
            assert(esc(seq![c]) =~= esc_char(c));
            assert(buf@ =~= old(buf)@ + esc(post));
        }
        i = i + 1;
    }
    proof {
        assert(value@.subrange(0, n as int) =~= value@);
    }
}

/// Serializes a pair as its record text.
pub fn to_record(p: &UsernamePasswordPair) -> (r: String)
    ensures
        r@ == spec_record(p@),
{
    let mut buf = String::from_str("{\"username\":\"");
    append_escaped(&mut buf, self_str(&p.username));
    buf.append("\"");
    buf.append(",\"password\":\"");
    append_escaped(&mut buf, self_str(&p.password));
    buf.append("\"");
    buf.append("}");
    proof {
        reveal_strlit("\"");
        reveal_strlit("}");
        assert("\""@ =~= seq!['"']);
        assert("}"@ =~= seq!['}']);
        assert(buf@ =~= spec_record(p@));
    }
    buf
}

/// Borrows a `String` as a `&str`.
fn self_str(s: &String) -> (r: &str)
    ensures
        r@ == s@,
{
    s.as_str()
}

/// A value read out of quotes always ends past where it began and inside
/// the text.
proof fn lemma_parse_quoted_advances(s: Seq<char>, i: int)
    ensures
        match parse_quoted(s, i) {
            Some((t, k)) => i < k <= s.len(),
            None => true,
        },
    decreases s.len() - i,
{
    if i < 0 || i >= s.len() {
    } else if s[i] == '"' {
    } else if s[i] == '\\' {
        if i + 1 < s.len() && (s[i + 1] == '"' || s[i + 1] == '\\') {
            lemma_parse_quoted_advances(s, i + 2);
        }
    } else {
        lemma_parse_quoted_advances(s, i + 1);
    }
}

/// Reads one quoted value of a record, returning it with the position just
/// after its closing quote.
fn take_quoted(s: &str, start: usize) -> (r: Option<(String, usize)>)
    requires
        start <= s@.len(),
    ensures
        match r {
            Some((t, k)) => parse_quoted(s@, start as int) == Some((t@, k as int)) && start
                < k <= s@.len(),
            None => parse_quoted(s@, start as int) is None,
        },
{
    let n = s.unicode_len();
    let mut acc = String::new();
    let mut i: usize = start;
    proof {
        lemma_parse_quoted_advances(s@, start as int);
        if let Some((t, k)) = parse_quoted(s@, start as int) {
            assert(acc@ + t =~= t);
        }
    }
    while i < n
        invariant
            start <= i <= n,
            n == s@.len(),
            match parse_quoted(s@, i as int) {
                Some((t, k)) => parse_quoted(s@, start as int) == Some((acc@ + t, k)) && i
                    < k,
                None => parse_quoted(s@, start as int) is None,
            },
        decreases n - i,
    {
        let c = s.get_char(i);
        if c == '"' {
            proof {
                assert(parse_quoted(s@, i as int) == Some((Seq::<char>::empty(), i + 1)));
                assert(acc@ + Seq::<char>::empty() =~= acc@);
            }
            return Some((acc, i + 1));
        } else if c == '\\' {
            if i + 1 < n {
                let e = s.get_char(i + 1);
                if e == '"' || e == '\\' {
                    proof {
                        lemma_parse_quoted_advances(s@, i as int + 2);
                        if let Some((t, k)) = parse_quoted(s@, i as int + 2) {
                            assert(parse_quoted(s@, i as int) == Some((seq![e] + t, k)));
                            assert(acc@ + (seq![e] + t) =~= acc@.push(e) + t);
                        }
                    }
                    push_char(&mut acc, e);
                    i = i + 2;
                } else {
                    return None;
                }
            } else {
                return None;
            }
        } else {
            proof {
                lemma_parse_quoted_advances(s@, i as int + 1);
                if let Some((t, k)) = parse_quoted(s@, i as int + 1) {
                    assert(parse_quoted(s@, i as int) == Some((seq![c] + t, k)));
                    assert(acc@ + (seq![c] + t) =~= acc@.push(c) + t);
                }
            }
            push_char(&mut acc, c);
            i = i + 1;
        }
    }
    None
}

/// Parses a record text back into a pair: `None` exactly when the text is
/// not the record of any pair.
pub fn parse_record(s: &str) -> (r: Option<UsernamePasswordPair>)
    ensures
        match r {
            Some(p) => spec_parse_record(s@) == Some(p@),
            None => spec_parse_record(s@) is None,
        },
{
    let n = s.unicode_len();
    if n < 13 {
        return None;
    }
    let head = s.substring_char(0, 13);
    if !str_eq(head, "{\"username\":\"") {
        return None;
    }
    match take_quoted(s, 13) {
        None => None,
        Some((u, j)) => {
            if n - j < 13 {
                return None;
            }
            let mid = s.substring_char(j, j + 13);
            if !str_eq(mid, ",\"password\":\"") {
                return None;
            }
            match take_quoted(s, j + 13) {
                None => None,
                Some((p, k)) => {
                    if k < n && k + 1 == n && s.get_char(k) == '}' {
                        Some(UsernamePasswordPair { username: u, password: p })
                    } else {
                        None
                    }
                },
            }
        },
    }
}

} // verus!
