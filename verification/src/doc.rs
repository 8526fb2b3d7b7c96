//! The credential-helper protocol document: a sparse record of optional
//! fields exchanged as `key=value` lines. It is built once by parsing line
//! input; updates produce new documents; serialization emits one line per
//! set field in a fixed order.

use crate::creds::{PairView, UsernamePasswordPair};
use crate::strutil::str_eq;
use vstd::prelude::*;

verus! {

/// A parse failure: a line with no `=` at all (the whole line is reported),
/// or a line whose key is not one of the recognized field names (the key is
/// reported). Both abort the whole read.
#[derive(Debug)]
pub enum ReadError {
    DelimeterMissing(String),
    KeyInvalid(String),
}

/// The mathematical content of a parse failure.
pub ghost enum ReadErrView {
    DelimeterMissing(Seq<char>),
    KeyInvalid(Seq<char>),
}

impl View for ReadError {
    type V = ReadErrView;

    open spec fn view(&self) -> ReadErrView {
        match *self {
            ReadError::DelimeterMissing(ref s) => ReadErrView::DelimeterMissing(s@),
            ReadError::KeyInvalid(ref s) => ReadErrView::KeyInvalid(s@),
        }
    }
}

/// A failure while emitting the serialized document, as the edge that owns
/// the output stream reports it: writing and flushing are distinguished.
pub enum WriteError {
    WriteFailed { cause: String },
    FlushFailed { cause: String },
}

/// The mathematical content of a document: each field either absent or a
/// character string (`quit` a boolean).
pub ghost struct DocView {
    pub protocol: Option<Seq<char>>,
    pub host: Option<Seq<char>>,
    pub path: Option<Seq<char>>,
    pub username: Option<Seq<char>>,
    pub password: Option<Seq<char>>,
    pub url: Option<Seq<char>>,
    pub quit: Option<bool>,
}

/// The document with every field absent: what parsing starts from.
pub open spec fn empty_doc() -> DocView {
    DocView {
        protocol: None,
        host: None,
        path: None,
        username: None,
        password: None,
        url: None,
        quit: None,
    }
}

/// A credential-helper protocol document.
pub struct Doc {
    protocol: Option<String>,
    host: Option<String>,
    path: Option<String>,
    username: Option<String>,
    password: Option<String>,
    url: Option<String>,
    quit: Option<bool>,
}

pub open spec fn opt_view(o: Option<String>) -> Option<Seq<char>> {
    match o {
        Some(s) => Some(s@),
        None => None,
    }
}

impl View for Doc {
    type V = DocView;

    closed spec fn view(&self) -> DocView {
        DocView {
            protocol: opt_view(self.protocol),
            host: opt_view(self.host),
            path: opt_view(self.path),
            username: opt_view(self.username),
            password: opt_view(self.password),
            url: opt_view(self.url),
            quit: self.quit,
        }
    }
}

// ---------------------------------------------------------------------------
// Character-level helpers
// ---------------------------------------------------------------------------

/// The whitespace stripped from both ends of an input line.
pub open spec fn is_ws(c: char) -> bool {
    c == ' ' || c == '\t' || c == '\r' || c == '\n'
}

pub open spec fn spec_trim_back(s: Seq<char>) -> Seq<char>
    decreases s.len(),
{
    if s.len() > 0 && is_ws(s.last()) {
        spec_trim_back(s.drop_last())
    } else {
        s
    }
}

pub open spec fn spec_trim_front(s: Seq<char>) -> Seq<char>
    decreases s.len(),
{
    if s.len() > 0 && is_ws(s[0]) {
        spec_trim_front(s.drop_first())
    } else {
        s
    }
}

/// A line with leading and trailing whitespace removed.
pub open spec fn spec_trim(s: Seq<char>) -> Seq<char> {
    spec_trim_front(spec_trim_back(s))
}

/// The position of the first occurrence of `c` in `s`.
pub open spec fn find_char(s: Seq<char>, c: char) -> Option<int>
    decreases s.len(),
{
    if s.len() == 0 {
        None
    } else if s[0] == c {
        Some(0)
    } else {
        match find_char(s.drop_first(), c) {
            Some(i) => Some(i + 1),
            None => None,
        }
    }
}

pub proof fn lemma_find_char_props(s: Seq<char>, c: char)
    ensures
        match find_char(s, c) {
            Some(i) => 0 <= i < s.len() && s[i] == c && forall|j: int| 0 <= j < i ==> s[j] != c,
            None => forall|j: int| 0 <= j < s.len() ==> s[j] != c,
        },
    decreases s.len(),
{
    if s.len() > 0 && s[0] != c {
        let rest = s.drop_first();
        lemma_find_char_props(rest, c);
        match find_char(s, c) {
            Some(i) => {
                assert(find_char(rest, c) == Some(i - 1));
                assert(s[i] == rest[i - 1]);
                assert forall|j: int| 0 <= j < i implies s[j] != c by {
                    if j > 0 {
                        assert(s[j] == rest[j - 1]);
                    }
                }
            },
            None => {
                assert forall|j: int| 0 <= j < s.len() implies s[j] != c by {
                    if j > 0 {
                        assert(s[j] == rest[j - 1]);
                    }
                }
            },
        }
    }
}

pub proof fn lemma_find_char_at(s: Seq<char>, c: char, i: int)
    requires
        0 <= i < s.len(),
        s[i] == c,
        forall|j: int| 0 <= j < i ==> s[j] != c,
    ensures
        find_char(s, c) == Some(i),
    decreases s.len(),
{
    if i > 0 {
        let rest = s.drop_first();
        assert forall|j: int| 0 <= j < i - 1 implies rest[j] != c by {
            assert(rest[j] == s[j + 1]);
        }
        assert(rest[i - 1] == s[i]);
        lemma_find_char_at(rest, c, i - 1);
    }
}

pub proof fn lemma_find_char_none(s: Seq<char>, c: char)
    requires
        forall|j: int| 0 <= j < s.len() ==> s[j] != c,
    ensures
        find_char(s, c) is None,
    decreases s.len(),
{
    if s.len() > 0 {
        let rest = s.drop_first();
        assert forall|j: int| 0 <= j < rest.len() implies rest[j] != c by {
            assert(rest[j] == s[j + 1]);
        }
        lemma_find_char_none(rest, c);
    }
}

/// The position of the first occurrence of the scheme separator `://`.
pub open spec fn find_sep(s: Seq<char>) -> Option<int>
    decreases s.len(),
{
    if s.len() < 3 {
        None
    } else if s[0] == ':' && s[1] == '/' && s[2] == '/' {
        Some(0)
    } else {
        match find_sep(s.drop_first()) {
            Some(i) => Some(i + 1),
            None => None,
        }
    }
}

pub open spec fn sep_at(s: Seq<char>, i: int) -> bool {
    0 <= i && i + 3 <= s.len() && s[i] == ':' && s[i + 1] == '/' && s[i + 2] == '/'
}

pub proof fn lemma_find_sep_props(s: Seq<char>)
    ensures
        match find_sep(s) {
            Some(i) => sep_at(s, i) && forall|j: int| 0 <= j < i ==> !sep_at(s, j),
            None => forall|j: int| !sep_at(s, j),
        },
    decreases s.len(),
{
    if s.len() >= 3 && !(s[0] == ':' && s[1] == '/' && s[2] == '/') {
        let rest = s.drop_first();
        lemma_find_sep_props(rest);
        match find_sep(s) {
            Some(i) => {
                assert(find_sep(rest) == Some(i - 1));
                assert(sep_at(rest, i - 1));
                assert(sep_at(s, i)) by {
                    assert(rest[i - 1] == s[i]);
                    assert(rest[i] == s[i + 1]);
                    assert(rest[i + 1] == s[i + 2]);
                }
                assert forall|j: int| 0 <= j < i implies !sep_at(s, j) by {
                    if j == 0 {
                        assert(!sep_at(s, 0));
                    } else {
                        assert(!sep_at(rest, j - 1));
                        if sep_at(s, j) {
                            assert(rest[j - 1] == s[j]);
                            assert(rest[j] == s[j + 1]);
                            assert(rest[j + 1] == s[j + 2]);
                            assert(sep_at(rest, j - 1));
                        }
                    }
                }
            },
            None => {
                assert forall|j: int| !sep_at(s, j) by {
                    if j == 0 {
                        assert(!sep_at(s, 0));
                    } else if j >= 1 {
                        assert(!sep_at(rest, j - 1));
                        if sep_at(s, j) {
                            assert(rest[j - 1] == s[j]);
                            assert(rest[j] == s[j + 1]);
                            assert(rest[j + 1] == s[j + 2]);
                            assert(sep_at(rest, j - 1));
                        }
                    }
                }
            },
        }
    } else if s.len() < 3 {
        assert(forall|j: int| !sep_at(s, j));
    }
}

pub proof fn lemma_find_sep_at(s: Seq<char>, i: int)
    requires
        sep_at(s, i),
        forall|j: int| 0 <= j < i ==> !sep_at(s, j),
    ensures
        find_sep(s) == Some(i),
{
    lemma_find_sep_props(s);
    match find_sep(s) {
        Some(k) => {
            if k < i {
                assert(!sep_at(s, k));
            } else if i < k {
                assert(!sep_at(s, i));
            }
        },
        None => {
            assert(!sep_at(s, i));
        },
    }
}

// ---------------------------------------------------------------------------
// Parsing, specified
// ---------------------------------------------------------------------------

pub open spec fn key_protocol() -> Seq<char> {
    "protocol"@
}

pub open spec fn key_host() -> Seq<char> {
    "host"@
}

pub open spec fn key_path() -> Seq<char> {
    "path"@
}

pub open spec fn key_username() -> Seq<char> {
    "username"@
}

pub open spec fn key_password() -> Seq<char> {
    "password"@
}

pub open spec fn key_url() -> Seq<char> {
    "url"@
}

/// A split line's key and value applied to a document: the value is stored
/// under the recognized key; an unrecognized key is a fatal parse error.
pub open spec fn apply_key(d: DocView, k: Seq<char>, v: Seq<char>) -> Result<
    DocView,
    ReadErrView,
> {
    if k == key_protocol() {
        Ok(DocView { protocol: Some(v), ..d })
    } else if k == key_host() {
        Ok(DocView { host: Some(v), ..d })
    } else if k == key_path() {
        Ok(DocView { path: Some(v), ..d })
    } else if k == key_username() {
        Ok(DocView { username: Some(v), ..d })
    } else if k == key_password() {
        Ok(DocView { password: Some(v), ..d })
    } else if k == key_url() {
        Ok(DocView { url: Some(v), ..d })
    } else {
        Err(ReadErrView::KeyInvalid(k))
    }
}

/// One input line applied to a document: the line is trimmed, split at its
/// first `=`, and the value stored under the recognized key. A line with no
/// `=` or an unrecognized key is a fatal parse error.
pub open spec fn spec_parse_line(d: DocView, raw: Seq<char>) -> Result<DocView, ReadErrView> {
    let t = spec_trim(raw);
    match find_char(t, '=') {
        None => Err(ReadErrView::DelimeterMissing(raw)),
        Some(i) => apply_key(d, t.subrange(0, i), t.subrange(i + 1, t.len() as int)),
    }
}

/// A whole input applied line by line, aborting on the first bad line.
pub open spec fn spec_parse_lines(d: DocView, lines: Seq<Seq<char>>) -> Result<
    DocView,
    ReadErrView,
>
    decreases lines.len(),
{
    if lines.len() == 0 {
        Ok(d)
    } else {
        match spec_parse_line(d, lines[0]) {
            Ok(d2) => spec_parse_lines(d2, lines.drop_first()),
            Err(e) => Err(e),
        }
    }
}

/// The document an input parses to, starting from the empty document.
pub open spec fn spec_parse(lines: Seq<Seq<char>>) -> Result<DocView, ReadErrView> {
    spec_parse_lines(empty_doc(), lines)
}

// ---------------------------------------------------------------------------
// Queries and functional updates, specified
// ---------------------------------------------------------------------------

/// The effective `(protocol, host)` pair: derived from `url` when that field
/// is present (split once on `://`), else taken from the two separate
/// fields, both of which must then be present.
pub open spec fn spec_effective_pair(d: DocView) -> Option<(Seq<char>, Seq<char>)> {
    match d.url {
        Some(u) => match find_sep(u) {
            Some(i) => Some((u.subrange(0, i), u.subrange(i + 3, u.len() as int))),
            None => None,
        },
        None => match (d.protocol, d.host) {
            (Some(p), Some(h)) => Some((p, h)),
            _ => None,
        },
    }
}

pub open spec fn spec_matches_url(d: DocView, protocol: Seq<char>, host: Seq<char>) -> bool {
    spec_effective_pair(d) == Some((protocol, host))
}

/// The credentials carried by the document, present only when both fields
/// are set.
pub open spec fn spec_creds(d: DocView) -> Option<PairView> {
    match (d.username, d.password) {
        (Some(u), Some(p)) => Some(PairView { username: u, password: p }),
        _ => None,
    }
}

/// Whether the document carries exactly the given credentials.
pub open spec fn spec_matches_creds(d: DocView, c: PairView) -> bool {
    spec_creds(d) == Some(c)
}

pub open spec fn spec_with_creds(d: DocView, c: PairView) -> DocView {
    DocView { username: Some(c.username), password: Some(c.password), ..d }
}

pub open spec fn spec_with_quit(d: DocView, quit: bool) -> DocView {
    DocView { quit: Some(quit), ..d }
}

// ---------------------------------------------------------------------------
// Serialization, specified
// ---------------------------------------------------------------------------

pub open spec fn spec_field_line(k: Seq<char>, v: Seq<char>) -> Seq<char> {
    k + seq!['='] + v + seq!['\n']
}

pub open spec fn spec_opt_line(k: Seq<char>, ov: Option<Seq<char>>) -> Seq<char> {
    match ov {
        Some(v) => spec_field_line(k, v),
        None => Seq::empty(),
    }
}

pub open spec fn spec_quit_value(q: bool) -> Seq<char> {
    if q {
        "true"@
    } else {
        "false"@
    }
}

pub open spec fn spec_quit_line(oq: Option<bool>) -> Seq<char> {
    match oq {
        Some(q) => spec_field_line("quit"@, spec_quit_value(q)),
        None => Seq::empty(),
    }
}

/// The serialized document: one `key=value` line per set field, in the fixed
/// order protocol, host, path, username, password, url, quit; unset fields
/// are omitted entirely.
pub open spec fn spec_serialize(d: DocView) -> Seq<char> {
    spec_opt_line(key_protocol(), d.protocol) + spec_opt_line(key_host(), d.host) + spec_opt_line(
        key_path(),
        d.path,
    ) + spec_opt_line(key_username(), d.username) + spec_opt_line(key_password(), d.password)
        + spec_opt_line(key_url(), d.url) + spec_quit_line(d.quit)
}

// ---------------------------------------------------------------------------
// Executable code
// ---------------------------------------------------------------------------

fn is_ws_char(c: char) -> (r: bool)
    ensures
        r == is_ws(c),
{
    c == ' ' || c == '\t' || c == '\r' || c == '\n'
}

/// Strips leading and trailing whitespace.
fn trim_str(s: &str) -> (t: &str)
    ensures
        t@ == spec_trim(s@),
{
    let n = s.unicode_len();
    let mut e: usize = n;
    proof {
        assert(s@.subrange(0, n as int) =~= s@);
    }
    while e > 0 && is_ws_char(s.get_char(e - 1))
        invariant
            0 <= e <= n,
            n == s@.len(),
            spec_trim_back(s@) == spec_trim_back(s@.subrange(0, e as int)),
        decreases e,
    {
        proof {
            let cur = s@.subrange(0, e as int);
            assert(cur.last() == s@[e - 1]);
            assert(cur.drop_last() =~= s@.subrange(0, e as int - 1));
        }
        e = e - 1;
    }
    proof {
        let cur = s@.subrange(0, e as int);
        if e > 0 {
            assert(cur.last() == s@[e - 1]);
        }
        assert(spec_trim_back(cur) == cur);
    }
    let mut a: usize = 0;
    proof {
        assert(s@.subrange(0, e as int).subrange(0, e as int) =~= s@.subrange(0, e as int));
    }
    while a < e && is_ws_char(s.get_char(a))
        invariant
            0 <= a <= e <= n,
            n == s@.len(),
            spec_trim_back(s@) == s@.subrange(0, e as int),
            spec_trim_front(s@.subrange(0, e as int)) == spec_trim_front(
                s@.subrange(a as int, e as int),
            ),
        decreases e - a,
    {
        proof {
            let cur = s@.subrange(a as int, e as int);
            assert(cur[0] == s@[a as int]);
            assert(cur.drop_first() =~= s@.subrange(a as int + 1, e as int));
        }
        a = a + 1;
    }
    proof {
        let cur = s@.subrange(a as int, e as int);
        if a < e {
            assert(cur[0] == s@[a as int]);
        }
        assert(spec_trim_front(cur) == cur);
    }
    s.substring_char(a, e)
}

/// The first position of `c` in `t`, as the parser splits on it.
fn find_char_in(t: &str, c: char) -> (r: Option<usize>)
    ensures
        match r {
            Some(i) => find_char(t@, c) == Some(i as int),
            None => find_char(t@, c) is None,
        },
{
    let n = t.unicode_len();
    let mut i: usize = 0;
    while i < n
        invariant
            0 <= i <= n,
            n == t@.len(),
            forall|j: int| 0 <= j < i ==> t@[j] != c,
        decreases n - i,
    {
        if t.get_char(i) == c {
            proof {
                lemma_find_char_at(t@, c, i as int);
            }
            return Some(i);
        }
        i = i + 1;
    }
    proof {
        lemma_find_char_none(t@, c);
    }
    None
}

/// The first position of the scheme separator `://` in `u`.
fn find_sep_in(u: &str) -> (r: Option<usize>)
    ensures
        match r {
            Some(i) => find_sep(u@) == Some(i as int),
            None => find_sep(u@) is None,
        },
{
    let n = u.unicode_len();
    if n < 3 {
        proof {
            lemma_find_sep_props(u@);
            if let Some(i) = find_sep(u@) {
                assert(sep_at(u@, i));
            }
        }
        return None;
    }
    let mut i: usize = 0;
    while i < n - 2
        invariant
            3 <= n,
            0 <= i <= n,
            n == u@.len(),
            forall|j: int| 0 <= j < i ==> !sep_at(u@, j),
        decreases n - i,
    {
        if u.get_char(i) == ':' && u.get_char(i + 1) == '/' && u.get_char(i + 2) == '/' {
            proof {
                lemma_find_sep_at(u@, i as int);
            }
            return Some(i);
        }
        proof {
            assert(!sep_at(u@, i as int));
        }
        i = i + 1;
    }
    proof {
        assert(forall|j: int| !sep_at(u@, j));
        lemma_find_sep_props(u@);
        if let Some(k) = find_sep(u@) {
            assert(sep_at(u@, k));
        }
    }
    None
}

impl Doc {
    /// The document with no field set.
    pub fn new() -> (r: Self)
        ensures
            r@ == empty_doc(),
    {
        Doc {
            protocol: None,
            host: None,
            path: None,
            username: None,
            password: None,
            url: None,
            quit: None,
        }
    }

    /// Applies one input line to the document; on error the document is
    /// unchanged and the whole read aborts.
    fn parse_line(&mut self, line: &str) -> (r: Result<(), ReadError>)
        ensures
            match spec_parse_line(old(self)@, line@) {
                Ok(dv) => r is Ok && final(self)@ == dv,
                Err(ev) => r matches Err(e) && e@ == ev && final(self)@ == old(self)@,
            },
    {
        let t = trim_str(line);
        match find_char_in(t, '=') {
            None => Err(ReadError::DelimeterMissing(line.to_owned())),
            Some(i) => {
                let n = t.unicode_len();
                proof {
                    lemma_find_char_props(t@, '=');
                }
                let key = t.substring_char(0, i);
                let value = t.substring_char(i + 1, n).to_owned();
                if str_eq(key, "protocol") {
                    self.protocol = Some(value);
                    Ok(())
                } else if str_eq(key, "host") {
                    self.host = Some(value);
                    Ok(())
                } else if str_eq(key, "path") {
                    self.path = Some(value);
                    Ok(())
                } else if str_eq(key, "username") {
                    self.username = Some(value);
                    Ok(())
                } else if str_eq(key, "password") {
                    self.password = Some(value);
                    Ok(())
                } else if str_eq(key, "url") {
                    self.url = Some(value);
                    Ok(())
                } else {
                    Err(ReadError::KeyInvalid(key.to_owned()))
                }
            },
        }
    }

    /// Parses a whole input, given as its lines, into a document. Every line
    /// must be a recognized `key=value` line; the first offending line
    /// aborts the read with its error.
    pub fn read(lines: &Vec<String>) -> (r: Result<Doc, ReadError>)
        ensures
            match spec_parse(lines@.map_values(|l: String| l@)) {
                Ok(dv) => r matches Ok(d) && d@ == dv,
                Err(ev) => r matches Err(e) && e@ == ev,
            },
    {
        let ghost all = lines@.map_values(|l: String| l@);
        let mut doc = Doc::new();
        let mut i: usize = 0;
        proof {
            assert(all.subrange(0, all.len() as int) =~= all);
        }
        while i < lines.len()
            invariant
                0 <= i <= lines.len(),
                all == lines@.map_values(|l: String| l@),
                all.len() == lines@.len(),
                spec_parse(all) == spec_parse_lines(doc@, all.subrange(i as int, all.len() as int)),
            decreases lines.len() - i,
        {
            let ghost rest = all.subrange(i as int, all.len() as int);
            proof {
                assert(rest[0] == all[i as int]);
                assert(all[i as int] == lines@[i as int]@);
                assert(rest.drop_first() =~= all.subrange(i as int + 1, all.len() as int));
            }
            match doc.parse_line(lines[i].as_str()) {
                Ok(()) => {},
                Err(e) => {
                    return Err(e);
                },
            }
            i = i + 1;
        }
        proof {
            assert(all.subrange(i as int, all.len() as int) =~= Seq::<Seq<char>>::empty());
        }
        Ok(doc)
    }

    /// The effective `(protocol, host)` pair, when one can be derived.
    pub fn protocol_host_pair(&self) -> (r: Option<(String, String)>)
        ensures
            match r {
                Some(pair) => spec_effective_pair(self@) == Some((pair.0@, pair.1@)),
                None => spec_effective_pair(self@) is None,
            },
    {
        match &self.url {
            Some(u) => {
                let n = u.as_str().unicode_len();
                match find_sep_in(u.as_str()) {
                    Some(i) => {
                        proof {
                            lemma_find_sep_props(u@);
                        }
                        let p = u.as_str().substring_char(0, i).to_owned();
                        let h = u.as_str().substring_char(i + 3, n).to_owned();
                        Some((p, h))
                    },
                    None => None,
                }
            },
            None => match (&self.protocol, &self.host) {
                (Some(p), Some(h)) => Some((p.clone(), h.clone())),
                _ => None,
            },
        }
    }

    /// Whether the document's effective pair equals the given one exactly.
    pub fn matches_url(&self, protocol: &str, host: &str) -> (r: bool)
        ensures
            r == spec_matches_url(self@, protocol@, host@),
    {
        match self.protocol_host_pair() {
            Some(pair) => {
                let r = str_eq(pair.0.as_str(), protocol) && str_eq(pair.1.as_str(), host);
                proof {
                    if pair.0@ == protocol@ && pair.1@ == host@ {
                        assert(spec_effective_pair(self@) == Some((protocol@, host@)));
                    }
                }
                r
            },
            None => false,
        }
    }

    /// The username/password pair, when both fields are set.
    pub fn username_password_pair(&self) -> (r: Option<(String, String)>)
        ensures
            match r {
                Some(pair) => self@.username == Some(pair.0@) && self@.password == Some(pair.1@),
                None => self@.username is None || self@.password is None,
            },
    {
        match (&self.username, &self.password) {
            (Some(u), Some(p)) => Some((u.clone(), p.clone())),
            _ => None,
        }
    }

    /// The credentials the document carries, when both fields are set.
    pub fn creds(&self) -> (r: Option<UsernamePasswordPair>)
        ensures
            match r {
                Some(c) => spec_creds(self@) == Some(c@),
                None => spec_creds(self@) is None,
            },
    {
        match self.username_password_pair() {
            Some(pair) => Some(UsernamePasswordPair { username: pair.0, password: pair.1 }),
            None => None,
        }
    }

    /// Whether the document carries exactly the given credentials: both
    /// fields set and character-for-character equal, nothing normalized.
    pub fn matches_creds(&self, creds: &UsernamePasswordPair) -> (r: bool)
        ensures
            r == spec_matches_creds(self@, creds@),
    {
        match (&self.username, &self.password) {
            (Some(u), Some(p)) => {
                let r = *u == creds.username && *p == creds.password;
                proof {
                    if u@ == creds@.username && p@ == creds@.password {
                        assert(spec_creds(self@) == Some(creds@));
                    }
                }
                r
            },
            _ => false,
        }
    }

    /// A new document with the given credentials set; all else kept.
    pub fn with_creds(self, creds: UsernamePasswordPair) -> (r: Self)
        ensures
            r@ == spec_with_creds(self@, creds@),
    {
        Doc { username: Some(creds.username), password: Some(creds.password), ..self }
    }

    /// A new document with the quit flag set; all else kept.
    pub fn with_quit(self, quit: bool) -> (r: Self)
        ensures
            r@ == spec_with_quit(self@, quit),
    {
        Doc { quit: Some(quit), ..self }
    }

    /// The serialized document text.
    #[verifier::rlimit(100)]
    pub fn to_string(&self) -> (r: String)
        ensures
            r@ == spec_serialize(self@),
    {
        proof {
            reveal_strlit("=");
            reveal_strlit("\n");
            assert("="@ =~= seq!['=']);
            assert("\n"@ =~= seq!['\n']);
        }
        let mut buf = String::new();
        append_opt_line(&mut buf, "protocol", &self.protocol);
        append_opt_line(&mut buf, "host", &self.host);
        append_opt_line(&mut buf, "path", &self.path);
        append_opt_line(&mut buf, "username", &self.username);
        append_opt_line(&mut buf, "password", &self.password);
        append_opt_line(&mut buf, "url", &self.url);
        match &self.quit {
            Some(q) => {
                buf.append("quit");
                buf.append("=");
                if *q {
                    buf.append("true");
                } else {
                    buf.append("false");
                }
                buf.append("\n");
            },
            None => {},
        }
        proof {
            assert(buf@ =~= spec_serialize(self@));
        }
        buf
    }
}

/// A document built from a `url` of the form `p://h` passes exactly the
/// host checks that one built from `protocol=p` and `host=h` passes: both
/// match `(p, h)`. The scheme part must itself contain no `/`.
pub proof fn lemma_url_form_equivalence(d1: DocView, d2: DocView, p: Seq<char>, h: Seq<char>)
    requires
        forall|j: int| 0 <= j < p.len() ==> p[j] != '/',
        d1.url == Some(p + "://"@ + h),
        d2.url is None,
        d2.protocol == Some(p),
        d2.host == Some(h),
    ensures
        spec_matches_url(d1, p, h),
        spec_matches_url(d2, p, h),
{
    reveal_strlit("://");
    let u = p + "://"@ + h;
    let n = p.len() as int;
    assert("://"@.len() == 3);
    assert(sep_at(u, n)) by {
        assert(u[n] == "://"@[0]);
        assert(u[n + 1] == "://"@[1]);
        assert(u[n + 2] == "://"@[2]);
    }
    assert forall|j: int| 0 <= j < n implies !sep_at(u, j) by {
        if sep_at(u, j) {
            if j + 1 < n {
                assert(u[j + 1] == p[j + 1]);
            } else {
                assert(u[j + 1] == "://"@[0]);
            }
        }
    }
    lemma_find_sep_at(u, n);
    assert(u.subrange(0, n) =~= p);
    assert(u.subrange(n + 3, u.len() as int) =~= h);
}

/// When `url` is present, the separate `protocol` and `host` fields play no
/// part in host matching: `url` wins.
pub proof fn lemma_url_precedence(d1: DocView, d2: DocView, p: Seq<char>, h: Seq<char>)
    requires
        d1.url == d2.url,
        d1.url is Some,
    ensures
        spec_matches_url(d1, p, h) == spec_matches_url(d2, p, h),
{
}

/// Appends `key=value\n` when the field is set, nothing when it is not.
fn append_opt_line(buf: &mut String, key: &str, field: &Option<String>)
    ensures
        final(buf)@ == old(buf)@ + spec_opt_line(key@, opt_view(*field)),
{
    proof {
        reveal_strlit("=");
        reveal_strlit("\n");
        assert("="@ =~= seq!['=']);
        assert("\n"@ =~= seq!['\n']);
    }
    match field {
        Some(v) => {
            buf.append(key);
            buf.append("=");
            buf.append(v.as_str());
            buf.append("\n");
            proof {
                assert(buf@ =~= old(buf)@ + spec_field_line(key@, v@));
            }
        },
        None => {
            proof {
                assert(buf@ =~= old(buf)@ + Seq::<char>::empty());
            }
        },
    }
}

// ---------------------------------------------------------------------------
// Round trip: serializing a parsed document reproduces its fields
// ---------------------------------------------------------------------------

/// A text with no line break in it.
pub open spec fn nl_free(s: Seq<char>) -> bool {
    forall|j: int| 0 <= j < s.len() ==> s[j] != '\n'
}

/// A value that survives one serialize-and-reparse unchanged: it holds no
/// line break, and does not end in whitespace the reparse would trim away.
pub open spec fn value_wf(v: Seq<char>) -> bool {
    &&& nl_free(v)
    &&& v.len() > 0 ==> !is_ws(v.last())
}

pub open spec fn opt_wf(ov: Option<Seq<char>>) -> bool {
    match ov {
        Some(v) => value_wf(v),
        None => true,
    }
}

/// A document whose serialized text parses back to exactly itself: every
/// set value is fit for the wire and the quit flag is unset (parsing never
/// sets it). Every document that parsing produces is of this shape.
pub open spec fn reparses_cleanly(d: DocView) -> bool {
    &&& opt_wf(d.protocol)
    &&& opt_wf(d.host)
    &&& opt_wf(d.path)
    &&& opt_wf(d.username)
    &&& opt_wf(d.password)
    &&& opt_wf(d.url)
    &&& d.quit is None
}

/// A serialized text cut back into its lines at each line break, the final
/// break closing the last line.
pub open spec fn split_lines(s: Seq<char>) -> Seq<Seq<char>>
    decreases s.len() via split_lines_dec
{
    if s.len() == 0 {
        Seq::empty()
    } else {
        match find_char(s, '\n') {
            Some(i) => seq![s.subrange(0, i)] + split_lines(s.subrange(i + 1, s.len() as int)),
            None => seq![s],
        }
    }
}

#[via_fn]
proof fn split_lines_dec(s: Seq<char>) {
    lemma_find_char_props(s, '\n');
}

/// A key fit to head a line: non-empty, opening with no whitespace, and
/// containing neither the separator nor a line break.
pub open spec fn key_ok(k: Seq<char>) -> bool {
    &&& k.len() > 0
    &&& !is_ws(k[0])
    &&& forall|j: int| 0 <= j < k.len() ==> k[j] != '=' && k[j] != '\n'
}

/// The six recognized keys are all fit to head a line, and all distinct.
proof fn lemma_keys_ok()
    ensures
        key_ok(key_protocol()),
        key_ok(key_host()),
        key_ok(key_path()),
        key_ok(key_username()),
        key_ok(key_password()),
        key_ok(key_url()),
        key_protocol() != key_host(),
        key_protocol() != key_path(),
        key_protocol() != key_username(),
        key_protocol() != key_password(),
        key_protocol() != key_url(),
        key_host() != key_path(),
        key_host() != key_username(),
        key_host() != key_password(),
        key_host() != key_url(),
        key_path() != key_username(),
        key_path() != key_password(),
        key_path() != key_url(),
        key_username() != key_password(),
        key_username() != key_url(),
        key_password() != key_url(),
{
    reveal_strlit("protocol");
    reveal_strlit("host");
    reveal_strlit("path");
    reveal_strlit("username");
    reveal_strlit("password");
    reveal_strlit("url");
    assert(key_host()[0] != key_path()[0]);
    assert(key_protocol()[1] != key_password()[1]);
    assert(key_protocol()[0] != key_username()[0]);
    assert(key_username()[0] != key_password()[0]);
}

/// One field's worth of lines: one line when the field is set, none when it
/// is not.
pub open spec fn opt_item(k: Seq<char>, ov: Option<Seq<char>>) -> Seq<Seq<char>> {
    match ov {
        Some(v) => seq![k + seq!['='] + v],
        None => Seq::empty(),
    }
}

/// Splitting a serialized field line off the front of a text recovers
/// exactly that line.
proof fn lemma_split_lines_field(k: Seq<char>, v: Seq<char>, rest: Seq<char>)
    requires
        key_ok(k),
        nl_free(v),
    ensures
        split_lines(spec_field_line(k, v) + rest) == seq![k + seq!['='] + v] + split_lines(rest),
{
    let line = k + seq!['='] + v;
    let s = spec_field_line(k, v) + rest;
    assert(s =~= line + seq!['\n'] + rest);
    let n = line.len() as int;
    assert(s[n] == '\n');
    assert forall|j: int| 0 <= j < n implies s[j] != '\n' by {
        assert(s[j] == line[j]);
        if j < k.len() {
            assert(line[j] == k[j]);
        } else if j == k.len() {
            assert(line[j] == '=');
        } else {
            assert(line[j] == v[j - k.len() - 1]);
        }
    }
    lemma_find_char_at(s, '\n', n);
    assert(s.subrange(0, n) =~= line);
    assert(s.subrange(n + 1, s.len() as int) =~= rest);
}

/// The same, for an optional field: an unset field contributes no line.
proof fn lemma_split_lines_opt(k: Seq<char>, ov: Option<Seq<char>>, rest: Seq<char>)
    requires
        key_ok(k),
        opt_wf(ov),
    ensures
        split_lines(spec_opt_line(k, ov) + rest) == opt_item(k, ov) + split_lines(rest),
{
    match ov {
        Some(v) => {
            lemma_split_lines_field(k, v, rest);
        },
        None => {
            assert(spec_opt_line(k, ov) + rest =~= rest);
            assert(opt_item(k, ov) + split_lines(rest) =~= split_lines(rest));
        },
    }
}

/// Parsing a concatenation of line sequences parses the first part, then
/// continues with the second from where the first left off.
proof fn lemma_parse_lines_append(d: DocView, a: Seq<Seq<char>>, b: Seq<Seq<char>>)
    ensures
        spec_parse_lines(d, a + b) == (match spec_parse_lines(d, a) {
            Ok(d2) => spec_parse_lines(d2, b),
            Err(e) => Err(e),
        }),
    decreases a.len(),
{
    if a.len() == 0 {
        assert(a + b =~= b);
    } else {
        assert((a + b)[0] == a[0]);
        assert((a + b).drop_first() =~= a.drop_first() + b);
        match spec_parse_line(d, a[0]) {
            Ok(d2) => {
                lemma_parse_lines_append(d2, a.drop_first(), b);
            },
            Err(_) => {},
        }
    }
}

/// A well-formed `key=value` line needs no trimming and splits back into
/// exactly its key and value.
proof fn lemma_line_splits_back(k: Seq<char>, v: Seq<char>)
    requires
        key_ok(k),
        value_wf(v),
    ensures
        ({
            let raw = k + seq!['='] + v;
            &&& spec_trim(raw) == raw
            &&& find_char(raw, '=') == Some(k.len() as int)
            &&& raw.subrange(0, k.len() as int) == k
            &&& raw.subrange(k.len() as int + 1, raw.len() as int) == v
        }),
{
    let raw = k + seq!['='] + v;
    if v.len() > 0 {
        assert(raw.last() == v.last());
    } else {
        assert(raw.last() == '=');
    }
    assert(spec_trim_back(raw) == raw);
    assert(raw[0] == k[0]);
    assert(spec_trim_front(raw) == raw);
    assert(raw[k.len() as int] == '=');
    assert forall|j: int| 0 <= j < k.len() implies raw[j] != '=' by {
        assert(raw[j] == k[j]);
    }
    lemma_find_char_at(raw, '=', k.len() as int);
    assert(raw.subrange(0, k.len() as int) =~= k);
    assert(raw.subrange(k.len() as int + 1, raw.len() as int) =~= v);
}

/// Parsing one field's worth of lines stores exactly that field's value.
proof fn lemma_parse_opt_item(d: DocView, k: Seq<char>, ov: Option<Seq<char>>)
    requires
        key_ok(k),
        opt_wf(ov),
    ensures
        spec_parse_lines(d, opt_item(k, ov)) == (match ov {
            Some(v) => apply_key(d, k, v),
            None => Ok(d),
        }),
{
    match ov {
        Some(v) => {
            lemma_line_splits_back(k, v);
            let line = k + seq!['='] + v;
            let items = opt_item(k, ov);
            assert(items[0] == line);
            assert(items.drop_first() =~= Seq::<Seq<char>>::empty());
            assert(spec_parse_line(d, line) == apply_key(d, k, v));
            match apply_key(d, k, v) {
                Ok(d2) => {
                    assert(spec_parse_lines(d2, items.drop_first()) == Ok::<
                        DocView,
                        ReadErrView,
                    >(d2));
                },
                Err(_) => {},
            }
        },
        None => {},
    }
}

/// Serializing any cleanly reparsable document and parsing the text back
/// gives exactly that document: the round trip at the heart of the wire
/// format. Parsed documents are always of this shape.
pub proof fn lemma_serialize_parse_roundtrip(d: DocView)
    requires
        reparses_cleanly(d),
    ensures
        spec_parse(split_lines(spec_serialize(d))) == Ok::<DocView, ReadErrView>(d),
{
    lemma_keys_ok();
    let o1 = spec_opt_line(key_protocol(), d.protocol);
    let o2 = spec_opt_line(key_host(), d.host);
    let o3 = spec_opt_line(key_path(), d.path);
    let o4 = spec_opt_line(key_username(), d.username);
    let o5 = spec_opt_line(key_password(), d.password);
    let o6 = spec_opt_line(key_url(), d.url);
    let s7 = Seq::<char>::empty();
    let s6 = o6 + s7;
    let s5 = o5 + s6;
    let s4 = o4 + s5;
    let s3 = o3 + s4;
    let s2 = o2 + s3;
    let s1 = o1 + s2;
    assert(spec_quit_line(d.quit) == s7);
    assert(spec_serialize(d) =~= s1);
    lemma_split_lines_opt(key_protocol(), d.protocol, s2);
    lemma_split_lines_opt(key_host(), d.host, s3);
    lemma_split_lines_opt(key_path(), d.path, s4);
    lemma_split_lines_opt(key_username(), d.username, s5);
    lemma_split_lines_opt(key_password(), d.password, s6);
    lemma_split_lines_opt(key_url(), d.url, s7);
    let i1 = opt_item(key_protocol(), d.protocol);
    let i2 = opt_item(key_host(), d.host);
    let i3 = opt_item(key_path(), d.path);
    let i4 = opt_item(key_username(), d.username);
    let i5 = opt_item(key_password(), d.password);
    let i6 = opt_item(key_url(), d.url);
    let l7 = Seq::<Seq<char>>::empty();
    let l6 = i6 + l7;
    let l5 = i5 + l6;
    let l4 = i4 + l5;
    let l3 = i3 + l4;
    let l2 = i2 + l3;
    let l1 = i1 + l2;
    assert(split_lines(s7) == l7);
    assert(i6 + split_lines(s7) =~= l6);
    assert(i5 + l6 =~= l5);
    assert(split_lines(s6) == i6 + split_lines(s7));
    assert(split_lines(spec_serialize(d)) == l1);
    let d0 = empty_doc();
    let d1 = DocView { protocol: d.protocol, ..d0 };
    let d2 = DocView { host: d.host, ..d1 };
    let d3 = DocView { path: d.path, ..d2 };
    let d4 = DocView { username: d.username, ..d3 };
    let d5 = DocView { password: d.password, ..d4 };
    let d6 = DocView { url: d.url, ..d5 };
    lemma_parse_opt_item(d0, key_protocol(), d.protocol);
    assert(spec_parse_lines(d0, i1) == Ok::<DocView, ReadErrView>(d1));
    lemma_parse_opt_item(d1, key_host(), d.host);
    assert(spec_parse_lines(d1, i2) == Ok::<DocView, ReadErrView>(d2));
    lemma_parse_opt_item(d2, key_path(), d.path);
    assert(spec_parse_lines(d2, i3) == Ok::<DocView, ReadErrView>(d3));
    lemma_parse_opt_item(d3, key_username(), d.username);
    assert(spec_parse_lines(d3, i4) == Ok::<DocView, ReadErrView>(d4));
    lemma_parse_opt_item(d4, key_password(), d.password);
    assert(spec_parse_lines(d4, i5) == Ok::<DocView, ReadErrView>(d5));
    lemma_parse_opt_item(d5, key_url(), d.url);
    assert(spec_parse_lines(d5, i6) == Ok::<DocView, ReadErrView>(d6));
    lemma_parse_lines_append(d0, i1, l2);
    lemma_parse_lines_append(d1, i2, l3);
    lemma_parse_lines_append(d2, i3, l4);
    lemma_parse_lines_append(d3, i4, l5);
    lemma_parse_lines_append(d4, i5, l6);
    lemma_parse_lines_append(d5, i6, l7);
    assert(spec_parse_lines(d6, l7) == Ok::<DocView, ReadErrView>(d6));
    assert(d6 == d);
}

/// Trimming the back keeps a prefix of the text, ending without
/// whitespace.
proof fn lemma_trim_back_structure(s: Seq<char>)
    ensures
        spec_trim_back(s).len() <= s.len(),
        forall|j: int| 0 <= j < spec_trim_back(s).len() ==> spec_trim_back(s)[j] == s[j],
        spec_trim_back(s).len() > 0 ==> !is_ws(spec_trim_back(s).last()),
    decreases s.len(),
{
    if s.len() > 0 && is_ws(s.last()) {
        let short = s.drop_last();
        lemma_trim_back_structure(short);
        assert forall|j: int|
            0 <= j < spec_trim_back(s).len() implies spec_trim_back(s)[j] == s[j] by {
            assert(spec_trim_back(s)[j] == short[j]);
            assert(short[j] == s[j]);
        }
    }
}

/// Trimming the front keeps a suffix of the text, its last character the
/// text's own.
proof fn lemma_trim_front_structure(s: Seq<char>)
    ensures
        spec_trim_front(s).len() <= s.len(),
        forall|j: int|
            0 <= j < spec_trim_front(s).len() ==> spec_trim_front(s)[j] == s[j + (s.len()
                - spec_trim_front(s).len())],
        spec_trim_front(s).len() > 0 ==> spec_trim_front(s).last() == s.last(),
    decreases s.len(),
{
    if s.len() > 0 && is_ws(s[0]) {
        let rest = s.drop_first();
        lemma_trim_front_structure(rest);
        let t = spec_trim_front(s);
        assert forall|j: int|
            0 <= j < t.len() implies t[j] == s[j + (s.len() - t.len())] by {
            assert(t[j] == rest[j + (rest.len() - t.len())]);
            assert(rest[j + (rest.len() - t.len())] == s[j + (rest.len() - t.len()) + 1]);
        }
        if t.len() > 0 {
            assert(rest.last() == s.last());
        }
    }
}

/// Trimming preserves freedom from line breaks and never leaves trailing
/// whitespace.
proof fn lemma_trim_wf(s: Seq<char>)
    requires
        nl_free(s),
    ensures
        nl_free(spec_trim(s)),
        spec_trim(s).len() > 0 ==> !is_ws(spec_trim(s).last()),
{
    lemma_trim_back_structure(s);
    let tb = spec_trim_back(s);
    lemma_trim_front_structure(tb);
    let t = spec_trim(s);
    assert forall|j: int| 0 <= j < t.len() implies t[j] != '\n' by {
        let off = tb.len() - t.len();
        assert(t[j] == tb[j + off]);
        assert(tb[j + off] == s[j + off]);
    }
    if t.len() > 0 {
        assert(t.last() == tb.last());
    }
}

/// Every document that parsing builds reparses cleanly: its values came
/// out of trimmed, break-free lines, and parsing never sets the quit flag.
proof fn lemma_parse_lines_wf(d0: DocView, lines: Seq<Seq<char>>, d: DocView)
    requires
        reparses_cleanly(d0),
        forall|i: int| 0 <= i < lines.len() ==> nl_free(#[trigger] lines[i]),
        spec_parse_lines(d0, lines) == Ok::<DocView, ReadErrView>(d),
    ensures
        reparses_cleanly(d),
    decreases lines.len(),
{
    if lines.len() > 0 {
        let raw = lines[0];
        match spec_parse_line(d0, raw) {
            Ok(d1) => {
                let t = spec_trim(raw);
                lemma_trim_wf(raw);
                if let Some(i) = find_char(t, '=') {
                    lemma_find_char_props(t, '=');
                    let v = t.subrange(i + 1, t.len() as int);
                    assert(value_wf(v)) by {
                        assert forall|j: int| 0 <= j < v.len() implies v[j] != '\n' by {
                            assert(v[j] == t[i + 1 + j]);
                        }
                        if v.len() > 0 {
                            assert(v.last() == t.last());
                        }
                    }
                    assert(reparses_cleanly(d1));
                }
                let rest = lines.drop_first();
                assert forall|i: int| 0 <= i < rest.len() implies nl_free(#[trigger] rest[i]) by {
                    assert(rest[i] == lines[i + 1]);
                }
                lemma_parse_lines_wf(d1, rest, d);
            },
            Err(_) => {},
        }
    }
}

/// For every input that parses — its lines, cut at line breaks, carry none
/// themselves — serializing the parsed document and parsing that text back
/// reproduces exactly the same fields and values as the input gave.
pub proof fn lemma_input_roundtrip(lines: Seq<Seq<char>>, d: DocView)
    requires
        forall|i: int| 0 <= i < lines.len() ==> nl_free(#[trigger] lines[i]),
        spec_parse(lines) == Ok::<DocView, ReadErrView>(d),
    ensures
        reparses_cleanly(d),
        spec_parse(split_lines(spec_serialize(d))) == Ok::<DocView, ReadErrView>(d),
{
    lemma_parse_lines_wf(empty_doc(), lines, d);
    lemma_serialize_parse_roundtrip(d);
}

} // verus!
