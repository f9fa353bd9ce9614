//! Map application-level credential names to secrets in the backend store.
//!
//! A `Secretfile` turns environment-variable-style credential names and
//! local file paths into locations in a secret store: from
//! `MY_SECRET_PASSWORD` to the path `secret/my_secret` and the key
//! `password`.

use vstd::prelude::*;
use vstd::string::*;
use crate::env::Environment;
use crate::errors::Error;
use crate::grammar::{interp, interpolate_env, name_end, skip_name, skip_spaces, skip_word, space_end, word_end};
use crate::table::{keys_sorted, lemma_sorted_insert_sorted, lookup, sorted_insert, Table};
use crate::format::{entries_text, entry_line, lemma_entries_text_push, serialize};
use crate::text::{chars_of, is_name_start, is_space, name_start_char, slice_of, space_char};

verus! {

/// The location of a secret in a store.
#[derive(Clone, Debug, PartialEq, Eq)]
pub enum Location {
    /// A path that names one credential by itself.
    Path(String),
    /// A path to a bundle of keys, and the key that names the credential.
    PathWithKey(String, String),
}

/// A location, as text.
pub enum LocationView {
    Path(Seq<char>),
    PathWithKey(Seq<char>, Seq<char>),
}

impl View for Location {
    type V = LocationView;

    open spec fn view(&self) -> LocationView {
        match self {
            Location::Path(p) => LocationView::Path(p@),
            Location::PathWithKey(p, k) => LocationView::PathWithKey(p@, k@),
        }
    }
}

/// Why a `Secretfile` text is refused.
pub enum ParseFailure {
    /// A line that the grammar does not accept.
    BadLine(Seq<char>),
    /// A reference to an undefined environment variable.
    Undefined(Seq<char>),
}

/// What one line of a `Secretfile` says.
pub enum LineParse {
    /// A blank line or a comment.
    Blank,
    /// A credential: a file path when `file`, else a variable name.
    Entry { file: bool, name: Seq<char>, loc: LocationView },
    Failed(ParseFailure),
}

/// The line names a file: `>path location`.
pub open spec fn is_file_line(l: Seq<char>) -> bool {
    l.len() > 0 && l[0] == '>'
}

/// Where the name or file path of an entry starts.
pub open spec fn head_start(l: Seq<char>) -> int {
    if is_file_line(l) {
        1
    } else {
        0
    }
}

/// Where the name or file path of an entry ends, or -1.
pub open spec fn head_end(l: Seq<char>) -> int {
    if l.len() > 0 && is_name_start(l[0]) {
        name_end(l, 1)
    } else if is_file_line(l) {
        word_end(l, 1)
    } else {
        -1
    }
}

/// Where the location of an entry starts.
pub open spec fn token_start(l: Seq<char>) -> int {
    space_end(l, head_end(l))
}

/// Where the location of an entry ends.
pub open spec fn token_end(l: Seq<char>) -> int {
    word_end(l, token_start(l))
}

/// Only spaces, or spaces and then a `#` comment.
pub open spec fn is_blank(l: Seq<char>) -> bool {
    let s = space_end(l, 0);
    s == l.len() || l[s] == '#'
}

/// `NAME location` or `>path location`, with spaces between and after.
pub open spec fn entry_shape(l: Seq<char>) -> bool {
    let h = head_end(l);
    &&& head_start(l) < h < l.len()
    &&& is_space(l[h])
    &&& token_start(l) < l.len()
    &&& space_end(l, token_end(l)) == l.len()
}

/// Where the path of a location `t` ends: at the first `:` after its first
/// character that has a key after it, else at the end.
pub open spec fn colon_from(t: Seq<char>, i: int) -> int
    decreases t.len() - i,
{
    if i < 0 || i >= t.len() {
        t.len() as int
    } else if t[i] == ':' && i + 1 < t.len() {
        i
    } else {
        colon_from(t, i + 1)
    }
}

/// The path of a location, before interpolation.
pub open spec fn raw_path(t: Seq<char>) -> Seq<char> {
    t.subrange(0, colon_from(t, 1))
}

/// The key of a location, if it has one.
pub open spec fn raw_key(t: Seq<char>) -> Option<Seq<char>> {
    let c = colon_from(t, 1);
    if c < t.len() {
        Some(t.subrange(c + 1, t.len() as int))
    } else {
        None
    }
}

/// What line `l` says in `env`.
pub open spec fn parse_line(l: Seq<char>, env: Seq<(Seq<char>, Seq<char>)>) -> LineParse {
    if is_blank(l) {
        LineParse::Blank
    } else if !entry_shape(l) {
        LineParse::Failed(ParseFailure::BadLine(l))
    } else {
        let t = l.subrange(token_start(l), token_end(l));
        let head = l.subrange(head_start(l), head_end(l));
        match interp(raw_path(t), env) {
            Err(n) => LineParse::Failed(ParseFailure::Undefined(n)),
            Ok(p) => {
                let loc = match raw_key(t) {
                    Some(k) => LocationView::PathWithKey(p, k),
                    None => LocationView::Path(p),
                };
                if is_file_line(l) {
                    match interp(head, env) {
                        Err(n) => LineParse::Failed(ParseFailure::Undefined(n)),
                        Ok(f) => LineParse::Entry { file: true, name: f, loc },
                    }
                } else {
                    LineParse::Entry { file: false, name: head, loc }
                }
            },
        }
    }
}

/// The error that reports `f`.
pub open spec fn reports(e: Error, f: ParseFailure) -> bool {
    match f {
        ParseFailure::BadLine(l) => e matches Error::Parse { input } && input@ == l,
        ParseFailure::Undefined(n) => e matches Error::UndefinedEnvironmentVariable { name } && name@ == n,
    }
}

/// The entries of a `Secretfile`, each table in key order.
pub struct SecretfileView {
    pub vars: Seq<(Seq<char>, LocationView)>,
    pub files: Seq<(Seq<char>, LocationView)>,
}

/// `v` with one more entry.
pub open spec fn add_entry(v: SecretfileView, file: bool, name: Seq<char>, loc: LocationView) -> SecretfileView {
    if file {
        SecretfileView { vars: v.vars, files: sorted_insert(v.files, name, loc) }
    } else {
        SecretfileView { vars: sorted_insert(v.vars, name, loc), files: v.files }
    }
}

/// No entries.
pub open spec fn no_entries() -> SecretfileView {
    SecretfileView { vars: Seq::empty(), files: Seq::empty() }
}

/// Where the first line of `t` ends: at its first newline, or at the end.
pub open spec fn line_end(t: Seq<char>, i: int) -> int
    decreases t.len() - i,
{
    if 0 <= i < t.len() && t[i] != '\n' {
        line_end(t, i + 1)
    } else {
        i
    }
}

/// The first line of `t`, without its line ending (`\n` or `\r\n`).
pub open spec fn first_line(t: Seq<char>) -> Seq<char> {
    let e = line_end(t, 0);
    let raw = t.subrange(0, e);
    if e < t.len() && raw.len() > 0 && raw.last() == '\r' {
        raw.drop_last()
    } else {
        raw
    }
}

/// What follows the first line of `t` and its newline.
pub open spec fn after_first_line(t: Seq<char>) -> Seq<char> {
    let e = line_end(t, 0);
    if e < t.len() {
        t.subrange(e + 1, t.len() as int)
    } else {
        Seq::empty()
    }
}

/// The entries of the lines of `t`, added to `acc`, or the first failure.
pub open spec fn parse_lines(t: Seq<char>, env: Seq<(Seq<char>, Seq<char>)>, acc: SecretfileView) -> Result<
    SecretfileView,
    ParseFailure,
>
    decreases t.len(),
{
    if t.len() == 0 || !(0 <= line_end(t, 0) <= t.len()) {
        Ok(acc)
    } else {
        match parse_line(first_line(t), env) {
            LineParse::Blank => parse_lines(after_first_line(t), env, acc),
            LineParse::Entry { file, name, loc } => parse_lines(
                after_first_line(t),
                env,
                add_entry(acc, file, name, loc),
            ),
            LineParse::Failed(f) => Err(f),
        }
    }
}

/// The `Secretfile` that text `t` describes in `env`.
pub open spec fn parse_text(t: Seq<char>, env: Seq<(Seq<char>, Seq<char>)>) -> Result<SecretfileView, ParseFailure> {
    parse_lines(t, env, no_entries())
}

/// A basic interface for loading a `Secretfile` and listing the variables
/// and files it names.
#[derive(Clone, Debug)]
pub struct Secretfile {
    varmap: Table<Location>,
    filemap: Table<Location>,
}

impl View for Secretfile {
    type V = SecretfileView;

    closed spec fn view(&self) -> SecretfileView {
        SecretfileView { vars: self.varmap@, files: self.filemap@ }
    }
}

impl Secretfile {
    /// Both tables hold their keys in order.
    pub open spec fn wf(&self) -> bool {
        keys_sorted(self@.vars) && keys_sorted(self@.files)
    }

    fn empty() -> (r: Secretfile)
        ensures
            r@ == no_entries(),
            r.wf(),
    {
        Secretfile { varmap: Table::new(), filemap: Table::new() }
    }

    /// Adds what line `line` says.
    fn read_line(&mut self, line: &str, env: &Environment) -> (r: Result<(), Error>)
        requires
            old(self).wf(),
        ensures
            final(self).wf(),
            match parse_line(line@, env@) {
                LineParse::Blank => r is Ok && final(self)@ == old(self)@,
                LineParse::Entry { file, name, loc } => r is Ok && final(self)@ == add_entry(
                    old(self)@,
                    file,
                    name,
                    loc,
                ),
                LineParse::Failed(f) => r is Err && reports(r->Err_0, f) && final(self)@ == old(self)@,
            },
    {
        let c = chars_of(line);
        let n = c.len();
        let s0 = skip_spaces(&c, 0);
        if s0 == n || c[s0] == '#' {
            return Ok(());
        }
        let file = n > 0 && c[0] == '>';
        let h: usize;
        if n > 0 && name_start_char(c[0]) {
            h = skip_name(&c, 1);
        } else if file {
            h = skip_word(&c, 1);
        } else {
            return Err(Error::Parse { input: line.to_owned() });
        }
        let hs: usize = if file { 1 } else { 0 };
        if !(hs < h && h < n && space_char(c[h])) {
            return Err(Error::Parse { input: line.to_owned() });
        }
        let ts = skip_spaces(&c, h);
        if ts >= n {
            return Err(Error::Parse { input: line.to_owned() });
        }
        let te = skip_word(&c, ts);
        if skip_spaces(&c, te) != n {
            return Err(Error::Parse { input: line.to_owned() });
        }
        let ghost t = c@.subrange(ts as int, te as int);
        let mut k = ts + 1;
        while k < te && !(c[k] == ':' && k + 1 < te)
            invariant
                t == c@.subrange(ts as int, te as int),
                ts < k <= te <= n,
                n == c@.len(),
                colon_from(t, 1) == colon_from(t, k - ts),
            decreases te - k,
        {
            assert(t[k - ts] == c@[k as int]);
            k = k + 1;
        }
        proof {
            if k < te {
                assert(t[k - ts] == c@[k as int]);
            }
            assert(colon_from(t, 1) == k - ts);
            assert(head_end(line@) == h);
            assert(token_start(line@) == ts);
            assert(token_end(line@) == te);
            assert(raw_path(t) =~= c@.subrange(ts as int, k as int));
            if k < te {
                assert(raw_key(t) == Some(c@.subrange(k + 1, te as int)));
            }
        }
        let raw = slice_of(line, ts, k);
        let path = match interpolate_env(raw.as_str(), env) {
            Ok(p) => p,
            Err(e) => {
                return Err(e);
            },
        };
        let loc = if k < te {
            Location::PathWithKey(path, slice_of(line, k + 1, te))
        } else {
            Location::Path(path)
        };
        if file {
            let head = slice_of(line, 1, h);
            let name = match interpolate_env(head.as_str(), env) {
                Ok(f) => f,
                Err(e) => {
                    return Err(e);
                },
            };
            let ghost v = self.filemap@;
            proof {
                lemma_sorted_insert_sorted(v, name@, loc@);
            }
            self.filemap.insert(name, loc);
        } else {
            let name = slice_of(line, 0, h);
            let ghost v = self.varmap@;
            proof {
                lemma_sorted_insert_sorted(v, name@, loc@);
            }
            self.varmap.insert(name, loc);
        }
        Ok(())
    }

    fn read_internal(text: &str, env: &Environment) -> (r: Result<Secretfile, Error>)
        ensures
            match parse_text(text@, env@) {
                Ok(v) => r is Ok && r->Ok_0@ == v && r->Ok_0.wf(),
                Err(f) => r is Err && reports(r->Err_0, f),
            },
    {
        let c = chars_of(text);
        let n = c.len();
        let mut sf = Secretfile::empty();
        let mut i: usize = 0;
        assert(c@.subrange(0, n as int) =~= c@);
        while i < n
            invariant
                c@ == text@,
                n == c@.len(),
                i <= n,
                sf.wf(),
                parse_text(text@, env@) == parse_lines(c@.subrange(i as int, n as int), env@, sf@),
            decreases n - i,
        {
            let ghost rest = c@.subrange(i as int, n as int);
            let mut e = i;
            while e < n && c[e] != '\n'
                invariant
                    rest == c@.subrange(i as int, n as int),
                    i <= e <= n,
                    n == c@.len(),
                    line_end(rest, 0) == line_end(rest, e - i),
                decreases n - e,
            {
                assert(rest[e - i] == c@[e as int]);
                e = e + 1;
            }
            proof {
                if e < n {
                    assert(rest[e - i] == c@[e as int]);
                }
                assert(line_end(rest, 0) == e - i);
            }
            let mut end = e;
            if e < n && e > i && c[e - 1] == '\r' {
                end = e - 1;
            }
            let line = slice_of(text, i, end);
            proof {
                assert(first_line(rest) =~= line@);
                if e < n {
                    assert(after_first_line(rest) =~= c@.subrange(e + 1, n as int));
                } else {
                    assert(after_first_line(rest) =~= c@.subrange(n as int, n as int));
                }
            }
            match sf.read_line(line.as_str(), env) {
                Ok(()) => {},
                Err(err) => {
                    return Err(err);
                },
            }
            i = if e < n {
                e + 1
            } else {
                n
            };
        }
        proof {
            assert(c@.subrange(n as int, n as int).len() == 0);
        }
        Ok(sf)
    }

    /// Reads a `Secretfile` from its text, interpolating environment
    /// variables from `env`.
    pub fn read(text: &str, env: &Environment) -> (r: Result<Secretfile, Error>)
        ensures
            match parse_text(text@, env@) {
                Ok(v) => r is Ok && r->Ok_0@ == v && r->Ok_0.wf(),
                Err(f) => r matches Err(Error::Secretfile(e)) && reports(*e, f),
            },
    {
        match Secretfile::read_internal(text, env) {
            Ok(sf) => Ok(sf),
            Err(e) => Err(Error::Secretfile(Box::new(e))),
        }
    }

    /// The entries written as text, one line each: the variables as
    /// `NAME path[:key]`, then the files as `>path path[:key]`.
    pub fn to_text(&self) -> (r: String)
        ensures
            r@ == serialize(self@),
    {
        let mut out = String::new();
        write_entries(&mut out, &self.varmap, false);
        write_entries(&mut out, &self.filemap, true);
        assert(out@ =~= serialize(self@));
        out
    }

    /// The environment variables listed in this file, in order.
    pub fn vars(&self) -> (r: SecretfileKeys)
        ensures
            r@ == self@.vars.map_values(|e: (Seq<char>, LocationView)| e.0),
    {
        let keys = self.varmap.keys();
        assert(keys@.map_values(|k: String| k@) =~= self@.vars.map_values(|e: (Seq<char>, LocationView)| e.0));
        SecretfileKeys::new(keys)
    }

    /// The credential files listed in this file, in order.
    pub fn files(&self) -> (r: SecretfileKeys)
        ensures
            r@ == self@.files.map_values(|e: (Seq<char>, LocationView)| e.0),
    {
        let keys = self.filemap.keys();
        assert(keys@.map_values(|k: String| k@) =~= self@.files.map_values(|e: (Seq<char>, LocationView)| e.0));
        SecretfileKeys::new(keys)
    }
}

/// Appends the lines of the entries of `t`.
fn write_entries(out: &mut String, t: &Table<Location>, file: bool)
    ensures
        final(out)@ == old(out)@ + entries_text(file, t@),
{
    let ghost start = out@;
    let n = t.len();
    let mut i: usize = 0;
    assert(start + entries_text(file, t@.subrange(0, 0)) =~= start);
    while i < n
        invariant
            n == t@.len(),
            i <= n,
            out@ == start + entries_text(file, t@.subrange(0, i as int)),
        decreases n - i,
    {
        let ghost before = out@;
        if file {
            out.append(">");
        }
        out.append(t.key_at(i).as_str());
        out.append(" ");
        match t.value_at(i) {
            Location::Path(p) => {
                out.append(p.as_str());
            },
            Location::PathWithKey(p, k) => {
                out.append(p.as_str());
                out.append(":");
                out.append(k.as_str());
            },
        }
        out.append("\n");
        proof {
            reveal_strlit(">");
            reveal_strlit(" ");
            reveal_strlit(":");
            reveal_strlit("\n");
            let e = t@[i as int];
            assert(t@.subrange(0, i + 1) =~= t@.subrange(0, i as int).push(e));
            lemma_entries_text_push(file, t@.subrange(0, i as int), e);
            assert(out@ =~= before + entry_line(file, e.0, e.1) + seq!['\n']);
        }
        i = i + 1;
    }
    assert(t@.subrange(0, n as int) =~= t@);
}

/// Looking up the `Location` of a credential in a `Secretfile`.
pub trait SecretfileLookup {
    /// The location of a variable listed in a `Secretfile`.
    fn var(&self, name: &str) -> Option<&Location>;

    /// The location of a file listed in a `Secretfile`.
    fn file(&self, name: &str) -> Option<&Location>;
}

impl SecretfileLookup for Secretfile {
    fn var(&self, name: &str) -> (r: Option<&Location>)
        ensures
            r is Some == lookup(self@.vars, name@) is Some,
            r is Some ==> r->0@ == lookup(self@.vars, name@)->0,
    {
        self.varmap.get(name)
    }

    fn file(&self, name: &str) -> (r: Option<&Location>)
        ensures
            r is Some == lookup(self@.files, name@) is Some,
            r is Some ==> r->0@ == lookup(self@.files, name@)->0,
    {
        self.filemap.get(name)
    }
}

/// The keys listed in a `Secretfile`, handed out one at a time.
#[derive(Clone, Debug)]
pub struct SecretfileKeys {
    keys: Vec<String>,
    next: usize,
}

impl View for SecretfileKeys {
    type V = Seq<Seq<char>>;

    /// The keys not yet handed out.
    closed spec fn view(&self) -> Seq<Seq<char>> {
        self.keys@.map_values(|k: String| k@).subrange(self.next as int, self.keys@.len() as int)
    }
}

impl SecretfileKeys {
    /// The position is within the keys.
    pub closed spec fn wf(&self) -> bool {
        self.next <= self.keys@.len()
    }

    fn new(keys: Vec<String>) -> (r: SecretfileKeys)
        ensures
            r.wf(),
            r@ == keys@.map_values(|k: String| k@),
    {
        let r = SecretfileKeys { keys, next: 0 };
        assert(r@ =~= keys@.map_values(|k: String| k@));
        r
    }

    /// The next key, if any is left.
    pub fn next(&mut self) -> (r: Option<String>)
        requires
            old(self).wf(),
        ensures
            final(self).wf(),
            old(self)@.len() == 0 ==> r is None && final(self)@ == old(self)@,
            old(self)@.len() > 0 ==> r is Some && r->0@ == old(self)@[0] && final(self)@ == old(self)@.drop_first(),
    {
        if self.next < self.keys.len() {
            let k = self.keys[self.next].clone();
            self.next = self.next + 1;
            assert(self@ =~= old(self)@.drop_first());
            Some(k)
        } else {
            None
        }
    }

    /// All the keys not yet handed out, in order.
    pub fn into_vec(self) -> (r: Vec<String>)
        requires
            self.wf(),
        ensures
            r@.map_values(|k: String| k@) == self@,
    {
        let mut out: Vec<String> = Vec::new();
        let mut i = self.next;
        while i < self.keys.len()
            invariant
                self.next <= i <= self.keys@.len(),
                out@.len() == i - self.next,
                forall|j: int| 0 <= j < out@.len() ==> #[trigger] out@[j]@ == self.keys@[self.next + j]@,
            decreases self.keys@.len() - i,
        {
            let k = self.keys[i].clone();
            out.push(k);
            i = i + 1;
        }
        assert(out@.map_values(|k: String| k@) =~= self@);
        out
    }
}

} // verus!
