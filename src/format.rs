//! Writing a `Secretfile` back as text, and the law that reading what was
//! written gives the same entries.

use vstd::prelude::*;
use crate::grammar::{interp, lemma_interp_plain, lemma_name_end, lemma_space_end, lemma_word_end};
use crate::secretfile::{
    add_entry, after_first_line, colon_from, entry_shape, first_line, head_end, head_start, is_blank,
    is_file_line, line_end, no_entries, parse_line, parse_lines, parse_text, raw_path,
    token_end, token_start, LineParse, LocationView, SecretfileView,
};
use crate::table::{
    keys_sorted, lemma_lookup_at, lemma_sorted_insert_last, lemma_sorted_insert_lookup, lemma_sorted_insert_sorted, lookup,
};
use crate::text::{is_name_char, is_name_start, is_space, seq_less};

verus! {

/// A location as written after the name: `path` or `path:key`.
pub open spec fn location_text(loc: LocationView) -> Seq<char> {
    match loc {
        LocationView::Path(p) => p,
        LocationView::PathWithKey(p, k) => p + seq![':'] + k,
    }
}

/// The line of one entry, without its newline.
pub open spec fn entry_line(file: bool, name: Seq<char>, loc: LocationView) -> Seq<char> {
    (if file {
        seq!['>'] + name
    } else {
        name
    }) + seq![' '] + location_text(loc)
}

/// The lines of the entries `s`, each ended by a newline.
pub open spec fn entries_text(file: bool, s: Seq<(Seq<char>, LocationView)>) -> Seq<char>
    decreases s.len(),
{
    if s.len() == 0 {
        Seq::empty()
    } else {
        entry_line(file, s[0].0, s[0].1) + seq!['\n'] + entries_text(file, s.drop_first())
    }
}

/// The text of a `Secretfile`: its variables, then its files.
pub open spec fn serialize(v: SecretfileView) -> Seq<char> {
    entries_text(false, v.vars) + entries_text(true, v.files)
}

/// Non-empty, without spaces and without `$`.
pub open spec fn plain_text(s: Seq<char>) -> bool {
    s.len() > 0 && forall|i: int| 0 <= i < s.len() ==> !is_space(#[trigger] s[i]) && s[i] != '$'
}

/// A variable name: `[a-zA-Z_][a-zA-Z0-9_]*`.
pub open spec fn valid_name(s: Seq<char>) -> bool {
    s.len() > 0 && is_name_start(s[0]) && forall|i: int| 0 <= i < s.len() ==> is_name_char(#[trigger] s[i])
}

/// A location that reads back as itself: a plain path without `:`, and a
/// key, if any, without spaces.
pub open spec fn writable_location(loc: LocationView) -> bool {
    match loc {
        LocationView::Path(p) => plain_text(p) && forall|i: int| 0 <= i < p.len() ==> #[trigger] p[i] != ':',
        LocationView::PathWithKey(p, k) => {
            &&& plain_text(p)
            &&& forall|i: int| 0 <= i < p.len() ==> #[trigger] p[i] != ':'
            &&& k.len() > 0
            &&& forall|i: int| 0 <= i < k.len() ==> !is_space(#[trigger] k[i])
        },
    }
}

/// An entry whose line reads back as itself.
pub open spec fn writable_entry(file: bool, name: Seq<char>, loc: LocationView) -> bool {
    (if file {
        plain_text(name)
    } else {
        valid_name(name)
    }) && writable_location(loc)
}

/// Entries in key order whose lines read back as themselves.
pub open spec fn writable_entries(file: bool, s: Seq<(Seq<char>, LocationView)>) -> bool {
    keys_sorted(s) && forall|i: int| 0 <= i < s.len() ==> writable_entry(file, #[trigger] s[i].0, s[i].1)
}

/// A `Secretfile` whose text reads back as itself.
pub open spec fn writable(v: SecretfileView) -> bool {
    writable_entries(false, v.vars) && writable_entries(true, v.files)
}

/// The path of a location ends at the first `:` with a key after it.
pub proof fn lemma_colon_from(t: Seq<char>, i: int, c: int)
    requires
        0 <= i <= c <= t.len(),
        forall|j: int| i <= j < c ==> !(#[trigger] t[j] == ':' && j + 1 < t.len()),
        c == t.len() || (t[c] == ':' && c + 1 < t.len()),
    ensures
        colon_from(t, i) == c,
    decreases c - i,
{
    if i < c {
        lemma_colon_from(t, i + 1, c);
    }
}

/// A line without a newline up to `j` ends at `j`.
pub proof fn lemma_line_end(t: Seq<char>, i: int, j: int)
    requires
        0 <= i <= j <= t.len(),
        forall|k: int| i <= k < j ==> #[trigger] t[k] != '\n',
        j == t.len() || t[j] == '\n',
    ensures
        line_end(t, i) == j,
    decreases j - i,
{
    if i < j {
        lemma_line_end(t, i + 1, j);
    }
}

/// The line of a writable entry says that entry.
pub proof fn lemma_entry_line(file: bool, name: Seq<char>, loc: LocationView, env: Seq<(Seq<char>, Seq<char>)>)
    requires
        writable_entry(file, name, loc),
    ensures
        parse_line(entry_line(file, name, loc), env) == (LineParse::Entry { file, name, loc }),
{
    let head = if file {
        seq!['>'] + name
    } else {
        name
    };
    let t = location_text(loc);
    let l = entry_line(file, name, loc);
    let h = head.len() as int;
    assert(l == head + seq![' '] + t);
    assert(l[h] == ' ');
    assert(forall|j: int| 0 <= j < t.len() ==> #[trigger] l[h + 1 + j] == t[j]);
    let p = match loc {
        LocationView::Path(p) => p,
        LocationView::PathWithKey(p, _) => p,
    };
    assert(forall|j: int| 0 <= j < p.len() ==> #[trigger] t[j] == p[j]);
    assert forall|j: int| 0 <= j < t.len() implies !is_space(#[trigger] t[j]) by {
        match loc {
            LocationView::Path(p) => {},
            LocationView::PathWithKey(p, k) => {
                if j > p.len() {
                    assert(t[j] == k[j - p.len() - 1]);
                }
            },
        }
    }
    assert(!is_space(l[0]));
    lemma_space_end(l, 0, 0);
    assert(!is_blank(l));
    if file {
        assert(is_file_line(l));
        assert(!is_name_start(l[0]));
        assert forall|j: int| 1 <= j < h implies !is_space(#[trigger] l[j]) by {
            assert(l[j] == name[j - 1]);
        }
        lemma_word_end(l, 1, h);
    } else {
        assert(!is_file_line(l));
        assert forall|j: int| 1 <= j < h implies is_name_char(#[trigger] l[j]) by {
            assert(l[j] == name[j]);
        }
        lemma_name_end(l, 1, h);
    }
    assert(head_end(l) == h);
    lemma_space_end(l, h, h + 1);
    assert(token_start(l) == h + 1);
    assert forall|j: int| h + 1 <= j < l.len() implies !is_space(#[trigger] l[j]) by {
        assert(l[j] == t[j - h - 1]);
    }
    lemma_word_end(l, h + 1, l.len() as int);
    assert(token_end(l) == l.len());
    lemma_space_end(l, l.len() as int, l.len() as int);
    assert(entry_shape(l));
    assert(l.subrange(token_start(l), token_end(l)) =~= t);
    lemma_interp_plain(p, 0, env);
    assert(p.subrange(0, p.len() as int) =~= p);
    assert(interp(p, env) == Ok::<Seq<char>, Seq<char>>(p));
    match loc {
        LocationView::Path(_) => {
            lemma_colon_from(t, 1, t.len() as int);
            assert(raw_path(t) =~= p);
        },
        LocationView::PathWithKey(_, k) => {
            assert(t[p.len() as int] == ':');
            lemma_colon_from(t, 1, p.len() as int);
            assert(raw_path(t) =~= p);
            assert(t.subrange(p.len() as int + 1, t.len() as int) =~= k);
        },
    }
    if file {
        assert(l.subrange(head_start(l), head_end(l)) =~= name);
        lemma_interp_plain(name, 0, env);
        assert(name.subrange(0, name.len() as int) =~= name);
    } else {
        assert(l.subrange(head_start(l), head_end(l)) =~= name);
    }
}

/// Reading the line of a writable entry adds the entry.
proof fn lemma_one_line(
    file: bool,
    name: Seq<char>,
    loc: LocationView,
    tail: Seq<char>,
    env: Seq<(Seq<char>, Seq<char>)>,
    acc: SecretfileView,
)
    requires
        writable_entry(file, name, loc),
    ensures
        parse_lines(entry_line(file, name, loc) + seq!['\n'] + tail, env, acc) == parse_lines(
            tail,
            env,
            add_entry(acc, file, name, loc),
        ),
{
    let line = entry_line(file, name, loc);
    let t = line + seq!['\n'] + tail;
    lemma_entry_line(file, name, loc, env);
    assert forall|k: int| 0 <= k < line.len() implies #[trigger] t[k] != '\n' by {
        assert(t[k] == line[k]);
        lemma_entry_line_chars(file, name, loc, k);
    }
    assert(t[line.len() as int] == '\n');
    lemma_line_end(t, 0, line.len() as int);
    lemma_entry_line_chars(file, name, loc, line.len() - 1);
    assert(t.subrange(0, line.len() as int) =~= line);
    assert(first_line(t) == line);
    assert(after_first_line(t) =~= tail);
}

/// Reading the lines of entries in key order, after entries whose keys all
/// come before them, adds them at the end.
pub proof fn lemma_entries_text(
    file: bool,
    s: Seq<(Seq<char>, LocationView)>,
    rest: Seq<char>,
    env: Seq<(Seq<char>, Seq<char>)>,
    acc: SecretfileView,
)
    requires
        writable_entries(file, s),
        keys_sorted(if file { acc.files } else { acc.vars } + s),
    ensures
        parse_lines(entries_text(file, s) + rest, env, acc) == parse_lines(
            rest,
            env,
            if file {
                SecretfileView { vars: acc.vars, files: acc.files + s }
            } else {
                SecretfileView { vars: acc.vars + s, files: acc.files }
            },
        ),
    decreases s.len(),
{
    let part = if file { acc.files } else { acc.vars };
    if s.len() == 0 {
        assert(entries_text(file, s) + rest =~= rest);
        assert(acc.files + s =~= acc.files);
        assert(acc.vars + s =~= acc.vars);
    } else {
        let e = s[0];
        let tail = entries_text(file, s.drop_first()) + rest;
        assert(entries_text(file, s) + rest =~= entry_line(file, e.0, e.1) + seq!['\n'] + tail);
        lemma_one_line(file, e.0, e.1, tail, env, acc);
        let acc2 = add_entry(acc, file, e.0, e.1);
        assert forall|j: int| 0 <= j < part.len() implies seq_less(#[trigger] part[j].0, e.0) by {
            assert((part + s)[j] == part[j]);
            assert((part + s)[part.len() as int] == e);
        }
        lemma_sorted_insert_last(part, e.0, e.1);
        assert(part.push(e) + s.drop_first() =~= part + s);
        assert forall|i: int| 0 <= i < s.drop_first().len() implies writable_entry(file, #[trigger] s.drop_first()[i].0, s.drop_first()[i].1) by {
            assert(s.drop_first()[i] == s[i + 1]);
        }
        assert forall|a: int, b: int| 0 <= a < b < s.drop_first().len() implies seq_less(#[trigger] s.drop_first()[a].0, #[trigger] s.drop_first()[b].0) by {
            assert(s.drop_first()[a] == s[a + 1] && s.drop_first()[b] == s[b + 1]);
        }
        lemma_entries_text(file, s.drop_first(), rest, env, acc2);
        if file {
            assert(acc2.files + s.drop_first() =~= acc.files + s);
        } else {
            assert(acc2.vars + s.drop_first() =~= acc.vars + s);
        }
    }
}

/// Every character of an entry's line is neither a newline nor, at the
/// end, a carriage return.
proof fn lemma_entry_line_chars(file: bool, name: Seq<char>, loc: LocationView, k: int)
    requires
        writable_entry(file, name, loc),
        0 <= k < entry_line(file, name, loc).len(),
    ensures
        entry_line(file, name, loc)[k] != '\n',
        k == entry_line(file, name, loc).len() - 1 ==> !is_space(entry_line(file, name, loc)[k]),
{
    let head = if file {
        seq!['>'] + name
    } else {
        name
    };
    let t = location_text(loc);
    let l = entry_line(file, name, loc);
    assert(l == head + seq![' '] + t);
    let h = head.len() as int;
    if k < h {
        if file {
            if k > 0 {
                assert(l[k] == name[k - 1]);
            }
        } else {
            assert(l[k] == name[k]);
        }
    } else if k > h {
        assert(l[k] == t[k - h - 1]);
        match loc {
            LocationView::Path(p) => {},
            LocationView::PathWithKey(p, key) => {
                if k - h - 1 > p.len() {
                    assert(t[k - h - 1] == key[k - h - 1 - p.len() - 1]);
                }
            },
        }
    }
}

/// Writing a `Secretfile` whose entries can be written, and reading the
/// text back in any environment, gives the same entries.
pub proof fn lemma_round_trip(v: SecretfileView, env: Seq<(Seq<char>, Seq<char>)>)
    requires
        writable(v),
    ensures
        parse_text(serialize(v), env) == Ok::<SecretfileView, crate::secretfile::ParseFailure>(v),
{
    let files_text = entries_text(true, v.files);
    assert(Seq::<(Seq<char>, LocationView)>::empty() + v.vars =~= v.vars);
    lemma_entries_text(false, v.vars, files_text, env, no_entries());
    let mid = SecretfileView { vars: v.vars, files: Seq::empty() };
    assert(no_entries().vars + v.vars =~= v.vars);
    assert(Seq::<(Seq<char>, LocationView)>::empty() + v.files =~= v.files);
    lemma_entries_text(true, v.files, Seq::empty(), env, mid);
    assert(files_text + Seq::<char>::empty() =~= files_text);
    assert(mid.files + v.files =~= v.files);
}

/// The text of entries read in order: each line after the ones before.
pub proof fn lemma_entries_text_push(file: bool, s: Seq<(Seq<char>, LocationView)>, e: (Seq<char>, LocationView))
    ensures
        entries_text(file, s.push(e)) == entries_text(file, s) + entry_line(file, e.0, e.1) + seq!['\n'],
    decreases s.len(),
{
    if s.len() == 0 {
        assert(s.push(e).drop_first() =~= Seq::<(Seq<char>, LocationView)>::empty());
        assert(s.push(e)[0] == e);
        assert(entries_text(file, s.push(e).drop_first()) == Seq::<char>::empty());
        assert(entries_text(file, s) == Seq::<char>::empty());
        assert(entries_text(file, s.push(e)) =~= entries_text(file, s) + entry_line(file, e.0, e.1) + seq!['\n']);
    } else {
        assert(s.push(e).drop_first() =~= s.drop_first().push(e));
        assert(s.push(e)[0] == s[0]);
        lemma_entries_text_push(file, s.drop_first(), e);
        let l0 = entry_line(file, s[0].0, s[0].1) + seq!['\n'];
        assert(entries_text(file, s.push(e)) == l0 + entries_text(file, s.drop_first().push(e)));
        assert(entries_text(file, s) == l0 + entries_text(file, s.drop_first()));
        assert(entries_text(file, s.push(e)) =~= entries_text(file, s) + entry_line(file, e.0, e.1) + seq!['\n']);
    }
}

/// Reading a text, and reading again what its entries are written as,
/// gives the same entries, whenever they can be written.
pub proof fn lemma_text_round_trip(t: Seq<char>, env: Seq<(Seq<char>, Seq<char>)>)
    requires
        parse_text(t, env) is Ok,
        writable(parse_text(t, env)->Ok_0),
    ensures
        parse_text(serialize(parse_text(t, env)->Ok_0), env) == parse_text(t, env),
{
    lemma_round_trip(parse_text(t, env)->Ok_0, env);
}

/// The first line of `t` from `i` ends at the first newline, or at the end.
pub proof fn lemma_line_end_props(t: Seq<char>, i: int)
    requires
        0 <= i <= t.len(),
    ensures
        i <= line_end(t, i) <= t.len(),
        forall|k: int| i <= k < line_end(t, i) ==> #[trigger] t[k] != '\n',
        line_end(t, i) == t.len() || t[line_end(t, i)] == '\n',
    decreases t.len() - i,
{
    if i < t.len() && t[i] != '\n' {
        lemma_line_end_props(t, i + 1);
    }
}

/// Reading text made of whole lines and then more text reads the lines
/// first, and goes on with the entries they gave unless they failed.
pub proof fn lemma_parse_concat(p: Seq<char>, q: Seq<char>, env: Seq<(Seq<char>, Seq<char>)>, acc: SecretfileView)
    requires
        p.len() == 0 || p.last() == '\n',
    ensures
        parse_lines(p + q, env, acc) == match parse_lines(p, env, acc) {
            Ok(a) => parse_lines(q, env, a),
            Err(f) => Err::<SecretfileView, crate::secretfile::ParseFailure>(f),
        },
    decreases p.len(),
{
    if p.len() == 0 {
        assert(p + q =~= q);
    } else {
        let t = p + q;
        lemma_line_end_props(p, 0);
        let e = line_end(p, 0);
        if e == p.len() {
            assert(p[p.len() - 1] != '\n');
        }
        assert(e < p.len());
        assert(forall|k: int| 0 <= k < p.len() ==> #[trigger] t[k] == p[k]);
        lemma_line_end(t, 0, e);
        assert(t.subrange(0, e) =~= p.subrange(0, e));
        assert(first_line(t) == first_line(p));
        assert(after_first_line(t) =~= after_first_line(p) + q);
        let rest = after_first_line(p);
        assert(rest.len() == 0 || rest.last() == p.last());
        match parse_line(first_line(p), env) {
            LineParse::Blank => {
                lemma_parse_concat(rest, q, env, acc);
            },
            LineParse::Entry { file, name, loc } => {
                lemma_parse_concat(rest, q, env, add_entry(acc, file, name, loc));
            },
            LineParse::Failed(_) => {},
        }
    }
}

/// Reading stops at the first line that references an undefined variable
/// `v`, in its path or, for a file, in its file path, and fails naming `v`:
/// no entries are returned.
pub proof fn lemma_read_stops_at_undefined(
    before: Seq<char>,
    line: Seq<char>,
    after: Seq<char>,
    env: Seq<(Seq<char>, Seq<char>)>,
    v: Seq<char>,
)
    requires
        before.len() == 0 || before.last() == '\n',
        parse_text(before, env) is Ok,
        forall|k: int| 0 <= k < line.len() ==> #[trigger] line[k] != '\n',
        line.len() > 0 && line.last() != '\r',
        !is_blank(line),
        entry_shape(line),
        ({
            let path = raw_path(line.subrange(token_start(line), token_end(line)));
            let head = line.subrange(head_start(line), head_end(line));
            interp(path, env) == Err::<Seq<char>, Seq<char>>(v) || (is_file_line(line) && interp(path, env) is Ok
                && interp(head, env) == Err::<Seq<char>, Seq<char>>(v))
        }),
    ensures
        parse_text(before + line + seq!['\n'] + after, env) == Err::<SecretfileView, crate::secretfile::ParseFailure>(
            crate::secretfile::ParseFailure::Undefined(v),
        ),
{
    let t = line + seq!['\n'] + after;
    assert(before + line + seq!['\n'] + after =~= before + t);
    lemma_parse_concat(before, t, env, no_entries());
    assert(forall|k: int| 0 <= k < line.len() ==> #[trigger] t[k] == line[k]);
    assert(t[line.len() as int] == '\n');
    lemma_line_end(t, 0, line.len() as int);
    assert(t.subrange(0, line.len() as int) =~= line);
    assert(first_line(t) == line);
}

/// A line of a `Secretfile` text: a blank or comment line, or an entry.
pub enum TextLine {
    Quiet(Seq<char>),
    Entry(bool, Seq<char>, LocationView),
}

/// The characters of a line, without its newline.
pub open spec fn line_text(l: TextLine) -> Seq<char> {
    match l {
        TextLine::Quiet(q) => q,
        TextLine::Entry(file, name, loc) => entry_line(file, name, loc),
    }
}

/// The lines, each ended by a newline.
pub open spec fn lines_text(ls: Seq<TextLine>) -> Seq<char>
    decreases ls.len(),
{
    if ls.len() == 0 {
        Seq::empty()
    } else {
        lines_text(ls.drop_last()) + line_text(ls.last()) + seq!['\n']
    }
}

/// A line that reads back as itself: a blank or comment line without a
/// newline or a final carriage return, or a writable entry.
pub open spec fn readable_line(l: TextLine) -> bool {
    match l {
        TextLine::Quiet(q) => is_blank(q) && (forall|k: int| 0 <= k < q.len() ==> #[trigger] q[k] != '\n') && (
        q.len() == 0 || q.last() != '\r'),
        TextLine::Entry(file, name, loc) => writable_entry(file, name, loc),
    }
}

/// The location that the last entry of `ls` for `name` gives, of a file
/// when `file`, else of a variable.
pub open spec fn entry_value(ls: Seq<TextLine>, file: bool, name: Seq<char>) -> Option<LocationView>
    decreases ls.len(),
{
    if ls.len() == 0 {
        None
    } else {
        match ls.last() {
            TextLine::Entry(f, n, loc) => if f == file && n == name {
                Some(loc)
            } else {
                entry_value(ls.drop_last(), file, name)
            },
            TextLine::Quiet(_) => entry_value(ls.drop_last(), file, name),
        }
    }
}

/// Text made of entry lines in any order, among blank and comment lines,
/// reads as those entries: each name gives the location of its last
/// entry, and the tables hold those names and no others, in order.
pub proof fn lemma_lines_read_back(ls: Seq<TextLine>, env: Seq<(Seq<char>, Seq<char>)>)
    requires
        forall|i: int| 0 <= i < ls.len() ==> readable_line(#[trigger] ls[i]),
    ensures
        parse_text(lines_text(ls), env) is Ok,
        keys_sorted(parse_text(lines_text(ls), env)->Ok_0.vars),
        keys_sorted(parse_text(lines_text(ls), env)->Ok_0.files),
        forall|n: Seq<char>| #[trigger] lookup(parse_text(lines_text(ls), env)->Ok_0.vars, n) == entry_value(ls, false, n),
        forall|n: Seq<char>| #[trigger] lookup(parse_text(lines_text(ls), env)->Ok_0.files, n) == entry_value(ls, true, n),
    decreases ls.len(),
{
    if ls.len() == 0 {
        assert(parse_text(lines_text(ls), env) == Ok::<SecretfileView, crate::secretfile::ParseFailure>(no_entries()));
    } else {
        let prev = ls.drop_last();
        assert forall|i: int| 0 <= i < prev.len() implies readable_line(#[trigger] prev[i]) by {
            assert(prev[i] == ls[i]);
        }
        lemma_lines_read_back(prev, env);
        let p = lines_text(prev);
        let acc = parse_text(p, env)->Ok_0;
        let l = ls.last();
        assert(readable_line(ls[ls.len() - 1]));
        let q = line_text(l) + seq!['\n'];
        assert(lines_text(ls) == p + q);
        if prev.len() > 0 {
            assert(p.last() == '\n');
        }
        lemma_parse_concat(p, q, env, no_entries());
        match l {
            TextLine::Quiet(text) => {
                assert(q =~= text + seq!['\n'] + Seq::<char>::empty());
                assert(forall|k: int| 0 <= k < text.len() ==> #[trigger] q[k] == text[k]);
                lemma_line_end(q, 0, text.len() as int);
                assert(q.subrange(0, text.len() as int) =~= text);
                assert(first_line(q) == text);
                assert(after_first_line(q) =~= Seq::<char>::empty());
                assert(parse_line(text, env) == LineParse::Blank);
                assert(parse_lines(Seq::<char>::empty(), env, acc) == Ok::<SecretfileView, crate::secretfile::ParseFailure>(acc));
                assert(parse_lines(q, env, acc) == Ok::<SecretfileView, crate::secretfile::ParseFailure>(acc));
            },
            TextLine::Entry(file, name, loc) => {
                assert(q =~= entry_line(file, name, loc) + seq!['\n'] + Seq::<char>::empty());
                lemma_one_line(file, name, loc, Seq::empty(), env, acc);
                let next = add_entry(acc, file, name, loc);
                assert(parse_lines(q, env, acc) == Ok::<SecretfileView, crate::secretfile::ParseFailure>(next));
                if file {
                    lemma_sorted_insert_sorted(acc.files, name, loc);
                    lemma_sorted_insert_lookup(acc.files, name, loc);
                } else {
                    lemma_sorted_insert_sorted(acc.vars, name, loc);
                    lemma_sorted_insert_lookup(acc.vars, name, loc);
                }
            },
        }
    }
}

/// In a table read from such lines, each key is the name of an entry, and
/// holds its location.
pub proof fn lemma_read_keys_are_entries(ls: Seq<TextLine>, env: Seq<(Seq<char>, Seq<char>)>, file: bool, i: int)
    requires
        forall|j: int| 0 <= j < ls.len() ==> readable_line(#[trigger] ls[j]),
        0 <= i < (if file {
            parse_text(lines_text(ls), env)->Ok_0.files
        } else {
            parse_text(lines_text(ls), env)->Ok_0.vars
        }).len(),
    ensures
        ({
            let t = if file {
                parse_text(lines_text(ls), env)->Ok_0.files
            } else {
                parse_text(lines_text(ls), env)->Ok_0.vars
            };
            entry_value(ls, file, t[i].0) == Some(t[i].1)
        }),
{
    lemma_lines_read_back(ls, env);
    let v = parse_text(lines_text(ls), env)->Ok_0;
    if file {
        lemma_lookup_at(v.files, i);
    } else {
        lemma_lookup_at(v.vars, i);
    }
}

} // verus!
