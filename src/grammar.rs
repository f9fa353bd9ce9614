//! The character-level grammar of a `Secretfile`: where runs of spaces,
//! words and names end, and the `$NAME` / `${NAME}` interpolation of
//! environment variables.

use vstd::prelude::*;
use vstd::string::*;
use crate::env::Environment;
use crate::errors::Error;
use crate::table::lookup;
use crate::text::{chars_of, is_name_char, is_name_start, is_space, name_char, name_start_char, slice_of, space_char};

verus! {

/// End of the run of spaces that starts at `i`.
pub open spec fn space_end(l: Seq<char>, i: int) -> int
    decreases l.len() - i,
{
    if 0 <= i < l.len() && is_space(l[i]) {
        space_end(l, i + 1)
    } else {
        i
    }
}

/// End of the run of non-space characters that starts at `i`.
pub open spec fn word_end(l: Seq<char>, i: int) -> int
    decreases l.len() - i,
{
    if 0 <= i < l.len() && !is_space(l[i]) {
        word_end(l, i + 1)
    } else {
        i
    }
}

/// End of the run of name characters (`[a-zA-Z0-9_]`) that starts at `i`.
pub open spec fn name_end(l: Seq<char>, i: int) -> int
    decreases l.len() - i,
{
    if 0 <= i < l.len() && is_name_char(l[i]) {
        name_end(l, i + 1)
    } else {
        i
    }
}

/// A run of spaces from `i` that stops at `j` ends there.
pub proof fn lemma_space_end(l: Seq<char>, i: int, j: int)
    requires
        0 <= i <= j <= l.len(),
        forall|k: int| i <= k < j ==> is_space(#[trigger] l[k]),
        j == l.len() || !is_space(l[j]),
    ensures
        space_end(l, i) == j,
    decreases j - i,
{
    if i < j {
        lemma_space_end(l, i + 1, j);
    }
}

/// A run of non-space characters from `i` that stops at `j` ends there.
pub proof fn lemma_word_end(l: Seq<char>, i: int, j: int)
    requires
        0 <= i <= j <= l.len(),
        forall|k: int| i <= k < j ==> !is_space(#[trigger] l[k]),
        j == l.len() || is_space(l[j]),
    ensures
        word_end(l, i) == j,
    decreases j - i,
{
    if i < j {
        lemma_word_end(l, i + 1, j);
    }
}

/// A run of name characters from `i` that stops at `j` ends there.
pub proof fn lemma_name_end(l: Seq<char>, i: int, j: int)
    requires
        0 <= i <= j <= l.len(),
        forall|k: int| i <= k < j ==> is_name_char(#[trigger] l[k]),
        j == l.len() || !is_name_char(l[j]),
    ensures
        name_end(l, i) == j,
    decreases j - i,
{
    if i < j {
        lemma_name_end(l, i + 1, j);
    }
}

/// Skips the spaces from `i` on.
pub fn skip_spaces(c: &Vec<char>, i: usize) -> (r: usize)
    requires
        i <= c@.len(),
    ensures
        r == space_end(c@, i as int),
        i <= r <= c@.len(),
        r == c@.len() || !is_space(c@[r as int]),
{
    let mut j = i;
    while j < c.len() && space_char(c[j])
        invariant
            i <= j <= c@.len(),
            space_end(c@, i as int) == space_end(c@, j as int),
        decreases c@.len() - j,
    {
        j = j + 1;
    }
    j
}

/// Skips the non-space characters from `i` on.
pub fn skip_word(c: &Vec<char>, i: usize) -> (r: usize)
    requires
        i <= c@.len(),
    ensures
        r == word_end(c@, i as int),
        i <= r <= c@.len(),
        r == c@.len() || is_space(c@[r as int]),
        forall|k: int| i <= k < r ==> !is_space(#[trigger] c@[k]),
{
    let mut j = i;
    while j < c.len() && !space_char(c[j])
        invariant
            i <= j <= c@.len(),
            word_end(c@, i as int) == word_end(c@, j as int),
            forall|k: int| i <= k < j ==> !is_space(#[trigger] c@[k]),
        decreases c@.len() - j,
    {
        j = j + 1;
    }
    j
}

/// Skips the name characters from `i` on.
pub fn skip_name(c: &Vec<char>, i: usize) -> (r: usize)
    requires
        i <= c@.len(),
    ensures
        r == name_end(c@, i as int),
        i <= r <= c@.len(),
{
    let mut j = i;
    while j < c.len() && name_char(c[j])
        invariant
            i <= j <= c@.len(),
            name_end(c@, i as int) == name_end(c@, j as int),
        decreases c@.len() - j,
    {
        j = j + 1;
    }
    j
}

/// A `$NAME` reference at `i`: where its name ends, or -1.
pub open spec fn plain_ref_end(s: Seq<char>, i: int) -> int {
    if 0 <= i && i + 1 < s.len() && s[i] == '$' && is_name_start(s[i + 1]) {
        name_end(s, i + 2)
    } else {
        -1
    }
}

/// A `${NAME}` reference at `i`: where its name ends (at the `}`), or -1.
pub open spec fn braced_ref_end(s: Seq<char>, i: int) -> int {
    if 0 <= i && i + 2 < s.len() && s[i] == '$' && s[i + 1] == '{' && is_name_start(s[i + 2])
        && name_end(s, i + 3) < s.len() && s[name_end(s, i + 3)] == '}' {
        name_end(s, i + 3)
    } else {
        -1
    }
}

/// The text that stands for a reference to `name`, put before the rest; an
/// undefined name is remembered unless the rest holds one already.
pub open spec fn substituted(
    value: Option<Seq<char>>,
    name: Seq<char>,
    rest: (Seq<char>, Option<Seq<char>>),
) -> (Seq<char>, Option<Seq<char>>) {
    match value {
        Some(v) => (v + rest.0, rest.1),
        None => (rest.0, if rest.1 is Some { rest.1 } else { Some(name) }),
    }
}

/// `s` from `i` on with each reference replaced by its value, and the last
/// undefined name referenced, if any.
pub open spec fn interp_from(s: Seq<char>, i: int, env: Seq<(Seq<char>, Seq<char>)>) -> (
    Seq<char>,
    Option<Seq<char>>,
)
    decreases s.len() - i,
{
    if i < 0 || i >= s.len() {
        (Seq::empty(), None)
    } else if i < plain_ref_end(s, i) <= s.len() {
        let e = plain_ref_end(s, i);
        substituted(lookup(env, s.subrange(i + 1, e)), s.subrange(i + 1, e), interp_from(s, e, env))
    } else if i < braced_ref_end(s, i) < s.len() {
        let e = braced_ref_end(s, i);
        substituted(
            lookup(env, s.subrange(i + 2, e)),
            s.subrange(i + 2, e),
            interp_from(s, e + 1, env),
        )
    } else {
        let rest = interp_from(s, i + 1, env);
        (seq![s[i]] + rest.0, rest.1)
    }
}

/// Interpolation of `s` in `env`: the text, or the undefined name that
/// stops it.
pub open spec fn interp(s: Seq<char>, env: Seq<(Seq<char>, Seq<char>)>) -> Result<Seq<char>, Seq<char>> {
    let r = interp_from(s, 0, env);
    if r.1 is Some {
        Err(r.1->0)
    } else {
        Ok(r.0)
    }
}

/// The text of an optional string.
pub open spec fn opt_view(o: Option<String>) -> Option<Seq<char>> {
    match o {
        Some(s) => Some(s@),
        None => None,
    }
}

/// Text without `$` is left as it is.
pub proof fn lemma_interp_plain(s: Seq<char>, i: int, env: Seq<(Seq<char>, Seq<char>)>)
    requires
        0 <= i <= s.len(),
        forall|k: int| 0 <= k < s.len() ==> #[trigger] s[k] != '$',
    ensures
        interp_from(s, i, env) == (s.subrange(i, s.len() as int), None::<Seq<char>>),
    decreases s.len() - i,
{
    if i < s.len() {
        lemma_interp_plain(s, i + 1, env);
        assert(s.subrange(i, s.len() as int) == seq![s[i]] + s.subrange(i + 1, s.len() as int));
    } else {
        assert(s.subrange(i, s.len() as int) == Seq::<char>::empty());
    }
}

/// Replaces each `$NAME` and `${NAME}` in `text` with the value of the
/// variable in `env`. When a referenced variable is undefined nothing is
/// returned but the error, which names the last such variable.
pub fn interpolate_env(text: &str, env: &Environment) -> (r: Result<String, Error>)
    ensures
        match interp(text@, env@) {
            Ok(t) => r is Ok && r->Ok_0@ == t,
            Err(n) => r matches Err(Error::UndefinedEnvironmentVariable { name }) && name@ == n,
        },
{
    let c = chars_of(text);
    let n = c.len();
    let mut out = String::new();
    let mut undefined: Option<String> = None;
    let mut i: usize = 0;
    let ghost s = c@;
    while i < n
        invariant
            s == c@,
            s == text@,
            n == s.len(),
            i <= n,
            interp_from(s, 0, env@) == (out@ + interp_from(s, i as int, env@).0, if interp_from(
                s,
                i as int,
                env@,
            ).1 is Some {
                interp_from(s, i as int, env@).1
            } else {
                opt_view(undefined)
            }),
        decreases n - i,
    {
        let mut reference: Option<(usize, usize, usize)> = None;
        if c[i] == '$' && i + 1 < n && name_start_char(c[i + 1]) {
            let e = skip_name(&c, i + 2);
            reference = Some((i + 1, e, e));
        } else if c[i] == '$' && i + 1 < n && c[i + 1] == '{' && i + 2 < n && name_start_char(c[i + 2]) {
            let e = skip_name(&c, i + 3);
            if e < n && c[e] == '}' {
                reference = Some((i + 2, e, e + 1));
            }
        }
        match reference {
            Some((from, to, next)) => {
                let name = slice_of(text, from, to);
                assert(name@ == s.subrange(from as int, to as int));
                match env.get(name.as_str()) {
                    Some(v) => {
                        let ghost before = out@;
                        out.append(v.as_str());
                        assert(out@ + interp_from(s, next as int, env@).0 =~= before + (v@
                            + interp_from(s, next as int, env@).0));
                    },
                    None => {
                        undefined = Some(name);
                    },
                }
                i = next;
            },
            None => {
                let piece = slice_of(text, i, i + 1);
                assert(piece@ =~= seq![s[i as int]]);
                let ghost before = out@;
                out.append(piece.as_str());
                assert(out@ + interp_from(s, i + 1, env@).0 =~= before + (seq![s[i as int]]
                    + interp_from(s, i + 1, env@).0));
                i = i + 1;
            },
        }
    }
    match undefined {
        Some(name) => Err(Error::UndefinedEnvironmentVariable { name }),
        None => Ok(out),
    }
}

/// Where the run of spaces that ends at `j` starts.
pub open spec fn space_start(l: Seq<char>, j: int) -> int
    decreases j,
{
    if 0 < j <= l.len() && is_space(l[j - 1]) {
        space_start(l, j - 1)
    } else {
        j
    }
}

/// `s` without the spaces at its start and end.
pub open spec fn trimmed(s: Seq<char>) -> Seq<char> {
    let a = space_end(s, 0);
    if a == s.len() {
        Seq::empty()
    } else {
        s.subrange(a, space_start(s, s.len() as int))
    }
}

/// `s` without the Unicode whitespace at its start and end.
pub fn trim(s: &str) -> (r: String)
    ensures
        r@ == trimmed(s@),
{
    let c = chars_of(s);
    let n = c.len();
    let a = skip_spaces(&c, 0);
    if a == n {
        return String::new();
    }
    let mut b = n;
    while b > a && space_char(c[b - 1])
        invariant
            a < n,
            n == c@.len(),
            a < b <= n,
            !is_space(c@[a as int]),
            space_start(c@, n as int) == space_start(c@, b as int),
        decreases b,
    {
        b = b - 1;
    }
    slice_of(s, a, b)
}

/// Characters without `$` are copied as they are.
pub proof fn lemma_interp_literal(s: Seq<char>, i: int, j: int, env: Seq<(Seq<char>, Seq<char>)>)
    requires
        0 <= i <= j <= s.len(),
        forall|k: int| i <= k < j ==> #[trigger] s[k] != '$',
    ensures
        interp_from(s, i, env) == (s.subrange(i, j) + interp_from(s, j, env).0, interp_from(s, j, env).1),
    decreases j - i,
{
    if i < j {
        lemma_interp_literal(s, i + 1, j, env);
        assert(s.subrange(i, j) =~= seq![s[i]] + s.subrange(i + 1, j));
    } else {
        assert(s.subrange(i, j) =~= Seq::<char>::empty());
    }
}

/// The name that a failed interpolation reports is one that `env` does not
/// define.
pub proof fn lemma_undefined_is_undefined(s: Seq<char>, i: int, env: Seq<(Seq<char>, Seq<char>)>)
    ensures
        interp_from(s, i, env).1 matches Some(n) ==> lookup(env, n) is None,
    decreases s.len() - i,
{
    if 0 <= i < s.len() {
        if i < plain_ref_end(s, i) <= s.len() {
            lemma_undefined_is_undefined(s, plain_ref_end(s, i), env);
        } else if i < braced_ref_end(s, i) < s.len() {
            lemma_undefined_is_undefined(s, braced_ref_end(s, i) + 1, env);
        } else {
            lemma_undefined_is_undefined(s, i + 1, env);
        }
    }
}

/// Interpolating text with one `$NAME` reference: the value of the
/// variable takes its place, or, when it is undefined, interpolation fails
/// naming it, and no text is produced.
pub proof fn lemma_one_reference(
    before: Seq<char>,
    name: Seq<char>,
    after: Seq<char>,
    env: Seq<(Seq<char>, Seq<char>)>,
)
    requires
        name.len() > 0,
        is_name_start(name[0]),
        forall|k: int| 0 <= k < name.len() ==> is_name_char(#[trigger] name[k]),
        forall|k: int| 0 <= k < before.len() ==> #[trigger] before[k] != '$',
        forall|k: int| 0 <= k < after.len() ==> #[trigger] after[k] != '$',
        after.len() == 0 || !is_name_char(after[0]),
    ensures
        interp(before + seq!['$'] + name + after, env) == match lookup(env, name) {
            Some(v) => Ok(before + v + after),
            None => Err::<Seq<char>, Seq<char>>(name),
        },
{
    let s = before + seq!['$'] + name + after;
    let b = before.len() as int;
    let e = b + 1 + name.len();
    assert(forall|k: int| 0 <= k < b ==> #[trigger] s[k] == before[k]);
    assert(s[b] == '$');
    assert(forall|k: int| 0 <= k < name.len() ==> #[trigger] s[b + 1 + k] == name[k]);
    assert(forall|k: int| 0 <= k < after.len() ==> #[trigger] s[e + k] == after[k]);
    lemma_interp_literal(s, 0, b, env);
    assert forall|k: int| b + 2 <= k < e implies is_name_char(#[trigger] s[k]) by {
        assert(s[k] == name[k - b - 1]);
    }
    if e < s.len() {
        assert(s[e] == after[0]);
    }
    lemma_name_end(s, b + 2, e);
    assert(plain_ref_end(s, b) == e);
    assert(s.subrange(b + 1, e) =~= name);
    assert forall|k: int| e <= k < s.len() implies #[trigger] s[k] != '$' by {
        assert(s[k] == after[k - e]);
    }
    lemma_interp_literal(s, e, s.len() as int, env);
    assert(s.subrange(e, s.len() as int) =~= after);
    assert(s.subrange(0, b) =~= before);
    assert(interp_from(s, s.len() as int, env) == (Seq::<char>::empty(), None::<Seq<char>>));
    match lookup(env, name) {
        Some(v) => {
            assert(before + (v + (after + Seq::<char>::empty())) =~= before + v + after);
        },
        None => {},
    }
}

/// The names that the references in `s` from `i` on name, in order.
pub open spec fn refs_from(s: Seq<char>, i: int) -> Seq<Seq<char>>
    decreases s.len() - i,
{
    if i < 0 || i >= s.len() {
        Seq::empty()
    } else if i < plain_ref_end(s, i) <= s.len() {
        let e = plain_ref_end(s, i);
        seq![s.subrange(i + 1, e)] + refs_from(s, e)
    } else if i < braced_ref_end(s, i) < s.len() {
        let e = braced_ref_end(s, i);
        seq![s.subrange(i + 2, e)] + refs_from(s, e + 1)
    } else {
        refs_from(s, i + 1)
    }
}

/// The last of `names` that `env` does not define.
pub open spec fn last_undefined(names: Seq<Seq<char>>, env: Seq<(Seq<char>, Seq<char>)>) -> Option<Seq<char>>
    decreases names.len(),
{
    if names.len() == 0 {
        None
    } else if lookup(env, names.last()) is None {
        Some(names.last())
    } else {
        last_undefined(names.drop_last(), env)
    }
}

proof fn lemma_last_undefined_front(n: Seq<char>, rest: Seq<Seq<char>>, env: Seq<(Seq<char>, Seq<char>)>)
    ensures
        last_undefined(seq![n] + rest, env) == if last_undefined(rest, env) is Some {
            last_undefined(rest, env)
        } else if lookup(env, n) is None {
            Some(n)
        } else {
            None
        },
    decreases rest.len(),
{
    let all = seq![n] + rest;
    if rest.len() == 0 {
        assert(all.drop_last() =~= Seq::<Seq<char>>::empty());
    } else {
        assert(all.last() == rest.last());
        assert(all.drop_last() =~= seq![n] + rest.drop_last());
        lemma_last_undefined_front(n, rest.drop_last(), env);
    }
}

/// Interpolation fails exactly when a reference names an undefined
/// variable, and then names the last such one.
pub proof fn lemma_interp_names(s: Seq<char>, i: int, env: Seq<(Seq<char>, Seq<char>)>)
    ensures
        interp_from(s, i, env).1 == last_undefined(refs_from(s, i), env),
    decreases s.len() - i,
{
    if 0 <= i < s.len() {
        if i < plain_ref_end(s, i) <= s.len() {
            let e = plain_ref_end(s, i);
            lemma_interp_names(s, e, env);
            lemma_last_undefined_front(s.subrange(i + 1, e), refs_from(s, e), env);
        } else if i < braced_ref_end(s, i) < s.len() {
            let e = braced_ref_end(s, i);
            lemma_interp_names(s, e + 1, env);
            lemma_last_undefined_front(s.subrange(i + 2, e), refs_from(s, e + 1), env);
        } else {
            lemma_interp_names(s, i + 1, env);
        }
    }
}

proof fn lemma_only_undefined_found(names: Seq<Seq<char>>, env: Seq<(Seq<char>, Seq<char>)>, v: Seq<char>)
    requires
        names.contains(v),
        lookup(env, v) is None,
        forall|k: int| 0 <= k < names.len() && names[k] != v ==> lookup(env, #[trigger] names[k]) is Some,
    ensures
        last_undefined(names, env) == Some(v),
    decreases names.len(),
{
    if names.last() != v {
        let k = choose|k: int| 0 <= k < names.len() && names[k] == v;
        assert(names.drop_last()[k] == v);
        assert forall|j: int| 0 <= j < names.drop_last().len() && names.drop_last()[j] != v implies lookup(env, #[trigger] names.drop_last()[j]) is Some by {
            assert(names.drop_last()[j] == names[j]);
        }
        lemma_only_undefined_found(names.drop_last(), env, v);
    }
}

/// Text that references an undefined variable `v`, as `$v` or `${v}`, and
/// no other undefined variable, fails to interpolate naming `v`, and gives
/// no text at all.
pub proof fn lemma_only_undefined(s: Seq<char>, env: Seq<(Seq<char>, Seq<char>)>, v: Seq<char>)
    requires
        refs_from(s, 0).contains(v),
        lookup(env, v) is None,
        forall|k: int| 0 <= k < refs_from(s, 0).len() && refs_from(s, 0)[k] != v ==> lookup(env, #[trigger] refs_from(s, 0)[k]) is Some,
    ensures
        interp(s, env) == Err::<Seq<char>, Seq<char>>(v),
{
    lemma_interp_names(s, 0, env);
    lemma_only_undefined_found(refs_from(s, 0), env, v);
}

} // verus!
