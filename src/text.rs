//! Characters and strings: the classes the `Secretfile` grammar uses, and
//! the order in which keys are kept.

use vstd::prelude::*;
use vstd::string::*;
use core::cmp::Ordering;

verus! {

/// The Unicode `White_Space` property, the class that `\s` denotes and that
/// `str::trim` removes.
pub open spec fn is_space(c: char) -> bool {
    let u = c as int;
    (0x09 <= u && u <= 0x0D) || u == 0x20 || u == 0x85 || u == 0xA0 || u == 0x1680
        || (0x2000 <= u && u <= 0x200A) || u == 0x2028 || u == 0x2029 || u == 0x202F
        || u == 0x205F || u == 0x3000
}

/// First character of a name: `[a-zA-Z_]`.
pub open spec fn is_name_start(c: char) -> bool {
    let u = c as int;
    (0x61 <= u && u <= 0x7A) || (0x41 <= u && u <= 0x5A) || u == 0x5F
}

/// Any later character of a name: `[a-zA-Z0-9_]`.
pub open spec fn is_name_char(c: char) -> bool {
    is_name_start(c) || (0x30 <= c as int && c as int <= 0x39)
}

/// `c` is Unicode whitespace.
pub fn space_char(c: char) -> (r: bool)
    ensures
        r == is_space(c),
{
    let u = c as u32;
    (0x09 <= u && u <= 0x0D) || u == 0x20 || u == 0x85 || u == 0xA0 || u == 0x1680
        || (0x2000 <= u && u <= 0x200A) || u == 0x2028 || u == 0x2029 || u == 0x202F
        || u == 0x205F || u == 0x3000
}

/// `c` can start a name.
pub fn name_start_char(c: char) -> (r: bool)
    ensures
        r == is_name_start(c),
{
    let u = c as u32;
    (0x61 <= u && u <= 0x7A) || (0x41 <= u && u <= 0x5A) || u == 0x5F
}

/// `c` can continue a name.
pub fn name_char(c: char) -> (r: bool)
    ensures
        r == is_name_char(c),
{
    let u = c as u32;
    name_start_char(c) || (0x30 <= u && u <= 0x39)
}

/// The characters of `s`, one per element.
pub fn chars_of(s: &str) -> (r: Vec<char>)
    ensures
        r@ == s@,
{
    let n = s.unicode_len();
    let mut out: Vec<char> = Vec::new();
    let mut i: usize = 0;
    while i < n
        invariant
            n == s@.len(),
            i <= n,
            out@ == s@.subrange(0, i as int),
        decreases n - i,
    {
        out.push(s.get_char(i));
        i = i + 1;
    }
    out
}

/// The text of `s` from character `from` up to character `to`.
pub fn slice_of(s: &str, from: usize, to: usize) -> (r: String)
    requires
        from <= to <= s@.len(),
    ensures
        r@ == s@.subrange(from as int, to as int),
{
    s.substring_char(from, to).to_owned()
}

/// Lexicographic order on characters from position `i` on: the order of
/// `String`, since UTF-8 keeps the order of code points.
pub open spec fn less_from(a: Seq<char>, b: Seq<char>, i: int) -> bool
    decreases a.len() - i,
{
    if i < 0 || i >= a.len() {
        i >= 0 && i == a.len() && i < b.len()
    } else if i >= b.len() {
        false
    } else if a[i] != b[i] {
        (a[i] as u32) < (b[i] as u32)
    } else {
        less_from(a, b, i + 1)
    }
}

/// `a` comes strictly before `b`.
pub open spec fn seq_less(a: Seq<char>, b: Seq<char>) -> bool {
    less_from(a, b, 0)
}

/// Equal prefixes leave the comparison to what follows them.
proof fn lemma_less_from_prefix(a: Seq<char>, b: Seq<char>, i: int)
    requires
        0 <= i <= a.len(),
        i <= b.len(),
        a.subrange(0, i) == b.subrange(0, i),
    ensures
        less_from(a, b, 0) == less_from(a, b, i),
    decreases i,
{
    if i > 0 {
        assert(a.subrange(0, i - 1) == b.subrange(0, i - 1)) by {
            assert(a.subrange(0, i - 1) == a.subrange(0, i).subrange(0, i - 1));
            assert(b.subrange(0, i - 1) == b.subrange(0, i).subrange(0, i - 1));
        }
        assert(a[i - 1] == a.subrange(0, i)[i - 1]);
        assert(b[i - 1] == b.subrange(0, i)[i - 1]);
        lemma_less_from_prefix(a, b, i - 1);
    }
}

/// No text comes before itself, nor two texts each before the other.
proof fn lemma_less_from_irreflexive(a: Seq<char>, b: Seq<char>, i: int)
    requires
        0 <= i,
    ensures
        !(less_from(a, b, i) && less_from(b, a, i)),
        a.len() == b.len() && (forall|j: int| i <= j < a.len() ==> a[j] == b[j]) ==> !less_from(a, b, i),
    decreases a.len() - i,
{
    if i < a.len() && i < b.len() && a[i] == b[i] {
        lemma_less_from_irreflexive(a, b, i + 1);
    }
}

/// The order is transitive.
proof fn lemma_less_from_transitive(a: Seq<char>, b: Seq<char>, c: Seq<char>, i: int)
    requires
        0 <= i,
        less_from(a, b, i),
        less_from(b, c, i),
    ensures
        less_from(a, c, i),
    decreases a.len() - i,
{
    if i < a.len() && i < b.len() && i < c.len() && a[i] == b[i] && b[i] == c[i] {
        lemma_less_from_transitive(a, b, c, i + 1);
    }
}

/// Of two different texts, one comes first.
proof fn lemma_less_from_total(a: Seq<char>, b: Seq<char>, i: int)
    requires
        0 <= i <= a.len(),
        i <= b.len(),
        a.subrange(0, i) == b.subrange(0, i),
    ensures
        less_from(a, b, i) || less_from(b, a, i) || a == b,
    decreases a.len() - i,
{
    broadcast use vstd::utf8::char_u32_cast;

    if i < a.len() && i < b.len() && a[i] == b[i] {
        assert(a.subrange(0, i + 1) == a.subrange(0, i).push(a[i]));
        assert(b.subrange(0, i + 1) == b.subrange(0, i).push(b[i]));
        lemma_less_from_total(a, b, i + 1);
    } else if i < a.len() && i < b.len() {
        vstd::utf8::char_u32_cast(a[i], a[i] as u32);
        vstd::utf8::char_u32_cast(b[i], b[i] as u32);
    } else if i == a.len() && i == b.len() {
        assert(a == a.subrange(0, i));
        assert(b == b.subrange(0, i));
    }
}

/// The order on keys is a strict total order.
pub proof fn lemma_seq_less_order(a: Seq<char>, b: Seq<char>, c: Seq<char>)
    ensures
        !seq_less(a, a),
        !(seq_less(a, b) && seq_less(b, a)),
        seq_less(a, b) && seq_less(b, c) ==> seq_less(a, c),
        seq_less(a, b) || seq_less(b, a) || a == b,
{
    lemma_less_from_irreflexive(a, a, 0);
    lemma_less_from_irreflexive(a, b, 0);
    if seq_less(a, b) && seq_less(b, c) {
        lemma_less_from_transitive(a, b, c, 0);
    }
    assert(a.subrange(0, 0) == b.subrange(0, 0));
    lemma_less_from_total(a, b, 0);
}

/// Compares two texts in the order of `String`.
pub fn compare_str(a: &str, b: &str) -> (r: Ordering)
    ensures
        (r == Ordering::Less) == seq_less(a@, b@),
        (r == Ordering::Equal) == (a@ == b@),
        (r == Ordering::Greater) == seq_less(b@, a@),
{
    let x = chars_of(a);
    let y = chars_of(b);
    let mut i: usize = 0;
    proof {
        lemma_seq_less_order(a@, b@, a@);
    }
    while i < x.len() && i < y.len()
        invariant
            x@ == a@,
            y@ == b@,
            i <= x.len(),
            i <= y.len(),
            x@.subrange(0, i as int) == y@.subrange(0, i as int),
        decreases x.len() - i,
    {
        if x[i] != y[i] {
            proof {
                lemma_less_from_prefix(x@, y@, i as int);
                lemma_less_from_prefix(y@, x@, i as int);
            }
            proof {
                vstd::utf8::char_u32_cast(x@[i as int], x@[i as int] as u32);
                vstd::utf8::char_u32_cast(y@[i as int], y@[i as int] as u32);
            }
            if (x[i] as u32) < (y[i] as u32) {
                return Ordering::Less;
            } else {
                return Ordering::Greater;
            }
        }
        assert(x@.subrange(0, i + 1) == x@.subrange(0, i as int).push(x@[i as int]));
        assert(y@.subrange(0, i + 1) == y@.subrange(0, i as int).push(y@[i as int]));
        i = i + 1;
    }
    proof {
        lemma_less_from_prefix(x@, y@, i as int);
        lemma_less_from_prefix(y@, x@, i as int);
    }
    if x.len() == y.len() {
        assert(x@ == x@.subrange(0, i as int));
        assert(y@ == y@.subrange(0, i as int));
        Ordering::Equal
    } else if x.len() < y.len() {
        Ordering::Less
    } else {
        Ordering::Greater
    }
}

/// `a` comes strictly before `b` in the order of `String`.
pub fn str_less(a: &str, b: &str) -> (r: bool)
    ensures
        r == seq_less(a@, b@),
{
    matches!(compare_str(a, b), Ordering::Less)
}

/// `a` and `b` hold the same characters.
pub fn str_eq(a: &str, b: &str) -> (r: bool)
    ensures
        r == (a@ == b@),
{
    matches!(compare_str(a, b), Ordering::Equal)
}

} // verus!
