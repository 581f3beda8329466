//! Byte-level text primitives: white space, lines, tokens, prefixes.
//!
//! The inputs of this crate are line-oriented ASCII reports. Each primitive
//! has a mathematical definition over `Seq<u8>` and an executable function
//! that computes it on a slice.

use vstd::prelude::*;
use vstd::slice::slice_subrange;

verus! {

/// ASCII white space: space, tab, line feed, vertical tab, form feed,
/// carriage return.
pub open spec fn is_space(b: u8) -> bool {
    b == 32 || (9 <= b && b <= 13)
}

/// The index of the first occurrence of `b` in `s`, or the length of `s`
/// where there is none.
pub open spec fn first_index(s: Seq<u8>, b: u8) -> nat
    decreases s.len(),
{
    if s.len() == 0 || s[0] == b {
        0
    } else {
        1 + first_index(s.drop_first(), b)
    }
}

/// The index of the first white-space byte of `s`, or the length of `s`
/// where there is none.
pub open spec fn first_space(s: Seq<u8>) -> nat
    decreases s.len(),
{
    if s.len() == 0 || is_space(s[0]) {
        0
    } else {
        1 + first_space(s.drop_first())
    }
}

/// `s` without its leading white space.
pub open spec fn trim_start(s: Seq<u8>) -> Seq<u8>
    decreases s.len(),
{
    if s.len() > 0 && is_space(s[0]) {
        trim_start(s.drop_first())
    } else {
        s
    }
}

/// `s` without its trailing white space.
pub open spec fn trim_end(s: Seq<u8>) -> Seq<u8>
    decreases s.len(),
{
    if s.len() > 0 && is_space(s.last()) {
        trim_end(s.drop_last())
    } else {
        s
    }
}

/// `s` without its leading and trailing white space.
pub open spec fn trim(s: Seq<u8>) -> Seq<u8> {
    trim_end(trim_start(s))
}

/// The lines of a text, each trimmed. Lines end at a line feed; a line feed
/// at the very end of the text starts no further line.
pub open spec fn lines(s: Seq<u8>) -> Seq<Seq<u8>>
    decreases s.len(),
{
    if s.len() == 0 {
        Seq::empty()
    } else {
        let p = first_index(s, 10u8);
        if p < s.len() {
            seq![trim(s.subrange(0, p as int))] + lines(s.subrange(p as int + 1, s.len() as int))
        } else {
            seq![trim(s)]
        }
    }
}

/// The maximal runs of bytes of `s` that hold no white space, in order.
pub open spec fn tokens(s: Seq<u8>) -> Seq<Seq<u8>>
    decreases s.len(),
{
    if s.len() == 0 {
        Seq::empty()
    } else if is_space(s[0]) {
        tokens(s.drop_first())
    } else {
        let n = first_space(s);
        if n < s.len() {
            seq![s.subrange(0, n as int)] + tokens(s.subrange(n as int + 1, s.len() as int))
        } else {
            seq![s]
        }
    }
}

/// Whether `t` is a run of at least one byte without white space.
pub open spec fn is_token(t: Seq<u8>) -> bool {
    t.len() > 0 && forall|j: int| 0 <= j < t.len() ==> !is_space(#[trigger] t[j])
}

/// Whether `s` begins with `prefix`.
pub open spec fn has_prefix(s: Seq<u8>, prefix: Seq<u8>) -> bool {
    prefix.len() <= s.len() && s.subrange(0, prefix.len() as int) == prefix
}

/// The value of a `key: value` line: what follows the first colon, trimmed;
/// `None` where the line has no colon.
pub open spec fn value_after_colon(line: Seq<u8>) -> Option<Seq<u8>> {
    let p = first_index(line, 58u8);
    if p < line.len() {
        Some(trim(line.subrange(p as int + 1, line.len() as int)))
    } else {
        None
    }
}

/// The byte sequences behind a sequence of slices.
pub open spec fn views(v: Seq<&[u8]>) -> Seq<Seq<u8>> {
    Seq::new(v.len(), |i: int| v[i]@)
}

proof fn lemma_first_index(s: Seq<u8>, b: u8, k: int)
    requires
        0 <= k <= s.len(),
        forall|j: int| 0 <= j < k ==> s[j] != b,
        k < s.len() ==> s[k] == b,
    ensures
        first_index(s, b) == k,
    decreases s.len(),
{
    if s.len() == 0 || s[0] == b {
    } else {
        let t = s.drop_first();
        assert forall|j: int| 0 <= j < k - 1 implies t[j] != b by {
            assert(t[j] == s[j + 1]);
        }
        lemma_first_index(t, b, k - 1);
    }
}

proof fn lemma_first_space(s: Seq<u8>, k: int)
    requires
        0 <= k <= s.len(),
        forall|j: int| 0 <= j < k ==> !is_space(s[j]),
        k < s.len() ==> is_space(s[k]),
    ensures
        first_space(s) == k,
    decreases s.len(),
{
    if s.len() == 0 || is_space(s[0]) {
    } else {
        let t = s.drop_first();
        assert forall|j: int| 0 <= j < k - 1 implies !is_space(t[j]) by {
            assert(t[j] == s[j + 1]);
        }
        lemma_first_space(t, k - 1);
    }
}

/// `first_index` gives an index within the sequence or its length, no
/// earlier byte is `b`, and the byte at the index, if there is one, is `b`.
pub proof fn first_index_is_first(s: Seq<u8>, b: u8)
    ensures
        first_index(s, b) <= s.len(),
        forall|j: int| 0 <= j < first_index(s, b) ==> s[j] != b,
        first_index(s, b) < s.len() ==> s[first_index(s, b) as int] == b,
    decreases s.len(),
{
    if s.len() == 0 || s[0] == b {
    } else {
        let t = s.drop_first();
        first_index_is_first(t, b);
        assert forall|j: int| 0 <= j < first_index(s, b) implies s[j] != b by {
            if j > 0 {
                assert(s[j] == t[j - 1]);
            }
        }
        if first_index(t, b) < t.len() {
            assert(s[first_index(s, b) as int] == t[first_index(t, b) as int]);
        }
    }
}

/// `first_space` gives an index within the sequence or its length, no
/// earlier byte is white space, and the byte at the index, if there is one,
/// is white space.
pub proof fn first_space_is_first(s: Seq<u8>)
    ensures
        first_space(s) <= s.len(),
        forall|j: int| 0 <= j < first_space(s) ==> !is_space(s[j]),
        first_space(s) < s.len() ==> is_space(s[first_space(s) as int]),
    decreases s.len(),
{
    if s.len() == 0 || is_space(s[0]) {
    } else {
        let t = s.drop_first();
        first_space_is_first(t);
        assert forall|j: int| 0 <= j < first_space(s) implies !is_space(s[j]) by {
            if j > 0 {
                assert(s[j] == t[j - 1]);
            }
        }
        if first_space(t) < t.len() {
            assert(s[first_space(s) as int] == t[first_space(t) as int]);
        }
    }
}

/// What `trim_start` leaves does not begin with white space, and what
/// `trim_end` leaves does not end with it; neither adds a byte.
pub proof fn trim_leaves_no_margin(s: Seq<u8>)
    ensures
        trim_start(s).len() > 0 ==> !is_space(trim_start(s)[0]),
        trim_end(s).len() > 0 ==> !is_space(trim_end(s).last()),
        trim(s).len() > 0 ==> !is_space(trim(s)[0]) && !is_space(trim(s).last()),
        trim(s).len() <= s.len(),
{
    lemma_trim_start(s);
    lemma_trim_end(s);
    lemma_trim_end(trim_start(s));
}

proof fn lemma_trim_start(s: Seq<u8>)
    ensures
        trim_start(s).len() > 0 ==> !is_space(trim_start(s)[0]),
        trim_start(s).len() <= s.len(),
        trim_start(s) == s.subrange(s.len() - trim_start(s).len(), s.len() as int),
    decreases s.len(),
{
    if s.len() > 0 && is_space(s[0]) {
        let t = s.drop_first();
        lemma_trim_start(t);
        assert(t.subrange(t.len() - trim_start(t).len(), t.len() as int) =~= s.subrange(
            s.len() - trim_start(t).len(),
            s.len() as int,
        ));
    } else {
        assert(s.subrange(0, s.len() as int) =~= s);
    }
}

proof fn lemma_trim_end(s: Seq<u8>)
    ensures
        trim_end(s).len() > 0 ==> !is_space(trim_end(s).last()),
        trim_end(s).len() <= s.len(),
        trim_end(s) == s.subrange(0, trim_end(s).len() as int),
    decreases s.len(),
{
    if s.len() > 0 && is_space(s.last()) {
        let t = s.drop_last();
        lemma_trim_end(t);
        assert(t.subrange(0, trim_end(t).len() as int) =~= s.subrange(
            0,
            trim_end(t).len() as int,
        ));
    } else {
        assert(s.subrange(0, s.len() as int) =~= s);
    }
}

/// Every token holds at least one byte and no white space.
pub proof fn tokens_hold_no_space(s: Seq<u8>)
    ensures
        forall|i: int| 0 <= i < tokens(s).len() ==> is_token(#[trigger] tokens(s)[i]),
    decreases s.len(),
{
    if s.len() == 0 {
    } else if is_space(s[0]) {
        tokens_hold_no_space(s.drop_first());
        assert(tokens(s) == tokens(s.drop_first()));
    } else {
        let n = first_space(s);
        first_space_is_first(s);
        if n < s.len() {
            assert(tokens(s).len() == 1 + tokens(s.subrange(n as int + 1, s.len() as int)).len());
            let head = s.subrange(0, n as int);
            let rest = s.subrange(n as int + 1, s.len() as int);
            tokens_hold_no_space(rest);
            assert(is_token(head)) by {
                assert forall|j: int| 0 <= j < head.len() implies !is_space(#[trigger] head[j]) by {
                    assert(head[j] == s[j]);
                }
            }
            assert forall|i: int| 0 <= i < tokens(s).len() implies is_token(
                #[trigger] tokens(s)[i],
            ) by {
                if i == 0 {
                    assert(tokens(s)[0] == head);
                } else {
                    assert(tokens(s)[i] == tokens(rest)[i - 1]);
                }
            }
        } else {
            assert(tokens(s) == seq![s]);
            assert(is_token(s));
            assert forall|i: int| 0 <= i < tokens(s).len() implies is_token(
                #[trigger] tokens(s)[i],
            ) by {
                assert(tokens(s)[i] == s);
            }
        }
    }
}

/// Tells whether a byte is ASCII white space.
pub fn is_whitespace(b: u8) -> (r: bool)
    ensures
        r == is_space(b),
{
    b == 32 || (9 <= b && b <= 13)
}

/// Finds the first occurrence of `b`; returns the length where there is none.
pub fn find_byte(s: &[u8], b: u8) -> (k: usize)
    ensures
        k == first_index(s@, b),
        k <= s.len(),
        forall|j: int| 0 <= j < k ==> s@[j] != b,
        k < s.len() ==> s@[k as int] == b,
{
    let mut i: usize = 0;
    while i < s.len() && s[i] != b
        invariant
            i <= s.len(),
            forall|j: int| 0 <= j < i ==> s@[j] != b,
        decreases s.len() - i,
    {
        i += 1;
    }
    proof {
        lemma_first_index(s@, b, i as int);
    }
    i
}

/// Finds the first white-space byte; returns the length where there is none.
pub fn find_space(s: &[u8]) -> (k: usize)
    ensures
        k == first_space(s@),
        k <= s.len(),
        forall|j: int| 0 <= j < k ==> !is_space(s@[j]),
        k < s.len() ==> is_space(s@[k as int]),
{
    let mut i: usize = 0;
    while i < s.len() && !is_whitespace(s[i])
        invariant
            i <= s.len(),
            forall|j: int| 0 <= j < i ==> !is_space(s@[j]),
        decreases s.len() - i,
    {
        i += 1;
    }
    proof {
        lemma_first_space(s@, i as int);
    }
    i
}

/// Strips the white space at both ends of `s`.
pub fn trim_bytes<'a>(s: &'a [u8]) -> (r: &'a [u8])
    ensures
        r@ == trim(s@),
{
    let n: usize = s.len();
    let mut a: usize = 0;
    assert(s@.subrange(0, n as int) =~= s@);
    while a < n && is_whitespace(s[a])
        invariant
            n == s.len(),
            a <= n,
            trim_start(s@) == trim_start(s@.subrange(a as int, n as int)),
        decreases n - a,
    {
        proof {
            assert(s@.subrange(a as int, n as int).drop_first() =~= s@.subrange(
                a as int + 1,
                n as int,
            ));
        }
        a += 1;
    }
    assert(trim_start(s@) == s@.subrange(a as int, n as int));
    let mut b: usize = n;
    while b > a && is_whitespace(s[b - 1])
        invariant
            n == s.len(),
            a <= b <= n,
            trim(s@) == trim_end(s@.subrange(a as int, b as int)),
        decreases b - a,
    {
        proof {
            assert(s@.subrange(a as int, b as int).drop_last() =~= s@.subrange(
                a as int,
                b as int - 1,
            ));
        }
        b -= 1;
    }
    slice_subrange(s, a, b)
}

/// Splits a text into its trimmed lines.
pub fn split_lines<'a>(s: &'a [u8]) -> (out: Vec<&'a [u8]>)
    ensures
        views(out@) == lines(s@),
{
    let n: usize = s.len();
    let mut out: Vec<&'a [u8]> = Vec::new();
    let mut pos: usize = 0;
    assert(s@.subrange(0, n as int) =~= s@);
    assert(views(out@) =~= Seq::empty());
    while pos < n
        invariant
            n == s.len(),
            pos <= n,
            lines(s@) == views(out@) + lines(s@.subrange(pos as int, n as int)),
        decreases n - pos,
    {
        let rest = slice_subrange(s, pos, n);
        let p = find_byte(rest, 10u8);
        let line = trim_bytes(slice_subrange(rest, 0, p));
        let ghost before = views(out@);
        out.push(line);
        assert(views(out@) =~= before + seq![line@]);
        if p < rest.len() {
            proof {
                assert(rest@.subrange(p as int + 1, rest@.len() as int) =~= s@.subrange(
                    pos as int + p as int + 1,
                    n as int,
                ));
            }
            pos = pos + p + 1;
        } else {
            proof {
                assert(rest@.subrange(0, p as int) =~= rest@);
                assert(lines(s@.subrange(n as int, n as int)) =~= Seq::empty());
            }
            pos = n;
        }
    }
    assert(lines(s@.subrange(n as int, n as int)) =~= Seq::empty());
    out
}

/// Splits a line into its tokens.
pub fn split_tokens<'a>(s: &'a [u8]) -> (out: Vec<&'a [u8]>)
    ensures
        views(out@) == tokens(s@),
{
    let n: usize = s.len();
    let mut out: Vec<&'a [u8]> = Vec::new();
    let mut pos: usize = 0;
    assert(s@.subrange(0, n as int) =~= s@);
    assert(views(out@) =~= Seq::empty());
    while pos < n
        invariant
            n == s.len(),
            pos <= n,
            tokens(s@) == views(out@) + tokens(s@.subrange(pos as int, n as int)),
        decreases n - pos,
    {
        if is_whitespace(s[pos]) {
            proof {
                assert(s@.subrange(pos as int, n as int).drop_first() =~= s@.subrange(
                    pos as int + 1,
                    n as int,
                ));
            }
            pos += 1;
        } else {
            let rest = slice_subrange(s, pos, n);
            let k = find_space(rest);
            let token = slice_subrange(rest, 0, k);
            let ghost before = views(out@);
            out.push(token);
            assert(views(out@) =~= before + seq![token@]);
            if k < rest.len() {
                proof {
                    assert(rest@.subrange(k as int + 1, rest@.len() as int) =~= s@.subrange(
                        pos as int + k as int + 1,
                        n as int,
                    ));
                }
                pos = pos + k + 1;
            } else {
                proof {
                    assert(rest@.subrange(0, k as int) =~= rest@);
                    assert(tokens(s@.subrange(n as int, n as int)) =~= Seq::empty());
                }
                pos = n;
            }
        }
    }
    assert(tokens(s@.subrange(n as int, n as int)) =~= Seq::empty());
    out
}

/// Tells whether two byte strings are equal.
pub fn bytes_eq(a: &[u8], b: &[u8]) -> (r: bool)
    ensures
        r == (a@ == b@),
{
    if a.len() != b.len() {
        return false;
    }
    let mut i: usize = 0;
    while i < a.len()
        invariant
            a.len() == b.len(),
            i <= a.len(),
            forall|j: int| 0 <= j < i ==> a@[j] == b@[j],
        decreases a.len() - i,
    {
        if a[i] != b[i] {
            return false;
        }
        i += 1;
    }
    assert(a@ =~= b@);
    true
}

/// Tells whether `s` begins with `prefix`.
pub fn starts_with(s: &[u8], prefix: &[u8]) -> (r: bool)
    ensures
        r == has_prefix(s@, prefix@),
{
    if prefix.len() > s.len() {
        return false;
    }
    bytes_eq(slice_subrange(s, 0, prefix.len()), prefix)
}

/// Takes the value of a `key: value` line.
pub fn field_value<'a>(line: &'a [u8]) -> (r: Option<&'a [u8]>)
    ensures
        match r {
            Some(v) => value_after_colon(line@) == Some(v@),
            None => value_after_colon(line@) is None,
        },
{
    let p: usize = find_byte(line, 58u8);
    if p < line.len() {
        Some(trim_bytes(slice_subrange(line, p + 1, line.len())))
    } else {
        None
    }
}

} // verus!
