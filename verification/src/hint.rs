//! Where to point when a `;` is missing.
//!
//! A parser notices a missing `;` only at the token after the gap, which may
//! stand lines below it. The place to point at is the last character of code
//! before the failure: trailing whitespace is skipped, then a `//` comment on
//! the last line and a `/* ... */` comment that the text ends with, again and
//! again until nothing more goes.
use crate::lexer::{chars_of, is_offset_table, offsets};
use crate::ast::Span;
use vstd::prelude::*;
use vstd::utf8::encode_utf8;

verus! {

broadcast use vstd::seq::group_seq_axioms;

/// The characters that `str::trim_end` removes: those with the Unicode
/// `White_Space` property.
pub open spec fn is_white(c: char) -> bool {
    ||| c == '\t' || c == '\n' || c == '\u{b}' || c == '\u{c}' || c == '\r' || c == ' '
    ||| c == '\u{85}' || c == '\u{a0}' || c == '\u{1680}'
    ||| ('\u{2000}' <= c && c <= '\u{200a}')
    ||| c == '\u{2028}' || c == '\u{2029}' || c == '\u{202f}' || c == '\u{205f}' || c == '\u{3000}'
}

/// A text without its trailing whitespace.
pub open spec fn trim_end(x: Seq<char>) -> Seq<char>
    decreases x.len(),
{
    if x.len() > 0 && is_white(x.last()) {
        trim_end(x.drop_last())
    } else {
        x
    }
}

/// The index of the last occurrence of the two characters `a b` in `x`.
pub open spec fn last_pair(x: Seq<char>, a: char, b: char) -> Option<int>
    decreases x.len(),
{
    if x.len() < 2 {
        None
    } else if x[x.len() - 2] == a && x[x.len() - 1] == b {
        Some(x.len() - 2)
    } else {
        last_pair(x.drop_last(), a, b)
    }
}

/// `x` without a `//` comment on its last line.
pub open spec fn strip_line_comment(x: Seq<char>) -> Seq<char> {
    match last_pair(x, '/', '/') {
        Some(i) => if !x.subrange(i, x.len() as int).contains('\n') {
            trim_end(x.take(i))
        } else {
            x
        },
        None => x,
    }
}

/// `x` without the `/* ... */` comment it ends with.
pub open spec fn strip_block_comment(x: Seq<char>) -> Seq<char> {
    if x.len() >= 2 && x[x.len() - 2] == '*' && x[x.len() - 1] == '/' {
        match last_pair(x, '/', '*') {
            Some(i) => trim_end(x.take(i)),
            None => x,
        }
    } else {
        x
    }
}

/// One round of skipping: whitespace, then a line comment, then a block comment.
pub open spec fn strip_round(x: Seq<char>) -> Seq<char> {
    strip_block_comment(strip_line_comment(trim_end(x)))
}

/// `x` after rounds of skipping until a round changes nothing.
pub open spec fn strip_trailing(x: Seq<char>) -> Seq<char>
    decreases x.len(),
{
    let y = strip_round(x);
    if y.len() < x.len() {
        strip_trailing(y)
    } else {
        y
    }
}

/// The character index whose byte offset is `pos`.
pub open spec fn char_index_of(s: Seq<char>, pos: usize) -> int {
    choose|i: int| 0 <= i <= s.len() && encode_utf8(s.take(i)).len() == pos
}

/// The bytes of the last character of code before byte offset `pos`, if any.
pub open spec fn semicolon_anchor_spec(s: Seq<char>, pos: usize) -> Option<Span> {
    let x = strip_trailing(s.take(char_index_of(s, pos)));
    if x.len() == 0 {
        None
    } else {
        Some(
            (encode_utf8(s.take(x.len() - 1)).len() as usize)..(encode_utf8(s.take(x.len() as int)).len() as usize),
        )
    }
}

// ---------------------------------------------------------------------------
// The prefixes reached are prefixes of the text
// ---------------------------------------------------------------------------

proof fn lemma_trim_end(x: Seq<char>)
    ensures
        trim_end(x) == x.take(trim_end(x).len() as int),
        trim_end(x).len() <= x.len(),
    decreases x.len(),
{
    if x.len() > 0 && is_white(x.last()) {
        lemma_trim_end(x.drop_last());
        assert(x.drop_last().take(trim_end(x).len() as int) =~= x.take(trim_end(x).len() as int));
    } else {
        assert(x.take(x.len() as int) =~= x);
    }
}

proof fn lemma_last_pair(x: Seq<char>, a: char, b: char)
    ensures
        last_pair(x, a, b) matches Some(i) ==> 0 <= i && i + 2 <= x.len() && x[i] == a && x[i + 1] == b,
    decreases x.len(),
{
    if x.len() >= 2 && !(x[x.len() - 2] == a && x[x.len() - 1] == b) {
        lemma_last_pair(x.drop_last(), a, b);
    }
}

proof fn lemma_take_take(x: Seq<char>, i: int, j: int)
    requires
        0 <= j <= i <= x.len(),
    ensures
        x.take(i).take(j) == x.take(j),
{
    assert(x.take(i).take(j) =~= x.take(j));
}

proof fn lemma_strip_round(x: Seq<char>)
    ensures
        strip_round(x) == x.take(strip_round(x).len() as int),
        strip_round(x).len() <= x.len(),
{
    lemma_trim_end(x);
    let a = trim_end(x);
    lemma_last_pair(a, '/', '/');
    let b = strip_line_comment(a);
    match last_pair(a, '/', '/') {
        Some(i) => if !a.subrange(i, a.len() as int).contains('\n') {
            lemma_trim_end(a.take(i));
            lemma_take_take(x, a.len() as int, i);
            lemma_take_take(a.take(i), i, trim_end(a.take(i)).len() as int);
            lemma_take_take(x, i, trim_end(a.take(i)).len() as int);
        },
        None => {},
    }
    assert(b == x.take(b.len() as int));
    lemma_last_pair(b, '/', '*');
    if b.len() >= 2 && b[b.len() - 2] == '*' && b[b.len() - 1] == '/' {
        match last_pair(b, '/', '*') {
            Some(i) => {
                lemma_trim_end(b.take(i));
                lemma_take_take(x, b.len() as int, i);
                lemma_take_take(b.take(i), i, trim_end(b.take(i)).len() as int);
                lemma_take_take(x, i, trim_end(b.take(i)).len() as int);
            },
            None => {},
        }
    }
}

proof fn lemma_strip_trailing(x: Seq<char>)
    ensures
        strip_trailing(x) == x.take(strip_trailing(x).len() as int),
        strip_trailing(x).len() <= x.len(),
    decreases x.len(),
{
    lemma_strip_round(x);
    let y = strip_round(x);
    if y.len() < x.len() {
        lemma_strip_trailing(y);
        lemma_take_take(x, y.len() as int, strip_trailing(y).len() as int);
    }
}

// ---------------------------------------------------------------------------
// Computing on the end index of a prefix of the text
// ---------------------------------------------------------------------------

fn white(c: char) -> (r: bool)
    ensures
        r == is_white(c),
{
    c == '\t' || c == '\n' || c == '\u{b}' || c == '\u{c}' || c == '\r' || c == ' ' || c == '\u{85}' || c
        == '\u{a0}' || c == '\u{1680}' || ('\u{2000}' <= c && c <= '\u{200a}') || c == '\u{2028}' || c
        == '\u{2029}' || c == '\u{202f}' || c == '\u{205f}' || c == '\u{3000}'
}

/// The end of `s[..e]` without its trailing whitespace.
fn trim_end_at(s: &Vec<char>, e: usize) -> (r: usize)
    requires
        e <= s@.len(),
    ensures
        s@.take(r as int) == trim_end(s@.take(e as int)),
        r <= e,
{
    let mut k = e;
    while k > 0 && white(s[k - 1])
        invariant
            k <= e <= s@.len(),
            trim_end(s@.take(k as int)) == trim_end(s@.take(e as int)),
        decreases k,
    {
        assert(s@.take(k as int).drop_last() =~= s@.take(k - 1));
        k = k - 1;
    }
    assert(trim_end(s@.take(k as int)) == s@.take(k as int));
    k
}

/// The start of the last `a b` in `s[..e]`.
fn last_pair_at(s: &Vec<char>, e: usize, a: char, b: char) -> (r: Option<usize>)
    requires
        e <= s@.len(),
    ensures
        match r {
            Some(i) => last_pair(s@.take(e as int), a, b) == Some(i as int),
            None => last_pair(s@.take(e as int), a, b) is None,
        },
{
    let mut k = e;
    while k >= 2
        invariant
            k <= e <= s@.len(),
            last_pair(s@.take(e as int), a, b) == last_pair(s@.take(k as int), a, b),
        decreases k,
    {
        if s[k - 2] == a && s[k - 1] == b {
            return Some(k - 2);
        }
        assert(s@.take(k as int).drop_last() =~= s@.take(k - 1));
        k = k - 1;
    }
    None
}

/// Whether `s[i..e]` holds a newline.
fn has_newline(s: &Vec<char>, i: usize, e: usize) -> (r: bool)
    requires
        i <= e <= s@.len(),
    ensures
        r == s@.take(e as int).subrange(i as int, e as int).contains('\n'),
{
    let ghost x = s@.take(e as int).subrange(i as int, e as int);
    let mut k = i;
    while k < e
        invariant
            i <= k <= e <= s@.len(),
            x == s@.take(e as int).subrange(i as int, e as int),
            forall|j: int| 0 <= j < k - i ==> x[j] != '\n',
        decreases e - k,
    {
        if s[k] == '\n' {
            assert(x[k - i] == '\n');
            return true;
        }
        k = k + 1;
    }
    false
}

fn strip_line_at(s: &Vec<char>, e: usize) -> (r: usize)
    requires
        e <= s@.len(),
    ensures
        s@.take(r as int) == strip_line_comment(s@.take(e as int)),
        r <= e,
{
    match last_pair_at(s, e, '/', '/') {
        Some(i) => {
            proof {
                lemma_last_pair(s@.take(e as int), '/', '/');
            }
            if !has_newline(s, i, e) {
                let r = trim_end_at(s, i);
                proof {
                    lemma_take_take(s@, e as int, i as int);
                }
                r
            } else {
                e
            }
        },
        None => e,
    }
}

fn strip_block_at(s: &Vec<char>, e: usize) -> (r: usize)
    requires
        e <= s@.len(),
    ensures
        s@.take(r as int) == strip_block_comment(s@.take(e as int)),
        r <= e,
{
    if e >= 2 && s[e - 2] == '*' && s[e - 1] == '/' {
        match last_pair_at(s, e, '/', '*') {
            Some(i) => {
                proof {
                    lemma_last_pair(s@.take(e as int), '/', '*');
                    lemma_take_take(s@, e as int, i as int);
                }
                trim_end_at(s, i)
            },
            None => e,
        }
    } else {
        e
    }
}

fn strip_round_at(s: &Vec<char>, e: usize) -> (r: usize)
    requires
        e <= s@.len(),
    ensures
        s@.take(r as int) == strip_round(s@.take(e as int)),
        r <= e,
{
    let e1 = trim_end_at(s, e);
    let e2 = strip_line_at(s, e1);
    strip_block_at(s, e2)
}

/// The byte offset of a character index.
fn byte_offset(offs: &Vec<usize>, s: &Vec<char>, i: usize) -> (r: usize)
    requires
        is_offset_table(s@, offs@),
        i <= s@.len(),
    ensures
        r == encode_utf8(s@.take(i as int)).len(),
{
    offs[i]
}

/// The bytes of the last character of code before byte offset `pos` of
/// `source`, skipping whitespace and comments, if there is such a character.
pub fn semicolon_anchor(source: &str, pos: usize) -> (r: Option<Span>)
    requires
        exists|i: int| 0 <= i <= source@.len() && encode_utf8(source@.take(i)).len() == pos,
    ensures
        r == semicolon_anchor_spec(source@, pos),
{
    let nbytes = source.as_bytes().len();
    let s = chars_of(source);
    let offs = offsets(&s, nbytes);
    let ghost k0 = char_index_of(s@, pos);
    let n = s.len();
    let mut k: usize = 0;
    proof {
        lemma_offsets_increase(s@, offs@);
        assert(0 <= k0 <= s@.len() && encode_utf8(s@.take(k0)).len() == pos);
        assert(offs@[k0] == pos);
    }
    while offs[k] != pos
        invariant
            k <= k0 <= s@.len(),
            s@.len() == n,
            is_offset_table(s@, offs@),
            encode_utf8(s@.take(k0)).len() == pos,
            offs@[k0] == pos,
            forall|a: int, b: int| 0 <= a < b <= s@.len() ==> offs@[a] < offs@[b],
        decreases k0 - k,
    {
        k = k + 1;
    }
    assert(k == k0) by {
        if k < k0 {
            assert(offs@[k as int] < offs@[k0]);
        }
    }
    let mut e = k;
    let mut next = strip_round_at(&s, e);
    while next < e
        invariant
            next <= e <= k <= s@.len(),
            strip_trailing(s@.take(k as int)) == strip_trailing(s@.take(e as int)),
            s@.take(next as int) == strip_round(s@.take(e as int)),
        decreases e,
    {
        e = next;
        next = strip_round_at(&s, e);
    }
    let e_final = next;
    assert(s@.take(e_final as int) == strip_trailing(s@.take(k as int)));
    if e_final == 0 {
        None
    } else {
        Some(byte_offset(&offs, &s, e_final - 1)..byte_offset(&offs, &s, e_final))
    }
}

proof fn lemma_offsets_increase(s: Seq<char>, offs: Seq<usize>)
    requires
        is_offset_table(s, offs),
    ensures
        forall|a: int, b: int| 0 <= a < b <= s.len() ==> offs[a] < offs[b],
{
    assert forall|a: int, b: int| 0 <= a < b <= s.len() implies offs[a] < offs[b] by {
        crate::lexer::lemma_encode_concat(s.take(a), s.subrange(a, b));
        assert(s.take(a) + s.subrange(a, b) =~= s.take(b));
        crate::lexer::lemma_encode_nonempty(s.subrange(a, b));
    }
}

} // verus!
