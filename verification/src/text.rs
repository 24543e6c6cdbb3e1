//! Character classes and low-level scanning helpers shared by the rewrite
//! rules. The text model is a sequence of characters; the word and
//! whitespace classes are deliberately the ASCII ones, so a character
//! outside ASCII counts as neither: it bounds a word and survives a trim.
//! Shader identifiers are ASCII, so this only shows on non-ASCII input.

use vstd::prelude::*;
use vstd::string::StrSliceExecFns;

verus! {

/// A character that can be part of an identifier word: ASCII letters,
/// digits and underscore.
pub open spec fn is_word_char(c: char) -> bool {
    ||| c == '_'
    ||| '0' <= c && c <= '9'
    ||| 'A' <= c && c <= 'Z'
    ||| 'a' <= c && c <= 'z'
}

/// ASCII whitespace: space, tab, line feed, vertical tab, form feed,
/// carriage return.
pub open spec fn is_space_char(c: char) -> bool {
    ||| c == ' '
    ||| c == '\t'
    ||| c == '\n'
    ||| (c as u32) == 11
    ||| (c as u32) == 12
    ||| c == '\r'
}

pub fn word_char(c: char) -> (b: bool)
    ensures
        b == is_word_char(c),
{
    c == '_' || ('0' <= c && c <= '9') || ('A' <= c && c <= 'Z') || ('a' <= c && c <= 'z')
}

pub fn space_char(c: char) -> (b: bool)
    ensures
        b == is_space_char(c),
{
    let u = c as u32;
    u == 32 || u == 9 || u == 10 || u == 11 || u == 12 || u == 13
}

/// `u` stands at position `p` of `s`.
pub open spec fn occurs_at(s: Seq<char>, u: Seq<char>, p: int) -> bool {
    0 <= p && p + u.len() <= s.len() && s.subrange(p, p + u.len() as int) == u
}

pub proof fn lemma_occurs_contains(s: Seq<char>, u: Seq<char>, p: int)
    requires
        occurs_at(s, u, p),
    ensures
        contains_seq(s, u),
{
}

pub proof fn lemma_contains_occurs(s: Seq<char>, u: Seq<char>)
    requires
        contains_seq(s, u),
    ensures
        exists|p: int| #[trigger] occurs_at(s, u, p),
{
    let j = choose|j: int|
        0 <= j && j + u.len() <= s.len() && #[trigger] s.subrange(j, j + u.len() as int) == u;
    assert(occurs_at(s, u, j));
}

/// `p` stands at the front of `s`.
pub open spec fn begins_with(s: Seq<char>, p: Seq<char>) -> bool {
    p.len() <= s.len() && s.take(p.len() as int) == p
}

/// Length of the run of whitespace characters at the front of `s`.
pub open spec fn space_run(s: Seq<char>) -> int
    decreases s.len(),
{
    if s.len() > 0 && is_space_char(s[0]) {
        1 + space_run(s.skip(1))
    } else {
        0
    }
}

/// Length of the run of word characters at the front of `s`.
pub open spec fn word_run(s: Seq<char>) -> int
    decreases s.len(),
{
    if s.len() > 0 && is_word_char(s[0]) {
        1 + word_run(s.skip(1))
    } else {
        0
    }
}

/// Length of the run of line feeds at the front of `s`.
pub open spec fn newline_run(s: Seq<char>) -> int
    decreases s.len(),
{
    if s.len() > 0 && s[0] == '\n' {
        1 + newline_run(s.skip(1))
    } else {
        0
    }
}

pub proof fn lemma_space_run_bounds(s: Seq<char>)
    ensures
        0 <= space_run(s) <= s.len(),
        forall|i: int| 0 <= i < space_run(s) ==> is_space_char(s[i]),
        space_run(s) < s.len() ==> !is_space_char(s[space_run(s)]),
    decreases s.len(),
{
    if s.len() > 0 && is_space_char(s[0]) {
        lemma_space_run_bounds(s.skip(1));
        assert forall|i: int| 0 <= i < space_run(s) implies is_space_char(s[i]) by {
            if i > 0 {
                assert(s[i] == s.skip(1)[i - 1]);
            }
        }
        if space_run(s) < s.len() {
            assert(s[space_run(s)] == s.skip(1)[space_run(s) - 1]);
        }
    }
}

pub proof fn lemma_word_run_bounds(s: Seq<char>)
    ensures
        0 <= word_run(s) <= s.len(),
        forall|i: int| 0 <= i < word_run(s) ==> is_word_char(s[i]),
        word_run(s) < s.len() ==> !is_word_char(s[word_run(s)]),
    decreases s.len(),
{
    if s.len() > 0 && is_word_char(s[0]) {
        lemma_word_run_bounds(s.skip(1));
        assert forall|i: int| 0 <= i < word_run(s) implies is_word_char(s[i]) by {
            if i > 0 {
                assert(s[i] == s.skip(1)[i - 1]);
            }
        }
        if word_run(s) < s.len() {
            assert(s[word_run(s)] == s.skip(1)[word_run(s) - 1]);
        }
    }
}

pub proof fn lemma_newline_run_bounds(s: Seq<char>)
    ensures
        0 <= newline_run(s) <= s.len(),
        forall|i: int| 0 <= i < newline_run(s) ==> s[i] == '\n',
        newline_run(s) < s.len() ==> s[newline_run(s)] != '\n',
    decreases s.len(),
{
    if s.len() > 0 && s[0] == '\n' {
        lemma_newline_run_bounds(s.skip(1));
        assert forall|i: int| 0 <= i < newline_run(s) implies s[i] == '\n' by {
            if i > 0 {
                assert(s[i] == s.skip(1)[i - 1]);
            }
        }
        if newline_run(s) < s.len() {
            assert(s[newline_run(s)] == s.skip(1)[newline_run(s) - 1]);
        }
    }
}

/// The characters of a string literal as a vector, so that rule words and
/// replacement texts can be built from ordinary literals.
pub fn chars_of(s: &str) -> (v: Vec<char>)
    ensures
        v@ == s@,
{
    let n = s.unicode_len();
    let mut v: Vec<char> = Vec::new();
    let mut i: usize = 0;
    while i < n
        invariant
            i <= n,
            n == s@.len(),
            v@ == s@.take(i as int),
        decreases n - i,
    {
        let c = s.get_char(i);
        v.push(c);
        proof {
            assert(v@ =~= s@.take(i + 1));
        }
        i += 1;
    }
    proof {
        assert(v@ =~= s@);
    }
    v
}

/// Append all characters of `piece` to `out`.
pub fn push_all(out: &mut Vec<char>, piece: &Vec<char>)
    ensures
        final(out)@ == old(out)@ + piece@,
{
    let mut k: usize = 0;
    while k < piece.len()
        invariant
            k <= piece.len(),
            out@ == old(out)@ + piece@.take(k as int),
        decreases piece.len() - k,
    {
        out.push(piece[k]);
        proof {
            assert(old(out)@ + piece@.take(k as int) + seq![piece@[k as int]] =~= old(out)@
                + piece@.take(k + 1));
        }
        k += 1;
    }
    proof {
        assert(old(out)@ + piece@.take(piece@.len() as int) =~= old(out)@ + piece@);
    }
}

/// First line feed of `s`, if any.
pub open spec fn first_newline(s: Seq<char>) -> Option<int>
    decreases s.len(),
{
    if s.len() == 0 {
        None
    } else if s[0] == '\n' {
        Some(0int)
    } else {
        match first_newline(s.skip(1)) {
            None => None,
            Some(j) => Some(1 + j),
        }
    }
}

pub proof fn lemma_first_newline_bounds(s: Seq<char>)
    ensures
        match first_newline(s) {
            Some(j) => 0 <= j < s.len() && s[j] == '\n',
            None => true,
        },
    decreases s.len(),
{
    if s.len() > 0 && s[0] != '\n' {
        lemma_first_newline_bounds(s.skip(1));
        if let Some(j) = first_newline(s.skip(1)) {
            assert(s[1 + j] == s.skip(1)[j]);
        }
    }
}

/// `h` holds `n` as a contiguous part.
pub open spec fn contains_seq(h: Seq<char>, n: Seq<char>) -> bool {
    exists|j: int| 0 <= j && j + n.len() <= h.len() && #[trigger] h.subrange(j, j + n.len() as int)
        == n
}

pub proof fn lemma_contains_shift_right(x: Seq<char>, t: Seq<char>, u: Seq<char>)
    requires
        contains_seq(t, u),
    ensures
        contains_seq(x + t, u),
{
    let j = choose|j: int|
        0 <= j && j + u.len() <= t.len() && #[trigger] t.subrange(j, j + u.len() as int) == u;
    assert((x + t).subrange(x.len() + j, x.len() + j + u.len() as int) =~= t.subrange(
        j,
        j + u.len() as int,
    ));
}

pub proof fn lemma_begins_with_contains(s: Seq<char>, u: Seq<char>)
    requires
        begins_with(s, u),
    ensures
        contains_seq(s, u),
{
    assert(s.subrange(0, 0 + u.len() as int) =~= s.take(u.len() as int));
}

/// Absolute end index of the whitespace run that starts at `i`.
pub fn space_run_from(s: &Vec<char>, i: usize) -> (j: usize)
    requires
        i <= s@.len(),
    ensures
        i <= j <= s@.len(),
        j - i == space_run(s@.skip(i as int)),
{
    let mut j: usize = i;
    while j < s.len() && space_char(s[j])
        invariant
            i <= j <= s@.len(),
            space_run(s@.skip(i as int)) == j - i + space_run(s@.skip(j as int)),
        decreases s@.len() - j,
    {
        proof {
            assert(s@.skip(j as int)[0] == s@[j as int]);
            assert(s@.skip(j as int).skip(1) =~= s@.skip(j + 1));
        }
        j += 1;
    }
    proof {
        if j < s@.len() {
            assert(s@.skip(j as int)[0] == s@[j as int]);
        }
        assert(space_run(s@.skip(j as int)) == 0);
    }
    j
}

/// Absolute end index of the word-character run that starts at `i`.
pub fn word_run_from(s: &Vec<char>, i: usize) -> (j: usize)
    requires
        i <= s@.len(),
    ensures
        i <= j <= s@.len(),
        j - i == word_run(s@.skip(i as int)),
{
    let mut j: usize = i;
    while j < s.len() && word_char(s[j])
        invariant
            i <= j <= s@.len(),
            word_run(s@.skip(i as int)) == j - i + word_run(s@.skip(j as int)),
        decreases s@.len() - j,
    {
        proof {
            assert(s@.skip(j as int)[0] == s@[j as int]);
            assert(s@.skip(j as int).skip(1) =~= s@.skip(j + 1));
        }
        j += 1;
    }
    proof {
        if j < s@.len() {
            assert(s@.skip(j as int)[0] == s@[j as int]);
        }
        assert(word_run(s@.skip(j as int)) == 0);
    }
    j
}

/// Absolute end index of the line-feed run that starts at `i`.
pub fn newline_run_from(s: &Vec<char>, i: usize) -> (j: usize)
    requires
        i <= s@.len(),
    ensures
        i <= j <= s@.len(),
        j - i == newline_run(s@.skip(i as int)),
{
    let mut j: usize = i;
    while j < s.len() && s[j] == '\n'
        invariant
            i <= j <= s@.len(),
            newline_run(s@.skip(i as int)) == j - i + newline_run(s@.skip(j as int)),
        decreases s@.len() - j,
    {
        proof {
            assert(s@.skip(j as int)[0] == s@[j as int]);
            assert(s@.skip(j as int).skip(1) =~= s@.skip(j + 1));
        }
        j += 1;
    }
    proof {
        if j < s@.len() {
            assert(s@.skip(j as int)[0] == s@[j as int]);
        }
        assert(newline_run(s@.skip(j as int)) == 0);
    }
    j
}

/// Absolute index of the first line feed at or after `i`, if any.
pub fn find_newline_from(s: &Vec<char>, i: usize) -> (m: Option<usize>)
    requires
        i <= s@.len(),
    ensures
        match m {
            Some(k) => i <= k < s@.len() && first_newline(s@.skip(i as int)) == Some(k - i),
            None => first_newline(s@.skip(i as int)) is None,
        },
{
    let mut j: usize = i;
    while j < s.len() && s[j] != '\n'
        invariant
            i <= j <= s@.len(),
            first_newline(s@.skip(i as int)) == match first_newline(s@.skip(j as int)) {
                None => None::<int>,
                Some(q) => Some(j - i + q),
            },
        decreases s@.len() - j,
    {
        proof {
            assert(s@.skip(j as int)[0] == s@[j as int]);
            assert(s@.skip(j as int).skip(1) =~= s@.skip(j + 1));
        }
        j += 1;
    }
    if j < s.len() {
        proof {
            assert(s@.skip(j as int)[0] == s@[j as int]);
            assert(first_newline(s@.skip(j as int)) == Some(0int));
        }
        Some(j)
    } else {
        proof {
            assert(s@.skip(j as int).len() == 0);
        }
        None
    }
}

/// `p` stands at position `i` of `s`.
pub fn match_at(s: &Vec<char>, i: usize, p: &Vec<char>) -> (b: bool)
    requires
        i <= s@.len(),
    ensures
        b == begins_with(s@.skip(i as int), p@),
{
    if s.len() - i < p.len() {
        return false;
    }
    let mut k: usize = 0;
    while k < p.len()
        invariant
            k <= p.len(),
            i + p.len() <= s.len(),
            forall|j: int| 0 <= j < k ==> s@[i + j] == p@[j],
        decreases p.len() - k,
    {
        if s[i + k] != p[k] {
            assert(s@.skip(i as int)[k as int] != p@[k as int]);
            assert(!begins_with(s@.skip(i as int), p@));
            return false;
        }
        k += 1;
    }
    proof {
        assert(s@.skip(i as int).take(p@.len() as int) =~= p@);
    }
    true
}

} // verus!
