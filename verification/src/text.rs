//! Text as sequences of characters: the readings and writings that the rest of
//! the library is stated over.

use vstd::prelude::*;
use vstd::slice::*;
use vstd::string::*;

verus! {

/// `String::push` of std: the character goes behind what the string held.
pub assume_specification[ String::push ](s: &mut String, c: char)
    ensures
        final(s)@ == old(s)@.push(c),
;

// ── Characters ───────────────────────────────────────────────────────

/// A decimal digit of ASCII.
pub open spec fn is_digit(c: char) -> bool {
    48 <= c as u32 <= 57
}

/// An upper-case letter of ASCII.
pub open spec fn is_upper(c: char) -> bool {
    65 <= c as u32 <= 90
}

/// A lower-case letter of ASCII.
pub open spec fn is_lower(c: char) -> bool {
    97 <= c as u32 <= 122
}

/// The character with an ASCII capital made small, and any other unchanged.
pub open spec fn lower(c: char) -> char {
    if is_upper(c) {
        (c as u32 + 32) as char
    } else {
        c
    }
}

/// Unicode's `White_Space` property.
pub open spec fn is_space(c: char) -> bool {
    let n = c as u32;
    ||| 9 <= n <= 13
    ||| n == 0x20
    ||| n == 0x85
    ||| n == 0xA0
    ||| n == 0x1680
    ||| 0x2000 <= n <= 0x200A
    ||| n == 0x2028
    ||| n == 0x2029
    ||| n == 0x202F
    ||| n == 0x205F
    ||| n == 0x3000
}

pub fn digit(c: char) -> (r: bool)
    ensures
        r == is_digit(c),
{
    let n: u32 = c as u32;
    48 <= n && n <= 57
}

pub fn lowered(c: char) -> (r: char)
    ensures
        r == lower(c),
{
    let n: u32 = c as u32;
    if 65 <= n && n <= 90 {
        let m: u8 = (n + 32) as u8;
        m as char
    } else {
        c
    }
}

pub fn space(c: char) -> (r: bool)
    ensures
        r == is_space(c),
{
    let n: u32 = c as u32;
    (9 <= n && n <= 13) || n == 0x20 || n == 0x85 || n == 0xA0 || n == 0x1680 || (0x2000 <= n && n
        <= 0x200A) || n == 0x2028 || n == 0x2029 || n == 0x202F || n == 0x205F || n == 0x3000
}

// ── Between strings and their characters ─────────────────────────────

/// The characters of `text`, in order.
pub fn chars_of(text: &str) -> (r: Vec<char>)
    ensures
        r@ == text@,
{
    let mut out: Vec<char> = Vec::new();
    for c in iter: text.chars()
        invariant
            out@ == iter.seq().take(iter.index()),
            iter.seq() == text@,
    {
        out.push(c);
        assert(out@ =~= iter.seq().take(iter.index() + 1));
    }
    assert(out@ =~= text@);
    out
}

/// The string made of `chars`.
pub fn string_of(chars: &[char]) -> (r: String)
    ensures
        r@ == chars@,
{
    let mut out = String::new();
    let mut i: usize = 0;
    while i < chars.len()
        invariant
            i <= chars@.len(),
            out@ == chars@.take(i as int),
        decreases chars.len() - i,
    {
        out.push(chars[i]);
        i += 1;
        assert(out@ =~= chars@.take(i as int));
    }
    assert(out@ =~= chars@);
    out
}

/// Whether two sequences of characters are the same.
pub fn same_chars(a: &[char], b: &[char]) -> (r: bool)
    ensures
        r == (a@ == b@),
{
    if a.len() != b.len() {
        return false;
    }
    let mut i: usize = 0;
    while i < a.len()
        invariant
            i <= a@.len(),
            a@.len() == b@.len(),
            forall|k: int| 0 <= k < i ==> a@[k] == b@[k],
        decreases a.len() - i,
    {
        if a[i] != b[i] {
            return false;
        }
        i += 1;
    }
    assert(a@ =~= b@);
    true
}

/// Whether two texts are the same.
pub fn same(a: &str, b: &str) -> (r: bool)
    ensures
        r == (a@ == b@),
{
    let x = chars_of(a);
    let y = chars_of(b);
    same_chars(x.as_slice(), y.as_slice())
}

/// Whether `s` spells `word`.
pub fn spells(s: &[char], word: &str) -> (r: bool)
    ensures
        r == (s@ == word@),
{
    let w = chars_of(word);
    same_chars(s, w.as_slice())
}

/// The text of each string, in order.
pub open spec fn texts(list: Seq<String>) -> Seq<Seq<char>> {
    Seq::new(list.len(), |i: int| list[i]@)
}

/// The characters of each piece, in order.
pub open spec fn pieces(list: Seq<Vec<char>>) -> Seq<Seq<char>> {
    Seq::new(list.len(), |i: int| list[i]@)
}

/// Whether `text` is one of `list`.
pub fn listed(list: &[String], text: &str) -> (r: bool)
    ensures
        r == texts(list@).contains(text@),
{
    let mut i: usize = 0;
    while i < list.len()
        invariant
            i <= list@.len(),
            forall|k: int| 0 <= k < i ==> list@[k]@ != text@,
        decreases list.len() - i,
    {
        if same(list[i].as_str(), text) {
            assert(texts(list@)[i as int] == text@);
            return true;
        }
        i += 1;
    }
    assert forall|k: int| 0 <= k < texts(list@).len() implies texts(list@)[k] != text@ by {
        assert(list@[k]@ != text@);
    }
    false
}

// ── Finding and cutting ──────────────────────────────────────────────

/// Where `c` first stands in `s`, or the length of `s` where it does not.
pub open spec fn first(s: Seq<char>, c: char) -> int
    decreases s.len(),
{
    if s.len() == 0 || s[0] == c {
        0
    } else {
        1 + first(s.drop_first(), c)
    }
}

/// `first` is the least position that holds `c`.
pub proof fn lemma_first(s: Seq<char>, c: char)
    ensures
        0 <= first(s, c) <= s.len(),
        first(s, c) < s.len() ==> s[first(s, c)] == c,
        forall|k: int| 0 <= k < first(s, c) ==> s[k] != c,
        first(s, c) == s.len() <==> !s.contains(c),
    decreases s.len(),
{
    if s.len() == 0 {
    } else if s[0] == c {
        assert(s.contains(c));
    } else {
        let t = s.drop_first();
        lemma_first(t, c);
        assert forall|k: int| 0 <= k < first(s, c) implies s[k] != c by {
            if k > 0 {
                assert(t[k - 1] != c);
            }
        }
        if s.contains(c) {
            let k = choose|k: int| 0 <= k < s.len() && s[k] == c;
            assert(t[k - 1] == c);
            assert(t.contains(c));
        }
        if t.contains(c) {
            let k = choose|k: int| 0 <= k < t.len() && t[k] == c;
            assert(s[k + 1] == c);
        }
    }
}

/// Any least position that holds `c` is `first`.
pub proof fn lemma_first_is(s: Seq<char>, c: char, i: int)
    requires
        0 <= i <= s.len(),
        i < s.len() ==> s[i] == c,
        forall|k: int| 0 <= k < i ==> s[k] != c,
    ensures
        first(s, c) == i,
{
    lemma_first(s, c);
    if first(s, c) < i {
        assert(s[first(s, c)] != c);
    }
}

pub fn find(s: &[char], c: char) -> (r: usize)
    ensures
        r == first(s@, c),
        r <= s@.len(),
{
    let mut i: usize = 0;
    while i < s.len() && s[i] != c
        invariant
            i <= s@.len(),
            forall|k: int| 0 <= k < i ==> s@[k] != c,
        decreases s.len() - i,
    {
        i += 1;
    }
    proof {
        lemma_first_is(s@, c, i as int);
    }
    i
}

/// What stands before the first `c`, or all of `s`.
pub open spec fn head(s: Seq<char>, c: char) -> Seq<char> {
    s.take(first(s, c))
}

/// What stands behind the first `c`, or nothing.
pub open spec fn tail(s: Seq<char>, c: char) -> Seq<char> {
    if first(s, c) < s.len() {
        s.skip(first(s, c) + 1)
    } else {
        Seq::empty()
    }
}

pub fn before<'a>(s: &'a [char], c: char) -> (r: &'a [char])
    ensures
        r@ == head(s@, c),
{
    let i: usize = find(s, c);
    let r = slice_subrange(s, 0, i);
    assert(r@ =~= head(s@, c));
    r
}

pub fn behind<'a>(s: &'a [char], c: char) -> (r: &'a [char])
    ensures
        r@ == tail(s@, c),
{
    let i: usize = find(s, c);
    let n: usize = s.len();
    let r = if i < n {
        slice_subrange(s, i + 1, n)
    } else {
        slice_subrange(s, n, n)
    };
    assert(r@ =~= tail(s@, c));
    r
}

pub fn holds(s: &[char], c: char) -> (r: bool)
    ensures
        r == s@.contains(c),
{
    proof {
        lemma_first(s@, c);
    }
    find(s, c) < s.len()
}

/// The pieces of `s` between the `c`s: one more than there are of them.
pub open spec fn split(s: Seq<char>, c: char) -> Seq<Seq<char>>
    decreases s.len(),
{
    if 0 <= first(s, c) < s.len() {
        seq![head(s, c)] + split(tail(s, c), c)
    } else {
        seq![s]
    }
}

pub fn split_at_each(s: &[char], c: char) -> (r: Vec<Vec<char>>)
    ensures
        pieces(r@) == split(s@, c),
{
    let mut out: Vec<Vec<char>> = Vec::new();
    let mut start: usize = 0;
    let n: usize = s.len();
    let ghost whole = split(s@, c);
    assert(s@.skip(0) =~= s@);
    assert(pieces(out@) + split(s@.skip(0), c) =~= whole);
    loop
        invariant_except_break
            start <= n,
            n == s@.len(),
            pieces(out@) + split(s@.skip(start as int), c) == whole,
        ensures
            pieces(out@) == whole,
        decreases n - start,
    {
        let rest = slice_subrange(s, start, n);
        assert(rest@ =~= s@.skip(start as int));
        let i: usize = find(rest, c);
        proof {
            lemma_first(rest@, c);
        }
        let ghost held = out@;
        let piece = slice_to_vec(slice_subrange(rest, 0, i));
        assert(piece@ =~= rest@.take(i as int));
        out.push(piece);
        assert(pieces(out@) =~= pieces(held) + seq![rest@.take(i as int)]);
        if i < rest.len() {
            let ghost begun = start;
            start = start + i + 1;
            proof {
                assert(s@.skip(start as int) =~= tail(rest@, c));
                assert(pieces(out@) + split(s@.skip(start as int), c) =~= pieces(held) + split(
                    s@.skip(begun as int),
                    c,
                ));
            }
        } else {
            proof {
                assert(rest@.take(i as int) =~= rest@);
                assert(pieces(out@) =~= whole);
            }
            break;
        }
    }
    out
}

/// Whether `s` begins with `p`.
pub open spec fn begins(s: Seq<char>, p: Seq<char>) -> bool {
    p.len() <= s.len() && s.take(p.len() as int) == p
}

pub fn begins_with(s: &[char], p: &[char]) -> (r: bool)
    ensures
        r == begins(s@, p@),
{
    if p.len() > s.len() {
        return false;
    }
    let front = slice_subrange(s, 0, p.len());
    assert(front@ =~= s@.take(p@.len() as int));
    same_chars(front, p)
}

/// Whether `p` stands somewhere in `s`.
pub open spec fn occurs(s: Seq<char>, p: Seq<char>) -> bool {
    exists|i: int| 0 <= i <= s.len() && #[trigger] begins(s.skip(i), p)
}

pub fn occurs_in(s: &[char], p: &[char]) -> (r: bool)
    ensures
        r == occurs(s@, p@),
{
    let n: usize = s.len();
    let mut i: usize = 0;
    loop
        invariant
            i <= n,
            n == s@.len(),
            forall|k: int| 0 <= k < i ==> !#[trigger] begins(s@.skip(k), p@),
        decreases n - i,
    {
        let rest = slice_subrange(s, i, n);
        assert(rest@ =~= s@.skip(i as int));
        if begins_with(rest, p) {
            return true;
        }
        if i == n {
            return false;
        }
        i += 1;
    }
}

/// Where `p` first stands in `s`.
pub open spec fn place(s: Seq<char>, p: Seq<char>) -> Option<int>
    decreases s.len(),
{
    if begins(s, p) {
        Some(0int)
    } else if s.len() == 0 {
        None
    } else {
        match place(s.drop_first(), p) {
            Some(i) => Some(i + 1),
            None => None,
        }
    }
}

/// What stands behind the first `p` in `s`.
pub open spec fn past(s: Seq<char>, p: Seq<char>) -> Option<Seq<char>> {
    match place(s, p) {
        Some(i) => Some(s.skip(i + p.len())),
        None => None,
    }
}

/// `place` is where `p` stands first.
pub proof fn lemma_place(s: Seq<char>, p: Seq<char>)
    ensures
        (match place(s, p) {
            Some(i) => 0 <= i && i + p.len() <= s.len() && begins(s.skip(i), p) && forall|k: int|
                0 <= k < i ==> !begins(#[trigger] s.skip(k), p),
            None => !occurs(s, p),
        }),
    decreases s.len(),
{
    assert(s.skip(0) =~= s);
    if begins(s, p) {
    } else if s.len() == 0 {
        assert forall|i: int| 0 <= i <= s.len() implies !#[trigger] begins(s.skip(i), p) by {}
    } else {
        let t = s.drop_first();
        lemma_place(t, p);
        match place(t, p) {
            Some(i) => {
                assert(t.skip(i) =~= s.skip(i + 1));
                assert forall|k: int| 0 <= k < i + 1 implies !begins(
                    #[trigger] s.skip(k),
                    p,
                ) by {
                    if k > 0 {
                        assert(t.skip(k - 1) =~= s.skip(k));
                    }
                }
            },
            None => {
                assert forall|i: int| 0 <= i <= s.len() implies !#[trigger] begins(
                    s.skip(i),
                    p,
                ) by {
                    if i > 0 {
                        assert(t.skip(i - 1) =~= s.skip(i));
                        assert(!begins(t.skip(i - 1), p));
                    }
                }
            },
        }
    }
}

pub fn place_of(s: &[char], p: &[char]) -> (r: Option<usize>)
    ensures
        (match r {
            Some(i) => place(s@, p@) == Some(i as int) && i + p@.len() <= s@.len(),
            None => place(s@, p@) is None,
        }),
{
    let n: usize = s.len();
    let mut i: usize = 0;
    assert(s@.skip(0) =~= s@);
    loop
        invariant
            i <= n,
            n == s@.len(),
            place(s@, p@) == (match place(s@.skip(i as int), p@) {
                Some(k) => Some(k + i),
                None => None::<int>,
            }),
        decreases n - i,
    {
        let rest = slice_subrange(s, i, n);
        assert(rest@ =~= s@.skip(i as int));
        if begins_with(rest, p) {
            return Some(i);
        }
        if i == n {
            return None;
        }
        assert(rest@.drop_first() =~= s@.skip(i + 1));
        i += 1;
    }
}

/// Where `c` last stands in `s`, or -1 where it does not.
pub open spec fn last_place(s: Seq<char>, c: char) -> int
    decreases s.len(),
{
    if s.len() == 0 {
        -1
    } else if s.last() == c {
        s.len() - 1
    } else {
        last_place(s.drop_last(), c)
    }
}

pub fn last_place_of(s: &[char], c: char) -> (r: Option<usize>)
    ensures
        (match r {
            Some(i) => last_place(s@, c) == i && i < s@.len(),
            None => last_place(s@, c) == -1,
        }),
{
    let mut i: usize = s.len();
    assert(s@.take(i as int) =~= s@);
    while i > 0
        invariant
            i <= s@.len(),
            last_place(s@.take(i as int), c) == last_place(s@, c),
        decreases i,
    {
        assert(s@.take(i as int).drop_last() =~= s@.take(i - 1));
        if s[i - 1] == c {
            return Some(i - 1);
        }
        i -= 1;
    }
    None
}

/// `s` with every `from` made `to`, read from the left.
pub open spec fn replaced(s: Seq<char>, from: Seq<char>, to: Seq<char>) -> Seq<char>
    decreases s.len(),
{
    if s.len() == 0 || from.len() == 0 {
        s
    } else if begins(s, from) {
        to + replaced(s.skip(from.len() as int), from, to)
    } else {
        seq![s[0]] + replaced(s.drop_first(), from, to)
    }
}

pub fn replace_each(s: &[char], from: &[char], to: &[char]) -> (r: Vec<char>)
    requires
        from@.len() > 0,
    ensures
        r@ == replaced(s@, from@, to@),
{
    let n: usize = s.len();
    let mut i: usize = 0;
    let mut out: Vec<char> = Vec::new();
    assert(s@.skip(0) =~= s@);
    assert(out@ + replaced(s@.skip(0), from@, to@) =~= replaced(s@, from@, to@));
    while i < n
        invariant
            i <= n,
            n == s@.len(),
            from@.len() > 0,
            out@ + replaced(s@.skip(i as int), from@, to@) == replaced(s@, from@, to@),
        decreases n - i,
    {
        let rest = slice_subrange(s, i, n);
        assert(rest@ =~= s@.skip(i as int));
        let ghost held = out@;
        if begins_with(rest, from) {
            let mut k: usize = 0;
            while k < to.len()
                invariant
                    k <= to@.len(),
                    out@ == held + to@.take(k as int),
                decreases to.len() - k,
            {
                out.push(to[k]);
                k += 1;
                assert(out@ =~= held + to@.take(k as int));
            }
            assert(to@.take(k as int) =~= to@);
            proof {
                assert(rest@.skip(from@.len() as int) =~= s@.skip(i + from@.len()));
                assert(out@ + replaced(s@.skip(i + from@.len()), from@, to@) =~= held + replaced(
                    rest@,
                    from@,
                    to@,
                ));
            }
            i = i + from.len();
        } else {
            out.push(s[i]);
            proof {
                assert(rest@.drop_first() =~= s@.skip(i + 1));
                assert(rest@[0] == s@[i as int]);
                assert(out@ + replaced(s@.skip(i + 1), from@, to@) =~= held + replaced(
                    rest@,
                    from@,
                    to@,
                ));
            }
            i += 1;
        }
    }
    assert(s@.skip(i as int) =~= Seq::<char>::empty());
    assert(out@ =~= replaced(s@, from@, to@));
    out
}

// ── Trimming and case ────────────────────────────────────────────────

/// `s` without the white space it begins with.
pub open spec fn trim_start(s: Seq<char>) -> Seq<char>
    decreases s.len(),
{
    if s.len() > 0 && is_space(s[0]) {
        trim_start(s.drop_first())
    } else {
        s
    }
}

/// `s` without the white space it ends with.
pub open spec fn trim_end(s: Seq<char>) -> Seq<char>
    decreases s.len(),
{
    if s.len() > 0 && is_space(s.last()) {
        trim_end(s.drop_last())
    } else {
        s
    }
}

/// `s` without the white space around it.
pub open spec fn trim(s: Seq<char>) -> Seq<char> {
    trim_end(trim_start(s))
}

pub fn without_trailing_space<'a>(s: &'a [char]) -> (r: &'a [char])
    ensures
        r@ == trim_end(s@),
{
    let mut hi: usize = s.len();
    assert(s@.take(hi as int) =~= s@);
    while hi > 0 && space(s[hi - 1])
        invariant
            hi <= s@.len(),
            trim_end(s@.take(hi as int)) == trim_end(s@),
        decreases hi,
    {
        assert(s@.take(hi as int).drop_last() =~= s@.take(hi - 1));
        hi -= 1;
    }
    let r = slice_subrange(s, 0, hi);
    assert(r@ =~= s@.take(hi as int));
    r
}

pub fn without_leading_space<'a>(s: &'a [char]) -> (r: &'a [char])
    ensures
        r@ == trim_start(s@),
{
    let n: usize = s.len();
    let mut lo: usize = 0;
    assert(s@.skip(0) =~= s@);
    while lo < n && space(s[lo])
        invariant
            lo <= n,
            n == s@.len(),
            trim_start(s@.skip(lo as int)) == trim_start(s@),
        decreases n - lo,
    {
        assert(s@.skip(lo as int).drop_first() =~= s@.skip(lo + 1));
        lo += 1;
    }
    let r = slice_subrange(s, lo, n);
    assert(r@ =~= s@.skip(lo as int));
    r
}

pub fn trimmed<'a>(s: &'a [char]) -> (r: &'a [char])
    ensures
        r@ == trim(s@),
{
    without_trailing_space(without_leading_space(s))
}

/// The words of `s`: what stands between its white space.
pub open spec fn words(s: Seq<char>) -> Seq<Seq<char>>
    decreases s.len(),
{
    if s.len() == 0 {
        Seq::empty()
    } else {
        let before = words(s.drop_last());
        let c = s.last();
        if is_space(c) {
            before
        } else if s.len() > 1 && !is_space(s[s.len() - 2]) {
            before.drop_last().push(before.last().push(c))
        } else {
            before.push(seq![c])
        }
    }
}

/// What ends in a word has one.
pub proof fn lemma_last_word(s: Seq<char>)
    requires
        s.len() > 0,
        !is_space(s.last()),
    ensures
        words(s).len() > 0,
    decreases s.len(),
{
    if s.len() > 1 && !is_space(s[s.len() - 2]) {
        assert(s.drop_last().last() == s[s.len() - 2]);
        lemma_last_word(s.drop_last());
    }
}

/// A word holds something, and no white space.
pub proof fn law_a_word_holds_no_space(s: Seq<char>)
    ensures
        forall|i: int|
            0 <= i < words(s).len() ==> (#[trigger] words(s)[i]).len() > 0 && forall|j: int|
                0 <= j < words(s)[i].len() ==> !is_space(#[trigger] words(s)[i][j]),
    decreases s.len(),
{
    if s.len() > 0 {
        law_a_word_holds_no_space(s.drop_last());
        let before = words(s.drop_last());
        if !is_space(s.last()) && s.len() > 1 && !is_space(s[s.len() - 2]) {
            assert(s.drop_last().last() == s[s.len() - 2]);
            lemma_last_word(s.drop_last());
            assert forall|i: int| 0 <= i < words(s).len() implies (#[trigger] words(s)[i]).len() > 0
                && forall|j: int|
                0 <= j < words(s)[i].len() ==> !is_space(#[trigger] words(s)[i][j]) by {
                if i < before.len() - 1 {
                    assert(words(s)[i] == before[i]);
                } else {
                    assert(words(s)[i] == before.last().push(s.last()));
                    assert(before[before.len() - 1].len() > 0);
                }
            }
        }
    }
}

pub fn words_of(text: &str) -> (r: Vec<String>)
    ensures
        texts(r@) == words(text@),
{
    let chars = chars_of(text);
    let mut out: Vec<String> = Vec::new();
    let mut i: usize = 0;
    let mut inside = false;
    assert(chars@.take(0) =~= Seq::empty());
    assert(texts(out@) =~= Seq::empty());
    while i < chars.len()
        invariant
            i <= chars@.len(),
            chars@ == text@,
            inside == (i > 0 && !is_space(chars@[i - 1])),
            texts(out@) == words(chars@.take(i as int)),
        decreases chars@.len() - i,
    {
        let ghost done = chars@.take(i as int);
        let ghost held = out@;
        let c: char = chars[i];
        assert(chars@.take(i + 1).drop_last() =~= done);
        assert(chars@.take(i + 1).last() == c);
        if space(c) {
            inside = false;
        } else if inside {
            proof {
                assert(done.last() == chars@[i - 1]);
                lemma_last_word(done);
                assert(texts(held).len() == held.len());
            }
            match out.pop() {
                Some(mut word) => {
                    let ghost short = word@;
                    word.push(c);
                    out.push(word);
                    assert(texts(out@) =~= texts(held).drop_last().push(short.push(c)));
                },
                None => {},
            }
        } else {
            let mut word = String::new();
            word.push(c);
            assert(word@ =~= seq![c]);
            out.push(word);
            inside = true;
            assert(texts(out@) =~= texts(held).push(seq![c]));
        }
        i = i + 1;
    }
    assert(chars@.take(i as int) =~= chars@);
    out
}

/// `s` with its ASCII capitals made small.
pub open spec fn lower_text(s: Seq<char>) -> Seq<char> {
    Seq::new(s.len(), |i: int| lower(s[i]))
}

pub fn lowered_chars(s: &[char]) -> (r: Vec<char>)
    ensures
        r@ == lower_text(s@),
{
    let mut out: Vec<char> = Vec::new();
    let mut i: usize = 0;
    while i < s.len()
        invariant
            i <= s@.len(),
            out@ == lower_text(s@.take(i as int)),
        decreases s.len() - i,
    {
        out.push(lowered(s[i]));
        i += 1;
        assert(out@ =~= lower_text(s@.take(i as int)));
    }
    assert(s@.take(i as int) =~= s@);
    out
}

/// The first of two texts in the order of their characters' code points.
pub open spec fn precedes(a: Seq<char>, b: Seq<char>) -> bool
    decreases a.len(),
{
    if b.len() == 0 {
        false
    } else if a.len() == 0 {
        true
    } else if a[0] == b[0] {
        precedes(a.drop_first(), b.drop_first())
    } else {
        (a[0] as u32) < (b[0] as u32)
    }
}

pub fn text_precedes(a: &str, b: &str) -> (r: bool)
    ensures
        r == precedes(a@, b@),
{
    let x = chars_of(a);
    let y = chars_of(b);
    let mut i: usize = 0;
    assert(x@.skip(0) =~= x@);
    assert(y@.skip(0) =~= y@);
    loop
        invariant
            x@ == a@,
            y@ == b@,
            i <= x@.len(),
            i <= y@.len(),
            precedes(x@.skip(i as int), y@.skip(i as int)) == precedes(x@, y@),
        decreases x@.len() - i,
    {
        if i == y.len() {
            return false;
        }
        if i == x.len() {
            return true;
        }
        if x[i] != y[i] {
            return (x[i] as u32) < (y[i] as u32);
        }
        proof {
            assert(x@.skip(i as int).drop_first() =~= x@.skip(i + 1));
            assert(y@.skip(i as int).drop_first() =~= y@.skip(i + 1));
        }
        i += 1;
    }
}

// ── Numbers ──────────────────────────────────────────────────────────

/// Whether every character of `s` is a decimal digit.
pub open spec fn all_digits(s: Seq<char>) -> bool {
    forall|i: int| 0 <= i < s.len() ==> is_digit(#[trigger] s[i])
}

/// What a row of decimal digits counts.
pub open spec fn digits_value(s: Seq<char>) -> nat
    decreases s.len(),
{
    if s.len() == 0 {
        0
    } else {
        digits_value(s.drop_last()) * 10 + (s.last() as u32 - 48) as nat
    }
}

/// A longer row of digits counts no less than the row it begins with.
pub proof fn lemma_digits_grow(s: Seq<char>, i: int)
    requires
        0 <= i <= s.len(),
        all_digits(s),
    ensures
        digits_value(s.take(i)) <= digits_value(s),
    decreases s.len(),
{
    if i == s.len() {
        assert(s.take(i) =~= s);
    } else {
        let t = s.drop_last();
        assert(all_digits(t)) by {
            assert forall|k: int| 0 <= k < t.len() implies is_digit(#[trigger] t[k]) by {
                assert(is_digit(s[k]));
            }
        }
        lemma_digits_grow(t, i);
        assert(t.take(i) =~= s.take(i));
        assert(is_digit(s[s.len() - 1]));
    }
}

/// The number that a row of digits writes, where there is a digit, nothing
/// else, and it is no more than `max`.
pub open spec fn number(s: Seq<char>, max: nat) -> Option<nat> {
    if s.len() > 0 && all_digits(s) && digits_value(s) <= max {
        Some(digits_value(s))
    } else {
        None
    }
}

pub fn number_of(s: &[char], max: u64) -> (r: Option<u64>)
    ensures
        (match r {
            Some(n) => number(s@, max as nat) == Some(n as nat),
            None => number(s@, max as nat) is None,
        }),
{
    if s.len() == 0 {
        return None;
    }
    let mut i: usize = 0;
    let mut value: u64 = 0;
    while i < s.len()
        invariant
            i <= s@.len(),
            all_digits(s@.take(i as int)),
            value == digits_value(s@.take(i as int)),
            value <= max,
        decreases s.len() - i,
    {
        let c = s[i];
        proof {
            assert(s@.take(i + 1).drop_last() =~= s@.take(i as int));
            assert(s@.take(i + 1).last() == s@[i as int]);
        }
        if !digit(c) {
            assert(!all_digits(s@));
            return None;
        }
        let d: u64 = (c as u32 - 48) as u64;
        assert(digits_value(s@.take(i + 1)) == value * 10 + d);
        if value > (u64::MAX - d) / 10 || value * 10 + d > max {
            proof {
                if all_digits(s@) {
                    lemma_digits_grow(s@, i + 1);
                }
            }
            return None;
        }
        value = value * 10 + d;
        i += 1;
        assert forall|k: int| 0 <= k < s@.take(i as int).len() implies is_digit(
            #[trigger] s@.take(i as int)[k],
        ) by {
            if k < i - 1 {
                assert(s@.take(i - 1)[k] == s@[k]);
            }
        }
    }
    assert(s@.take(i as int) =~= s@);
    Some(value)
}

/// `s` read the way std reads an unsigned number: digits, with a `+` before
/// them if one stands there.
pub open spec fn unsigned(s: Seq<char>, max: nat) -> Option<nat> {
    if s.len() > 0 && s[0] == '+' {
        number(s.drop_first(), max)
    } else {
        number(s, max)
    }
}

pub fn unsigned_of(s: &[char], max: u64) -> (r: Option<u64>)
    ensures
        (match r {
            Some(n) => unsigned(s@, max as nat) == Some(n as nat),
            None => unsigned(s@, max as nat) is None,
        }),
{
    if s.len() > 0 && s[0] == '+' {
        let rest = slice_subrange(s, 1, s.len());
        assert(rest@ =~= s@.drop_first());
        number_of(rest, max)
    } else {
        number_of(s, max)
    }
}

/// The digit that writes `d`.
pub open spec fn digit_char(d: int) -> char {
    (48 + d) as char
}

/// `n` in decimal, with no zero before it.
pub open spec fn decimal(n: nat) -> Seq<char>
    decreases n,
{
    if n < 10 {
        seq![digit_char(n as int)]
    } else {
        decimal(n / 10).push(digit_char((n % 10) as int))
    }
}

pub fn push_decimal(out: &mut String, n: u64)
    ensures
        final(out)@ == old(out)@ + decimal(n as nat),
    decreases n,
{
    let d: u8 = (n % 10) as u8;
    let c: char = (48 + d) as char;
    if n >= 10 {
        push_decimal(out, n / 10);
    }
    out.push(c);
    assert(out@ =~= old(out)@ + decimal(n as nat));
}

/// [`push_decimal`], for numbers of more than 64 bits.
pub fn push_wide(out: &mut String, n: u128)
    ensures
        final(out)@ == old(out)@ + decimal(n as nat),
    decreases n,
{
    let d: u8 = (n % 10) as u8;
    let c: char = (48 + d) as char;
    if n >= 10 {
        push_wide(out, n / 10);
    }
    out.push(c);
    assert(out@ =~= old(out)@ + decimal(n as nat));
}

/// `n` in decimal, with one zero before it where it is a single digit.
pub open spec fn two_digits(n: nat) -> Seq<char> {
    if n < 10 {
        seq!['0'] + decimal(n)
    } else {
        decimal(n)
    }
}

pub fn push_two_digits(out: &mut String, n: u64)
    ensures
        final(out)@ == old(out)@ + two_digits(n as nat),
{
    if n < 10 {
        out.push('0');
    }
    push_decimal(out, n);
    assert(out@ =~= old(out)@ + two_digits(n as nat));
}

/// `n` thousandths as a decimal number with three places.
pub open spec fn thousandths(n: nat) -> Seq<char> {
    decimal(n / 1000) + seq![
        '.',
        digit_char(((n / 100) % 10) as int),
        digit_char(((n / 10) % 10) as int),
        digit_char((n % 10) as int),
    ]
}

pub fn push_thousandths(out: &mut String, n: u64)
    ensures
        final(out)@ == old(out)@ + thousandths(n as nat),
{
    push_decimal(out, n / 1000);
    let a: u8 = ((n / 100) % 10) as u8;
    let b: u8 = ((n / 10) % 10) as u8;
    let c: u8 = (n % 10) as u8;
    out.push('.');
    out.push((48 + a) as char);
    out.push((48 + b) as char);
    out.push((48 + c) as char);
    assert(out@ =~= old(out)@ + thousandths(n as nat));
}

/// A text the way a developer reads it: quoted, with what cannot be printed
/// escaped.
pub uninterp spec fn debug_text(s: Seq<char>) -> Seq<char>;

/// `Debug` of a string, as std writes it: what it writes is a function of the
/// string alone.
#[verifier::external_body]
pub(crate) fn quoted(s: &str) -> (r: String)
    ensures
        r@ == debug_text(s@),
{
    format!("{:?}", s)
}

/// Where the last `c` of a text is.
pub proof fn lemma_last_place(s: Seq<char>, c: char)
    ensures
        -1 <= last_place(s, c) < s.len(),
        last_place(s, c) >= 0 ==> s[last_place(s, c)] == c,
        forall|k: int| last_place(s, c) < k < s.len() ==> s[k] != c,
    decreases s.len(),
{
    if s.len() > 0 && s.last() != c {
        let t = s.drop_last();
        lemma_last_place(t, c);
        assert forall|k: int| last_place(s, c) < k < s.len() implies s[k] != c by {
            if k < t.len() {
                assert(t[k] == s[k]);
            }
        }
    }
}

/// Whether a text holds another.
pub fn mentions(s: &str, word: &str) -> (r: bool)
    ensures
        r == occurs(s@, word@),
{
    let a = chars_of(s);
    let b = chars_of(word);
    occurs_in(a.as_slice(), b.as_slice())
}

// ── Joining ──────────────────────────────────────────────────────────

/// The texts of `list`, with `between` between each and the next.
pub open spec fn joined(list: Seq<Seq<char>>, between: Seq<char>) -> Seq<char>
    decreases list.len(),
{
    if list.len() == 0 {
        Seq::empty()
    } else if list.len() == 1 {
        list[0]
    } else {
        joined(list.drop_last(), between) + between + list.last()
    }
}

pub fn join(list: &[String], between: &str) -> (r: String)
    ensures
        r@ == joined(texts(list@), between@),
{
    let mut out = String::new();
    let mut i: usize = 0;
    assert(texts(list@).take(0) =~= Seq::<Seq<char>>::empty());
    while i < list.len()
        invariant
            i <= list@.len(),
            out@ == joined(texts(list@).take(i as int), between@),
        decreases list.len() - i,
    {
        let ghost t = texts(list@).take(i + 1);
        assert(t.drop_last() =~= texts(list@).take(i as int));
        if i > 0 {
            out.append(between);
        }
        out.append(list[i].as_str());
        assert(t.last() == list@[i as int]@);
        assert(out@ =~= joined(t, between@));
        i += 1;
    }
    assert(texts(list@).take(i as int) =~= texts(list@));
    out
}

/// Two texts, one behind the other.
pub fn concat2(a: &str, b: &str) -> (r: String)
    ensures
        r@ == a@ + b@,
{
    let mut out = a.to_owned();
    out.append(b);
    out
}

/// Three texts, each behind the one before.
pub fn concat3(a: &str, b: &str, c: &str) -> (r: String)
    ensures
        r@ == a@ + b@ + c@,
{
    let mut out = a.to_owned();
    out.append(b);
    out.append(c);
    out
}

// ── Laws ─────────────────────────────────────────────────────────────

/// Nothing but white space is trimmed away, and none is left at either end.
pub proof fn law_trimming_takes_white_space_alone(s: Seq<char>)
    ensures
        exists|a: int, b: int|
            0 <= a <= b <= s.len() && trim(s) == #[trigger] s.subrange(a, b) && (forall|k: int|
                0 <= k < a || b <= k < s.len() ==> is_space(#[trigger] s[k])),
        trim(s).len() > 0 ==> !is_space(trim(s)[0]) && !is_space(trim(s).last()),
{
    let n = lemma_trim_start(s);
    let t = trim_start(s);
    let m = lemma_trim_end(t);
    assert(trim(s) =~= s.subrange(n, n + m));
    assert forall|k: int| 0 <= k < n || n + m <= k < s.len() implies is_space(#[trigger] s[k]) by {
        if k >= n + m {
            assert(t[k - n] == s[k]);
        }
    }
}

proof fn lemma_trim_start(s: Seq<char>) -> (n: int)
    ensures
        0 <= n <= s.len(),
        trim_start(s) == s.skip(n),
        forall|k: int| 0 <= k < n ==> is_space(#[trigger] s[k]),
        n < s.len() ==> !is_space(s[n]),
    decreases s.len(),
{
    if s.len() > 0 && is_space(s[0]) {
        let rest = s.drop_first();
        let n = lemma_trim_start(rest);
        assert(rest.skip(n) =~= s.skip(n + 1));
        assert forall|k: int| 0 <= k < n + 1 implies is_space(#[trigger] s[k]) by {
            if k > 0 {
                assert(rest[k - 1] == s[k]);
            }
        }
        n + 1
    } else {
        assert(s.skip(0) =~= s);
        0
    }
}

proof fn lemma_trim_end(s: Seq<char>) -> (n: int)
    ensures
        0 <= n <= s.len(),
        trim_end(s) == s.take(n),
        forall|k: int| n <= k < s.len() ==> is_space(#[trigger] s[k]),
        n > 0 ==> !is_space(s[n - 1]),
    decreases s.len(),
{
    if s.len() > 0 && is_space(s.last()) {
        let rest = s.drop_last();
        let n = lemma_trim_end(rest);
        assert(rest.take(n) =~= s.take(n));
        assert forall|k: int| n <= k < s.len() implies is_space(#[trigger] s[k]) by {
            if k < rest.len() {
                assert(rest[k] == s[k]);
            }
        }
        n
    } else {
        assert(s.take(s.len() as int) =~= s);
        s.len() as int
    }
}

/// A number that is written out is read as itself, where it is no more than may
/// be; what holds anything but digits is no number.
pub proof fn law_a_number_is_read_as_written(n: nat, max: nat, s: Seq<char>, k: int)
    requires
        0 <= k < s.len(),
    ensures
        n <= max ==> unsigned(decimal(n), max) == Some(n),
        n > max ==> unsigned(decimal(n), max) is None,
        !is_digit(s[k]) && (k > 0 || s[k] != '+') ==> unsigned(s, max) is None,
        decimal(n).len() > 1 ==> decimal(n)[0] as u32 != 48,
{
    crate::rewritten::lemma_decimal(n);
    assert(is_digit(decimal(n)[0]));
    lemma_decimal_leads(n);
    if !is_digit(s[k]) {
        if k > 0 {
            assert(s.drop_first()[k - 1] == s[k]);
        }
    }
}

proof fn lemma_decimal_leads(n: nat)
    ensures
        decimal(n).len() > 0,
        decimal(n).len() > 1 ==> decimal(n)[0] as u32 != 48,
        n > 0 ==> decimal(n)[0] as u32 != 48,
    decreases n,
{
    if n >= 10 {
        lemma_decimal_leads(n / 10);
        assert(decimal(n)[0] == decimal(n / 10)[0]);
    }
}

/// A number under a hundred takes two places, and has its own value in them.
pub proof fn law_two_places_hold_a_number(n: nat)
    requires
        n < 100,
    ensures
        two_digits(n).len() == 2,
        all_digits(two_digits(n)),
        digits_value(two_digits(n)) == n,
{
    crate::rewritten::lemma_decimal(n);
    reveal_with_fuel(decimal, 3);
    reveal_with_fuel(digits_value, 3);
    let t = two_digits(n);
    if n < 10 {
        let d = decimal(n);
        assert(d.len() == 1);
        assert(t =~= seq!['0', d[0]]);
        assert(t.drop_last() =~= seq!['0']);
        assert(seq!['0'].drop_last() =~= Seq::<char>::empty());
        assert(d.drop_last() =~= Seq::<char>::empty());
        assert(is_digit(d[0]));
    } else {
        assert(decimal(n / 10).len() == 1);
    }
}

/// What was cut apart is whole again when it is joined with what it was cut at,
/// and no piece holds that.
pub proof fn law_what_is_split_joins_again(s: Seq<char>, c: char)
    ensures
        joined(split(s, c), seq![c]) == s,
        forall|i: int| 0 <= i < split(s, c).len() ==> !(#[trigger] split(s, c)[i]).contains(c),
        split(s, c).len() > 0,
    decreases s.len(),
{
    lemma_first(s, c);
    let i = first(s, c);
    if 0 <= i < s.len() {
        let rest = tail(s, c);
        law_what_is_split_joins_again(rest, c);
        let front = seq![head(s, c)];
        let pieces = split(rest, c);
        lemma_joined_front(head(s, c), pieces, seq![c]);
        assert(head(s, c) + seq![c] + rest =~= s);
        assert forall|k: int| 0 <= k < split(s, c).len() implies !(
        #[trigger] split(s, c)[k]).contains(c) by {
            if k > 0 {
                assert(split(s, c)[k] == pieces[k - 1]);
            } else {
                assert(split(s, c)[0] == head(s, c));
            }
        }
    } else {
        assert(split(s, c) =~= seq![s]);
        assert forall|k: int| 0 <= k < split(s, c).len() implies !(
        #[trigger] split(s, c)[k]).contains(c) by {
            assert(split(s, c)[k] == s);
        }
    }
}

proof fn lemma_joined_front(front: Seq<char>, list: Seq<Seq<char>>, between: Seq<char>)
    requires
        list.len() > 0,
    ensures
        joined(seq![front] + list, between) == front + between + joined(list, between),
    decreases list.len(),
{
    let all = seq![front] + list;
    assert(all.last() == list.last());
    if list.len() == 1 {
        assert(all.drop_last() =~= seq![front]);
        assert(joined(seq![front], between) == front);
        assert(joined(list, between) == list[0]);
        assert(joined(all, between) == joined(all.drop_last(), between) + between + all.last());
        assert(joined(all, between) =~= front + between + joined(list, between));
    } else {
        lemma_joined_front(front, list.drop_last(), between);
        assert(all.drop_last() =~= seq![front] + list.drop_last());
        assert(joined(all, between) == joined(all.drop_last(), between) + between + all.last());
        assert(joined(list, between) == joined(list.drop_last(), between) + between + list.last());
        assert(joined(all, between) =~= front + between + joined(list, between));
    }
}

/// Small letters are the capitals thirty-two places on, and nothing but a
/// capital is changed; so it makes no difference to do it twice.
pub proof fn law_only_capitals_are_made_small(s: Seq<char>, i: int)
    requires
        0 <= i < s.len(),
    ensures
        lower_text(s).len() == s.len(),
        65 <= s[i] as u32 <= 90 ==> lower_text(s)[i] as u32 == s[i] as u32 + 32,
        !(65 <= s[i] as u32 <= 90) ==> lower_text(s)[i] == s[i],
        lower_text(lower_text(s)) == lower_text(s),
{
    assert(lower_text(lower_text(s)) =~= lower_text(s));
}

/// The words of a text, one behind the other, are the text without its white
/// space.
pub proof fn law_words_leave_out_white_space_alone(s: Seq<char>)
    ensures
        joined(words(s), Seq::empty()) == s.filter(|c: char| !is_space(c)),
    decreases s.len(),
{
    reveal(Seq::filter);
    let none = Seq::<char>::empty();
    if s.len() > 0 {
        let front = s.drop_last();
        let c = s.last();
        let before = words(front);
        law_words_leave_out_white_space_alone(front);
        if is_space(c) {
        } else if s.len() > 1 && !is_space(s[s.len() - 2]) {
            assert(front.last() == s[s.len() - 2]);
            lemma_last_word(front);
            let all = words(s);
            assert(all.drop_last() =~= before.drop_last());
            assert(all.last() == before.last().push(c));
            if before.len() == 1 {
                assert(joined(all, none) =~= joined(before, none).push(c));
            } else {
                assert(joined(all, none) =~= joined(before, none).push(c));
            }
        } else {
            let all = words(s);
            assert(all.drop_last() =~= before);
            assert(all.last() == seq![c]);
            if before.len() == 0 {
                assert(joined(all, none) =~= joined(before, none).push(c));
            } else {
                assert(joined(all, none) =~= joined(before, none).push(c));
            }
        }
    }
}

/// Text is replaced from the left: what stands at the front goes, and a
/// character at which nothing to replace begins is kept.
pub proof fn law_text_is_replaced_from_the_left(
    s: Seq<char>,
    c: char,
    from: Seq<char>,
    to: Seq<char>,
)
    requires
        from.len() > 0,
    ensures
        replaced(Seq::empty(), from, to) == Seq::<char>::empty(),
        replaced(from + s, from, to) == to + replaced(s, from, to),
        !begins(seq![c] + s, from) ==> replaced(seq![c] + s, from, to) == seq![c] + replaced(
            s,
            from,
            to,
        ),
        !occurs(s, from) ==> replaced(s, from, to) == s,
    decreases s.len(),
{
    assert((from + s).take(from.len() as int) =~= from);
    assert((from + s).skip(from.len() as int) =~= s);
    assert((seq![c] + s).drop_first() =~= s);
    if !occurs(s, from) && s.len() > 0 {
        assert(s.skip(0) =~= s);
        assert(!begins(s.skip(0), from));
        let t = s.drop_first();
        assert forall|i: int| 0 <= i <= t.len() implies !(#[trigger] begins(t.skip(i), from)) by {
            assert(t.skip(i) =~= s.skip(i + 1));
            assert(!begins(s.skip(i + 1), from));
        }
        law_text_is_replaced_from_the_left(t, c, from, to);
        assert(replaced(s, from, to) =~= s);
    }
}

/// Texts are in order by the first character in which they differ, and one
/// that another goes on from comes before it. No text comes before itself.
pub proof fn law_texts_are_in_order(
    front: Seq<char>,
    a: char,
    b: char,
    x: Seq<char>,
    y: Seq<char>,
)
    ensures
        a != b ==> (precedes(front + seq![a] + x, front + seq![b] + y) <==> (a as u32) < (b as u32)),
        precedes(front, front + seq![a] + x),
        !precedes(front + seq![a] + x, front),
        !precedes(front, front),
    decreases front.len(),
{
    let (p, q) = (front + seq![a] + x, front + seq![b] + y);
    if front.len() > 0 {
        let rest = front.drop_first();
        law_texts_are_in_order(rest, a, b, x, y);
        assert(p.drop_first() =~= rest + seq![a] + x);
        assert(q.drop_first() =~= rest + seq![b] + y);
        assert(p[0] == front[0] && q[0] == front[0]);
    } else {
        assert(p[0] == a && q[0] == b);
    }
}

} // verus!
