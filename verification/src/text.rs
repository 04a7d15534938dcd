//! Whitespace as Unicode defines it (the `White_Space` property), trailing
//! whitespace removal, and splitting a line into whitespace-separated words.

use vstd::prelude::*;

verus! {

/// `c` has the Unicode `White_Space` property.
pub open spec fn is_space(c: char) -> bool {
    let v = c as u32;
    ||| 0x09 <= v <= 0x0D
    ||| v == 0x20
    ||| v == 0x85
    ||| v == 0xA0
    ||| v == 0x1680
    ||| 0x2000 <= v <= 0x200A
    ||| v == 0x2028
    ||| v == 0x2029
    ||| v == 0x202F
    ||| v == 0x205F
    ||| v == 0x3000
}

/// Decides `is_space`.
pub fn is_space_char(c: char) -> (b: bool)
    ensures
        b == is_space(c),
{
    let v = c as u32;
    (0x09 <= v && v <= 0x0D) || v == 0x20 || v == 0x85 || v == 0xA0 || v == 0x1680 || (0x2000
        <= v && v <= 0x200A) || v == 0x2028 || v == 0x2029 || v == 0x202F || v == 0x205F || v
        == 0x3000
}

/// The length of `s` once its trailing whitespace is removed.
pub open spec fn trimmed_len(s: Seq<char>) -> nat
    decreases s.len(),
{
    if s.len() == 0 {
        0
    } else if is_space(s.last()) {
        trimmed_len(s.drop_last())
    } else {
        s.len()
    }
}

/// `s` without its trailing whitespace.
pub open spec fn trimmed_end(s: Seq<char>) -> Seq<char> {
    s.subrange(0, trimmed_len(s) as int)
}

/// Removes trailing whitespace, as `str::trim_end` does.
pub fn trim_end(s: &str) -> (r: String)
    ensures
        r@ == trimmed_end(s@),
{
    let n = s.unicode_len();
    let mut i = n;
    assert(s@.subrange(0, n as int) =~= s@);
    while i > 0 && is_space_char(s.get_char(i - 1))
        invariant
            i <= n,
            n == s@.len(),
            trimmed_len(s@) == trimmed_len(s@.subrange(0, i as int)),
        decreases i,
    {
        assert(s@.subrange(0, i as int).drop_last() =~= s@.subrange(0, i - 1));
        i = i - 1;
    }
    proof {
        if i > 0 {
            assert(!is_space(s@.subrange(0, i as int).last()));
        }
    }
    String::from_str(s.substring_char(0, i))
}

/// The index just past the word that starts at `i`: the first whitespace
/// character at or after `i`, or the end of `s`.
pub open spec fn word_end(s: Seq<char>, i: int) -> int
    decreases s.len() - i,
{
    if i >= s.len() || is_space(s[i]) {
        i
    } else {
        word_end(s, i + 1)
    }
}

pub proof fn lemma_word_end_bounds(s: Seq<char>, i: int)
    ensures
        i <= word_end(s, i),
        i <= s.len() ==> word_end(s, i) <= s.len(),
    decreases s.len() - i,
{
    if !(i >= s.len() || is_space(s[i])) {
        lemma_word_end_bounds(s, i + 1);
    }
}

/// The whitespace-separated words of `s` from index `i` on, in order, as
/// `str::split_whitespace` yields them.
pub open spec fn words_from(s: Seq<char>, i: int) -> Seq<Seq<char>>
    decreases s.len() - i,
{
    if i >= s.len() {
        seq![]
    } else if is_space(s[i]) {
        words_from(s, i + 1)
    } else {
        proof {
            lemma_word_end_bounds(s, i + 1);
        }
        seq![s.subrange(i, word_end(s, i))] + words_from(s, word_end(s, i))
    }
}

/// The whitespace-separated words of `s`.
pub open spec fn words(s: Seq<char>) -> Seq<Seq<char>> {
    words_from(s, 0)
}

/// Finds the first word of `s` at or after character index `from`, as the
/// pair of character indices that bound it.
pub fn next_word(s: &str, from: usize) -> (r: Option<(usize, usize)>)
    requires
        from <= s@.len(),
    ensures
        match r {
            None => words_from(s@, from as int) =~= Seq::<Seq<char>>::empty(),
            Some((a, b)) => {
                &&& from <= a < b <= s@.len()
                &&& b == word_end(s@, a as int)
                &&& words_from(s@, from as int) =~= seq![s@.subrange(a as int, b as int)]
                    + words_from(s@, b as int)
            },
        },
{
    let n = s.unicode_len();
    let mut a = from;
    while a < n && is_space_char(s.get_char(a))
        invariant
            from <= a <= n,
            n == s@.len(),
            words_from(s@, from as int) == words_from(s@, a as int),
        decreases n - a,
    {
        a = a + 1;
    }
    if a == n {
        return None;
    }
    let mut b = a + 1;
    while b < n && !is_space_char(s.get_char(b))
        invariant
            a < b <= n,
            n == s@.len(),
            word_end(s@, a as int) == word_end(s@, b as int),
        decreases n - b,
    {
        b = b + 1;
    }
    Some((a, b))
}

} // verus!
