//! Characters in text.
use vstd::prelude::*;

verus! {

broadcast use vstd::string::group_string_axioms;

/// How many characters of `s` stand before the first `c`: all of them where `c` does not occur.
pub open spec fn offset_of(s: Seq<char>, c: char) -> nat
    decreases s.len(),
{
    if s.len() == 0 || s.first() == c {
        0
    } else {
        1 + offset_of(s.drop_first(), c)
    }
}

/// What stands before the first `c` in `s`: the whole of `s` where `c` does not occur.
pub open spec fn before(s: Seq<char>, c: char) -> Seq<char> {
    s.take(offset_of(s, c) as int)
}

/// What stands after the first `c` in `s`.
pub open spec fn after(s: Seq<char>, c: char) -> Seq<char>
    recommends
        s.contains(c),
{
    s.skip(offset_of(s, c) as int + 1)
}

/// `offset_of` is the least position that holds `c`, and the length of the text where none does.
pub proof fn lemma_offset_of(s: Seq<char>, c: char)
    ensures
        offset_of(s, c) <= s.len(),
        forall|i: int| 0 <= i < offset_of(s, c) ==> s[i] != c,
        s.contains(c) <==> offset_of(s, c) < s.len(),
        s.contains(c) ==> s[offset_of(s, c) as int] == c,
    decreases s.len(),
{
    if s.len() > 0 && s.first() != c {
        let rest = s.drop_first();
        lemma_offset_of(rest, c);
        assert forall|i: int| 0 <= i < offset_of(s, c) implies s[i] != c by {
            if i > 0 {
                assert(rest[i - 1] == s[i]);
            }
        }
        if s.contains(c) {
            let i = choose|i: int| 0 <= i < s.len() && s[i] == c;
            assert(rest[i - 1] == c);
        }
        if offset_of(s, c) < s.len() {
            assert(s[offset_of(s, c) as int] == rest[offset_of(rest, c) as int]);
        }
    }
}

/// Where `front` does not hold `c`, it is what stands before the first `c` of `front`, `c`, `back`,
/// and `back` is what stands after it.
pub proof fn lemma_split(front: Seq<char>, c: char, back: Seq<char>)
    requires
        !front.contains(c),
    ensures
        (front.push(c) + back).contains(c),
        before(front.push(c) + back, c) == front,
        after(front.push(c) + back, c) == back,
{
    let s = front.push(c) + back;
    lemma_offset_of(s, c);
    assert(s[front.len() as int] == c);
    let n = offset_of(s, c) as int;
    if n < front.len() {
        assert(front[n] == c);
    }
    assert(before(s, c) =~= front);
    assert(after(s, c) =~= back);
}

/// Counts the characters before the first `c`.
fn offset(s: &str, c: char) -> (n: usize)
    ensures
        n == offset_of(s@, c),
{
    let len: usize = s.unicode_len();
    let mut n: usize = 0;
    proof {
        lemma_offset_of(s@, c);
    }
    for ch in it: s.chars()
        invariant
            len == s@.len(),
            it.seq() == s@,
            n == it.index(),
            n <= offset_of(s@, c) <= len,
            offset_of(s@, c) < len ==> s@[offset_of(s@, c) as int] == c,
            forall|i: int| 0 <= i < offset_of(s@, c) ==> s@[i] != c,
    {
        if ch == c {
            return n;
        }
        n = n + 1;
    }
    n
}

/// Whether `c` occurs in `s`.
pub fn contains_char(s: &str, c: char) -> (found: bool)
    ensures
        found == s@.contains(c),
{
    proof {
        lemma_offset_of(s@, c);
    }
    offset(s, c) < s.unicode_len()
}

/// The part of `s` before the first `c`, or the whole of `s` where `c` does not occur.
pub fn split_before(s: &str, c: char) -> (part: &str)
    ensures
        part@ == before(s@, c),
{
    proof {
        lemma_offset_of(s@, c);
    }
    s.substring_char(0, offset(s, c))
}

} // verus!
