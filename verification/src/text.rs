use vstd::prelude::*;

verus! {

broadcast use vstd::string::axiom_spec_iter;

/// `String::push`: appends one character to the end of the string.
#[verifier::external_body]
pub(crate) fn push_char(s: &mut String, c: char)
    ensures
        final(s)@ == old(s)@.push(c),
{
    s.push(c);
}

/// The characters of `s`, in order.
pub fn chars_of(s: &str) -> (r: Vec<char>)
    ensures
        r@ == s@,
{
    let mut r: Vec<char> = Vec::new();
    for c in it: s.chars()
        invariant
            it.seq() == s@,
            r@ == it.seq().take(it.index()),
    {
        r.push(c);
    }
    r
}

/// A string made of the characters `cs[lo..hi]`, in order.
pub fn string_from_char_range(cs: &[char], lo: usize, hi: usize) -> (r: String)
    requires
        lo <= hi <= cs@.len(),
    ensures
        r@ == cs@.subrange(lo as int, hi as int),
{
    let mut r = String::new();
    let mut i: usize = lo;
    while i < hi
        invariant
            lo <= i <= hi <= cs@.len(),
            r@ == cs@.subrange(lo as int, i as int),
        decreases hi - i,
    {
        push_char(&mut r, cs[i]);
        assert(cs@.subrange(lo as int, i + 1) == cs@.subrange(lo as int, i as int).push(
            cs@[i as int],
        ));
        i = i + 1;
    }
    r
}

/// Whether `pat` occurs in `s` starting at index `i`.
pub open spec fn occurs_at(s: Seq<char>, pat: Seq<char>, i: int) -> bool {
    0 <= i && i + pat.len() <= s.len() && s.subrange(i, i + pat.len()) == pat
}

/// The first index at or after `i` where `pat` occurs in `s`.
pub open spec fn first_occurrence_from(s: Seq<char>, pat: Seq<char>, i: int) -> Option<int>
    decreases s.len() - i,
{
    if i < 0 || i + pat.len() > s.len() {
        None
    } else if occurs_at(s, pat, i) {
        Some(i)
    } else if i + pat.len() == s.len() {
        None
    } else {
        first_occurrence_from(s, pat, i + 1)
    }
}

/// `first_occurrence_from` finds an occurrence at or after `i` and none lies
/// between `i` and it; if it finds none, `pat` occurs nowhere at or after `i`.
pub proof fn lemma_first_occurrence_from(s: Seq<char>, pat: Seq<char>, i: int)
    requires
        0 <= i,
    ensures
        first_occurrence_from(s, pat, i) matches Some(k) ==> i <= k && occurs_at(s, pat, k)
            && forall|j: int| i <= j < k ==> !#[trigger] occurs_at(s, pat, j),
        first_occurrence_from(s, pat, i) is None ==> forall|j: int|
            i <= j ==> !#[trigger] occurs_at(s, pat, j),
    decreases s.len() - i,
{
    if i + pat.len() <= s.len() && !occurs_at(s, pat, i) && i + pat.len() < s.len() {
        lemma_first_occurrence_from(s, pat, i + 1);
    }
}

fn matches_at(s: &[char], pat: &[char], i: usize) -> (r: bool)
    requires
        i + pat@.len() <= s@.len(),
    ensures
        r == occurs_at(s@, pat@, i as int),
{
    let slen = s.len();
    let mut j: usize = 0;
    while j < pat.len()
        invariant
            slen == s@.len(),
            j <= pat@.len(),
            i + pat@.len() <= s@.len(),
            s@.subrange(i as int, i + j) == pat@.take(j as int),
        decreases pat@.len() - j,
    {
        assert(i + j < s@.len());
        if s[i + j] != pat[j] {
            assert(s@.subrange(i as int, i + pat@.len())[j as int] != pat@[j as int]);
            return false;
        }
        assert(s@.subrange(i as int, i + j + 1) == pat@.take(j + 1));
        j = j + 1;
    }
    assert(pat@.take(pat@.len() as int) == pat@);
    true
}

/// The first index at or after `start` where `pat` occurs in `s`, if any.
pub fn find_first_from(s: &[char], pat: &[char], start: usize) -> (r: Option<usize>)
    ensures
        match (r, first_occurrence_from(s@, pat@, start as int)) {
            (Some(i), Some(j)) => i == j,
            (None, None) => true,
            _ => false,
        },
{
    let slen = s.len();
    let plen = pat.len();
    if start > slen || plen > slen - start {
        return None;
    }
    let mut i: usize = start;
    loop
        invariant
            slen == s@.len(),
            plen == pat@.len(),
            start <= i,
            i + plen <= slen,
            first_occurrence_from(s@, pat@, start as int) == first_occurrence_from(
                s@,
                pat@,
                i as int,
            ),
        decreases slen - i,
    {
        if matches_at(s, pat, i) {
            return Some(i);
        }
        if i + plen == slen {
            return None;
        }
        i = i + 1;
    }
}

} // verus!
