//! Character-level helpers on string slices: searching, splitting and trimming.
//!
//! Every function here is stated over the sequence of characters of its
//! arguments, so positions count characters, never bytes.

use vstd::prelude::*;

verus! {

/// `pat` stands in `s` at position `i`.
pub open spec fn occurs_at(s: Seq<char>, pat: Seq<char>, i: int) -> bool {
    &&& 0 <= i
    &&& i + pat.len() <= s.len()
    &&& s.subrange(i, i + pat.len()) == pat
}

/// `pat` stands in `s` at position `i` and at no earlier position.
pub open spec fn is_first_occurrence(s: Seq<char>, pat: Seq<char>, i: int) -> bool {
    &&& occurs_at(s, pat, i)
    &&& forall|j: int| 0 <= j < i ==> !occurs_at(s, pat, j)
}

/// The leftmost position at which `pat` stands in `s`, if there is one.
pub open spec fn first_occurrence(s: Seq<char>, pat: Seq<char>) -> Option<int> {
    if exists|i: int| is_first_occurrence(s, pat, i) {
        Some(choose|i: int| is_first_occurrence(s, pat, i))
    } else {
        None
    }
}

/// The text before and the text after the leftmost occurrence of `pat` in `s`.
/// Later occurrences of `pat` stay in the second part.
pub open spec fn split_at_first(s: Seq<char>, pat: Seq<char>) -> Option<(Seq<char>, Seq<char>)> {
    match first_occurrence(s, pat) {
        Some(i) => Some((s.subrange(0, i), s.subrange(i + pat.len(), s.len() as int))),
        None => None,
    }
}

/// The characters with the Unicode property `White_Space`.
pub open spec fn is_space(c: char) -> bool {
    let u = c as u32;
    ||| 0x09 <= u <= 0x0D
    ||| u == 0x20
    ||| u == 0x85
    ||| u == 0xA0
    ||| u == 0x1680
    ||| 0x2000 <= u <= 0x200A
    ||| u == 0x2028
    ||| u == 0x2029
    ||| u == 0x202F
    ||| u == 0x205F
    ||| u == 0x3000
}

/// `s` without its leading white space.
pub open spec fn trimmed_start(s: Seq<char>) -> Seq<char>
    decreases s.len(),
{
    if s.len() > 0 && is_space(s[0]) {
        trimmed_start(s.skip(1))
    } else {
        s
    }
}

/// `s` without its trailing white space.
pub open spec fn trimmed_end(s: Seq<char>) -> Seq<char>
    decreases s.len(),
{
    if s.len() > 0 && is_space(s.last()) {
        trimmed_end(s.drop_last())
    } else {
        s
    }
}

/// `s` without leading and trailing white space.
pub open spec fn trimmed(s: Seq<char>) -> Seq<char> {
    trimmed_end(trimmed_start(s))
}

/// `s` without its first character; the empty text stays empty.
pub open spec fn without_first(s: Seq<char>) -> Seq<char> {
    if s.len() == 0 {
        s
    } else {
        s.skip(1)
    }
}

/// How often the character `c` stands in `s`.
pub open spec fn count_of(s: Seq<char>, c: char) -> nat
    decreases s.len(),
{
    if s.len() == 0 {
        0
    } else {
        count_of(s.drop_last(), c) + if s.last() == c {
            1nat
        } else {
            0nat
        }
    }
}

/// A position that satisfies `is_first_occurrence` is the one `first_occurrence` names.
pub proof fn lemma_first_occurrence_is(s: Seq<char>, pat: Seq<char>, i: int)
    requires
        is_first_occurrence(s, pat, i),
    ensures
        first_occurrence(s, pat) == Some(i),
{
    let k = choose|k: int| is_first_occurrence(s, pat, k);
    assert(is_first_occurrence(s, pat, k));
    if k < i {
        assert(!occurs_at(s, pat, k));
    } else if i < k {
        assert(!occurs_at(s, pat, i));
    }
}

/// Where `pat` stands nowhere in `s`, `first_occurrence` names no position.
pub proof fn lemma_first_occurrence_none(s: Seq<char>, pat: Seq<char>)
    requires
        forall|j: int| 0 <= j <= s.len() - pat.len() ==> !occurs_at(s, pat, j),
    ensures
        first_occurrence(s, pat) is None,
{
    if exists|i: int| is_first_occurrence(s, pat, i) {
        let k = choose|k: int| is_first_occurrence(s, pat, k);
        assert(occurs_at(s, pat, k));
    }
}

/// A text put together as `before`, `pat`, `after` splits into `before` and
/// `after`, where the first character of `pat` occurs nowhere in `before`.
pub proof fn lemma_split_at_first_joined(before: Seq<char>, pat: Seq<char>, after: Seq<char>)
    requires
        pat.len() > 0,
        forall|i: int| 0 <= i < before.len() ==> before[i] != pat[0],
    ensures
        split_at_first(before + pat + after, pat) == Some((before, after)),
{
    let s = before + pat + after;
    let k = before.len() as int;
    assert(s.subrange(k, k + pat.len()) =~= pat);
    assert forall|j: int| 0 <= j < k implies !occurs_at(s, pat, j) by {
        if occurs_at(s, pat, j) {
            assert(s.subrange(j, j + pat.len())[0] == s[j]);
            assert(s[j] == before[j]);
        }
    }
    lemma_first_occurrence_is(s, pat, k);
    assert(s.subrange(0, k) =~= before);
    assert(s.subrange(k + pat.len(), s.len() as int) =~= after);
}

/// White space before a text that neither begins nor ends with white space
/// is all that trimming removes.
pub proof fn lemma_trimmed_padding(padding: Seq<char>, core: Seq<char>)
    requires
        forall|i: int| 0 <= i < padding.len() ==> is_space(padding[i]),
        core.len() > 0,
        !is_space(core[0]),
        !is_space(core.last()),
    ensures
        trimmed(padding + core) == core,
    decreases padding.len(),
{
    if padding.len() == 0 {
        assert(padding + core =~= core);
    } else {
        assert((padding + core)[0] == padding[0]);
        assert((padding + core).skip(1) =~= padding.skip(1) + core);
        lemma_trimmed_padding(padding.skip(1), core);
    }
}

/// Counting a character in two texts and in their concatenation agree.
pub proof fn lemma_count_of_concat(a: Seq<char>, b: Seq<char>, c: char)
    ensures
        count_of(a + b, c) == count_of(a, c) + count_of(b, c),
    decreases b.len(),
{
    if b.len() == 0 {
        assert(a + b =~= a);
    } else {
        assert((a + b).drop_last() =~= a + b.drop_last());
        lemma_count_of_concat(a, b.drop_last(), c);
    }
}

/// A character that stands nowhere in a text is counted zero times.
pub proof fn lemma_count_of_absent(s: Seq<char>, c: char)
    requires
        forall|i: int| 0 <= i < s.len() ==> s[i] != c,
    ensures
        count_of(s, c) == 0,
    decreases s.len(),
{
    if s.len() > 0 {
        lemma_count_of_absent(s.drop_last(), c);
    }
}

/// Splitting at a single character takes exactly one occurrence of it away:
/// the part before holds none, the part after holds all the others. A text
/// that cannot be split holds none.
pub proof fn lemma_split_at_first_count(s: Seq<char>, c: char)
    ensures
        match split_at_first(s, seq![c]) {
            Some((before, after)) => count_of(before, c) == 0 && count_of(s, c) == count_of(
                after,
                c,
            ) + 1,
            None => count_of(s, c) == 0,
        },
{
    let pat = seq![c];
    match first_occurrence(s, pat) {
        Some(i) => {
            assert(is_first_occurrence(s, pat, i));
            let before = s.subrange(0, i);
            let after = s.subrange(i + 1, s.len() as int);
            assert forall|j: int| 0 <= j < before.len() implies before[j] != c by {
                if before[j] == c {
                    assert(s.subrange(j, j + 1) =~= pat);
                    assert(occurs_at(s, pat, j));
                }
            }
            lemma_count_of_absent(before, c);
            assert(s =~= before + pat + after);
            lemma_count_of_concat(before + pat, after, c);
            lemma_count_of_concat(before, pat, c);
            assert(pat.drop_last() =~= Seq::<char>::empty());
            assert(count_of(pat.drop_last(), c) == 0);
            assert(pat.last() == c);
            assert(count_of(pat, c) == 1);
        },
        None => {
            assert forall|j: int| 0 <= j < s.len() implies s[j] != c by {
                if s[j] == c {
                    assert(s.subrange(j, j + 1) =~= pat);
                    assert(occurs_at(s, pat, j));
                    lemma_some_occurrence_is_first(s, pat, j);
                }
            }
            lemma_count_of_absent(s, c);
        },
    }
}

/// Where `pat` stands somewhere in `s`, it stands somewhere first.
pub proof fn lemma_some_occurrence_is_first(s: Seq<char>, pat: Seq<char>, i: int)
    requires
        occurs_at(s, pat, i),
    ensures
        first_occurrence(s, pat) is Some,
    decreases i,
{
    if exists|j: int| 0 <= j < i && occurs_at(s, pat, j) {
        let j = choose|j: int| 0 <= j < i && occurs_at(s, pat, j);
        lemma_some_occurrence_is_first(s, pat, j);
    } else {
        lemma_first_occurrence_is(s, pat, i);
    }
}

/// Collects the characters of `s` in order.
pub fn chars_of(s: &str) -> (chars: Vec<char>)
    ensures
        chars@ == s@,
{
    let mut chars: Vec<char> = Vec::new();
    for c in it: s.chars()
        invariant
            it.seq() == s@,
            chars@ == s@.take(it.index() as int),
    {
        chars.push(c);
    }
    chars
}

/// Tells whether `c` is white space.
pub fn is_whitespace(c: char) -> (yes: bool)
    ensures
        yes == is_space(c),
{
    let u: u32 = c as u32;
    (0x09 <= u && u <= 0x0D) || u == 0x20 || u == 0x85 || u == 0xA0 || u == 0x1680 || (0x2000 <= u
        && u <= 0x200A) || u == 0x2028 || u == 0x2029 || u == 0x202F || u == 0x205F || u == 0x3000
}

/// Tells whether `pat` stands in `s` at position `i`.
fn matches_at(s: &Vec<char>, pat: &Vec<char>, i: usize) -> (yes: bool)
    requires
        i + pat.len() <= s.len(),
    ensures
        yes == occurs_at(s@, pat@, i as int),
{
    let mut k: usize = 0;
    while k < pat.len()
        invariant
            k <= pat.len(),
            i + pat.len() <= s.len(),
            forall|j: int| 0 <= j < k ==> s@[i + j] == pat@[j],
        decreases pat.len() - k,
    {
        if s[i + k] != pat[k] {
            proof {
                let sub = s@.subrange(i as int, i + pat.len());
                assert(sub[k as int] == s@[i + k]);
            }
            return false;
        }
        k += 1;
    }
    assert(s@.subrange(i as int, i + pat.len()) =~= pat@);
    true
}

/// Finds the leftmost position at which `pat` stands in `s`.
fn find(s: &Vec<char>, pat: &Vec<char>) -> (at: Option<usize>)
    ensures
        match at {
            Some(i) => is_first_occurrence(s@, pat@, i as int) && first_occurrence(s@, pat@)
                == Some(i as int),
            None => first_occurrence(s@, pat@) is None,
        },
{
    if pat.len() > s.len() {
        proof {
            lemma_first_occurrence_none(s@, pat@);
        }
        return None;
    }
    let last: usize = s.len() - pat.len();
    let mut i: usize = 0;
    while i < last
        invariant
            last == s.len() - pat.len(),
            i <= last,
            forall|j: int| 0 <= j < i ==> !occurs_at(s@, pat@, j),
        decreases last - i,
    {
        if matches_at(s, pat, i) {
            proof {
                lemma_first_occurrence_is(s@, pat@, i as int);
            }
            return Some(i);
        }
        i += 1;
    }
    if matches_at(s, pat, last) {
        proof {
            lemma_first_occurrence_is(s@, pat@, last as int);
        }
        Some(last)
    } else {
        proof {
            lemma_first_occurrence_none(s@, pat@);
        }
        None
    }
}

/// Tells whether `s` begins with `prefix`.
pub fn starts_with(s: &str, prefix: &str) -> (yes: bool)
    ensures
        yes == prefix@.is_prefix_of(s@),
{
    let text = chars_of(s);
    let head = chars_of(prefix);
    if head.len() > text.len() {
        return false;
    }
    let yes = matches_at(&text, &head, 0);
    proof {
        assert(text@.subrange(0, head@.len() as int) == head@ <==> head@.is_prefix_of(text@)) by {
            if head@.is_prefix_of(text@) {
                assert(text@.subrange(0, head@.len() as int) =~= head@);
            }
        }
    }
    yes
}

/// Splits `s` at the leftmost occurrence of `pat`, which goes to neither part.
pub fn split_once<'a>(s: &'a str, pat: &str) -> (parts: Option<(&'a str, &'a str)>)
    ensures
        match parts {
            Some((before, after)) => split_at_first(s@, pat@) == Some((before@, after@)),
            None => split_at_first(s@, pat@) is None,
        },
{
    let text = chars_of(s);
    let needle = chars_of(pat);
    match find(&text, &needle) {
        Some(i) => {
            let n = text.len();
            assert(occurs_at(text@, needle@, i as int));
            let before = s.substring_char(0, i);
            let after = s.substring_char(i + needle.len(), n);
            Some((before, after))
        },
        None => None,
    }
}

/// Removes the first character of `s`, if it has one.
pub fn skip_first(s: &str) -> (rest: &str)
    ensures
        rest@ == without_first(s@),
{
    let n = s.unicode_len();
    if n == 0 {
        s
    } else {
        let rest = s.substring_char(1, n);
        assert(rest@ =~= s@.skip(1));
        rest
    }
}

/// Removes leading and trailing white space from `s`.
pub fn trim(s: &str) -> (core: &str)
    ensures
        core@ == trimmed(s@),
{
    let text = chars_of(s);
    let n = text.len();
    let mut lo: usize = 0;
    assert(text@.skip(0) =~= text@);
    while lo < n && is_whitespace(text[lo])
        invariant
            n == text@.len(),
            lo <= n,
            trimmed_start(text@) == trimmed_start(text@.skip(lo as int)),
        decreases n - lo,
    {
        proof {
            let rest = text@.skip(lo as int);
            assert(rest[0] == text@[lo as int]);
            assert(rest.skip(1) =~= text@.skip(lo + 1));
        }
        lo += 1;
    }
    proof {
        let rest = text@.skip(lo as int);
        if lo < n {
            assert(rest[0] == text@[lo as int]);
        }
        assert(trimmed_start(text@) == rest);
    }
    let mut hi: usize = n;
    while hi > lo && is_whitespace(text[hi - 1])
        invariant
            n == text@.len(),
            lo <= hi <= n,
            trimmed_end(text@.skip(lo as int)) == trimmed_end(text@.subrange(lo as int, hi as int)),
        decreases hi - lo,
    {
        proof {
            let part = text@.subrange(lo as int, hi as int);
            assert(part.last() == text@[hi - 1]);
            assert(part.drop_last() =~= text@.subrange(lo as int, hi - 1));
        }
        hi -= 1;
    }
    proof {
        let part = text@.subrange(lo as int, hi as int);
        if hi > lo {
            assert(part.last() == text@[hi - 1]);
        }
        assert(trimmed_end(part) == part);
    }
    s.substring_char(lo, hi)
}

} // verus!
