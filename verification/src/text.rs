//! Character-level helpers shared by the name and path routines.

use vstd::prelude::*;
use vstd::string::*;

verus! {

/// The characters of `s`, in order.
pub fn str_chars(s: &str) -> (chars: Vec<char>)
    ensures
        chars@ == s@,
{
    let n = s.unicode_len();
    let mut chars: Vec<char> = Vec::new();
    let mut i: usize = 0;
    while i < n
        invariant
            n == s@.len(),
            i <= n,
            chars@ == s@.subrange(0, i as int),
        decreases n - i,
    {
        chars.push(s.get_char(i));
        i = i + 1;
    }
    assert(chars@ == s@);
    chars
}

/// `needle` occurs in `hay` starting at index `at`.
pub open spec fn occurs_at<A>(hay: Seq<A>, needle: Seq<A>, at: int) -> bool {
    &&& 0 <= at
    &&& at + needle.len() <= hay.len()
    &&& hay.subrange(at, at + needle.len()) == needle
}

/// `needle` occurs somewhere in `hay` (an empty needle occurs everywhere).
pub open spec fn contains_seq<A>(hay: Seq<A>, needle: Seq<A>) -> bool {
    exists|at: int| occurs_at(hay, needle, at)
}

/// Whether `needle` occurs in `hay` at index `at`.
fn chars_occur_at(hay: &Vec<char>, needle: &Vec<char>, at: usize) -> (b: bool)
    ensures
        b == occurs_at(hay@, needle@, at as int),
{
    if at > hay.len() || needle.len() > hay.len() - at {
        return false;
    }
    let mut k: usize = 0;
    while k < needle.len()
        invariant
            at + needle.len() <= hay.len(),
            k <= needle@.len(),
            forall|j: int| 0 <= j < k ==> hay@[at + j] == needle@[j],
        decreases needle@.len() - k,
    {
        if hay[at + k] != needle[k] {
            assert(hay@.subrange(at as int, at + needle@.len())[k as int] != needle@[k as int]);
            return false;
        }
        k = k + 1;
    }
    assert(hay@.subrange(at as int, at + needle@.len()) =~= needle@);
    true
}

/// Substring search on text, as `str::contains` with a string pattern.
pub fn str_contains(hay: &str, needle: &str) -> (b: bool)
    ensures
        b == contains_seq(hay@, needle@),
{
    let h = str_chars(hay);
    let n = str_chars(needle);
    let mut at: usize = 0;
    while at < h.len()
        invariant
            h@ == hay@,
            n@ == needle@,
            at <= h@.len(),
            forall|j: int| 0 <= j < at ==> !occurs_at(hay@, needle@, j),
        decreases h@.len() - at,
    {
        if chars_occur_at(&h, &n, at) {
            return true;
        }
        at = at + 1;
    }
    if chars_occur_at(&h, &n, at) {
        return true;
    }
    assert forall|j: int| !occurs_at(hay@, needle@, j) by {
        if j > at {
            assert(j + needle@.len() > hay@.len());
        }
    }
    false
}

/// `s` without its leading NUL characters.
pub open spec fn trim_leading_nul(s: Seq<char>) -> Seq<char>
    decreases s.len(),
{
    if s.len() > 0 && s[0] == '\0' {
        trim_leading_nul(s.drop_first())
    } else {
        s
    }
}

/// `s` without its trailing NUL characters.
pub open spec fn trim_trailing_nul(s: Seq<char>) -> Seq<char>
    decreases s.len(),
{
    if s.len() > 0 && s.last() == '\0' {
        trim_trailing_nul(s.drop_last())
    } else {
        s
    }
}

/// `s` without its leading and trailing NUL characters, as
/// `str::trim_matches('\0')`.
pub open spec fn trim_nul(s: Seq<char>) -> Seq<char> {
    trim_trailing_nul(trim_leading_nul(s))
}

proof fn lemma_trim_leading(s: Seq<char>, a: int)
    requires
        0 <= a <= s.len(),
        forall|j: int| 0 <= j < a ==> s[j] == '\0',
        a == s.len() || s[a] != '\0',
    ensures
        trim_leading_nul(s) == s.subrange(a, s.len() as int),
    decreases a,
{
    if a == 0 {
        assert(s.subrange(0, s.len() as int) =~= s);
    } else {
        let t = s.drop_first();
        assert forall|j: int| 0 <= j < a - 1 implies t[j] == '\0' by {
            assert(t[j] == s[j + 1]);
        }
        lemma_trim_leading(t, a - 1);
        assert(t.subrange(a - 1, t.len() as int) =~= s.subrange(a, s.len() as int));
    }
}

proof fn lemma_trim_trailing(s: Seq<char>, b: int)
    requires
        0 <= b <= s.len(),
        forall|j: int| b <= j < s.len() ==> s[j] == '\0',
        b == 0 || s[b - 1] != '\0',
    ensures
        trim_trailing_nul(s) == s.subrange(0, b),
    decreases s.len() - b,
{
    if b == s.len() {
        assert(s.subrange(0, b) =~= s);
    } else {
        let t = s.drop_last();
        lemma_trim_trailing(t, b);
        assert(t.subrange(0, b) =~= s.subrange(0, b));
    }
}

proof fn lemma_trim_leading_shape(s: Seq<char>)
    ensures
        trim_leading_nul(s).len() == 0 || trim_leading_nul(s)[0] != '\0',
        exists|a: int| 0 <= a <= s.len() && trim_leading_nul(s) == #[trigger] s.subrange(a, s.len() as int),
    decreases s.len(),
{
    if s.len() > 0 && s[0] == '\0' {
        let t = s.drop_first();
        lemma_trim_leading_shape(t);
        let a = choose|a: int| 0 <= a <= t.len() && trim_leading_nul(t) == #[trigger] t.subrange(a, t.len() as int);
        assert(t.subrange(a, t.len() as int) =~= s.subrange(a + 1, s.len() as int));
    } else {
        assert(s.subrange(0, s.len() as int) =~= s);
    }
}

proof fn lemma_trim_trailing_shape(s: Seq<char>)
    ensures
        trim_trailing_nul(s).len() == 0 || trim_trailing_nul(s).last() != '\0',
        exists|b: int| 0 <= b <= s.len() && trim_trailing_nul(s) == #[trigger] s.subrange(0, b),
    decreases s.len(),
{
    if s.len() > 0 && s.last() == '\0' {
        let t = s.drop_last();
        lemma_trim_trailing_shape(t);
        let b = choose|b: int| 0 <= b <= t.len() && trim_trailing_nul(t) == #[trigger] t.subrange(0, b);
        assert(t.subrange(0, b) =~= s.subrange(0, b));
    } else {
        assert(s.subrange(0, s.len() as int) =~= s);
    }
}

/// A string with its NUL padding removed occurs inside the string.
pub proof fn lemma_trim_nul_occurs_in(s: Seq<char>)
    ensures
        contains_seq(s, trim_nul(s)),
{
    let l = trim_leading_nul(s);
    lemma_trim_leading_shape(s);
    lemma_trim_trailing_shape(l);
    let a = choose|a: int| 0 <= a <= s.len() && l == #[trigger] s.subrange(a, s.len() as int);
    let b = choose|b: int| 0 <= b <= l.len() && trim_trailing_nul(l) == #[trigger] l.subrange(0, b);
    assert(trim_nul(s) =~= s.subrange(a, a + b));
    assert(occurs_at(s, trim_nul(s), a));
}

/// A name with its NUL padding removed neither starts nor ends with NUL,
/// and removing the padding again changes nothing.
pub proof fn lemma_trim_nul_is_clean(s: Seq<char>)
    ensures
        trim_nul(s).len() == 0 || (trim_nul(s)[0] != '\0' && trim_nul(s).last() != '\0'),
        trim_nul(trim_nul(s)) == trim_nul(s),
{
    let l = trim_leading_nul(s);
    lemma_trim_leading_shape(s);
    lemma_trim_trailing_shape(l);
    let t = trim_trailing_nul(l);
    let b = choose|b: int| 0 <= b <= l.len() && t == #[trigger] l.subrange(0, b);
    if t.len() > 0 {
        assert(t[0] == l[0]);
    }
    // t has no leading NUL, so the leading trim leaves it alone
    assert(trim_leading_nul(t) == t);
    // t has no trailing NUL, so the trailing trim leaves it alone
    assert(trim_trailing_nul(t) == t);
}

/// `s` with leading and trailing NUL characters removed.
pub fn trim_nul_str(s: &str) -> (trimmed: String)
    ensures
        trimmed@ == trim_nul(s@),
{
    let chars = str_chars(s);
    let n = chars.len();
    let mut a: usize = 0;
    while a < n && chars[a] == '\0'
        invariant
            n == chars@.len(),
            a <= n,
            forall|j: int| 0 <= j < a ==> chars@[j] == '\0',
        decreases n - a,
    {
        a = a + 1;
    }
    let mut b: usize = n;
    while b > a && chars[b - 1] == '\0'
        invariant
            n == chars@.len(),
            a <= b <= n,
            forall|j: int| b <= j < n ==> chars@[j] == '\0',
        decreases b,
    {
        b = b - 1;
    }
    proof {
        lemma_trim_leading(s@, a as int);
        let t = s@.subrange(a as int, n as int);
        assert forall|j: int| b - a <= j < t.len() implies t[j] == '\0' by {
            assert(t[j] == s@[a + j]);
        }
        if b > a {
            assert(t[b - a - 1] == s@[b - 1]);
        }
        lemma_trim_trailing(t, b - a);
        assert(t.subrange(0, b - a) =~= s@.subrange(a as int, b as int));
    }
    s.substring_char(a, b).to_owned()
}

} // verus!
