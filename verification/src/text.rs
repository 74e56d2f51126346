use vstd::prelude::*;
use vstd::string::StringSliceAdditionalSpecFns;
use vstd::string::StrSliceExecFns;
use vstd::utf8::{decode_utf8, valid_utf8};

verus! {

broadcast use vstd::utf8::encode_utf8_decode_utf8;

/// Wraps `core::str::from_utf8`. Its documentation says that it answers a
/// string slice exactly when `bytes` are valid UTF-8, and that the slice
/// is made of those very bytes.
#[verifier::external_body]
pub(crate) fn str_from_utf8(bytes: &[u8]) -> (text: Option<&str>)
    ensures
        text is Some <==> valid_utf8(bytes@),
        text matches Some(t) ==> t.spec_bytes() == bytes@,
{
    core::str::from_utf8(bytes).ok()
}

/// Reads `bytes` as UTF-8 text: the characters they encode, or `None` when
/// they are not valid UTF-8.
pub(crate) fn utf8_text(bytes: &[u8]) -> (text: Option<&str>)
    ensures
        text is Some <==> valid_utf8(bytes@),
        text matches Some(t) ==> t@ == decode_utf8(bytes@),
{
    let text = str_from_utf8(bytes);
    proof {
        if let Some(t) = text {
            assert(decode_utf8(vstd::utf8::encode_utf8(t@)) == t@);
        }
    }
    text
}

/// Whether `c` is white space as `char::is_whitespace` has it: the
/// characters with the Unicode `White_Space` property.
pub open spec fn is_space(c: char) -> bool {
    let u = c as u32;
    ||| u == 0x20
    ||| 0x09 <= u <= 0x0d
    ||| u == 0x85
    ||| u == 0xa0
    ||| u == 0x1680
    ||| 0x2000 <= u <= 0x200a
    ||| u == 0x2028
    ||| u == 0x2029
    ||| u == 0x202f
    ||| u == 0x205f
    ||| u == 0x3000
}

/// Whether `c` is white space.
pub fn is_whitespace(c: char) -> (space: bool)
    ensures
        space == is_space(c),
{
    let u = c as u32;
    u == 0x20 || (0x09 <= u && u <= 0x0d) || u == 0x85 || u == 0xa0 || u == 0x1680 || (0x2000
        <= u && u <= 0x200a) || u == 0x2028 || u == 0x2029 || u == 0x202f || u == 0x205f || u
        == 0x3000
}

/// The index of the first character at or after `i` that is not white
/// space, or the length of `s`.
pub open spec fn skip_space(s: Seq<char>, i: int) -> int
    decreases s.len() - i,
{
    if 0 <= i < s.len() && is_space(s[i]) {
        skip_space(s, i + 1)
    } else {
        i
    }
}

/// The end of `s[lo..j]` once its trailing white space is dropped.
pub open spec fn drop_trailing_space(s: Seq<char>, lo: int, j: int) -> int
    decreases j - lo,
{
    if lo < j && j <= s.len() && is_space(s[j - 1]) {
        drop_trailing_space(s, lo, j - 1)
    } else {
        j
    }
}

/// The index of the first white-space character at or after `i`, or
/// the length of `s`.
pub open spec fn find_space(s: Seq<char>, i: int) -> int
    decreases s.len() - i,
{
    if i < 0 || i >= s.len() {
        s.len() as int
    } else if is_space(s[i]) {
        i
    } else {
        find_space(s, i + 1)
    }
}

/// The index of the first `' '` at or after `i`, or the length of `s`.
pub open spec fn find_blank(s: Seq<char>, i: int) -> int
    decreases s.len() - i,
{
    if i < 0 || i >= s.len() {
        s.len() as int
    } else if s[i] == ' ' {
        i
    } else {
        find_blank(s, i + 1)
    }
}

/// `s` without its leading white space.
pub open spec fn trim_start_chars(s: Seq<char>) -> Seq<char> {
    s.subrange(skip_space(s, 0), s.len() as int)
}

/// `s` without its leading and trailing white space.
pub open spec fn trim_chars(s: Seq<char>) -> Seq<char> {
    let a = skip_space(s, 0);
    s.subrange(a, drop_trailing_space(s, a, s.len() as int))
}

/// `s` split at its first white-space character: the part before it,
/// and the part after it when there is one (the character itself belongs
/// to neither).
pub open spec fn split_space(s: Seq<char>) -> (Seq<char>, Option<Seq<char>>) {
    let j = find_space(s, 0);
    if j < s.len() {
        (s.subrange(0, j), Some(s.subrange(j + 1, s.len() as int)))
    } else {
        (s, None)
    }
}

/// `s` split at its first `' '`: the part before it, and the part after it
/// when there is one.
pub open spec fn split_blank(s: Seq<char>) -> (Seq<char>, Option<Seq<char>>) {
    let j = find_blank(s, 0);
    if j < s.len() {
        (s.subrange(0, j), Some(s.subrange(j + 1, s.len() as int)))
    } else {
        (s, None)
    }
}

/// Skipping white space from `i` stops within `s`, at a character that is
/// not white space or at the end.
proof fn lemma_skip_space_bounds(s: Seq<char>, i: int)
    requires
        0 <= i <= s.len(),
    ensures
        i <= skip_space(s, i) <= s.len(),
        skip_space(s, i) < s.len() ==> !is_space(s[skip_space(s, i)]),
        forall|k: int| i <= k < skip_space(s, i) ==> is_space(s[k]),
    decreases s.len() - i,
{
    if i < s.len() && is_space(s[i]) {
        lemma_skip_space_bounds(s, i + 1);
    }
}

/// Dropping trailing white space from `s[lo..j]` stops within it, after a
/// character that is not white space or at `lo`.
proof fn lemma_drop_trailing_bounds(s: Seq<char>, lo: int, j: int)
    requires
        0 <= lo <= j <= s.len(),
    ensures
        lo <= drop_trailing_space(s, lo, j) <= j,
        lo < drop_trailing_space(s, lo, j) ==> !is_space(s[drop_trailing_space(s, lo, j) - 1]),
    decreases j - lo,
{
    if lo < j && is_space(s[j - 1]) {
        lemma_drop_trailing_bounds(s, lo, j - 1);
    }
}

/// Trimming text that is already trimmed leaves it as it is.
pub proof fn law_trim_idempotent(s: Seq<char>)
    ensures
        trim_chars(trim_chars(s)) == trim_chars(s),
{
    let a = skip_space(s, 0);
    lemma_skip_space_bounds(s, 0);
    let b = drop_trailing_space(s, a, s.len() as int);
    lemma_drop_trailing_bounds(s, a, s.len() as int);
    let t = trim_chars(s);
    assert(t == s.subrange(a, b));
    if t.len() > 0 {
        assert(t[0] == s[a]);
        assert(t[t.len() - 1] == s[b - 1]);
    }
    assert(skip_space(t, 0) == 0);
    assert(drop_trailing_space(t, 0, t.len() as int) == t.len());
    assert(trim_chars(t) =~= t);
}

/// Every character of `w` is white space.
pub open spec fn all_space(w: Seq<char>) -> bool {
    forall|i: int| 0 <= i < w.len() ==> is_space(w[i])
}

/// Skipping white space from `i` goes past a stretch of white space.
proof fn lemma_skip_over_space(s: Seq<char>, i: int, j: int)
    requires
        0 <= i <= j <= s.len(),
        forall|k: int| i <= k < j ==> is_space(s[k]),
    ensures
        skip_space(s, i) == skip_space(s, j),
    decreases j - i,
{
    if i < j {
        lemma_skip_over_space(s, i + 1, j);
    }
}

/// Dropping trailing white space goes back over a stretch of white space.
proof fn lemma_trailing_over_space(s: Seq<char>, lo: int, m: int, j: int)
    requires
        0 <= lo <= m <= j <= s.len(),
        forall|k: int| m <= k < j ==> is_space(s[k]),
    ensures
        drop_trailing_space(s, lo, j) == drop_trailing_space(s, lo, m),
    decreases j - m,
{
    if m < j {
        lemma_trailing_over_space(s, lo, m, j - 1);
    }
}

/// Skipping white space in `s` and in a text `t` that holds `s` at `n`
/// stop at the same character, when `s` has one that is not white space.
proof fn lemma_skip_shift(t: Seq<char>, s: Seq<char>, n: int, i: int)
    requires
        0 <= n,
        n + s.len() <= t.len(),
        forall|k: int| 0 <= k < s.len() ==> t[n + k] == s[k],
        0 <= i <= s.len(),
        skip_space(s, i) < s.len(),
    ensures
        skip_space(t, n + i) == n + skip_space(s, i),
    decreases s.len() - i,
{
    if i < s.len() && is_space(s[i]) {
        lemma_skip_shift(t, s, n, i + 1);
    }
}

/// Dropping trailing white space in `s` and in a text `t` that holds `s`
/// at `n` stop at the same character.
proof fn lemma_trailing_shift(t: Seq<char>, s: Seq<char>, n: int, lo: int, j: int)
    requires
        0 <= n,
        n + s.len() <= t.len(),
        forall|k: int| 0 <= k < s.len() ==> t[n + k] == s[k],
        0 <= lo <= j <= s.len(),
    ensures
        drop_trailing_space(t, n + lo, n + j) == n + drop_trailing_space(s, lo, j),
    decreases j - lo,
{
    if lo < j && is_space(s[j - 1]) {
        lemma_trailing_shift(t, s, n, lo, j - 1);
    }
}

/// White space put around a text does not change the text once trimmed.
pub proof fn law_trim_surrounding_space(w1: Seq<char>, s: Seq<char>, w2: Seq<char>)
    requires
        all_space(w1),
        all_space(w2),
    ensures
        trim_chars(w1 + s + w2) == trim_chars(s),
{
    let t = w1 + s + w2;
    let n = w1.len() as int;
    let m = n + s.len();
    assert forall|k: int| 0 <= k < s.len() implies t[n + k] == s[k] by {}
    assert forall|k: int| 0 <= k < n implies is_space(t[k]) by {
        assert(t[k] == w1[k]);
    }
    assert forall|k: int| m <= k < t.len() implies is_space(t[k]) by {
        assert(t[k] == w2[k - m]);
    }
    lemma_skip_over_space(t, 0, n);
    let a = skip_space(s, 0);
    lemma_skip_space_bounds(s, 0);
    if a < s.len() {
        lemma_skip_shift(t, s, n, 0);
        assert(skip_space(t, 0) == n + a);
        let b = drop_trailing_space(s, a, s.len() as int);
        lemma_trailing_over_space(t, n + a, m, t.len() as int);
        lemma_trailing_shift(t, s, n, a, s.len() as int);
        assert(drop_trailing_space(t, n + a, t.len() as int) == n + b);
        lemma_drop_trailing_bounds(s, a, s.len() as int);
        assert(trim_chars(t) =~= trim_chars(s));
    } else {
        assert forall|k: int| n <= k < t.len() implies is_space(t[k]) by {
            if k < m {
                assert(t[k] == s[k - n]);
            }
        }
        lemma_skip_over_space(t, n, t.len() as int);
        assert(trim_chars(t) =~= trim_chars(s));
    }
}

/// Dropping trailing white space stops after any character that is not
/// white space.
proof fn lemma_drop_trailing_past(s: Seq<char>, lo: int, k: int, j: int)
    requires
        0 <= lo <= k < j <= s.len(),
        !is_space(s[k]),
    ensures
        drop_trailing_space(s, lo, j) > k,
    decreases j - lo,
{
    if is_space(s[j - 1]) {
        lemma_drop_trailing_past(s, lo, k, j - 1);
    }
}

/// Where dropping trailing white space stops does not depend on the lower
/// bound, as long as it stops above it.
proof fn lemma_drop_trailing_lower(s: Seq<char>, lo: int, lo2: int, j: int)
    requires
        0 <= lo <= lo2 <= j <= s.len(),
        drop_trailing_space(s, lo2, j) > lo2,
    ensures
        drop_trailing_space(s, lo, j) == drop_trailing_space(s, lo2, j),
    decreases j - lo2,
{
    if lo2 < j && is_space(s[j - 1]) {
        lemma_drop_trailing_lower(s, lo, lo2, j - 1);
    }
}

/// The first white space from `i` on, past a stretch with none.
proof fn lemma_find_space_at(s: Seq<char>, i: int, m: int)
    requires
        0 <= i <= m <= s.len(),
        forall|k: int| i <= k < m ==> !is_space(s[k]),
        m < s.len() ==> is_space(s[m]),
    ensures
        find_space(s, i) == m,
    decreases m - i,
{
    if i < m {
        lemma_find_space_at(s, i + 1, m);
    }
}

/// A word without white space, a space, then `a`, trimmed: the word, and,
/// when `a` holds more than white space, the space and `a` without its
/// trailing white space.
pub proof fn lemma_trim_word_then_rest(w: Seq<char>, a: Seq<char>)
    requires
        w.len() > 0,
        forall|k: int| 0 <= k < w.len() ==> !is_space(#[trigger] w[k]),
    ensures
        trim_chars(w + seq![' '] + a) == if skip_space(a, 0) < a.len() {
            w + seq![' '] + a.subrange(0, drop_trailing_space(a, 0, a.len() as int))
        } else {
            w
        },
{
    let line = w + seq![' '] + a;
    let n: int = w.len() as int + 1;
    let len = line.len() as int;
    assert(line[0] == w[0]);
    assert(skip_space(line, 0) == 0);
    assert forall|k: int| 0 <= k < a.len() implies line[n + k] == a[k] by {}
    let sa = skip_space(a, 0);
    lemma_skip_space_bounds(a, 0);
    if sa < a.len() {
        lemma_drop_trailing_past(a, 0, sa, a.len() as int);
        let da = drop_trailing_space(a, 0, a.len() as int);
        lemma_drop_trailing_bounds(a, 0, a.len() as int);
        lemma_trailing_shift(line, a, n, 0, a.len() as int);
        lemma_drop_trailing_lower(line, 0, n, len);
        assert(trim_chars(line) =~= w + seq![' '] + a.subrange(0, da));
    } else {
        assert forall|k: int| n - 1 <= k < len implies is_space(line[k]) by {
            if k >= n {
                assert(line[k] == a[k - n]);
            }
        }
        lemma_trailing_over_space(line, 0, n - 1, len);
        assert(line[n - 2] == w[w.len() - 1]);
        assert(trim_chars(line) =~= w);
    }
}

/// A text that is all white space is dropped whole as trailing space.
pub proof fn lemma_all_space_drops(c: Seq<char>)
    requires
        skip_space(c, 0) >= c.len(),
    ensures
        drop_trailing_space(c, 0, c.len() as int) == 0,
{
    lemma_skip_space_bounds(c, 0);
    lemma_trailing_over_space(c, 0, 0, c.len() as int);
}

/// The first `' '` from `i` on, past a stretch with none.
pub proof fn lemma_find_blank_at(s: Seq<char>, i: int, m: int)
    requires
        0 <= i <= m <= s.len(),
        forall|k: int| i <= k < m ==> s[k] != ' ',
        m < s.len() ==> s[m] == ' ',
    ensures
        find_blank(s, i) == m,
    decreases m - i,
{
    if i < m {
        lemma_find_blank_at(s, i + 1, m);
    }
}

/// A word without white space, a space, then `a`: trimmed and split at its
/// first white space, the line gives the word, and what follows it, once
/// its leading white space is dropped, is `a` trimmed; nothing follows
/// when `a` is all white space.
pub proof fn lemma_word_then_rest(w: Seq<char>, a: Seq<char>)
    requires
        w.len() > 0,
        forall|k: int| 0 <= k < w.len() ==> !is_space(#[trigger] w[k]),
    ensures
        trim_chars(w + seq![' '] + a).len() > 0,
        split_space(trim_chars(w + seq![' '] + a)).0 == w,
        split_space(trim_chars(w + seq![' '] + a)).1 matches Some(rest) ==> trim_start_chars(rest)
            == trim_chars(a),
        split_space(trim_chars(w + seq![' '] + a)).1 is None ==> trim_chars(a).len() == 0,
{
    let line = w + seq![' '] + a;
    let n: int = w.len() as int + 1;
    let len = line.len() as int;
    assert(line[0] == w[0]);
    assert(skip_space(line, 0) == 0);
    assert forall|k: int| 0 <= k < a.len() implies line[n + k] == a[k] by {}
    assert forall|k: int| 0 <= k < w.len() implies line[k] == w[k] by {}
    let sa = skip_space(a, 0);
    lemma_skip_space_bounds(a, 0);
    if sa < a.len() {
        lemma_drop_trailing_past(a, 0, sa, a.len() as int);
        lemma_drop_trailing_past(a, sa, sa, a.len() as int);
        let da = drop_trailing_space(a, 0, a.len() as int);
        lemma_drop_trailing_bounds(a, 0, a.len() as int);
        lemma_trailing_shift(line, a, n, 0, a.len() as int);
        assert(drop_trailing_space(line, n, len) == n + da);
        lemma_drop_trailing_lower(line, 0, n, len);
        let t = trim_chars(line);
        assert(t == line.subrange(0, n + da));
        assert(t[w.len() as int] == ' ');
        lemma_find_space_at(t, 0, w.len() as int);
        assert(split_space(t).0 =~= w);
        let rest = t.subrange(n, t.len() as int);
        assert(rest =~= a.subrange(0, da));
        assert forall|k: int| 0 <= k < sa implies is_space(rest[k]) by {}
        lemma_skip_over_space(rest, 0, sa);
        assert(rest[sa] == a[sa]);
        assert(skip_space(rest, 0) == sa);
        lemma_drop_trailing_lower(a, 0, sa, a.len() as int);
        assert(trim_start_chars(rest) =~= trim_chars(a));
    } else {
        assert forall|k: int| n - 1 <= k < len implies is_space(line[k]) by {
            if k >= n {
                assert(line[k] == a[k - n]);
            }
        }
        lemma_trailing_over_space(line, 0, n - 1, len);
        assert(line[n - 2] == w[w.len() - 1]);
        assert(drop_trailing_space(line, 0, n - 1) == n - 1);
        let t = trim_chars(line);
        assert(t =~= w);
        lemma_find_space_at(t, 0, w.len() as int);
        assert(skip_space(a, 0) == a.len());
        assert(trim_chars(a).len() == 0);
    }
}

/// The index of the first character of `s` that is not white space, or
/// its length when there is none.
fn leading_space_end(s: &str) -> (a: usize)
    ensures
        a == skip_space(s@, 0),
        a <= s@.len(),
{
    let n = s.unicode_len();
    let mut a: usize = 0;
    while a < n
        invariant
            n == s@.len(),
            a <= n,
            skip_space(s@, 0) == skip_space(s@, a as int),
        ensures
            skip_space(s@, 0) == a,
        decreases n - a,
    {
        if !is_whitespace(s.get_char(a)) {
            break;
        }
        a = a + 1;
    }
    a
}

/// `s` without its leading white space.
pub fn trim_start(s: &str) -> (t: &str)
    ensures
        t@ == trim_start_chars(s@),
{
    let n = s.unicode_len();
    let a = leading_space_end(s);
    s.substring_char(a, n)
}

/// `s` without its leading and trailing white space.
pub fn trim(s: &str) -> (t: &str)
    ensures
        t@ == trim_chars(s@),
{
    let n = s.unicode_len();
    let a = leading_space_end(s);
    let mut b: usize = n;
    while b > a
        invariant
            n == s@.len(),
            a <= b <= n,
            drop_trailing_space(s@, a as int, n as int) == drop_trailing_space(s@, a as int, b as int),
        ensures
            drop_trailing_space(s@, a as int, n as int) == b,
        decreases b - a,
    {
        if !is_whitespace(s.get_char(b - 1)) {
            break;
        }
        b = b - 1;
    }
    s.substring_char(a, b)
}

/// `s` split at its first white-space character, as
/// `s.splitn(2, char::is_whitespace)` splits it.
pub fn split_at_space(s: &str) -> (parts: (&str, Option<&str>))
    ensures
        parts.0@ == split_space(s@).0,
        parts.1 is Some == split_space(s@).1 is Some,
        parts.1 matches Some(rest) ==> rest@ == split_space(s@).1->Some_0,
{
    let n = s.unicode_len();
    let mut j: usize = 0;
    while j < n
        invariant
            n == s@.len(),
            j <= n,
            find_space(s@, 0) == find_space(s@, j as int),
        ensures
            find_space(s@, 0) == j,
        decreases n - j,
    {
        if is_whitespace(s.get_char(j)) {
            break;
        }
        j = j + 1;
    }
    if j < n {
        (s.substring_char(0, j), Some(s.substring_char(j + 1, n)))
    } else {
        (s, None)
    }
}

/// `s` split at its first space character `' '`, as `s.splitn(2, ' ')`
/// splits it.
pub fn split_at_blank(s: &str) -> (parts: (&str, Option<&str>))
    ensures
        parts.0@ == split_blank(s@).0,
        parts.1 is Some == split_blank(s@).1 is Some,
        parts.1 matches Some(rest) ==> rest@ == split_blank(s@).1->Some_0,
{
    let n = s.unicode_len();
    let mut j: usize = 0;
    while j < n
        invariant
            n == s@.len(),
            j <= n,
            find_blank(s@, 0) == find_blank(s@, j as int),
        ensures
            find_blank(s@, 0) == j,
        decreases n - j,
    {
        if s.get_char(j) == ' ' {
            break;
        }
        j = j + 1;
    }
    if j < n {
        (s.substring_char(0, j), Some(s.substring_char(j + 1, n)))
    } else {
        (s, None)
    }
}

/// Whether `a` and `b` are the same text.
pub fn same_text(a: &str, b: &str) -> (same: bool)
    ensures
        same == (a@ == b@),
{
    let n = a.unicode_len();
    if n != b.unicode_len() {
        return false;
    }
    let mut i: usize = 0;
    while i < n
        invariant
            n == a@.len(),
            n == b@.len(),
            i <= n,
            forall|k: int| 0 <= k < i ==> a@[k] == b@[k],
        decreases n - i,
    {
        if a.get_char(i) != b.get_char(i) {
            return false;
        }
        i = i + 1;
    }
    assert(a@ =~= b@);
    true
}

} // verus!
