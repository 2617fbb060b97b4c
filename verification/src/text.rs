//! Text handling over sequences of characters: trimming, searching, splitting
//! into lines and reading decimal numbers.

use vstd::prelude::*;
use vstd::slice::slice_to_vec;
use vstd::string::*;

verus! {

/// Whether `c` is white space: the characters with the Unicode property
/// `White_Space`.
pub open spec fn is_space(c: char) -> bool {
    let n = c as u32;
    ||| 0x09 <= n <= 0x0D
    ||| n == 0x20
    ||| n == 0x85
    ||| n == 0xA0
    ||| n == 0x1680
    ||| 0x2000 <= n <= 0x200A
    ||| n == 0x2028
    ||| n == 0x2029
    ||| n == 0x202F
    ||| n == 0x205F
    ||| n == 0x3000
}

/// `s` without its leading white space.
pub open spec fn trim_start(s: Seq<char>) -> Seq<char>
    decreases s.len(),
{
    if s.len() > 0 && is_space(s.first()) {
        trim_start(s.drop_first())
    } else {
        s
    }
}

/// `s` without its trailing white space.
pub open spec fn trim_end(s: Seq<char>) -> Seq<char>
    decreases s.len(),
{
    if s.len() > 0 && is_space(s.last()) {
        trim_end(s.drop_last())
    } else {
        s
    }
}

/// `s` without leading and trailing white space.
pub open spec fn trimmed(s: Seq<char>) -> Seq<char> {
    trim_end(trim_start(s))
}

/// The characters of `s`, in order.
pub fn chars_of(s: &str) -> (out: Vec<char>)
    ensures
        out@ == s@,
{
    let mut out: Vec<char> = Vec::new();
    let it = s.chars();
    for c in iter: it
        invariant
            out@ == iter.seq().take(iter.index@),
    {
        out.push(c);
    }
    out
}

/// Decides `is_space`.
pub fn is_whitespace(c: char) -> (b: bool)
    ensures
        b == is_space(c),
{
    let n: u32 = c as u32;
    (0x09 <= n && n <= 0x0D) || n == 0x20 || n == 0x85 || n == 0xA0 || n == 0x1680 || (0x2000 <= n
        && n <= 0x200A) || n == 0x2028 || n == 0x2029 || n == 0x202F || n == 0x205F || n == 0x3000
}

/// The part of `s` that is left when leading and trailing white space is
/// removed.
pub fn trim<'a>(s: &'a [char]) -> (out: &'a [char])
    ensures
        out@ == trimmed(s@),
{
    let n: usize = s.len();
    let mut a: usize = 0;
    assert(s@.subrange(0, n as int) =~= s@);
    while a < n && is_whitespace(s[a])
        invariant
            a <= n,
            n == s@.len(),
            trim_start(s@) == trim_start(s@.subrange(a as int, n as int)),
        decreases n - a,
    {
        assert(s@.subrange(a as int, n as int).drop_first() =~= s@.subrange(a as int + 1, n as int));
        a += 1;
    }
    assert(trim_start(s@) == s@.subrange(a as int, n as int));
    let mut b: usize = n;
    while b > a && is_whitespace(s[b - 1])
        invariant
            a <= b <= n,
            n == s@.len(),
            trimmed(s@) == trim_end(s@.subrange(a as int, b as int)),
        decreases b,
    {
        assert(s@.subrange(a as int, b as int).drop_last() =~= s@.subrange(a as int, b as int - 1));
        b -= 1;
    }
    &s[a..b]
}

/// Whether `needle` stands in `hay` at index `i`.
pub open spec fn occurs_at(hay: Seq<char>, needle: Seq<char>, i: int) -> bool {
    0 <= i && i + needle.len() <= hay.len() && hay.subrange(i, i + needle.len()) == needle
}

/// Whether `needle` stands somewhere in `hay`.
pub open spec fn contains(hay: Seq<char>, needle: Seq<char>) -> bool {
    exists|i: int| occurs_at(hay, needle, i)
}

/// Whether `i` is the first index at which `needle` stands in `hay`.
pub open spec fn is_first_occurrence(hay: Seq<char>, needle: Seq<char>, i: int) -> bool {
    occurs_at(hay, needle, i) && forall|j: int| 0 <= j < i ==> !occurs_at(hay, needle, j)
}

/// The first index at which `needle` stands in `hay`, if there is one.
pub open spec fn first_occurrence(hay: Seq<char>, needle: Seq<char>) -> Option<int> {
    if contains(hay, needle) {
        Some(choose|i: int| is_first_occurrence(hay, needle, i))
    } else {
        None
    }
}

/// Whether `s` begins with `prefix`.
pub open spec fn starts_with(s: Seq<char>, prefix: Seq<char>) -> bool {
    occurs_at(s, prefix, 0)
}

/// A first occurrence is the one that `first_occurrence` names.
pub proof fn lemma_first_occurrence(hay: Seq<char>, needle: Seq<char>, i: int)
    requires
        is_first_occurrence(hay, needle, i),
    ensures
        first_occurrence(hay, needle) == Some(i),
{
    assert(occurs_at(hay, needle, i));
    let k = choose|k: int| is_first_occurrence(hay, needle, k);
    assert(is_first_occurrence(hay, needle, k));
    if k < i {
        assert(!occurs_at(hay, needle, k));
    }
    if i < k {
        assert(!occurs_at(hay, needle, i));
    }
}

/// Decides `occurs_at`.
pub fn matches_at(hay: &[char], needle: &[char], i: usize) -> (b: bool)
    ensures
        b == occurs_at(hay@, needle@, i as int),
{
    let m: usize = needle.len();
    let n: usize = hay.len();
    if i > n || m > n - i {
        return false;
    }
    let mut k: usize = 0;
    while k < m
        invariant
            k <= m,
            m == needle@.len(),
            n == hay@.len(),
            i + m <= n,
            forall|j: int| 0 <= j < k ==> hay@[i + j] == needle@[j],
        decreases m - k,
    {
        if hay[i + k] != needle[k] {
            assert(hay@.subrange(i as int, i + m)[k as int] != needle@[k as int]);
            return false;
        }
        k += 1;
    }
    assert(hay@.subrange(i as int, i + m) =~= needle@);
    true
}

/// Decides `starts_with`.
pub fn has_prefix(s: &[char], prefix: &[char]) -> (b: bool)
    ensures
        b == starts_with(s@, prefix@),
{
    matches_at(s, prefix, 0)
}

/// The first index at which `needle` stands in `hay`.
pub fn find(hay: &[char], needle: &[char]) -> (r: Option<usize>)
    ensures
        match r {
            Some(i) => first_occurrence(hay@, needle@) == Some(i as int) && is_first_occurrence(
                hay@,
                needle@,
                i as int,
            ),
            None => first_occurrence(hay@, needle@).is_none(),
        },
        r.is_some() == contains(hay@, needle@),
{
    let n: usize = hay.len();
    let mut i: usize = 0;
    loop
        invariant
            i <= n,
            n == hay@.len(),
            forall|j: int| 0 <= j < i ==> !occurs_at(hay@, needle@, j),
        decreases n - i,
    {
        if matches_at(hay, needle, i) {
            proof {
                lemma_first_occurrence(hay@, needle@, i as int);
            }
            return Some(i);
        }
        if i == n {
            assert forall|j: int| !occurs_at(hay@, needle@, j) by {
                if 0 <= j <= n {
                    assert(!occurs_at(hay@, needle@, j));
                }
            }
            return None;
        }
        i += 1;
    }
}

/// Decides `contains`.
pub fn has_substring(hay: &[char], needle: &[char]) -> (b: bool)
    ensures
        b == contains(hay@, needle@),
{
    find(hay, needle).is_some()
}

/// The index of the first `c` in `s`, or the length of `s` if it holds none.
pub open spec fn index_of_char(s: Seq<char>, c: char) -> nat
    decreases s.len(),
{
    if s.len() == 0 || s.first() == c {
        0
    } else {
        1 + index_of_char(s.drop_first(), c)
    }
}

/// `line` without a carriage return at its end.
pub open spec fn without_cr(line: Seq<char>) -> Seq<char> {
    if line.len() > 0 && line.last() == '\r' {
        line.drop_last()
    } else {
        line
    }
}

/// The lines of `s`. A line ends at a line feed, or at a carriage return
/// directly followed by one; the terminator is not part of the line. What
/// follows the last line feed is a line too, unless it is empty.
pub open spec fn lines(s: Seq<char>) -> Seq<Seq<char>>
    decreases s.len(),
{
    if s.len() == 0 {
        Seq::empty()
    } else {
        let k = index_of_char(s, '\n');
        if k >= s.len() {
            seq![s]
        } else {
            seq![without_cr(s.take(k as int))] + lines(s.skip(k as int + 1))
        }
    }
}

/// The views of the elements of `v`.
pub open spec fn views(v: Seq<Vec<char>>) -> Seq<Seq<char>> {
    Seq::new(v.len(), |i: int| v[i]@)
}

/// An index before which `c` does not occur, and at which it does unless the
/// index is the length, is the one that `index_of_char` names.
pub proof fn lemma_index_of_char(s: Seq<char>, c: char, k: int)
    requires
        0 <= k <= s.len(),
        forall|j: int| 0 <= j < k ==> s[j] != c,
        k < s.len() ==> s[k] == c,
    ensures
        index_of_char(s, c) == k,
    decreases s.len(),
{
    if k > 0 {
        let t = s.drop_first();
        assert forall|j: int| 0 <= j < k - 1 implies t[j] != c by {
            assert(t[j] == s[j + 1]);
        }
        lemma_index_of_char(t, c, k - 1);
    }
}

/// The index of the first `c` in `s` at or after `from`, or the length of `s`.
pub(crate) fn find_char(s: &[char], from: usize, c: char) -> (k: usize)
    requires
        from <= s@.len(),
    ensures
        from <= k <= s@.len(),
        k == from + index_of_char(s@.skip(from as int), c),
        k < s@.len() ==> s@[k as int] == c,
{
    let n: usize = s.len();
    let mut k: usize = from;
    while k < n && s[k] != c
        invariant
            from <= k <= n,
            n == s@.len(),
            forall|j: int| from <= j < k ==> s@[j] != c,
        decreases n - k,
    {
        k += 1;
    }
    proof {
        lemma_index_of_char(s@.skip(from as int), c, k - from);
    }
    k
}

/// The lines of `s`, each as a vector of its own.
pub fn split_lines(s: &[char]) -> (out: Vec<Vec<char>>)
    ensures
        views(out@) == lines(s@),
{
    let n: usize = s.len();
    let mut out: Vec<Vec<char>> = Vec::new();
    let mut pos: usize = 0;
    assert(s@.skip(0) =~= s@);
    assert(views(out@) + lines(s@.skip(0)) =~= lines(s@));
    while pos < n
        invariant
            pos <= n,
            n == s@.len(),
            views(out@) + lines(s@.skip(pos as int)) == lines(s@),
        decreases n - pos,
    {
        let ghost rest = s@.skip(pos as int);
        let ghost before = views(out@);
        let k: usize = find_char(s, pos, '\n');
        if k == n {
            out.push(slice_to_vec(&s[pos..n]));
            assert(s@.subrange(pos as int, n as int) =~= rest);
            assert(lines(rest) == seq![rest]);
            assert(views(out@) =~= before + seq![rest]);
            assert(s@.skip(n as int).len() == 0);
            assert(views(out@) + lines(s@.skip(n as int)) =~= lines(s@));
            pos = n;
        } else {
            let mut e: usize = k;
            if e > pos && s[e - 1] == '\r' {
                e -= 1;
            }
            out.push(slice_to_vec(&s[pos..e]));
            assert(rest.take(k - pos) =~= s@.subrange(pos as int, k as int));
            assert(s@.subrange(pos as int, e as int) =~= without_cr(rest.take(k - pos)));
            assert(rest.skip(k - pos + 1) =~= s@.skip(k + 1));
            assert(lines(rest) == seq![without_cr(rest.take(k - pos))] + lines(
                s@.skip(k + 1),
            ));
            assert(views(out@) =~= before + seq![without_cr(rest.take(k - pos))]);
            assert(views(out@) + lines(s@.skip(k + 1)) =~= lines(s@));
            pos = k + 1;
        }
    }
    assert(lines(s@.skip(pos as int)) =~= Seq::empty());
    assert(views(out@) =~= lines(s@));
    out
}

/// Whether `c` is one of the ten decimal digits.
pub open spec fn is_digit(c: char) -> bool {
    48 <= c as u32 <= 57
}

/// Whether `s` holds decimal digits only.
pub open spec fn all_digits(s: Seq<char>) -> bool {
    forall|i: int| 0 <= i < s.len() ==> is_digit(#[trigger] s[i])
}

/// The number that the digits of `s` write in base ten.
pub open spec fn digits_value(s: Seq<char>) -> nat
    decreases s.len(),
{
    if s.len() == 0 {
        0
    } else {
        (digits_value(s.drop_last()) * 10 + (s.last() as u32 - 48)) as nat
    }
}

/// The number that `s` writes: an optional plus sign, then one digit or more.
pub open spec fn decimal(s: Seq<char>) -> Option<nat> {
    let body = if s.len() > 0 && s.first() == '+' {
        s.drop_first()
    } else {
        s
    };
    if body.len() > 0 && all_digits(body) {
        Some(digits_value(body))
    } else {
        None
    }
}

/// The number that `s` writes, where it fits in 64 bits.
pub open spec fn decimal_u64(s: Seq<char>) -> Option<u64> {
    match decimal(s) {
        Some(v) => if v <= u64::MAX {
            Some(v as u64)
        } else {
            None
        },
        None => None,
    }
}

/// The number that `s` writes, where it fits in 32 bits.
pub open spec fn decimal_u32(s: Seq<char>) -> Option<u32> {
    match decimal(s) {
        Some(v) => if v <= u32::MAX {
            Some(v as u32)
        } else {
            None
        },
        None => None,
    }
}

/// Digits written after a number do not make it smaller.
pub proof fn lemma_digits_value_prefix(s: Seq<char>, i: int)
    requires
        0 <= i <= s.len(),
        all_digits(s),
    ensures
        digits_value(s.take(i)) <= digits_value(s),
    decreases s.len() - i,
{
    if i < s.len() {
        let t = s.take(i + 1);
        assert(t.drop_last() =~= s.take(i));
        assert(t.last() == s[i]);
        assert(is_digit(s[i]));
        lemma_digits_value_prefix(s, i + 1);
    } else {
        assert(s.take(i) =~= s);
    }
}

/// Decides `is_digit`.
pub fn is_ascii_digit(c: char) -> (b: bool)
    ensures
        b == is_digit(c),
{
    let n: u32 = c as u32;
    48 <= n && n <= 57
}

/// Reads `s` as an unsigned decimal number of at most 64 bits.
pub fn parse_u64(s: &[char]) -> (r: Option<u64>)
    ensures
        r == decimal_u64(s@),
{
    let n: usize = s.len();
    let start: usize = if n > 0 && s[0] == '+' {
        1
    } else {
        0
    };
    let ghost body = s@.skip(start as int);
    assert(start == 1 ==> body =~= s@.drop_first());
    assert(start == 0 ==> body =~= s@);
    if start == n {
        return None;
    }
    let mut acc: u64 = 0;
    let mut overflowed: bool = false;
    let mut i: usize = start;
    assert(body.take(0) =~= Seq::<char>::empty());
    while i < n
        invariant
            start <= i <= n,
            n == s@.len(),
            body == s@.skip(start as int),
            body == if s@.len() > 0 && s@.first() == '+' {
                s@.drop_first()
            } else {
                s@
            },
            all_digits(body.take(i - start)),
            !overflowed ==> acc == digits_value(body.take(i - start)),
            overflowed ==> digits_value(body.take(i - start)) > u64::MAX,
        decreases n - i,
    {
        let c: char = s[i];
        let ghost before = body.take(i - start);
        let ghost after = body.take(i - start + 1);
        assert(after.drop_last() =~= before);
        assert(after.last() == c);
        if !is_ascii_digit(c) {
            assert(!is_digit(body[i - start]));
            return None;
        }
        assert(all_digits(after)) by {
            assert forall|j: int| 0 <= j < after.len() implies is_digit(#[trigger] after[j]) by {
                if j < i - start {
                    assert(after[j] == before[j]);
                }
            }
        }
        let code: u32 = c as u32;
        let d: u64 = (code - 48) as u64;
        if !overflowed {
            if acc > (u64::MAX - d) / 10 {
                overflowed = true;
            } else {
                acc = acc * 10 + d;
            }
        }
        i += 1;
    }
    assert(body.take(n - start) =~= body);
    if overflowed {
        None
    } else {
        Some(acc)
    }
}

/// Reads `s` as an unsigned decimal number of at most 32 bits.
pub fn parse_u32(s: &[char]) -> (r: Option<u32>)
    ensures
        r == decimal_u32(s@),
{
    match parse_u64(s) {
        Some(v) => if v <= 0xFFFF_FFFF {
            Some(v as u32)
        } else {
            None
        },
        None => None,
    }
}

/// Where the last run of characters without white space begins in `t`: the
/// length of `t` if `t` is empty or ends in white space.
pub open spec fn token_start(t: Seq<char>) -> nat
    decreases t.len(),
{
    if t.len() == 0 || is_space(t.last()) {
        t.len()
    } else {
        token_start(t.drop_last())
    }
}

/// The last word of `s`: the longest run of characters without white space
/// that is followed by white space only. There is none if `s` holds nothing
/// but white space.
pub open spec fn last_token(s: Seq<char>) -> Option<Seq<char>> {
    let t = trim_end(s);
    if t.len() == 0 {
        None
    } else {
        Some(t.skip(token_start(t) as int))
    }
}

/// The last word of `s`.
pub fn last_word<'a>(s: &'a [char]) -> (r: Option<&'a [char]>)
    ensures
        match r {
            Some(w) => last_token(s@) == Some(w@),
            None => last_token(s@).is_none(),
        },
{
    let n: usize = s.len();
    let mut b: usize = n;
    assert(s@.take(n as int) =~= s@);
    while b > 0 && is_whitespace(s[b - 1])
        invariant
            b <= n,
            n == s@.len(),
            trim_end(s@) == trim_end(s@.take(b as int)),
        decreases b,
    {
        assert(s@.take(b as int).drop_last() =~= s@.take(b as int - 1));
        b -= 1;
    }
    let ghost t = s@.take(b as int);
    assert(trim_end(s@) == t);
    if b == 0 {
        return None;
    }
    let mut a: usize = b;
    assert(t.take(b as int) =~= t);
    while a > 0 && !is_whitespace(s[a - 1])
        invariant
            a <= b <= n,
            n == s@.len(),
            t == s@.take(b as int),
            token_start(t) == token_start(t.take(a as int)),
        decreases a,
    {
        assert(t.take(a as int).drop_last() =~= t.take(a as int - 1));
        assert(t.take(a as int).last() == s@[a - 1]);
        a -= 1;
    }
    assert(token_start(t.take(a as int)) == a) by {
        if a > 0 {
            assert(t.take(a as int).last() == s@[a - 1]);
        }
    }
    assert(t.skip(a as int) =~= s@.subrange(a as int, b as int));
    Some(&s[a..b])
}

/// Appends `c` to `s`, by `String::push`: afterwards `s` holds what it held,
/// followed by `c`.
#[verifier::external_body]
pub(crate) fn push_char(s: &mut String, c: char)
    ensures
        final(s)@ == old(s)@.push(c),
{
    s.push(c)
}

/// The string that holds the characters of `chars`, in order.
pub fn string_of(chars: &[char]) -> (out: String)
    ensures
        out@ == chars@,
{
    let mut out = String::new();
    let n: usize = chars.len();
    let mut i: usize = 0;
    while i < n
        invariant
            i <= n,
            n == chars@.len(),
            out@ == chars@.take(i as int),
        decreases n - i,
    {
        push_char(&mut out, chars[i]);
        assert(chars@.take(i as int).push(chars@[i as int]) =~= chars@.take(i + 1));
        i += 1;
    }
    assert(chars@.take(n as int) =~= chars@);
    out
}

/// What `str::to_lowercase` makes of a string: its lower-case form by the
/// rules of Unicode.
pub uninterp spec fn lowercase(s: Seq<char>) -> Seq<char>;

/// The lower-case form of `s`, by `str::to_lowercase`.
#[verifier::external_body]
pub(crate) fn to_lowercase(s: &str) -> (out: String)
    ensures
        out@ == lowercase(s@),
{
    s.to_lowercase()
}

/// The lower-case form of `chars`.
pub fn lowered(chars: &[char]) -> (out: Vec<char>)
    ensures
        out@ == lowercase(chars@),
{
    let s = string_of(chars);
    let low = to_lowercase(s.as_str());
    chars_of(low.as_str())
}

/// Whether `a` comes before `b` in the lexicographic order by code point,
/// given that they agree before index `i`.
pub open spec fn lex_lt_from(a: Seq<char>, b: Seq<char>, i: int) -> bool
    decreases a.len() - i,
{
    if i < 0 || i >= b.len() {
        false
    } else if i >= a.len() {
        true
    } else if a[i] != b[i] {
        (a[i] as u32) < (b[i] as u32)
    } else {
        lex_lt_from(a, b, i + 1)
    }
}

/// Whether `a` comes before `b` in the lexicographic order by code point.
pub open spec fn lex_lt(a: Seq<char>, b: Seq<char>) -> bool {
    lex_lt_from(a, b, 0)
}

/// Decides `lex_lt`.
pub fn precedes(a: &[char], b: &[char]) -> (r: bool)
    ensures
        r == lex_lt(a@, b@),
{
    let n: usize = a.len();
    let m: usize = b.len();
    let mut i: usize = 0;
    while i < n && i < m && a[i] == b[i]
        invariant
            i <= n,
            i <= m,
            n == a@.len(),
            m == b@.len(),
            lex_lt(a@, b@) == lex_lt_from(a@, b@, i as int),
        decreases n - i,
    {
        i += 1;
    }
    if i >= m {
        false
    } else if i >= n {
        true
    } else {
        (a[i] as u32) < (b[i] as u32)
    }
}

/// Decides `all_digits`.
pub fn only_digits(s: &[char]) -> (r: bool)
    ensures
        r == all_digits(s@),
{
    let n: usize = s.len();
    let mut i: usize = 0;
    while i < n
        invariant
            i <= n,
            n == s@.len(),
            forall|j: int| 0 <= j < i ==> is_digit(#[trigger] s@[j]),
        decreases n - i,
    {
        if !is_ascii_digit(s[i]) {
            return false;
        }
        i += 1;
    }
    true
}

/// Decides whether `c` occurs in `s`.
pub fn has_char(s: &[char], c: char) -> (r: bool)
    ensures
        r == s@.contains(c),
{
    let n: usize = s.len();
    let mut i: usize = 0;
    while i < n
        invariant
            i <= n,
            n == s@.len(),
            forall|j: int| 0 <= j < i ==> s@[j] != c,
        decreases n - i,
    {
        if s[i] == c {
            return true;
        }
        i += 1;
    }
    false
}

/// What is left of `s` after `prefix`, where `s` begins with it.
pub open spec fn strip_prefix(s: Seq<char>, prefix: Seq<char>) -> Option<Seq<char>> {
    if starts_with(s, prefix) {
        Some(s.skip(prefix.len() as int))
    } else {
        None
    }
}

/// What is left of `s` after `prefix`.
pub fn after_prefix<'a>(s: &'a [char], prefix: &[char]) -> (r: Option<&'a [char]>)
    ensures
        match r {
            Some(rest) => strip_prefix(s@, prefix@) == Some(rest@),
            None => strip_prefix(s@, prefix@).is_none(),
        },
{
    if has_prefix(s, prefix) {
        let n: usize = s.len();
        assert(s@.skip(prefix@.len() as int) =~= s@.subrange(prefix@.len() as int, n as int));
        Some(&s[prefix.len()..n])
    } else {
        None
    }
}

/// A character is known by its code.
pub proof fn lemma_char_by_code(x: char, y: char)
    ensures
        x as u32 == y as u32 ==> x == y,
{
    assert((x as u32) as char == x);
    assert((y as u32) as char == y);
}

/// Of two texts at most one comes before the other.
pub proof fn lemma_lex_lt_asymmetric(a: Seq<char>, b: Seq<char>, i: int)
    requires
        0 <= i,
    ensures
        lex_lt_from(a, b, i) ==> !lex_lt_from(b, a, i),
    decreases a.len() - i,
{
    if i < a.len() && i < b.len() && a[i] == b[i] {
        lemma_lex_lt_asymmetric(a, b, i + 1);
    }
}

/// A text that does not come after a second, which does not come after a
/// third, does not come after the third.
pub proof fn lemma_lex_le_transitive(a: Seq<char>, b: Seq<char>, c: Seq<char>, i: int)
    requires
        0 <= i,
        !lex_lt_from(b, a, i),
        !lex_lt_from(c, b, i),
    ensures
        !lex_lt_from(c, a, i),
    decreases a.len() - i,
{
    if i < a.len() && i < b.len() && i < c.len() {
        lemma_char_by_code(a[i], b[i]);
        lemma_char_by_code(b[i], c[i]);
        lemma_char_by_code(a[i], c[i]);
        if a[i] == b[i] && b[i] == c[i] {
            lemma_lex_le_transitive(a, b, c, i + 1);
        }
    }
}

/// Two texts of which neither comes before the other are one text, as far
/// as they were compared.
pub proof fn lemma_lex_lt_total(a: Seq<char>, b: Seq<char>, i: int)
    requires
        0 <= i <= a.len(),
        i <= b.len(),
        !lex_lt_from(a, b, i),
        !lex_lt_from(b, a, i),
    ensures
        a.skip(i) == b.skip(i),
    decreases a.len() - i,
{
    if i < a.len() && i < b.len() {
        lemma_char_by_code(a[i], b[i]);
        lemma_lex_lt_total(a, b, i + 1);
        assert(a.skip(i) =~= seq![a[i]] + a.skip(i + 1));
        assert(b.skip(i) =~= seq![b[i]] + b.skip(i + 1));
    } else {
        assert(a.skip(i) =~= b.skip(i));
    }
}

/// `s` as it is shown in a column of `limit` characters: the first `limit`
/// characters where `s` takes more than `limit` bytes, and all of it
/// otherwise.
pub open spec fn clipped_text(s: &str, limit: usize) -> Seq<char> {
    if s.len() > limit && s@.len() > limit {
        s@.take(limit as int)
    } else {
        s@
    }
}

/// `s` as it is shown in a column of `limit` characters.
pub fn clipped(s: &str, limit: usize) -> (r: String)
    ensures
        r@ == clipped_text(s, limit),
{
    let chars = chars_of(s);
    if s.len() > limit && chars.len() > limit {
        assert(s@.take(limit as int) =~= chars@.subrange(0, limit as int));
        string_of(&chars.as_slice()[0..limit])
    } else {
        string_of(chars.as_slice())
    }
}

} // verus!
