//! Text utilities over the character sequences of strings.

use vstd::prelude::*;

verus! {

/// Appending a character to a `String` adds it at the end of its text.
pub assume_specification[ std::string::String::push ](text: &mut std::string::String, ch: char)
    ensures
        final(text)@ == old(text)@.push(ch),
;

/// What `str::to_uppercase` makes of a text: the full Unicode uppercase mapping,
/// which can turn one character into several.
pub uninterp spec fn unicode_uppercase(s: Seq<char>) -> Seq<char>;

/// What `str::to_lowercase` makes of a text: the full Unicode lowercase mapping,
/// context-sensitive for the final sigma.
pub uninterp spec fn unicode_lowercase(s: Seq<char>) -> Seq<char>;

/// What `String::from_utf8_lossy` makes of bytes: the UTF-8 decoding, with each
/// invalid sequence replaced by U+FFFD.
pub uninterp spec fn utf8_lossy(bytes: Seq<u8>) -> Seq<char>;

/// Calls `str::to_uppercase`; its result is named by `unicode_uppercase` of the
/// argument's characters, and nothing more is claimed of it.
#[verifier::external_body]
pub(crate) fn to_uppercase(s: &str) -> (r: String)
    ensures
        r@ == unicode_uppercase(s@),
{
    s.to_uppercase()
}

/// Calls `str::to_lowercase`; its result is named by `unicode_lowercase` of the
/// argument's characters, and nothing more is claimed of it.
#[verifier::external_body]
pub(crate) fn to_lowercase(s: &str) -> (r: String)
    ensures
        r@ == unicode_lowercase(s@),
{
    s.to_lowercase()
}

/// Calls `String::from_utf8_lossy` and takes the text it gives as an owned
/// `String`; the text is named by `utf8_lossy` of the bytes.
#[verifier::external_body]
pub(crate) fn decode_lossy(bytes: &[u8]) -> (r: String)
    ensures
        r@ == utf8_lossy(bytes@),
{
    String::from_utf8_lossy(bytes).into_owned()
}

/// The characters of `s`, in order.
pub fn chars_of(s: &str) -> (v: Vec<char>)
    ensures
        v@ == s@,
{
    let n = s.unicode_len();
    let mut v: Vec<char> = Vec::new();
    let mut i: usize = 0;
    while i < n
        invariant
            n == s@.len(),
            i <= n,
            v@ == s@.subrange(0, i as int),
        decreases n - i,
    {
        v.push(s.get_char(i));
        i = i + 1;
    }
    v
}

/// The string made of the characters `cs[from..to]`.
pub fn string_from_range(cs: &Vec<char>, from: usize, to: usize) -> (s: String)
    requires
        from <= to <= cs@.len(),
    ensures
        s@ == cs@.subrange(from as int, to as int),
{
    let mut s = String::new();
    let mut i: usize = from;
    while i < to
        invariant
            from <= i <= to <= cs@.len(),
            s@ == cs@.subrange(from as int, i as int),
        decreases to - i,
    {
        s.push(cs[i]);
        i = i + 1;
    }
    s
}

/// Whether two texts are equal.
pub fn str_eq(a: &str, b: &str) -> (r: bool)
    ensures
        r == (a@ == b@),
{
    let x = a.to_owned();
    let y = b.to_owned();
    x == y
}

/// The concatenation of three texts.
pub fn concat3(a: &str, b: &str, c: &str) -> (r: String)
    ensures
        r@ == a@ + b@ + c@,
{
    let mut r = a.to_owned();
    r.append(b);
    r.append(c);
    r
}

/// `s` with every `from` replaced by `to`.
pub open spec fn replace_char(s: Seq<char>, from: char, to: char) -> Seq<char> {
    Seq::new(s.len(), |i: int| if s[i] == from { to } else { s[i] })
}

/// `s` with every `from` replaced by `to`.
pub fn replace_char_in(s: &str, from: char, to: char) -> (r: String)
    ensures
        r@ == replace_char(s@, from, to),
{
    let cs = chars_of(s);
    let mut r = String::new();
    let mut i: usize = 0;
    while i < cs.len()
        invariant
            cs@ == s@,
            i <= cs.len(),
            r@ == replace_char(s@, from, to).subrange(0, i as int),
        decreases cs.len() - i,
    {
        let c = cs[i];
        if c == from {
            r.push(to);
        } else {
            r.push(c);
        }
        i = i + 1;
    }
    r
}

/// ASCII lowercase of one character; every other character is kept.
pub open spec fn ascii_lower(c: char) -> char {
    if 'A' <= c && c <= 'Z' {
        ((c as u32) + 32) as char
    } else {
        c
    }
}

pub fn to_ascii_lower(c: char) -> (r: char)
    ensures
        r == ascii_lower(c),
{
    if 'A' <= c && c <= 'Z' {
        let u: u32 = (c as u32) + 32;
        (u as u8) as char
    } else {
        c
    }
}

/// Two texts are equal when ASCII letters are compared without regard to case, as
/// `str::eq_ignore_ascii_case` compares them (byte by byte, which for UTF-8 text
/// comes to character by character).
pub open spec fn eq_ignore_ascii_case(a: Seq<char>, b: Seq<char>) -> bool {
    &&& a.len() == b.len()
    &&& forall|i: int| 0 <= i < a.len() ==> ascii_lower(#[trigger] a[i]) == ascii_lower(b[i])
}

pub fn eq_ignore_ascii_case_exec(a: &str, b: &str) -> (r: bool)
    ensures
        r == eq_ignore_ascii_case(a@, b@),
{
    let x = chars_of(a);
    let y = chars_of(b);
    if x.len() != y.len() {
        return false;
    }
    let mut i: usize = 0;
    while i < x.len()
        invariant
            x@ == a@,
            y@ == b@,
            x@.len() == y@.len(),
            i <= x.len(),
            forall|j: int| 0 <= j < i ==> ascii_lower(#[trigger] x@[j]) == ascii_lower(y@[j]),
        decreases x.len() - i,
    {
        if to_ascii_lower(x[i]) != to_ascii_lower(y[i]) {
            return false;
        }
        i = i + 1;
    }
    true
}

/// Characters with the Unicode `White_Space` property, which `char::is_whitespace` tests.
pub open spec fn is_whitespace(c: char) -> bool {
    ||| ('\u{9}' <= c && c <= '\u{d}')
    ||| c == ' '
    ||| c == '\u{85}'
    ||| c == '\u{a0}'
    ||| c == '\u{1680}'
    ||| ('\u{2000}' <= c && c <= '\u{200a}')
    ||| c == '\u{2028}'
    ||| c == '\u{2029}'
    ||| c == '\u{202f}'
    ||| c == '\u{205f}'
    ||| c == '\u{3000}'
}

pub fn is_whitespace_exec(c: char) -> (r: bool)
    ensures
        r == is_whitespace(c),
{
    ('\u{9}' <= c && c <= '\u{d}') || c == ' ' || c == '\u{85}' || c == '\u{a0}' || c
        == '\u{1680}' || ('\u{2000}' <= c && c <= '\u{200a}') || c == '\u{2028}' || c
        == '\u{2029}' || c == '\u{202f}' || c == '\u{205f}' || c == '\u{3000}'
}

/// `s` without its trailing run of `c`.
pub open spec fn trim_end_char(s: Seq<char>, c: char) -> Seq<char>
    decreases s.len(),
{
    if s.len() > 0 && s.last() == c {
        trim_end_char(s.drop_last(), c)
    } else {
        s
    }
}

/// `s` without its trailing whitespace.
pub open spec fn trim_end_ws(s: Seq<char>) -> Seq<char>
    decreases s.len(),
{
    if s.len() > 0 && is_whitespace(s.last()) {
        trim_end_ws(s.drop_last())
    } else {
        s
    }
}

/// `s` without its leading whitespace.
pub open spec fn trim_start_ws(s: Seq<char>) -> Seq<char>
    decreases s.len(),
{
    if s.len() > 0 && is_whitespace(s[0]) {
        trim_start_ws(s.drop_first())
    } else {
        s
    }
}

/// `s` without leading and trailing whitespace, as `str::trim` gives it.
pub open spec fn trim_ws(s: Seq<char>) -> Seq<char> {
    trim_start_ws(trim_end_ws(s))
}

/// The end to which `cs[from..to]` shrinks when its trailing run of `c` is removed.
pub fn trim_end_char_range(cs: &Vec<char>, from: usize, to: usize, c: char) -> (r: usize)
    requires
        from <= to <= cs@.len(),
    ensures
        from <= r <= to,
        cs@.subrange(from as int, r as int) == trim_end_char(cs@.subrange(from as int, to as int), c),
{
    let mut n = to;
    while n > from && cs[n - 1] == c
        invariant
            from <= n <= to <= cs@.len(),
            trim_end_char(cs@.subrange(from as int, to as int), c) == trim_end_char(
                cs@.subrange(from as int, n as int),
                c,
            ),
        decreases n,
    {
        assert(cs@.subrange(from as int, n as int).drop_last() == cs@.subrange(from as int, n - 1));
        n = n - 1;
    }
    n
}

/// The end to which `cs[from..to]` shrinks when its trailing whitespace is removed.
pub fn trim_end_ws_range(cs: &Vec<char>, from: usize, to: usize) -> (r: usize)
    requires
        from <= to <= cs@.len(),
    ensures
        from <= r <= to,
        cs@.subrange(from as int, r as int) == trim_end_ws(cs@.subrange(from as int, to as int)),
{
    let mut n = to;
    while n > from && is_whitespace_exec(cs[n - 1])
        invariant
            from <= n <= to <= cs@.len(),
            trim_end_ws(cs@.subrange(from as int, to as int)) == trim_end_ws(
                cs@.subrange(from as int, n as int),
            ),
        decreases n,
    {
        assert(cs@.subrange(from as int, n as int).drop_last() == cs@.subrange(from as int, n - 1));
        n = n - 1;
    }
    n
}

/// The index at which `cs[from..to]` starts once its leading whitespace is removed.
pub fn trim_start_ws_index(cs: &Vec<char>, from: usize, to: usize) -> (r: usize)
    requires
        from <= to <= cs@.len(),
    ensures
        from <= r <= to,
        cs@.subrange(r as int, to as int) == trim_start_ws(cs@.subrange(from as int, to as int)),
{
    let mut k = from;
    while k < to && is_whitespace_exec(cs[k])
        invariant
            from <= k <= to <= cs@.len(),
            trim_start_ws(cs@.subrange(from as int, to as int)) == trim_start_ws(
                cs@.subrange(k as int, to as int),
            ),
        decreases to - k,
    {
        assert(cs@.subrange(k as int, to as int).drop_first() == cs@.subrange(k + 1, to as int));
        k = k + 1;
    }
    k
}

/// `pat` occurs in `s` at index `i`.
pub open spec fn occurs_at(s: Seq<char>, pat: Seq<char>, i: int) -> bool {
    0 <= i && i + pat.len() <= s.len() && s.subrange(i, i + pat.len()) == pat
}

/// The first index at or after `i` at which `pat` occurs in `s`.
pub open spec fn find_from(s: Seq<char>, pat: Seq<char>, i: int) -> Option<int>
    decreases s.len() + 1 - i,
{
    if i < 0 || i + pat.len() > s.len() {
        None
    } else if occurs_at(s, pat, i) {
        Some(i)
    } else {
        find_from(s, pat, i + 1)
    }
}

/// The first index at which `pat` occurs in `s`, as `str::find` gives it (counted in characters).
pub open spec fn find(s: Seq<char>, pat: Seq<char>) -> Option<int> {
    find_from(s, pat, 0)
}

/// Whether `pat` occurs somewhere in `s`, as `str::contains` tells.
pub open spec fn contains(s: Seq<char>, pat: Seq<char>) -> bool {
    find(s, pat) is Some
}

/// The first index at which `pat` occurs in `cs`.
pub fn find_chars(cs: &Vec<char>, pat: &Vec<char>) -> (r: Option<usize>)
    ensures
        match r {
            Some(i) => find(cs@, pat@) == Some(i as int) && i + pat@.len() <= cs@.len()
                && occurs_at(cs@, pat@, i as int),
            None => find(cs@, pat@) is None,
        },
{
    let n = cs.len();
    let m = pat.len();
    if m > n {
        return None;
    }
    if m == 0 {
        assert(cs@.subrange(0, 0) =~= pat@);
        return Some(0);
    }
    let last = n - m;
    let mut i: usize = 0;
    while i <= last
        invariant
            n == cs@.len(),
            m == pat@.len(),
            0 < m <= n,
            last == n - m,
            i <= last + 1,
            find(cs@, pat@) == find_from(cs@, pat@, i as int),
        decreases last + 1 - i,
    {
        let mut j: usize = 0;
        let mut same = true;
        while j < m
            invariant
                n == cs@.len(),
                m == pat@.len(),
                i <= last,
                last == n - m,
                j <= m,
                same == (forall|k: int| 0 <= k < j ==> cs@[i + k] == pat@[k]),
            decreases m - j,
        {
            if cs[i + j] != pat[j] {
                same = false;
            }
            j = j + 1;
        }
        if same {
            assert(cs@.subrange(i as int, i + pat@.len()) =~= pat@);
            proof {
                lemma_find_from_occurs(cs@, pat@, 0);
            }
            return Some(i);
        } else {
            assert(!occurs_at(cs@, pat@, i as int)) by {
                if occurs_at(cs@, pat@, i as int) {
                    assert forall|k: int| 0 <= k < pat@.len() implies cs@[i + k] == pat@[k] by {
                        assert(cs@.subrange(i as int, i + pat@.len())[k] == cs@[i + k]);
                    }
                }
            }
        }
        i = i + 1;
    }
    None
}

/// Whether `pat` occurs in `s`.
pub fn contains_exec(s: &str, pat: &str) -> (r: bool)
    ensures
        r == contains(s@, pat@),
{
    let cs = chars_of(s);
    let ps = chars_of(pat);
    find_chars(&cs, &ps).is_some()
}

/// The last index at which `c` occurs in `s`.
pub open spec fn last_index_of(s: Seq<char>, c: char) -> Option<int>
    decreases s.len(),
{
    if s.len() == 0 {
        None
    } else if s.last() == c {
        Some(s.len() - 1)
    } else {
        last_index_of(s.drop_last(), c)
    }
}

/// A found index is an index of the character.
pub proof fn lemma_last_index_of(s: Seq<char>, c: char)
    ensures
        last_index_of(s, c) matches Some(i) ==> 0 <= i < s.len() && s[i] == c,
    decreases s.len(),
{
    if s.len() > 0 && s.last() != c {
        lemma_last_index_of(s.drop_last(), c);
    }
}

/// A found index is where the pattern occurs.
pub proof fn lemma_find_from_occurs(s: Seq<char>, pat: Seq<char>, i: int)
    ensures
        find_from(s, pat, i) matches Some(k) ==> occurs_at(s, pat, k) && i <= k,
    decreases s.len() + 1 - i,
{
    if !(i < 0 || i + pat.len() > s.len()) && !occurs_at(s, pat, i) {
        lemma_find_from_occurs(s, pat, i + 1);
    }
}

pub fn last_index_of_exec(cs: &Vec<char>, c: char) -> (r: Option<usize>)
    ensures
        match r {
            Some(i) => last_index_of(cs@, c) == Some(i as int) && i < cs@.len(),
            None => last_index_of(cs@, c) is None,
        },
{
    let mut n = cs.len();
    assert(cs@.subrange(0, n as int) == cs@);
    while n > 0 && cs[n - 1] != c
        invariant
            n <= cs@.len(),
            last_index_of(cs@, c) == last_index_of(cs@.subrange(0, n as int), c),
        decreases n,
    {
        assert(cs@.subrange(0, n as int).drop_last() == cs@.subrange(0, n - 1));
        n = n - 1;
    }
    if n == 0 {
        assert(cs@.subrange(0, 0) == Seq::<char>::empty());
        None
    } else {
        proof {
            lemma_last_index_of(cs@, c);
        }
        Some(n - 1)
    }
}

/// The decimal digit for `d < 10`.
pub open spec fn digit_char(d: nat) -> char {
    (48 + d) as char
}

/// The decimal numeral of `n`, as `{}` formats an unsigned integer.
pub open spec fn decimal(n: nat) -> Seq<char>
    decreases n,
{
    if n < 10 {
        seq![digit_char(n)]
    } else {
        decimal(n / 10).push(digit_char(n % 10))
    }
}

/// `s` without leading and trailing whitespace.
pub fn trim(s: &str) -> (r: String)
    ensures
        r@ == trim_ws(s@),
{
    let cs = chars_of(s);
    let end = trim_end_ws_range(&cs, 0, cs.len());
    let start = trim_start_ws_index(&cs, 0, end);
    assert(cs@.subrange(0, cs@.len() as int) == cs@);
    string_from_range(&cs, start, end)
}

/// The decimal numeral of `n`.
pub fn decimal_string(n: u128) -> (s: String)
    ensures
        s@ == decimal(n as nat),
    decreases n,
{
    let d: u8 = (n % 10) as u8;
    let c = (48u8 + d) as char;
    if n < 10 {
        let mut s = String::new();
        s.push(c);
        assert(s@ == seq![c]);
        s
    } else {
        let mut s = decimal_string(n / 10);
        s.push(c);
        s
    }
}

/// `a` comes strictly before `b` in lexicographic order of code points, which is
/// the order that `Ord` gives two `String`s (UTF-8 bytes compare as code points do).
pub open spec fn lex_lt(a: Seq<char>, b: Seq<char>) -> bool
    decreases a.len(),
{
    if b.len() == 0 {
        false
    } else if a.len() == 0 {
        true
    } else if a[0] != b[0] {
        a[0] < b[0]
    } else {
        lex_lt(a.drop_first(), b.drop_first())
    }
}

/// `a` comes before `b` or equals it.
pub open spec fn lex_le(a: Seq<char>, b: Seq<char>) -> bool {
    !lex_lt(b, a)
}

pub proof fn lemma_lex_trichotomy(a: Seq<char>, b: Seq<char>)
    ensures
        a == b || lex_lt(a, b) || lex_lt(b, a),
        !(lex_lt(a, b) && lex_lt(b, a)),
        !lex_lt(a, a),
    decreases a.len(),
{
    if a.len() > 0 && b.len() > 0 {
        lemma_lex_trichotomy(a.drop_first(), b.drop_first());
        if a[0] == b[0] && a.drop_first() == b.drop_first() {
            assert forall|k: int| 0 <= k < a.len() implies a[k] == b[k] by {
                if k > 0 {
                    assert(a[k] == a.drop_first()[k - 1]);
                    assert(b[k] == b.drop_first()[k - 1]);
                }
            }
            assert(a =~= b);
        }
    }
    if a.len() > 0 {
        lemma_lex_trichotomy(a.drop_first(), a.drop_first());
    }
    if a.len() == 0 && b.len() == 0 {
        assert(a =~= b);
    }
}

pub proof fn lemma_lex_transitive(a: Seq<char>, b: Seq<char>, c: Seq<char>)
    requires
        lex_lt(a, b),
        lex_lt(b, c),
    ensures
        lex_lt(a, c),
    decreases a.len(),
{
    if a.len() > 0 && b.len() > 0 && c.len() > 0 && a[0] == b[0] && b[0] == c[0] {
        lemma_lex_transitive(a.drop_first(), b.drop_first(), c.drop_first());
    }
}

/// Whether `a` comes strictly before `b`.
pub fn lex_less(a: &str, b: &str) -> (r: bool)
    ensures
        r == lex_lt(a@, b@),
{
    let x = chars_of(a);
    let y = chars_of(b);
    let mut i: usize = 0;
    assert(x@.subrange(0, x@.len() as int) == x@);
    assert(y@.subrange(0, y@.len() as int) == y@);
    while i < x.len() && i < y.len() && x[i] == y[i]
        invariant
            x@ == a@,
            y@ == b@,
            i <= x@.len(),
            i <= y@.len(),
            lex_lt(a@, b@) == lex_lt(
                x@.subrange(i as int, x@.len() as int),
                y@.subrange(i as int, y@.len() as int),
            ),
        decreases x.len() - i,
    {
        assert(x@.subrange(i as int, x@.len() as int).drop_first() == x@.subrange(
            i + 1,
            x@.len() as int,
        ));
        assert(y@.subrange(i as int, y@.len() as int).drop_first() == y@.subrange(
            i + 1,
            y@.len() as int,
        ));
        i = i + 1;
    }
    if i >= y.len() {
        false
    } else if i >= x.len() {
        true
    } else {
        x[i] < y[i]
    }
}

} // verus!
