//! Character-sequence primitives shared by the parsers and query builders.
//!
//! Text is handled as `Vec<char>`; the specifications speak of `Seq<char>`, the
//! view of both `str` and `String`.
use vstd::prelude::*;

verus! {

broadcast use vstd::string::group_string_axioms;

// ---------------------------------------------------------------------------
// Conversions between strings and character vectors
// ---------------------------------------------------------------------------

/// The characters of `s`, in order.
pub fn chars_of(s: &str) -> (v: Vec<char>)
    ensures
        v@ == s@,
{
    let mut v: Vec<char> = Vec::new();
    for c in it: s.chars()
        invariant
            v@ == it.seq().take(it.index() as int),
            it.seq() == s@,
    {
        v.push(c);
    }
    v
}

/// Appends one character to a `String` (`String::push`).
#[verifier::external_body]
fn push_char(s: &mut String, c: char)
    ensures
        final(s)@ == old(s)@.push(c),
{
    s.push(c);
}

/// The `String` whose characters are `v`.
pub fn string_of(v: &Vec<char>) -> (s: String)
    ensures
        s@ == v@,
{
    let mut s = String::new();
    let mut i: usize = 0;
    while i < v.len()
        invariant
            i <= v.len(),
            s@ == v@.take(i as int),
        decreases v.len() - i,
    {
        push_char(&mut s, v[i]);
        assert(v@.take(i as int).push(v@[i as int]) =~= v@.take(i + 1));
        i = i + 1;
    }
    assert(v@.take(v.len() as int) =~= v@);
    s
}

/// A copy of `v[lo..hi]`.
pub fn copy_range(v: &Vec<char>, lo: usize, hi: usize) -> (r: Vec<char>)
    requires
        lo <= hi <= v.len(),
    ensures
        r@ == v@.subrange(lo as int, hi as int),
{
    let mut r: Vec<char> = Vec::new();
    let mut i: usize = lo;
    while i < hi
        invariant
            lo <= i <= hi <= v.len(),
            r@ == v@.subrange(lo as int, i as int),
        decreases hi - i,
    {
        r.push(v[i]);
        assert(v@.subrange(lo as int, i as int).push(v@[i as int]) =~= v@.subrange(
            lo as int,
            i + 1,
        ));
        i = i + 1;
    }
    r
}

/// Appends all of `b` to `a`.
pub fn append_chars(a: &mut Vec<char>, b: &Vec<char>)
    ensures
        final(a)@ == old(a)@ + b@,
{
    let mut i: usize = 0;
    while i < b.len()
        invariant
            i <= b.len(),
            a@ == old(a)@ + b@.take(i as int),
        decreases b.len() - i,
    {
        a.push(b[i]);
        assert(old(a)@ + b@.take(i + 1) =~= (old(a)@ + b@.take(i as int)).push(b@[i as int]));
        i = i + 1;
    }
    assert(b@.take(b.len() as int) =~= b@);
}

/// The concatenation `a ++ b`.
pub fn concat(a: &Vec<char>, b: &Vec<char>) -> (r: Vec<char>)
    ensures
        r@ == a@ + b@,
{
    let mut r = copy_range(a, 0, a.len());
    assert(a@.subrange(0, a@.len() as int) =~= a@);
    append_chars(&mut r, b);
    r
}

/// Whether the two character sequences are equal.
pub fn chars_eq(a: &Vec<char>, b: &Vec<char>) -> (r: bool)
    ensures
        r == (a@ == b@),
{
    if a.len() != b.len() {
        return false;
    }
    let mut i: usize = 0;
    while i < a.len()
        invariant
            a.len() == b.len(),
            i <= a.len(),
            forall|j: int| 0 <= j < i ==> a@[j] == b@[j],
        decreases a.len() - i,
    {
        if a[i] != b[i] {
            return false;
        }
        i = i + 1;
    }
    assert(a@ =~= b@);
    true
}

// ---------------------------------------------------------------------------
// White space and trimming
// ---------------------------------------------------------------------------

/// The Unicode `White_Space` property, the class that `char::is_whitespace`
/// and the regular-expression class `\s` test.
pub open spec fn is_white_space(c: char) -> bool {
    let u = c as u32;
    ||| 0x09 <= u <= 0x0D
    ||| u == 0x20
    ||| u == 0x85
    ||| u == 0xA0
    ||| u == 0x1680
    ||| 0x2000 <= u <= 0x200A
    ||| u == 0x2028
    ||| u == 0x2029
    ||| u == 0x202F
    ||| u == 0x205F
    ||| u == 0x3000
}

/// Whether `c` is a white-space character.
pub fn is_whitespace(c: char) -> (b: bool)
    ensures
        b == is_white_space(c),
{
    let u = c as u32;
    (0x09 <= u && u <= 0x0D) || u == 0x20 || u == 0x85 || u == 0xA0 || u == 0x1680 || (0x2000
        <= u && u <= 0x200A) || u == 0x2028 || u == 0x2029 || u == 0x202F || u == 0x205F || u
        == 0x3000
}

/// `s` without its leading white space.
pub open spec fn trim_start(s: Seq<char>) -> Seq<char>
    decreases s.len(),
{
    if s.len() > 0 && is_white_space(s[0]) {
        trim_start(s.drop_first())
    } else {
        s
    }
}

/// `s` without its trailing white space.
pub open spec fn trim_end(s: Seq<char>) -> Seq<char>
    decreases s.len(),
{
    if s.len() > 0 && is_white_space(s.last()) {
        trim_end(s.drop_last())
    } else {
        s
    }
}

/// `s` without leading and trailing white space (`str::trim`).
pub open spec fn trim(s: Seq<char>) -> Seq<char> {
    trim_end(trim_start(s))
}

/// The bounds of `trim(v)` inside `v`.
pub fn trim_bounds(v: &Vec<char>) -> (r: (usize, usize))
    ensures
        r.0 <= r.1 <= v.len(),
        v@.subrange(r.0 as int, r.1 as int) == trim(v@),
{
    let mut lo: usize = 0;
    assert(v@.skip(0) =~= v@);
    while lo < v.len() && is_whitespace(v[lo])
        invariant
            lo <= v.len(),
            trim_start(v@) == trim_start(v@.skip(lo as int)),
        decreases v.len() - lo,
    {
        assert(v@.skip(lo as int).drop_first() =~= v@.skip(lo + 1));
        lo = lo + 1;
    }
    let ghost t = v@.skip(lo as int);
    assert(trim_start(t) == t);
    let mut hi: usize = v.len();
    while hi > lo && is_whitespace(v[hi - 1])
        invariant
            lo <= hi <= v.len(),
            t == v@.skip(lo as int),
            trim_end(t) == trim_end(v@.subrange(lo as int, hi as int)),
        decreases hi,
    {
        assert(v@.subrange(lo as int, hi as int).drop_last() =~= v@.subrange(
            lo as int,
            hi - 1,
        ));
        hi = hi - 1;
    }
    assert(v@.skip(lo as int) =~= v@.subrange(lo as int, v.len() as int));
    (lo, hi)
}

/// `trim(v)` as a new vector.
pub fn trim_chars(v: &Vec<char>) -> (r: Vec<char>)
    ensures
        r@ == trim(v@),
{
    let (lo, hi) = trim_bounds(v);
    copy_range(v, lo, hi)
}

/// `trim(s)` of a string slice, as characters.
pub fn trimmed_chars(s: &str) -> (r: Vec<char>)
    ensures
        r@ == trim(s@),
{
    let v = chars_of(s);
    trim_chars(&v)
}

// ---------------------------------------------------------------------------
// Searching for literal patterns
// ---------------------------------------------------------------------------

/// `p` occurs in `s` starting at index `i`.
pub open spec fn occurs_at(s: Seq<char>, i: int, p: Seq<char>) -> bool {
    0 <= i && i + p.len() <= s.len() && s.subrange(i, i + p.len()) == p
}

/// The first index `>= from` at which `p` occurs in `s`.
pub open spec fn find_from(s: Seq<char>, p: Seq<char>, from: int) -> Option<int>
    decreases s.len() - from,
{
    if from < 0 || from + p.len() > s.len() {
        None
    } else if p.len() == 0 || occurs_at(s, from, p) {
        Some(from)
    } else {
        find_from(s, p, from + 1)
    }
}

/// `s` contains `p` somewhere (`str::contains`).
pub open spec fn contains(s: Seq<char>, p: Seq<char>) -> bool {
    exists|i: int| occurs_at(s, i, p)
}

/// `s` starts with `p`.
pub open spec fn starts_with(s: Seq<char>, p: Seq<char>) -> bool {
    occurs_at(s, 0, p)
}

/// `s` ends with `p`.
pub open spec fn ends_with(s: Seq<char>, p: Seq<char>) -> bool {
    occurs_at(s, s.len() - p.len(), p)
}

/// `a + b` ends with `b`.
pub proof fn lemma_ends_with_append(a: Seq<char>, b: Seq<char>)
    ensures
        ends_with(a + b, b),
{
    assert((a + b).subrange(a.len() as int, (a + b).len() as int) =~= b);
}

/// What ends with `x + y` ends with `y`.
pub proof fn lemma_ends_with_tail(s: Seq<char>, x: Seq<char>, y: Seq<char>)
    requires
        ends_with(s, x + y),
    ensures
        ends_with(s, y),
{
    let i = s.len() - (x + y).len();
    assert(s.subrange(s.len() - y.len(), s.len() as int) =~= s.subrange(i, s.len() as int).subrange(
        x.len() as int,
        (x + y).len() as int,
    ));
    assert((x + y).subrange(x.len() as int, (x + y).len() as int) =~= y);
}

/// What `find_from` returns: the least occurrence at or after `from`.
pub proof fn lemma_find_from(s: Seq<char>, p: Seq<char>, from: int)
    requires
        from >= 0,
    ensures
        match find_from(s, p, from) {
            Some(i) => from <= i && occurs_at(s, i, p) && forall|j: int|
                from <= j < i ==> !occurs_at(s, j, p),
            None => forall|j: int| from <= j ==> !occurs_at(s, j, p),
        },
    decreases s.len() - from,
{
    if from + p.len() > s.len() {
    } else if p.len() == 0 || occurs_at(s, from, p) {
        assert(s.subrange(from, from + p.len()) =~= p) by {
            if p.len() != 0 {
            }
        }
    } else {
        lemma_find_from(s, p, from + 1);
    }
}

/// Whether `p` occurs in `s` at index `i`.
pub fn matches_at(s: &Vec<char>, i: usize, p: &Vec<char>) -> (b: bool)
    ensures
        b == occurs_at(s@, i as int, p@),
{
    if i > s.len() || p.len() > s.len() - i {
        return false;
    }
    let mut k: usize = 0;
    while k < p.len()
        invariant
            i + p.len() <= s.len(),
            k <= p.len(),
            forall|j: int| 0 <= j < k ==> s@[i + j] == p@[j],
        decreases p.len() - k,
    {
        if s[i + k] != p[k] {
            assert(s@.subrange(i as int, i + p.len())[k as int] != p@[k as int]);
            return false;
        }
        k = k + 1;
    }
    assert(s@.subrange(i as int, i + p.len()) =~= p@);
    true
}

/// The first occurrence of `p` in `s` at or after `from`.
pub fn find(s: &Vec<char>, p: &Vec<char>, from: usize) -> (r: Option<usize>)
    ensures
        r matches Some(i) ==> find_from(s@, p@, from as int) == Some(i as int),
        r is None ==> find_from(s@, p@, from as int) is None,
{
    let mut i = from;
    while i <= s.len() && p.len() <= s.len() - i
        invariant
            from <= i,
            find_from(s@, p@, from as int) == find_from(s@, p@, i as int),
        decreases s.len() - i,
    {
        if p.len() == 0 || matches_at(s, i, p) {
            return Some(i);
        }
        i = i + 1;
    }
    None
}

/// Whether `p` occurs anywhere in `s`.
pub fn contains_chars(s: &Vec<char>, p: &Vec<char>) -> (b: bool)
    ensures
        b == contains(s@, p@),
{
    proof {
        lemma_find_from(s@, p@, 0);
    }
    let r = find(s, p, 0);
    r.is_some()
}

/// Whether `s` starts with `p`.
pub fn starts_with_chars(s: &Vec<char>, p: &Vec<char>) -> (b: bool)
    ensures
        b == starts_with(s@, p@),
{
    matches_at(s, 0, p)
}

/// Whether `s` ends with `p`.
pub fn ends_with_chars(s: &Vec<char>, p: &Vec<char>) -> (b: bool)
    ensures
        b == ends_with(s@, p@),
{
    if p.len() > s.len() {
        return false;
    }
    matches_at(s, s.len() - p.len(), p)
}

// ---------------------------------------------------------------------------
// Replacing literal patterns (`str::replace`)
// ---------------------------------------------------------------------------

/// `s` with every occurrence of `pat`, scanned left to right without overlap,
/// replaced by `rep`.
pub open spec fn replace_all(s: Seq<char>, pat: Seq<char>, rep: Seq<char>) -> Seq<char>
    decreases s.len(),
{
    if s.len() == 0 {
        s
    } else if pat.len() > 0 && occurs_at(s, 0, pat) {
        rep + replace_all(s.skip(pat.len() as int), pat, rep)
    } else {
        seq![s[0]] + replace_all(s.drop_first(), pat, rep)
    }
}

/// `replace_all(s, pat, rep)`.
pub fn replace_chars(s: &Vec<char>, pat: &Vec<char>, rep: &Vec<char>) -> (r: Vec<char>)
    requires
        pat.len() > 0,
    ensures
        r@ == replace_all(s@, pat@, rep@),
{
    let mut out: Vec<char> = Vec::new();
    let mut i: usize = 0;
    assert(s@.skip(0) =~= s@);
    while i < s.len()
        invariant
            pat.len() > 0,
            i <= s.len(),
            replace_all(s@, pat@, rep@) == out@ + replace_all(s@.skip(i as int), pat@, rep@),
        decreases s.len() - i,
    {
        let ghost rest = s@.skip(i as int);
        if matches_at(s, i, pat) {
            assert(rest.subrange(0, pat@.len() as int) =~= s@.subrange(i as int, i + pat@.len()));
            assert(rest.skip(pat@.len() as int) =~= s@.skip(i + pat@.len()));
            append_chars(&mut out, rep);
            i = i + pat.len();
        } else {
            assert(!occurs_at(rest, 0, pat@)) by {
                if rest.len() >= pat@.len() {
                    assert(rest.subrange(0, pat@.len() as int) =~= s@.subrange(
                        i as int,
                        i + pat@.len(),
                    ));
                }
            }
            assert(rest.drop_first() =~= s@.skip(i + 1));
            out.push(s[i]);
            assert(out@ + replace_all(s@.skip(i + 1), pat@, rep@) =~= old_out_plus(
                out@,
                replace_all(s@.skip(i + 1), pat@, rep@),
            ));
            i = i + 1;
        }
    }
    assert(s@.skip(s.len() as int) =~= Seq::<char>::empty());
    assert(out@ + Seq::<char>::empty() =~= out@);
    out
}

spec fn old_out_plus(a: Seq<char>, b: Seq<char>) -> Seq<char> {
    a + b
}

/// Replacing a character that does not occur changes nothing.
pub proof fn lemma_replace_char_absent(s: Seq<char>, c: char, rep: Seq<char>)
    requires
        forall|i: int| 0 <= i < s.len() ==> s[i] != c,
    ensures
        replace_all(s, seq![c], rep) == s,
    decreases s.len(),
{
    if s.len() > 0 {
        if occurs_at(s, 0, seq![c]) {
            assert(s.subrange(0, 1)[0] == s[0]);
        }
        lemma_replace_char_absent(s.drop_first(), c, rep);
        assert(seq![s[0]] + s.drop_first() =~= s);
    }
}

/// Replacing every `c` by another character leaves no `c`.
pub proof fn lemma_replace_char_removes(s: Seq<char>, c: char, d: char)
    requires
        c != d,
    ensures
        !replace_all(s, seq![c], seq![d]).contains(c),
    decreases s.len(),
{
    if s.len() > 0 {
        let r = replace_all(s, seq![c], seq![d]);
        if occurs_at(s, 0, seq![c]) {
            lemma_replace_char_removes(s.skip(1), c, d);
            let rest = replace_all(s.skip(1), seq![c], seq![d]);
            assert(r =~= seq![d] + rest);
            if r.contains(c) {
                let i = choose|i: int| 0 <= i < r.len() && r[i] == c;
                assert(rest[i - 1] == c);
            }
        } else {
            assert(s.subrange(0, 1) =~= seq![s[0]]);
            assert(s[0] != c);
            lemma_replace_char_removes(s.drop_first(), c, d);
            let rest = replace_all(s.drop_first(), seq![c], seq![d]);
            assert(r =~= seq![s[0]] + rest);
            if r.contains(c) {
                let i = choose|i: int| 0 <= i < r.len() && r[i] == c;
                assert(rest[i - 1] == c);
            }
        }
    }
}

// ---------------------------------------------------------------------------
// Unicode classification and case mapping from outside code
// ---------------------------------------------------------------------------

/// What `str::to_lowercase` returns for a string whose characters are `s`.
pub uninterp spec fn str_lowercase(s: Seq<char>) -> Seq<char>;

/// An ASCII character.
pub open spec fn is_ascii_char(c: char) -> bool {
    (c as u32) < 128
}

/// `c` with an ASCII upper-case letter replaced by its lower-case letter.
pub open spec fn ascii_lower_char(c: char) -> char {
    if 'A' <= c && c <= 'Z' {
        ((c as u32) + 32) as char
    } else {
        c
    }
}

/// Lower-cases `v` with `str::to_lowercase` (the Unicode `Lowercase`
/// mapping, context-sensitive for the final sigma). The contract names the
/// result and states what std documents beyond it: every character maps to
/// one or more characters, so non-empty text stays non-empty; and for text
/// made of ASCII characters only, each letter `A`..`Z` becomes its lower-case
/// letter and every other character stays (so empty text stays empty). The
/// Unicode tables behind other characters are not restated.
#[verifier::external_body]
pub fn to_lowercase(v: &Vec<char>) -> (r: Vec<char>)
    ensures
        r@ == str_lowercase(v@),
        v@.len() > 0 ==> r@.len() > 0,
        (forall|i: int| 0 <= i < v@.len() ==> is_ascii_char(#[trigger] v@[i])) ==> r@
            == v@.map_values(|c: char| ascii_lower_char(c)),
{
    let s: String = v.iter().collect();
    s.to_lowercase().chars().collect()
}

/// What `char::is_alphanumeric` returns for `c` (the Unicode `Alphabetic`
/// property or a `Numeric` general category).
pub uninterp spec fn char_alphanumeric(c: char) -> bool;

/// `char::is_alphanumeric`; the contract names the result and says no more
/// of the Unicode tables behind it.
#[verifier::external_body]
pub fn is_alphanumeric(c: char) -> (b: bool)
    ensures
        b == char_alphanumeric(c),
{
    c.is_alphanumeric()
}

/// What `regex_syntax::is_word_character` returns for `c`: membership in the
/// class `\w` of regular expressions, which decides the word boundary `\b`.
pub uninterp spec fn regex_word_char(c: char) -> bool;

/// `regex_syntax::is_word_character`. That function panics only when the
/// crate is built without its `unicode-perl` feature, which its default
/// features (used here) include. The tables behind it are not restated.
#[verifier::external_body]
pub fn is_word_char(c: char) -> (b: bool)
    ensures
        b == regex_word_char(c),
{
    regex_syntax::is_word_character(c)
}

/// What the regular-expression class `\d` (the Unicode general category
/// `Decimal_Number`) of the `regex` crate says of `c`.
pub uninterp spec fn regex_digit_char(c: char) -> bool;

/// Tests `c` against `\d` with `regex::Regex::is_match`. The pattern always
/// compiles; the contract only names the result.
#[verifier::external_body]
pub fn is_regex_digit(c: char) -> (b: bool)
    ensures
        b == regex_digit_char(c),
{
    let mut buf = [0u8; 4];
    match regex::Regex::new(r"\A\d\z") {
        Ok(re) => re.is_match(c.encode_utf8(&mut buf)),
        Err(_) => false,
    }
}

// ---------------------------------------------------------------------------
// Collapsing white space (`split_whitespace().join(" ")`)
// ---------------------------------------------------------------------------

/// The words of `s` (maximal runs without white space) joined by single
/// spaces, emitted character by character: `in_word` says the previous
/// character belonged to a word, `started` that a word has been emitted.
pub open spec fn squeeze(s: Seq<char>, in_word: bool, started: bool) -> Seq<char>
    decreases s.len(),
{
    if s.len() == 0 {
        Seq::empty()
    } else if is_white_space(s[0]) {
        squeeze(s.drop_first(), false, started)
    } else if in_word || !started {
        seq![s[0]] + squeeze(s.drop_first(), true, true)
    } else {
        seq![' ', s[0]] + squeeze(s.drop_first(), true, true)
    }
}

/// `s.split_whitespace().collect::<Vec<_>>().join(" ")`.
pub open spec fn collapse_ws(s: Seq<char>) -> Seq<char> {
    squeeze(s, false, false)
}

/// White space in `t` is single spaces only, each next to no other white
/// space.
pub open spec fn single_spaced(t: Seq<char>) -> bool {
    forall|i: int|
        0 <= i < t.len() && #[trigger] is_white_space(t[i]) ==> {
            &&& t[i] == ' '
            &&& (i > 0 ==> !is_white_space(t[i - 1]))
            &&& (i + 1 < t.len() ==> !is_white_space(t[i + 1]))
        }
}

/// Words separated by single spaces: no white space at either end, none
/// doubled, and none but spaces.
pub open spec fn is_tidy(t: Seq<char>) -> bool {
    &&& single_spaced(t)
    &&& t.len() > 0 ==> !is_white_space(t[0]) && !is_white_space(t.last())
}

proof fn lemma_squeeze_shape(s: Seq<char>, in_word: bool, started: bool)
    ensures
        single_spaced(squeeze(s, in_word, started)),
        squeeze(s, in_word, started).len() > 0 ==> {
            &&& !is_white_space(squeeze(s, in_word, started).last())
            &&& (is_white_space(squeeze(s, in_word, started)[0]) ==> started && squeeze(
                s,
                in_word,
                started,
            )[0] == ' ' && squeeze(s, in_word, started).len() > 1 && !is_white_space(
                squeeze(s, in_word, started)[1],
            ))
        },
    decreases s.len(),
{
    if s.len() > 0 {
        let tail = s.drop_first();
        if is_white_space(s[0]) {
            lemma_squeeze_shape(tail, false, started);
        } else {
            lemma_squeeze_shape(tail, true, true);
            let rest = squeeze(tail, true, true);
            let r = squeeze(s, in_word, started);
            assert(!is_white_space(' ') ==> false);
            if in_word || !started {
                assert(r =~= seq![s[0]] + rest);
                assert forall|i: int|
                    0 <= i < r.len() && #[trigger] is_white_space(r[i]) implies {
                    &&& r[i] == ' '
                    &&& (i > 0 ==> !is_white_space(r[i - 1]))
                    &&& (i + 1 < r.len() ==> !is_white_space(r[i + 1]))
                } by {
                    assert(i > 0);
                    assert(r[i] == rest[i - 1]);
                    assert(is_white_space(rest[i - 1]));
                    if i + 1 < r.len() {
                        assert(r[i + 1] == rest[i]);
                    }
                    if i > 1 {
                        assert(r[i - 1] == rest[i - 2]);
                    }
                }
            } else {
                assert(r =~= seq![' ', s[0]] + rest);
                assert forall|i: int|
                    0 <= i < r.len() && #[trigger] is_white_space(r[i]) implies {
                    &&& r[i] == ' '
                    &&& (i > 0 ==> !is_white_space(r[i - 1]))
                    &&& (i + 1 < r.len() ==> !is_white_space(r[i + 1]))
                } by {
                    if i >= 2 {
                        assert(r[i] == rest[i - 2]);
                        assert(is_white_space(rest[i - 2]));
                        if i + 1 < r.len() {
                            assert(r[i + 1] == rest[i - 1]);
                        }
                        if i > 2 {
                            assert(r[i - 1] == rest[i - 3]);
                        }
                    }
                }
            }
        }
    }
}

/// Collapsing white space leaves words separated by single spaces.
pub proof fn lemma_collapse_ws_tidy(s: Seq<char>)
    ensures
        is_tidy(collapse_ws(s)),
{
    lemma_squeeze_shape(s, false, false);
}

/// A stretch of single-spaced text is single-spaced.
pub proof fn lemma_single_spaced_subrange(t: Seq<char>, a: int, b: int)
    requires
        single_spaced(t),
        0 <= a <= b <= t.len(),
    ensures
        single_spaced(t.subrange(a, b)),
{
    let u = t.subrange(a, b);
    assert forall|i: int| 0 <= i < u.len() && #[trigger] is_white_space(u[i]) implies {
        &&& u[i] == ' '
        &&& (i > 0 ==> !is_white_space(u[i - 1]))
        &&& (i + 1 < u.len() ==> !is_white_space(u[i + 1]))
    } by {
        assert(u[i] == t[a + i]);
        assert(is_white_space(t[a + i]));
        if i > 0 {
            assert(u[i - 1] == t[a + i - 1]);
        }
        if i + 1 < u.len() {
            assert(u[i + 1] == t[a + i + 1]);
        }
    }
}

/// `trim_start(s)` is a tail of `s` that does not start with white space.
pub proof fn lemma_trim_start_shape(s: Seq<char>) -> (k: int)
    ensures
        0 <= k <= s.len(),
        trim_start(s) == s.skip(k),
        trim_start(s).len() > 0 ==> !is_white_space(trim_start(s)[0]),
    decreases s.len(),
{
    if s.len() > 0 && is_white_space(s[0]) {
        let k = lemma_trim_start_shape(s.drop_first());
        assert(s.drop_first().skip(k) =~= s.skip(k + 1));
        k + 1
    } else {
        assert(s.skip(0) =~= s);
        0
    }
}

/// `trim_end(s)` is a head of `s` that does not end with white space.
pub proof fn lemma_trim_end_shape(s: Seq<char>) -> (k: int)
    ensures
        0 <= k <= s.len(),
        trim_end(s) == s.take(k),
        trim_end(s).len() > 0 ==> !is_white_space(trim_end(s).last()),
    decreases s.len(),
{
    if s.len() > 0 && is_white_space(s.last()) {
        let k = lemma_trim_end_shape(s.drop_last());
        assert(s.drop_last().take(k) =~= s.take(k));
        k
    } else {
        assert(s.take(s.len() as int) =~= s);
        s.len() as int
    }
}

/// Trimming a single-spaced text makes it tidy.
pub proof fn lemma_trim_tidy(s: Seq<char>)
    requires
        single_spaced(s),
    ensures
        is_tidy(trim(s)),
{
    let a = lemma_trim_start_shape(s);
    let u = trim_start(s);
    let b = lemma_trim_end_shape(u);
    assert(s.skip(a) =~= s.subrange(a, s.len() as int));
    assert(u.take(b) =~= s.subrange(a, a + b));
    lemma_single_spaced_subrange(s, a, a + b);
    if trim(s).len() > 0 {
        assert(trim(s)[0] == u[0]);
    }
}

/// `collapse_ws(v)`.
pub fn collapse_whitespace(v: &Vec<char>) -> (r: Vec<char>)
    ensures
        r@ == collapse_ws(v@),
{
    let mut out: Vec<char> = Vec::new();
    let mut in_word = false;
    let mut started = false;
    let mut i: usize = 0;
    assert(v@.skip(0) =~= v@);
    while i < v.len()
        invariant
            i <= v.len(),
            collapse_ws(v@) == out@ + squeeze(v@.skip(i as int), in_word, started),
        decreases v.len() - i,
    {
        let ghost rest = v@.skip(i as int);
        assert(rest.drop_first() =~= v@.skip(i + 1));
        let c = v[i];
        if is_whitespace(c) {
            in_word = false;
        } else {
            if !in_word && started {
                out.push(' ');
            }
            out.push(c);
            in_word = true;
            started = true;
        }
        proof {
            let tail = squeeze(v@.skip(i + 1), in_word, started);
            if !is_white_space(c) {
                assert(out@ + tail =~= old_out_plus(out@, tail));
            }
        }
        i = i + 1;
    }
    assert(v@.skip(v.len() as int) =~= Seq::<char>::empty());
    assert(out@ + Seq::<char>::empty() =~= out@);
    out
}

// ---------------------------------------------------------------------------
// Lists of texts
// ---------------------------------------------------------------------------

/// The views of a vector of character vectors.
pub open spec fn views(v: Seq<Vec<char>>) -> Seq<Seq<char>> {
    v.map_values(|t: Vec<char>| t@)
}

/// The views of a vector of strings.
pub open spec fn string_views(v: Seq<String>) -> Seq<Seq<char>> {
    v.map_values(|t: String| t@)
}

/// Converts character vectors to strings.
pub fn strings_of(v: &Vec<Vec<char>>) -> (r: Vec<String>)
    ensures
        string_views(r@) == views(v@),
{
    let mut r: Vec<String> = Vec::new();
    let mut i: usize = 0;
    while i < v.len()
        invariant
            i <= v.len(),
            string_views(r@) == views(v@.take(i as int)),
        decreases v.len() - i,
    {
        r.push(string_of(&v[i]));
        assert(views(v@.take(i + 1)) =~= views(v@.take(i as int)).push(v@[i as int]@));
        assert(string_views(r@) =~= string_views(r@.drop_last()).push(r@.last()@));
        i = i + 1;
    }
    assert(v@.take(v.len() as int) =~= v@);
    r
}

// ---------------------------------------------------------------------------
// Dropping repeats
// ---------------------------------------------------------------------------

/// `s` without repeats, each element kept where it first occurs.
pub open spec fn dedup<A>(s: Seq<A>) -> Seq<A>
    decreases s.len(),
{
    if s.len() == 0 {
        Seq::empty()
    } else {
        let d = dedup(s.drop_last());
        if s.drop_last().contains(s.last()) {
            d
        } else {
            d.push(s.last())
        }
    }
}

/// `dedup(s)` holds the elements of `s`, each once, and starts with `s[0]`.
pub proof fn lemma_dedup<A>(s: Seq<A>)
    ensures
        forall|x: A| dedup(s).contains(x) == s.contains(x),
        forall|i: int, j: int| 0 <= i < j < dedup(s).len() ==> dedup(s)[i] != dedup(s)[j],
        s.len() > 0 ==> dedup(s).len() > 0 && dedup(s)[0] == s[0],
    decreases s.len(),
{
    if s.len() > 0 {
        let p = s.drop_last();
        lemma_dedup(p);
        let d = dedup(p);
        assert forall|x: A| dedup(s).contains(x) == s.contains(x) by {
            if s.contains(x) {
                let k = choose|k: int| 0 <= k < s.len() && s[k] == x;
                if k < s.len() - 1 {
                    assert(p[k] == x);
                    assert(p.contains(x));
                }
            }
            if p.contains(x) {
                let k = choose|k: int| 0 <= k < p.len() && p[k] == x;
                assert(s[k] == x);
            }
            if !p.contains(s.last()) {
                assert(dedup(s) == d.push(s.last()));
                assert(dedup(s)[d.len() as int] == s.last());
                if d.contains(x) {
                    let k = choose|k: int| 0 <= k < d.len() && d[k] == x;
                    assert(dedup(s)[k] == x);
                }
                if dedup(s).contains(x) && x != s.last() {
                    let k = choose|k: int| 0 <= k < dedup(s).len() && dedup(s)[k] == x;
                    assert(d[k] == x);
                }
            }
            assert(s[s.len() - 1] == s.last());
        }
        if p.len() == 0 {
            assert(dedup(s) == d.push(s.last()));
        }
    }
}

} // verus!
