//! Character-level text operations: the `str` methods that the parsers and the
//! renderers use, stated over `Seq<char>` and carried out on `char` slices.
use vstd::prelude::*;

verus! {

// ---------------------------------------------------------------------------
// Whitespace and trimming
// ---------------------------------------------------------------------------

/// Whether `c` has the Unicode `White_Space` property, which is the test that
/// `char::is_whitespace` (and so `str::trim` and `str::split_whitespace`) makes.
pub open spec fn is_whitespace(c: char) -> bool {
    let u = c as u32;
    ||| 0x09 <= u <= 0x0D
    ||| u == 0x20 || u == 0x85 || u == 0xA0 || u == 0x1680
    ||| 0x2000 <= u <= 0x200A
    ||| u == 0x2028 || u == 0x2029 || u == 0x202F || u == 0x205F || u == 0x3000
}

/// `s` without its leading whitespace.
pub open spec fn trim_start(s: Seq<char>) -> Seq<char>
    decreases s.len(),
{
    if s.len() > 0 && is_whitespace(s[0]) {
        trim_start(s.drop_first())
    } else {
        s
    }
}

/// `s` without its trailing whitespace.
pub open spec fn trim_end(s: Seq<char>) -> Seq<char>
    decreases s.len(),
{
    if s.len() > 0 && is_whitespace(s.last()) {
        trim_end(s.drop_last())
    } else {
        s
    }
}

/// `s` without leading and trailing whitespace, as `str::trim` gives it.
pub open spec fn trim(s: Seq<char>) -> Seq<char> {
    trim_end(trim_start(s))
}

/// `s` with every trailing `c` removed, as `str::trim_end_matches(c)` gives it.
pub open spec fn trim_end_matches(s: Seq<char>, c: char) -> Seq<char>
    decreases s.len(),
{
    if s.len() > 0 && s.last() == c {
        trim_end_matches(s.drop_last(), c)
    } else {
        s
    }
}

// ---------------------------------------------------------------------------
// Searching
// ---------------------------------------------------------------------------

/// The first index at or after `i` where `c` occurs in `s`.
pub open spec fn find_char_from(s: Seq<char>, c: char, i: int) -> Option<int>
    decreases s.len() - i,
{
    if i < 0 || i >= s.len() {
        None
    } else if s[i] == c {
        Some(i)
    } else {
        find_char_from(s, c, i + 1)
    }
}

/// The first index of `c` in `s`, as `str::find(c)` gives it (counted in chars).
pub open spec fn find_char(s: Seq<char>, c: char) -> Option<int> {
    find_char_from(s, c, 0)
}

/// The last index below `n` where `c` occurs in `s`.
pub open spec fn rfind_char_below(s: Seq<char>, c: char, n: int) -> Option<int>
    decreases n,
{
    if n <= 0 || n > s.len() {
        None
    } else if s[n - 1] == c {
        Some(n - 1)
    } else {
        rfind_char_below(s, c, n - 1)
    }
}

/// The last index of `c` in `s`, as `str::rfind(c)` gives it (counted in chars).
pub open spec fn rfind_char(s: Seq<char>, c: char) -> Option<int> {
    rfind_char_below(s, c, s.len() as int)
}

/// Whether `pat` occurs in `s` at index `i`.
pub open spec fn matches_at(s: Seq<char>, i: int, pat: Seq<char>) -> bool {
    0 <= i && i + pat.len() <= s.len() && s.subrange(i, i + pat.len()) == pat
}

/// The first index at or after `i` where `pat` occurs in `s`.
pub open spec fn find_str_from(s: Seq<char>, pat: Seq<char>, i: int) -> Option<int>
    decreases s.len() + 1 - i,
{
    if i < 0 || i + pat.len() > s.len() {
        None
    } else if matches_at(s, i, pat) {
        Some(i)
    } else {
        find_str_from(s, pat, i + 1)
    }
}

/// The first index of `pat` in `s`, as `str::find(pat)` gives it (counted in chars).
pub open spec fn find_str(s: Seq<char>, pat: Seq<char>) -> Option<int> {
    find_str_from(s, pat, 0)
}

/// Whether `s` begins with `pat`.
pub open spec fn starts_with(s: Seq<char>, pat: Seq<char>) -> bool {
    pat.len() <= s.len() && s.take(pat.len() as int) == pat
}

// ---------------------------------------------------------------------------
// Splitting
// ---------------------------------------------------------------------------

/// The pieces of `s` between occurrences of `sep`; there is always one more
/// piece than there are separators.
pub open spec fn split_on(s: Seq<char>, sep: char) -> Seq<Seq<char>>
    decreases s.len(),
{
    if s.len() == 0 {
        seq![Seq::<char>::empty()]
    } else {
        let r = split_on(s.drop_last(), sep);
        if s.last() == sep {
            r.push(Seq::<char>::empty())
        } else {
            r.update(r.len() - 1, r.last().push(s.last()))
        }
    }
}

/// The lines of `s`, as `str::lines` gives them: the pieces between `'\n'`,
/// where a final `'\n'` ends the last line instead of opening an empty one.
/// (A `'\r'` before a `'\n'` stays in its line; every caller trims lines.)
pub open spec fn lines(s: Seq<char>) -> Seq<Seq<char>> {
    if s.len() == 0 {
        Seq::empty()
    } else if s.last() == '\n' {
        split_on(s.drop_last(), '\n')
    } else {
        split_on(s, '\n')
    }
}

/// The maximal runs of non-whitespace in `s`, as `str::split_whitespace` gives them.
pub open spec fn words(s: Seq<char>) -> Seq<Seq<char>>
    decreases s.len(),
{
    if s.len() == 0 {
        Seq::empty()
    } else {
        let r = words(s.drop_last());
        let c = s.last();
        if is_whitespace(c) {
            r
        } else if s.len() >= 2 && !is_whitespace(s[s.len() - 2]) {
            r.update(r.len() - 1, r.last().push(c))
        } else {
            r.push(seq![c])
        }
    }
}

// ---------------------------------------------------------------------------
// UTF-8 lengths
// ---------------------------------------------------------------------------

/// The number of bytes in the UTF-8 encoding of `c`, as `char::len_utf8` gives it.
pub open spec fn char_width(c: char) -> nat {
    let u = c as u32;
    if u < 0x80 {
        1
    } else if u < 0x800 {
        2
    } else if u < 0x10000 {
        3
    } else {
        4
    }
}

/// The number of bytes in the UTF-8 encoding of `s`, which is what `str::len` counts.
pub open spec fn utf8_len(s: Seq<char>) -> nat
    decreases s.len(),
{
    if s.len() == 0 {
        0
    } else {
        char_width(s[0]) + utf8_len(s.drop_first())
    }
}

// ---------------------------------------------------------------------------
// Lemmas
// ---------------------------------------------------------------------------

/// Trimming the end never lengthens.
pub proof fn lemma_trim_end_len(s: Seq<char>)
    ensures
        trim_end(s).len() <= s.len(),
    decreases s.len(),
{
    if s.len() > 0 && is_whitespace(s.last()) {
        lemma_trim_end_len(s.drop_last());
    }
}

/// Every char of `s` satisfies `p`.
pub open spec fn chars_all(s: Seq<char>, p: spec_fn(char) -> bool) -> bool {
    forall|k: int| 0 <= k < s.len() ==> #[trigger] p(s[k])
}

/// Every char of the text, if there is one, satisfies `p`.
pub open spec fn opt_chars_all(o: Option<Seq<char>>, p: spec_fn(char) -> bool) -> bool {
    match o {
        Some(l) => chars_all(l, p),
        None => true,
    }
}

pub proof fn lemma_chars_all_subrange(s: Seq<char>, i: int, j: int, p: spec_fn(char) -> bool)
    requires
        chars_all(s, p),
        0 <= i <= j <= s.len(),
    ensures
        chars_all(s.subrange(i, j), p),
        chars_all(s.take(j), p),
        chars_all(s.skip(i), p),
{
    assert forall|k: int| 0 <= k < j - i implies #[trigger] p(s.subrange(i, j)[k]) by {
        assert(p(s[i + k]));
    }
    assert forall|k: int| 0 <= k < j implies #[trigger] p(s.take(j)[k]) by {
        assert(p(s[k]));
    }
    assert forall|k: int| 0 <= k < s.len() - i implies #[trigger] p(s.skip(i)[k]) by {
        assert(p(s[i + k]));
    }
}

/// Trimming keeps only chars that were there.
pub proof fn lemma_chars_all_trim(s: Seq<char>, c: char, p: spec_fn(char) -> bool)
    requires
        chars_all(s, p),
    ensures
        chars_all(trim_start(s), p),
        chars_all(trim_end(s), p),
        chars_all(trim(s), p),
        chars_all(trim_end_matches(s, c), p),
    decreases s.len(),
{
    if s.len() > 0 {
        lemma_chars_all_subrange(s, 1, s.len() as int, p);
        lemma_chars_all_subrange(s, 0, s.len() - 1, p);
        assert(s.drop_first() =~= s.skip(1));
        assert(s.drop_last() =~= s.take(s.len() - 1));
        lemma_chars_all_trim(s.drop_first(), c, p);
        lemma_chars_all_trim(s.drop_last(), c, p);
    }
    lemma_chars_all_trim_end(trim_start(s), p);
}

proof fn lemma_chars_all_trim_end(s: Seq<char>, p: spec_fn(char) -> bool)
    requires
        chars_all(s, p),
    ensures
        chars_all(trim_end(s), p),
    decreases s.len(),
{
    if s.len() > 0 {
        lemma_chars_all_subrange(s, 0, s.len() - 1, p);
        assert(s.drop_last() =~= s.take(s.len() - 1));
        lemma_chars_all_trim_end(s.drop_last(), p);
    }
}

proof fn lemma_chars_all_split_on(s: Seq<char>, sep: char, p: spec_fn(char) -> bool)
    requires
        forall|k: int| 0 <= k < s.len() && s[k] != sep ==> #[trigger] p(s[k]),
    ensures
        forall|i: int| 0 <= i < split_on(s, sep).len() ==> chars_all(#[trigger] split_on(s, sep)[i], p),
    decreases s.len(),
{
    if s.len() > 0 {
        let d = s.drop_last();
        assert forall|k: int| 0 <= k < d.len() && d[k] != sep implies #[trigger] p(d[k]) by {
            assert(d[k] == s[k]);
        }
        lemma_chars_all_split_on(d, sep, p);
        lemma_split_on_nonempty(d, sep);
        let r = split_on(d, sep);
        assert(chars_all(r.last(), p));
        if s.last() != sep {
            assert(p(s[s.len() - 1]));
            assert(chars_all(r.last().push(s.last()), p));
        }
    }
}

/// Every line of `s` is made of chars of `s` other than `'\n'`: whatever
/// holds of those holds of every char of every line.
pub proof fn lemma_chars_all_lines(s: Seq<char>, p: spec_fn(char) -> bool)
    requires
        forall|k: int| 0 <= k < s.len() && s[k] != '\n' ==> #[trigger] p(s[k]),
    ensures
        forall|i: int| 0 <= i < lines(s).len() ==> chars_all(#[trigger] lines(s)[i], p),
{
    if s.len() > 0 {
        let d = s.drop_last();
        assert forall|k: int| 0 <= k < d.len() && d[k] != '\n' implies #[trigger] p(d[k]) by {
            assert(d[k] == s[k]);
        }
        lemma_chars_all_split_on(d, '\n', p);
        lemma_chars_all_split_on(s, '\n', p);
    }
}

/// No line holds a `'\n'`.
pub proof fn lemma_lines_have_no_newline(s: Seq<char>)
    ensures
        forall|i: int| 0 <= i < lines(s).len() ==> chars_all(#[trigger] lines(s)[i], |ch: char| ch != '\n'),
{
    lemma_chars_all_lines(s, |ch: char| ch != '\n');
}

proof fn lemma_trim_end_keeps_first(s: Seq<char>)
    ensures
        trim_end(s).len() <= s.len(),
        trim_end(s) == s.take(trim_end(s).len() as int),
        trim_end(s).len() > 0 ==> !is_whitespace(trim_end(s).last()),
    decreases s.len(),
{
    if s.len() > 0 && is_whitespace(s.last()) {
        lemma_trim_end_keeps_first(s.drop_last());
        let t = trim_end(s.drop_last());
        assert(s.drop_last().take(t.len() as int) =~= s.take(t.len() as int));
    } else {
        assert(s.take(s.len() as int) =~= s);
    }
}

proof fn lemma_trim_start_of_unpadded(s: Seq<char>)
    requires
        s.len() > 0 ==> !is_whitespace(s[0]),
    ensures
        trim_start(s) == s,
{
}

/// Neither the first nor the last char of `s` is whitespace.
pub open spec fn unpadded(s: Seq<char>) -> bool {
    s.len() > 0 ==> !is_whitespace(s[0]) && !is_whitespace(s.last())
}

/// Trimmed text starts and ends with a char that is not whitespace.
pub proof fn lemma_trim_unpadded(s: Seq<char>)
    ensures
        unpadded(trim(s)),
{
    lemma_trim_start_nonempty_first(s);
    let a = trim_start(s);
    lemma_trim_end_keeps_first(a);
    let t = trim_end(a);
    if t.len() > 0 {
        assert(t[0] == a[0]);
    }
}

/// Whitespace before text that starts with a non-whitespace char is all that
/// trimming the start removes.
pub proof fn lemma_trim_start_concat(a: Seq<char>, b: Seq<char>)
    requires
        b.len() > 0,
        !is_whitespace(b[0]),
    ensures
        trim_start(a + b) == trim_start(a) + b,
    decreases a.len(),
{
    if a.len() == 0 {
        assert(a + b =~= b);
        assert(trim_start(a) + b =~= b);
    } else if is_whitespace(a[0]) {
        assert((a + b).drop_first() =~= a.drop_first() + b);
        lemma_trim_start_concat(a.drop_first(), b);
    } else {
        assert((a + b)[0] == a[0]);
    }
}

/// Trimming the start twice is trimming it once.
pub proof fn lemma_trim_start_idempotent(s: Seq<char>)
    ensures
        trim_start(trim_start(s)) == trim_start(s),
{
    lemma_trim_start_nonempty_first(s);
    lemma_trim_start_of_unpadded(trim_start(s));
}

/// The first `c` in `a + b` where `a` has none and `b` starts with one is
/// just after `a`.
pub proof fn lemma_find_char_after(a: Seq<char>, b: Seq<char>, c: char, i: int)
    requires
        0 <= i <= a.len(),
        forall|k: int| 0 <= k < a.len() ==> a[k] != c,
        b.len() > 0,
        b[0] == c,
    ensures
        find_char_from(a + b, c, i) == Some(a.len() as int),
    decreases a.len() - i,
{
    if i < a.len() {
        assert((a + b)[i] == a[i]);
        lemma_find_char_after(a, b, c, i + 1);
    } else {
        assert((a + b)[i] == b[0]);
    }
}

/// Trimming twice is trimming once.
pub proof fn lemma_trim_idempotent(s: Seq<char>)
    ensures
        trim(trim(s)) == trim(s),
{
    lemma_trim_start_nonempty_first(s);
    let a = trim_start(s);
    lemma_trim_end_keeps_first(a);
    let t = trim_end(a);
    if t.len() > 0 {
        assert(t[0] == a[0]);
    }
    lemma_trim_start_of_unpadded(t);
    lemma_trim_end_keeps_first(t);
    if t.len() > 0 {
        assert(trim_end(t) == t);
    }
}

pub proof fn lemma_utf8_len_concat(a: Seq<char>, b: Seq<char>)
    ensures
        utf8_len(a + b) == utf8_len(a) + utf8_len(b),
    decreases a.len(),
{
    if a.len() == 0 {
        assert(a + b =~= b);
    } else {
        assert((a + b).drop_first() =~= a.drop_first() + b);
        lemma_utf8_len_concat(a.drop_first(), b);
    }
}

pub proof fn lemma_utf8_len_subrange(s: Seq<char>, i: int, j: int)
    requires
        0 <= i <= j <= s.len(),
    ensures
        utf8_len(s.subrange(i, j)) <= utf8_len(s),
        utf8_len(s.subrange(i, j)) >= j - i,
{
    assert(s =~= s.subrange(0, i) + s.subrange(i, j) + s.subrange(j, s.len() as int));
    lemma_utf8_len_concat(s.subrange(0, i) + s.subrange(i, j), s.subrange(j, s.len() as int));
    lemma_utf8_len_concat(s.subrange(0, i), s.subrange(i, j));
    lemma_utf8_len_at_least_len(s.subrange(i, j));
}

pub proof fn lemma_utf8_len_at_least_len(s: Seq<char>)
    ensures
        utf8_len(s) >= s.len(),
    decreases s.len(),
{
    if s.len() > 0 {
        lemma_utf8_len_at_least_len(s.drop_first());
    }
}

/// `utf8_len` counts the bytes of the encoding that vstd specifies for `str`.
pub proof fn lemma_utf8_len_is_encoded_len(s: Seq<char>)
    ensures
        utf8_len(s) == vstd::utf8::encode_utf8(s).len(),
    decreases s.len(),
{
    if s.len() > 0 {
        let c = s[0];
        assert(vstd::utf8::is_scalar(c as u32)) by {
            vstd::utf8::char_is_scalar(c);
        }
        lemma_utf8_len_is_encoded_len(s.drop_first());
    }
}

pub proof fn lemma_split_on_nonempty(s: Seq<char>, sep: char)
    ensures
        split_on(s, sep).len() >= 1,
    decreases s.len(),
{
    if s.len() > 0 {
        lemma_split_on_nonempty(s.drop_last(), sep);
    }
}

pub proof fn lemma_find_char_from_bounds(s: Seq<char>, c: char, i: int)
    ensures
        find_char_from(s, c, i) matches Some(k) ==> i <= k < s.len() && s[k] == c && forall|m: int|
            i <= m < k ==> s[m] != c,
        find_char_from(s, c, i) is None && i >= 0 ==> forall|m: int| i <= m < s.len() ==> s[m] != c,
    decreases s.len() - i,
{
    if i >= 0 && i < s.len() && s[i] != c {
        lemma_find_char_from_bounds(s, c, i + 1);
    }
}

pub proof fn lemma_find_str_from_bounds(s: Seq<char>, pat: Seq<char>, i: int)
    ensures
        find_str_from(s, pat, i) matches Some(k) ==> i <= k && k + pat.len() <= s.len()
            && matches_at(s, k, pat),
    decreases s.len() + 1 - i,
{
    if i >= 0 && i + pat.len() <= s.len() && !matches_at(s, i, pat) {
        lemma_find_str_from_bounds(s, pat, i + 1);
    }
}

pub proof fn lemma_rfind_char_below_bounds(s: Seq<char>, c: char, n: int)
    ensures
        rfind_char_below(s, c, n) matches Some(k) ==> 0 <= k < n && k < s.len() && s[k] == c,
    decreases n,
{
    if n > 0 && n <= s.len() && s[n - 1] != c {
        lemma_rfind_char_below_bounds(s, c, n - 1);
    }
}

pub proof fn lemma_trim_start_nonempty_first(s: Seq<char>)
    ensures
        trim_start(s).len() > 0 ==> !is_whitespace(trim_start(s)[0]),
        trim_start(s).len() <= s.len(),
    decreases s.len(),
{
    if s.len() > 0 && is_whitespace(s[0]) {
        lemma_trim_start_nonempty_first(s.drop_first());
    }
}

// ---------------------------------------------------------------------------
// Executable operations
// ---------------------------------------------------------------------------

/// Tests the `White_Space` property of `c`.
pub fn is_whitespace_char(c: char) -> (b: bool)
    ensures
        b == is_whitespace(c),
{
    let u = c as u32;
    (0x09 <= u && u <= 0x0D) || u == 0x20 || u == 0x85 || u == 0xA0 || u == 0x1680 || (0x2000
        <= u && u <= 0x200A) || u == 0x2028 || u == 0x2029 || u == 0x202F || u == 0x205F || u
        == 0x3000
}

/// The number of UTF-8 bytes of `c`.
pub fn char_utf8_width(c: char) -> (w: usize)
    ensures
        w == char_width(c),
{
    let u = c as u32;
    if u < 0x80 {
        1
    } else if u < 0x800 {
        2
    } else if u < 0x10000 {
        3
    } else {
        4
    }
}

/// The number of UTF-8 bytes of `s`.
pub fn utf8_length(s: &[char]) -> (n: usize)
    requires
        utf8_len(s@) <= usize::MAX,
    ensures
        n == utf8_len(s@),
{
    let mut n: usize = 0;
    let mut i: usize = 0;
    while i < s.len()
        invariant
            0 <= i <= s@.len(),
            n == utf8_len(s@.take(i as int)),
            utf8_len(s@) <= usize::MAX,
        decreases s.len() - i,
    {
        proof {
            assert(s@.take(i + 1) =~= s@.take(i as int) + seq![s@[i as int]]);
            lemma_utf8_len_concat(s@.take(i as int), seq![s@[i as int]]);
            assert(seq![s@[i as int]].drop_first() =~= Seq::<char>::empty());
            reveal_with_fuel(utf8_len, 2);
            lemma_utf8_len_subrange(s@, 0, i + 1);
            assert(s@.subrange(0, i + 1) =~= s@.take(i + 1));
        }
        n = n + char_utf8_width(s[i]);
        i = i + 1;
    }
    proof {
        assert(s@.take(i as int) =~= s@);
    }
    n
}

/// The UTF-8 byte count of `s`, in a type wide enough for any slice.
pub fn utf8_length_wide(s: &[char]) -> (n: u128)
    ensures
        n == utf8_len(s@),
        n <= 4 * s@.len(),
        s@.len() <= usize::MAX,
{
    let _ = s.len();
    let mut n: u128 = 0;
    let mut i: usize = 0;
    while i < s.len()
        invariant
            0 <= i <= s@.len(),
            n == utf8_len(s@.take(i as int)),
            n <= 4 * i,
        decreases s.len() - i,
    {
        proof {
            assert(s@.take(i + 1) =~= s@.take(i as int) + seq![s@[i as int]]);
            lemma_utf8_len_concat(s@.take(i as int), seq![s@[i as int]]);
            assert(seq![s@[i as int]].drop_first() =~= Seq::<char>::empty());
            reveal_with_fuel(utf8_len, 2);
        }
        n = n + char_utf8_width(s[i]) as u128;
        i = i + 1;
    }
    proof {
        assert(s@.take(i as int) =~= s@);
    }
    n
}

/// The chars of `s`.
pub fn chars_of(s: &str) -> (v: Vec<char>)
    ensures
        v@ == s@,
{
    let mut v: Vec<char> = Vec::new();
    for c in it: s.chars()
        invariant
            v@ == it.seq().take(it.index() as int),
    {
        v.push(c);
    }
    v
}

/// Appends `c` to `s` with std's `String::push`. The contract claims what
/// std documents of it: the chars after the call are those before with `c`
/// added at the end.
#[verifier::external_body]
pub(crate) fn push_char(s: &mut String, c: char)
    ensures
        final(s)@ == old(s)@.push(c),
{
    s.push(c);
}

/// A `String` holding the chars of `s`.
pub fn string_from(s: &[char]) -> (r: String)
    ensures
        r@ == s@,
{
    let mut r = String::new();
    let mut i: usize = 0;
    while i < s.len()
        invariant
            0 <= i <= s@.len(),
            r@ == s@.take(i as int),
        decreases s.len() - i,
    {
        push_char(&mut r, s[i]);
        proof {
            assert(s@.take(i + 1) =~= s@.take(i as int).push(s@[i as int]));
        }
        i = i + 1;
    }
    proof {
        assert(s@.take(i as int) =~= s@);
    }
    r
}

/// Appends the chars of `t` to `s`.
pub fn push_chars(s: &mut String, t: &[char])
    ensures
        final(s)@ == old(s)@ + t@,
{
    let mut i: usize = 0;
    while i < t.len()
        invariant
            0 <= i <= t@.len(),
            s@ == old(s)@ + t@.take(i as int),
        decreases t.len() - i,
    {
        push_char(s, t[i]);
        proof {
            assert(t@.take(i + 1) =~= t@.take(i as int).push(t@[i as int]));
            assert(old(s)@ + t@.take(i + 1) =~= (old(s)@ + t@.take(i as int)).push(t@[i as int]));
        }
        i = i + 1;
    }
    proof {
        assert(t@.take(i as int) =~= t@);
    }
}

/// Appends the chars of `t` to `s`.
pub fn push_str(s: &mut String, t: &str)
    ensures
        final(s)@ == old(s)@ + t@,
{
    let cs = chars_of(t);
    push_chars(s, cs.as_slice());
}

/// Whether the two char sequences are equal.
pub fn chars_eq(a: &[char], b: &[char]) -> (r: bool)
    ensures
        r == (a@ == b@),
{
    if a.len() != b.len() {
        return false;
    }
    let mut i: usize = 0;
    while i < a.len()
        invariant
            0 <= i <= a@.len(),
            a@.len() == b@.len(),
            forall|k: int| 0 <= k < i ==> a@[k] == b@[k],
        decreases a.len() - i,
    {
        if a[i] != b[i] {
            return false;
        }
        i = i + 1;
    }
    proof {
        assert(a@ =~= b@);
    }
    true
}

/// `s` without its leading whitespace.
pub fn trim_start_slice(s: &[char]) -> (r: &[char])
    ensures
        r@ == trim_start(s@),
{
    let mut i: usize = 0;
    proof {
        assert(s@.subrange(0, s@.len() as int) =~= s@);
    }
    while i < s.len() && is_whitespace_char(s[i])
        invariant
            0 <= i <= s@.len(),
            trim_start(s@.subrange(i as int, s@.len() as int)) == trim_start(s@),
        decreases s.len() - i,
    {
        proof {
            assert(s@.subrange(i as int, s@.len() as int).drop_first() =~= s@.subrange(
                i + 1,
                s@.len() as int,
            ));
        }
        i = i + 1;
    }
    &s[i..s.len()]
}

/// `s` without its trailing whitespace.
pub fn trim_end_slice(s: &[char]) -> (r: &[char])
    ensures
        r@ == trim_end(s@),
{
    let mut j: usize = s.len();
    proof {
        assert(s@.subrange(0, s@.len() as int) =~= s@);
    }
    while j > 0 && is_whitespace_char(s[j - 1])
        invariant
            0 <= j <= s@.len(),
            trim_end(s@.subrange(0, j as int)) == trim_end(s@),
        decreases j,
    {
        proof {
            assert(s@.subrange(0, j as int).drop_last() =~= s@.subrange(0, j - 1));
        }
        j = j - 1;
    }
    &s[0..j]
}

/// `s` without leading and trailing whitespace.
pub fn trim_slice(s: &[char]) -> (r: &[char])
    ensures
        r@ == trim(s@),
{
    let a = trim_start_slice(s);
    trim_end_slice(a)
}

/// `s` without its trailing `c`s.
pub fn trim_end_matches_slice(s: &[char], c: char) -> (r: &[char])
    ensures
        r@ == trim_end_matches(s@, c),
{
    let mut j: usize = s.len();
    proof {
        assert(s@.subrange(0, s@.len() as int) =~= s@);
    }
    while j > 0 && s[j - 1] == c
        invariant
            0 <= j <= s@.len(),
            trim_end_matches(s@.subrange(0, j as int), c) == trim_end_matches(s@, c),
        decreases j,
    {
        proof {
            assert(s@.subrange(0, j as int).drop_last() =~= s@.subrange(0, j - 1));
        }
        j = j - 1;
    }
    &s[0..j]
}

/// The first index of `c` in `s`.
pub fn find_char_exec(s: &[char], c: char) -> (r: Option<usize>)
    ensures
        r matches Some(k) ==> find_char(s@, c) == Some(k as int),
        r is None ==> find_char(s@, c) is None,
{
    let mut i: usize = 0;
    while i < s.len()
        invariant
            0 <= i <= s@.len(),
            find_char_from(s@, c, i as int) == find_char(s@, c),
        decreases s.len() - i,
    {
        if s[i] == c {
            return Some(i);
        }
        i = i + 1;
    }
    None
}

/// The last index of `c` in `s`.
pub fn rfind_char_exec(s: &[char], c: char) -> (r: Option<usize>)
    ensures
        r matches Some(k) ==> rfind_char(s@, c) == Some(k as int),
        r is None ==> rfind_char(s@, c) is None,
{
    let mut n: usize = s.len();
    while n > 0
        invariant
            0 <= n <= s@.len(),
            rfind_char_below(s@, c, n as int) == rfind_char(s@, c),
        decreases n,
    {
        if s[n - 1] == c {
            return Some(n - 1);
        }
        n = n - 1;
    }
    None
}

/// Whether `pat` occurs in `s` at index `i`.
pub fn matches_at_exec(s: &[char], i: usize, pat: &[char]) -> (r: bool)
    ensures
        r == matches_at(s@, i as int, pat@),
{
    let slen = s.len();
    if i > slen || pat.len() > slen - i {
        return false;
    }
    let mut k: usize = 0;
    while k < pat.len()
        invariant
            0 <= k <= pat@.len(),
            slen == s@.len(),
            i <= s@.len(),
            i + pat@.len() <= s@.len(),
            forall|m: int| 0 <= m < k ==> s@[i + m] == pat@[m],
        decreases pat.len() - k,
    {
        if s[i + k] != pat[k] {
            proof {
                assert(s@.subrange(i as int, i + pat@.len())[k as int] != pat@[k as int]);
            }
            return false;
        }
        k = k + 1;
    }
    proof {
        assert(s@.subrange(i as int, i + pat@.len()) =~= pat@);
    }
    true
}

/// The first index of `pat` in `s`.
pub fn find_str_exec(s: &[char], pat: &[char]) -> (r: Option<usize>)
    ensures
        r matches Some(k) ==> find_str(s@, pat@) == Some(k as int),
        r is None ==> find_str(s@, pat@) is None,
{
    if pat.len() > s.len() {
        return None;
    }
    let limit = s.len() - pat.len();
    let mut i: usize = 0;
    loop
        invariant
            0 <= i <= limit,
            limit + pat@.len() == s@.len(),
            find_str_from(s@, pat@, i as int) == find_str(s@, pat@),
        decreases limit - i,
    {
        if matches_at_exec(s, i, pat) {
            return Some(i);
        }
        if i == limit {
            proof {
                assert(find_str_from(s@, pat@, i + 1) is None);
            }
            return None;
        }
        i = i + 1;
    }
}

/// Whether `s` begins with `pat`.
pub fn starts_with_exec(s: &[char], pat: &[char]) -> (r: bool)
    ensures
        r == starts_with(s@, pat@),
{
    let r = matches_at_exec(s, 0, pat);
    proof {
        if pat@.len() <= s@.len() {
            assert(s@.subrange(0, pat@.len() as int) =~= s@.take(pat@.len() as int));
        }
    }
    r
}

/// The lines of `s`.
pub fn lines_exec(s: &[char]) -> (ls: Vec<Vec<char>>)
    ensures
        ls@.len() == lines(s@).len(),
        forall|i: int| 0 <= i < ls@.len() ==> #[trigger] ls@[i]@ == lines(s@)[i],
{
    if s.len() == 0 {
        return Vec::new();
    }
    let n: usize = if s[s.len() - 1] == '\n' {
        s.len() - 1
    } else {
        s.len()
    };
    let ghost body = s@.take(n as int);
    proof {
        if s@.last() == '\n' {
            assert(body =~= s@.drop_last());
        } else {
            assert(body =~= s@);
        }
    }
    let mut done: Vec<Vec<char>> = Vec::new();
    let mut cur: Vec<char> = Vec::new();
    let mut i: usize = 0;
    while i < n
        invariant
            0 <= i <= n <= s@.len(),
            body == s@.take(n as int),
            split_on(s@.take(i as int), '\n').len() == done@.len() + 1,
            forall|k: int| 0 <= k < done@.len() ==> #[trigger] done@[k]@ == split_on(s@.take(i as int), '\n')[k],
            cur@ == split_on(s@.take(i as int), '\n').last(),
        decreases n - i,
    {
        let c = s[i];
        proof {
            assert(s@.take(i + 1).drop_last() =~= s@.take(i as int));
            lemma_split_on_nonempty(s@.take(i as int), '\n');
        }
        if c == '\n' {
            let mut line: Vec<char> = Vec::new();
            std::mem::swap(&mut line, &mut cur);
            done.push(line);
        } else {
            cur.push(c);
        }
        i = i + 1;
    }
    done.push(cur);
    proof {
        assert(s@.take(n as int) == body);
    }
    done
}

/// The whitespace-separated words of `s`.
pub fn words_exec(s: &[char]) -> (ws: Vec<Vec<char>>)
    ensures
        ws@.len() == words(s@).len(),
        forall|i: int| 0 <= i < ws@.len() ==> #[trigger] ws@[i]@ == words(s@)[i],
{
    let mut done: Vec<Vec<char>> = Vec::new();
    let mut cur: Vec<char> = Vec::new();
    let mut i: usize = 0;
    while i < s.len()
        invariant
            0 <= i <= s@.len(),
            cur@.len() > 0 ==> i > 0 && !is_whitespace(s@[i - 1]),
            cur@.len() == 0 ==> (i == 0 || is_whitespace(s@[i - 1])),
            cur@.len() > 0 ==> words(s@.take(i as int)).len() == done@.len() + 1 && cur@
                == words(s@.take(i as int)).last(),
            cur@.len() == 0 ==> words(s@.take(i as int)).len() == done@.len(),
            forall|k: int| 0 <= k < done@.len() ==> #[trigger] done@[k]@ == words(s@.take(i as int))[k],
        decreases s.len() - i,
    {
        let c = s[i];
        proof {
            assert(s@.take(i + 1).drop_last() =~= s@.take(i as int));
            assert(s@.take(i + 1).last() == c);
            if i > 0 {
                assert(s@.take(i + 1)[i - 1] == s@[i - 1]);
            }
        }
        if is_whitespace_char(c) {
            if cur.len() > 0 {
                let mut w: Vec<char> = Vec::new();
                std::mem::swap(&mut w, &mut cur);
                done.push(w);
            }
        } else {
            cur.push(c);
            proof {
                if cur@.len() == 1 {
                    assert(cur@ =~= seq![c]);
                }
            }
        }
        i = i + 1;
    }
    if cur.len() > 0 {
        done.push(cur);
    }
    proof {
        assert(s@.take(i as int) =~= s@);
    }
    done
}

} // verus!
