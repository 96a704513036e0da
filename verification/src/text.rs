//! Character-level text handling with the semantics of Rust's `str` methods
//! (`trim`, `split`, `split_whitespace`, `trim_end_matches`, `parse::<u64>`).
use vstd::prelude::*;

verus! {

/// Unicode `White_Space`, the property that `char::is_whitespace` tests.
pub open spec fn is_white_space(c: char) -> bool {
    ('\u{9}' <= c && c <= '\u{d}') || c == ' ' || c == '\u{85}' || c == '\u{a0}' || c
        == '\u{1680}' || ('\u{2000}' <= c && c <= '\u{200a}') || c == '\u{2028}' || c
        == '\u{2029}' || c == '\u{202f}' || c == '\u{205f}' || c == '\u{3000}'
}

/// `s` without its leading white space.
pub open spec fn trim_start(s: Seq<char>) -> Seq<char>
    decreases s.len(),
{
    if s.len() > 0 && is_white_space(s[0]) {
        trim_start(s.drop_first())
    } else {
        s
    }
}

/// `s` without its trailing white space.
pub open spec fn trim_end(s: Seq<char>) -> Seq<char>
    decreases s.len(),
{
    if s.len() > 0 && is_white_space(s.last()) {
        trim_end(s.drop_last())
    } else {
        s
    }
}

/// `str::trim`.
pub open spec fn trim(s: Seq<char>) -> Seq<char> {
    trim_end(trim_start(s))
}

/// `str::trim_end_matches` with a single character.
pub open spec fn trim_end_char(s: Seq<char>, c: char) -> Seq<char>
    decreases s.len(),
{
    if s.len() > 0 && s.last() == c {
        trim_end_char(s.drop_last(), c)
    } else {
        s
    }
}

/// `str::trim_start_matches` with a non-empty string pattern.
pub open spec fn trim_start_seq(s: Seq<char>, pat: Seq<char>) -> Seq<char>
    decreases s.len(),
{
    if pat.len() > 0 && pat.len() <= s.len() && s.take(pat.len() as int) == pat {
        trim_start_seq(s.skip(pat.len() as int), pat)
    } else {
        s
    }
}

/// Whether `pat` occurs in `s` at position `i`.
pub open spec fn matches_at(s: Seq<char>, pat: Seq<char>, i: int) -> bool {
    0 <= i && i + pat.len() <= s.len() && s.subrange(i, i + pat.len()) == pat
}

/// The first position at or after `i` where `pat` occurs in `s`.
pub open spec fn first_match_from(s: Seq<char>, pat: Seq<char>, i: int) -> Option<int>
    decreases s.len() - i,
{
    if pat.len() == 0 || i < 0 || i + pat.len() > s.len() {
        None
    } else if matches_at(s, pat, i) {
        Some(i)
    } else {
        first_match_from(s, pat, i + 1)
    }
}

/// `str::split` with a non-empty pattern: the pieces between the occurrences
/// of `pat`, found left to right without overlap.
pub open spec fn split_on(s: Seq<char>, pat: Seq<char>) -> Seq<Seq<char>>
    decreases s.len(),
{
    if pat.len() == 0 {
        seq![s]
    } else {
        match first_match_from(s, pat, 0) {
            None => seq![s],
            Some(i) => if 0 <= i && i + pat.len() <= s.len() {
                seq![s.take(i)] + split_on(s.skip(i + pat.len()), pat)
            } else {
                seq![s]
            },
        }
    }
}

/// Number of leading characters of `s` that are not white space.
pub open spec fn word_len(s: Seq<char>) -> nat
    decreases s.len(),
{
    if s.len() == 0 || is_white_space(s[0]) {
        0
    } else {
        1 + word_len(s.drop_first())
    }
}

/// `str::split_whitespace`: the maximal runs of non-white-space characters.
pub open spec fn words(s: Seq<char>) -> Seq<Seq<char>>
    decreases s.len(),
{
    if s.len() == 0 {
        seq![]
    } else if is_white_space(s[0]) {
        words(s.drop_first())
    } else {
        let w = word_len(s);
        if 0 < w <= s.len() {
            seq![s.take(w as int)] + words(s.skip(w as int))
        } else {
            seq![]
        }
    }
}

/// An ASCII decimal digit.
pub open spec fn is_digit(c: char) -> bool {
    '0' <= c && c <= '9'
}

/// The value of a string of decimal digits.
pub open spec fn digits_value(d: Seq<char>) -> nat
    decreases d.len(),
{
    if d.len() == 0 {
        0
    } else {
        digits_value(d.drop_last()) * 10 + (d.last() as nat - '0' as nat) as nat
    }
}

/// `s` without one leading `+`.
pub open spec fn sign_stripped(s: Seq<char>) -> Seq<char> {
    if s.len() > 0 && s[0] == '+' {
        s.drop_first()
    } else {
        s
    }
}

/// Whether every character of `d` is a decimal digit.
pub open spec fn all_digits(d: Seq<char>) -> bool {
    forall|i: int| 0 <= i < d.len() ==> is_digit(#[trigger] d[i])
}

/// What `str::parse` accepts for an unsigned integer, before the range check:
/// an optional `+` followed by one or more decimal digits.
pub open spec fn unsigned_digits(s: Seq<char>) -> Option<Seq<char>> {
    let d = sign_stripped(s);
    if d.len() > 0 && all_digits(d) {
        Some(d)
    } else {
        None
    }
}

/// `str::parse` for an unsigned integer type whose largest value is `max`.
pub open spec fn parse_unsigned(s: Seq<char>, max: nat) -> Option<nat> {
    match unsigned_digits(s) {
        Some(d) => if digits_value(d) <= max {
            Some(digits_value(d))
        } else {
            None
        },
        None => None,
    }
}

/// The characters of `s`, in order.
pub fn chars_of(s: &str) -> (v: Vec<char>)
    ensures
        v@ == s@,
{
    let mut v: Vec<char> = Vec::new();
    for c in it: s.chars()
        invariant
            v@ == it.seq().take(it.index() as int),
            it.seq() == s@,
    {
        v.push(c);
    }
    v
}

/// Appends one character to a `String`.
#[verifier::external_body]
pub(crate) fn push_char(s: &mut String, c: char)
    ensures
        final(s)@ == old(s)@.push(c),
{
    s.push(c);
}

/// Whether two strings hold the same characters.
pub fn same_text(a: &str, b: &str) -> (r: bool)
    ensures
        r == (a@ == b@),
{
    let x = chars_of(a);
    let y = chars_of(b);
    if x.len() != y.len() {
        return false;
    }
    let mut i: usize = 0;
    while i < x.len()
        invariant
            x@ == a@,
            y@ == b@,
            x.len() == y.len(),
            i <= x.len(),
            forall|j: int| 0 <= j < i ==> x@[j] == y@[j],
        decreases x.len() - i,
    {
        if x[i] != y[i] {
            return false;
        }
        i = i + 1;
    }
    assert(x@ == y@);
    true
}

/// A `String` holding exactly the given characters.
pub fn string_of(v: &[char]) -> (s: String)
    ensures
        s@ == v@,
{
    let mut s = String::new();
    let mut i: usize = 0;
    while i < v.len()
        invariant
            i <= v.len(),
            s@ == v@.take(i as int),
        decreases v.len() - i,
    {
        push_char(&mut s, v[i]);
        assert(v@.take(i + 1) == v@.take(i as int).push(v@[i as int]));
        i = i + 1;
    }
    assert(v@.take(v.len() as int) == v@);
    s
}

/// A copy of `v[from..to]`.
pub fn slice_of(v: &[char], from: usize, to: usize) -> (r: Vec<char>)
    requires
        from <= to <= v.len(),
    ensures
        r@ == v@.subrange(from as int, to as int),
{
    let mut r: Vec<char> = Vec::new();
    let mut i = from;
    while i < to
        invariant
            from <= i <= to <= v.len(),
            r@ == v@.subrange(from as int, i as int),
        decreases to - i,
    {
        r.push(v[i]);
        assert(v@.subrange(from as int, i + 1) == v@.subrange(from as int, i as int).push(
            v@[i as int],
        ));
        i = i + 1;
    }
    r
}

/// `char::is_whitespace`.
pub fn is_whitespace(c: char) -> (b: bool)
    ensures
        b == is_white_space(c),
{
    ('\u{9}' <= c && c <= '\u{d}') || c == ' ' || c == '\u{85}' || c == '\u{a0}' || c
        == '\u{1680}' || ('\u{2000}' <= c && c <= '\u{200a}') || c == '\u{2028}' || c
        == '\u{2029}' || c == '\u{202f}' || c == '\u{205f}' || c == '\u{3000}'
}

proof fn lemma_trim_start_skip(s: Seq<char>, i: int)
    requires
        0 <= i <= s.len(),
        forall|j: int| 0 <= j < i ==> is_white_space(#[trigger] s[j]),
    ensures
        trim_start(s) == trim_start(s.skip(i)),
    decreases i,
{
    if i > 0 {
        assert(s.drop_first().skip(i - 1) == s.skip(i));
        lemma_trim_start_skip(s.drop_first(), i - 1);
    } else {
        assert(s.skip(0) == s);
    }
}

proof fn lemma_trim_end_take(s: Seq<char>, e: int)
    requires
        0 <= e <= s.len(),
        forall|j: int| e <= j < s.len() ==> is_white_space(#[trigger] s[j]),
    ensures
        trim_end(s) == trim_end(s.take(e)),
    decreases s.len() - e,
{
    if e < s.len() {
        assert(s.drop_last().take(e) == s.take(e));
        lemma_trim_end_take(s.drop_last(), e);
    } else {
        assert(s.take(e) == s);
    }
}

/// `str::trim`.
pub fn trim_chars(v: &[char]) -> (r: Vec<char>)
    ensures
        r@ == trim(v@),
{
    let mut start: usize = 0;
    while start < v.len() && is_whitespace(v[start])
        invariant
            start <= v.len(),
            forall|j: int| 0 <= j < start ==> is_white_space(#[trigger] v@[j]),
        decreases v.len() - start,
    {
        start = start + 1;
    }
    proof {
        lemma_trim_start_skip(v@, start as int);
    }
    let ghost t = v@.skip(start as int);
    assert(trim_start(t) == t);
    let mut end: usize = v.len();
    while end > start && is_whitespace(v[end - 1])
        invariant
            start <= end <= v.len(),
            t == v@.skip(start as int),
            forall|j: int| end <= j < v.len() ==> is_white_space(#[trigger] v@[j]),
        decreases end - start,
    {
        end = end - 1;
    }
    proof {
        assert forall|j: int| end - start <= j < t.len() implies is_white_space(#[trigger] t[j]) by {
            assert(t[j] == v@[start + j]);
        }
        lemma_trim_end_take(t, end - start);
        assert(t.take(end - start) == v@.subrange(start as int, end as int));
    }
    slice_of(v, start, end)
}

/// `str::trim_end_matches` with a single character.
pub fn trim_end_matching(v: &[char], c: char) -> (r: Vec<char>)
    ensures
        r@ == trim_end_char(v@, c),
{
    let mut end: usize = v.len();
    assert(v@.take(v.len() as int) == v@);
    while end > 0 && v[end - 1] == c
        invariant
            end <= v.len(),
            trim_end_char(v@, c) == trim_end_char(v@.take(end as int), c),
        decreases end,
    {
        assert(v@.take(end as int).drop_last() == v@.take(end - 1));
        end = end - 1;
    }
    proof {
        assert(v@.take(v.len() as int) == v@);
    }
    slice_of(v, 0, end)
}

/// Whether `pat` occurs in `v` at position `i`.
pub fn matches_here(v: &[char], pat: &[char], i: usize) -> (b: bool)
    ensures
        b == matches_at(v@, pat@, i as int),
{
    if i > v.len() || pat.len() > v.len() - i {
        return false;
    }
    let mut k: usize = 0;
    while k < pat.len()
        invariant
            i + pat.len() <= v.len(),
            k <= pat.len(),
            forall|j: int| 0 <= j < k ==> v@[i + j] == pat@[j],
        decreases pat.len() - k,
    {
        if v[i + k] != pat[k] {
            assert(v@.subrange(i as int, i + pat.len())[k as int] != pat@[k as int]);
            return false;
        }
        k = k + 1;
    }
    assert(v@.subrange(i as int, i + pat.len()) == pat@);
    true
}

/// The first position at or after `from` where `pat` occurs in `v`.
pub fn find_from(v: &[char], pat: &[char], from: usize) -> (r: Option<usize>)
    requires
        pat.len() > 0,
    ensures
        r is None ==> first_match_from(v@, pat@, from as int) is None,
        r matches Some(i) ==> first_match_from(v@, pat@, from as int) == Some(i as int),
        r matches Some(i) ==> from <= i && i + pat.len() <= v.len(),
{
    let mut i = from;
    while i <= v.len() && pat.len() <= v.len() - i
        invariant
            pat.len() > 0,
            from <= i,
            first_match_from(v@, pat@, from as int) == first_match_from(v@, pat@, i as int),
        decreases v.len() + 1 - i,
    {
        if matches_here(v, pat, i) {
            return Some(i);
        }
        i = i + 1;
    }
    None
}

/// `str::split` with a non-empty pattern, keeping every piece.
pub fn split_all(v: &[char], pat: &[char]) -> (r: Vec<Vec<char>>)
    requires
        pat.len() > 0,
    ensures
        r@.len() == split_on(v@, pat@).len(),
        forall|k: int| 0 <= k < r@.len() ==> #[trigger] r@[k]@ == split_on(v@, pat@)[k],
{
    let mut r: Vec<Vec<char>> = Vec::new();
    let mut rest: Vec<char> = slice_of(v, 0, v.len());
    assert(rest@ == v@);
    loop
        invariant
            pat.len() > 0,
            r@.len() + split_on(rest@, pat@).len() == split_on(v@, pat@).len(),
            forall|k: int| 0 <= k < r@.len() ==> #[trigger] r@[k]@ == split_on(v@, pat@)[k],
            forall|k: int|
                0 <= k < split_on(rest@, pat@).len() ==> #[trigger] split_on(rest@, pat@)[k]
                    == split_on(v@, pat@)[r@.len() + k],
        decreases rest@.len(),
    {
        match find_from(&rest, pat, 0) {
            None => {
                let ghost n = r@.len();
                assert(split_on(rest@, pat@) == seq![rest@]);
                assert(split_on(rest@, pat@)[0] == split_on(v@, pat@)[n as int]);
                r.push(rest);
                return r;
            },
            Some(i) => {
                let piece = slice_of(&rest, 0, i);
                let next = slice_of(&rest, i + pat.len(), rest.len());
                let ghost old_rest = rest@;
                let ghost n = r@.len();
                proof {
                    lemma_first_match_in_range(old_rest, pat@, 0);
                }
                assert(split_on(old_rest, pat@) == seq![old_rest.take(i as int)] + split_on(
                    old_rest.skip(i + pat.len()),
                    pat@,
                ));
                assert(next@ == old_rest.skip(i + pat.len()));
                assert(piece@ == old_rest.take(i as int));
                assert(split_on(old_rest, pat@)[0] == split_on(v@, pat@)[n as int]);
                r.push(piece);
                rest = next;
                assert forall|k: int| 0 <= k < split_on(rest@, pat@).len() implies #[trigger] split_on(
                    rest@,
                    pat@,
                )[k] == split_on(v@, pat@)[r@.len() + k] by {
                    assert(split_on(rest@, pat@)[k] == split_on(old_rest, pat@)[k + 1]);
                }
            },
        }
    }
}

/// `str::split` with a non-empty pattern when it must give exactly two
/// pieces: `Some` of the two pieces, else `None`.
pub fn split_in_two(v: &[char], pat: &[char]) -> (r: Option<(Vec<char>, Vec<char>)>)
    requires
        pat.len() > 0,
    ensures
        (r is Some) == (split_on(v@, pat@).len() == 2),
        r matches Some((a, b)) ==> a@ == split_on(v@, pat@)[0] && b@ == split_on(v@, pat@)[1],
{
    match find_from(v, pat, 0) {
        None => {
            assert(split_on(v@, pat@) == seq![v@]);
            None
        },
        Some(i) => {
            let after = slice_of(v, i + pat.len(), v.len());
            let first = slice_of(v, 0, i);
            proof {
                lemma_first_match_in_range(v@, pat@, 0);
            }
            assert(split_on(v@, pat@) == seq![v@.take(i as int)] + split_on(after@, pat@));
            match find_from(&after, pat, 0) {
                Some(_) => {
                    proof {
                        let a = after@;
                        let j = first_match_from(a, pat@, 0int)->0;
                        lemma_first_match_in_range(a, pat@, 0);
                        assert(split_on(a, pat@) == seq![a.take(j)] + split_on(
                            a.skip(j + pat@.len()),
                            pat@,
                        ));
                        lemma_split_nonempty(a.skip(j + pat@.len()), pat@);
                    }
                    None
                },
                None => {
                    assert(split_on(after@, pat@) == seq![after@]);
                    Some((first, after))
                },
            }
        },
    }
}

proof fn lemma_split_nonempty(s: Seq<char>, pat: Seq<char>)
    ensures
        split_on(s, pat).len() >= 1,
    decreases s.len(),
{
    if pat.len() > 0 {
        match first_match_from(s, pat, 0) {
            None => {},
            Some(i) => {
                lemma_first_match_in_range(s, pat, 0);
                lemma_split_nonempty(s.skip(i + pat.len()), pat);
            },
        }
    }
}

proof fn lemma_first_match_in_range(s: Seq<char>, pat: Seq<char>, i: int)
    ensures
        first_match_from(s, pat, i) matches Some(k) ==> i <= k && 0 <= k && k + pat.len() <= s.len(),
    decreases s.len() - i,
{
    if !(pat.len() == 0 || i < 0 || i + pat.len() > s.len()) && !matches_at(s, pat, i) {
        lemma_first_match_in_range(s, pat, i + 1);
    }
}

proof fn lemma_word_len(s: Seq<char>, j: int)
    requires
        0 <= j <= s.len(),
        forall|k: int| 0 <= k < j ==> !is_white_space(#[trigger] s[k]),
        j == s.len() || is_white_space(s[j]),
    ensures
        word_len(s) == j,
    decreases j,
{
    if j > 0 {
        lemma_word_len(s.drop_first(), j - 1);
    }
}

/// `str::split_whitespace`.
pub fn split_words(v: &[char]) -> (r: Vec<Vec<char>>)
    ensures
        r@.len() == words(v@).len(),
        forall|k: int| 0 <= k < r@.len() ==> #[trigger] r@[k]@ == words(v@)[k],
{
    let mut r: Vec<Vec<char>> = Vec::new();
    let ghost mut acc: Seq<Seq<char>> = seq![];
    let mut i: usize = 0;
    assert(v@.skip(0) == v@);
    loop
        invariant
            i <= v.len(),
            r@.len() == acc.len(),
            forall|k: int| 0 <= k < r@.len() ==> #[trigger] r@[k]@ == acc[k],
            acc + words(v@.skip(i as int)) == words(v@),
        decreases v.len() - i,
    {
        if i == v.len() {
            assert(words(v@.skip(i as int)) == Seq::<Seq<char>>::empty());
            assert(acc + words(v@.skip(i as int)) == acc);
            return r;
        }
        if is_whitespace(v[i]) {
            assert(v@.skip(i as int).drop_first() == v@.skip(i + 1));
            i = i + 1;
        } else {
            let start = i;
            while i < v.len() && !is_whitespace(v[i])
                invariant
                    start <= i <= v.len(),
                    forall|k: int| start <= k < i ==> !is_white_space(#[trigger] v@[k]),
                decreases v.len() - i,
            {
                i = i + 1;
            }
            let ghost rest = v@.skip(start as int);
            proof {
                assert forall|k: int| 0 <= k < i - start implies !is_white_space(#[trigger] rest[k]) by {
                    assert(rest[k] == v@[start + k]);
                }
                if i < v.len() {
                    assert(rest[i - start] == v@[i as int]);
                }
                lemma_word_len(rest, i - start);
                assert(rest.take(i - start) == v@.subrange(start as int, i as int));
                assert(rest.skip(i - start) == v@.skip(i as int));
                assert(words(rest) == seq![rest.take(i - start)] + words(rest.skip(i - start)));
            }
            let w = slice_of(v, start, i);
            r.push(w);
            proof {
                let old_acc = acc;
                acc = acc.push(w@);
                assert(acc + words(v@.skip(i as int)) == old_acc + words(rest));
            }
        }
    }
}

proof fn lemma_digits_value_prefix(d: Seq<char>, k: int)
    requires
        0 <= k <= d.len(),
    ensures
        digits_value(d.take(k)) <= digits_value(d),
    decreases d.len() - k,
{
    if k < d.len() {
        lemma_digits_value_prefix(d.drop_last(), k);
        assert(d.drop_last().take(k) == d.take(k));
    } else {
        assert(d.take(k) == d);
    }
}

/// `str::parse` for an unsigned integer whose largest value is `max`
/// (`u64::MAX` for `u64`, `u32::MAX` for `u32`).
pub fn parse_unsigned_chars(v: &[char], max: u64) -> (r: Option<u64>)
    ensures
        r == (match parse_unsigned(v@, max as nat) {
            Some(n) => Some(n as u64),
            None => None,
        }),
{
    let start: usize = if v.len() > 0 && v[0] == '+' {
        1
    } else {
        0
    };
    let ghost d = sign_stripped(v@);
    assert(d == v@.skip(start as int));
    if start == v.len() {
        return None;
    }
    let mut k = start;
    while k < v.len()
        invariant
            start <= k <= v.len(),
            d == v@.skip(start as int),
            d == sign_stripped(v@),
            forall|j: int| start <= j < k ==> is_digit(#[trigger] v@[j]),
        decreases v.len() - k,
    {
        if !('0' <= v[k] && v[k] <= '9') {
            assert(d[k - start] == v@[k as int]);
            assert(!is_digit(d[k - start]));
            assert(unsigned_digits(v@) is None);
            return None;
        }
        k = k + 1;
    }
    assert(all_digits(d)) by {
        assert forall|j: int| 0 <= j < d.len() implies is_digit(#[trigger] d[j]) by {
            assert(d[j] == v@[start + j]);
        }
    }
    let mut acc: u128 = 0;
    let mut i = start;
    while i < v.len()
        invariant
            start <= i <= v.len(),
            d == v@.skip(start as int),
            d == sign_stripped(v@),
            forall|j: int| 0 <= j < d.len() ==> is_digit(#[trigger] d[j]),
            acc == digits_value(d.take(i - start)),
            acc <= max,
        decreases v.len() - i,
    {
        let c = v[i];
        assert(d[i - start] == c);
        assert(is_digit(d[i - start]));
        let digit = (c as u32 - '0' as u32) as u128;
        assert(d.take(i + 1 - start).drop_last() == d.take(i - start));
        acc = acc * 10 + digit;
        if acc > max as u128 {
            proof {
                lemma_digits_value_prefix(d, i + 1 - start);
                assert(unsigned_digits(v@) == Some(d));
            }
            return None;
        }
        i = i + 1;
    }
    assert(d.take(d.len() as int) == d);
    assert(unsigned_digits(v@) == Some(d));
    Some(acc as u64)
}

/// `str::trim_start_matches` with a non-empty string pattern.
pub fn trim_start_matching(v: &[char], pat: &[char]) -> (r: Vec<char>)
    requires
        pat.len() > 0,
    ensures
        r@ == trim_start_seq(v@, pat@),
{
    let mut i: usize = 0;
    assert(v@.skip(0) == v@);
    while matches_here(v, pat, i)
        invariant
            i <= v.len(),
            pat.len() > 0,
            trim_start_seq(v@, pat@) == trim_start_seq(v@.skip(i as int), pat@),
        decreases v.len() - i,
    {
        proof {
            let t = v@.skip(i as int);
            assert(t.take(pat.len() as int) == v@.subrange(i as int, i + pat.len()));
            assert(t.skip(pat.len() as int) == v@.skip(i + pat.len()));
        }
        i = i + pat.len();
    }
    proof {
        let t = v@.skip(i as int);
        if pat.len() <= t.len() {
            assert(t.take(pat.len() as int) == v@.subrange(i as int, i + pat.len()));
        }
    }
    slice_of(v, i, v.len())
}

} // verus!
