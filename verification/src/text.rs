//! Text as a sequence of characters: trimming, splitting, searching,
//! replacing and decimal numbers, each stated over `Seq<char>`.

use vstd::prelude::*;
use vstd::utf8::encode_utf8;

verus! {

/// `String::push` appends the given character to the end of the string.
pub assume_specification[ String::push ](text: &mut String, c: char)
    ensures
        final(text)@ == old(text)@.push(c),
;

/// The length of `s` in UTF-8 bytes.
pub open spec fn byte_len(s: Seq<char>) -> nat {
    encode_utf8(s).len()
}

/// The characters with the Unicode property `White_Space`.
pub open spec fn is_space(c: char) -> bool {
    ||| '\u{9}' <= c <= '\u{d}'
    ||| c == ' '
    ||| c == '\u{85}'
    ||| c == '\u{a0}'
    ||| c == '\u{1680}'
    ||| '\u{2000}' <= c <= '\u{200a}'
    ||| c == '\u{2028}'
    ||| c == '\u{2029}'
    ||| c == '\u{202f}'
    ||| c == '\u{205f}'
    ||| c == '\u{3000}'
}

/// Whether `c` is white space.
pub fn space(c: char) -> (r: bool)
    ensures
        r == is_space(c),
{
    ('\u{9}' <= c && c <= '\u{d}') || c == ' ' || c == '\u{85}' || c == '\u{a0}' || c == '\u{1680}'
        || ('\u{2000}' <= c && c <= '\u{200a}') || c == '\u{2028}' || c == '\u{2029}' || c
        == '\u{202f}' || c == '\u{205f}' || c == '\u{3000}'
}

/// `c` with an ASCII capital letter made small.
pub open spec fn lower_char(c: char) -> char {
    if 'A' <= c <= 'Z' {
        (c as u32 + 32) as char
    } else {
        c
    }
}

/// `s` with every ASCII capital letter made small.
pub open spec fn lower(s: Seq<char>) -> Seq<char> {
    Seq::new(s.len(), |i: int| lower_char(s[i]))
}

/// `s` from its first character that is not white space.
pub open spec fn trim_start(s: Seq<char>) -> Seq<char>
    decreases s.len(),
{
    if s.len() > 0 && is_space(s[0]) {
        trim_start(s.skip(1))
    } else {
        s
    }
}

/// `s` up to its last character that is not white space.
pub open spec fn trim_end(s: Seq<char>) -> Seq<char>
    decreases s.len(),
{
    if s.len() > 0 && is_space(s.last()) {
        trim_end(s.drop_last())
    } else {
        s
    }
}

/// `s` without white space at either end.
pub open spec fn trim(s: Seq<char>) -> Seq<char> {
    trim_end(trim_start(s))
}

/// The length of the longest prefix of `s` without white space.
pub open spec fn word_len(s: Seq<char>) -> nat
    decreases s.len(),
{
    if s.len() > 0 && !is_space(s[0]) {
        1 + word_len(s.skip(1))
    } else {
        0
    }
}

/// The maximal runs of `s` without white space, in order.
pub open spec fn words(s: Seq<char>) -> Seq<Seq<char>>
    decreases s.len(),
{
    if s.len() == 0 {
        Seq::empty()
    } else if is_space(s[0]) {
        words(s.skip(1))
    } else {
        let n = word_len(s);
        if 0 < n <= s.len() {
            seq![s.take(n as int)] + words(s.skip(n as int))
        } else {
            Seq::empty()
        }
    }
}

/// `parts` one after the other, with `sep` between neighbours.
pub open spec fn join(parts: Seq<Seq<char>>, sep: Seq<char>) -> Seq<char>
    decreases parts.len(),
{
    if parts.len() == 0 {
        Seq::empty()
    } else if parts.len() == 1 {
        parts[0]
    } else {
        join(parts.drop_last(), sep) + sep + parts.last()
    }
}

/// `s` with its words separated by single spaces.
pub open spec fn collapse(s: Seq<char>) -> Seq<char> {
    join(words(s), seq![' '])
}

/// `pat` stands in `s` at `i`.
pub open spec fn occurs_at(s: Seq<char>, pat: Seq<char>, i: int) -> bool {
    &&& 0 <= i
    &&& i + pat.len() <= s.len()
    &&& s.subrange(i, i + pat.len()) == pat
}

/// `pat` stands somewhere in `s`.
pub open spec fn contains(s: Seq<char>, pat: Seq<char>) -> bool {
    exists|i: int| occurs_at(s, pat, i)
}

/// The least place in `s`, at `from` or after it, where `pat` stands.
pub open spec fn find(s: Seq<char>, pat: Seq<char>, from: int) -> Option<int>
    decreases s.len() - from + 1,
{
    if from < 0 || from + pat.len() > s.len() {
        None
    } else if occurs_at(s, pat, from) {
        Some(from)
    } else {
        find(s, pat, from + 1)
    }
}

/// `s` begins with `pat`.
pub open spec fn starts_with(s: Seq<char>, pat: Seq<char>) -> bool {
    occurs_at(s, pat, 0)
}

/// `s` ends with `pat`.
pub open spec fn ends_with(s: Seq<char>, pat: Seq<char>) -> bool {
    occurs_at(s, pat, s.len() - pat.len())
}

/// `s` with each occurrence of `pat`, read from the left without overlap,
/// turned into `rep`.
pub open spec fn replace(s: Seq<char>, pat: Seq<char>, rep: Seq<char>) -> Seq<char>
    decreases s.len(),
{
    if s.len() == 0 || pat.len() == 0 {
        s
    } else if starts_with(s, pat) {
        rep + replace(s.skip(pat.len() as int), pat, rep)
    } else {
        seq![s[0]] + replace(s.skip(1), pat, rep)
    }
}

/// `s` up to its first `c`, or all of `s` where `c` does not occur.
pub open spec fn before_char(s: Seq<char>, c: char) -> Seq<char>
    decreases s.len(),
{
    if s.len() == 0 || s[0] == c {
        Seq::empty()
    } else {
        seq![s[0]] + before_char(s.skip(1), c)
    }
}

/// The decimal digit with value `d`.
pub open spec fn digit_char(d: int) -> char {
    (d + 48) as char
}

/// `n` written in decimal.
pub open spec fn decimal(n: nat) -> Seq<char>
    decreases n,
{
    if n < 10 {
        seq![digit_char(n as int)]
    } else {
        decimal(n / 10).push(digit_char((n % 10) as int))
    }
}

/// `n` written in decimal, with a sign where it is negative.
pub open spec fn decimal_int(n: int) -> Seq<char> {
    if n < 0 {
        seq!['-'] + decimal((-n) as nat)
    } else {
        decimal(n as nat)
    }
}

pub open spec fn is_digit(c: char) -> bool {
    '0' <= c <= '9'
}

/// The number that the digits of `s` write, where all of `s` is digits.
pub open spec fn digits_value(s: Seq<char>) -> nat
    decreases s.len(),
{
    if s.len() == 0 {
        0
    } else {
        digits_value(s.drop_last()) * 10 + (s.last() as u32 - 48) as nat
    }
}

/// `s` is one or more decimal digits.
pub open spec fn all_digits(s: Seq<char>) -> bool {
    s.len() > 0 && forall|i: int| 0 <= i < s.len() ==> is_digit(#[trigger] s[i])
}

/// The unsigned number that `s` writes, if any: digits, with at most one `+`
/// before them.
pub open spec fn parsed_number(s: Seq<char>) -> Option<nat> {
    let body = if s.len() > 0 && s[0] == '+' {
        s.skip(1)
    } else {
        s
    };
    if all_digits(body) {
        Some(digits_value(body))
    } else {
        None
    }
}

/// The views of the strings in `list`.
pub open spec fn views(list: Seq<String>) -> Seq<Seq<char>> {
    Seq::new(list.len(), |i: int| list[i]@)
}

/// The view of an optional string.
pub open spec fn view_of(value: Option<String>) -> Option<Seq<char>> {
    match value {
        Some(text) => Some(text@),
        None => None,
    }
}

/// The characters of `s`.
pub fn chars_of(s: &str) -> (r: Vec<char>)
    ensures
        r@ == s@,
{
    let mut out: Vec<char> = Vec::new();
    for c in iter: s.chars()
        invariant
            iter.seq() == s@,
            out@ == s@.take(iter.index()),
    {
        out.push(c);
    }
    out
}

/// The string with the characters `chars[from..to]`.
pub fn string_of(chars: &Vec<char>, from: usize, to: usize) -> (r: String)
    requires
        from <= to <= chars@.len(),
    ensures
        r@ == chars@.subrange(from as int, to as int),
{
    let mut out = String::new();
    let mut i: usize = from;
    while i < to
        invariant
            from <= i <= to <= chars@.len(),
            out@ == chars@.subrange(from as int, i as int),
        decreases to - i,
    {
        out.push(chars[i]);
        i += 1;
    }
    out
}

/// Whether two texts are the same.
pub fn same(a: &str, b: &str) -> (r: bool)
    ensures
        r == (a@ == b@),
{
    let x = a.as_bytes();
    let y = b.as_bytes();
    if x.len() != y.len() {
        return false;
    }
    let mut i: usize = 0;
    while i < x.len()
        invariant
            i <= x@.len() == y@.len(),
            x@ == encode_utf8(a@),
            y@ == encode_utf8(b@),
            forall|j: int| 0 <= j < i ==> x@[j] == y@[j],
        decreases x@.len() - i,
    {
        if x[i] != y[i] {
            return false;
        }
        i += 1;
    }
    assert(x@ == y@);
    proof {
        vstd::utf8::encode_utf8_decode_utf8(a@);
        vstd::utf8::encode_utf8_decode_utf8(b@);
    }
    true
}

/// Where the trimmed text begins and ends in `chars`.
fn trim_bounds(chars: &Vec<char>) -> (r: (usize, usize))
    ensures
        r.0 <= r.1 <= chars@.len(),
        chars@.subrange(r.0 as int, r.1 as int) == trim(chars@),
{
    let mut from: usize = 0;
    assert(chars@.skip(0) == chars@);
    while from < chars.len() && space(chars[from])
        invariant
            from <= chars@.len(),
            trim_start(chars@) == trim_start(chars@.skip(from as int)),
        decreases chars@.len() - from,
    {
        assert(chars@.skip(from as int).skip(1) == chars@.skip(from + 1));
        from += 1;
    }
    let mut to: usize = chars.len();
    assert(chars@.subrange(from as int, to as int) == chars@.skip(from as int));
    assert(trim_start(chars@) == chars@.skip(from as int));
    while from < to && space(chars[to - 1])
        invariant
            from <= to <= chars@.len(),
            trim(chars@) == trim_end(chars@.subrange(from as int, to as int)),
        decreases to,
    {
        assert(chars@.subrange(from as int, to as int).drop_last() == chars@.subrange(
            from as int,
            to - 1,
        ));
        to -= 1;
    }
    (from, to)
}

/// `s` without white space at either end.
pub fn trimmed(s: &str) -> (r: String)
    ensures
        r@ == trim(s@),
{
    let chars = chars_of(s);
    let (from, to) = trim_bounds(&chars);
    string_of(&chars, from, to)
}

/// `s` without white space at its start.
pub fn trimmed_start(s: &str) -> (r: String)
    ensures
        r@ == trim_start(s@),
{
    let chars = chars_of(s);
    let mut from: usize = 0;
    assert(chars@.skip(0) == chars@);
    while from < chars.len() && space(chars[from])
        invariant
            from <= chars@.len(),
            trim_start(chars@) == trim_start(chars@.skip(from as int)),
        decreases chars@.len() - from,
    {
        assert(chars@.skip(from as int).skip(1) == chars@.skip(from + 1));
        from += 1;
    }
    assert(chars@.subrange(from as int, chars@.len() as int) == chars@.skip(from as int));
    string_of(&chars, from, chars.len())
}

/// `s` with every ASCII capital letter made small.
pub fn lowered(s: &str) -> (r: String)
    ensures
        r@ == lower(s@),
{
    let mut out = String::new();
    for c in iter: s.chars()
        invariant
            iter.seq() == s@,
            out@ == lower(s@).take(iter.index()),
    {
        let small = lower_one(c);
        out.push(small);
    }
    assert(lower(s@).take(s@.len() as int) == lower(s@));
    out
}

/// `c` with an ASCII capital letter made small.
pub fn lower_one(c: char) -> (r: char)
    ensures
        r == lower_char(c),
{
    if 'A' <= c && c <= 'Z' {
        ((c as u8) + 32) as char
    } else {
        c
    }
}

/// Whether two texts are the same but for the case of ASCII letters.
pub fn same_ignoring_case(a: &str, b: &str) -> (r: bool)
    ensures
        r == (lower(a@) == lower(b@)),
{
    lowered(a) == lowered(b)
}

pub proof fn lemma_word_len(s: Seq<char>)
    ensures
        word_len(s) <= s.len(),
        forall|i: int| 0 <= i < word_len(s) ==> !is_space(#[trigger] s[i]),
        word_len(s) < s.len() ==> is_space(s[word_len(s) as int]),
    decreases s.len(),
{
    if s.len() > 0 && !is_space(s[0]) {
        lemma_word_len(s.skip(1));
        assert forall|i: int| 0 <= i < word_len(s) implies !is_space(#[trigger] s[i]) by {
            if i > 0 {
                assert(s.skip(1)[i - 1] == s[i]);
            }
        }
    }
}

/// A run without white space that ends at white space, or where the text
/// ends, is the first word.
pub proof fn lemma_word_len_is(s: Seq<char>, n: int)
    requires
        0 <= n <= s.len(),
        forall|i: int| 0 <= i < n ==> !is_space(#[trigger] s[i]),
        n == s.len() || is_space(s[n]),
    ensures
        word_len(s) == n,
    decreases s.len(),
{
    lemma_word_len(s);
    if word_len(s) < n {
        assert(!is_space(s[word_len(s) as int]));
    } else if word_len(s) > n {
        assert(!is_space(s[n]));
    }
}

/// The words of `s`, in order.
pub fn split_words(s: &str) -> (r: Vec<String>)
    ensures
        views(r@) == words(s@),
{
    let chars = chars_of(s);
    let mut out: Vec<String> = Vec::new();
    let mut at: usize = 0;
    assert(chars@.skip(0) == s@);
    assert(views(out@) + words(s@) == words(s@));
    while at < chars.len()
        invariant
            at <= chars@.len(),
            chars@ == s@,
            words(s@) == views(out@) + words(s@.skip(at as int)),
        decreases chars@.len() - at,
    {
        let ghost rest = s@.skip(at as int);
        if space(chars[at]) {
            assert(rest[0] == chars@[at as int]);
            assert(rest.skip(1) == s@.skip(at + 1));
            at += 1;
        } else {
            let mut to: usize = at;
            while to < chars.len() && !space(chars[to])
                invariant
                    at <= to <= chars@.len(),
                    chars@ == s@,
                    forall|i: int| at <= i < to ==> !is_space(#[trigger] s@[i]),
                decreases chars@.len() - to,
            {
                to += 1;
            }
            assert(to > at) by {
                assert(!is_space(chars@[at as int]));
                assert(to == at ==> is_space(s@[to as int]));
            }
            proof {
                assert forall|i: int| 0 <= i < to - at implies !is_space(#[trigger] rest[i]) by {
                    assert(rest[i] == s@[at + i]);
                }
                if to < chars@.len() {
                    assert(rest[to - at] == s@[to as int]);
                }
                lemma_word_len_is(rest, to - at);
                assert(rest[0] == s@[at as int]);
                assert(rest.take(to - at) == s@.subrange(at as int, to as int));
                assert(rest.skip(to - at) == s@.skip(to as int));
            }
            let ghost before = views(out@);
            let word = string_of(&chars, at, to);
            out.push(word);
            proof {
                assert(views(out@) == before.push(word@));
                assert(before + (seq![word@] + words(s@.skip(to as int))) == before.push(word@)
                    + words(s@.skip(to as int)));
            }
            at = to;
        }
    }
    assert(s@.skip(at as int).len() == 0);
    assert(views(out@) + words(s@.skip(at as int)) == views(out@));
    out
}

/// `parts` one after the other, with `sep` between neighbours.
pub fn joined(parts: &Vec<String>, sep: &str) -> (r: String)
    ensures
        r@ == join(views(parts@), sep@),
{
    let mut out = String::new();
    let mut i: usize = 0;
    while i < parts.len()
        invariant
            i <= parts@.len(),
            out@ == join(views(parts@).take(i as int), sep@),
        decreases parts@.len() - i,
    {
        let ghost next = views(parts@).take(i + 1);
        assert(next.drop_last() == views(parts@).take(i as int));
        assert(next.last() == parts@[i as int]@);
        if i > 0 {
            out.append(sep);
        } else {
            assert(out@ + parts@[0]@ == parts@[0]@);
        }
        out.append(parts[i].as_str());
        i += 1;
    }
    assert(views(parts@).take(i as int) == views(parts@));
    out
}

/// `s` with its words separated by single spaces.
pub fn collapsed(s: &str) -> (r: String)
    ensures
        r@ == collapse(s@),
{
    let parts = split_words(s);
    proof {
        reveal_strlit(" ");
        assert(" "@ == seq![' ']);
    }
    joined(&parts, " ")
}

/// Whether `pat` stands in `chars` at `at`.
pub fn stands_at(chars: &Vec<char>, pat: &Vec<char>, at: usize) -> (r: bool)
    requires
        at <= chars@.len(),
    ensures
        r == occurs_at(chars@, pat@, at as int),
{
    if pat.len() > chars.len() - at {
        return false;
    }
    let mut i: usize = 0;
    while i < pat.len()
        invariant
            i <= pat@.len(),
            at + pat@.len() <= chars.len(),
            forall|j: int| 0 <= j < i ==> chars@[at + j] == #[trigger] pat@[j],
        decreases pat@.len() - i,
    {
        if chars[at + i] != pat[i] {
            assert(chars@.subrange(at as int, at + pat@.len())[i as int] == chars@[at + i]);
            return false;
        }
        i += 1;
    }
    assert(chars@.subrange(at as int, at + pat@.len()) == pat@);
    true
}

/// The least place in `chars`, at `from` or after it, where `pat` stands.
pub fn find_from(chars: &Vec<char>, pat: &Vec<char>, from: usize) -> (r: Option<usize>)
    requires
        from <= chars@.len(),
    ensures
        match r {
            Some(at) => find(chars@, pat@, from as int) == Some(at as int),
            None => find(chars@, pat@, from as int) is None,
        },
{
    let mut at: usize = from;
    while pat.len() <= chars.len() - at
        invariant
            from <= at <= chars@.len(),
            find(chars@, pat@, from as int) == find(chars@, pat@, at as int),
        decreases chars@.len() - at,
    {
        if stands_at(chars, pat, at) {
            return Some(at);
        }
        assert(at < chars@.len()) by {
            if at == chars@.len() {
                assert(chars@.subrange(at as int, at as int) == pat@);
            }
        }
        at += 1;
    }
    None
}

/// What `find` gives back is the first occurrence.
pub proof fn lemma_find(s: Seq<char>, pat: Seq<char>, from: int)
    requires
        0 <= from,
    ensures
        match find(s, pat, from) {
            Some(at) => from <= at && occurs_at(s, pat, at) && forall|i: int|
                from <= i < at ==> !occurs_at(s, pat, i),
            None => forall|i: int| from <= i ==> !occurs_at(s, pat, i),
        },
    decreases s.len() - from + 1,
{
    if from + pat.len() <= s.len() && !occurs_at(s, pat, from) {
        lemma_find(s, pat, from + 1);
    }
}

/// Whether `pat` stands somewhere in `s`.
pub fn has(s: &str, pat: &str) -> (r: bool)
    ensures
        r == contains(s@, pat@),
{
    let chars = chars_of(s);
    let wanted = chars_of(pat);
    let found = find_from(&chars, &wanted, 0);
    proof {
        lemma_find(s@, pat@, 0);
    }
    found.is_some()
}

/// Whether `s` begins with `pat`.
pub fn begins(s: &str, pat: &str) -> (r: bool)
    ensures
        r == starts_with(s@, pat@),
{
    let chars = chars_of(s);
    let wanted = chars_of(pat);
    stands_at(&chars, &wanted, 0)
}

/// Whether `s` ends with `pat`.
pub fn ends(s: &str, pat: &str) -> (r: bool)
    ensures
        r == ends_with(s@, pat@),
{
    let chars = chars_of(s);
    let wanted = chars_of(pat);
    if wanted.len() > chars.len() {
        return false;
    }
    stands_at(&chars, &wanted, chars.len() - wanted.len())
}

/// `s` with each occurrence of `pat`, read from the left without overlap,
/// turned into `rep`.
pub fn replaced(s: &str, pat: &str, rep: &str) -> (r: String)
    ensures
        r@ == replace(s@, pat@, rep@),
{
    let chars = chars_of(s);
    let wanted = chars_of(pat);
    if wanted.len() == 0 {
        return s.to_owned();
    }
    let mut out = String::new();
    let mut at: usize = 0;
    assert(s@.skip(0) == s@);
    assert(out@ + replace(s@, pat@, rep@) == replace(s@, pat@, rep@));
    while at < chars.len()
        invariant
            at <= chars@.len(),
            chars@ == s@,
            wanted@ == pat@,
            pat@.len() > 0,
            replace(s@, pat@, rep@) == out@ + replace(s@.skip(at as int), pat@, rep@),
        decreases chars@.len() - at,
    {
        let ghost rest = s@.skip(at as int);
        let ghost sofar = out@;
        if stands_at(&chars, &wanted, at) {
            assert(rest.subrange(0, pat@.len() as int) == s@.subrange(
                at as int,
                at + pat@.len(),
            ));
            assert(rest.skip(pat@.len() as int) == s@.skip(at + pat@.len()));
            out.append(rep);
            at += wanted.len();
            assert(sofar + (rep@ + replace(s@.skip(at as int), pat@, rep@)) == out@ + replace(
                s@.skip(at as int),
                pat@,
                rep@,
            ));
        } else {
            proof {
                if starts_with(rest, pat@) {
                    assert(rest.subrange(0, pat@.len() as int) == s@.subrange(
                        at as int,
                        at + pat@.len(),
                    ));
                }
            }
            assert(rest.skip(1) == s@.skip(at + 1));
            out.push(chars[at]);
            at += 1;
            assert(sofar + (seq![rest[0]] + replace(s@.skip(at as int), pat@, rep@)) == out@
                + replace(s@.skip(at as int), pat@, rep@));
        }
    }
    assert(s@.skip(at as int).len() == 0);
    assert(out@ + replace(s@.skip(at as int), pat@, rep@) == out@);
    out
}

/// `s` up to its first `c`, or all of `s` where `c` does not occur.
pub fn before(s: &str, c: char) -> (r: String)
    ensures
        r@ == before_char(s@, c),
{
    let chars = chars_of(s);
    let mut out = String::new();
    let mut at: usize = 0;
    assert(s@.skip(0) == s@);
    assert(out@ + before_char(s@, c) == before_char(s@, c));
    while at < chars.len() && chars[at] != c
        invariant
            at <= chars@.len(),
            chars@ == s@,
            before_char(s@, c) == out@ + before_char(s@.skip(at as int), c),
        decreases chars@.len() - at,
    {
        let ghost rest = s@.skip(at as int);
        let ghost sofar = out@;
        assert(rest.skip(1) == s@.skip(at + 1));
        out.push(chars[at]);
        at += 1;
        assert(sofar + (seq![rest[0]] + before_char(s@.skip(at as int), c)) == out@
            + before_char(s@.skip(at as int), c));
    }
    assert(out@ + before_char(s@.skip(at as int), c) == out@);
    out
}

/// `n` written in decimal.
pub fn decimal_text(n: u64) -> (r: String)
    ensures
        r@ == decimal(n as nat),
    decreases n,
{
    let mut out = if n < 10 {
        String::new()
    } else {
        decimal_text(n / 10)
    };
    let digit = (48 + (n % 10) as u8) as char;
    out.push(digit);
    assert(n < 10 ==> out@ == decimal(n as nat));
    out
}

/// `n` written in decimal, with a sign where it is negative.
pub fn signed_text(n: i64) -> (r: String)
    ensures
        r@ == decimal_int(n as int),
{
    if n >= 0 {
        decimal_text(n as u64)
    } else {
        let size: u64 = if n == i64::MIN {
            9223372036854775808u64
        } else {
            (-n) as u64
        };
        let mut out = String::new();
        out.push('-');
        let body = decimal_text(size);
        out.append(body.as_str());
        out
    }
}

/// What is written in decimal is read back.
pub proof fn law_decimal_is_read_back(n: nat)
    ensures
        all_digits(decimal(n)),
        digits_value(decimal(n)) == n,
        parsed_number(decimal(n)) == Some(n),
    decreases n,
{
    let written = decimal(n);
    if n < 10 {
        assert(written.drop_last().len() == 0);
        assert(digits_value(written.drop_last()) == 0);
        assert(written.last() == digit_char(n as int));
        assert(written.last() as u32 == n + 48);
    } else {
        law_decimal_is_read_back(n / 10);
        assert(written.drop_last() == decimal(n / 10));
        assert(written.last() == digit_char((n % 10) as int));
        assert(written.last() as u32 == n % 10 + 48);
        assert forall|i: int| 0 <= i < written.len() implies is_digit(#[trigger] written[i]) by {
            if i < written.len() - 1 {
                assert(written[i] == decimal(n / 10)[i]);
            }
        }
    }
    assert(is_digit(written[0]));
}

proof fn lemma_digits_grow(s: Seq<char>, n: int)
    requires
        0 <= n <= s.len(),
    ensures
        digits_value(s.take(n)) <= digits_value(s),
    decreases s.len(),
{
    if n < s.len() {
        lemma_digits_grow(s.drop_last(), n);
        assert(s.drop_last().take(n) == s.take(n));
    } else {
        assert(s.take(n) == s);
    }
}

/// The number that `s` writes, where it is one and fits in 64 bits.
pub fn parse_number(s: &str) -> (r: Option<u64>)
    ensures
        r == match parsed_number(s@) {
            Some(n) => if n <= u64::MAX {
                Some(n as u64)
            } else {
                None
            },
            None => None,
        },
{
    let chars = chars_of(s);
    let start: usize = if chars.len() > 0 && chars[0] == '+' {
        1
    } else {
        0
    };
    let ghost body = s@.skip(start as int);
    assert(s@.skip(0) == s@);
    if start == chars.len() {
        return None;
    }
    let mut total: u64 = 0;
    let mut at: usize = start;
    while at < chars.len()
        invariant
            start <= at <= chars@.len(),
            chars@ == s@,
            body == s@.skip(start as int),
            start == (if s@.len() > 0 && s@[0] == '+' {
                1int
            } else {
                0int
            }),
            s@.skip(0) == s@,
            total == digits_value(body.take(at - start)),
            forall|i: int| 0 <= i < at - start ==> is_digit(#[trigger] body[i]),
        decreases chars@.len() - at,
    {
        let c = chars[at];
        assert(body[at - start] == c);
        if c < '0' || c > '9' {
            return None;
        }
        let digit: u64 = (c as u8 - 48) as u64;
        proof {
            let next = body.take(at - start + 1);
            assert(next.drop_last() == body.take(at - start));
            assert(next.last() == c);
            assert(digits_value(next) == total * 10 + digit);
            lemma_digits_grow(body, at - start + 1);
        }
        if total > (u64::MAX - digit) / 10 {
            assert(total * 10 + digit > u64::MAX);
            return None;
        }
        total = total * 10 + digit;
        at += 1;
    }
    assert(body.take(at - start) == body);
    Some(total)
}

/// The number that `s` writes, where it is one and fits in 32 bits.
pub fn parse_small_number(s: &str) -> (r: Option<u32>)
    ensures
        r == match parsed_number(s@) {
            Some(n) => if n <= u32::MAX {
                Some(n as u32)
            } else {
                None
            },
            None => None,
        },
{
    match parse_number(s) {
        Some(n) => if n <= 0xffff_ffff {
            Some(n as u32)
        } else {
            None
        },
        None => None,
    }
}

/// Something without white space in it.
pub open spec fn is_word(s: Seq<char>) -> bool {
    s.len() > 0 && forall|i: int| 0 <= i < s.len() ==> !is_space(#[trigger] s[i])
}

/// The words of a text hold no white space.
pub proof fn law_words_are_words(s: Seq<char>)
    ensures
        forall|i: int| 0 <= i < words(s).len() ==> is_word(#[trigger] words(s)[i]),
    decreases s.len(),
{
    if s.len() > 0 {
        if is_space(s[0]) {
            law_words_are_words(s.skip(1));
            assert(words(s) == words(s.skip(1)));
        } else {
            lemma_word_len(s);
            let n = word_len(s) as int;
            law_words_are_words(s.skip(n));
            let first = s.take(n);
            let rest = words(s.skip(n));
            assert(is_word(first)) by {
                assert forall|i: int| 0 <= i < first.len() implies !is_space(#[trigger] first[i]) by {
                    assert(first[i] == s[i]);
                }
            }
            assert forall|i: int| 0 <= i < words(s).len() implies is_word(#[trigger] words(s)[i]) by {
                if i > 0 {
                    assert(words(s)[i] == rest[i - 1]);
                }
            }
        }
    }
}

/// A text and a word behind a space have the words of the text and that word.
proof fn lemma_words_push(a: Seq<char>, w: Seq<char>)
    requires
        is_word(w),
    ensures
        words(a + seq![' '] + w) == words(a).push(w),
    decreases a.len(),
{
    let s = a + seq![' '] + w;
    if a.len() == 0 {
        assert(is_space(' '));
        assert(s[0] == ' ');
        assert(s.skip(1) == w);
        lemma_word_len_is(w, w.len() as int);
        assert(w.take(w.len() as int) == w);
        assert(w.skip(w.len() as int).len() == 0);
        assert(words(w) == seq![w] + words(w.skip(w.len() as int)));
        assert(seq![w] + Seq::<Seq<char>>::empty() == seq![w]);
        assert(words(a).push(w) == seq![w]);
    } else if is_space(a[0]) {
        assert(s.skip(1) == a.skip(1) + seq![' '] + w);
        lemma_words_push(a.skip(1), w);
    } else {
        lemma_word_len(a);
        let n = word_len(a) as int;
        assert forall|i: int| 0 <= i < n implies !is_space(#[trigger] s[i]) by {
            assert(s[i] == a[i]);
        }
        assert(is_space(s[n])) by {
            if n < a.len() {
                assert(s[n] == a[n]);
            } else {
                assert(s[n] == ' ');
            }
        }
        lemma_word_len_is(s, n);
        assert(s.take(n) == a.take(n));
        assert(s.skip(n) == a.skip(n) + seq![' '] + w);
        lemma_words_push(a.skip(n), w);
        assert(seq![a.take(n)] + words(a.skip(n)).push(w) == (seq![a.take(n)] + words(
            a.skip(n),
        )).push(w));
    }
}

/// Words put in a line are the words of the line.
pub proof fn law_words_of_line(parts: Seq<Seq<char>>)
    requires
        forall|i: int| 0 <= i < parts.len() ==> is_word(#[trigger] parts[i]),
    ensures
        words(join(parts, seq![' '])) == parts,
    decreases parts.len(),
{
    if parts.len() == 1 {
        let w = parts[0];
        lemma_word_len_is(w, w.len() as int);
        assert(w.take(w.len() as int) == w);
        assert(w.skip(w.len() as int).len() == 0);
        assert(words(w) == seq![w] + words(w.skip(w.len() as int)));
        assert(words(w) == parts);
    } else if parts.len() > 1 {
        let before = parts.drop_last();
        assert forall|i: int| 0 <= i < before.len() implies is_word(#[trigger] before[i]) by {
            assert(before[i] == parts[i]);
        }
        law_words_of_line(before);
        assert(is_word(parts[parts.len() - 1]));
        lemma_words_push(join(before, seq![' ']), parts.last());
        assert(before.push(parts.last()) == parts);
    }
}

/// A text whose words are separated by single spaces stays as it is.
pub proof fn law_collapse_settles(s: Seq<char>)
    ensures
        collapse(collapse(s)) == collapse(s),
{
    law_words_are_words(s);
    law_words_of_line(words(s));
}

} // verus!
