//! What is left of a text that is trimmed, put in a line or freed of its markup.

use crate::markup::{decoded, without_tags};
use crate::text::{
    collapse, is_space, is_word, join, law_words_are_words, law_words_of_line, lemma_word_len,
    lemma_word_len_is, lower, replace, starts_with, trim, trim_end, trim_start, word_len, words,
};
use vstd::prelude::*;

verus! {

/// A text of nothing but white space, or no text at all.
pub open spec fn is_blank(s: Seq<char>) -> bool {
    forall|i: int| 0 <= i < s.len() ==> is_space(#[trigger] s[i])
}

/// White space at neither end.
pub open spec fn is_bare(s: Seq<char>) -> bool {
    s.len() > 0 ==> !is_space(s[0]) && !is_space(s.last())
}

/// A trimmed text has no white space at either end, and nothing but white
/// space was taken away.
pub proof fn law_trimmed_is_bare(s: Seq<char>)
    ensures
        is_bare(trim(s)),
        exists|a: Seq<char>, b: Seq<char>|
            #[trigger] is_blank(a) && #[trigger] is_blank(b) && s == a + trim(s) + b,
        trim(s).len() == 0 <==> is_blank(s),
{
    let a = lemma_start(s);
    let middle = trim_start(s);
    let b = lemma_end(middle);
    assert(a + trim(s) + b =~= a + (trim(s) + b));
    assert(s == a + trim(s) + b);
    if trim(s).len() > 0 {
        assert(trim(s)[0] == middle[0]);
        assert(s[a.len() as int] == middle[0]);
        assert(!is_space(s[a.len() as int]));
    } else {
        assert forall|i: int| 0 <= i < s.len() implies is_space(#[trigger] s[i]) by {
            if i < a.len() {
                assert(s[i] == a[i]);
            } else {
                assert(s[i] == b[i - a.len()]);
            }
        }
    }
}

/// A text without white space at its ends stays as it is; so trimming twice is
/// trimming once.
pub proof fn law_bare_text_stays(s: Seq<char>)
    ensures
        is_bare(s) ==> trim(s) == s,
        trim(trim(s)) == trim(s),
{
    law_trimmed_is_bare(s);
    let t = trim(s);
    assert(trim_start(t) == t);
    assert(trim_end(t) == t);
}

proof fn lemma_start(s: Seq<char>) -> (a: Seq<char>)
    ensures
        is_blank(a),
        s == a + trim_start(s),
        trim_start(s).len() > 0 ==> !is_space(trim_start(s)[0]),
    decreases s.len(),
{
    if s.len() > 0 && is_space(s[0]) {
        let rest = lemma_start(s.skip(1));
        let a = seq![s[0]] + rest;
        assert(s =~= seq![s[0]] + s.skip(1));
        assert(a + trim_start(s) =~= seq![s[0]] + (rest + trim_start(s)));
        a
    } else {
        assert(s =~= Seq::<char>::empty() + s);
        Seq::empty()
    }
}

proof fn lemma_end(s: Seq<char>) -> (b: Seq<char>)
    ensures
        is_blank(b),
        s == trim_end(s) + b,
        trim_end(s).len() > 0 ==> !is_space(trim_end(s).last()),
    decreases s.len(),
{
    if s.len() > 0 && is_space(s.last()) {
        let rest = lemma_end(s.drop_last());
        let b = rest.push(s.last());
        assert(s =~= s.drop_last().push(s.last()));
        assert(trim_end(s) + b =~= (trim_end(s) + rest).push(s.last()));
        b
    } else {
        assert(s =~= s + Seq::<char>::empty());
        Seq::empty()
    }
}

/// White space parts words: a text of two parts with white space between them
/// has the words of the first and then those of the second.
pub proof fn law_white_space_parts_words(a: Seq<char>, c: char, b: Seq<char>)
    requires
        is_space(c),
    ensures
        words(a + seq![c] + b) == words(a) + words(b),
    decreases a.len(),
{
    let s = a + seq![c] + b;
    if a.len() == 0 {
        assert(s[0] == c);
        assert(s.skip(1) =~= b);
        assert(words(a) + words(b) =~= words(b));
    } else if is_space(a[0]) {
        assert(s.skip(1) =~= a.skip(1) + seq![c] + b);
        law_white_space_parts_words(a.skip(1), c, b);
    } else {
        lemma_word_len(a);
        let n = word_len(a) as int;
        assert forall|i: int| 0 <= i < n implies !is_space(#[trigger] s[i]) by {
            assert(s[i] == a[i]);
        }
        assert(is_space(s[n])) by {
            if n < a.len() {
                assert(s[n] == a[n]);
            } else {
                assert(s[n] == c);
            }
        }
        lemma_word_len_is(s, n);
        assert(s.take(n) =~= a.take(n));
        assert(s.skip(n) =~= a.skip(n) + seq![c] + b);
        law_white_space_parts_words(a.skip(n), c, b);
        assert(seq![a.take(n)] + (words(a.skip(n)) + words(b)) =~= (seq![a.take(n)] + words(
            a.skip(n),
        )) + words(b));
    }
}

/// Nothing else parts words: a text without white space is one word, and the
/// empty text is none.
pub proof fn law_word_stays_whole(w: Seq<char>)
    ensures
        is_word(w) ==> words(w) == seq![w],
        w.len() == 0 ==> words(w).len() == 0,
{
    if is_word(w) {
        lemma_word_len_is(w, w.len() as int);
        assert(w.take(w.len() as int) =~= w);
        assert(w.skip(w.len() as int).len() == 0);
        assert(!is_space(w[0]));
        assert(words(w) == seq![w] + words(w.skip(w.len() as int)));
        assert(words(w) =~= seq![w]);
    }
}

/// White space stands single and inside: between two characters that are none,
/// and it is a blank.
pub open spec fn is_spaced_singly(s: Seq<char>) -> bool {
    forall|i: int|
        0 <= i < s.len() && is_space(#[trigger] s[i]) ==> s[i] == ' ' && 0 < i < s.len() - 1
            && !is_space(s[i - 1]) && !is_space(s[i + 1])
}

/// A text in one line has the words of the text, with one blank between two of
/// them and none at its ends.
pub proof fn law_line_keeps_the_words(s: Seq<char>)
    ensures
        words(collapse(s)) == words(s),
        is_spaced_singly(collapse(s)),
{
    law_words_are_words(s);
    law_words_of_line(words(s));
    lemma_spaced(words(s));
}

proof fn lemma_spaced(parts: Seq<Seq<char>>)
    requires
        forall|i: int| 0 <= i < parts.len() ==> is_word(#[trigger] parts[i]),
    ensures
        is_spaced_singly(join(parts, seq![' '])),
        parts.len() > 0 ==> join(parts, seq![' ']).len() > 0 && !is_space(
            join(parts, seq![' ']).last(),
        ),
    decreases parts.len(),
{
    if parts.len() == 1 {
        let w = parts[0];
        assert(is_word(parts[0]));
        assert(!is_space(w[w.len() - 1]));
    } else if parts.len() > 1 {
        let before = parts.drop_last();
        assert forall|i: int| 0 <= i < before.len() implies is_word(#[trigger] before[i]) by {
            assert(before[i] == parts[i]);
        }
        lemma_spaced(before);
        let a = join(before, seq![' ']);
        let w = parts[parts.len() - 1];
        assert(is_word(w));
        let s = a + seq![' '] + w;
        assert(join(parts, seq![' ']) == s);
        let n = a.len() as int;
        assert(!is_space(a[n - 1]));
        assert(!is_space(w[0]));
        assert(s.last() == w[w.len() - 1]);
        assert forall|i: int| 0 <= i < s.len() && is_space(#[trigger] s[i]) implies s[i] == ' '
            && 0 < i < s.len() - 1 && !is_space(s[i - 1]) && !is_space(s[i + 1]) by {
            if i < n {
                assert(s[i] == a[i]);
                assert(i < n - 1);
                assert(s[i + 1] == a[i + 1]);
                assert(s[i - 1] == a[i - 1]);
            } else if i == n {
                assert(s[i - 1] == a[n - 1]);
                assert(s[i + 1] == w[0]);
            } else {
                assert(s[i] == w[i - n - 1]);
            }
        }
    }
}

/// No mark that begins or ends a tag.
pub open spec fn has_no_tag(s: Seq<char>) -> bool {
    forall|i: int| 0 <= i < s.len() ==> #[trigger] s[i] != '<' && s[i] != '>'
}

/// A text without tags is left as it is; a tag gives way to a blank, whatever it
/// holds, and what stands before and behind it stays.
pub proof fn law_tags_give_way_to_blanks(a: Seq<char>, tag: Seq<char>, b: Seq<char>)
    requires
        has_no_tag(a),
        has_no_tag(tag),
    ensures
        without_tags(a, false) == a,
        without_tags(a + seq!['<'] + tag + seq!['>'] + b, false) == a + seq![' '] + without_tags(
            b,
            false,
        ),
    decreases a.len(),
{
    let s = a + seq!['<'] + tag + seq!['>'] + b;
    if a.len() == 0 {
        let inner = tag + seq!['>'] + b;
        assert(s[0] == '<');
        assert(s.skip(1) =~= inner);
        lemma_inside_tag(tag, b);
        assert(without_tags(a, false) =~= a);
        assert(a + seq![' '] + without_tags(b, false) =~= seq![' '] + without_tags(b, false));
    } else {
        let rest = a.skip(1);
        assert forall|i: int| 0 <= i < rest.len() implies #[trigger] rest[i] != '<' && rest[i]
            != '>' by {
            assert(rest[i] == a[i + 1]);
        }
        assert(a[0] != '<' && a[0] != '>');
        law_tags_give_way_to_blanks(rest, tag, b);
        assert(s[0] == a[0]);
        assert(s.skip(1) =~= rest + seq!['<'] + tag + seq!['>'] + b);
        assert(seq![a[0]] + rest =~= a);
        assert(seq![a[0]] + (rest + seq![' '] + without_tags(b, false)) =~= a + seq![' ']
            + without_tags(b, false));
    }
}

proof fn lemma_inside_tag(tag: Seq<char>, b: Seq<char>)
    requires
        has_no_tag(tag),
    ensures
        without_tags(tag + seq!['>'] + b, true) == seq![' '] + without_tags(b, false),
    decreases tag.len(),
{
    let s = tag + seq!['>'] + b;
    if tag.len() == 0 {
        assert(s[0] == '>');
        assert(s.skip(1) =~= b);
    } else {
        let rest = tag.skip(1);
        assert forall|i: int| 0 <= i < rest.len() implies #[trigger] rest[i] != '<' && rest[i]
            != '>' by {
            assert(rest[i] == tag[i + 1]);
        }
        assert(tag[0] != '<' && tag[0] != '>');
        assert(s[0] == tag[0]);
        lemma_inside_tag(rest, b);
        assert(s.skip(1) =~= rest + seq!['>'] + b);
    }
}

/// No ampersand.
pub open spec fn has_no_entity(s: Seq<char>) -> bool {
    forall|i: int| 0 <= i < s.len() ==> #[trigger] s[i] != '&'
}

proof fn lemma_not_replaced(s: Seq<char>, pat: Seq<char>, rep: Seq<char>)
    requires
        pat.len() >= 2,
        forall|i: int|
            0 <= i < s.len() && #[trigger] s[i] == pat[0] ==> i + 1 >= s.len() || s[i + 1]
                != pat[1],
    ensures
        replace(s, pat, rep) == s,
    decreases s.len(),
{
    if s.len() > 0 {
        if starts_with(s, pat) {
            assert(s.take(pat.len() as int)[0] == s[0]);
            assert(s.take(pat.len() as int)[1] == s[1]);
        }
        let rest = s.skip(1);
        assert forall|i: int| 0 <= i < rest.len() && #[trigger] rest[i] == pat[0] implies i + 1
            >= rest.len() || rest[i + 1] != pat[1] by {
            assert(s[i + 1] == rest[i]);
            if i + 1 < rest.len() {
                assert(s[i + 1 + 1] == rest[i + 1]);
            }
        }
        lemma_not_replaced(rest, pat, rep);
        assert(seq![s[0]] + rest =~= s);
    }
}

proof fn lemma_replaced_once(a: Seq<char>, pat: Seq<char>, b: Seq<char>, rep: Seq<char>)
    requires
        pat.len() >= 2,
        pat[0] == '&',
        has_no_entity(a),
        has_no_entity(b),
    ensures
        replace(a + pat + b, pat, rep) == a + rep + b,
    decreases a.len(),
{
    let s = a + pat + b;
    if a.len() == 0 {
        assert(s.take(pat.len() as int) =~= pat);
        assert(s.skip(pat.len() as int) =~= b);
        lemma_not_replaced(b, pat, rep);
        assert(starts_with(s, pat));
        assert(a + rep + b =~= rep + b);
    } else {
        let rest = a.skip(1);
        assert forall|i: int| 0 <= i < rest.len() implies #[trigger] rest[i] != '&' by {
            assert(rest[i] == a[i + 1]);
        }
        lemma_replaced_once(rest, pat, b, rep);
        assert(s[0] == a[0]);
        assert(a[0] != '&');
        if starts_with(s, pat) {
            assert(s.take(pat.len() as int)[0] == s[0]);
        }
        assert(s.skip(1) =~= rest + pat + b);
        assert(seq![a[0]] + (rest + rep + b) =~= a + rep + b);
    }
}

/// Each of the named entities stands for its character: what stands before and
/// behind one stays, and a text without entities is left as it is.
pub proof fn law_entities_are_decoded(a: Seq<char>, b: Seq<char>)
    requires
        has_no_entity(a),
        has_no_entity(b),
    ensures
        decoded(a) == a,
        decoded(a + "&lt;"@ + b) == a + "<"@ + b,
        decoded(a + "&gt;"@ + b) == a + ">"@ + b,
        decoded(a + "&quot;"@ + b) == a + "\""@ + b,
        decoded(a + "&#39;"@ + b) == a + "'"@ + b,
{
    reveal_strlit("&amp;");
    reveal_strlit("&lt;");
    reveal_strlit("&gt;");
    reveal_strlit("&quot;");
    reveal_strlit("&#39;");
    reveal_strlit("&");
    reveal_strlit("<");
    reveal_strlit(">");
    reveal_strlit("\"");
    reveal_strlit("'");
    lemma_all_left(a);
    lemma_one_entity(a, "&lt;"@, "<"@, b);
    lemma_one_entity(a, "&gt;"@, ">"@, b);
    lemma_one_entity(a, "&quot;"@, "\""@, b);
    lemma_one_entity(a, "&#39;"@, "'"@, b);
}

proof fn lemma_all_left(s: Seq<char>)
    requires
        has_no_entity(s),
    ensures
        replace(s, "&amp;"@, "&"@) == s,
        replace(s, "&lt;"@, "<"@) == s,
        replace(s, "&gt;"@, ">"@) == s,
        replace(s, "&quot;"@, "\""@) == s,
        replace(s, "&#39;"@, "'"@) == s,
        decoded(s) == s,
{
    reveal_strlit("&amp;");
    reveal_strlit("&lt;");
    reveal_strlit("&gt;");
    reveal_strlit("&quot;");
    reveal_strlit("&#39;");
    lemma_not_replaced(s, "&amp;"@, "&"@);
    lemma_not_replaced(s, "&lt;"@, "<"@);
    lemma_not_replaced(s, "&gt;"@, ">"@);
    lemma_not_replaced(s, "&quot;"@, "\""@);
    lemma_not_replaced(s, "&#39;"@, "'"@);
}

proof fn lemma_other_left(
    a: Seq<char>,
    entity: Seq<char>,
    b: Seq<char>,
    pat: Seq<char>,
    rep: Seq<char>,
)
    requires
        has_no_entity(a),
        has_no_entity(b),
        entity.len() >= 2,
        pat.len() >= 2,
        pat[0] == '&',
        entity[1] != pat[1],
        forall|i: int| 1 <= i < entity.len() ==> #[trigger] entity[i] != '&',
    ensures
        replace(a + entity + b, pat, rep) == a + entity + b,
{
    let s = a + entity + b;
    assert forall|i: int| 0 <= i < s.len() && #[trigger] s[i] == pat[0] implies i + 1 >= s.len()
        || s[i + 1] != pat[1] by {
        if i < a.len() {
            assert(s[i] == a[i]);
        } else if i >= a.len() + entity.len() {
            assert(s[i] == b[i - a.len() - entity.len()]);
        } else {
            assert(s[i] == entity[i - a.len()]);
            assert(i == a.len());
            assert(s[i + 1] == entity[1]);
        }
    }
    lemma_not_replaced(s, pat, rep);
}

proof fn lemma_one_entity(a: Seq<char>, entity: Seq<char>, rep: Seq<char>, b: Seq<char>)
    requires
        has_no_entity(a),
        has_no_entity(b),
        (entity == "&lt;"@ && rep == "<"@) || (entity == "&gt;"@ && rep == ">"@) || (entity
            == "&quot;"@ && rep == "\""@) || (entity == "&#39;"@ && rep == "'"@),
        has_no_entity(rep),
    ensures
        decoded(a + entity + b) == a + rep + b,
{
    reveal_strlit("&amp;");
    reveal_strlit("&lt;");
    reveal_strlit("&gt;");
    reveal_strlit("&quot;");
    reveal_strlit("&#39;");
    let made = a + rep + b;
    assert forall|i: int| 0 <= i < made.len() implies #[trigger] made[i] != '&' by {
        if i < a.len() {
            assert(made[i] == a[i]);
        } else if i < a.len() + rep.len() {
            assert(made[i] == rep[i - a.len()]);
        } else {
            assert(made[i] == b[i - a.len() - rep.len()]);
        }
    }
    lemma_all_left(made);
    lemma_replaced_once(a, entity, b, rep);
    lemma_other_left(a, entity, b, "&amp;"@, "&"@);
    if entity[1] != 'l' {
        lemma_other_left(a, entity, b, "&lt;"@, "<"@);
    }
    if entity[1] != 'g' {
        lemma_other_left(a, entity, b, "&gt;"@, ">"@);
    }
    if entity[1] != 'q' {
        lemma_other_left(a, entity, b, "&quot;"@, "\""@);
    }
}

/// Only capital letters of ASCII have another form in small letters: that of the
/// same letter. So there are none left, and writing a text small twice is
/// writing it small once.
pub proof fn law_small_letters_stay(s: Seq<char>)
    ensures
        lower(s).len() == s.len(),
        lower(lower(s)) == lower(s),
        forall|i: int|
            0 <= i < s.len() ==> {
                let c = #[trigger] lower(s)[i];
                &&& !('A' <= c <= 'Z')
                &&& !('A' <= s[i] <= 'Z') ==> c == s[i]
                &&& 'A' <= s[i] <= 'Z' ==> 'a' <= c <= 'z' && c as u32 - 'a' as u32 == s[i] as u32
                    - 'A' as u32
            },
{
    assert(lower(lower(s)) =~= lower(s));
}

} // verus!
