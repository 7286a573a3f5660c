//! Text inside markup: tags stripped, entities decoded, attributes read.

use crate::text::{
    before_char, chars_of, collapse, collapsed, find, find_from, lemma_find, lower, lowered,
    replace, replaced, space, string_of, trim_start, view_of, word_len,
};
use vstd::prelude::*;

verus! {

/// `s` without its tags, each tag's end turned into a space. `in_tag` says
/// whether `s` begins inside a tag.
pub open spec fn without_tags(s: Seq<char>, in_tag: bool) -> Seq<char>
    decreases s.len(),
{
    if s.len() == 0 {
        Seq::empty()
    } else if s[0] == '<' {
        without_tags(s.skip(1), true)
    } else if s[0] == '>' {
        seq![' '] + without_tags(s.skip(1), false)
    } else if in_tag {
        without_tags(s.skip(1), true)
    } else {
        seq![s[0]] + without_tags(s.skip(1), false)
    }
}

/// `s` with the named entities of plain text decoded, one kind after the other.
pub open spec fn decoded(s: Seq<char>) -> Seq<char> {
    replace(
        replace(
            replace(replace(replace(s, "&amp;"@, "&"@), "&lt;"@, "<"@), "&gt;"@, ">"@),
            "&quot;"@,
            "\""@,
        ),
        "&#39;"@,
        "'"@,
    )
}

/// The words that a reader sees of `s`.
pub open spec fn plain(s: Seq<char>) -> Seq<char> {
    collapse(decoded(without_tags(s, false)))
}

/// `value` without its tags.
pub fn untagged(value: &str) -> (r: String)
    ensures
        r@ == without_tags(value@, false),
{
    let chars = chars_of(value);
    let mut out = String::new();
    let mut in_tag = false;
    let mut i: usize = 0;
    assert(value@.skip(0) == value@);
    assert(out@ + without_tags(value@, false) == without_tags(value@, false));
    while i < chars.len()
        invariant
            i <= chars@.len(),
            chars@ == value@,
            without_tags(value@, false) == out@ + without_tags(value@.skip(i as int), in_tag),
        decreases chars@.len() - i,
    {
        let ghost rest = value@.skip(i as int);
        let ghost sofar = out@;
        assert(rest.skip(1) == value@.skip(i + 1));
        let c = chars[i];
        if c == '<' {
            in_tag = true;
        } else if c == '>' {
            in_tag = false;
            out.push(' ');
            assert(sofar + (seq![' '] + without_tags(rest.skip(1), false)) == out@ + without_tags(
                rest.skip(1),
                false,
            ));
        } else if !in_tag {
            out.push(c);
            assert(sofar + (seq![c] + without_tags(rest.skip(1), false)) == out@ + without_tags(
                rest.skip(1),
                false,
            ));
        }
        i += 1;
    }
    assert(out@ + without_tags(value@.skip(i as int), in_tag) == out@);
    out
}

/// The words that a reader sees of `value`, separated by single spaces.
pub fn plain_text(value: &str) -> (r: String)
    ensures
        r@ == plain(value@),
{
    let text = untagged(value);
    let text = replaced(text.as_str(), "&amp;", "&");
    let text = replaced(text.as_str(), "&lt;", "<");
    let text = replaced(text.as_str(), "&gt;", ">");
    let text = replaced(text.as_str(), "&quot;", "\"");
    let text = replaced(text.as_str(), "&#39;", "'");
    collapsed(text.as_str())
}

/// `input` without its tags, its words separated by single spaces. Entities
/// stay as they are.
pub fn strip_html(input: &str) -> (r: String)
    ensures
        r@ == collapse(without_tags(input@, false)),
{
    let text = untagged(input);
    collapsed(text.as_str())
}

/// The value that stands at the start of `tail`: what is between quotes, else
/// the first word.
pub open spec fn attribute_value(tail: Seq<char>) -> Option<Seq<char>> {
    if tail.len() == 0 {
        None
    } else if tail[0] == '\'' || tail[0] == '"' {
        Some(before_char(tail.skip(1), tail[0]))
    } else {
        Some(tail.take(word_len(tail) as int))
    }
}

/// The value of the attribute `key` in the text of a tag, read after the first
/// `key=` without regard to the case of ASCII letters.
pub open spec fn tag_attribute(tag: Seq<char>, key: Seq<char>) -> Option<Seq<char>> {
    match find(lower(tag), key + "="@, 0) {
        Some(at) => attribute_value(trim_start(tag.skip(at + key.len() + 1))),
        None => None,
    }
}

/// The value of the attribute `key` in the text of a tag.
pub fn html_attr(tag: &str, key: &str) -> (r: Option<String>)
    ensures
        view_of(r) == tag_attribute(tag@, key@),
{
    let small = lowered(tag);
    let chars = chars_of(small.as_str());
    let mut wanted = key.to_owned();
    wanted.append("=");
    let pattern = chars_of(wanted.as_str());
    proof {
        reveal_strlit("=");
        lemma_find(lower(tag@), key@ + "="@, 0);
    }
    let at = match find_from(&chars, &pattern, 0) {
        Some(at) => at,
        None => {
            return None;
        },
    };
    let original = chars_of(tag);
    let count: usize = original.len();
    let mut from: usize = at + pattern.len();
    let ghost start = from;
    while from < original.len() && space(original[from])
        invariant
            start <= from <= original@.len(),
            original@ == tag@,
            trim_start(tag@.skip(start as int)) == trim_start(tag@.skip(from as int)),
        decreases original@.len() - from,
    {
        assert(tag@.skip(from as int).skip(1) == tag@.skip(from + 1));
        from += 1;
    }
    let ghost tail = tag@.skip(from as int);
    assert(trim_start(tag@.skip(start as int)) == tail);
    if from == original.len() {
        return None;
    }
    let quote = original[from];
    if quote == '\'' || quote == '"' {
        let rest = string_of(&original, from + 1, original.len());
        assert(rest@ == tail.skip(1));
        Some(crate::text::before(rest.as_str(), quote))
    } else {
        let word = first_word(&original, from);
        Some(word)
    }
}

/// The word that begins at `from`.
fn first_word(chars: &Vec<char>, from: usize) -> (r: String)
    requires
        from <= chars@.len(),
    ensures
        r@ == chars@.skip(from as int).take(word_len(chars@.skip(from as int)) as int),
{
    let ghost rest = chars@.skip(from as int);
    let mut to: usize = from;
    while to < chars.len() && !space(chars[to])
        invariant
            from <= to <= chars@.len(),
            rest == chars@.skip(from as int),
            word_len(rest) == (to - from) + word_len(chars@.skip(to as int)),
        decreases chars@.len() - to,
    {
        assert(chars@.skip(to as int).skip(1) == chars@.skip(to + 1));
        to += 1;
    }
    assert(word_len(chars@.skip(to as int)) == 0);
    assert(rest.take(to - from) == chars@.subrange(from as int, to as int));
    string_of(chars, from, to)
}

} // verus!
