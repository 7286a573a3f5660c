//! What is looked for where a reader searches.

use crate::articles::{query_term, query_terms, search_for};
use crate::laws::paging::lemma_item_tells;
use crate::library::LibraryView;
use crate::search_index::index_of;
use crate::text::{join, replace, starts_with, words};
use vstd::prelude::*;

verus! {

/// What stands between quotes: a quote in it is written twice. Nothing where one
/// is not.
pub open spec fn quoted_text(s: Seq<char>) -> Option<Seq<char>>
    decreases s.len(),
{
    if s.len() == 0 {
        Some(Seq::empty())
    } else if s[0] != '"' {
        match quoted_text(s.skip(1)) {
            Some(rest) => Some(seq![s[0]] + rest),
            None => None,
        }
    } else if s.len() > 1 && s[1] == '"' {
        match quoted_text(s.skip(2)) {
            Some(rest) => Some(seq!['"'] + rest),
            None => None,
        }
    } else {
        None
    }
}

proof fn lemma_doubled(word: Seq<char>)
    ensures
        quoted_text(replace(word, "\""@, "\"\""@)) == Some(word),
    decreases word.len(),
{
    reveal_strlit("\"");
    reveal_strlit("\"\"");
    let one = "\""@;
    let two = "\"\""@;
    assert(one =~= seq!['"']);
    assert(two =~= seq!['"', '"']);
    let made = replace(word, one, two);
    if word.len() > 0 {
        let rest = replace(word.skip(1), one, two);
        lemma_doubled(word.skip(1));
        assert(seq![word[0]] + word.skip(1) =~= word);
        if word[0] == '"' {
            assert(word.subrange(0, 1) =~= one);
            assert(starts_with(word, one));
            assert(made == two + rest);
            assert(made[0] == '"' && made[1] == '"');
            assert(made.skip(2) =~= rest);
        } else {
            if starts_with(word, one) {
                assert(word.subrange(0, 1)[0] == word[0]);
            }
            assert(made == seq![word[0]] + rest);
            assert(made[0] == word[0]);
            assert(made.skip(1) =~= rest);
        }
    } else {
        assert(made =~= word);
    }
}

/// Each word of a query is looked for as it is, as the start of a word: it stands
/// between quotes, so that nothing in it is taken for an operator. All words are
/// to be found, twenty at most, and a query without words looks for nothing.
pub proof fn law_every_word_is_looked_for(query: Seq<char>, i: int)
    ensures
        words(query).len() == 0 <==> search_for(query) is None,
        words(query).len() > 0 ==> exists|terms: Seq<Seq<char>>|
            {
                &&& search_for(query) == Some(#[trigger] join(terms, " AND "@))
                &&& words(query).len() <= 20 ==> terms.len() == words(query).len()
                &&& words(query).len() > 20 ==> terms.len() == 20
                &&& 0 <= i < terms.len() ==> exists|inner: Seq<char>|
                    terms[i] == "\""@ + inner + "\"*"@ && #[trigger] quoted_text(inner) == Some(
                        words(query)[i],
                    )
            },
{
    let list = words(query);
    if list.len() > 0 {
        let terms = query_terms(list);
        if 0 <= i < terms.len() {
            let inner = replace(list[i], "\""@, "\"\""@);
            lemma_doubled(list[i]);
            assert(terms[i] == query_term(list[i]));
            assert(quoted_text(inner) == Some(list[i]));
        }
        assert(search_for(query) == Some(join(terms, " AND "@)));
    }
}

/// An article is found by its title, its summary, its text and the name of its
/// feed, as the library holds them.
pub proof fn law_index_holds_what_the_library_holds(library: LibraryView, i: int)
    requires
        library.wf(),
        0 <= i < library.articles.len(),
    ensures
        ({
            let row = library.articles[i];
            let entry = index_of(library)[i];
            &&& index_of(library).len() == library.articles.len()
            &&& entry.article_id == row.stable_id
            &&& entry.title == row.title
            &&& entry.summary == row.summary
            &&& entry.content == row.content
            &&& forall|f: int|
                0 <= f < library.feeds.len() && (#[trigger] library.feeds[f]).feed.stable_id
                    == row.feed_stable_id ==> entry.feed_name == library.feeds[f].feed.display_name
        }),
{
    lemma_item_tells(library, library.articles[i]);
}

} // verus!
