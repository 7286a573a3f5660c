//! What a reader does to an article, and how long an article stays.

use vstd::prelude::*;

verus! {

/// Thirty days, in seconds.
pub const RETENTION_SECONDS: i64 = 2_592_000;

/// What a reader did to an article.
#[derive(Debug, Clone, Copy, PartialEq, Eq, Structural)]
pub struct ArticleState {
    pub is_read: bool,
    pub is_starred: bool,
}

impl Default for ArticleState {
    /// An article that is neither read nor starred.
    fn default() -> (r: Self)
        ensures
            r == (ArticleState { is_read: false, is_starred: false }),
    {
        ArticleState { is_read: false, is_starred: false }
    }
}

impl ArticleState {
    /// Marks the article read; its star stays.
    pub fn mark_read(&mut self)
        ensures
            *final(self) == (ArticleState { is_read: true, is_starred: old(self).is_starred }),
    {
        self.is_read = true;
    }

    /// Marks the article unread; its star stays.
    pub fn mark_unread(&mut self)
        ensures
            *final(self) == (ArticleState { is_read: false, is_starred: old(self).is_starred }),
    {
        self.is_read = false;
    }

    /// Stars the article; whether it is read stays.
    pub fn star(&mut self)
        ensures
            *final(self) == (ArticleState { is_read: old(self).is_read, is_starred: true }),
    {
        self.is_starred = true;
    }

    /// Takes the star away; whether it is read stays.
    pub fn unstar(&mut self)
        ensures
            *final(self) == (ArticleState { is_read: old(self).is_read, is_starred: false }),
    {
        self.is_starred = false;
    }
}

/// Marks every article read; the stars stay.
pub fn mark_all_as_read(states: &mut [ArticleState])
    ensures
        final(states)@ == old(states)@.map_values(
            |s: ArticleState| ArticleState { is_read: true, is_starred: s.is_starred },
        ),
{
    let ghost before = states@;
    let mut i: usize = 0;
    while i < states.len()
        invariant
            i <= states@.len(),
            states@.len() == before.len(),
            forall|j: int|
                0 <= j < i ==> #[trigger] states@[j] == (ArticleState {
                    is_read: true,
                    is_starred: before[j].is_starred,
                }),
            forall|j: int| i <= j < before.len() ==> #[trigger] states@[j] == before[j],
        decreases states@.len() - i,
    {
        let starred = states[i].is_starred;
        states[i] = ArticleState { is_read: true, is_starred: starred };
        i += 1;
    }
}

/// `a - b`, held within the range of a 64-bit number.
pub open spec fn held_difference(a: i64, b: i64) -> int {
    if a - b < i64::MIN {
        i64::MIN as int
    } else if a - b > i64::MAX {
        i64::MAX as int
    } else {
        a - b
    }
}

/// `a - b`, held within the range of the type.
pub fn held_sub(a: i64, b: i64) -> (r: i64)
    ensures
        r == held_difference(a, b),
{
    match a.checked_sub(b) {
        Some(value) => value,
        None => if b > 0 {
            i64::MIN
        } else {
            i64::MAX
        },
    }
}

/// Whether an article has outlived its time: it is not starred, and its date,
/// or the time it came in where it has none, lies before the retention period.
pub open spec fn outlived(
    is_starred: bool,
    published_at: Option<i64>,
    inserted_at: i64,
    now: i64,
) -> bool {
    &&& !is_starred
    &&& (match published_at {
        Some(date) => date,
        None => inserted_at,
    }) < held_difference(now, RETENTION_SECONDS)
}

/// Whether an article is to be dropped.
pub fn should_expire(
    is_starred: bool,
    published_at: Option<i64>,
    inserted_at: i64,
    now: i64,
) -> (r: bool)
    ensures
        r == outlived(is_starred, published_at, inserted_at, now),
{
    let date = match published_at {
        Some(date) => date,
        None => inserted_at,
    };
    !is_starred && date < held_sub(now, RETENTION_SECONDS)
}

/// A starred article never expires.
pub proof fn law_starred_articles_stay(published_at: Option<i64>, inserted_at: i64, now: i64)
    ensures
        !outlived(true, published_at, inserted_at, now),
{
}

/// Time does not bring an expired article back.
pub proof fn law_expiry_is_final(
    is_starred: bool,
    published_at: Option<i64>,
    inserted_at: i64,
    now: i64,
    later: i64,
)
    requires
        outlived(is_starred, published_at, inserted_at, now),
        now <= later,
    ensures
        outlived(is_starred, published_at, inserted_at, later),
{
}

} // verus!
