//! JSON texts, taken apart one level at a time.

use crate::text::{same, view_of};
use vstd::prelude::*;
use vstd::string::StrSliceExecFns;

verus! {

/// What `serde_json::from_str` says against a text that is to hold a value of
/// any kind; nothing where it holds one.
pub uninterp spec fn json_fault(text: Seq<char>) -> Option<Seq<char>>;

/// The text of the first value that `serde_json`'s stream of values reads in a
/// text, and what follows it.
pub uninterp spec fn json_first(text: Seq<char>) -> Option<(Seq<char>, Seq<char>)>;

/// The elements of the array that `serde_json::from_str` reads in a text, each
/// as a text.
pub uninterp spec fn json_elements(text: Seq<char>) -> Option<Seq<Seq<char>>>;

/// The string, or the absence of one for `null`, that `serde_json::from_str`
/// reads in a text.
pub uninterp spec fn json_string(text: Seq<char>) -> Option<Option<Seq<char>>>;

/// The whole number that `serde_json::from_str` reads in a text.
pub uninterp spec fn json_integer(text: Seq<char>) -> Option<i64>;

/// What a list of members holds.
pub open spec fn member_views(list: Seq<(String, String)>) -> Seq<(Seq<char>, Seq<char>)> {
    Seq::new(list.len(), |i: int| (list[i].0@, list[i].1@))
}

/// `serde_json::from_str` into a value of any kind that is let go: what it says
/// where the text holds none. The result depends on the text alone.
#[verifier::external_body]
pub(crate) fn read_fault(text: &str) -> (r: Option<String>)
    ensures
        view_of(r) == json_fault(text@),
{
    serde_json::from_str::<serde::de::IgnoredAny>(text).err().map(|error| error.to_string())
}

/// `serde_json::Deserializer::into_iter` over raw values: the text of the first
/// value in `text`, and what follows it. The result depends on the text alone,
/// and what follows is shorter than the text.
#[verifier::external_body]
fn read_first(text: &str) -> (r: Option<(String, String)>)
    ensures
        match r {
            Some((value, rest)) => json_first(text@) == Some((value@, rest@)) && rest@.len()
                < text@.len(),
            None => json_first(text@) is None,
        },
{
    let mut values =
        serde_json::Deserializer::from_str(text).into_iter::<&serde_json::value::RawValue>();
    let value = values.next()?.ok()?.get().to_owned();
    Some((value, text.get(values.byte_offset()..)?.to_owned()))
}

/// `serde_json::from_str` into a list of values: the elements of the array that
/// the text holds, each written as a text again. The result depends on the
/// text alone.
#[verifier::external_body]
pub(crate) fn read_elements(text: &str) -> (r: Option<Vec<String>>)
    ensures
        match r {
            Some(list) => json_elements(text@) == Some(crate::text::views(list@)),
            None => json_elements(text@) is None,
        },
{
    let list: Vec<serde_json::Value> = serde_json::from_str(text).ok()?;
    Some(list.iter().map(|value| value.to_string()).collect())
}

/// `serde_json::from_str` into an optional string: the string that the text
/// holds, nothing inside for `null`, nothing at all for anything else. The
/// result depends on the text alone.
#[verifier::external_body]
fn read_string(text: &str) -> (r: Option<Option<String>>)
    ensures
        match r {
            Some(value) => json_string(text@) == Some(view_of(value)),
            None => json_string(text@) is None,
        },
{
    serde_json::from_str::<Option<String>>(text).ok()
}

/// `serde_json::from_str` into a whole number. The result depends on the text
/// alone.
#[verifier::external_body]
fn read_integer(text: &str) -> (r: Option<i64>)
    ensures
        r == json_integer(text@),
{
    serde_json::from_str::<i64>(text).ok()
}

/// White space between the parts of a JSON text.
pub open spec fn is_blank(c: char) -> bool {
    c == ' ' || c == '\t' || c == '\n' || c == '\r'
}

/// The first place at or after `i` that holds no white space.
pub open spec fn first_solid(text: Seq<char>, i: int) -> int
    decreases text.len() - i,
{
    if 0 <= i < text.len() && is_blank(text[i]) {
        first_solid(text, i + 1)
    } else {
        i
    }
}

/// What follows `mark` where a text begins with it, but for white space.
pub open spec fn behind(text: Seq<char>, mark: char) -> Option<Seq<char>> {
    let at = first_solid(text, 0);
    if 0 <= at < text.len() && text[at] == mark {
        Some(text.skip(at + 1))
    } else {
        None
    }
}

fn after_mark<'a>(text: &'a str, mark: char) -> (r: Option<&'a str>)
    ensures
        crate::identity::borrowed(r) == behind(text@, mark),
        r is Some ==> r->0@.len() < text@.len(),
{
    let count: usize = text.unicode_len();
    let mut i: usize = 0;
    while i < count
        invariant_except_break
            i <= count == text@.len(),
            first_solid(text@, 0) == first_solid(text@, i as int),
        ensures
            i <= count == text@.len(),
            first_solid(text@, 0) == i,
        decreases count - i,
    {
        let c = text.get_char(i);
        if c != ' ' && c != '\t' && c != '\n' && c != '\r' {
            break;
        }
        i += 1;
    }
    if i < count && text.get_char(i) == mark {
        let rest = text.substring_char(i + 1, count);
        assert(rest@ == text@.skip(i + 1));
        Some(rest)
    } else {
        None
    }
}

/// The members of an object, from a place behind its brace or a comma on: each
/// name with the text of its value, in order.
pub open spec fn members_from(text: Seq<char>) -> Option<Seq<(Seq<char>, Seq<char>)>>
    decreases text.len(),
{
    match json_first(text) {
        None => None,
        Some((name, rest)) => match (json_string(name), behind(rest, ':')) {
            (Some(Some(key)), Some(inner)) => match json_first(inner) {
                None => None,
                Some((value, after)) => match (behind(after, '}'), behind(after, ',')) {
                    (Some(_), _) => Some(seq![(key, value)]),
                    (None, Some(next)) => if next.len() < text.len() {
                        match members_from(next) {
                            Some(more) => Some(seq![(key, value)] + more),
                            None => None,
                        }
                    } else {
                        None
                    },
                    _ => None,
                },
            },
            _ => None,
        },
    }
}

/// The members of the object that a text holds, in order.
pub open spec fn object_members(text: Seq<char>) -> Option<Seq<(Seq<char>, Seq<char>)>> {
    if json_fault(text) is Some {
        None
    } else {
        match behind(text, '{') {
            None => None,
            Some(inner) => if behind(inner, '}') is Some {
                Some(Seq::empty())
            } else {
                members_from(inner)
            },
        }
    }
}

/// The members of an object, from a place behind its brace on.
fn read_members_from(inner: String) -> (r: Option<Vec<(String, String)>>)
    ensures
        match r {
            Some(list) => members_from(inner@) == Some(member_views(list@)),
            None => members_from(inner@) is None,
        },
{
    let ghost whole = members_from(inner@);
    let mut list: Vec<(String, String)> = Vec::new();
    let mut text = inner;
    assert(member_views(list@) == Seq::<(Seq<char>, Seq<char>)>::empty());
    assert(member_views(list@) + members_from(text@)->0 == members_from(text@)->0);
    loop
        invariant_except_break
            match members_from(text@) {
                Some(more) => whole == Some(member_views(list@) + more),
                None => whole is None,
            },
        invariant
            whole == members_from(inner@),
        ensures
            whole == Some(member_views(list@)),
        decreases text@.len(),
    {
        let (name, rest) = match read_first(text.as_str()) {
            Some(found) => found,
            None => {
                return None;
            },
        };
        let key = match read_string(name.as_str()) {
            Some(Some(key)) => key,
            _ => {
                return None;
            },
        };
        let inside = match after_mark(rest.as_str(), ':') {
            Some(inside) => inside,
            None => {
                return None;
            },
        };
        let (value, after) = match read_first(inside) {
            Some(found) => found,
            None => {
                return None;
            },
        };
        let ghost before = member_views(list@);
        let ghost added = (key@, value@);
        list.push((key, value));
        assert(member_views(list@) == before.push(added));
        if after_mark(after.as_str(), '}').is_some() {
            assert(before + seq![added] == before.push(added));
            break;
        }
        text = match after_mark(after.as_str(), ',') {
            Some(next) => next.to_owned(),
            None => {
                return None;
            },
        };
        proof {
            match members_from(text@) {
                Some(more) => {
                    assert(before + (seq![added] + more) == before.push(added) + more);
                },
                None => {},
            }
        }
    }
    Some(list)
}

fn read_members(text: &str) -> (r: Option<Vec<(String, String)>>)
    ensures
        match r {
            Some(list) => object_members(text@) == Some(member_views(list@)),
            None => object_members(text@) is None,
        },
{
    if read_fault(text).is_some() {
        return None;
    }
    let inner = match after_mark(text, '{') {
        Some(rest) => rest,
        None => {
            return None;
        },
    };
    if after_mark(inner, '}').is_some() {
        let none: Vec<(String, String)> = Vec::new();
        assert(member_views(none@) == Seq::<(Seq<char>, Seq<char>)>::empty());
        return Some(none);
    }
    read_members_from(inner.to_owned())
}

/// The text of the value of the member `key`, from `i` on.
pub open spec fn member_from(
    members: Seq<(Seq<char>, Seq<char>)>,
    i: int,
    key: Seq<char>,
) -> Option<Seq<char>>
    decreases members.len() - i,
{
    if i < 0 || i >= members.len() {
        None
    } else if members[i].0 == key {
        Some(members[i].1)
    } else {
        member_from(members, i + 1, key)
    }
}

/// A member with this name stands twice.
pub open spec fn stands_twice(members: Seq<(Seq<char>, Seq<char>)>, key: Seq<char>) -> bool {
    exists|i: int, j: int|
        0 <= i < j < members.len() && (#[trigger] members[i]).0 == key && (
        #[trigger] members[j]).0 == key
}

/// None of the fields of a record stands twice.
pub open spec fn once_each(members: Seq<(Seq<char>, Seq<char>)>, names: Seq<Seq<char>>) -> bool {
    forall|k: int| 0 <= k < names.len() ==> !stands_twice(members, #[trigger] names[k])
}

/// What the names of a list are.
pub open spec fn name_views(names: Seq<&str>) -> Seq<Seq<char>> {
    Seq::new(names.len(), |i: int| names[i]@)
}

fn is_twice(members: &Vec<(String, String)>, key: &str) -> (r: bool)
    ensures
        r == stands_twice(member_views(members@), key@),
{
    let ghost all = member_views(members@);
    let mut seen: bool = false;
    let ghost mut at: int = 0;
    let mut i: usize = 0;
    while i < members.len()
        invariant
            i <= members@.len(),
            all == member_views(members@),
            seen ==> 0 <= at < i && all[at].0 == key@,
            forall|j: int| 0 <= j < i && (seen ==> j != at) ==> (#[trigger] all[j]).0 != key@,
        decreases members@.len() - i,
    {
        assert(all[i as int] == (members@[i as int].0@, members@[i as int].1@));
        if same(members[i].0.as_str(), key) {
            if seen {
                assert(all[at].0 == key@ && all[i as int].0 == key@);
                return true;
            }
            seen = true;
            proof {
                at = i as int;
            }
        }
        i += 1;
    }
    assert forall|i: int, j: int| 0 <= i < j < all.len() implies !((#[trigger] all[i]).0 == key@ && (
    #[trigger] all[j]).0 == key@) by {
        if all[i].0 == key@ {
            assert(i == at);
        }
    }
    false
}

fn stand_once(members: &Vec<(String, String)>, names: &Vec<&str>) -> (r: bool)
    ensures
        r == once_each(member_views(members@), name_views(names@)),
{
    let ghost all = name_views(names@);
    let mut k: usize = 0;
    while k < names.len()
        invariant
            k <= names@.len(),
            all == name_views(names@),
            forall|j: int|
                0 <= j < k ==> !stands_twice(member_views(members@), #[trigger] all[j]),
        decreases names@.len() - k,
    {
        assert(all[k as int] == names@[k as int]@);
        if is_twice(members, names[k]) {
            return false;
        }
        k += 1;
    }
    true
}

/// An object or an array that stands for a record: by names, or by the order
/// of its fields.
pub enum Record {
    Named(Vec<(String, String)>),
    Listed(Vec<String>),
}

/// What a [`Record`] holds.
pub enum RecordView {
    Named(Seq<(Seq<char>, Seq<char>)>),
    Listed(Seq<Seq<char>>),
}

impl View for Record {
    type V = RecordView;

    open spec fn view(&self) -> RecordView {
        match self {
            Record::Named(members) => RecordView::Named(member_views(members@)),
            Record::Listed(elements) => RecordView::Listed(crate::text::views(elements@)),
        }
    }
}

/// The record that a text holds: an object in which none of the fields stands
/// twice, or an array with an element for each field.
pub open spec fn record(text: Seq<char>, names: Seq<Seq<char>>) -> Option<RecordView> {
    match object_members(text) {
        Some(members) => if once_each(members, names) {
            Some(RecordView::Named(members))
        } else {
            None
        },
        None => match json_elements(text) {
            Some(elements) => if elements.len() == names.len() {
                Some(RecordView::Listed(elements))
            } else {
                None
            },
            None => None,
        },
    }
}

/// What an optional record holds.
pub open spec fn record_view(value: Option<Record>) -> Option<RecordView> {
    match value {
        Some(fields) => Some(fields@),
        None => None,
    }
}

/// The record with the fields `names` that `text` holds.
pub fn read_record(text: &str, names: &Vec<&str>) -> (r: Option<Record>)
    ensures
        record_view(r) == record(text@, name_views(names@)),
{
    match read_members(text) {
        Some(members) => {
            if stand_once(&members, names) {
                Some(Record::Named(members))
            } else {
                None
            }
        },
        None => match read_elements(text) {
            Some(elements) => {
                assert(crate::text::views(elements@).len() == elements@.len());
                if elements.len() == names.len() {
                    Some(Record::Listed(elements))
                } else {
                    None
                }
            },
            None => None,
        },
    }
}

/// The object with the fields `names` that `text` holds, as a record by names.
pub fn read_object(text: &str, names: &Vec<&str>) -> (r: Option<Record>)
    ensures
        record_view(r) == match object_members(text@) {
            Some(members) => if once_each(members, name_views(names@)) {
                Some(RecordView::Named(members))
            } else {
                None
            },
            None => None,
        },
{
    match read_members(text) {
        Some(members) => {
            if stand_once(&members, names) {
                Some(Record::Named(members))
            } else {
                None
            }
        },
        None => None,
    }
}

/// The elements of the array that a text holds, read as they are one level
/// inside another value.
pub open spec fn inner_elements(text: Seq<char>) -> Option<Seq<Seq<char>>> {
    match json_elements("["@ + text + "]"@) {
        Some(only) => if only.len() == 1 {
            json_elements(only[0])
        } else {
            None
        },
        None => None,
    }
}

/// The elements of the array that `text` holds, read as they are one level
/// inside another value: values are read up to a depth.
pub fn read_inner_elements(text: &str) -> (r: Option<Vec<String>>)
    ensures
        list_view(r) == inner_elements(text@),
{
    let mut outer = "[".to_owned();
    outer.append(text);
    outer.append("]");
    match read_elements(outer.as_str()) {
        Some(only) => {
            assert(crate::text::views(only@).len() == only@.len());
            if only.len() == 1 {
                assert(crate::text::views(only@)[0] == only@[0]@);
                read_elements(only[0].as_str())
            } else {
                None
            }
        },
        None => None,
    }
}

impl RecordView {
    /// The text of the field `key`, the one at `place` in the order of the
    /// fields.
    pub open spec fn field(self, key: Seq<char>, place: int) -> Option<Seq<char>> {
        match self {
            RecordView::Named(members) => member_from(members, 0, key),
            RecordView::Listed(elements) => if 0 <= place < elements.len() {
                Some(elements[place])
            } else {
                None
            },
        }
    }
}

fn find_member<'a>(members: &'a Vec<(String, String)>, key: &str) -> (r: Option<&'a str>)
    ensures
        crate::identity::borrowed(r) == member_from(member_views(members@), 0, key@),
{
    let ghost all = member_views(members@);
    let mut i: usize = 0;
    while i < members.len()
        invariant
            i <= members@.len(),
            all == member_views(members@),
            member_from(all, 0, key@) == member_from(all, i as int, key@),
        decreases members@.len() - i,
    {
        assert(all[i as int] == (members@[i as int].0@, members@[i as int].1@));
        if same(members[i].0.as_str(), key) {
            return Some(members[i].1.as_str());
        }
        i += 1;
    }
    None
}

impl Record {
    /// The text of the field `key`, the one at `place` in the order of the
    /// fields.
    pub fn field(&self, key: &str, place: usize) -> (r: Option<&str>)
        ensures
            crate::identity::borrowed(r) == self@.field(key@, place as int),
    {
        match self {
            Record::Named(members) => find_member(members, key),
            Record::Listed(elements) => {
                assert(crate::text::views(elements@).len() == elements@.len());
                if place < elements.len() {
                    assert(crate::text::views(elements@)[place as int] == elements@[place as int]@);
                    Some(elements[place].as_str())
                } else {
                    None
                }
            },
        }
    }
}

/// The string in a field that may be missing or `null`; nothing at all where
/// the field holds something else.
pub open spec fn optional_string(field: Option<Seq<char>>) -> Option<Option<Seq<char>>> {
    match field {
        Some(text) => json_string(text),
        None => Some(None),
    }
}

/// The string in a field that must be there.
pub open spec fn required_string(field: Option<Seq<char>>) -> Option<Seq<char>> {
    match field {
        Some(text) => match json_string(text) {
            Some(value) => value,
            None => None,
        },
        None => None,
    }
}

/// The elements of a field that may be missing or `null`; nothing at all where
/// the field holds something else.
pub open spec fn optional_elements(field: Option<Seq<char>>) -> Option<Option<Seq<Seq<char>>>> {
    match field {
        Some(text) => if json_string(text) == Some(None::<Seq<char>>) {
            Some(None)
        } else {
            match json_elements(text) {
                Some(elements) => Some(Some(elements)),
                None => None,
            }
        },
        None => Some(None),
    }
}

/// What an optional list of texts holds.
pub open spec fn list_view(value: Option<Vec<String>>) -> Option<Seq<Seq<char>>> {
    match value {
        Some(list) => Some(crate::text::views(list@)),
        None => None,
    }
}

/// The string in an optional field.
pub fn string_field(field: Option<&str>) -> (r: Option<Option<String>>)
    ensures
        match r {
            Some(value) => optional_string(crate::identity::borrowed(field)) == Some(
                view_of(value),
            ),
            None => optional_string(crate::identity::borrowed(field)) is None,
        },
{
    match field {
        Some(text) => read_string(text),
        None => Some(None),
    }
}

/// The string in a required field.
pub fn required_field(field: Option<&str>) -> (r: Option<String>)
    ensures
        view_of(r) == required_string(crate::identity::borrowed(field)),
{
    match field {
        Some(text) => match read_string(text) {
            Some(value) => value,
            None => None,
        },
        None => None,
    }
}

/// The whole number in a required field.
pub open spec fn required_integer(field: Option<Seq<char>>) -> Option<i64> {
    match field {
        Some(text) => json_integer(text),
        None => None,
    }
}

/// The whole number in a required field.
pub fn integer_field(field: Option<&str>) -> (r: Option<i64>)
    ensures
        r == required_integer(crate::identity::borrowed(field)),
{
    match field {
        Some(text) => read_integer(text),
        None => None,
    }
}

/// The elements in an optional field.
pub fn elements_field(field: Option<&str>) -> (r: Option<Option<Vec<String>>>)
    ensures
        match r {
            Some(value) => optional_elements(crate::identity::borrowed(field)) == Some(
                list_view(value),
            ),
            None => optional_elements(crate::identity::borrowed(field)) is None,
        },
{
    match field {
        Some(text) => {
            if let Some(value) = read_string(text) {
                if value.is_none() {
                    return Some(None);
                }
            }
            match read_elements(text) {
                Some(elements) => Some(Some(elements)),
                None => None,
            }
        },
        None => Some(None),
    }
}

/// A value to be written: a string or a whole number.
#[derive(Debug, Clone, PartialEq, Eq)]
pub enum JsonValue {
    Text(String),
    Number(i64),
}

/// What a [`JsonValue`] holds.
pub enum JsonView {
    Text(Seq<char>),
    Number(i64),
}

impl View for JsonValue {
    type V = JsonView;

    open spec fn view(&self) -> JsonView {
        match self {
            JsonValue::Text(text) => JsonView::Text(text@),
            JsonValue::Number(number) => JsonView::Number(*number),
        }
    }
}

/// What the members to be written hold.
pub open spec fn written_views(list: Seq<(String, JsonValue)>) -> Seq<(Seq<char>, JsonView)> {
    Seq::new(list.len(), |i: int| (list[i].0@, list[i].1@))
}

/// The text that `serde::Serializer::collect_map` on a `serde_json::Serializer`
/// writes for members.
pub uninterp spec fn json_written(members: Seq<(Seq<char>, JsonView)>) -> Option<Seq<char>>;

/// The text of a value stands for the value.
pub open spec fn stands_for(text: Seq<char>, value: JsonView) -> bool {
    match value {
        JsonView::Text(inner) => json_string(text) == Some(Some(inner)),
        JsonView::Number(number) => json_integer(text) == Some(number),
    }
}

/// The text, read again, has the members, in their order.
pub open spec fn reads_back(text: Seq<char>, members: Seq<(Seq<char>, JsonView)>) -> bool {
    match object_members(text) {
        Some(list) => list.len() == members.len() && forall|i: int|
            0 <= i < members.len() ==> (#[trigger] list[i]).0 == members[i].0 && stands_for(
                list[i].1,
                members[i].1,
            ),
        None => false,
    }
}

/// `serde::Serializer::collect_map` on a `serde_json::Serializer`: an object
/// with the members, in their order. Writing texts and integers under names to
/// memory does not fail. The text depends on the members alone, and is that of
/// an object, with two braces at least. Reading the text again gives the members.
#[verifier::external_body]
pub(crate) fn write_members(members: &Vec<(String, JsonValue)>) -> (r: Option<String>)
    ensures
        view_of(r) == json_written(written_views(members@)),
        r is Some,
        r->0@.len() >= 2,
        reads_back(r->0@, written_views(members@)),
{
    let values = members.iter().map(|(name, value)| match value {
        JsonValue::Text(text) => (name, serde_json::Value::from(text.as_str())),
        JsonValue::Number(number) => (name, serde_json::Value::from(*number)),
    });
    let mut out: Vec<u8> = Vec::new();
    serde::Serializer::collect_map(&mut serde_json::Serializer::new(&mut out), values).ok()?;
    String::from_utf8(out).ok()
}

} // verus!
