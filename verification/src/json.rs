//! JSON values, parsed by the `serde_json` crate, and the readers with which
//! the extractors of JSON documents take records apart.

use crate::duration::{parse_duration, Duration};
use crate::scan::{find_byte, find_from, slice_of, trimmed, trimmed_slice};
use crate::text::{decode_lossy, lossy_text, str_eq};
use crate::deep;
use vstd::prelude::*;
use vstd::string::StringSliceAdditionalSpecFns;
use vstd::utf8::encode_utf8;

verus! {

/// `serde_json::Value`, a JSON value as `serde_json` holds it.
#[verifier::external_type_specification]
#[verifier::external_body]
pub struct ExValue(serde_json::Value);

/// A JSON value.  Of a number only this is kept: its value where it is a
/// whole number from 0 to 2^64 - 1, and that it is a number where it is
/// any other.
#[derive(Debug)]
pub enum Json {
    Null,
    Bool(bool),
    Number(Option<u64>),
    Text(String),
    Array(Vec<Json>),
    Object(Vec<(String, Json)>),
}

/// A JSON value in specifications.
pub enum JsonView {
    Null,
    Bool(bool),
    Number(Option<nat>),
    Text(Seq<char>),
    Array(Seq<JsonView>),
    Object(Seq<(Seq<char>, JsonView)>),
}

impl View for Json {
    type V = JsonView;

    open spec fn view(&self) -> JsonView
        decreases self, 0nat,
    {
        match self {
            Json::Null => JsonView::Null,
            Json::Bool(b) => JsonView::Bool(*b),
            Json::Number(n) => JsonView::Number(
                match n {
                    Some(n) => Some(*n as nat),
                    None => None,
                },
            ),
            Json::Text(text) => JsonView::Text(text@),
            Json::Array(items) => JsonView::Array(item_views(*items, items@.len())),
            Json::Object(entries) => JsonView::Object(entry_views(*entries, entries@.len())),
        }
    }
}

/// The first `n` of `items` as specifications see them.
pub open spec fn item_views(items: Vec<Json>, n: nat) -> Seq<JsonView>
    decreases items, n,
{
    if n == 0 || n > items@.len() {
        Seq::empty()
    } else {
        item_views(items, (n - 1) as nat).push(items@[n - 1]@)
    }
}

/// The first `n` of `entries` as specifications see them.
pub open spec fn entry_views(entries: Vec<(String, Json)>, n: nat) -> Seq<(Seq<char>, JsonView)>
    decreases entries, n,
{
    if n == 0 || n > entries@.len() {
        Seq::empty()
    } else {
        entry_views(entries, (n - 1) as nat).push((entries@[n - 1].0@, entries@[n - 1].1@))
    }
}

/// The views of the items of an array, one by one.
pub proof fn lemma_item_views(items: Vec<Json>, n: nat)
    requires
        n <= items@.len(),
    ensures
        item_views(items, n).len() == n,
        forall|i: int| 0 <= i < n ==> #[trigger] item_views(items, n)[i] == items@[i]@,
    decreases n,
{
    reveal_with_fuel(item_views, 2);
    if n > 0 {
        lemma_item_views(items, (n - 1) as nat);
        assert(item_views(items, n) == item_views(items, (n - 1) as nat).push(items@[n - 1]@));
    } else {
        assert(item_views(items, n) == Seq::<JsonView>::empty());
    }
}

/// The views of the entries of an object, one by one.
pub proof fn lemma_entry_views(entries: Vec<(String, Json)>, n: nat)
    requires
        n <= entries@.len(),
    ensures
        entry_views(entries, n).len() == n,
        forall|i: int|
            0 <= i < n ==> #[trigger] entry_views(entries, n)[i] == (
                entries@[i].0@,
                entries@[i].1@,
            ),
    decreases n,
{
    reveal_with_fuel(entry_views, 2);
    if n > 0 {
        lemma_entry_views(entries, (n - 1) as nat);
        assert(entry_views(entries, n) == entry_views(entries, (n - 1) as nat).push(
            (entries@[n - 1].0@, entries@[n - 1].1@),
        ));
    } else {
        assert(entry_views(entries, n) == Seq::<(Seq<char>, JsonView)>::empty());
    }
}

impl DeepView for Json {
    type V = JsonView;

    open spec fn deep_view(&self) -> JsonView {
        self@
    }
}

/// The value that `serde_json` reads from `text`, if `text` is one JSON
/// value with nothing but white space around it.
pub uninterp spec fn value_of(text: Seq<char>) -> Option<serde_json::Value>;

/// A value of `serde_json` as a value of this library.  Of a number,
/// `serde_json::Number::as_u64` is kept; the entries of an object come in
/// the order in which `serde_json` holds them.
pub uninterp spec fn converted(value: serde_json::Value) -> JsonView;

/// The JSON value that `text` writes, if it writes one.
pub open spec fn json_of(text: Seq<char>) -> Option<JsonView> {
    match value_of(text) {
        Some(value) => Some(converted(value)),
        None => None,
    }
}

/// Moves a value of `serde_json` into a value of this library, variant by
/// variant, the items of arrays and the members of objects likewise.  Of a
/// number, `serde_json::Number::as_u64` is kept.
#[verifier::external_body]
fn json_of_value(value: serde_json::Value) -> (json: Json)
    ensures
        json@ == converted(value),
{
    match value {
        serde_json::Value::Null => Json::Null,
        serde_json::Value::Bool(b) => Json::Bool(b),
        serde_json::Value::Number(n) => Json::Number(n.as_u64()),
        serde_json::Value::String(text) => Json::Text(text),
        serde_json::Value::Array(items) => Json::Array(items.into_iter().map(json_of_value).collect()),
        serde_json::Value::Object(entries) => Json::Object(
            entries.into_iter().map(|(key, value)| (key, json_of_value(value))).collect(),
        ),
    }
}

/// `serde_json::from_str`, reading any JSON value: the value that the text
/// writes, or nothing where the text is not one JSON value.
#[verifier::external_body]
fn parse_value(text: &str) -> (value: Option<serde_json::Value>)
    ensures
        value == value_of(text@),
{
    serde_json::from_str::<serde_json::Value>(text).ok()
}

/// Reads the JSON value that `text` writes.
pub fn parse(text: &str) -> (value: Option<Json>)
    ensures
        value.deep_view() == json_of(text@),
{
    match parse_value(text) {
        Some(value) => Some(json_of_value(value)),
        None => None,
    }
}

} // verus!

verus! {

/// The value of the first of `entries`, at or after `from`, whose key is
/// `key`.
pub open spec fn member_from(entries: Seq<(Seq<char>, JsonView)>, key: Seq<char>, from: int) -> Option<
    JsonView,
>
    decreases entries.len() - from,
{
    if from < 0 || from >= entries.len() {
        None
    } else if entries[from].0 == key {
        Some(entries[from].1)
    } else {
        member_from(entries, key, from + 1)
    }
}

/// The member `key` of `value`, where `value` is an object that has it.
pub open spec fn member(value: JsonView, key: Seq<char>) -> Option<JsonView> {
    match value {
        JsonView::Object(entries) => member_from(entries, key, 0),
        _ => None,
    }
}

/// The text in the member `key`: the member must be there and be a string.
pub open spec fn text_at(value: JsonView, key: Seq<char>) -> Option<Seq<char>> {
    match member(value, key) {
        Some(JsonView::Text(text)) => Some(text),
        _ => None,
    }
}

/// The text in the member `key`, which may be missing or null: a member
/// that is there and is neither null nor a string is an error.
pub open spec fn optional_text_at(value: JsonView, key: Seq<char>) -> Option<Option<Seq<char>>> {
    match member(value, key) {
        None => Some(None),
        Some(JsonView::Null) => Some(None),
        Some(JsonView::Text(text)) => Some(Some(text)),
        _ => None,
    }
}

/// The number in the member `key`: the member must be there and be a whole
/// number from 0 to `max`.
pub open spec fn number_at(value: JsonView, key: Seq<char>, max: nat) -> Option<nat> {
    match member(value, key) {
        Some(JsonView::Number(Some(n))) if n <= max => Some(n),
        _ => None,
    }
}

/// The number in the member `key`: the member must be there and be a whole
/// number from 1 to `max`.
pub open spec fn positive_at(value: JsonView, key: Seq<char>, max: nat) -> Option<nat> {
    match number_at(value, key, max) {
        Some(n) if n > 0 => Some(n),
        _ => None,
    }
}

/// The number in the member `key`, which may be missing or null: a member
/// that is there and is neither null nor a whole number from 1 to `max` is
/// an error.
pub open spec fn optional_positive_at(value: JsonView, key: Seq<char>, max: nat) -> Option<
    Option<nat>,
> {
    match member(value, key) {
        None => Some(None),
        Some(JsonView::Null) => Some(None),
        Some(JsonView::Number(Some(n))) if 0 < n <= max => Some(Some(n)),
        _ => None,
    }
}

/// Whether the member `key` is there and is a number of any kind.
pub open spec fn is_number_at(value: JsonView, key: Seq<char>) -> bool {
    member(value, key) matches Some(JsonView::Number(_))
}

/// The duration, in nanoseconds, in the member `key`: the member must be
/// there and be a string that writes a duration.
pub open spec fn duration_at(value: JsonView, key: Seq<char>) -> Option<nat> {
    match text_at(value, key) {
        Some(text) => parse_duration(encode_utf8(text)),
        None => None,
    }
}

/// The items of `value`, where `value` is an array.
pub open spec fn items_of(value: JsonView) -> Option<Seq<JsonView>> {
    match value {
        JsonView::Array(items) => Some(items),
        _ => None,
    }
}

impl Json {
    /// The member `key`, where `self` is an object that has it.
    pub fn get(&self, key: &str) -> (found: Option<&Json>)
        ensures
            match found {
                Some(found) => member(self@, key@) == Some(found@),
                None => member(self@, key@).is_none(),
            },
    {
        match self {
            Json::Object(entries) => {
                proof {
                    lemma_entry_views(*entries, entries@.len());
                }
                let mut i: usize = 0;
                while i < entries.len()
                    invariant
                        i <= entries.len(),
                        self@ matches JsonView::Object(views) && views.len() == entries.len() && (
                        forall|j: int|
                            0 <= j < entries.len() ==> #[trigger] views[j] == (
                                entries[j].0@,
                                entries[j].1@,
                            )) && member_from(views, key@, 0) == member_from(views, key@, i as int),
                    decreases entries.len() - i,
                {
                    if str_eq(entries[i].0.as_str(), key) {
                        return Some(&entries[i].1);
                    }
                    i += 1;
                }
                None
            },
            _ => None,
        }
    }

    /// The items, where `self` is an array.
    pub fn items(&self) -> (found: Option<&Vec<Json>>)
        ensures
            match found {
                Some(found) => items_of(self@) == Some(found.deep_view()),
                None => items_of(self@).is_none(),
            },
    {
        match self {
            Json::Array(items) => {
                proof {
                    lemma_item_views(*items, items@.len());
                    assert(items.deep_view() =~= items_of(self@).unwrap());
                }
                Some(items)
            },
            _ => None,
        }
    }

    /// The text in the member `key`.
    pub fn text(&self, key: &str) -> (found: Option<String>)
        ensures
            found.deep_view() == text_at(self@, key@),
    {
        match self.get(key) {
            Some(Json::Text(text)) => Some(text.clone()),
            _ => None,
        }
    }

    /// The text in the member `key`, which may be missing or null.
    pub fn optional_text(&self, key: &str) -> (found: Option<Option<String>>)
        ensures
            found.deep_view() == optional_text_at(self@, key@),
    {
        match self.get(key) {
            None => Some(None),
            Some(Json::Null) => Some(None),
            Some(Json::Text(text)) => Some(Some(text.clone())),
            _ => None,
        }
    }

    /// The whole number from 0 to `max` in the member `key`.
    pub fn number(&self, key: &str, max: u64) -> (found: Option<u64>)
        ensures
            match found {
                Some(n) => number_at(self@, key@, max as nat) == Some(n as nat) && n <= max,
                None => number_at(self@, key@, max as nat).is_none(),
            },
    {
        match self.get(key) {
            Some(Json::Number(Some(n))) => if *n <= max {
                Some(*n)
            } else {
                None
            },
            _ => None,
        }
    }

    /// The whole number from 1 to `max` in the member `key`.
    pub fn positive(&self, key: &str, max: u64) -> (found: Option<u64>)
        ensures
            match found {
                Some(n) => positive_at(self@, key@, max as nat) == Some(n as nat) && 0 < n <= max,
                None => positive_at(self@, key@, max as nat).is_none(),
            },
    {
        match self.number(key, max) {
            Some(n) => if n > 0 {
                Some(n)
            } else {
                None
            },
            None => None,
        }
    }

    /// The whole number from 1 to `max` in the member `key`, which may be
    /// missing or null.
    pub fn optional_positive(&self, key: &str, max: u64) -> (found: Option<Option<u64>>)
        ensures
            match found {
                Some(Some(n)) => optional_positive_at(self@, key@, max as nat) == Some(
                    Some(n as nat),
                ) && 0 < n <= max,
                Some(None) => optional_positive_at(self@, key@, max as nat) == Some(None::<nat>),
                None => optional_positive_at(self@, key@, max as nat).is_none(),
            },
    {
        match self.get(key) {
            None => Some(None),
            Some(Json::Null) => Some(None),
            Some(Json::Number(Some(n))) => if 0 < *n && *n <= max {
                Some(Some(*n))
            } else {
                None
            },
            _ => None,
        }
    }

    /// Whether the member `key` is there and is a number of any kind.
    pub fn is_number(&self, key: &str) -> (r: bool)
        ensures
            r == is_number_at(self@, key@),
    {
        match self.get(key) {
            Some(Json::Number(_)) => true,
            _ => false,
        }
    }

    /// The duration in the member `key`.
    pub fn duration(&self, key: &str) -> (found: Option<Duration>)
        ensures
            match found {
                Some(d) => duration_at(self@, key@) == Some(d@) && d.wf(),
                None => duration_at(self@, key@).is_none(),
            },
    {
        match self.get(key) {
            Some(Json::Text(text)) => Duration::parse(text.as_str().as_bytes()),
            _ => None,
        }
    }
}

} // verus!

verus! {

/// The lines of `text` from `from` on: the parts between line feeds.
pub open spec fn lines_from(text: Seq<u8>, from: int) -> Seq<Seq<u8>>
    decreases text.len() - from,
{
    match find_from(text, seq![0x0au8], from) {
        Some(at) if from <= at < text.len() => seq![text.subrange(from, at)] + lines_from(
            text,
            at + 1,
        ),
        _ => seq![text.subrange(from, text.len() as int)],
    }
}

/// The items of the arrays that `lines` write, line after line; none if a
/// line is not one JSON array.
pub open spec fn rows_of_lines(lines: Seq<Seq<u8>>) -> Option<Seq<JsonView>>
    decreases lines.len(),
{
    if lines.len() == 0 {
        Some(Seq::empty())
    } else {
        match (rows_of_lines(lines.drop_last()), json_of(lossy_text(lines.last()))) {
            (Some(before), Some(JsonView::Array(items))) => Some(before + items),
            _ => None,
        }
    }
}

/// The rows of a document that holds one JSON array of rows per line: the
/// white space around the document is set aside, and each line must be one
/// array.
pub open spec fn rows_of_text(text: Seq<u8>) -> Option<Seq<JsonView>> {
    rows_of_lines(lines_from(trimmed(text), 0))
}

/// What `rows` make, each read by `read`; nothing if a row makes nothing.
pub open spec fn records_of<V>(rows: Seq<JsonView>, read: spec_fn(JsonView) -> Option<V>) -> Option<
    Seq<V>,
>
    decreases rows.len(),
{
    if rows.len() == 0 {
        Some(Seq::empty())
    } else {
        match (records_of(rows.drop_last(), read), read(rows.last())) {
            (Some(before), Some(record)) => Some(before.push(record)),
            _ => None,
        }
    }
}

/// Lines of which a leading part is not all arrays are not all arrays.
proof fn lemma_bad_line(lines: Seq<Seq<u8>>, k: int)
    requires
        0 <= k <= lines.len(),
        rows_of_lines(lines.subrange(0, k)).is_none(),
    ensures
        rows_of_lines(lines).is_none(),
    decreases lines.len() - k,
{
    if k < lines.len() {
        assert(lines.subrange(0, k + 1).drop_last() =~= lines.subrange(0, k));
        lemma_bad_line(lines, k + 1);
    } else {
        assert(lines.subrange(0, k) =~= lines);
    }
}

/// Rows of which a leading part cannot be read cannot be read.
proof fn lemma_bad_row<V>(rows: Seq<JsonView>, read: spec_fn(JsonView) -> Option<V>, k: int)
    requires
        0 <= k <= rows.len(),
        records_of(rows.subrange(0, k), read).is_none(),
    ensures
        records_of(rows, read).is_none(),
    decreases rows.len() - k,
{
    if k < rows.len() {
        assert(rows.subrange(0, k + 1).drop_last() =~= rows.subrange(0, k));
        lemma_bad_row(rows, read, k + 1);
    } else {
        assert(rows.subrange(0, k) =~= rows);
    }
}

/// Reads the rows of a document that holds one JSON array of rows per line.
#[verifier::loop_isolation(false)]
pub fn rows(contents: &str) -> (r: Option<Vec<Json>>)
    ensures
        r.deep_view() == rows_of_text(contents.spec_bytes()),
{
    let text = trimmed_slice(contents.as_bytes());
    let mut found: Vec<Json> = Vec::new();
    let mut from: usize = 0;
    let ghost mut done: Seq<Seq<u8>> = Seq::empty();
    proof {
        assert(found.deep_view() =~= Seq::empty());
    }
    loop
        invariant
            from <= text.len(),
            lines_from(text@, 0) == done + lines_from(text@, from as int),
            rows_of_lines(done) == Some(found.deep_view()),
        decreases text.len() - from,
    {
        let (line, next) = match find_byte(text, 0x0a, from) {
            Some(at) => (slice_of(text, from, at), Some(at + 1)),
            None => (slice_of(text, from, text.len()), None),
        };
        let ghost lines = done.push(line@);
        proof {
            assert(lines.drop_last() =~= done);
            match next {
                Some(next) => {
                    assert(done + (seq![line@] + lines_from(text@, next as int)) =~= lines
                        + lines_from(text@, next as int));
                },
                None => {
                    assert(done + seq![line@] =~= lines);
                },
            }
        }
        match parse(decode_lossy(line).as_str()) {
            Some(Json::Array(mut items)) => {
                proof {
                    lemma_item_views(items, items@.len());
                    assert(found.deep_view() + items.deep_view() =~= deep(found@ + items@));
                    assert(items.deep_view() =~= item_views(items, items@.len()));
                }
                found.append(&mut items);
                proof {
                    assert(found.deep_view() =~= deep(found@));
                }
            },
            _ => {
                proof {
                    match next {
                        Some(next) => {
                            let all = lines + lines_from(text@, next as int);
                            assert(all.subrange(0, lines.len() as int) =~= lines);
                            lemma_bad_line(all, lines.len() as int);
                        },
                        None => {},
                    }
                }
                return None;
            },
        }
        proof {
            done = lines;
        }
        match next {
            Some(next) => {
                from = next;
            },
            None => {
                return Some(found);
            },
        }
    }
}

/// Reads each of `rows` with `read`.
#[verifier::loop_isolation(false)]
pub(crate) fn records<T: DeepView, F: Fn(&Json) -> Option<T>>(
    rows: &Vec<Json>,
    read: F,
    Ghost(read_spec): Ghost<spec_fn(JsonView) -> Option<T::V>>,
) -> (r: Option<Vec<T>>)
    requires
        forall|row: &Json| call_requires(read, (row,)),
        forall|row: &Json, record: Option<T>|
            call_ensures(read, (row,), record) ==> record.deep_view() == read_spec(row@),
    ensures
        r.deep_view() == records_of(rows.deep_view(), read_spec),
{
    let mut found: Vec<T> = Vec::new();
    let mut i: usize = 0;
    proof {
        assert(rows.deep_view().subrange(0, 0) =~= Seq::empty());
        assert(found.deep_view() =~= Seq::empty());
    }
    while i < rows.len()
        invariant
            i <= rows.len(),
            records_of(rows.deep_view().subrange(0, i as int), read_spec) == Some(
                found.deep_view(),
            ),
        decreases rows.len() - i,
    {
        proof {
            let next = rows.deep_view().subrange(0, i + 1);
            assert(next.drop_last() =~= rows.deep_view().subrange(0, i as int));
            assert(next.last() == rows[i as int]@);
        }
        match read(&rows[i]) {
            Some(record) => {
                proof {
                    assert(deep(found@.push(record)) =~= found.deep_view().push(
                        record.deep_view(),
                    ));
                }
                found.push(record);
                proof {
                    assert(found.deep_view() =~= deep(found@));
                }
            },
            None => {
                proof {
                    lemma_bad_row(rows.deep_view(), read_spec, i + 1);
                }
                return None;
            },
        }
        i += 1;
    }
    proof {
        assert(rows.deep_view().subrange(0, i as int) =~= rows.deep_view());
    }
    Some(found)
}

} // verus!
