//! Reading bookmark records out of the API's JSON response.

use vstd::prelude::*;

use crate::buckets::BookmarksByDate;
use crate::date::CalendarDate;
use crate::group::{
    Diagnostic, GroupError, Grouped, RawBookmark, UnparseablePolicy, filed, group_items, notes,
    placements, texts_for,
};

verus! {

#[verifier::external_type_specification]
#[verifier::external_body]
pub struct ExValue(serde_json::Value);

/// The member `key` of `v`, where `v` is an object that has it.
pub uninterp spec fn member_of(v: serde_json::Value, key: Seq<char>) -> Option<serde_json::Value>;

/// The elements of `v`, where `v` is an array.
pub uninterp spec fn array_of(v: serde_json::Value) -> Option<Seq<serde_json::Value>>;

/// The contents of `v`, where `v` is a string.
pub uninterp spec fn str_of(v: serde_json::Value) -> Option<Seq<char>>;

/// `v` written as compact JSON text.
pub uninterp spec fn text_of(v: serde_json::Value) -> Seq<char>;

/// Relies on `serde_json::Value::get`: the member `key` of an object, which
/// depends on the value and the key alone.
#[verifier::external_body]
fn json_member<'a>(v: &'a serde_json::Value, key: &str) -> (r: Option<&'a serde_json::Value>)
    ensures
        r is Some <==> member_of(*v, key@) is Some,
        r matches Some(m) ==> member_of(*v, key@) == Some(*m),
{
    v.get(key)
}

/// Relies on `serde_json::Value::as_array`: the elements of an array.
#[verifier::external_body]
fn json_array<'a>(v: &'a serde_json::Value) -> (r: Option<&'a Vec<serde_json::Value>>)
    ensures
        r is Some <==> array_of(*v) is Some,
        r matches Some(a) ==> array_of(*v) == Some(a@),
{
    v.as_array()
}

/// Relies on `serde_json::Value::as_str`: the contents of a string value.
#[verifier::external_body]
fn json_str(v: &serde_json::Value) -> (r: Option<String>)
    ensures
        r is Some <==> str_of(*v) is Some,
        r matches Some(s) ==> str_of(*v) == Some(s@),
{
    match v.as_str() {
        Some(s) => Some(s.to_string()),
        None => None,
    }
}

/// Relies on `serde_json::Value`'s `Display`: the value as compact JSON text.
#[verifier::external_body]
fn json_text(v: &serde_json::Value) -> (r: String)
    ensures
        r@ == text_of(*v),
{
    v.to_string()
}

/// An optional string as an optional sequence of characters.
pub open spec fn opt_view(o: Option<String>) -> Option<Seq<char>> {
    match o {
        Some(s) => Some(s@),
        None => None,
    }
}

/// The string member `key` of `v`, if there is one.
pub open spec fn string_field(v: serde_json::Value, key: Seq<char>) -> Option<Seq<char>> {
    match member_of(v, key) {
        Some(m) => str_of(m),
        None => None,
    }
}

/// The `title` member of `v`: its string, or its JSON text where it is not a
/// string.
pub open spec fn title_field(v: serde_json::Value) -> Option<Seq<char>> {
    match member_of(v, "title"@) {
        Some(t) => match str_of(t) {
            Some(s) => Some(s),
            None => Some(text_of(t)),
        },
        None => None,
    }
}

/// `r` holds the fields of the JSON record `v`.
pub open spec fn record_of(r: RawBookmark, v: serde_json::Value) -> bool {
    &&& opt_view(r.title) == title_field(v)
    &&& opt_view(r.created) == string_field(v, "created"@)
    &&& opt_view(r.link) == string_field(v, "link"@)
}

/// `rs` holds the fields of the JSON records `a`, one for one.
pub open spec fn records_of(rs: Seq<RawBookmark>, a: Seq<serde_json::Value>) -> bool {
    rs.len() == a.len() && forall|j: int| 0 <= j < a.len() ==> #[trigger] record_of(rs[j], a[j])
}

/// The elements of the response's `items` array, where it has one.
pub open spec fn items_of(json: serde_json::Value) -> Option<Seq<serde_json::Value>> {
    match member_of(json, "items"@) {
        Some(it) => array_of(it),
        None => None,
    }
}

/// The string member `key` of `v`, if there is one.
fn string_member(v: &serde_json::Value, key: &str) -> (r: Option<String>)
    ensures
        opt_view(r) == string_field(*v, key@),
{
    match json_member(v, key) {
        Some(m) => json_str(m),
        None => None,
    }
}

/// The fields of one record: `title` as its string, or its JSON text where
/// it is not a string; `created` and `link` where they are strings.
pub fn read_record(v: &serde_json::Value) -> (r: RawBookmark)
    ensures
        record_of(r, *v),
{
    let title = match json_member(v, "title") {
        Some(t) => match json_str(t) {
            Some(s) => Some(s),
            None => Some(json_text(t)),
        },
        None => None,
    };
    RawBookmark { title, created: string_member(v, "created"), link: string_member(v, "link") }
}

/// The records under the response's `items` array, in order; an error where
/// `items` is absent or not an array.
pub fn read_items(json: &serde_json::Value) -> (r: Result<Vec<RawBookmark>, GroupError>)
    ensures
        member_of(*json, "items"@) is None ==> r matches Err(GroupError::MissingItems),
        member_of(*json, "items"@) is Some && items_of(*json) is None ==> r matches Err(
            GroupError::ItemsNotArray,
        ),
        items_of(*json) matches Some(a) ==> r matches Ok(out) && records_of(out@, a),
{
    let items = match json_member(json, "items") {
        Some(i) => i,
        None => {
            return Err(GroupError::MissingItems);
        },
    };
    let array = match json_array(items) {
        Some(a) => a,
        None => {
            return Err(GroupError::ItemsNotArray);
        },
    };
    let mut out: Vec<RawBookmark> = Vec::new();
    let mut i: usize = 0;
    while i < array.len()
        invariant
            i <= array@.len(),
            out@.len() == i,
            forall|j: int| 0 <= j < i ==> #[trigger] record_of(out@[j], array@[j]),
        decreases array@.len() - i,
    {
        out.push(read_record(&array[i]));
        i = i + 1;
    }
    Ok(out)
}

/// The grouping of `items` that [`group_items`] makes: every date's entries
/// and the notes, as its contract states them.
pub open spec fn grouping_of(
    items: Seq<RawBookmark>,
    today: CalendarDate,
    policy: UnparseablePolicy,
    dates: BookmarksByDate,
    diagnostics: Seq<Diagnostic>,
) -> bool {
    let ps = placements(items, today, policy);
    &&& dates.wf()
    &&& forall|d: CalendarDate| #[trigger] dates.entries_of(d) == texts_for(filed(ps), d)
    &&& diagnostics.map_values(|x: Diagnostic| x.view()) == notes(items, ps, ps.len() as int)
}

/// `r` is what [`group_items`] returns for `items`: the first record that
/// lacks a link abandons the run, else the exact grouping.
pub open spec fn group_result(
    items: Seq<RawBookmark>,
    today: CalendarDate,
    policy: UnparseablePolicy,
    r: Result<Grouped, GroupError>,
) -> bool {
    let ps = placements(items, today, policy);
    &&& r is Err <==> exists|i: int| 0 <= i < ps.len() && #[trigger] ps[i] is MissingLink
    &&& r is Err ==> r->Err_0 is MissingLink
    &&& r matches Err(GroupError::MissingLink(i)) ==> i < ps.len() && ps[i as int] is MissingLink
        && forall|j: int| 0 <= j < i ==> !(#[trigger] ps[j] is MissingLink)
    &&& r matches Ok(g) ==> grouping_of(items, today, policy, g.dates, g.diagnostics@)
}

/// Reads the records of a response and groups them by date: an error where
/// `items` is absent or not an array, else the result of [`group_items`] on
/// the records of the array, read one for one.
pub fn group_response(
    json: &serde_json::Value,
    today: CalendarDate,
    policy: UnparseablePolicy,
) -> (r: Result<Grouped, GroupError>)
    ensures
        member_of(*json, "items"@) is None ==> r matches Err(GroupError::MissingItems),
        member_of(*json, "items"@) is Some && items_of(*json) is None ==> r matches Err(
            GroupError::ItemsNotArray,
        ),
        items_of(*json) matches Some(a) ==> exists|items: Seq<RawBookmark>|
            #[trigger] records_of(items, a) && group_result(items, today, policy, r),
{
    let items = read_items(json)?;
    let r = group_items(&items, today, policy);
    assert(group_result(items@, today, policy, r));
    r
}

} // verus!
