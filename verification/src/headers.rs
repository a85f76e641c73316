//! The headers of a request.
use crate::host::texts;
use crate::string_map::StringMap;
use axum::http::{HeaderMap, HeaderValue};
use vstd::prelude::*;

verus! {

/// Trusted: the header map of `http`.
#[verifier::external_type_specification]
#[verifier::external_body]
#[verifier::reject_recursive_types(T)]
pub struct ExHeaderMap<T>(HeaderMap<T>);

/// Trusted: a header value of `http`, a string of bytes.
#[verifier::external_type_specification]
#[verifier::external_body]
pub struct ExHeaderValue(HeaderValue);

/// The headers in a map, each with its name in lower case, in the order in which the map hands
/// them out.
pub uninterp spec fn header_list(headers: HeaderMap<HeaderValue>) -> Seq<(Seq<char>, Seq<u8>)>;

/// The bytes of a header value.
pub uninterp spec fn header_bytes(value: HeaderValue) -> Seq<u8>;

/// A byte that may stand in a header value that is text: a visible ASCII character, a space or a
/// tab.
pub open spec fn is_visible(b: u8) -> bool {
    32 <= b < 127 || b == 9
}

/// The text of a header value, if all its bytes are visible.
pub open spec fn header_text(bytes: Seq<u8>) -> Option<Seq<char>> {
    if forall|i: int| 0 <= i < bytes.len() ==> is_visible(#[trigger] bytes[i]) {
        Some(bytes.map_values(|b: u8| b as char))
    } else {
        None
    }
}

/// `name` is written in lower case letters and dashes.
pub open spec fn is_lower_name(name: Seq<char>) -> bool {
    &&& name.len() > 0
    &&& forall|i: int|
        0 <= i < name.len() ==> 'a' <= #[trigger] name[i] <= 'z' || name[i] == '-'
}

/// The first value of a header among `list`.
pub open spec fn first_value(list: Seq<(Seq<char>, Seq<u8>)>, name: Seq<char>) -> Option<Seq<u8>>
    decreases list.len(),
{
    if list.len() == 0 {
        None
    } else if list[0].0 == name {
        Some(list[0].1)
    } else {
        first_value(list.drop_first(), name)
    }
}

/// The text of a header: that of its first value, if that is text.
pub open spec fn header_of(headers: HeaderMap<HeaderValue>, name: Seq<char>) -> Option<Seq<char>> {
    match first_value(header_list(headers), name) {
        Some(bytes) => header_text(bytes),
        None => None,
    }
}

/// The headers of a list that are text, by name; a later value overrides an earlier one.
pub open spec fn header_texts(list: Seq<(Seq<char>, Seq<u8>)>) -> Map<Seq<char>, Seq<char>>
    decreases list.len(),
{
    if list.len() == 0 {
        Map::empty()
    } else {
        match header_text(list.last().1) {
            Some(text) => header_texts(list.drop_last()).insert(list.last().0, text),
            None => header_texts(list.drop_last()),
        }
    }
}

/// Trusted: `HeaderMap::iter` hands out every header with its value.
#[verifier::external_body]
fn list_headers(headers: &HeaderMap<HeaderValue>) -> (r: Vec<(String, HeaderValue)>)
    ensures
        r@.map_values(|h: (String, HeaderValue)| (h.0@, header_bytes(h.1))) == header_list(
            *headers,
        ),
{
    headers.iter().map(|(name, value)| (name.to_string(), value.clone())).collect()
}

/// Trusted: `HeaderMap::get` gives the first value of a header.
#[verifier::external_body]
fn get_header(headers: &HeaderMap<HeaderValue>, name: &str) -> (r: Option<HeaderValue>)
    requires
        is_lower_name(name@),
    ensures
        r is Some <==> first_value(header_list(*headers), name@) is Some,
        r matches Some(value) ==> header_bytes(value) == first_value(
            header_list(*headers),
            name@,
        )->0,
{
    headers.get(name).cloned()
}

/// Trusted: `HeaderValue::to_str` gives the text of a value whose bytes are all visible.
#[verifier::external_body]
fn value_text(value: &HeaderValue) -> (r: Option<String>)
    ensures
        r is Some <==> header_text(header_bytes(*value)) is Some,
        r matches Some(text) ==> text@ == header_text(header_bytes(*value))->0,
{
    value.to_str().ok().map(|text| text.to_string())
}

/// The text of a header.
pub fn header(headers: &HeaderMap<HeaderValue>, name: &str) -> (r: Option<String>)
    requires
        is_lower_name(name@),
    ensures
        r is Some <==> header_of(*headers, name@) is Some,
        r matches Some(text) ==> text@ == header_of(*headers, name@)->0,
{
    match get_header(headers, name) {
        Some(value) => value_text(&value),
        None => None,
    }
}

/// The headers that are text, by name.
pub fn headers_to_map(headers: &HeaderMap<HeaderValue>) -> (map: StringMap<String>)
    ensures
        texts(map@) == header_texts(header_list(*headers)),
{
    let list = list_headers(headers);
    let ghost all = header_list(*headers);
    let mut map: StringMap<String> = StringMap::new();
    let mut i: usize = 0;
    assert(texts(map@) =~= Map::<Seq<char>, Seq<char>>::empty());
    while i < list.len()
        invariant
            i <= list@.len(),
            all == list@.map_values(|h: (String, HeaderValue)| (h.0@, header_bytes(h.1))),
            texts(map@) == header_texts(all.take(i as int)),
        decreases list@.len() - i,
    {
        assert(all.take(i + 1).drop_last() == all.take(i as int));
        assert(all.take(i + 1).last() == all[i as int]);
        match value_text(&list[i].1) {
            Some(text) => {
                let ghost before = map@;
                map.insert(list[i].0.clone(), text);
                assert(texts(map@) =~= texts(before).insert(list@[i as int].0@, text@));
            },
            None => {},
        }
        i = i + 1;
    }
    assert(all.take(all.len() as int) == all);
    map
}

/// A header occurs at most once among `list`.
pub open spec fn occurs_once(list: Seq<(Seq<char>, Seq<u8>)>, name: Seq<char>) -> bool {
    forall|i: int, j: int|
        0 <= i < j < list.len() && (#[trigger] list[i]).0 == name ==> (#[trigger] list[j]).0 != name
}

proof fn lemma_first_value_of_longer(list: Seq<(Seq<char>, Seq<u8>)>, name: Seq<char>)
    requires
        list.len() > 0,
    ensures
        first_value(list, name) == (match first_value(list.drop_last(), name) {
            Some(bytes) => Some(bytes),
            None => if list.last().0 == name {
                Some(list.last().1)
            } else {
                None
            },
        }),
        first_value(list.drop_last(), name) is Some ==> exists|i: int|
            0 <= i < list.len() - 1 && (#[trigger] list[i]).0 == name,
    decreases list.len(),
{
    let rest = list.drop_first();
    if list.len() > 1 {
        lemma_first_value_of_longer(rest, name);
        assert(rest.drop_last() == list.drop_last().drop_first());
        if list[0].0 != name && first_value(rest.drop_last(), name) is Some {
            let i = choose|i: int| 0 <= i < rest.len() - 1 && (#[trigger] rest[i]).0 == name;
            assert(list[i + 1].0 == name);
        }
    } else {
        assert(first_value(rest, name) is None);
        assert(first_value(list.drop_last(), name) is None);
    }
}

proof fn lemma_header_seen_alike(list: Seq<(Seq<char>, Seq<u8>)>, name: Seq<char>)
    requires
        occurs_once(list, name),
    ensures
        header_texts(list).get(name) == (match first_value(list, name) {
            Some(bytes) => header_text(bytes),
            None => None,
        }),
    decreases list.len(),
{
    if list.len() > 0 {
        let front = list.drop_last();
        assert forall|i: int, j: int|
            0 <= i < j < front.len() && (#[trigger] front[i]).0 == name implies (
        #[trigger] front[j]).0 != name by {
            assert(list[i] == front[i] && list[j] == front[j]);
        }
        lemma_header_seen_alike(front, name);
        lemma_first_value_of_longer(list, name);
        if first_value(front, name) is Some {
            let i = choose|i: int| 0 <= i < list.len() - 1 && (#[trigger] list[i]).0 == name;
            assert(list[list.len() - 1].0 != name);
        }
    }
}

/// Of a header that occurs at most once, looking it up by its name and looking it up among all the
/// headers give the same.
pub proof fn law_single_header_is_seen_alike(headers: HeaderMap<HeaderValue>, name: Seq<char>)
    requires
        occurs_once(header_list(headers), name),
    ensures
        header_texts(header_list(headers)).get(name) == header_of(headers, name),
{
    lemma_header_seen_alike(header_list(headers), name);
}

/// The text of a header value has one character for each byte, with the byte's code, and there is
/// one exactly when every byte is a space, a visible ASCII character or a tab.
pub proof fn law_text_of_a_header_value(bytes: Seq<u8>)
    ensures
        header_text(bytes) is Some <==> forall|i: int|
            0 <= i < bytes.len() ==> (32 <= #[trigger] bytes[i] < 127 || bytes[i] == 9),
        header_text(bytes) matches Some(text) ==> text.len() == bytes.len() && forall|i: int|
            0 <= i < bytes.len() ==> #[trigger] text[i] as u32 == bytes[i] as u32,
{
    assert forall|i: int| 0 <= i < bytes.len() implies (is_visible(#[trigger] bytes[i]) <==> (32
        <= bytes[i] < 127 || bytes[i] == 9)) by {}
}

/// Looking up a header gives the text of the first value that stands under its name.
pub proof fn law_a_header_is_its_first_value(
    list: Seq<(Seq<char>, Seq<u8>)>,
    name: Seq<char>,
    k: int,
)
    ensures
        0 <= k < list.len() && list[k].0 == name && (forall|i: int|
            0 <= i < k ==> (#[trigger] list[i]).0 != name) ==> first_value(list, name) == Some(
            list[k].1,
        ),
        (forall|i: int| 0 <= i < list.len() ==> (#[trigger] list[i]).0 != name) ==> first_value(
            list,
            name,
        ) is None,
    decreases list.len(),
{
    if list.len() > 0 && list[0].0 != name {
        let rest = list.drop_first();
        law_a_header_is_its_first_value(rest, name, k - 1);
        if 0 <= k < list.len() && list[k].0 == name && (forall|i: int|
            0 <= i < k ==> (#[trigger] list[i]).0 != name) {
            assert(rest[k - 1] == list[k]);
            assert forall|i: int| 0 <= i < k - 1 implies (#[trigger] rest[i]).0 != name by {
                assert(rest[i] == list[i + 1]);
            }
        }
        if forall|i: int| 0 <= i < list.len() ==> (#[trigger] list[i]).0 != name {
            assert forall|i: int| 0 <= i < rest.len() implies (#[trigger] rest[i]).0 != name by {
                assert(rest[i] == list[i + 1]);
            }
        }
    }
}

/// What is looked up is the text of the header's first value.
pub proof fn law_header_is_the_text_of_its_first_value(
    headers: HeaderMap<HeaderValue>,
    name: Seq<char>,
)
    ensures
        first_value(header_list(headers), name) matches Some(bytes) ==> header_of(headers, name)
            == header_text(bytes),
        first_value(header_list(headers), name) is None ==> header_of(headers, name) is None,
{
}

/// One header more: if it is text, it is listed with its text in place of an earlier one of its
/// name, and if not, it is left out; all others stay as they are.
pub proof fn law_one_header_more(
    list: Seq<(Seq<char>, Seq<u8>)>,
    name: Seq<char>,
    bytes: Seq<u8>,
)
    ensures
        header_text(bytes) matches Some(text) ==> header_texts(list.push((name, bytes)))
            == header_texts(list).insert(name, text),
        header_text(bytes) is None ==> header_texts(list.push((name, bytes))) == header_texts(list),
        header_texts(seq![]) == Map::<Seq<char>, Seq<char>>::empty(),
{
    assert(list.push((name, bytes)).drop_last() =~= list);
}

} // verus!
