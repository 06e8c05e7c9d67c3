//! Header names, header values and the header collection of the `http`
//! crate, with the model that the contracts of this library speak of.
//!
//! A collection is seen as a sequence of groups. A group is a name with the
//! values stored under it; groups stand in the order in which their names
//! first came in, the values of a group in the order in which they came in.
//! Walking the collection visits the groups in order and, within a group, its
//! values in order.

use http::header::{HeaderMap, HeaderName, HeaderValue};
use vstd::prelude::*;
use crate::text::{bytes_of, is_token_byte, literal, lower};

verus! {

/// `http::header::HeaderName`: the name of a header.
#[verifier::external_type_specification]
#[verifier::external_body]
pub struct ExHeaderName(HeaderName);

/// `http::header::HeaderValue`: the value of a header.
#[verifier::external_type_specification]
#[verifier::external_body]
pub struct ExHeaderValue(HeaderValue);

/// `http::header::HeaderMap`: a collection of headers.
#[verifier::external_type_specification]
#[verifier::external_body]
#[verifier::reject_recursive_types(T)]
pub struct ExHeaderMap<T>(HeaderMap<T>);

/// The bytes of a header name.
pub uninterp spec fn header_name_bytes(name: HeaderName) -> Seq<u8>;

/// The bytes of a header value.
pub uninterp spec fn header_value_bytes(value: HeaderValue) -> Seq<u8>;

/// The groups of a header collection: each name with its values.
pub uninterp spec fn header_map_groups(map: HeaderMap<HeaderValue>) -> Seq<(Seq<u8>, Seq<Seq<u8>>)>;

/// The number of distinct names below which adding to a collection always
/// succeeds.
pub const MAX_HEADER_NAMES: usize = 4096;

/// The longest header name that is accepted.
pub const MAX_HEADER_NAME_LEN: usize = 65535;

/// Whether `s` is accepted as a header name: between 1 and 65535 token bytes.
pub open spec fn is_header_name(s: Seq<u8>) -> bool {
    &&& 0 < s.len() <= MAX_HEADER_NAME_LEN
    &&& forall|i: int| 0 <= i < s.len() ==> is_token_byte(#[trigger] s[i])
}

/// Whether `s` can be the bytes of a header name that exists: between 1 and
/// 65535 bytes, each a token byte that is no upper-case letter, or a double
/// quote. Names that are parsed from bytes are token bytes only; names that
/// are made from lower-case text may hold the double quote as well.
pub open spec fn is_stored_name(s: Seq<u8>) -> bool {
    &&& 0 < s.len() <= MAX_HEADER_NAME_LEN
    &&& forall|i: int|
        0 <= i < s.len() ==> (is_token_byte(#[trigger] s[i]) || s[i] == 0x22) && !(0x41 <= s[i]
            <= 0x5a)
}

/// Whether `b` may stand in a header value: a tab, or any byte from the space
/// on but for the delete character.
pub open spec fn is_value_byte(b: u8) -> bool {
    (b >= 32 && b != 127) || b == 9
}

/// Whether `s` is accepted as a header value.
pub open spec fn is_header_value(s: Seq<u8>) -> bool {
    forall|i: int| 0 <= i < s.len() ==> is_value_byte(#[trigger] s[i])
}

/// Whether no two groups have the same name, as it is in every collection.
pub open spec fn distinct_names(groups: Seq<(Seq<u8>, Seq<Seq<u8>>)>) -> bool {
    forall|i: int, j: int|
        0 <= i < j < groups.len() ==> (#[trigger] groups[i]).0 != (#[trigger] groups[j]).0
}

/// The names of the groups, in order.
pub open spec fn names_of(groups: Seq<(Seq<u8>, Seq<Seq<u8>>)>) -> Seq<Seq<u8>> {
    groups.map_values(|group: (Seq<u8>, Seq<Seq<u8>>)| group.0)
}

/// Whether some group has the name `name`.
pub open spec fn has_name(groups: Seq<(Seq<u8>, Seq<Seq<u8>>)>, name: Seq<u8>) -> bool {
    exists|i: int| 0 <= i < groups.len() && (#[trigger] groups[i]).0 == name
}

/// The position of a group named `name`, where there is one.
pub open spec fn position(groups: Seq<(Seq<u8>, Seq<Seq<u8>>)>, name: Seq<u8>) -> int {
    choose|i: int| 0 <= i < groups.len() && (#[trigger] groups[i]).0 == name
}

/// The values stored under `name`: none where no group has that name.
pub open spec fn values_of(groups: Seq<(Seq<u8>, Seq<Seq<u8>>)>, name: Seq<u8>) -> Seq<Seq<u8>> {
    if has_name(groups, name) {
        groups[position(groups, name)].1
    } else {
        Seq::empty()
    }
}

/// The groups after `value` was added under `name`: behind the values that
/// the name has already, or as a new last group.
pub open spec fn appended(groups: Seq<(Seq<u8>, Seq<Seq<u8>>)>, name: Seq<u8>, value: Seq<u8>) -> Seq<
    (Seq<u8>, Seq<Seq<u8>>),
> {
    if has_name(groups, name) {
        let i = position(groups, name);
        groups.update(i, (name, groups[i].1.push(value)))
    } else {
        groups.push((name, seq![value]))
    }
}

/// The groups after `value` was set as the only value of `name`: in the place
/// of the values that the name had, or as a new last group.
pub open spec fn inserted(groups: Seq<(Seq<u8>, Seq<Seq<u8>>)>, name: Seq<u8>, value: Seq<u8>) -> Seq<
    (Seq<u8>, Seq<Seq<u8>>),
> {
    if has_name(groups, name) {
        groups.update(position(groups, name), (name, seq![value]))
    } else {
        groups.push((name, seq![value]))
    }
}

/// The pairs of one group: its name with each of its values.
pub open spec fn group_pairs(group: (Seq<u8>, Seq<Seq<u8>>)) -> Seq<(Seq<u8>, Seq<u8>)> {
    Seq::new(group.1.len(), |i: int| (group.0, group.1[i]))
}

/// The pairs of name and value in the order in which the collection is walked.
pub open spec fn pairs(groups: Seq<(Seq<u8>, Seq<Seq<u8>>)>) -> Seq<(Seq<u8>, Seq<u8>)>
    decreases groups.len(),
{
    if groups.len() == 0 {
        Seq::empty()
    } else {
        pairs(groups.drop_last()) + group_pairs(groups.last())
    }
}

/// Adding under a name changes no other name and adds at most one group.
pub proof fn lemma_appended(groups: Seq<(Seq<u8>, Seq<Seq<u8>>)>, name: Seq<u8>, value: Seq<u8>)
    ensures
        groups.len() <= appended(groups, name, value).len() <= groups.len() + 1,
        has_name(groups, name) ==> appended(groups, name, value).len() == groups.len(),
        !has_name(groups, name) ==> appended(groups, name, value).len() == groups.len() + 1,
        has_name(appended(groups, name, value), name),
        forall|j: int|
            0 <= j < appended(groups, name, value).len() ==> {
                ||| (#[trigger] appended(groups, name, value)[j]).0 == name
                ||| (j < groups.len() && appended(groups, name, value)[j].0 == groups[j].0)
            },
        forall|j: int|
            0 <= j < groups.len() ==> (#[trigger] appended(groups, name, value)[j]).0
                == groups[j].0,
{
    let after = appended(groups, name, value);
    if has_name(groups, name) {
        let i = position(groups, name);
        assert(after[i].0 == name);
    } else {
        assert(after[groups.len() as int].0 == name);
    }
}

/// Setting the value of a name changes no other name and adds at most one
/// group.
pub proof fn lemma_inserted(groups: Seq<(Seq<u8>, Seq<Seq<u8>>)>, name: Seq<u8>, value: Seq<u8>)
    ensures
        groups.len() <= inserted(groups, name, value).len() <= groups.len() + 1,
        has_name(groups, name) ==> inserted(groups, name, value).len() == groups.len(),
        !has_name(groups, name) ==> inserted(groups, name, value).len() == groups.len() + 1,
        has_name(inserted(groups, name, value), name),
        forall|j: int|
            0 <= j < inserted(groups, name, value).len() ==> {
                ||| (#[trigger] inserted(groups, name, value)[j]).0 == name
                ||| (j < groups.len() && inserted(groups, name, value)[j].0 == groups[j].0)
            },
{
    let after = inserted(groups, name, value);
    if has_name(groups, name) {
        let i = position(groups, name);
        assert(after[i].0 == name);
    } else {
        assert(after[groups.len() as int].0 == name);
    }
}

/// Where no two groups share a name, the group of a name is the one at
/// which the name stands.
pub proof fn lemma_position(groups: Seq<(Seq<u8>, Seq<Seq<u8>>)>, i: int)
    requires
        distinct_names(groups),
        0 <= i < groups.len(),
    ensures
        has_name(groups, groups[i].0),
        position(groups, groups[i].0) == i,
        values_of(groups, groups[i].0) == groups[i].1,
{
    let name = groups[i].0;
    assert(has_name(groups, name));
    let p = position(groups, name);
    if p < i {
        assert(groups[p].0 != groups[i].0);
    } else if i < p {
        assert(groups[i].0 != groups[p].0);
    }
}

/// Adding under a name keeps the names distinct, puts the value behind the
/// values that the name had, and leaves the values of every other name as
/// they were.
pub proof fn lemma_appended_values(groups: Seq<(Seq<u8>, Seq<Seq<u8>>)>, name: Seq<u8>, value: Seq<u8>)
    requires
        distinct_names(groups),
    ensures
        distinct_names(appended(groups, name, value)),
        values_of(appended(groups, name, value), name) == values_of(groups, name).push(value),
        forall|other: Seq<u8>|
            other != name ==> #[trigger] values_of(appended(groups, name, value), other)
                == values_of(groups, other),
{
    let after = appended(groups, name, value);
    lemma_appended(groups, name, value);
    let at = if has_name(groups, name) {
        position(groups, name)
    } else {
        groups.len() as int
    };
    assert(after[at].0 == name);
    assert forall|i: int, j: int| 0 <= i < j < after.len() implies (#[trigger] after[i]).0 != (
    #[trigger] after[j]).0 by {
        if has_name(groups, name) {
            assert(after[i].0 == groups[i].0 && after[j].0 == groups[j].0);
        } else {
            if j < groups.len() {
                assert(after[i].0 == groups[i].0 && after[j].0 == groups[j].0);
            } else {
                assert(after[i].0 == groups[i].0);
                assert(!has_name(groups, name));
            }
        }
    }
    lemma_position(after, at);
    if has_name(groups, name) {
        lemma_position(groups, at);
    } else {
        assert(values_of(groups, name).push(value) =~= seq![value]);
    }
    assert forall|other: Seq<u8>| other != name implies #[trigger] values_of(after, other)
        == values_of(groups, other) by {
        if has_name(groups, other) {
            let k = position(groups, other);
            assert(after[k] == groups[k]);
            lemma_position(groups, k);
            lemma_position(after, k);
        } else if has_name(after, other) {
            let k = position(after, other);
            assert(k < groups.len() ==> after[k].0 == groups[k].0);
        }
    }
}

/// Setting the value of a name keeps the names distinct, makes the value the
/// only one of the name, and leaves the values of every other name as they
/// were.
pub proof fn lemma_inserted_values(groups: Seq<(Seq<u8>, Seq<Seq<u8>>)>, name: Seq<u8>, value: Seq<u8>)
    requires
        distinct_names(groups),
    ensures
        distinct_names(inserted(groups, name, value)),
        values_of(inserted(groups, name, value), name) == seq![value],
        forall|other: Seq<u8>|
            other != name ==> #[trigger] values_of(inserted(groups, name, value), other)
                == values_of(groups, other),
{
    let after = inserted(groups, name, value);
    lemma_inserted(groups, name, value);
    let at = if has_name(groups, name) {
        position(groups, name)
    } else {
        groups.len() as int
    };
    assert(after[at].0 == name);
    assert forall|i: int, j: int| 0 <= i < j < after.len() implies (#[trigger] after[i]).0 != (
    #[trigger] after[j]).0 by {
        if has_name(groups, name) {
            assert(after[i].0 == groups[i].0 && after[j].0 == groups[j].0);
        } else {
            if j < groups.len() {
                assert(after[i].0 == groups[i].0 && after[j].0 == groups[j].0);
            } else {
                assert(after[i].0 == groups[i].0);
                assert(!has_name(groups, name));
            }
        }
    }
    lemma_position(after, at);
    assert forall|other: Seq<u8>| other != name implies #[trigger] values_of(after, other)
        == values_of(groups, other) by {
        if has_name(groups, other) {
            let k = position(groups, other);
            assert(after[k] == groups[k]);
            lemma_position(groups, k);
            lemma_position(after, k);
        } else if has_name(after, other) {
            let k = position(after, other);
            assert(k < groups.len() ==> after[k].0 == groups[k].0);
        }
    }
}

/// Groups with distinct names, each of which is a name of `within`, are no
/// more than the groups of `within`.
pub proof fn lemma_names_bound(groups: Seq<(Seq<u8>, Seq<Seq<u8>>)>, within: Seq<(Seq<u8>, Seq<Seq<u8>>)>)
    requires
        distinct_names(groups),
        forall|i: int| 0 <= i < groups.len() ==> has_name(within, (#[trigger] groups[i]).0),
    ensures
        groups.len() <= within.len(),
{
    broadcast use vstd::seq_lib::seq_to_set_is_finite;

    let a = names_of(groups);
    let b = names_of(within);
    assert(a.no_duplicates()) by {
        assert forall|i: int, j: int| 0 <= i < a.len() && 0 <= j < a.len() && i != j implies a[i]
            != a[j] by {
            if i < j {
                assert(groups[i].0 != groups[j].0);
            } else {
                assert(groups[j].0 != groups[i].0);
            }
        }
    }
    a.unique_seq_to_set();
    b.lemma_cardinality_of_set();
    assert(a.to_set().subset_of(b.to_set())) by {
        assert forall|name: Seq<u8>| a.to_set().contains(name) implies b.to_set().contains(name) by {
            let i = choose|i: int| 0 <= i < a.len() && a[i] == name;
            assert(has_name(within, groups[i].0));
            let k = choose|k: int| 0 <= k < within.len() && (#[trigger] within[k]).0 == name;
            assert(b[k] == name);
        }
    }
    vstd::set_lib::lemma_len_subset(a.to_set(), b.to_set());
}

/// Every pair of a collection has the name of one of its groups.
pub proof fn lemma_pairs_names(groups: Seq<(Seq<u8>, Seq<Seq<u8>>)>)
    ensures
        forall|i: int|
            0 <= i < pairs(groups).len() ==> has_name(groups, (#[trigger] pairs(groups)[i]).0),
    decreases groups.len(),
{
    if groups.len() > 0 {
        let front = groups.drop_last();
        lemma_pairs_names(front);
        assert forall|i: int| 0 <= i < pairs(groups).len() implies has_name(
            groups,
            (#[trigger] pairs(groups)[i]).0,
        ) by {
            if i < pairs(front).len() {
                assert(pairs(groups)[i] == pairs(front)[i]);
                let k = choose|k: int| 0 <= k < front.len() && (#[trigger] front[k]).0 == pairs(
                    front,
                )[i].0;
                assert(groups[k] == front[k]);
            } else {
                assert(pairs(groups)[i].0 == groups.last().0);
                assert(groups[groups.len() - 1].0 == groups.last().0);
            }
        }
    }
}

/// `HeaderName::from_bytes`: a name is accepted where it has between 1 and
/// 65535 bytes and all of them are token characters; it is kept in lower case.
#[verifier::external_body]
pub(crate) fn header_name_from_bytes(src: &[u8]) -> (r: Option<HeaderName>)
    ensures
        r.is_some() == is_header_name(src@),
        r matches Some(name) ==> header_name_bytes(name) == lower(src@),
{
    HeaderName::from_bytes(src).ok()
}

/// `HeaderName::as_str`: the bytes of the name, which are a stored name.
#[verifier::external_body]
pub(crate) fn header_name_as_bytes(name: &HeaderName) -> (r: &[u8])
    ensures
        r@ == header_name_bytes(*name),
        is_stored_name(r@),
        lower(r@) == r@,
{
    name.as_str().as_bytes()
}

/// `HeaderValue::from_bytes`: a value is accepted where each byte is a tab or
/// at least 32 and not 127; it is kept as it is.
#[verifier::external_body]
pub(crate) fn header_value_from_bytes(src: &[u8]) -> (r: Option<HeaderValue>)
    ensures
        r.is_some() == is_header_value(src@),
        r matches Some(value) ==> header_value_bytes(value) == src@,
{
    HeaderValue::from_bytes(src).ok()
}

/// `HeaderValue::as_bytes`: the bytes of the value.
#[verifier::external_body]
pub(crate) fn header_value_as_bytes(value: &HeaderValue) -> (r: &[u8])
    ensures
        r@ == header_value_bytes(*value),
        is_header_value(r@),
{
    value.as_bytes()
}

/// `HeaderMap::keys_len`: the number of groups.
#[verifier::external_body]
pub(crate) fn header_map_names(map: &HeaderMap<HeaderValue>) -> (r: usize)
    ensures
        r == header_map_groups(*map).len(),
{
    map.keys_len()
}

/// `HeaderMap::new`: a collection without groups.
#[verifier::external_body]
pub(crate) fn header_map_new() -> (r: HeaderMap<HeaderValue>)
    ensures
        header_map_groups(r) == Seq::<(Seq<u8>, Seq<Seq<u8>>)>::empty(),
        distinct_names(header_map_groups(r)),
{
    HeaderMap::new()
}

/// `HeaderMap::append`: the value goes behind the values that the name has
/// already, or the name becomes the last group; no two groups have the same
/// name. The call panics when the collection cannot grow, which takes
/// several thousand names.
#[verifier::external_body]
pub(crate) fn header_map_append(map: &mut HeaderMap<HeaderValue>, name: &HeaderName, value: &HeaderValue)
    requires
        header_map_groups(*old(map)).len() < MAX_HEADER_NAMES,
    ensures
        header_map_groups(*final(map)) == appended(
            header_map_groups(*old(map)),
            header_name_bytes(*name),
            header_value_bytes(*value),
        ),
        distinct_names(header_map_groups(*final(map))),
{
    map.append(name, value.clone());
}

/// `HeaderMap::insert`: the value takes the place of the values that the name
/// has, or the name becomes the last group; no two groups have the same
/// name. The call panics when the collection cannot grow, which takes
/// several thousand names.
#[verifier::external_body]
pub(crate) fn header_map_insert(map: &mut HeaderMap<HeaderValue>, name: &HeaderName, value: &HeaderValue)
    requires
        header_map_groups(*old(map)).len() < MAX_HEADER_NAMES,
    ensures
        header_map_groups(*final(map)) == inserted(
            header_map_groups(*old(map)),
            header_name_bytes(*name),
            header_value_bytes(*value),
        ),
        distinct_names(header_map_groups(*final(map))),
{
    map.insert(name, value.clone());
}

/// `HeaderMap::clone`: the copy holds the same groups, no two of them with
/// the same name.
#[verifier::external_body]
pub(crate) fn header_map_clone(map: &HeaderMap<HeaderValue>) -> (r: HeaderMap<HeaderValue>)
    ensures
        header_map_groups(r) == header_map_groups(*map),
        distinct_names(header_map_groups(r)),
{
    map.clone()
}

/// `HeaderMap::contains_key`: whether a group has the name.
#[verifier::external_body]
pub(crate) fn header_map_contains(map: &HeaderMap<HeaderValue>, name: &HeaderName) -> (r: bool)
    ensures
        r == has_name(header_map_groups(*map), header_name_bytes(*name)),
{
    map.contains_key(name)
}

/// `HeaderMap::get_all`: the values stored under the name, oldest first.
#[verifier::external_body]
pub(crate) fn header_map_get_all(map: &HeaderMap<HeaderValue>, name: &HeaderName) -> (r: Vec<
    HeaderValue,
>)
    ensures
        r@.map_values(|v: HeaderValue| header_value_bytes(v)) == values_of(
            header_map_groups(*map),
            header_name_bytes(*name),
        ),
{
    map.get_all(name).iter().cloned().collect()
}

/// `HeaderMap::iter`: every name with every one of its values, group by group.
#[verifier::external_body]
pub(crate) fn header_map_pairs(map: &HeaderMap<HeaderValue>) -> (r: Vec<(HeaderName, HeaderValue)>)
    ensures
        r@.map_values(|p: (HeaderName, HeaderValue)| (header_name_bytes(p.0), header_value_bytes(p.1)))
            == pairs(header_map_groups(*map)),
{
    map.iter().map(|(name, value)| (name.clone(), value.clone())).collect()
}

/// A collection without headers.
pub fn new_map() -> (r: HeaderMap<HeaderValue>)
    ensures
        header_map_groups(r) == Seq::<(Seq<u8>, Seq<Seq<u8>>)>::empty(),
        distinct_names(header_map_groups(r)),
{
    header_map_new()
}

/// The number of names in a collection.
pub fn names_len(map: &HeaderMap<HeaderValue>) -> (r: usize)
    ensures
        r == header_map_groups(*map).len(),
{
    header_map_names(map)
}

/// Whether a collection has a header of this name.
pub fn contains(map: &HeaderMap<HeaderValue>, name: &HeaderName) -> (r: bool)
    ensures
        r == has_name(header_map_groups(*map), header_name_bytes(*name)),
{
    header_map_contains(map, name)
}

/// The header name that `src` spells, where it is one; it is kept in lower
/// case.
pub fn parse_name(src: &[u8]) -> (r: Option<HeaderName>)
    ensures
        r.is_some() == is_header_name(src@),
        r matches Some(name) ==> header_name_bytes(name) == lower(src@),
{
    header_name_from_bytes(src)
}

/// The header value that `src` spells, where it is one.
pub fn parse_value(src: &[u8]) -> (r: Option<HeaderValue>)
    ensures
        r.is_some() == is_header_value(src@),
        r matches Some(value) ==> header_value_bytes(value) == src@,
{
    header_value_from_bytes(src)
}

/// Adds a header to a collection, behind the values that its name has
/// already. A collection that holds `MAX_HEADER_NAMES` names or more takes
/// no header; the answer says whether the header was added.
pub fn append(map: &mut HeaderMap<HeaderValue>, name: &HeaderName, value: &HeaderValue) -> (r: bool)
    ensures
        r == (header_map_groups(*old(map)).len() < MAX_HEADER_NAMES),
        r ==> header_map_groups(*final(map)) == appended(
            header_map_groups(*old(map)),
            header_name_bytes(*name),
            header_value_bytes(*value),
        ),
        r ==> distinct_names(header_map_groups(*final(map))),
        !r ==> header_map_groups(*final(map)) == header_map_groups(*old(map)),
{
    if header_map_names(map) < MAX_HEADER_NAMES {
        header_map_append(map, name, value);
        true
    } else {
        false
    }
}

/// The header name that the ASCII literal `text` spells.
pub fn literal_name(text: &'static str) -> (r: HeaderName)
    requires
        text.is_ascii(),
        is_header_name(bytes_of(text@)),
    ensures
        header_name_bytes(r) == lower(bytes_of(text@)),
{
    match header_name_from_bytes(literal(text)) {
        Some(name) => name,
        None => vstd::pervasive::unreached(),
    }
}

/// The header value that the ASCII literal `text` spells.
pub fn literal_value(text: &'static str) -> (r: HeaderValue)
    requires
        text.is_ascii(),
        is_header_value(bytes_of(text@)),
    ensures
        header_value_bytes(r) == bytes_of(text@),
{
    match header_value_from_bytes(literal(text)) {
        Some(value) => value,
        None => vstd::pervasive::unreached(),
    }
}

} // verus!
