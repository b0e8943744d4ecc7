//! JSON values as plain data, read and written with `serde_json`.

use vstd::hash_map::StringHashMap;
use vstd::prelude::*;

use crate::text::same_text;

verus! {

/// A `serde_json` number, carried through unread.
#[verifier::external_type_specification]
#[verifier::external_body]
pub struct ExNumber(serde_json::Number);

/// A `serde_json` value; [`value_json`] names what it holds.
#[verifier::external_type_specification]
#[verifier::external_body]
pub struct ExValue(serde_json::Value);

/// The mathematical content of a JSON value.
pub enum JsonView {
    Null,
    Bool(bool),
    Number(serde_json::Number),
    Text(Seq<char>),
    Array(Seq<JsonView>),
    Object(Map<Seq<char>, JsonView>),
}

impl JsonView {
    /// The member `key` of an object; nothing for any other value.
    pub open spec fn member(self, key: Seq<char>) -> Option<JsonView> {
        match self {
            JsonView::Object(members) => if members.dom().contains(key) {
                Some(members[key])
            } else {
                None
            },
            _ => None,
        }
    }

    /// Whether arrays and objects nest at most `depth` deep.
    pub open spec fn nests_within(self, depth: nat) -> bool
        decreases depth,
    {
        match self {
            JsonView::Array(items) => depth > 0 && forall|i: int|
                0 <= i < items.len() ==> (#[trigger] items[i]).nests_within((depth - 1) as nat),
            JsonView::Object(members) => depth > 0 && forall|key: Seq<char>| #[trigger]
                members.dom().contains(key) ==> members[key].nests_within((depth - 1) as nat),
            _ => true,
        }
    }

    /// Whether every number in the value is an unsigned 64-bit integer.
    ///
    /// `depth` bounds how deep arrays and objects nest.
    pub open spec fn holds_only_unsigned(self, depth: nat) -> bool
        decreases depth,
    {
        match self {
            JsonView::Number(number) => exists|n: u64| number == #[trigger] unsigned_number(n),
            JsonView::Array(items) => depth > 0 && forall|i: int|
                0 <= i < items.len() ==> (#[trigger] items[i]).holds_only_unsigned(
                    (depth - 1) as nat,
                ),
            JsonView::Object(members) => depth > 0 && forall|key: Seq<char>| #[trigger]
                members.dom().contains(key) ==> members[key].holds_only_unsigned(
                (depth - 1) as nat,
            ),
            _ => true,
        }
    }
}

/// How deep arrays and objects may nest in a JSON text.
pub const MAX_NESTING: usize = 127;

/// Members put into an object one after the other, a later one replacing an
/// earlier one of the same key.
pub open spec fn object_of(members: Seq<(Seq<char>, JsonView)>) -> Map<Seq<char>, JsonView>
    decreases members.len(),
{
    if members.len() == 0 {
        Map::empty()
    } else {
        object_of(members.drop_last()).insert(members.last().0, members.last().1)
    }
}

/// A JSON value.
///
/// An object is the list of its members; of two members with one key the later counts.
#[derive(Debug)]
pub enum Json {
    Null,
    Bool(bool),
    Number(serde_json::Number),
    Text(String),
    Array(Vec<Json>),
    Object(Vec<(String, Json)>),
}

/// What a JSON value holds.
pub open spec fn json_view(json: Json) -> JsonView
    decreases json,
{
    match json {
        Json::Null => JsonView::Null,
        Json::Bool(flag) => JsonView::Bool(flag),
        Json::Number(number) => JsonView::Number(number),
        Json::Text(text) => JsonView::Text(text@),
        Json::Array(items) => JsonView::Array(items_view(items@)),
        Json::Object(members) => JsonView::Object(object_of(members_view(members@))),
    }
}

/// What each of a list of JSON values holds.
pub open spec fn items_view(items: Seq<Json>) -> Seq<JsonView>
    decreases items,
{
    Seq::new(
        items.len(),
        |i: int|
            if 0 <= i < items.len() {
                json_view(items[i])
            } else {
                JsonView::Null
            },
    )
}

/// The key of each member of a list, with what the member holds.
pub open spec fn members_view(members: Seq<(String, Json)>) -> Seq<(Seq<char>, JsonView)>
    decreases members,
{
    Seq::new(
        members.len(),
        |i: int|
            if 0 <= i < members.len() {
                (members[i].0@, json_view(members[i].1))
            } else {
                (Seq::empty(), JsonView::Null)
            },
    )
}

impl View for Json {
    type V = JsonView;

    open spec fn view(&self) -> JsonView {
        json_view(*self)
    }
}

/// What a `serde_json` value holds.
pub uninterp spec fn value_json(value: serde_json::Value) -> JsonView;

/// The number that `serde_json` makes of an unsigned integer.
pub uninterp spec fn unsigned_number(n: u64) -> serde_json::Number;

/// What a text reads as in JSON, or the message that says why it is not JSON.
pub uninterp spec fn parsed_json(raw: Seq<char>) -> Result<JsonView, Seq<char>>;

/// Whether a text is JSON for `value`.
pub open spec fn reads_as(raw: Seq<char>, value: JsonView) -> bool {
    parsed_json(raw) == Ok::<JsonView, Seq<char>>(value)
}

/// The compact JSON text of a value.
pub uninterp spec fn json_text(value: JsonView) -> Seq<char>;

/// One level of a `serde_json` value.
enum ValueParts {
    Null,
    Bool(bool),
    Number(serde_json::Number),
    Text(String),
    Array(Vec<serde_json::Value>),
    Object(Vec<(String, serde_json::Value)>),
}

spec fn parts_json(parts: ValueParts) -> JsonView {
    match parts {
        ValueParts::Null => JsonView::Null,
        ValueParts::Bool(flag) => JsonView::Bool(flag),
        ValueParts::Number(number) => JsonView::Number(number),
        ValueParts::Text(text) => JsonView::Text(text@),
        ValueParts::Array(items) => JsonView::Array(
            Seq::new(items@.len(), |i: int| value_json(items@[i])),
        ),
        ValueParts::Object(members) => JsonView::Object(
            object_of(
                Seq::new(members@.len(), |i: int| (members@[i].0@, value_json(members@[i].1))),
            ),
        ),
    }
}

/// Whether no two members of an object's parts have one key.
spec fn parts_distinct(parts: ValueParts) -> bool {
    match parts {
        ValueParts::Object(members) => forall|i: int, j: int|
            0 <= i < j < members@.len() ==> (#[trigger] members@[i]).0@ != (
            #[trigger] members@[j]).0@,
        _ => true,
    }
}

/// Takes a `serde_json::Value` apart, one level deep.
///
/// Trusted: the parts hold what the value holds. The members of a
/// `serde_json::Map` come out of `into_iter`, each key once.
#[verifier::external_body]
fn take_apart(value: serde_json::Value) -> (parts: ValueParts)
    ensures
        parts_json(parts) == value_json(value),
        parts_distinct(parts),
{
    match value {
        serde_json::Value::Null => ValueParts::Null,
        serde_json::Value::Bool(flag) => ValueParts::Bool(flag),
        serde_json::Value::Number(number) => ValueParts::Number(number),
        serde_json::Value::String(text) => ValueParts::Text(text),
        serde_json::Value::Array(items) => ValueParts::Array(items),
        serde_json::Value::Object(members) => ValueParts::Object(members.into_iter().collect()),
    }
}

/// Puts a `serde_json::Value` together from its parts.
///
/// Trusted: the value holds what the parts hold. `serde_json::Map` is collected
/// from members of different keys, of which none displaces another.
#[verifier::external_body]
fn put_together(parts: ValueParts) -> (value: serde_json::Value)
    requires
        parts_distinct(parts),
    ensures
        value_json(value) == parts_json(parts),
{
    match parts {
        ValueParts::Null => serde_json::Value::Null,
        ValueParts::Bool(flag) => serde_json::Value::Bool(flag),
        ValueParts::Number(number) => serde_json::Value::Number(number),
        ValueParts::Text(text) => serde_json::Value::String(text),
        ValueParts::Array(items) => serde_json::Value::Array(items),
        ValueParts::Object(members) => serde_json::Value::Object(members.into_iter().collect()),
    }
}

/// Copies a number.
///
/// Trusted: the copy that `serde_json::Number`'s `clone` makes is the number itself.
pub assume_specification[ <serde_json::Number as Clone>::clone ](
    number: &serde_json::Number,
) -> (copy: serde_json::Number)
    ensures
        copy == *number,
;

/// The JSON number of an unsigned integer, by `serde_json::Number::from`.
///
/// Trusted: the number depends on `n` alone.
#[verifier::external_body]
fn number_from(n: u64) -> (number: serde_json::Number)
    ensures
        number == unsigned_number(n),
{
    serde_json::Number::from(n)
}

/// Reads a JSON text with `serde_json::from_str`.
///
/// Trusted: value and error message depend on the text alone, and the parser's
/// recursion limit bounds how deep the value nests.
#[verifier::external_body]
fn value_from_text(raw: &str) -> (read: Result<serde_json::Value, String>)
    ensures
        match read {
            Ok(value) => reads_as(raw@, value_json(value)) && value_json(value).nests_within(
                MAX_NESTING as nat,
            ),
            Err(message) => parsed_json(raw@) == Err::<JsonView, Seq<char>>(message@),
        },
{
    match serde_json::from_str(raw) {
        Ok(value) => Ok(value),
        Err(error) => Err(error.to_string()),
    }
}

/// Writes a JSON value as compact text with the `Display` of `serde_json::Value`.
///
/// Trusted: the text depends on what the value holds alone; and where no number
/// but unsigned integers occurs and the nesting is within the parser's limit, the
/// parser reads the same value back from it.
#[verifier::external_body]
fn text_of_value(value: &serde_json::Value) -> (text: String)
    ensures
        text@ == json_text(value_json(*value)),
        value_json(*value).holds_only_unsigned(MAX_NESTING as nat) ==> reads_as(
            text@,
            value_json(*value),
        ),
{
    value.to_string()
}

/// The value as plain data.
pub(crate) fn json_from_value(value: serde_json::Value, depth: usize) -> (json: Json)
    requires
        value_json(value).nests_within(depth as nat),
    ensures
        json@ == value_json(value),
    decreases depth,
{
    match take_apart(value) {
        ValueParts::Null => Json::Null,
        ValueParts::Bool(flag) => Json::Bool(flag),
        ValueParts::Number(number) => Json::Number(number),
        ValueParts::Text(text) => Json::Text(text),
        ValueParts::Array(items) => {
            let ghost view = value_json(value);
            let ghost all = items@;
            let mut list: Vec<Json> = Vec::new();
            for item in iter: items
                invariant
                    iter.seq() == all,
                    depth > 0,
                    view == JsonView::Array(Seq::new(all.len(), |i: int| value_json(all[i]))),
                    view.nests_within(depth as nat),
                    list@.len() == iter.index(),
                    forall|j: int|
                        0 <= j < list@.len() ==> json_view(#[trigger] list@[j]) == value_json(
                            all[j],
                        ),
            {
                assert(value_json(item) == view->Array_0[iter.index() as int]);
                list.push(json_from_value(item, depth - 1));
            }
            let json = Json::Array(list);
            assert(json@->Array_0 =~= view->Array_0);
            json
        },
        ValueParts::Object(members) => {
            let ghost view = value_json(value);
            let ghost all = members@;
            let ghost pairs = Seq::new(all.len(), |i: int| (all[i].0@, value_json(all[i].1)));
            let mut list: Vec<(String, Json)> = Vec::new();
            for member in iter: members
                invariant
                    iter.seq() == all,
                    depth > 0,
                    pairs == Seq::new(all.len(), |i: int| (all[i].0@, value_json(all[i].1))),
                    forall|i: int, j: int|
                        0 <= i < j < pairs.len() ==> (#[trigger] pairs[i]).0 != (
                        #[trigger] pairs[j]).0,
                    view == JsonView::Object(object_of(pairs)),
                    view.nests_within(depth as nat),
                    list@.len() == iter.index(),
                    forall|j: int|
                        0 <= j < list@.len() ==> (#[trigger] list@[j]).0@ == all[j].0@
                            && json_view(list@[j].1) == value_json(all[j].1),
            {
                proof {
                    let i = iter.index() as int;
                    lemma_object_of_last(pairs, i);
                    assert(pairs[i] == (member.0@, value_json(member.1)));
                    assert(view->Object_0.dom().contains(member.0@));
                }
                list.push((member.0, json_from_value(member.1, depth - 1)));
            }
            let json = Json::Object(list);
            proof {
                assert(members_view(list@) =~= pairs);
            }
            json
        },
    }
}

/// A member that no later one shadows is the one that the object holds.
proof fn lemma_object_of_last(members: Seq<(Seq<char>, JsonView)>, i: int)
    requires
        0 <= i < members.len(),
        forall|j: int| i < j < members.len() ==> (#[trigger] members[j]).0 != members[i].0,
    ensures
        object_of(members).dom().contains(members[i].0),
        object_of(members)[members[i].0] == members[i].1,
    decreases members.len(),
{
    if i < members.len() - 1 {
        let front = members.drop_last();
        assert(forall|j: int| i < j < front.len() ==> front[j] == members[j]);
        lemma_object_of_last(front, i);
    }
}

/// An object has no member whose key is not in its list.
proof fn lemma_object_of_absent(members: Seq<(Seq<char>, JsonView)>, key: Seq<char>)
    requires
        forall|j: int| 0 <= j < members.len() ==> (#[trigger] members[j]).0 != key,
    ensures
        !object_of(members).dom().contains(key),
    decreases members.len(),
{
    if members.len() > 0 {
        let front = members.drop_last();
        assert(forall|j: int| 0 <= j < front.len() ==> front[j] == members[j]);
        lemma_object_of_absent(front, key);
    }
}

/// A member whose key no other has, replaced in place, is replaced in the object.
proof fn lemma_object_of_update(members: Seq<(Seq<char>, JsonView)>, i: int, value: JsonView)
    requires
        0 <= i < members.len(),
        forall|j: int, k: int|
            0 <= j < k < members.len() ==> (#[trigger] members[j]).0 != (#[trigger] members[k]).0,
    ensures
        object_of(members.update(i, (members[i].0, value))) == object_of(members).insert(
            members[i].0,
            value,
        ),
    decreases members.len(),
{
    let after = members.update(i, (members[i].0, value));
    let last = members.len() - 1;
    if i == last {
        assert(after.drop_last() =~= members.drop_last());
        assert(object_of(after) =~= object_of(members).insert(members[i].0, value));
    } else {
        let front = members.drop_last();
        assert(after.drop_last() =~= front.update(i, (front[i].0, value)));
        assert(members[i].0 != members[last].0);
        lemma_object_of_update(front, i, value);
        assert(object_of(after) =~= object_of(members).insert(members[i].0, value));
    }
}

/// The key of each of a list of members, with what the member holds.
spec fn value_members(members: Seq<(String, serde_json::Value)>) -> Seq<(Seq<char>, JsonView)> {
    Seq::new(members.len(), |i: int| (members[i].0@, value_json(members[i].1)))
}

/// Whether an index tells where the one member of each key stands.
spec fn locates(index: Map<Seq<char>, usize>, members: Seq<(String, serde_json::Value)>) -> bool {
    &&& forall|key: Seq<char>| #[trigger]
        index.contains_key(key) ==> index[key] < members.len() && members[index[key] as int].0@
            == key
    &&& forall|i: int|
        0 <= i < members.len() ==> index.contains_key((#[trigger] members[i]).0@)
            && index[members[i].0@] == i
}

/// The plain data as a `serde_json` value.
///
/// Of the members of one key only the last is put into the value.
pub(crate) fn value_from_json(json: &Json) -> (value: serde_json::Value)
    ensures
        value_json(value) == json@,
    decreases json,
{
    match json {
        Json::Null => put_together(ValueParts::Null),
        Json::Bool(flag) => put_together(ValueParts::Bool(*flag)),
        Json::Number(number) => put_together(ValueParts::Number(number.clone())),
        Json::Text(text) => put_together(ValueParts::Text(text.clone())),
        Json::Array(items) => {
            let mut list: Vec<serde_json::Value> = Vec::new();
            let mut i: usize = 0;
            while i < items.len()
                invariant
                    *json == Json::Array(*items),
                    i <= items@.len(),
                    list@.len() == i,
                    forall|j: int|
                        0 <= j < i ==> value_json(#[trigger] list@[j]) == json_view(items@[j]),
                decreases items@.len() - i,
            {
                assert(decreases_to!(*json => json->Array_0[i as int]));
                list.push(value_from_json(&items[i]));
                i = i + 1;
            }
            proof {
                assert(Seq::new(list@.len(), |i: int| value_json(list@[i])) =~= json@->Array_0);
            }
            put_together(ValueParts::Array(list))
        },
        Json::Object(members) => {
            let ghost all = members_view(members@);
            let mut list: Vec<(String, serde_json::Value)> = Vec::new();
            let mut index: StringHashMap<usize> = StringHashMap::new();
            let mut i: usize = 0;
            assert(value_members(list@) =~= all.take(0));
            while i < members.len()
                invariant
                    *json == Json::Object(*members),
                    all == members_view(members@),
                    i <= members@.len(),
                    locates(index@, list@),
                    object_of(value_members(list@)) == object_of(all.take(i as int)),
                decreases members@.len() - i,
            {
                assert(decreases_to!(*json => json->Object_0[i as int].1));
                let value = value_from_json(&members[i].1);
                let key = members[i].0.clone();
                let ghost before = list@;
                let ghost member = (key@, value_json(value));
                let earlier = match index.get(key.as_str()) {
                    Some(k) => Some(*k),
                    None => None,
                };
                assert(all.take(i + 1).drop_last() =~= all.take(i as int));
                assert(all.take(i + 1).last() == member);
                match earlier {
                    Some(k) => {
                        list.set(k, (key, value));
                        proof {
                            assert(value_members(list@) =~= value_members(before).update(
                                k as int,
                                member,
                            ));
                            lemma_object_of_update(value_members(before), k as int, member.1);
                        }
                    },
                    None => {
                        index.insert(key.clone(), list.len());
                        list.push((key, value));
                        proof {
                            assert(value_members(list@) =~= value_members(before).push(member));
                            assert(value_members(list@).drop_last() =~= value_members(before));
                        }
                    },
                }
                i = i + 1;
            }
            assert(all.take(i as int) =~= all);
            put_together(ValueParts::Object(list))
        },
    }
}

impl Json {
    /// Reads a JSON text; the error is the parser's message.
    pub fn parse(raw: &str) -> (read: Result<Json, String>)
        ensures
            match read {
                Ok(json) => reads_as(raw@, json@),
                Err(message) => parsed_json(raw@) == Err::<JsonView, Seq<char>>(message@),
            },
    {
        match value_from_text(raw) {
            Ok(value) => Ok(json_from_value(value, MAX_NESTING)),
            Err(message) => Err(message),
        }
    }

    /// The compact JSON text of the value.
    ///
    /// Where no number but unsigned integers occurs, it reads as the value again.
    pub fn to_text(&self) -> (text: String)
        ensures
            text@ == json_text(self@),
            self@.holds_only_unsigned(MAX_NESTING as nat) ==> reads_as(text@, self@),
    {
        let value = value_from_json(self);
        text_of_value(&value)
    }

    /// The JSON number of an unsigned integer.
    pub fn unsigned(n: u64) -> (json: Json)
        ensures
            json@ == JsonView::Number(unsigned_number(n)),
    {
        Json::Number(number_from(n))
    }

    /// A JSON string.
    pub fn text(text: &str) -> (json: Json)
        ensures
            json@ == JsonView::Text(text@),
    {
        Json::Text(text.to_owned())
    }

    /// The member `key` of an object; nothing for any other value.
    pub fn member(&self, key: &str) -> (found: Option<&Json>)
        ensures
            match found {
                Some(json) => self@.member(key@) == Some(json@),
                None => self@.member(key@) is None,
            },
    {
        match self {
            Json::Object(members) => {
                let ghost pairs = members_view(members@);
                let mut i: usize = members.len();
                while i > 0
                    invariant
                        i <= members@.len(),
                        pairs.len() == members@.len(),
                        self@ == JsonView::Object(object_of(pairs)),
                        forall|j: int|
                            0 <= j < pairs.len() ==> #[trigger] pairs[j] == (
                                members@[j].0@,
                                json_view(members@[j].1),
                            ),
                        forall|j: int| i <= j < pairs.len() ==> (#[trigger] pairs[j]).0 != key@,
                    decreases i,
                {
                    i = i - 1;
                    if same_text(members[i].0.as_str(), key) {
                        proof {
                            assert(pairs[i as int].0 == key@);
                            lemma_object_of_last(pairs, i as int);
                        }
                        return Some(&members[i].1);
                    }
                }
                proof {
                    lemma_object_of_absent(pairs, key@);
                }
                None
            },
            _ => None,
        }
    }
}

/// A JSON value holds what it is made of.
pub proof fn law_json_holds_what_it_is_made_of(json: Json)
    ensures
        json is Null <==> json@ is Null,
        json matches Json::Bool(flag) ==> json@ == JsonView::Bool(flag),
        json matches Json::Number(number) ==> json@ == JsonView::Number(number),
        json matches Json::Text(text) ==> json@ == JsonView::Text(text@),
        json matches Json::Array(items) ==> json@ is Array && json@->Array_0.len() == items@.len()
            && forall|i: int|
            0 <= i < items@.len() ==> json@->Array_0[i] == (#[trigger] items@[i])@,
        json is Object <==> json@ is Object,
{
}

/// An object has a member for each key of its list: the last one of that key.
pub proof fn law_last_member_of_a_key_counts(members: Vec<(String, Json)>, i: int)
    requires
        0 <= i < members@.len(),
        forall|j: int| i < j < members@.len() ==> (#[trigger] members@[j]).0@ != members@[i].0@,
    ensures
        Json::Object(members)@ matches JsonView::Object(object) && object.contains_key(
            members@[i].0@,
        ) && object[members@[i].0@] == members@[i].1@,
        Json::Object(members)@.member(members@[i].0@) == Some(members@[i].1@),
{
    let pairs = members_view(members@);
    assert(forall|j: int| 0 <= j < pairs.len() ==> (#[trigger] pairs[j]).0 == members@[j].0@);
    lemma_object_of_last(pairs, i);
    assert(pairs[i].1 == members@[i].1@);
}

/// An object has no member of a key that its list does not have.
pub proof fn law_no_member_of_another_key(members: Vec<(String, Json)>, key: Seq<char>)
    requires
        forall|i: int| 0 <= i < members@.len() ==> (#[trigger] members@[i]).0@ != key,
    ensures
        Json::Object(members)@ matches JsonView::Object(object) && !object.contains_key(key),
        Json::Object(members)@.member(key) is None,
{
    let pairs = members_view(members@);
    assert(forall|j: int| 0 <= j < pairs.len() ==> (#[trigger] pairs[j]).0 == members@[j].0@);
    lemma_object_of_absent(pairs, key);
}

/// Only objects have members, and those that the object holds.
pub proof fn law_members_are_those_of_the_object(json: JsonView, key: Seq<char>)
    ensures
        json matches JsonView::Object(object) ==> json.member(key) == (if object.contains_key(key) {
            Some(object[key])
        } else {
            None
        }),
        !(json is Object) ==> json.member(key) is None,
{
}

/// A text reads as a value exactly if the parser reads that value from it.
pub proof fn law_reading_is_parsing(raw: Seq<char>, value: JsonView)
    ensures
        reads_as(raw, value) <==> parsed_json(raw) == Ok::<JsonView, Seq<char>>(value),
{
}

} // verus!
