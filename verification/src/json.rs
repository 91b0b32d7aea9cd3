//! JSON objects as far as a node looks into them: which members they have,
//! and which of these are whole numbers and which are texts.

use vstd::prelude::*;

verus! {

#[verifier::external_type_specification]
#[verifier::external_body]
pub struct ExValue(serde_json::Value);

/// What a JSON value is, as far as a node tells values apart.
pub enum Member {
    /// A whole number from zero up to the largest 64-bit number.
    Number(u64),
    /// A text.
    Text(Seq<char>),
    /// An object.
    Object,
    /// Anything else.
    Other,
}

/// The members of a JSON object, each as what it is; a value that is no
/// object has none.
pub uninterp spec fn members(value: serde_json::Value) -> Map<Seq<char>, Member>;

/// What a JSON value is.
pub uninterp spec fn shape(value: serde_json::Value) -> Member;

/// `serde_json::Value::get` with a text as index: the member of that name,
/// if `value` is an object and has one. The contract claims that the result
/// tells whether the name is among the members, that the member found is
/// what the members say of that name, and that only an object has members.
#[verifier::external_body]
fn value_get<'a>(value: &'a serde_json::Value, key: &str) -> (found: Option<&'a serde_json::Value>)
    ensures
        match found {
            Some(member) => {
                &&& shape(*value) is Object
                &&& members(*value).dom().contains(key@)
                &&& shape(*member) == members(*value)[key@]
            },
            None => !members(*value).dom().contains(key@),
        },
{
    value.get(key)
}

/// `serde_json::Value::as_u64`: the number, if the value is a whole number
/// from zero up to the largest 64-bit number, and nothing otherwise.
#[verifier::external_body]
fn value_as_u64(value: &serde_json::Value) -> (number: Option<u64>)
    ensures
        number == match shape(*value) {
            Member::Number(n) => Some(n),
            _ => None::<u64>,
        },
{
    value.as_u64()
}

/// `serde_json::Value::as_str`: the text, if the value is a text, and
/// nothing otherwise.
#[verifier::external_body]
fn value_as_str<'a>(value: &'a serde_json::Value) -> (text: Option<&'a str>)
    ensures
        match shape(*value) {
            Member::Text(characters) => text matches Some(found) && found@ == characters,
            _ => text is None,
        },
{
    value.as_str()
}

/// `serde_json::Value::is_object`: whether the value is an object.
#[verifier::external_body]
fn value_is_object(value: &serde_json::Value) -> (object: bool)
    ensures
        object == (shape(*value) is Object),
{
    value.is_object()
}

/// `Clone::clone` of `serde_json::Value`: the copy is what the value is and
/// has the members the value has.
#[verifier::external_body]
fn value_clone(value: &serde_json::Value) -> (copy: serde_json::Value)
    ensures
        shape(copy) == shape(*value),
        members(copy) == members(*value),
{
    value.clone()
}

/// `serde_json::Map::insert` on the map that `serde_json::Value::as_object_mut`
/// gives, with the number made into a value by `serde_json::Value::from`:
/// the object then has the number as its member of that name, in place of
/// whatever it had there, and every other member as before. The value must
/// be an object.
#[verifier::external_body]
fn object_insert_u64(value: &mut serde_json::Value, key: &str, number: u64)
    requires
        shape(*old(value)) is Object,
    ensures
        shape(*final(value)) is Object,
        members(*final(value)) == members(*old(value)).insert(key@, Member::Number(number)),
{
    value.as_object_mut().unwrap().insert(key.to_owned(), serde_json::Value::from(number));
}

/// `serde_json::Map::insert` on the map that `serde_json::Value::as_object_mut`
/// gives, with the text made into a value by `serde_json::Value::from`: the
/// object then has the text as its member of that name, in place of whatever
/// it had there, and every other member as before. The value must be an
/// object.
#[verifier::external_body]
fn object_insert_str(value: &mut serde_json::Value, key: &str, text: &str)
    requires
        shape(*old(value)) is Object,
    ensures
        shape(*final(value)) is Object,
        members(*final(value)) == members(*old(value)).insert(key@, Member::Text(text@)),
{
    value.as_object_mut().unwrap().insert(key.to_owned(), serde_json::Value::from(text));
}

/// The number that `members` has under `key`, if it has a number there.
pub open spec fn number_at(members: Map<Seq<char>, Member>, key: Seq<char>) -> Option<u64> {
    if members.dom().contains(key) {
        match members[key] {
            Member::Number(n) => Some(n),
            _ => None,
        }
    } else {
        None
    }
}

/// The text that `members` has under `key`, if it has a text there.
pub open spec fn text_at(members: Map<Seq<char>, Member>, key: Seq<char>) -> Option<Seq<char>> {
    if members.dom().contains(key) {
        match members[key] {
            Member::Text(characters) => Some(characters),
            _ => None,
        }
    } else {
        None
    }
}

/// The body of a message as it came off the wire: a JSON value, of which the
/// node reads some members and sets some.
#[derive(Debug)]
pub struct Payload {
    value: serde_json::Value,
}

impl View for Payload {
    type V = Map<Seq<char>, Member>;

    closed spec fn view(&self) -> Map<Seq<char>, Member> {
        members(self.value)
    }
}

impl Payload {
    /// Whether the payload is a JSON object.
    pub closed spec fn is_object(&self) -> bool {
        shape(self.value) is Object
    }

    /// The payload that is `value`.
    pub fn new(value: serde_json::Value) -> (payload: Self)
        ensures
            payload@ == members(value),
            payload.is_object() == (shape(value) is Object),
    {
        Payload { value }
    }

    /// The JSON value that the payload is.
    pub fn into_value(self) -> (value: serde_json::Value)
        ensures
            members(value) == self@,
            (shape(value) is Object) == self.is_object(),
    {
        self.value
    }

    /// Whether the payload is a JSON object.
    pub fn has_members(&self) -> (object: bool)
        ensures
            object == self.is_object(),
    {
        value_is_object(&self.value)
    }

    /// The number under `key`, if the payload has a number there.
    pub fn number(&self, key: &str) -> (number: Option<u64>)
        ensures
            number == number_at(self@, key@),
            number is Some ==> self.is_object(),
    {
        match value_get(&self.value, key) {
            Some(member) => value_as_u64(member),
            None => None,
        }
    }

    /// The text under `key`, if the payload has a text there.
    pub fn text(&self, key: &str) -> (text: Option<String>)
        ensures
            match text {
                Some(found) => text_at(self@, key@) == Some(found@) && self.is_object(),
                None => text_at(self@, key@) is None,
            },
    {
        match value_get(&self.value, key) {
            Some(member) => match value_as_str(member) {
                Some(found) => Some(found.to_owned()),
                None => None,
            },
            None => None,
        }
    }

    /// A copy of the payload.
    pub fn copy(&self) -> (copy: Self)
        ensures
            copy@ == self@,
            copy.is_object() == self.is_object(),
    {
        Payload { value: value_clone(&self.value) }
    }

    /// Puts `number` under `key`, in place of whatever is there. Only an
    /// object takes members: on anything else nothing changes, and the
    /// result says so.
    pub fn set_number(&mut self, key: &str, number: u64) -> (done: bool)
        ensures
            done == old(self).is_object(),
            final(self).is_object() == old(self).is_object(),
            final(self)@ == if done {
                old(self)@.insert(key@, Member::Number(number))
            } else {
                old(self)@
            },
    {
        if value_is_object(&self.value) {
            object_insert_u64(&mut self.value, key, number);
            true
        } else {
            false
        }
    }

    /// Puts `text` under `key`, in place of whatever is there. Only an
    /// object takes members: on anything else nothing changes, and the
    /// result says so.
    pub fn set_text(&mut self, key: &str, text: &str) -> (done: bool)
        ensures
            done == old(self).is_object(),
            final(self).is_object() == old(self).is_object(),
            final(self)@ == if done {
                old(self)@.insert(key@, Member::Text(text@))
            } else {
                old(self)@
            },
    {
        if value_is_object(&self.value) {
            object_insert_str(&mut self.value, key, text);
            true
        } else {
            false
        }
    }
}

} // verus!
