//! Values of JSON, as the network answers with them.
use vstd::prelude::*;
use vstd::string::*;

use crate::args::str_views;
use crate::error::Error;
use crate::text::{has_prefix, number_of, parse_number, same, starts_with};

verus! {

/// What a value is.
pub enum JsonKind {
    Null,
    Bool(bool),
    /// A number that is an unsigned 64-bit integer.
    Unsigned(u64),
    /// Any other number.
    Number,
    Text(String),
    List(Vec<Json>),
    Object(Vec<Member>),
}

/// A value, with how it is written.
pub struct Json {
    pub kind: JsonKind,
    /// The value in compact JSON, to be shown.
    pub text: String,
}

/// A member of an object.
pub struct Member {
    pub name: String,
    pub value: Json,
}

// ---------------------------------------------------------------------------------------------
// What the outside crate reads
// ---------------------------------------------------------------------------------------------
/// A value of `serde_json`.
#[verifier::external_type_specification]
#[verifier::external_body]
pub struct ExValue(serde_json::Value);

/// What a value of `serde_json` holds.
pub uninterp spec fn value_contents(value: serde_json::Value) -> Json;

/// The value that some bytes write in JSON, or what is wrong with them.
pub uninterp spec fn json_of_bytes(bytes: Seq<u8>) -> Result<Json, Seq<char>>;

/// Calls `serde_json::from_slice` for a `Value`. What the value holds for some bytes, and the
/// message of the error, is only named.
#[verifier::external_body]
fn read_value(bytes: &[u8]) -> (value: Result<serde_json::Value, String>)
    ensures
        match value {
            Ok(v) => json_of_bytes(bytes@) is Ok && json_of_bytes(bytes@)->Ok_0 == value_contents(
                v,
            ),
            Err(message) => json_of_bytes(bytes@) is Err && json_of_bytes(bytes@)->Err_0
                == message@,
        },
{
    serde_json::from_slice(bytes).map_err(|error| error.to_string())
}

/// Takes a `serde_json::Value` apart, variant for variant, calling `Number::as_u64` for numbers and
/// `ToString` for the text. What it holds is only named.
#[verifier::external_body]
fn json_of(value: &serde_json::Value) -> (json: Json)
    ensures
        json == value_contents(*value),
{
    let text = value.to_string();
    let kind = match value {
        serde_json::Value::Null => JsonKind::Null,
        serde_json::Value::Bool(yes) => JsonKind::Bool(*yes),
        serde_json::Value::Number(n) => n.as_u64().map_or(JsonKind::Number, JsonKind::Unsigned),
        serde_json::Value::String(text) => JsonKind::Text(text.clone()),
        serde_json::Value::Array(items) => JsonKind::List(items.iter().map(json_of).collect()),
        serde_json::Value::Object(members) => JsonKind::Object(
            members.iter().map(|m| Member { name: m.0.clone(), value: json_of(m.1) }).collect(),
        ),
    };
    Json { kind, text }
}

// ---------------------------------------------------------------------------------------------
// Looking into values
// ---------------------------------------------------------------------------------------------
/// The value of the first member with a name.
pub open spec fn member_value(members: Seq<Member>, name: Seq<char>) -> Option<Json>
    decreases members.len(),
{
    if members.len() == 0 {
        None
    } else if members[0].name@ == name {
        Some(members[0].value)
    } else {
        member_value(members.skip(1), name)
    }
}

/// The index that a step into a list writes: a number without a sign and without leading zeros.
pub open spec fn step_index(step: Seq<char>) -> Option<u64> {
    if has_prefix(step, "+"@) || (has_prefix(step, "0"@) && step.len() != 1) {
        None
    } else {
        match number_of(step, u64::MAX) {
            Ok(n) => Some(n),
            Err(_) => None,
        }
    }
}

impl Json {
    /// The member of an object with a name.
    pub open spec fn member(self, name: Seq<char>) -> Option<Json> {
        match self.kind {
            JsonKind::Object(members) => member_value(members@, name),
            _ => None,
        }
    }

    /// The text that a value is.
    pub open spec fn string(self) -> Option<Seq<char>> {
        match self.kind {
            JsonKind::Text(text) => Some(text@),
            _ => None,
        }
    }

    /// The unsigned integer that a value is.
    pub open spec fn unsigned(self) -> Option<u64> {
        match self.kind {
            JsonKind::Unsigned(n) => Some(n),
            _ => None,
        }
    }

    /// The list that a value is.
    pub open spec fn list(self) -> Option<Seq<Json>> {
        match self.kind {
            JsonKind::List(items) => Some(items@),
            _ => None,
        }
    }

    /// The member or the item that a step leads to.
    pub open spec fn step(self, step: Seq<char>) -> Option<Json> {
        match self.kind {
            JsonKind::Object(members) => member_value(members@, step),
            JsonKind::List(items) => match step_index(step) {
                Some(i) => if i < items@.len() {
                    Some(items@[i as int])
                } else {
                    None
                },
                None => None,
            },
            _ => None,
        }
    }

    /// The value that a path leads to.
    pub open spec fn at(self, path: Seq<Seq<char>>) -> Option<Json>
        decreases path.len(),
    {
        if path.len() == 0 {
            Some(self)
        } else {
            match self.step(path[0]) {
                Some(next) => next.at(path.skip(1)),
                None => None,
            }
        }
    }

    /// The text of a member.
    pub open spec fn member_string(self, name: Seq<char>) -> Option<Seq<char>> {
        match self.member(name) {
            Some(value) => value.string(),
            None => None,
        }
    }

    /// The unsigned integer of a member.
    pub open spec fn member_unsigned(self, name: Seq<char>) -> Option<u64> {
        match self.member(name) {
            Some(value) => value.unsigned(),
            None => None,
        }
    }

    /// The text that a path leads to.
    pub open spec fn string_at(self, path: Seq<Seq<char>>) -> Option<Seq<char>> {
        match self.at(path) {
            Some(value) => value.string(),
            None => None,
        }
    }

    /// The unsigned integer that a path leads to.
    pub open spec fn unsigned_at(self, path: Seq<Seq<char>>) -> Option<u64> {
        match self.at(path) {
            Some(value) => value.unsigned(),
            None => None,
        }
    }

    /// Reads a value from bytes.
    pub fn parse(bytes: &[u8]) -> (json: Result<Json, Error>)
        ensures
            match json_of_bytes(bytes@) {
                Ok(value) => json matches Ok(j) && j == value,
                Err(message) => json matches Err(Error::Outside(m)) && m@ == message,
            },
    {
        match read_value(bytes) {
            Ok(value) => Ok(json_of(&value)),
            Err(message) => Err(Error::Outside(message)),
        }
    }

    /// Takes the member with a name out of an object.
    pub fn into_member(self, name: &str) -> (value: Option<Json>)
        ensures
            value == self.member(name@),
    {
        let mut members = match self.kind {
            JsonKind::Object(members) => members,
            _ => return None,
        };
        let ghost wanted = self.member(name@);
        let mut i: usize = 0;
        assert(members@.skip(0) =~= members@);
        while i < members.len()
            invariant
                i <= members@.len(),
                wanted == self.member(name@),
                wanted == member_value(members@.skip(i as int), name@),
            decreases members@.len() - i,
        {
            assert(members@.skip(i as int)[0] == members@[i as int]);
            assert(members@.skip(i as int).skip(1) =~= members@.skip(i + 1));
            if same(members[i].name.as_str(), name) {
                return Some(members.remove(i).value);
            }
            i += 1;
        }
        assert(members@.skip(i as int) =~= Seq::empty());
        None
    }

    /// The member of an object with a name.
    pub fn get(&self, name: &str) -> (value: Option<&Json>)
        ensures
            match self.member(name@) {
                Some(v) => value matches Some(r) && *r == v,
                None => value is None,
            },
    {
        match &self.kind {
            JsonKind::Object(members) => {
                let mut i: usize = 0;
                assert(members@.skip(0) =~= members@);
                while i < members.len()
                    invariant
                        i <= members@.len(),
                        self.member(name@) == member_value(members@.skip(i as int), name@),
                    decreases members@.len() - i,
                {
                    assert(members@.skip(i as int)[0] == members@[i as int]);
                    assert(members@.skip(i as int).skip(1) =~= members@.skip(i + 1));
                    if same(members[i].name.as_str(), name) {
                        return Some(&members[i].value);
                    }
                    i += 1;
                }
                None
            },
            _ => None,
        }
    }

    /// The text that the value is.
    pub fn as_str(&self) -> (text: Option<&str>)
        ensures
            match self.string() {
                Some(t) => text matches Some(r) && r@ == t,
                None => text is None,
            },
    {
        match &self.kind {
            JsonKind::Text(text) => Some(text.as_str()),
            _ => None,
        }
    }

    /// The unsigned integer that the value is.
    pub fn as_u64(&self) -> (n: Option<u64>)
        ensures
            n == self.unsigned(),
    {
        match &self.kind {
            JsonKind::Unsigned(n) => Some(*n),
            _ => None,
        }
    }

    /// The list that the value is.
    pub fn as_list(&self) -> (items: Option<&Vec<Json>>)
        ensures
            match self.list() {
                Some(l) => items matches Some(r) && r@ == l,
                None => items is None,
            },
    {
        match &self.kind {
            JsonKind::List(items) => Some(items),
            _ => None,
        }
    }

    /// Tells whether the value is null.
    pub fn is_null(&self) -> (yes: bool)
        ensures
            yes == self.kind is Null,
    {
        match &self.kind {
            JsonKind::Null => true,
            _ => false,
        }
    }

    /// Tells whether the value is an object.
    pub fn is_object(&self) -> (yes: bool)
        ensures
            yes == self.kind is Object,
    {
        match &self.kind {
            JsonKind::Object(_) => true,
            _ => false,
        }
    }

    /// The member or the item that a step leads to.
    fn next(&self, step: &str) -> (value: Option<&Json>)
        ensures
            match self.step(step@) {
                Some(v) => value matches Some(r) && *r == v,
                None => value is None,
            },
    {
        match &self.kind {
            JsonKind::Object(_) => self.get(step),
            JsonKind::List(items) => {
                if starts_with(step, "+") || (starts_with(step, "0") && step.unicode_len() != 1) {
                    return None;
                }
                match parse_number(step, u64::MAX) {
                    Ok(i) => {
                        if i < items.len() as u64 {
                            Some(&items[i as usize])
                        } else {
                            None
                        }
                    },
                    Err(_) => None,
                }
            },
            _ => None,
        }
    }

    /// The value that a path leads to.
    pub fn pointer(&self, path: &[&str]) -> (value: Option<&Json>)
        ensures
            match self.at(str_views(path@)) {
                Some(v) => value matches Some(r) && *r == v,
                None => value is None,
            },
    {
        let mut current: &Json = self;
        let mut i: usize = 0;
        let ghost steps = str_views(path@);
        assert(steps.skip(0) =~= steps);
        while i < path.len()
            invariant
                i <= path@.len(),
                steps == str_views(path@),
                self.at(steps) == current.at(steps.skip(i as int)),
            decreases path@.len() - i,
        {
            assert(steps.skip(i as int)[0] == path@[i as int]@);
            assert(steps.skip(i as int).skip(1) =~= steps.skip(i + 1));
            match current.next(path[i]) {
                Some(next) => {
                    current = next;
                },
                None => return None,
            }
            i += 1;
        }
        assert(steps.skip(i as int) =~= Seq::empty());
        Some(current)
    }

    /// The text of a member.
    pub fn get_str(&self, name: &str) -> (text: Option<&str>)
        ensures
            match self.member_string(name@) {
                Some(t) => text matches Some(r) && r@ == t,
                None => text is None,
            },
    {
        match self.get(name) {
            Some(value) => value.as_str(),
            None => None,
        }
    }

    /// The unsigned integer of a member.
    pub fn get_u64(&self, name: &str) -> (n: Option<u64>)
        ensures
            n == self.member_unsigned(name@),
    {
        match self.get(name) {
            Some(value) => value.as_u64(),
            None => None,
        }
    }

    /// The text that a path leads to.
    pub fn pointer_str(&self, path: &[&str]) -> (text: Option<&str>)
        ensures
            match self.string_at(str_views(path@)) {
                Some(t) => text matches Some(r) && r@ == t,
                None => text is None,
            },
    {
        match self.pointer(path) {
            Some(value) => value.as_str(),
            None => None,
        }
    }

    /// The unsigned integer that a path leads to.
    pub fn pointer_u64(&self, path: &[&str]) -> (n: Option<u64>)
        ensures
            n == self.unsigned_at(str_views(path@)),
    {
        match self.pointer(path) {
            Some(value) => value.as_u64(),
            None => None,
        }
    }
}

// ---------------------------------------------------------------------------------------------
// Laws
// ---------------------------------------------------------------------------------------------
/// A member of an object is the value of the first member with its name, and there is one if and
/// only if some member has the name. Nothing but an object has members.
pub proof fn members_are_found_by_name(json: Json, name: Seq<char>)
    ensures
        !(json.kind is Object) ==> json.member(name) is None,
        json.kind matches JsonKind::Object(members) ==> {
            &&& json.member(name) is Some == exists|i: int|
                0 <= i < members@.len() && (#[trigger] members@[i]).name@ == name
            &&& json.member(name) matches Some(value) ==> exists|i: int|
                0 <= i < members@.len() && (#[trigger] members@[i]).name@ == name
                    && members@[i].value == value && forall|k: int|
                    0 <= k < i ==> (#[trigger] members@[k]).name@ != name
        },
{
    if let JsonKind::Object(members) = json.kind {
        lemma_member_value(members@, name);
    }
}

proof fn lemma_member_value(members: Seq<Member>, name: Seq<char>)
    ensures
        member_value(members, name) is None ==> forall|i: int|
            0 <= i < members.len() ==> (#[trigger] members[i]).name@ != name,
        member_value(members, name) matches Some(value) ==> exists|i: int|
            0 <= i < members.len() && (#[trigger] members[i]).name@ == name && members[i].value
                == value && forall|k: int|
                0 <= k < i ==> (#[trigger] members[k]).name@ != name,
    decreases members.len(),
{
    if members.len() > 0 {
        let rest = members.skip(1);
        lemma_member_value(rest, name);
        if members[0].name@ == name {
            assert(members[0].value == member_value(members, name)->Some_0);
        } else if member_value(rest, name) is None {
            assert forall|i: int| 0 <= i < members.len() implies (#[trigger] members[i]).name@
                != name by {
                if i > 0 {
                    assert(rest[i - 1] == members[i]);
                }
            }
        } else {
            let value = member_value(rest, name)->Some_0;
            let i = choose|i: int|
                0 <= i < rest.len() && (#[trigger] rest[i]).name@ == name && rest[i].value == value
                    && forall|k: int| 0 <= k < i ==> (#[trigger] rest[k]).name@ != name;
            assert(members[i + 1] == rest[i]);
            assert forall|k: int| 0 <= k < i + 1 implies (#[trigger] members[k]).name@ != name by {
                if k > 0 {
                    assert(rest[k - 1] == members[k]);
                }
            }
        }
    }
}

/// A path leads through members by name and through items by number, step by step.
pub proof fn paths_lead_step_by_step(json: Json, step: Seq<char>, rest: Seq<Seq<char>>)
    ensures
        json.at(Seq::empty()) == Some(json),
        json.kind is Object ==> json.step(step) == json.member(step),
        json.step(step) is Some ==> json.at(seq![step] + rest) == json.step(step)->Some_0.at(rest),
        json.step(step) is None ==> json.at(seq![step] + rest) is None,
{
    let path = seq![step] + rest;
    assert(path[0] == step);
    assert(path.skip(1) =~= rest);
}

} // verus!
