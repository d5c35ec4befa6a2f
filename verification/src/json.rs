//! JSON documents as values of the library, with parsing and rendering by `serde_json`.
use vstd::prelude::*;
use crate::text;

verus! {

/// The number type of `serde_json`, carried through as it is.
#[verifier::external_type_specification]
#[verifier::external_body]
pub struct ExNumber(serde_json::Number);

/// The document type of `serde_json`.
#[verifier::external_type_specification]
#[verifier::external_body]
pub struct ExValue(serde_json::Value);

/// `Number::clone`, which copies the number.
pub assume_specification[ <serde_json::Number as std::clone::Clone>::clone ](
    number: &serde_json::Number,
) -> (copy: serde_json::Number)
    ensures
        copy == *number,
;

/// A JSON document.
#[derive(Debug, PartialEq, Eq)]
pub enum Json {
    Null,
    Bool(bool),
    Number(serde_json::Number),
    Str(String),
    Array(Vec<Json>),
    /// The members of an object.  No key occurs twice.
    Object(Vec<(String, Json)>),
}

/// What a JSON document says: its members are looked up by key, in no order.
#[verifier::ext_equal]
pub enum JsonView {
    Null,
    Bool(bool),
    Number(serde_json::Number),
    Str(Seq<char>),
    Array(Seq<JsonView>),
    Object(Map<Seq<char>, JsonView>),
}

/// One level of a `serde_json` document.
pub enum Node {
    Null,
    Bool(bool),
    Number(serde_json::Number),
    Str(String),
    Array(Vec<serde_json::Value>),
    Object(Vec<(String, serde_json::Value)>),
}

impl Json {
    /// What the document says.
    pub open spec fn view(&self) -> JsonView
        decreases self,
    {
        match self {
            Json::Null => JsonView::Null,
            Json::Bool(b) => JsonView::Bool(*b),
            Json::Number(n) => JsonView::Number(*n),
            Json::Str(s) => JsonView::Str(s@),
            Json::Array(items) => JsonView::Array(items_view(items@)),
            Json::Object(members) => JsonView::Object(members_view(members@)),
        }
    }
}

/// What the items of an array say.
pub open spec fn items_view(items: Seq<Json>) -> Seq<JsonView>
    decreases items,
{
    if items.len() == 0 {
        Seq::empty()
    } else {
        items_view(items.drop_last()).push(items.last().view())
    }
}

/// What the members of an object say; of two with one key the later counts.
pub open spec fn members_view(members: Seq<(String, Json)>) -> Map<Seq<char>, JsonView>
    decreases members,
{
    if members.len() == 0 {
        Map::empty()
    } else {
        members_view(members.drop_last()).insert(members.last().0@, members.last().1.view())
    }
}

impl Json {
    /// Whether no object in the document has two members with one key.
    pub open spec fn wf(&self) -> bool
        decreases self,
    {
        match self {
            Json::Array(items) => forall|i: int|
                0 <= i < items@.len() ==> (#[trigger] items@[i]).wf(),
            Json::Object(members) => distinct(members@) && forall|i: int|
                0 <= i < members@.len() ==> (#[trigger] members@[i]).1.wf(),
            _ => true,
        }
    }
}

/// Whether no two members have one key.
pub open spec fn distinct(members: Seq<(String, Json)>) -> bool {
    forall|i: int, j: int|
        0 <= i < j < members.len() ==> (#[trigger] members[i]).0@ != (#[trigger] members[j]).0@
}

/// The items of an array, one by one.
pub proof fn lemma_items(items: Seq<Json>)
    ensures
        items_view(items).len() == items.len(),
        forall|i: int| 0 <= i < items.len() ==> (#[trigger] items_view(items)[i]) == items[i].view(),
    decreases items.len(),
{
    if items.len() > 0 {
        lemma_items(items.drop_last());
    }
}

/// The keys of an object are those of its members.
pub proof fn lemma_members(members: Seq<(String, Json)>, key: Seq<char>)
    ensures
        members_view(members).contains_key(key) <==> exists|i: int|
            0 <= i < members.len() && (#[trigger] members[i]).0@ == key,
        members_view(members).dom().finite(),
    decreases members.len(),
{
    if members.len() > 0 {
        lemma_members(members.drop_last(), key);
        let n = members.len() - 1;
        if members[n].0@ == key {
        } else if exists|i: int| 0 <= i < members.len() && (#[trigger] members[i]).0@ == key {
            let i = choose|i: int| 0 <= i < members.len() && (#[trigger] members[i]).0@ == key;
            assert(members.drop_last()[i].0@ == key);
        } else if members_view(members.drop_last()).contains_key(key) {
            let i = choose|i: int|
                0 <= i < members.drop_last().len() && (#[trigger] members.drop_last()[i]).0@ == key;
            assert(members[i].0@ == key);
        }
    }
}

/// Where keys are distinct, each member is what its key leads to.
pub proof fn lemma_member_at(members: Seq<(String, Json)>, i: int)
    requires
        distinct(members),
        0 <= i < members.len(),
    ensures
        members_view(members).contains_key(members[i].0@),
        members_view(members)[members[i].0@] == members[i].1.view(),
    decreases members.len(),
{
    if i < members.len() - 1 {
        lemma_member_at(members.drop_last(), i);
        assert(members[i].0@ != members.last().0@);
    }
}

impl JsonView {
    /// The member of an object under `key`.
    pub open spec fn get(self, key: Seq<char>) -> Option<JsonView> {
        match self {
            JsonView::Object(members) => if members.contains_key(key) {
                Some(members[key])
            } else {
                None
            },
            _ => None,
        }
    }

    /// The text of a string.
    pub open spec fn as_str(self) -> Option<Seq<char>> {
        match self {
            JsonView::Str(s) => Some(s),
            _ => None,
        }
    }

    /// The items of an array.
    pub open spec fn as_array(self) -> Option<Seq<JsonView>> {
        match self {
            JsonView::Array(items) => Some(items),
            _ => None,
        }
    }

    /// The value of a boolean.
    pub open spec fn as_bool(self) -> Option<bool> {
        match self {
            JsonView::Bool(b) => Some(b),
            _ => None,
        }
    }

    /// The value of a number that is an unsigned integer of at most 64 bits.
    pub open spec fn as_u64(self) -> Option<u64> {
        match self {
            JsonView::Number(n) => number_as_u64(n),
            _ => None,
        }
    }

    /// The text of the string under `key`.
    pub open spec fn text_at(self, key: Seq<char>) -> Option<Seq<char>> {
        match self.get(key) {
            Some(value) => value.as_str(),
            None => None,
        }
    }

    /// The items of the array under `key`.
    pub open spec fn array_at(self, key: Seq<char>) -> Option<Seq<JsonView>> {
        match self.get(key) {
            Some(value) => value.as_array(),
            None => None,
        }
    }
}

/// What `Number::as_u64` returns: the number where it is an integer from 0 to `u64::MAX`.
pub uninterp spec fn number_as_u64(number: serde_json::Number) -> Option<u64>;

/// What `Number::from` makes of an integer of at most 64 bits.
pub uninterp spec fn integer_number(n: int) -> serde_json::Number;

/// `Number::as_u64`.  Its result is named; it depends on the number alone.
pub assume_specification[ serde_json::Number::as_u64 ](number: &serde_json::Number) -> (r: Option<
    u64,
>)
    ensures
        r == number_as_u64(*number),
;

/// `Number::from` on an unsigned integer.  The number reads back as that integer.
#[verifier::external_body]
fn number_of_u64(n: u64) -> (r: serde_json::Number)
    ensures
        r == integer_number(n as int),
        number_as_u64(r) == Some(n),
{
    serde_json::Number::from(n)
}

/// `Number::from` on a signed integer.  The number reads back as unsigned where it is not
/// negative.
#[verifier::external_body]
fn number_of_i64(n: i64) -> (r: serde_json::Number)
    ensures
        r == integer_number(n as int),
        number_as_u64(r) == (if n >= 0 {
            Some(n as u64)
        } else {
            None
        }),
{
    serde_json::Number::from(n)
}

/// What an optional document says.
pub open spec fn opt_json(r: Option<&Json>) -> Option<JsonView> {
    match r {
        Some(value) => Some(value.view()),
        None => None,
    }
}

/// The view of an optional borrowed text.
pub open spec fn opt_str(r: Option<&str>) -> Option<Seq<char>> {
    match r {
        Some(value) => Some(value@),
        None => None,
    }
}

impl Json {
    /// The position of the member under `key`.
    fn member_index(members: &Vec<(String, Json)>, key: &str) -> (r: Option<usize>)
        ensures
            match r {
                Some(i) => i < members@.len() && members@[i as int].0@ == key@,
                None => forall|i: int|
                    0 <= i < members@.len() ==> (#[trigger] members@[i]).0@ != key@,
            },
    {
        let mut i: usize = 0;
        while i < members.len()
            invariant
                i <= members@.len(),
                forall|j: int| 0 <= j < i ==> (#[trigger] members@[j]).0@ != key@,
            decreases members@.len() - i,
        {
            if text::same_text(members[i].0.as_str(), key) {
                return Some(i);
            }
            i = i + 1;
        }
        None
    }

    /// The member of an object under `key`.
    pub fn get(&self, key: &str) -> (r: Option<&Json>)
        requires
            self.wf(),
        ensures
            opt_json(r) == self@.get(key@),
            r matches Some(value) ==> value.wf(),
    {
        match self {
            Json::Object(members) => {
                proof {
                    lemma_members(members@, key@);
                }
                match Json::member_index(members, key) {
                    Some(i) => {
                        proof {
                            lemma_member_at(members@, i as int);
                        }
                        Some(&members[i].1)
                    },
                    None => None,
                }
            },
            _ => None,
        }
    }

    /// The text of a string.
    pub fn as_str(&self) -> (r: Option<&str>)
        ensures
            opt_str(r) == self@.as_str(),
    {
        match self {
            Json::Str(s) => Some(s.as_str()),
            _ => None,
        }
    }

    /// The items of an array.
    pub fn as_array(&self) -> (r: Option<&Vec<Json>>)
        requires
            self.wf(),
        ensures
            match r {
                Some(items) => self@.as_array() == Some(items_view(items@)) && forall|i: int|
                    0 <= i < items@.len() ==> (#[trigger] items@[i]).wf(),
                None => self@.as_array() is None,
            },
    {
        match self {
            Json::Array(items) => Some(items),
            _ => None,
        }
    }

    /// The value of a boolean.
    pub fn as_bool(&self) -> (r: Option<bool>)
        ensures
            r == self@.as_bool(),
    {
        match self {
            Json::Bool(b) => Some(*b),
            _ => None,
        }
    }

    /// The value of a number that is an unsigned integer of at most 64 bits.
    pub fn as_u64(&self) -> (r: Option<u64>)
        ensures
            r == self@.as_u64(),
    {
        match self {
            Json::Number(n) => n.as_u64(),
            _ => None,
        }
    }

    /// Whether the document is an object.
    pub fn is_object(&self) -> (r: bool)
        ensures
            r == (self@ is Object),
    {
        match self {
            Json::Object(_) => true,
            _ => false,
        }
    }

    /// Whether the document is a string.
    pub fn is_string(&self) -> (r: bool)
        ensures
            r == (self@ is Str),
    {
        match self {
            Json::Str(_) => true,
            _ => false,
        }
    }

    /// The text of the string under `key`.
    pub fn text_at(&self, key: &str) -> (r: Option<&str>)
        requires
            self.wf(),
        ensures
            opt_str(r) == self@.text_at(key@),
    {
        match self.get(key) {
            Some(value) => value.as_str(),
            None => None,
        }
    }

    /// The items of the array under `key`.
    pub fn array_at(&self, key: &str) -> (r: Option<&Vec<Json>>)
        requires
            self.wf(),
        ensures
            match r {
                Some(items) => self@.array_at(key@) == Some(items_view(items@)) && forall|i: int|
                    0 <= i < items@.len() ==> (#[trigger] items@[i]).wf(),
                None => self@.array_at(key@) is None,
            },
    {
        match self.get(key) {
            Some(value) => value.as_array(),
            None => None,
        }
    }
}

/// Replacing the member under a key is replacing what the key leads to.
proof fn lemma_members_update(members: Seq<(String, Json)>, i: int, member: (String, Json))
    requires
        distinct(members),
        0 <= i < members.len(),
        members[i].0@ == member.0@,
    ensures
        members_view(members.update(i, member)) == members_view(members).insert(
            member.0@,
            member.1.view(),
        ),
        distinct(members.update(i, member)),
    decreases members.len(),
{
    let changed = members.update(i, member);
    if i == members.len() - 1 {
        assert(changed.drop_last() =~= members.drop_last());
        assert(members_view(changed) =~= members_view(members).insert(
            member.0@,
            member.1.view(),
        ));
    } else {
        lemma_members_update(members.drop_last(), i, member);
        assert(changed.drop_last() =~= members.drop_last().update(i, member));
        assert(members[i].0@ != members.last().0@);
        assert(members_view(changed) =~= members_view(members).insert(
            member.0@,
            member.1.view(),
        ));
    }
}

/// An object with one member more, or with another value under a key that it has.
pub open spec fn set_member(object: JsonView, key: Seq<char>, value: JsonView) -> JsonView {
    match object {
        JsonView::Object(members) => JsonView::Object(members.insert(key, value)),
        _ => object,
    }
}

impl Json {
    /// The object without members.
    pub fn object() -> (r: Json)
        ensures
            r@ == JsonView::Object(Map::empty()),
            r.wf(),
    {
        Json::Object(Vec::new())
    }

    /// A string.
    pub fn text(value: &str) -> (r: Json)
        ensures
            r@ == JsonView::Str(value@),
            r.wf(),
    {
        Json::Str(value.to_owned())
    }

    /// A string, or null.
    pub fn text_or_null(value: &Option<String>) -> (r: Json)
        ensures
            r@ == opt_text_json(text::opt_view(*value)),
            r.wf(),
    {
        match value {
            Some(inner) => Json::Str(inner.clone()),
            None => Json::Null,
        }
    }

    /// An unsigned integer.
    pub fn unsigned(n: u64) -> (r: Json)
        ensures
            r@ == JsonView::Number(integer_number(n as int)),
            r@.as_u64() == Some(n),
            r.wf(),
    {
        Json::Number(number_of_u64(n))
    }

    /// A signed integer.
    pub fn signed(n: i64) -> (r: Json)
        ensures
            r@ == JsonView::Number(integer_number(n as int)),
            r.wf(),
    {
        Json::Number(number_of_i64(n))
    }

    /// An array.
    pub fn array(items: Vec<Json>) -> (r: Json)
        requires
            forall|i: int| 0 <= i < items@.len() ==> (#[trigger] items@[i]).wf(),
        ensures
            r@ == JsonView::Array(items_view(items@)),
            r.wf(),
    {
        Json::Array(items)
    }

    /// The object with `value` under `key`; a document of another kind stays as it is.
    pub fn with(self, key: &str, value: Json) -> (r: Json)
        requires
            self.wf(),
            value.wf(),
        ensures
            r@ == set_member(self@, key@, value@),
            r.wf(),
    {
        match self {
            Json::Object(members) => {
                let mut members = members;
                let ghost before = members@;
                match Json::member_index(&members, key) {
                    Some(i) => {
                        let member = (key.to_owned(), value);
                        proof {
                            lemma_members_update(before, i as int, member);
                        }
                        members.set(i, member);
                        let r = Json::Object(members);
                        assert(r@ == set_member(self@, key@, value@));
                        r
                    },
                    None => {
                        members.push((key.to_owned(), value));
                        proof {
                            assert(members@.drop_last() =~= before);
                        }
                        Json::Object(members)
                    },
                }
            },
            other => other,
        }
    }
}

/// A string, or null.
pub open spec fn opt_text_json(value: Option<Seq<char>>) -> JsonView {
    match value {
        Some(inner) => JsonView::Str(inner),
        None => JsonView::Null,
    }
}

impl Clone for Json {
    /// A copy of the document.
    fn clone(&self) -> (r: Self)
        ensures
            r@ == self@,
            self.wf() ==> r.wf(),
        decreases self,
    {
        match self {
            Json::Null => Json::Null,
            Json::Bool(b) => Json::Bool(*b),
            Json::Number(n) => Json::Number(n.clone()),
            Json::Str(s) => Json::Str(s.clone()),
            Json::Array(items) => {
                let mut copies: Vec<Json> = Vec::new();
                let mut i: usize = 0;
                while i < items.len()
                    invariant
                        i <= items@.len(),
                        self is Array && self->Array_0 == *items,
                        copies@.len() == i,
                        items_view(copies@) == items_view(items@.take(i as int)),
                        self.wf() ==> forall|j: int|
                            0 <= j < copies@.len() ==> (#[trigger] copies@[j]).wf(),
                    decreases items@.len() - i,
                {
                    let ghost before = copies@;
                    assert(decreases_to!(self => items@[i as int]));
                    assert(self.wf() ==> items@[i as int].wf());
                    let copy = items[i].clone();
                    copies.push(copy);
                    i = i + 1;
                    proof {
                        assert(copies@.drop_last() =~= before);
                        assert(items@.take(i as int).drop_last() =~= items@.take(i - 1));
                    }
                }
                assert(items@.take(i as int) =~= items@);
                Json::Array(copies)
            },
            Json::Object(members) => {
                let mut copies: Vec<(String, Json)> = Vec::new();
                let mut i: usize = 0;
                while i < members.len()
                    invariant
                        i <= members@.len(),
                        self is Object && self->Object_0 == *members,
                        copies@.len() == i,
                        members_view(copies@) == members_view(members@.take(i as int)),
                        forall|j: int| 0 <= j < i ==> (#[trigger] copies@[j]).0@ == members@[j].0@,
                        self.wf() ==> forall|j: int|
                            0 <= j < copies@.len() ==> (#[trigger] copies@[j]).1.wf(),
                    decreases members@.len() - i,
                {
                    let ghost before = copies@;
                    assert(decreases_to!(self => members@[i as int].1));
                    let copy = members[i].1.clone();
                    copies.push((members[i].0.clone(), copy));
                    i = i + 1;
                    proof {
                        assert(copies@.drop_last() =~= before);
                        assert(members@.take(i as int).drop_last() =~= members@.take(i - 1));
                    }
                }
                assert(members@.take(i as int) =~= members@);
                Json::Object(copies)
            },
        }
    }
}

/// What a `serde_json` document says.
pub uninterp spec fn value_content(value: serde_json::Value) -> JsonView;

/// What `serde_json::from_str` makes of a text: the document, or the message of its error.
pub uninterp spec fn parsed_json(input: Seq<char>) -> Result<JsonView, Seq<char>>;

/// The compact text that `serde_json` renders a document to.
pub uninterp spec fn rendered_json(document: JsonView) -> Seq<char>;

/// What the members of one level say.
pub open spec fn value_members(members: Seq<(String, serde_json::Value)>) -> Map<
    Seq<char>,
    JsonView,
>
    decreases members.len(),
{
    if members.len() == 0 {
        Map::empty()
    } else {
        value_members(members.drop_last()).insert(
            members.last().0@,
            value_content(members.last().1),
        )
    }
}

/// Whether no two members of one level have one key.
pub open spec fn value_keys_distinct(members: Seq<(String, serde_json::Value)>) -> bool {
    forall|i: int, j: int|
        0 <= i < j < members.len() ==> (#[trigger] members[i]).0@ != (#[trigger] members[j]).0@
}

impl Node {
    /// What the level says.
    pub open spec fn content(self) -> JsonView {
        match self {
            Node::Null => JsonView::Null,
            Node::Bool(b) => JsonView::Bool(b),
            Node::Number(n) => JsonView::Number(n),
            Node::Str(s) => JsonView::Str(s@),
            Node::Array(values) => JsonView::Array(
                Seq::new(values@.len(), |i: int| value_content(values@[i])),
            ),
            Node::Object(members) => JsonView::Object(value_members(members@)),
        }
    }

    /// Whether no two members have one key.
    pub open spec fn wf(self) -> bool {
        match self {
            Node::Object(members) => value_keys_distinct(members@),
            _ => true,
        }
    }
}

/// The six kinds of `serde_json::Value` told apart, one level deep.  A `serde_json::Map` holds
/// each key once.
#[verifier::external_body]
fn node_of_value(value: serde_json::Value) -> (r: Node)
    ensures
        r.content() == value_content(value),
        r.wf(),
{
    match value {
        serde_json::Value::Null => Node::Null,
        serde_json::Value::Bool(b) => Node::Bool(b),
        serde_json::Value::Number(n) => Node::Number(n),
        serde_json::Value::String(s) => Node::Str(s),
        serde_json::Value::Array(values) => Node::Array(values),
        serde_json::Value::Object(members) => Node::Object(members.into_iter().collect()),
    }
}

/// One level put together as a `serde_json::Value`.
#[verifier::external_body]
fn value_of_node(node: Node) -> (r: serde_json::Value)
    requires
        node.wf(),
    ensures
        value_content(r) == node.content(),
{
    match node {
        Node::Null => serde_json::Value::Null,
        Node::Bool(b) => serde_json::Value::Bool(b),
        Node::Number(n) => serde_json::Value::Number(n),
        Node::Str(s) => serde_json::Value::String(s),
        Node::Array(values) => serde_json::Value::Array(values),
        Node::Object(members) => serde_json::Value::Object(members.into_iter().collect()),
    }
}

/// `serde_json::from_str` into a `Value`, and the message of its error.  What it accepts and what
/// it returns are named; they depend on the text alone.
#[verifier::external_body]
fn value_of_text(input: &str) -> (r: Result<serde_json::Value, String>)
    ensures
        match r {
            Ok(value) => parsed_json(input@) == Ok::<JsonView, Seq<char>>(value_content(value)),
            Err(message) => parsed_json(input@) == Err::<JsonView, Seq<char>>(message@),
        },
{
    serde_json::from_str::<serde_json::Value>(input).map_err(|e| e.to_string())
}

/// `Value::to_string`, the compact rendering.  The text is named; it depends on what the document
/// says alone, since a `serde_json::Map` keeps its keys in order.
#[verifier::external_body]
fn text_of_value(value: &serde_json::Value) -> (r: String)
    ensures
        r@ == rendered_json(value_content(*value)),
{
    value.to_string()
}

/// The members of one level, looked up by position.
proof fn lemma_value_member_at(members: Seq<(String, serde_json::Value)>, i: int)
    requires
        value_keys_distinct(members),
        0 <= i < members.len(),
    ensures
        value_members(members).contains_key(members[i].0@),
        value_members(members)[members[i].0@] == value_content(members[i].1),
        value_members(members).dom().finite(),
    decreases members.len(),
{
    if i < members.len() - 1 {
        lemma_value_member_at(members.drop_last(), i);
        assert(members[i].0@ != members.last().0@);
    } else {
        lemma_value_members_finite(members);
    }
}

proof fn lemma_value_members_finite(members: Seq<(String, serde_json::Value)>)
    ensures
        value_members(members).dom().finite(),
    decreases members.len(),
{
    if members.len() > 0 {
        lemma_value_members_finite(members.drop_last());
    }
}

/// The document of the library that says what a `serde_json` document says.
fn json_of_value(value: serde_json::Value) -> (r: Json)
    ensures
        r@ == value_content(value),
        r.wf(),
    decreases value_content(value),
{
    let ghost content = value_content(value);
    match node_of_value(value) {
        Node::Null => Json::Null,
        Node::Bool(b) => Json::Bool(b),
        Node::Number(n) => Json::Number(n),
        Node::Str(s) => Json::Str(s),
        Node::Array(values) => {
            let mut items: Vec<Json> = Vec::new();
            let ghost all = values@;
            for item in iter: values
                invariant
                    iter.seq() == all,
                    content == JsonView::Array(
                        Seq::new(all.len(), |i: int| value_content(all[i])),
                    ),
                    content == value_content(value),
                    items@.len() == iter.index(),
                    forall|j: int|
                        0 <= j < items@.len() ==> (#[trigger] items@[j])@ == value_content(all[j])
                            && items@[j].wf(),
            {
                let ghost k = items@.len() as int;
                assert(item == all[k]);
                assert(content->Array_0[k] == value_content(item));
                assert(decreases_to!(content => content->Array_0[k]));
                items.push(json_of_value(item));
            }
            proof {
                lemma_items(items@);
                assert(items_view(items@) =~= content->Array_0);
            }
            Json::Array(items)
        },
        Node::Object(members) => {
            let mut out: Vec<(String, Json)> = Vec::new();
            let ghost all = members@;
            for member in iter: members
                invariant
                    iter.seq() == all,
                    value_keys_distinct(all),
                    content == JsonView::Object(value_members(all)),
                    content == value_content(value),
                    out@.len() == iter.index(),
                    members_view(out@) == value_members(all.take(iter.index() as int)),
                    forall|j: int|
                        0 <= j < out@.len() ==> (#[trigger] out@[j]).0@ == all[j].0@
                            && out@[j].1.wf(),
            {
                let ghost k = out@.len() as int;
                let ghost before = out@;
                proof {
                    lemma_value_member_at(all, k);
                    vstd::map::axiom_map_index_decreases_finite(content->Object_0, all[k].0@);
                    assert(all.take(k + 1).drop_last() =~= all.take(k));
                }
                let (key, inner) = member;
                assert(decreases_to!(content => value_content(inner)));
                out.push((key, json_of_value(inner)));
                assert(out@.drop_last() =~= before);
            }
            assert(all.take(all.len() as int) =~= all);
            Json::Object(out)
        },
    }
}

/// The `serde_json` document that says what a document of the library says.
fn value_of_json(json: &Json) -> (r: serde_json::Value)
    requires
        json.wf(),
    ensures
        value_content(r) == json@,
    decreases json,
{
    let node = match json {
        Json::Null => Node::Null,
        Json::Bool(b) => Node::Bool(*b),
        Json::Number(n) => Node::Number(n.clone()),
        Json::Str(s) => Node::Str(s.clone()),
        Json::Array(items) => {
            let mut values: Vec<serde_json::Value> = Vec::new();
            let mut i: usize = 0;
            while i < items.len()
                invariant
                    i <= items@.len(),
                    json is Array && json->Array_0 == *items,
                    json.wf(),
                    values@.len() == i,
                    forall|j: int|
                        0 <= j < i ==> value_content(#[trigger] values@[j]) == items@[j]@,
                decreases items@.len() - i,
            {
                assert(items@[i as int].wf());
                assert(decreases_to!(json => items@[i as int]));
                values.push(value_of_json(&items[i]));
                i = i + 1;
            }
            proof {
                lemma_items(items@);
                assert(Seq::new(values@.len(), |j: int| value_content(values@[j])) =~= items_view(
                    items@,
                ));
            }
            Node::Array(values)
        },
        Json::Object(members) => {
            let mut out: Vec<(String, serde_json::Value)> = Vec::new();
            let mut i: usize = 0;
            while i < members.len()
                invariant
                    i <= members@.len(),
                    json is Object && json->Object_0 == *members,
                    json.wf(),
                    out@.len() == i,
                    value_members(out@) == members_view(members@.take(i as int)),
                    forall|j: int| 0 <= j < i ==> (#[trigger] out@[j]).0@ == members@[j].0@,
                decreases members@.len() - i,
            {
                let ghost before = out@;
                assert(members@[i as int].1.wf());
                assert(decreases_to!(json => members@[i as int].1));
                out.push((members[i].0.clone(), value_of_json(&members[i].1)));
                i = i + 1;
                proof {
                    assert(out@.drop_last() =~= before);
                    assert(members@.take(i as int).drop_last() =~= members@.take(i - 1));
                }
            }
            assert(members@.take(i as int) =~= members@);
            Node::Object(out)
        },
    };
    value_of_node(node)
}

impl Json {
    /// The document that a text denotes, or the message of the parser's error.
    pub fn parse(input: &str) -> (r: Result<Json, String>)
        ensures
            match r {
                Ok(json) => parsed_json(input@) == Ok::<JsonView, Seq<char>>(json@) && json.wf(),
                Err(message) => parsed_json(input@) == Err::<JsonView, Seq<char>>(message@),
            },
    {
        match value_of_text(input) {
            Ok(value) => Ok(json_of_value(value)),
            Err(message) => Err(message),
        }
    }

    /// The compact text of the document.
    pub fn render(&self) -> (r: String)
        requires
            self.wf(),
        ensures
            r@ == rendered_json(self@),
    {
        text_of_value(&value_of_json(self))
    }
}

/// Whether no document of a list has a key twice.
pub open spec fn all_wf(items: Seq<Json>) -> bool {
    forall|i: int| 0 <= i < items.len() ==> (#[trigger] items[i]).wf()
}

/// Appends a document to a list.
pub fn push_item(items: &mut Vec<Json>, item: Json)
    requires
        all_wf(old(items)@),
        item.wf(),
    ensures
        items_view(final(items)@) == items_view(old(items)@).push(item@),
        all_wf(final(items)@),
{
    let ghost before = items@;
    items.push(item);
    assert(items@.drop_last() =~= before);
}

/// The object without members, as a view.
pub open spec fn empty_object() -> JsonView {
    JsonView::Object(Map::empty())
}

/// What a document holds is found under its key as it is; a text is a text, a list a list, and
/// nothing else is.
pub proof fn law_documents_hold_what_they_were_given(
    members: Map<Seq<char>, JsonView>,
    key: Seq<char>,
    other: Seq<char>,
    value: JsonView,
    told: Seq<char>,
    items: Seq<JsonView>,
    truth: bool,
)
    ensures
        JsonView::Object(members.insert(key, value)).get(key) == Some(value),
        key != other ==> JsonView::Object(members.insert(other, value)).get(key)
            == JsonView::Object(members).get(key),
        !members.contains_key(key) ==> JsonView::Object(members).get(key) is None,
        set_member(JsonView::Object(members), key, value).get(key) == Some(value),
        key != other ==> set_member(JsonView::Object(members), other, value).get(key)
            == JsonView::Object(members).get(key),
        JsonView::Str(told).as_str() == Some(told),
        JsonView::Array(items).as_array() == Some(items),
        JsonView::Bool(truth).as_bool() == Some(truth),
        JsonView::Object(members.insert(key, JsonView::Str(told))).text_at(key) == Some(told),
        JsonView::Object(members.insert(key, JsonView::Array(items))).array_at(key) == Some(items),
        JsonView::Array(items).as_str() is None && JsonView::Null.as_str() is None
            && JsonView::Bool(truth).as_str() is None,
        JsonView::Str(told).as_array() is None && JsonView::Null.as_array() is None,
        JsonView::Str(told).get(key) is None && JsonView::Array(items).get(key) is None,
        opt_text_json(Some(told)) == JsonView::Str(told),
        opt_text_json(None) == JsonView::Null,
{
}

/// A list holds the documents that it was made of, in their order.
pub proof fn law_lists_keep_their_items(items: Seq<Json>, i: int)
    requires
        0 <= i < items.len(),
    ensures
        items_view(items).len() == items.len(),
        items_view(items)[i] == items[i]@,
{
    lemma_items(items);
}

/// An object holds exactly the members that it was made of, each under its key.
pub proof fn law_objects_keep_their_members(
    members: Seq<(String, Json)>,
    i: int,
    key: Seq<char>,
)
    requires
        0 <= i < members.len(),
        distinct(members),
    ensures
        JsonView::Object(members_view(members)).get(members[i].0@) == Some(members[i].1@),
        (forall|k: int| 0 <= k < members.len() ==> (#[trigger] members[k]).0@ != key)
            ==> JsonView::Object(members_view(members)).get(key) is None,
{
    lemma_member_at(members, i);
    lemma_members(members, key);
}

} // verus!
