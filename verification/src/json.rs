//! JSON values: the library's own, and how a text is parsed into one.

use vstd::prelude::*;

use crate::text::same_text;

verus! {

/// A JSON value.
#[derive(Debug, PartialEq, Eq)]
pub enum Json {
    Null,
    Bool(bool),
    /// An integer from zero up that fits `u64`.
    Unsigned(u64),
    /// An integer below zero that fits `i64`.
    Negative(i64),
    /// Any other number, as text.
    Number(String),
    Text(String),
    Array(Vec<Json>),
    /// The members, each key once.
    Object(Vec<Member>),
}

/// One member of a JSON object.
#[derive(Debug, PartialEq, Eq)]
pub struct Member {
    pub key: String,
    pub value: Json,
}

/// A JSON value, as mathematics.
pub enum JsonView {
    Null,
    Bool(bool),
    Unsigned(u64),
    Negative(i64),
    Number(Seq<char>),
    Text(Seq<char>),
    Array(Seq<JsonView>),
    Object(Seq<MemberView>),
}

/// A member of a JSON object, as mathematics.
pub struct MemberView {
    pub key: Seq<char>,
    pub value: JsonView,
}

/// What a JSON value holds.
pub open spec fn json_view(v: Json) -> JsonView
    decreases v,
{
    match v {
        Json::Null => JsonView::Null,
        Json::Bool(b) => JsonView::Bool(b),
        Json::Unsigned(n) => JsonView::Unsigned(n),
        Json::Negative(n) => JsonView::Negative(n),
        Json::Number(s) => JsonView::Number(s@),
        Json::Text(s) => JsonView::Text(s@),
        Json::Array(a) => JsonView::Array(
            Seq::new(
                a@.len(),
                |i: int|
                    if 0 <= i < a@.len() {
                        json_view(a@[i])
                    } else {
                        JsonView::Null
                    },
            ),
        ),
        Json::Object(m) => JsonView::Object(
            Seq::new(
                m@.len(),
                |i: int|
                    if 0 <= i < m@.len() {
                        MemberView { key: m@[i].key@, value: json_view(m@[i].value) }
                    } else {
                        arbitrary()
                    },
            ),
        ),
    }
}

impl View for Json {
    type V = JsonView;

    open spec fn view(&self) -> JsonView {
        json_view(*self)
    }
}

impl View for Member {
    type V = MemberView;

    open spec fn view(&self) -> MemberView {
        MemberView { key: self.key@, value: json_view(self.value) }
    }
}

/// The value of the member `key`, where there is one.
pub open spec fn member_value(members: Seq<MemberView>, key: Seq<char>) -> Option<JsonView>
    decreases members.len(),
{
    if members.len() == 0 {
        None
    } else if members[0].key == key {
        Some(members[0].value)
    } else {
        member_value(members.skip(1), key)
    }
}

impl JsonView {
    /// The text, of a text.
    pub open spec fn text(self) -> Option<Seq<char>> {
        match self {
            JsonView::Text(s) => Some(s),
            _ => None,
        }
    }

    /// The member `key`, of an object.
    pub open spec fn get(self, key: Seq<char>) -> Option<JsonView> {
        match self {
            JsonView::Object(m) => member_value(m, key),
            _ => None,
        }
    }

    /// The number, of an integer that `u64` holds.
    pub open spec fn as_u64(self) -> Option<u64> {
        match self {
            JsonView::Unsigned(n) => Some(n),
            _ => None,
        }
    }

    /// The number, of an integer that `i64` holds.
    pub open spec fn as_i64(self) -> Option<i64> {
        match self {
            JsonView::Unsigned(n) if n <= i64::MAX => Some(n as i64),
            JsonView::Negative(n) => Some(n),
            _ => None,
        }
    }
}

/// The views of members.
pub open spec fn members_view(members: Seq<Member>) -> Seq<MemberView> {
    members.map_values(|m: Member| m@)
}

/// The member `key` of `members`, where there is one.
pub fn find_member<'a>(members: &'a Vec<Member>, key: &str) -> (r: Option<&'a Json>)
    ensures
        match r {
            Some(v) => member_value(members_view(members@), key@) == Some(v@),
            None => member_value(members_view(members@), key@) is None,
        },
{
    let ghost all = members_view(members@);
    let mut i: usize = 0;
    assert(all.skip(0) =~= all);
    while i < members.len()
        invariant
            i <= members@.len(),
            all == members_view(members@),
            member_value(all, key@) == member_value(all.skip(i as int), key@),
        decreases members@.len() - i,
    {
        assert(all.skip(i as int)[0] == members@[i as int]@);
        if same_text(members[i].key.as_str(), key) {
            return Some(&members[i].value);
        }
        assert(all.skip(i as int).skip(1) =~= all.skip(i + 1));
        i += 1;
    }
    None
}

impl Json {
    /// The text, of a text.
    pub fn as_str(&self) -> (r: Option<&str>)
        ensures
            match r {
                Some(s) => self@.text() == Some(s@),
                None => self@.text() is None,
            },
    {
        match self {
            Json::Text(s) => Some(s.as_str()),
            _ => None,
        }
    }

    /// The truth value, of a truth value.
    pub fn as_bool(&self) -> (r: Option<bool>)
        ensures
            r == (match self@ {
                JsonView::Bool(b) => Some(b),
                _ => None,
            }),
    {
        match self {
            Json::Bool(b) => Some(*b),
            _ => None,
        }
    }

    /// The number, of an integer that `u64` holds.
    pub fn as_u64(&self) -> (r: Option<u64>)
        ensures
            r == self@.as_u64(),
    {
        match self {
            Json::Unsigned(n) => Some(*n),
            _ => None,
        }
    }

    /// The number, of an integer that `i64` holds.
    pub fn as_i64(&self) -> (r: Option<i64>)
        ensures
            r == self@.as_i64(),
    {
        match self {
            Json::Unsigned(n) => if *n <= i64::MAX as u64 {
                Some(*n as i64)
            } else {
                None
            },
            Json::Negative(n) => Some(*n),
            _ => None,
        }
    }

    /// The elements, of an array.
    pub fn as_array(&self) -> (r: Option<&Vec<Json>>)
        ensures
            match r {
                Some(a) => self@ == JsonView::Array(elements_view(a@)),
                None => !(self@ is Array),
            },
    {
        match self {
            Json::Array(a) => {
                assert(self@->Array_0 =~= elements_view(a@));
                Some(a)
            },
            _ => None,
        }
    }

    /// The members, of an object.
    pub fn as_object(&self) -> (r: Option<&Vec<Member>>)
        ensures
            match r {
                Some(m) => self@ == JsonView::Object(members_view(m@)),
                None => !(self@ is Object),
            },
    {
        match self {
            Json::Object(m) => {
                assert(self@->Object_0 =~= members_view(m@));
                Some(m)
            },
            _ => None,
        }
    }

    /// The member `key`, of an object.
    pub fn get(&self, key: &str) -> (r: Option<&Json>)
        ensures
            match r {
                Some(v) => self@.get(key@) == Some(v@),
                None => self@.get(key@) is None,
            },
    {
        match self.as_object() {
            Some(m) => find_member(m, key),
            None => None,
        }
    }

    /// A copy of the value.
    pub fn copy(&self) -> (r: Json)
        ensures
            r@ == self@,
        decreases *self,
    {
        match self {
            Json::Null => Json::Null,
            Json::Bool(b) => Json::Bool(*b),
            Json::Unsigned(n) => Json::Unsigned(*n),
            Json::Negative(n) => Json::Negative(*n),
            Json::Number(s) => Json::Number(s.clone()),
            Json::Text(s) => Json::Text(s.clone()),
            Json::Array(a) => {
                let mut out: Vec<Json> = Vec::new();
                let mut i: usize = 0;
                while i < a.len()
                    invariant
                        i <= a@.len(),
                        *self == Json::Array(*a),
                        out@.len() == i,
                        forall|k: int| 0 <= k < i ==> (#[trigger] out@[k])@ == a@[k]@,
                    decreases a@.len() - i,
                {
                    assert(decreases_to!(*self => self->Array_0));
                    assert(decreases_to!(*a => a@));
                    assert(decreases_to!(a@ => a@[i as int]));
                    out.push(a[i].copy());
                    i += 1;
                }
                let r = Json::Array(out);
                assert(r@->Array_0 =~= self@->Array_0);
                r
            },
            Json::Object(m) => {
                let mut out: Vec<Member> = Vec::new();
                let mut i: usize = 0;
                while i < m.len()
                    invariant
                        i <= m@.len(),
                        *self == Json::Object(*m),
                        out@.len() == i,
                        forall|k: int| 0 <= k < i ==> (#[trigger] out@[k])@ == m@[k]@,
                    decreases m@.len() - i,
                {
                    assert(decreases_to!(*self => self->Object_0));
                    assert(decreases_to!(*m => m@));
                    assert(decreases_to!(m@ => m@[i as int]));
                    assert(decreases_to!(m@[i as int] => m@[i as int].value));
                    out.push(Member { key: m[i].key.clone(), value: m[i].value.copy() });
                    i += 1;
                }
                let r = Json::Object(out);
                assert(r@->Object_0 =~= self@->Object_0);
                r
            },
        }
    }
}

/// The views of elements.
pub open spec fn elements_view(elements: Seq<Json>) -> Seq<JsonView> {
    elements.map_values(|v: Json| v@)
}

/// Of the elements of an array, the texts, in order.
pub open spec fn texts_of(elements: Seq<JsonView>) -> Seq<Seq<char>>
    decreases elements.len(),
{
    if elements.len() == 0 {
        Seq::empty()
    } else {
        match elements.last().text() {
            Some(s) => texts_of(elements.drop_last()).push(s),
            None => texts_of(elements.drop_last()),
        }
    }
}

/// The views of strings.
pub open spec fn strings_view(strings: Seq<String>) -> Seq<Seq<char>> {
    strings.map_values(|s: String| s@)
}

/// Copies the texts among `elements`, in order; other elements are skipped.
pub fn copy_texts(elements: &Vec<Json>) -> (r: Vec<String>)
    ensures
        strings_view(r@) == texts_of(elements_view(elements@)),
{
    let ghost all = elements_view(elements@);
    let mut out: Vec<String> = Vec::new();
    let mut i: usize = 0;
    assert(strings_view(out@) =~= texts_of(all.take(0)));
    while i < elements.len()
        invariant
            i <= elements@.len(),
            all == elements_view(elements@),
            strings_view(out@) == texts_of(all.take(i as int)),
        decreases elements@.len() - i,
    {
        assert(all.take(i + 1).drop_last() =~= all.take(i as int));
        assert(all.take(i + 1).last() == elements@[i as int]@);
        if let Some(s) = elements[i].as_str() {
            let ghost before = out@;
            out.push(s.to_owned());
            assert(strings_view(out@) =~= strings_view(before).push(s@));
        }
        i += 1;
    }
    assert(all.take(i as int) =~= all);
    out
}

// ---- parsing ---------------------------------------------------------

/// A parsed value of `serde_json`.
#[verifier::external_type_specification]
#[verifier::external_body]
pub struct ExValue(serde_json::Value);

/// What `serde_json::from_str` reads a text as, where the text is JSON.
pub uninterp spec fn json_value(text: Seq<char>) -> Option<JsonView>;

/// What a value of `serde_json` holds.
pub uninterp spec fn value_contents(v: serde_json::Value) -> JsonView;

/// `serde_json::from_str` is a function of the text: it gives the value that
/// the text writes, or an error where the text is not JSON.
#[verifier::external_body]
fn parse_value(text: &str) -> (r: Option<serde_json::Value>)
    ensures
        match r {
            Some(v) => json_value(text@) == Some(value_contents(v)),
            None => json_value(text@) is None,
        },
{
    serde_json::from_str(text).ok()
}

/// Moves the contents of a `serde_json::Value` into the library's type, one
/// variant for one. `Number::as_u64` and `Number::as_i64` tell the two kinds
/// of integer from other numbers, which `Number::to_string` writes out.
#[verifier::external_body]
fn plain_value(v: serde_json::Value) -> (r: Json)
    ensures
        r@ == value_contents(v),
{
    match v {
        serde_json::Value::Null => Json::Null,
        serde_json::Value::Bool(b) => Json::Bool(b),
        serde_json::Value::Number(n) => match (n.as_u64(), n.as_i64()) {
            (Some(u), _) => Json::Unsigned(u),
            (None, Some(i)) => Json::Negative(i),
            (None, None) => Json::Number(n.to_string()),
        },
        serde_json::Value::String(s) => Json::Text(s),
        serde_json::Value::Array(a) => Json::Array(a.into_iter().map(plain_value).collect()),
        serde_json::Value::Object(m) => Json::Object(
            m.into_iter().map(|(key, v)| Member { key, value: plain_value(v) }).collect(),
        ),
    }
}

/// The value that a JSON text writes.
pub fn parse_json(text: &str) -> (r: Option<Json>)
    ensures
        match r {
            Some(v) => json_value(text@) == Some(v@),
            None => json_value(text@) is None,
        },
{
    match parse_value(text) {
        Some(v) => Some(plain_value(v)),
        None => None,
    }
}

/// Copies strings.
pub fn copy_strings(strings: &Vec<String>) -> (r: Vec<String>)
    ensures
        strings_view(r@) == strings_view(strings@),
{
    let mut out: Vec<String> = Vec::new();
    let mut i: usize = 0;
    while i < strings.len()
        invariant
            i <= strings@.len(),
            out@.len() == i,
            forall|k: int| 0 <= k < i ==> (#[trigger] out@[k])@ == strings@[k]@,
        decreases strings@.len() - i,
    {
        out.push(strings[i].clone());
        i += 1;
    }
    assert(strings_view(out@) =~= strings_view(strings@));
    out
}

// ---- laws --------------------------------------------------------------

/// A member is found by its key, wherever it stands: the value is that of the first
/// member with the key, and there is none where no member has it.
pub proof fn law_member_is_found_by_its_key(members: Seq<MemberView>, key: Seq<char>)
    ensures
        match member_value(members, key) {
            Some(v) => exists|i: int|
                0 <= i < members.len() && (#[trigger] members[i]).key == key && members[i].value
                    == v && forall|k: int| 0 <= k < i ==> (#[trigger] members[k]).key != key,
            None => forall|k: int| 0 <= k < members.len() ==> (#[trigger] members[k]).key != key,
        },
        JsonView::Object(members).get(key) == member_value(members, key),
    decreases members.len(),
{
    if members.len() > 0 {
        let rest = members.skip(1);
        law_member_is_found_by_its_key(rest, key);
        if members[0].key == key {
            assert(members[0].value == member_value(members, key).unwrap());
        } else {
            assert forall|k: int| 1 <= k < members.len() implies members[k] == #[trigger] rest[k
                - 1] by {}
            match member_value(rest, key) {
                Some(v) => {
                    let i = choose|i: int|
                        0 <= i < rest.len() && (#[trigger] rest[i]).key == key && rest[i].value == v
                            && forall|k: int| 0 <= k < i ==> (#[trigger] rest[k]).key != key;
                    assert(members[i + 1] == rest[i]);
                    assert forall|k: int| 0 <= k < i + 1 implies (#[trigger] members[k]).key
                        != key by {
                        if k > 0 {
                            assert(rest[k - 1].key != key);
                        }
                    }
                },
                None => {
                    assert forall|k: int| 0 <= k < members.len() implies (#[trigger] members[k]).key
                        != key by {
                        if k > 0 {
                            assert(rest[k - 1].key != key);
                        }
                    }
                },
            }
        }
    }
}

/// Of an array the texts are kept, all of them and in order; everything else is
/// passed over.
pub proof fn law_texts_are_kept_in_order(a: Seq<JsonView>, b: Seq<JsonView>, v: JsonView)
    ensures
        texts_of(a + b) == texts_of(a) + texts_of(b),
        v matches JsonView::Text(s) ==> texts_of(seq![v]) == seq![s],
        !(v is Text) ==> texts_of(seq![v]) == Seq::<Seq<char>>::empty(),
    decreases b.len(),
{
    assert(seq![v].drop_last() =~= Seq::<JsonView>::empty());
    assert(seq![v].last() == v);
    assert(texts_of(seq![v].drop_last()) == Seq::<Seq<char>>::empty());
    if let JsonView::Text(s) = v {
        assert(texts_of(seq![v]) =~= seq![s]);
    }
    if b.len() == 0 {
        assert(a + b =~= a);
        assert(texts_of(a) + texts_of(b) =~= texts_of(a));
    } else {
        law_texts_are_kept_in_order(a, b.drop_last(), v);
        assert((a + b).drop_last() =~= a + b.drop_last());
        assert((a + b).last() == b.last());
        assert(texts_of(a + b) =~= texts_of(a) + texts_of(b));
    }
}

/// An array of texts alone gives those texts.
pub proof fn law_array_of_texts(texts: Seq<Seq<char>>)
    ensures
        texts_of(texts.map_values(|s: Seq<char>| JsonView::Text(s))) == texts,
    decreases texts.len(),
{
    let a = texts.map_values(|s: Seq<char>| JsonView::Text(s));
    if texts.len() > 0 {
        law_array_of_texts(texts.drop_last());
        assert(a.drop_last() =~= texts.drop_last().map_values(|s: Seq<char>| JsonView::Text(s)));
        assert(a.last() == JsonView::Text(texts.last()));
        assert(texts_of(a) =~= texts);
    } else {
        assert(texts_of(a) =~= texts);
    }
}

/// An integer is read as itself by whichever type holds it, and by no other; what is
/// no integer is read as none.
pub proof fn law_integers_are_read_as_themselves(v: JsonView)
    ensures
        match v {
            JsonView::Unsigned(n) => v.as_u64() == Some(n) && (match v.as_i64() {
                Some(m) => m == n,
                None => n > i64::MAX,
            }),
            JsonView::Negative(n) => v.as_u64() is None && v.as_i64() == Some(n),
            _ => v.as_u64() is None && v.as_i64() is None,
        },
        match v {
            JsonView::Text(s) => v.text() == Some(s),
            _ => v.text() is None,
        },
{
}

} // verus!
