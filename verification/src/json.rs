//! The configuration as a JSON value, flattened, and the shards it lists.

use vstd::prelude::*;
use crate::metadata::Metadata;
use crate::sharding::ConfigView;
use crate::sharding::ShardConfig;
use crate::text::str_eq;

verus! {

/// One member of a JSON object.
pub struct JsonMember {
    pub key: String,
    pub value: JsonValue,
}

/// What a JSON value is. A number is kept as the unsigned integer it stands for, if it
/// stands for one.
pub enum JsonKind {
    Null,
    Bool(bool),
    Number(Option<u64>),
    Text(String),
    Array(Vec<JsonValue>),
    Object(Vec<JsonMember>),
}

/// A JSON value with its compact written form.
pub struct JsonValue {
    pub text: String,
    pub kind: JsonKind,
}

#[verifier::external_type_specification]
#[verifier::external_body]
pub struct ExJsonValue(serde_json::Value);

/// What `serde_json::from_str` reads from a text, as the engine holds it; `None` for a
/// text that is not JSON.
pub uninterp spec fn parsed_json(content: Seq<char>) -> Option<JsonValue>;

/// Takes a `serde_json::Value` apart, variant by variant: its kind, the unsigned
/// integer of a number from `Number::as_u64`, and its written form from `to_string`.
#[verifier::external_body]
fn json_model(v: &serde_json::Value) -> (m: JsonValue) {
    let kind = match v {
        serde_json::Value::Null => JsonKind::Null,
        serde_json::Value::Bool(b) => JsonKind::Bool(*b),
        serde_json::Value::Number(n) => JsonKind::Number(n.as_u64()),
        serde_json::Value::String(s) => JsonKind::Text(s.clone()),
        serde_json::Value::Array(a) => JsonKind::Array(a.iter().map(json_model).collect()),
        serde_json::Value::Object(o) => JsonKind::Object(
            o.iter().map(|(k, x)| JsonMember { key: k.clone(), value: json_model(x) }).collect(),
        ),
    };
    JsonValue { text: v.to_string(), kind }
}

/// Reads a JSON text with `serde_json::from_str`. The result is a function of the text
/// alone.
#[verifier::external_body]
pub(crate) fn parse_json(content: &str) -> (r: Option<JsonValue>)
    ensures
        r == parsed_json(content@),
{
    match serde_json::from_str::<serde_json::Value>(content) {
        Ok(v) => Some(json_model(&v)),
        Err(_) => None,
    }
}

/// A text without the quotation marks at its front.
pub open spec fn strip_front(s: Seq<char>) -> Seq<char>
    decreases s.len(),
{
    if s.len() > 0 && s[0] == '"' {
        strip_front(s.drop_first())
    } else {
        s
    }
}

/// A text without the quotation marks at its back.
pub open spec fn strip_back(s: Seq<char>) -> Seq<char>
    decreases s.len(),
{
    if s.len() > 0 && s.last() == '"' {
        strip_back(s.drop_last())
    } else {
        s
    }
}

/// A text without the quotation marks at its front and at its back.
pub open spec fn trimmed(s: Seq<char>) -> Seq<char> {
    strip_back(strip_front(s))
}

proof fn lemma_strip_front(s: Seq<char>, i: int)
    requires
        0 <= i <= s.len(),
        forall|j: int| 0 <= j < i ==> s[j] == '"',
        i < s.len() ==> s[i] != '"',
    ensures
        strip_front(s) == s.subrange(i, s.len() as int),
    decreases i,
{
    if i == 0 {
        assert(s.subrange(0, s.len() as int) =~= s);
    } else {
        let rest = s.drop_first();
        assert forall|j: int| 0 <= j < i - 1 implies rest[j] == '"' by {
            assert(rest[j] == s[j + 1]);
        }
        lemma_strip_front(rest, i - 1);
        assert(rest.subrange(i - 1, rest.len() as int) =~= s.subrange(i, s.len() as int));
    }
}

proof fn lemma_strip_back(s: Seq<char>, j: int)
    requires
        0 <= j <= s.len(),
        forall|t: int| j <= t < s.len() ==> s[t] == '"',
        j > 0 ==> s[j - 1] != '"',
    ensures
        strip_back(s) == s.subrange(0, j),
    decreases s.len() - j,
{
    if j == s.len() {
        assert(s.subrange(0, j) =~= s);
    } else {
        let rest = s.drop_last();
        lemma_strip_back(rest, j);
        assert(rest.subrange(0, j) =~= s.subrange(0, j));
    }
}

/// Strips the quotation marks from the front and the back of a text.
pub fn trim_quotes(s: &str) -> (r: String)
    ensures
        r@ == trimmed(s@),
{
    let n = s.unicode_len();
    let mut i: usize = 0;
    while i < n && s.get_char(i) == '"'
        invariant
            0 <= i <= n,
            n == s@.len(),
            forall|t: int| 0 <= t < i ==> s@[t] == '"',
        decreases n - i,
    {
        i += 1;
    }
    let mut j: usize = n;
    while j > i && s.get_char(j - 1) == '"'
        invariant
            i <= j <= n,
            n == s@.len(),
            forall|t: int| j <= t < n ==> s@[t] == '"',
        decreases j,
    {
        j -= 1;
    }
    proof {
        let front = s@.subrange(i as int, n as int);
        lemma_strip_front(s@, i as int);
        assert forall|t: int| j - i <= t < front.len() implies front[t] == '"' by {
            assert(front[t] == s@[t + i]);
        }
        if j > i {
            assert(front[j - i - 1] == s@[j - 1]);
        }
        lemma_strip_back(front, j - i);
        assert(front.subrange(0, j - i) =~= s@.subrange(i as int, j as int));
    }
    s.substring_char(i, j).to_owned()
}

/// The value of the first member under `key`.
pub open spec fn lookup(ms: Seq<JsonMember>, key: Seq<char>) -> Option<JsonValue>
    decreases ms.len(),
{
    if ms.len() == 0 {
        None
    } else if ms[0].key@ == key {
        Some(ms[0].value)
    } else {
        lookup(ms.drop_first(), key)
    }
}

/// The members of an object; none for any other value.
pub open spec fn members_of(v: JsonValue) -> Seq<JsonMember> {
    match v.kind {
        JsonKind::Object(ms) => ms@,
        _ => Seq::empty(),
    }
}

/// Finds the value of the first member under `key`.
pub fn member<'a>(ms: &'a Vec<JsonMember>, key: &str) -> (r: Option<&'a JsonValue>)
    ensures
        match r {
            Some(v) => lookup(ms@, key@) == Some(*v),
            None => lookup(ms@, key@) is None,
        },
{
    let mut i: usize = 0;
    assert(ms@.skip(0) =~= ms@);
    while i < ms.len()
        invariant
            0 <= i <= ms@.len(),
            lookup(ms@, key@) == lookup(ms@.skip(i as int), key@),
        decreases ms.len() - i,
    {
        proof {
            let rest = ms@.skip(i as int);
            assert(rest[0] == ms@[i as int]);
            assert(rest.drop_first() =~= ms@.skip(i + 1));
        }
        if str_eq(ms[i].key.as_str(), key) {
            return Some(&ms[i].value);
        }
        i += 1;
    }
    assert(ms@.skip(i as int).len() == 0);
    None
}

/// Finds a member of an object; a value that is no object has none.
pub fn get<'a>(v: &'a JsonValue, key: &str) -> (r: Option<&'a JsonValue>)
    ensures
        match r {
            Some(x) => lookup(members_of(*v), key@) == Some(*x),
            None => lookup(members_of(*v), key@) is None,
        },
{
    match &v.kind {
        JsonKind::Object(ms) => member(ms, key),
        _ => None,
    }
}

/// The flat entries after the first `n` members of the object under `section` are
/// added to `acc`: each under `section.key`, with its written form without quotation
/// marks at either end.
pub open spec fn with_inner(
    acc: Map<Seq<char>, Seq<char>>,
    section: Seq<char>,
    inner: Seq<JsonMember>,
    n: nat,
) -> Map<Seq<char>, Seq<char>>
    decreases n,
{
    if n == 0 {
        acc
    } else {
        with_inner(acc, section, inner, (n - 1) as nat).insert(
            section + "."@ + inner[n - 1].key@,
            trimmed(inner[n - 1].value.text@),
        )
    }
}

/// The flat entries after one top-level member is added to `acc`: an object gives one
/// entry per member of its own, anything else one entry under its own key.
pub open spec fn with_member(acc: Map<Seq<char>, Seq<char>>, m: JsonMember) -> Map<Seq<char>, Seq<char>> {
    match m.value.kind {
        JsonKind::Object(inner) => with_inner(acc, m.key@, inner@, inner@.len()),
        _ => acc.insert(m.key@, trimmed(m.value.text@)),
    }
}

/// The flat entries of the first `n` top-level members.
pub open spec fn flat_upto(ms: Seq<JsonMember>, n: nat) -> Map<Seq<char>, Seq<char>>
    decreases n,
{
    if n == 0 {
        Map::empty()
    } else {
        with_member(flat_upto(ms, (n - 1) as nat), ms[n - 1])
    }
}

/// A configuration flattened to one level; a value that is no object has no entries.
pub open spec fn flat_of(v: JsonValue) -> Map<Seq<char>, Seq<char>> {
    flat_upto(members_of(v), members_of(v).len())
}

/// Flattens a configuration to one level: `section.key` to value.
pub fn flatten(json: &JsonValue) -> (flat: Metadata)
    ensures
        flat.wf(),
        flat@ == flat_of(*json),
{
    let mut flat = Metadata::new();
    match &json.kind {
        JsonKind::Object(ms) => {
            let mut i: usize = 0;
            while i < ms.len()
                invariant
                    0 <= i <= ms@.len(),
                    flat.wf(),
                    flat@ == flat_upto(ms@, i as nat),
                decreases ms.len() - i,
            {
                let m = &ms[i];
                match &m.value.kind {
                    JsonKind::Object(inner) => {
                        let ghost acc = flat@;
                        let mut j: usize = 0;
                        while j < inner.len()
                            invariant
                                0 <= j <= inner@.len(),
                                flat.wf(),
                                flat@ == with_inner(acc, m.key@, inner@, j as nat),
                            decreases inner.len() - j,
                        {
                            let key = m.key.clone().concat(".").concat(inner[j].key.as_str());
                            flat.insert(key, trim_quotes(inner[j].value.text.as_str()));
                            j += 1;
                        }
                    },
                    _ => {
                        flat.insert(m.key.clone(), trim_quotes(m.value.text.as_str()));
                    },
                }
                i += 1;
            }
        },
        _ => {},
    }
    flat
}

/// The text of a value, or `default` where the value is missing or no text.
pub open spec fn text_or(v: Option<JsonValue>, default: Seq<char>) -> Seq<char> {
    match v {
        Some(x) => match x.kind {
            JsonKind::Text(s) => s@,
            _ => default,
        },
        None => default,
    }
}

/// The text of a value, if it is there and a text.
pub open spec fn text_of(v: Option<JsonValue>) -> Option<Seq<char>> {
    match v {
        Some(x) => match x.kind {
            JsonKind::Text(s) => Some(s@),
            _ => None,
        },
        None => None,
    }
}

/// A shard's port: the low sixteen bits of the number given, 8080 where none is
/// given.
pub open spec fn port_of(v: Option<JsonValue>) -> u16 {
    match v {
        Some(x) => match x.kind {
            JsonKind::Number(Some(n)) => n as u16,
            _ => 8080,
        },
        None => 8080,
    }
}

/// The shard that an item of the shard list describes: identifier `unknown` and host
/// `127.0.0.1` where none is given; an item that is no object describes none.
pub open spec fn shard_of(item: JsonValue) -> Option<ConfigView> {
    match item.kind {
        JsonKind::Object(ms) => Some(
            ConfigView {
                id: text_or(lookup(ms@, "id"@), "unknown"@),
                host: text_or(lookup(ms@, "host"@), "127.0.0.1"@),
                port: port_of(lookup(ms@, "port"@)),
                description: text_of(lookup(ms@, "description"@)),
            },
        ),
        _ => None,
    }
}

/// The shards that the first `n` items describe, in order.
pub open spec fn shards_upto(items: Seq<JsonValue>, n: nat) -> Seq<ConfigView>
    decreases n,
{
    if n == 0 {
        Seq::empty()
    } else {
        match shard_of(items[n - 1]) {
            Some(c) => shards_upto(items, (n - 1) as nat).push(c),
            None => shards_upto(items, (n - 1) as nat),
        }
    }
}

/// The shards listed under `sharding.shards`, if that is a list.
pub open spec fn shard_list(json: JsonValue) -> Option<Seq<ConfigView>> {
    match lookup(members_of(json), "sharding"@) {
        Some(sharding) => match lookup(members_of(sharding), "shards"@) {
            Some(list) => match list.kind {
                JsonKind::Array(items) => Some(shards_upto(items@, items@.len())),
                _ => None,
            },
            None => None,
        },
        None => None,
    }
}

fn text_value(v: Option<&JsonValue>) -> (r: Option<String>)
    ensures
        match r {
            Some(s) => text_of(match v {
                Some(x) => Some(*x),
                None => None,
            }) == Some(s@),
            None => text_of(match v {
                Some(x) => Some(*x),
                None => None,
            }) is None,
        },
{
    match v {
        Some(x) => match &x.kind {
            JsonKind::Text(s) => Some(s.clone()),
            _ => None,
        },
        None => None,
    }
}

fn shard_from(item: &JsonValue) -> (r: Option<ShardConfig>)
    ensures
        match r {
            Some(c) => shard_of(*item) == Some(c@),
            None => shard_of(*item) is None,
        },
{
    match &item.kind {
        JsonKind::Object(ms) => {
            let id = match text_value(member(ms, "id")) {
                Some(s) => s,
                None => "unknown".to_owned(),
            };
            let host = match text_value(member(ms, "host")) {
                Some(s) => s,
                None => "127.0.0.1".to_owned(),
            };
            let port: u16 = match member(ms, "port") {
                Some(x) => match x.kind {
                    JsonKind::Number(Some(n)) => {
                        let p: u16 = #[verifier::truncate] (n as u16);
                        p
                    },
                    _ => 8080,
                },
                None => 8080,
            };
            let description = text_value(member(ms, "description"));
            Some(ShardConfig { id, host, port, description })
        },
        _ => None,
    }
}

/// The shards listed under `sharding.shards`.
pub fn shard_configs_of(json: &JsonValue) -> (r: Option<Vec<ShardConfig>>)
    ensures
        match r {
            Some(cs) => shard_list(*json) == Some(Seq::new(cs@.len(), |i: int| cs@[i]@)),
            None => shard_list(*json) is None,
        },
{
    let sharding = match get(json, "sharding") {
        Some(s) => s,
        None => {
            return None;
        },
    };
    let list = match get(sharding, "shards") {
        Some(l) => l,
        None => {
            return None;
        },
    };
    match &list.kind {
        JsonKind::Array(items) => {
            let mut configs: Vec<ShardConfig> = Vec::new();
            let mut i: usize = 0;
            assert(Seq::new(configs@.len(), |t: int| configs@[t]@) =~= shards_upto(items@, 0));
            while i < items.len()
                invariant
                    0 <= i <= items@.len(),
                    Seq::new(configs@.len(), |t: int| configs@[t]@) == shards_upto(items@, i as nat),
                decreases items.len() - i,
            {
                let ghost done = Seq::new(configs@.len(), |t: int| configs@[t]@);
                match shard_from(&items[i]) {
                    Some(c) => {
                        let ghost cv = c@;
                        configs.push(c);
                        assert(Seq::new(configs@.len(), |t: int| configs@[t]@) =~= done.push(cv));
                    },
                    None => {},
                }
                i += 1;
            }
            Some(configs)
        },
        _ => None,
    }
}

} // verus!
