//! JSON values, and their text by way of `serde_json`.

use vstd::prelude::*;

use crate::config::opt_str;
use crate::number::signed_value;
use crate::process::signed_decimal;
use crate::text::{opt_text, same};

verus! {

#[verifier::external_type_specification]
#[verifier::external_body]
pub struct ExValue(serde_json::Value);

#[verifier::external_type_specification]
#[verifier::external_body]
pub struct ExNumber(serde_json::Number);

/// A JSON value. Where an object names a key twice, the last one counts.
pub enum Json {
    Null,
    Bool(bool),
    Number(serde_json::Number),
    Text(String),
    Array(Vec<Json>),
    Object(Vec<(String, Json)>),
}

/// What a JSON value says, as mathematical values.
pub enum JsonModel {
    Null,
    Bool(bool),
    Number(serde_json::Number),
    Text(Seq<char>),
    Array(Seq<JsonModel>),
    Object(Map<Seq<char>, JsonModel>),
}

impl View for Json {
    type V = JsonModel;

    open spec fn view(&self) -> JsonModel {
        json_model(*self)
    }
}

pub open spec fn json_model(json: Json) -> JsonModel
    decreases json,
{
    match json {
        Json::Null => JsonModel::Null,
        Json::Bool(b) => JsonModel::Bool(b),
        Json::Number(n) => JsonModel::Number(n),
        Json::Text(s) => JsonModel::Text(s@),
        Json::Array(items) => JsonModel::Array(models(items@)),
        Json::Object(fields) => JsonModel::Object(fields_model(fields@)),
    }
}

/// The models of a list of values.
pub open spec fn models(items: Seq<Json>) -> Seq<JsonModel>
    decreases items,
{
    if items.len() == 0 {
        Seq::empty()
    } else {
        models(items.drop_last()).push(json_model(items.last()))
    }
}

/// The models of the fields of an object, the last of each key.
pub open spec fn fields_model(fields: Seq<(String, Json)>) -> Map<Seq<char>, JsonModel>
    decreases fields,
{
    if fields.len() == 0 {
        Map::empty()
    } else {
        fields_model(fields.drop_last()).insert(fields.last().0@, json_model(fields.last().1))
    }
}

pub proof fn lemma_models(items: Seq<Json>)
    ensures
        models(items).len() == items.len(),
        forall|i: int| 0 <= i < items.len() ==> #[trigger] models(items)[i] == items[i]@,
    decreases items,
{
    if items.len() > 0 {
        lemma_models(items.drop_last());
    }
}

pub proof fn lemma_fields_finite(fields: Seq<(String, Json)>)
    ensures
        fields_model(fields).dom().finite(),
        forall|key: Seq<char>| #[trigger] fields_model(fields).dom().contains(key) <==> exists|i: int|
            0 <= i < fields.len() && (#[trigger] fields[i]).0@ == key,
    decreases fields,
{
    if fields.len() > 0 {
        let before = fields.drop_last();
        lemma_fields_finite(before);
        assert forall|key: Seq<char>| #[trigger] fields_model(fields).dom().contains(key) implies exists|i: int|
            0 <= i < fields.len() && (#[trigger] fields[i]).0@ == key by {
            if key == fields.last().0@ {
                assert(fields[fields.len() - 1].0@ == key);
            } else {
                assert(fields_model(before).dom().contains(key));
                let i = choose|i: int| 0 <= i < before.len() && (#[trigger] before[i]).0@ == key;
                assert(fields[i].0@ == key);
            }
        }
        assert forall|key: Seq<char>|
            (exists|i: int| 0 <= i < fields.len() && (#[trigger] fields[i]).0@ == key) implies #[trigger] fields_model(
            fields,
        ).dom().contains(key) by {
            let i = choose|i: int| 0 <= i < fields.len() && (#[trigger] fields[i]).0@ == key;
            if i < before.len() {
                assert(before[i].0@ == key);
                assert(fields_model(before).dom().contains(key));
            }
        }
    }
}

/// What `serde_json` holds in a value.
pub uninterp spec fn value_model(v: serde_json::Value) -> JsonModel;

/// What `serde_json` reads from a text: a value, or what it says is wrong.
pub uninterp spec fn json_read(text: Seq<char>) -> Result<JsonModel, Seq<char>>;

/// How `serde_json` writes a value on one line.
pub uninterp spec fn json_written(value: JsonModel) -> Seq<char>;

/// How `serde_json` writes a value with indentation.
pub uninterp spec fn json_pretty(value: JsonModel) -> Seq<char>;

/// The number that `serde_json` makes of an integer.
pub uninterp spec fn number_of(n: int) -> serde_json::Number;

/// Whether a number is an integer.
pub open spec fn is_integer(n: serde_json::Number) -> bool {
    exists|k: int| i64::MIN <= k <= u64::MAX && n == #[trigger] number_of(k)
}

/// How deep values are nested at most that are read.
pub open spec fn read_depth() -> nat {
    127
}

/// Whether nothing of a value is lost when it is written and read: its numbers
/// are integers, and nothing in it is nested deeper than `depth`.
pub open spec fn is_lossless(value: JsonModel, depth: nat) -> bool
    decreases depth,
{
    match value {
        JsonModel::Number(n) => is_integer(n),
        JsonModel::Array(items) => depth > 0 && forall|i: int|
            0 <= i < items.len() ==> is_lossless(#[trigger] items[i], (depth - 1) as nat),
        JsonModel::Object(fields) => depth > 0 && forall|key: Seq<char>|
            fields.dom().contains(key) ==> is_lossless(#[trigger] fields[key], (depth - 1) as nat),
        _ => true,
    }
}

/// Whether a text is read as that value.
pub open spec fn reads_as(text: Seq<char>, value: JsonModel) -> bool {
    json_read(text) == Ok::<JsonModel, Seq<char>>(value)
}

/// A `serde_json` value, opened by one level.
pub enum Opened {
    Null,
    Bool(bool),
    Number(serde_json::Number),
    Text(String),
    Array(Vec<serde_json::Value>),
    Object(Vec<(String, serde_json::Value)>),
}

pub open spec fn value_models(items: Seq<serde_json::Value>) -> Seq<JsonModel> {
    items.map_values(|v: serde_json::Value| value_model(v))
}

pub open spec fn value_fields(fields: Seq<(String, serde_json::Value)>) -> Map<Seq<char>, JsonModel>
    decreases fields.len(),
{
    if fields.len() == 0 {
        Map::empty()
    } else {
        value_fields(fields.drop_last()).insert(fields.last().0@, value_model(fields.last().1))
    }
}

pub open spec fn opened_model(o: Opened) -> JsonModel {
    match o {
        Opened::Null => JsonModel::Null,
        Opened::Bool(b) => JsonModel::Bool(b),
        Opened::Number(n) => JsonModel::Number(n),
        Opened::Text(s) => JsonModel::Text(s@),
        Opened::Array(items) => JsonModel::Array(value_models(items@)),
        Opened::Object(fields) => JsonModel::Object(value_fields(fields@)),
    }
}

/// `serde_json::from_str` for `serde_json::Value`: reads a text. The value,
/// or the text of the error, is a function of the text that is read.
#[verifier::external_body]
fn read_value(text: &str) -> (r: Result<serde_json::Value, String>)
    ensures
        match r {
            Ok(v) => json_read(text@) == Ok::<JsonModel, Seq<char>>(value_model(v)),
            Err(e) => json_read(text@) == Err::<JsonModel, Seq<char>>(e@),
        },
{
    serde_json::from_str::<serde_json::Value>(text).map_err(|error| error.to_string())
}

/// `serde_json::Value`: tells its variants apart and hands out what they
/// hold. An object, a `serde_json::Map`, hands out each of its keys once.
#[verifier::external_body]
fn open_value(value: serde_json::Value) -> (r: Opened)
    ensures
        opened_model(r) == value_model(value),
        r matches Opened::Object(fields) ==> forall|i: int, j: int|
            0 <= i < j < fields@.len() ==> (#[trigger] fields@[i]).0@ != (#[trigger] fields@[j]).0@,
{
    match value {
        serde_json::Value::Null => Opened::Null,
        serde_json::Value::Bool(b) => Opened::Bool(b),
        serde_json::Value::Number(n) => Opened::Number(n),
        serde_json::Value::String(s) => Opened::Text(s),
        serde_json::Value::Array(items) => Opened::Array(items),
        serde_json::Value::Object(map) => Opened::Object(map.into_iter().collect()),
    }
}

/// `serde_json::Value`: makes a value of what a variant holds. Of fields with
/// the same key, the `serde_json::Map` keeps the last.
#[verifier::external_body]
fn close_value(opened: Opened) -> (r: serde_json::Value)
    ensures
        value_model(r) == opened_model(opened),
{
    match opened {
        Opened::Null => serde_json::Value::Null,
        Opened::Bool(b) => serde_json::Value::Bool(b),
        Opened::Number(n) => serde_json::Value::Number(n),
        Opened::Text(s) => serde_json::Value::String(s),
        Opened::Array(items) => serde_json::Value::Array(items),
        Opened::Object(fields) => serde_json::Value::Object(fields.into_iter().collect()),
    }
}

/// `serde_json::Number::clone`: the same number.
#[verifier::external_body]
fn clone_number(n: &serde_json::Number) -> (r: serde_json::Number)
    ensures
        r == *n,
{
    n.clone()
}

/// `serde_json::to_string` of a `serde_json::Value`. The text is a function of
/// the value. The call does not fail: the keys of a `serde_json::Value` are
/// strings, and the text is written to memory. The text is one line: control
/// characters in strings are escaped, and no white space is put in. Reading it
/// gives the value back, where no number of it is a floating-point number and
/// it is nested no deeper than is read.
#[verifier::external_body]
fn write_value(value: &serde_json::Value) -> (r: Result<String, String>)
    ensures
        r is Ok,
        r matches Ok(text) ==> text@ == json_written(value_model(*value)),
        r matches Ok(text) ==> !text@.contains('\n') && !text@.contains('\r'),
        r matches Ok(text) ==> is_lossless(value_model(*value), read_depth()) ==> reads_as(
            text@,
            value_model(*value),
        ),
{
    serde_json::to_string(value).map_err(|error| error.to_string())
}

/// `serde_json::to_string_pretty` of a `serde_json::Value`. The text is a
/// function of the value, and the call does not fail, as above.
#[verifier::external_body]
fn write_value_pretty(value: &serde_json::Value) -> (r: Result<String, String>)
    ensures
        r is Ok,
        r matches Ok(text) ==> text@ == json_pretty(value_model(*value)),
{
    serde_json::to_string_pretty(value).map_err(|error| error.to_string())
}

proof fn lemma_value_fields(fields: Seq<(String, serde_json::Value)>)
    requires
        forall|i: int, j: int| 0 <= i < j < fields.len() ==> (#[trigger] fields[i]).0@ != (#[trigger] fields[j]).0@,
    ensures
        value_fields(fields).dom().finite(),
        forall|i: int| 0 <= i < fields.len() ==> value_fields(fields).dom().contains((#[trigger] fields[i]).0@)
            && value_fields(fields)[fields[i].0@] == value_model(fields[i].1),
    decreases fields.len(),
{
    if fields.len() > 0 {
        let before = fields.drop_last();
        assert forall|i: int, j: int| 0 <= i < j < before.len() implies (#[trigger] before[i]).0@ != (#[trigger] before[j]).0@ by {
            assert(fields[i].0@ != fields[j].0@);
        }
        lemma_value_fields(before);
        assert forall|i: int| 0 <= i < fields.len() implies value_fields(fields).dom().contains(
            (#[trigger] fields[i]).0@,
        ) && value_fields(fields)[fields[i].0@] == value_model(fields[i].1) by {
            if i < before.len() {
                assert(before[i] == fields[i]);
                assert(fields[i].0@ != fields[fields.len() - 1].0@);
            }
        }
    }
}

fn json_from_value(value: serde_json::Value) -> (r: Json)
    ensures
        r@ == value_model(value),
    decreases value_model(value),
{
    let ghost whole = value_model(value);
    match open_value(value) {
        Opened::Null => Json::Null,
        Opened::Bool(b) => Json::Bool(b),
        Opened::Number(n) => Json::Number(n),
        Opened::Text(s) => Json::Text(s),
        Opened::Array(items) => {
            let ghost all = items@;
            let mut out: Vec<Json> = Vec::new();
            for item in it: items
                invariant
                    it.seq() == all,
                    whole == value_model(value),
                    whole == JsonModel::Array(value_models(all)),
                    models(out@) == value_models(all).take(it.index() as int),
            {
                let ghost parts = value_models(all);
                assert(parts[it.index() as int] == value_model(item));
                assert(decreases_to!(whole => whole->Array_0));
                assert(decreases_to!(parts => parts[it.index() as int]));
                let next = json_from_value(item);
                let ghost before = out@;
                out.push(next);
                assert(out@.drop_last() =~= before);
                assert(models(out@) =~= value_models(all).take(it.index() + 1));
            }
            assert(value_models(all).take(all.len() as int) =~= value_models(all));
            Json::Array(out)
        },
        Opened::Object(fields) => {
            let ghost all = fields@;
            proof {
                lemma_value_fields(all);
            }
            let mut out: Vec<(String, Json)> = Vec::new();
            for field in it: fields
                invariant
                    it.seq() == all,
                    whole == value_model(value),
                    whole == JsonModel::Object(value_fields(all)),
                    value_fields(all).dom().finite(),
                    forall|i: int| 0 <= i < all.len() ==> value_fields(all).dom().contains((#[trigger] all[i]).0@)
                        && value_fields(all)[all[i].0@] == value_model(all[i].1),
                    fields_model(out@) == value_fields(all.take(it.index() as int)),
            {
                let ghost k = it.index() as int;
                assert(all[k] == field);
                let (key, inner) = field;
                let ghost parts = value_fields(all);
                assert(parts[key@] == value_model(inner));
                assert(decreases_to!(whole => whole->Object_0));
                assert(decreases_to!(parts => parts[key@]));
                let next = json_from_value(inner);
                let ghost before = out@;
                out.push((key, next));
                assert(out@.drop_last() =~= before);
                assert(all.take(k + 1).drop_last() =~= all.take(k));
            }
            assert(all.take(all.len() as int) =~= all);
            Json::Object(out)
        },
    }
}

fn value_from_json(json: &Json) -> (r: serde_json::Value)
    ensures
        value_model(r) == json@,
    decreases json,
{
    match json {
        Json::Null => close_value(Opened::Null),
        Json::Bool(b) => close_value(Opened::Bool(*b)),
        Json::Number(n) => close_value(Opened::Number(clone_number(n))),
        Json::Text(s) => close_value(Opened::Text(s.clone())),
        Json::Array(items) => {
            proof {
                lemma_models(items@);
            }
            let mut out: Vec<serde_json::Value> = Vec::new();
            for i in 0..items.len()
                invariant
                    *json == Json::Array(*items),
                    out@.len() == i,
                    value_models(out@) == models(items@).take(i as int),
                    models(items@).len() == items@.len(),
            {
                proof {
                    lemma_models(items@);
                }
                assert(decreases_to!(*json => json->Array_0));
                assert(decreases_to!(*items => items@));
                assert(decreases_to!(items@ => items@[i as int]));
                let next = value_from_json(&items[i]);
                out.push(next);
                assert(value_models(out@) =~= models(items@).take(i + 1));
            }
            assert(models(items@).take(items@.len() as int) =~= models(items@));
            close_value(Opened::Array(out))
        },
        Json::Object(fields) => {
            let mut out: Vec<(String, serde_json::Value)> = Vec::new();
            for i in 0..fields.len()
                invariant
                    *json == Json::Object(*fields),
                    out@.len() == i,
                    value_fields(out@) == fields_model(fields@.take(i as int)),
            {
                assert(decreases_to!(*json => json->Object_0));
                assert(decreases_to!(*fields => fields@));
                assert(decreases_to!(fields@ => fields@[i as int]));
                assert(decreases_to!(fields@[i as int] => fields@[i as int].1));
                let next = value_from_json(&fields[i].1);
                let ghost before = out@;
                out.push((fields[i].0.clone(), next));
                assert(out@.drop_last() =~= before);
                assert(fields@.take(i + 1).drop_last() =~= fields@.take(i as int));
            }
            assert(fields@.take(fields@.len() as int) =~= fields@);
            close_value(Opened::Object(out))
        },
    }
}

/// Reads a JSON text.
pub fn parse_json(text: &str) -> (r: Result<Json, String>)
    ensures
        match r {
            Ok(j) => json_read(text@) == Ok::<JsonModel, Seq<char>>(j@),
            Err(e) => json_read(text@) == Err::<JsonModel, Seq<char>>(e@),
        },
{
    match read_value(text) {
        Ok(value) => Ok(json_from_value(value)),
        Err(e) => Err(e),
    }
}

/// Writes a JSON value on one line.
pub fn json_text(json: &Json) -> (r: Result<String, String>)
    ensures
        r matches Ok(text) && text@ == json_written(json@) && !text@.contains('\n') && !text@.contains('\r'),
        r matches Ok(text) ==> is_lossless(json@, read_depth()) ==> reads_as(text@, json@),
{
    let value = value_from_json(json);
    write_value(&value)
}

/// Writes a JSON value with indentation.
pub fn json_text_pretty(json: &Json) -> (r: Result<String, String>)
    ensures
        r matches Ok(text) && text@ == json_pretty(json@),
{
    let value = value_from_json(json);
    write_value_pretty(&value)
}

/// The text of a number.
pub open spec fn number_text_of(n: serde_json::Number) -> Seq<char> {
    json_written(JsonModel::Number(n))
}

/// Whether two numbers of these texts are equal: the same text, or zero as a
/// floating-point number with either sign.
pub open spec fn same_number(a: Seq<char>, b: Seq<char>) -> bool {
    a == b || ((a == "0.0"@ || a == "-0.0"@) && (b == "0.0"@ || b == "-0.0"@))
}

/// `serde_json::Number::to_string`: the text of a number, as in JSON.
#[verifier::external_body]
pub(crate) fn json_number_text(n: &serde_json::Number) -> (r: String)
    ensures
        r@ == number_text_of(*n),
{
    n.to_string()
}

/// `serde_json::Number::as_i64`: the number, if it is an integer in the range
/// of `i64`. Such a number has that integer for its text, and the text of any
/// other number is not one.
#[verifier::external_body]
pub(crate) fn json_number_as_i64(n: &serde_json::Number) -> (r: Option<i64>)
    ensures
        match r {
            Some(i) => signed_value(number_text_of(*n)) == Some(i as int),
            None => signed_value(number_text_of(*n)) is None,
        },
{
    n.as_i64()
}

/// `serde_json::Number` under `==`: integers are equal when their texts are,
/// floating-point numbers too, and either zero equals the other.
#[verifier::external_body]
fn numbers_equal(a: &serde_json::Number, b: &serde_json::Number) -> (r: bool)
    ensures
        r == same_number(number_text_of(*a), number_text_of(*b)),
{
    a == b
}

/// The value of a key, if the value is an object that has it.
pub open spec fn field(value: JsonModel, key: Seq<char>) -> Option<JsonModel> {
    match value {
        JsonModel::Object(fields) => if fields.dom().contains(key) {
            Some(fields[key])
        } else {
            None
        },
        _ => None,
    }
}

/// The value of a key, if there is a value that has it.
pub open spec fn field_of(value: Option<JsonModel>, key: Seq<char>) -> Option<JsonModel> {
    match value {
        Some(v) => field(v, key),
        None => None,
    }
}

/// The text, if there is a value and it is one.
pub open spec fn text_of(value: Option<JsonModel>) -> Option<Seq<char>> {
    match value {
        Some(JsonModel::Text(s)) => Some(s),
        _ => None,
    }
}

/// The truth value, if there is a value and it is one.
pub open spec fn bool_of(value: Option<JsonModel>) -> Option<bool> {
    match value {
        Some(JsonModel::Bool(b)) => Some(b),
        _ => None,
    }
}

/// The value, unless it is null.
pub open spec fn unless_null(value: Option<JsonModel>) -> Option<JsonModel> {
    match value {
        Some(JsonModel::Null) => None,
        other => other,
    }
}

pub open spec fn opt_json(value: Option<&Json>) -> Option<JsonModel> {
    match value {
        Some(j) => Some(j@),
        None => None,
    }
}

/// The place of the last field with the key.
pub(crate) fn last_with_key(fields: &Vec<(String, Json)>, key: &str) -> (r: Option<usize>)
    ensures
        match r {
            Some(i) => {
                &&& i < fields@.len()
                &&& fields@[i as int].0@ == key@
                &&& fields_model(fields@).dom().contains(key@)
                &&& fields_model(fields@)[key@] == fields@[i as int].1@
            },
            None => {
                &&& !fields_model(fields@).dom().contains(key@)
                &&& forall|i: int| 0 <= i < fields@.len() ==> (#[trigger] fields@[i]).0@ != key@
            },
        },
{
    let mut i: usize = fields.len();
    assert(fields@.take(i as int) =~= fields@);
    while i > 0
        invariant
            i <= fields@.len(),
            forall|k: int| i <= k < fields@.len() ==> (#[trigger] fields@[k]).0@ != key@,
            fields_model(fields@).dom().contains(key@) == fields_model(fields@.take(i as int)).dom().contains(key@),
            fields_model(fields@).dom().contains(key@) ==> fields_model(fields@)[key@] == fields_model(
                fields@.take(i as int),
            )[key@],
        decreases i,
    {
        i -= 1;
        assert(fields@.take(i + 1).drop_last() =~= fields@.take(i as int));
        if same(fields[i].0.as_str(), key) {
            return Some(i);
        }
    }
    None
}

impl Json {
    pub fn get(&self, key: &str) -> (r: Option<&Json>)
        ensures
            opt_json(r) == field(self@, key@),
    {
        match self {
            Json::Object(fields) => match last_with_key(fields, key) {
                Some(i) => Some(&fields[i].1),
                None => None,
            },
            _ => None,
        }
    }

    /// A value that says the same.
    pub fn duplicate(&self) -> (r: Json)
        ensures
            r@ == self@,
        decreases self,
    {
        match self {
            Json::Null => Json::Null,
            Json::Bool(b) => Json::Bool(*b),
            Json::Number(n) => Json::Number(clone_number(n)),
            Json::Text(s) => Json::Text(s.clone()),
            Json::Array(items) => {
                let mut out: Vec<Json> = Vec::new();
                for i in 0..items.len()
                    invariant
                        *self == Json::Array(*items),
                        models(out@) == models(items@.take(i as int)),
                {
                    assert(decreases_to!(*self => self->Array_0));
                    assert(decreases_to!(*items => items@));
                    assert(decreases_to!(items@ => items@[i as int]));
                    let next = items[i].duplicate();
                    let ghost before = out@;
                    out.push(next);
                    assert(out@.drop_last() =~= before);
                    assert(items@.take(i + 1).drop_last() =~= items@.take(i as int));
                }
                assert(items@.take(items@.len() as int) =~= items@);
                Json::Array(out)
            },
            Json::Object(fields) => {
                let mut out: Vec<(String, Json)> = Vec::new();
                for i in 0..fields.len()
                    invariant
                        *self == Json::Object(*fields),
                        fields_model(out@) == fields_model(fields@.take(i as int)),
                {
                    assert(decreases_to!(*self => self->Object_0));
                    assert(decreases_to!(*fields => fields@));
                    assert(decreases_to!(fields@ => fields@[i as int]));
                    assert(decreases_to!(fields@[i as int] => fields@[i as int].1));
                    let next = fields[i].1.duplicate();
                    let ghost before = out@;
                    out.push((fields[i].0.clone(), next));
                    assert(out@.drop_last() =~= before);
                    assert(fields@.take(i + 1).drop_last() =~= fields@.take(i as int));
                }
                assert(fields@.take(fields@.len() as int) =~= fields@);
                Json::Object(out)
            },
        }
    }
}

pub fn get_of<'a>(value: Option<&'a Json>, key: &str) -> (r: Option<&'a Json>)
    ensures
        opt_json(r) == field_of(opt_json(value), key@),
{
    match value {
        Some(v) => v.get(key),
        None => None,
    }
}

pub fn as_text<'a>(value: Option<&'a Json>) -> (r: Option<&'a str>)
    ensures
        opt_str(r) == text_of(opt_json(value)),
{
    match value {
        Some(Json::Text(s)) => Some(s.as_str()),
        _ => None,
    }
}

pub fn as_bool(value: Option<&Json>) -> (r: Option<bool>)
    ensures
        r == bool_of(opt_json(value)),
{
    match value {
        Some(Json::Bool(b)) => Some(*b),
        _ => None,
    }
}

pub fn filter_null<'a>(value: Option<&'a Json>) -> (r: Option<&'a Json>)
    ensures
        opt_json(r) == unless_null(opt_json(value)),
{
    match value {
        Some(Json::Null) => None,
        other => other,
    }
}

/// Whether two values are equal, their numbers by `same_number`.
pub open spec fn same_json(a: JsonModel, b: JsonModel) -> bool
    decreases a,
{
    match (a, b) {
        (JsonModel::Null, JsonModel::Null) => true,
        (JsonModel::Bool(x), JsonModel::Bool(y)) => x == y,
        (JsonModel::Number(x), JsonModel::Number(y)) => same_number(number_text_of(x), number_text_of(y)),
        (JsonModel::Text(x), JsonModel::Text(y)) => x == y,
        (JsonModel::Array(x), JsonModel::Array(y)) => x.len() == y.len() && forall|i: int|
            0 <= i < x.len() ==> same_json(#[trigger] x[i], y[i]),
        (JsonModel::Object(x), JsonModel::Object(y)) => x.dom() == y.dom() && x.dom().finite() && forall|key: Seq<char>|
            #[trigger] x.dom().contains(key) ==> same_json(x[key], y[key]),
        _ => false,
    }
}

/// Puts a field into an object, where it counts in place of the one with the
/// same key.
pub fn set_field(fields: &mut Vec<(String, Json)>, key: &str, value: Json)
    ensures
        fields_model(final(fields)@) == fields_model(old(fields)@).insert(key@, value@),
{
    let ghost before = fields@;
    fields.push((key.to_owned(), value));
    assert(fields@.drop_last() =~= before);
}

fn equal_arrays(a: &Vec<Json>, b: &Vec<Json>) -> (r: bool)
    ensures
        r == same_json(JsonModel::Array(models(a@)), JsonModel::Array(models(b@))),
    decreases a, 0nat,
{
    proof {
        lemma_models(a@);
        lemma_models(b@);
    }
    if a.len() != b.len() {
        return false;
    }
    for i in 0..a.len()
        invariant
            a@.len() == b@.len(),
            models(a@).len() == a@.len(),
            models(b@).len() == b@.len(),
            forall|k: int| 0 <= k < a@.len() ==> #[trigger] models(a@)[k] == a@[k]@,
            forall|k: int| 0 <= k < b@.len() ==> #[trigger] models(b@)[k] == b@[k]@,
            forall|k: int| 0 <= k < i ==> same_json(#[trigger] models(a@)[k], models(b@)[k]),
    {
        assert(decreases_to!(*a => a@));
        assert(decreases_to!(a@ => a@[i as int]));
        if !equal_json(&a[i], &b[i]) {
            assert(!same_json(models(a@)[i as int], models(b@)[i as int]));
            return false;
        }
    }
    true
}

fn equal_objects(a: &Vec<(String, Json)>, b: &Vec<(String, Json)>) -> (r: bool)
    ensures
        r == same_json(JsonModel::Object(fields_model(a@)), JsonModel::Object(fields_model(b@))),
    decreases a, 0nat,
{
    let ghost x = fields_model(a@);
    let ghost y = fields_model(b@);
    proof {
        lemma_fields_finite(a@);
        lemma_fields_finite(b@);
    }
    for i in 0..b.len()
        invariant
            x == fields_model(a@),
            y == fields_model(b@),
            forall|key: Seq<char>| #[trigger] y.dom().contains(key) <==> exists|k: int|
                0 <= k < b@.len() && (#[trigger] b@[k]).0@ == key,
            forall|k: int| 0 <= k < i ==> x.dom().contains((#[trigger] b@[k]).0@),
    {
        if last_with_key(a, b[i].0.as_str()).is_none() {
            assert(b@[i as int].0@ == b@[i as int].0@);
            assert(y.dom().contains(b@[i as int].0@));
            return false;
        }
    }
    for i in 0..a.len()
        invariant
            x == fields_model(a@),
            y == fields_model(b@),
            forall|key: Seq<char>| #[trigger] x.dom().contains(key) <==> exists|k: int|
                0 <= k < a@.len() && (#[trigger] a@[k]).0@ == key,
            forall|k: int| 0 <= k < i ==> y.dom().contains((#[trigger] a@[k]).0@) && same_json(
                x[a@[k].0@],
                y[a@[k].0@],
            ),
    {
        let ghost key = a@[i as int].0@;
        assert(x.dom().contains(key));
        match (last_with_key(a, a[i].0.as_str()), last_with_key(b, a[i].0.as_str())) {
            (Some(m), Some(n)) => {
                assert(decreases_to!(*a => a@));
                assert(decreases_to!(a@ => a@[m as int]));
                assert(decreases_to!(a@[m as int] => a@[m as int].1));
                if !equal_json(&a[m].1, &b[n].1) {
                    return false;
                }
            },
            _ => {
                return false;
            },
        }
    }
    assert(x.dom() =~= y.dom());
    true
}

/// Whether two values are equal.
pub fn equal_json(a: &Json, b: &Json) -> (r: bool)
    ensures
        r == same_json(a@, b@),
    decreases a, 1nat,
{
    match (a, b) {
        (Json::Null, Json::Null) => true,
        (Json::Bool(x), Json::Bool(y)) => *x == *y,
        (Json::Number(x), Json::Number(y)) => numbers_equal(x, y),
        (Json::Text(x), Json::Text(y)) => same(x.as_str(), y.as_str()),
        (Json::Array(x), Json::Array(y)) => {
            assert(decreases_to!(*a => a->Array_0));
            equal_arrays(x, y)
        },
        (Json::Object(x), Json::Object(y)) => {
            assert(decreases_to!(*a => a->Object_0));
            equal_objects(x, y)
        },
        _ => false,
    }
}

/// `serde_json::Number::from_i128`: the number, for an integer in the range of
/// `i64` or of `u64`. It is a function of the integer, and its text is the
/// integer in decimal.
#[verifier::external_body]
pub(crate) fn number_from(n: i128) -> (r: Option<serde_json::Number>)
    requires
        i64::MIN <= n <= u64::MAX,
    ensures
        r == Some(number_of(n as int)),
        r matches Some(number) ==> number_text_of(number) == signed_decimal(n as int),
{
    serde_json::Number::from_i128(n)
}

/// An integer.
pub fn json_int(n: i128) -> (r: Json)
    requires
        i64::MIN <= n <= u64::MAX,
    ensures
        r@ == JsonModel::Number(number_of(n as int)),
{
    match number_from(n) {
        Some(number) => Json::Number(number),
        None => Json::Null,
    }
}

/// An integer, or null.
pub open spec fn int_or_null(n: Option<int>) -> JsonModel {
    match n {
        Some(i) => JsonModel::Number(number_of(i)),
        None => JsonModel::Null,
    }
}

pub fn json_int_or_null(n: Option<i64>) -> (r: Json)
    ensures
        r@ == int_or_null(opt_int(n)),
{
    match n {
        Some(i) => json_int(i as i128),
        None => Json::Null,
    }
}

/// A text, or null.
pub open spec fn text_or_null(s: Option<Seq<char>>) -> JsonModel {
    match s {
        Some(t) => JsonModel::Text(t),
        None => JsonModel::Null,
    }
}

pub fn json_text_or_null(s: &Option<String>) -> (r: Json)
    ensures
        r@ == text_or_null(opt_text(*s)),
{
    match s {
        Some(t) => Json::Text(t.clone()),
        None => Json::Null,
    }
}

/// A truth value, or null.
pub open spec fn bool_or_null(b: Option<bool>) -> JsonModel {
    match b {
        Some(x) => JsonModel::Bool(x),
        None => JsonModel::Null,
    }
}

pub fn json_bool_or_null(b: Option<bool>) -> (r: Json)
    ensures
        r@ == bool_or_null(b),
{
    match b {
        Some(x) => Json::Bool(x),
        None => Json::Null,
    }
}

pub open spec fn opt_int(value: Option<i64>) -> Option<int> {
    match value {
        Some(n) => Some(n as int),
        None => None,
    }
}

} // verus!
