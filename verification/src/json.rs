use crate::interpolation::{interpolate, substitute, Failure, InterpContext, InterpError};
use crate::model::{lemma_put_mapped, Entries};
use crate::strmap::{keys_of, StrMap};
use vstd::prelude::*;

verus! {

/// A number of a structured body: an integer, or the bits of a double.
#[derive(Clone, Copy, Debug, PartialEq, Eq, Structural)]
pub enum JsonNumber {
    PosInt(u64),
    NegInt(i64),
    Float(u64),
}

/// A structured body: a tree of texts, numbers, truth values, lists and maps.
#[derive(Debug, PartialEq)]
pub enum JsonValue {
    Null,
    Bool(bool),
    Number(JsonNumber),
    String(String),
    Array(Vec<JsonValue>),
    Object(StrMap<JsonValue>),
}

/// A structured body over plain texts.
pub enum JsonModel {
    Null,
    Bool(bool),
    Number(JsonNumber),
    String(Seq<char>),
    Array(Seq<JsonModel>),
    Object(Entries<JsonModel>),
}

/// The models of a list of values.
pub open spec fn json_models(items: Seq<JsonValue>) -> Seq<JsonModel>
    decreases items,
{
    if items.len() == 0 {
        Seq::empty()
    } else {
        json_models(items.drop_last()).push(items.last()@)
    }
}

/// The models of the values of a list of entries.
pub open spec fn entry_models(entries: Seq<(String, JsonValue)>) -> Seq<JsonModel>
    decreases entries,
{
    if entries.len() == 0 {
        Seq::empty()
    } else {
        entry_models(entries.drop_last()).push(entries.last().1@)
    }
}

impl View for JsonValue {
    type V = JsonModel;

    open spec fn view(&self) -> JsonModel
        decreases self,
    {
        match self {
            JsonValue::Null => JsonModel::Null,
            JsonValue::Bool(b) => JsonModel::Bool(*b),
            JsonValue::Number(n) => JsonModel::Number(*n),
            JsonValue::String(s) => JsonModel::String(s@),
            JsonValue::Array(items) => JsonModel::Array(json_models(items@)),
            JsonValue::Object(m) => {
                proof {
                    m.lemma_entries_decrease();
                }
                JsonModel::Object(
                    Entries { keys: keys_of(m.entries()), values: entry_models(m.entries()) },
                )
            },
        }
    }
}

/// A structured body with every text in it interpolated: the texts that are
/// values, and the keys of maps. Numbers, truth values and null stay.
pub open spec fn interp_json(v: JsonModel, values: Map<Seq<char>, Seq<char>>) -> Result<
    JsonModel,
    Failure,
>
    decreases v, 0nat,
{
    match v {
        JsonModel::String(s) => match substitute(s, values) {
            Ok(t) => Ok(JsonModel::String(t)),
            Err(e) => Err(e),
        },
        JsonModel::Array(items) => match interp_json_items(items, 0, Seq::empty(), values) {
            Ok(out) => Ok(JsonModel::Array(out)),
            Err(e) => Err(e),
        },
        JsonModel::Object(entries) => match interp_json_entries(
            entries.keys,
            entries.values,
            0,
            Entries::empty(),
            values,
        ) {
            Ok(out) => Ok(JsonModel::Object(out)),
            Err(e) => Err(e),
        },
        _ => Ok(v),
    }
}

/// The items from position `i` on, interpolated in order and added to `done`.
pub open spec fn interp_json_items(
    items: Seq<JsonModel>,
    i: int,
    done: Seq<JsonModel>,
    values: Map<Seq<char>, Seq<char>>,
) -> Result<Seq<JsonModel>, Failure>
    decreases items, items.len() - i,
{
    if !(0 <= i < items.len()) {
        Ok(done)
    } else {
        match interp_json(items[i], values) {
            Ok(x) => interp_json_items(items, i + 1, done.push(x), values),
            Err(e) => Err(e),
        }
    }
}

/// The entries from position `i` on, key and value interpolated in order and
/// put into `done`. Where two keys become the same text, the later entry stays.
pub open spec fn interp_json_entries(
    keys: Seq<Seq<char>>,
    vals: Seq<JsonModel>,
    i: int,
    done: Entries<JsonModel>,
    values: Map<Seq<char>, Seq<char>>,
) -> Result<Entries<JsonModel>, Failure>
    decreases vals, vals.len() - i,
{
    if !(0 <= i < vals.len()) {
        Ok(done)
    } else {
        match substitute(keys[i], values) {
            Err(e) => Err(e),
            Ok(k) => match interp_json(vals[i], values) {
                Err(e) => Err(e),
                Ok(x) => interp_json_entries(keys, vals, i + 1, done.put(k, x), values),
            },
        }
    }
}

/// The models of a list of values, one by one.
pub proof fn lemma_json_models(items: Seq<JsonValue>)
    ensures
        json_models(items).len() == items.len(),
        forall|i: int| 0 <= i < items.len() ==> (#[trigger] json_models(items)[i]) == items[i]@,
    decreases items.len(),
{
    reveal_with_fuel(json_models, 2);
    if items.len() > 0 {
        lemma_json_models(items.drop_last());
        assert(json_models(items) == json_models(items.drop_last()).push(items.last()@));
    } else {
        assert(json_models(items) == Seq::<JsonModel>::empty());
    }
}

/// The models of the values of a list of entries, one by one.
pub proof fn lemma_entry_models(entries: Seq<(String, JsonValue)>)
    ensures
        entry_models(entries).len() == entries.len(),
        forall|i: int|
            0 <= i < entries.len() ==> (#[trigger] entry_models(entries)[i]) == entries[i].1@,
    decreases entries.len(),
{
    reveal_with_fuel(entry_models, 2);
    if entries.len() > 0 {
        lemma_entry_models(entries.drop_last());
        assert(entry_models(entries) == entry_models(entries.drop_last()).push(
            entries.last().1@,
        ));
    } else {
        assert(entry_models(entries) == Seq::<JsonModel>::empty());
    }
}

/// What a function that returns a structured body or an error stands for.
pub open spec fn json_outcome(r: Result<JsonValue, InterpError>) -> Result<JsonModel, Failure> {
    match r {
        Ok(v) => Ok(v@),
        Err(e) => Err(e@),
    }
}

/// Interpolates every text of a structured body: the texts that are values,
/// and the keys of maps.
pub fn interpolate_toml_value(val: &JsonValue, ctxt: &InterpContext) -> (r: Result<
    JsonValue,
    InterpError,
>)
    ensures
        json_outcome(r) == interp_json(val@, ctxt@),
    decreases val,
{
    match val {
        JsonValue::Null => Ok(JsonValue::Null),
        JsonValue::Bool(b) => Ok(JsonValue::Bool(*b)),
        JsonValue::Number(n) => Ok(JsonValue::Number(*n)),
        JsonValue::String(s) => {
            match interpolate(s.as_str(), ctxt) {
                Ok(t) => Ok(JsonValue::String(t)),
                Err(e) => Err(e),
            }
        },
        JsonValue::Array(items) => {
            let ghost models = json_models(items@);
            proof {
                lemma_json_models(items@);
            }
            let mut out: Vec<JsonValue> = Vec::new();
            let mut i: usize = 0;
            while i < items.len()
                invariant
                    i <= items.len(),
                    models == json_models(items@),
                    models.len() == items.len(),
                    forall|j: int| 0 <= j < items.len() ==> (#[trigger] models[j]) == items@[j]@,
                    val == JsonValue::Array(*items),
                    interp_json_items(models, i as int, json_models(out@), ctxt@)
                        == interp_json_items(models, 0, Seq::empty(), ctxt@),
                decreases items.len() - i,
            {
                let ghost before = out@;
                match interpolate_toml_value(&items[i], ctxt) {
                    Ok(x) => {
                        out.push(x);
                        assert(out@.drop_last() =~= before);
                    },
                    Err(e) => {
                        return Err(e);
                    },
                }
                i += 1;
            }
            Ok(JsonValue::Array(out))
        },
        JsonValue::Object(m) => {
            let n = m.len();
            let ghost keys = m.keys();
            let ghost models = entry_models(m.entries());
            proof {
                lemma_entry_models(m.entries());
                m.lemma_entries_decrease();
            }
            let mut out: StrMap<JsonValue> = StrMap::new();
            proof {
                lemma_entry_models(out.entries());
                assert(entry_models(out.entries()) =~= Seq::<JsonModel>::empty());
            }
            let mut i: usize = 0;
            while i < n
                invariant
                    i <= n,
                    n == keys.len(),
                    keys == m.keys(),
                    models == entry_models(m.entries()),
                    models.len() == n,
                    forall|j: int| 0 <= j < n ==> (#[trigger] models[j]) == m.values()[j]@,
                    val == JsonValue::Object(*m),
                    interp_json_entries(
                        keys,
                        models,
                        i as int,
                        Entries { keys: out.keys(), values: entry_models(out.entries()) },
                        ctxt@,
                    ) == interp_json_entries(keys, models, 0, Entries::empty(), ctxt@),
                decreases n - i,
            {
                let k = match interpolate(m.key_at(i).as_str(), ctxt) {
                    Ok(k) => k,
                    Err(e) => {
                        return Err(e);
                    },
                };
                let item = m.value_at(i);
                proof {
                    m.lemma_entries_decrease();
                    assert(*item == m.entries()[i as int].1);
                }
                let x = match interpolate_toml_value(item, ctxt) {
                    Ok(x) => x,
                    Err(e) => {
                        return Err(e);
                    },
                };
                let ghost before = out.entries();
                let ghost keys_before = out.keys();
                let ghost values_before = out.values();
                out.insert(k, x);
                proof {
                    lemma_entry_models(before);
                    lemma_entry_models(out.entries());
                    let f = |v: JsonValue| v@;
                    lemma_put_mapped(keys_before, values_before, k@, x, f);
                    assert(entry_models(before) =~= values_before.map_values(f));
                    assert(entry_models(out.entries()) =~= out.values().map_values(f));
                }
                i += 1;
            }
            Ok(JsonValue::Object(out))
        },
    }
}

} // verus!
