//! Reading and writing JSON texts through `serde_json`.
use crate::paths::texts_of;
use crate::packet_tool::text_option;
use vstd::prelude::*;

verus! {

/// What stands at one place of a JSON item: the unsigned number or the text that it is, if it
/// is one, and its spelling as JSON.
pub struct JsonReading<T> {
    pub number: Option<u64>,
    pub text: Option<T>,
    pub json: T,
}

impl View for JsonReading<String> {
    type V = JsonReading<Seq<char>>;

    open spec fn view(&self) -> JsonReading<Seq<char>> {
        JsonReading { number: self.number, text: text_option(self.text), json: self.json@ }
    }
}

/// What stands at one place of an item, if anything does.
pub open spec fn reading_view(reading: Option<JsonReading<String>>) -> Option<
    JsonReading<Seq<char>>,
> {
    match reading {
        Some(reading) => Some(reading@),
        None => None,
    }
}

/// What stands at the places of one item.
pub open spec fn readings_view(readings: Seq<Option<JsonReading<String>>>) -> Seq<
    Option<JsonReading<Seq<char>>>,
> {
    readings.map_values(|reading: Option<JsonReading<String>>| reading_view(reading))
}

/// What stands at the places of each item.
pub open spec fn table_view(table: Seq<Vec<Option<JsonReading<String>>>>) -> Seq<
    Seq<Option<JsonReading<Seq<char>>>>,
> {
    table.map_values(|readings: Vec<Option<JsonReading<String>>>| readings_view(readings@))
}

/// What stands at some places of each item of the array that a JSON text holds; nothing where
/// it holds something else, and an error where it is no JSON.
pub uninterp spec fn json_table_of(text: Seq<char>, places: Seq<Seq<char>>) -> Result<
    Option<Seq<Seq<Option<JsonReading<Seq<char>>>>>>,
    Seq<char>,
>;

/// `serde_json::from_str`, and for each item of a `Value::Array` `Value::pointer` at each
/// place, with `Value::as_u64`, `Value::as_str` and `Value::to_string` on what is found: what
/// comes out depends on the text and the places alone, with one reading per item and place.
/// Which texts are JSON, how a place is looked up, and how a value is spelled is left unsaid.
#[verifier::external_body]
pub(crate) fn json_table(text: &str, places: &Vec<String>) -> (table: Result<
    Option<Vec<Vec<Option<JsonReading<String>>>>>,
    String,
>)
    ensures
        match table {
            Ok(Some(table)) => {
                &&& json_table_of(text@, texts_of(places@)) == Ok::<
                    Option<Seq<Seq<Option<JsonReading<Seq<char>>>>>>,
                    Seq<char>,
                >(Some(table_view(table@)))
                &&& forall|i: int|
                    0 <= i < table@.len() ==> (#[trigger] table@[i])@.len() == places@.len()
            },
            Ok(None) => json_table_of(text@, texts_of(places@)) == Ok::<
                Option<Seq<Seq<Option<JsonReading<Seq<char>>>>>>,
                Seq<char>,
            >(None),
            Err(error) => json_table_of(text@, texts_of(places@)) == Err::<
                Option<Seq<Seq<Option<JsonReading<Seq<char>>>>>>,
                Seq<char>,
            >(error@),
        },
{
    let read = |value: &serde_json::Value| JsonReading {
        number: value.as_u64(),
        text: value.as_str().map(str::to_owned),
        json: value.to_string(),
    };
    let read_all = |item: &serde_json::Value| {
        places.iter().map(|place| item.pointer(place).map(read)).collect()
    };
    match serde_json::from_str::<serde_json::Value>(text) {
        Ok(serde_json::Value::Array(items)) => Ok(Some(items.iter().map(read_all).collect())),
        Ok(_) => Ok(None),
        Err(error) => Err(error.to_string()),
    }
}

/// A text as JSON.
pub uninterp spec fn json_string_of(text: Seq<char>) -> Seq<char>;

/// `serde_json::Value::from` and `Value::to_string`: how a text is spelled as JSON depends on
/// the text alone. Which characters are escaped, and how, is left unsaid.
#[verifier::external_body]
pub(crate) fn json_string(text: &str) -> (json: String)
    ensures
        json@ == json_string_of(text@),
{
    serde_json::Value::from(text).to_string()
}

/// One field of a JSON object: its name, and its value as JSON.
pub struct JsonField {
    pub name: String,
    pub json: String,
}

/// The values of fields, in their order.
pub open spec fn fields_of(fields: Seq<JsonField>) -> Seq<(Seq<char>, Seq<char>)> {
    fields.map_values(|field: JsonField| (field.name@, field.json@))
}

/// The object that fields make up, as JSON.
pub uninterp spec fn json_object_of(fields: Seq<(Seq<char>, Seq<char>)>) -> Seq<char>;

/// `serde_json::from_str` for each value, `Map::from_iter`, and `Value::to_string`: how an
/// object is spelled depends on its fields alone. The order in which fields are spelled, and
/// what stands for a value that is no JSON, is left unsaid.
#[verifier::external_body]
pub(crate) fn json_object(fields: &Vec<JsonField>) -> (json: String)
    ensures
        json@ == json_object_of(fields_of(fields@)),
{
    let members: serde_json::Map<String, serde_json::Value> = fields
        .iter()
        .map(|field| (field.name.clone(), serde_json::from_str(&field.json).unwrap_or_default()))
        .collect();
    serde_json::Value::Object(members).to_string()
}

} // verus!
