//! A parsed configuration text, as a map from section and key to a value.
use vstd::prelude::*;

verus! {

/// `toml::Value`, a parsed document.
#[verifier::external_type_specification]
#[verifier::external_body]
pub struct ExValue(toml::Value);

/// `toml::de::Error`, why a text is no document.
#[verifier::external_type_specification]
#[verifier::external_body]
pub struct ExDeError(toml::de::Error);

/// A value of a document.
#[derive(Debug)]
pub enum Field {
    Text(String),
    Integer(i64),
    /// The elements of an array; nothing for one that is no string.
    List(Vec<Option<String>>),
    /// A value of any other type.
    Other,
}

/// A value of a document, as mathematics.
pub enum FieldView {
    Text(Seq<char>),
    Integer(i64),
    List(Seq<Option<Seq<char>>>),
    Other,
}

impl View for Field {
    type V = FieldView;

    open spec fn view(&self) -> FieldView {
        match *self {
            Field::Text(text) => FieldView::Text(text@),
            Field::Integer(n) => FieldView::Integer(n),
            Field::List(items) => FieldView::List(list_view(items@)),
            Field::Other => FieldView::Other,
        }
    }
}

/// The elements of an array, as mathematics.
pub open spec fn list_view(items: Seq<Option<String>>) -> Seq<Option<Seq<char>>> {
    items.map_values(
        |item: Option<String>|
            match item {
                Some(text) => Some(text@),
                None => None,
            },
    )
}

/// The values of a document's sections, by the names of section and key.
pub uninterp spec fn document_fields(document: toml::Value) -> Map<
    (Seq<char>, Seq<char>),
    FieldView,
>;

/// The values of the document that a text is; nothing where it is none.
pub uninterp spec fn parsed_fields(text: Seq<char>) -> Option<
    Map<(Seq<char>, Seq<char>), FieldView>,
>;

/// `toml::from_str`, into a `toml::Value`: reads a text as a TOML document.
/// Which texts are documents is left to the TOML grammar.
#[verifier::external_body]
pub(crate) fn parse_document(text: &str) -> (r: Result<toml::Value, toml::de::Error>)
    ensures
        match r {
            Ok(document) => parsed_fields(text@) == Some(document_fields(document)),
            Err(_) => parsed_fields(text@) is None,
        },
{
    toml::from_str(text)
}

/// `toml::Value::get`, of a section and then of a key in it: the value there,
/// if the document has that section and the section that key.
#[verifier::external_body]
pub(crate) fn document_field(document: &toml::Value, section: &str, key: &str) -> (r: Option<Field>)
    ensures
        match r {
            Some(field) => document_fields(*document).contains_key((section@, key@))
                && document_fields(*document)[(section@, key@)] == field@,
            None => !document_fields(*document).contains_key((section@, key@)),
        },
{
    document.get(section).and_then(|table| table.get(key)).map(|value| match value {
        toml::Value::String(text) => Field::Text(text.clone()),
        toml::Value::Integer(n) => Field::Integer(*n),
        toml::Value::Array(items) => Field::List(
            items.iter().map(|item| item.as_str().map(String::from)).collect(),
        ),
        _ => Field::Other,
    })
}

/// The view of a value is the value, and that of an array is its strings, one by
/// one.
pub proof fn law_value_is_seen_as_it_is(field: Field, i: int)
    ensures
        field matches Field::Text(text) ==> field@ == FieldView::Text(text@),
        field matches Field::Integer(n) ==> field@ == FieldView::Integer(n),
        field matches Field::List(items) ==> {
            &&& field@ matches FieldView::List(seen)
            &&& seen.len() == items@.len()
            &&& 0 <= i < items@.len() ==> match items@[i] {
                Some(text) => seen[i] == Some(text@),
                None => seen[i] == None::<Seq<char>>,
            }
        },
        field is Other ==> field@ == FieldView::Other,
{
}

} // verus!
