//! The tagged union of values a secret's key-value mapping can hold, and its
//! rendering as display text.

use vstd::prelude::*;
use vstd::string::*;

verus! {

/// The mathematical shape of one secret value: its tag, together with the
/// text the library reads from it. A number carries its canonical decimal
/// text; an array or object carries its canonical serialized text, kept as
/// one opaque string and never unpacked.
pub enum ValueModel {
    Text(Seq<char>),
    Num(Seq<char>),
    Bool(bool),
    Null,
    Arr(Seq<char>),
    Obj(Seq<char>),
}

/// One value out of a secret's key-value mapping.
#[derive(Debug)]
pub enum SecretValue {
    /// A string value, held exactly as parsed.
    Text(String),
    /// A numeric value, held as its canonical decimal text.
    Num(String),
    /// A boolean value.
    Bool(bool),
    /// The null value.
    Null,
    /// An array, held as its canonical serialized text.
    Arr(String),
    /// A nested object, held as its canonical serialized text.
    Obj(String),
}

impl View for SecretValue {
    type V = ValueModel;

    open spec fn view(&self) -> ValueModel {
        match self {
            SecretValue::Text(s) => ValueModel::Text(s@),
            SecretValue::Num(t) => ValueModel::Num(t@),
            SecretValue::Bool(b) => ValueModel::Bool(*b),
            SecretValue::Null => ValueModel::Null,
            SecretValue::Arr(t) => ValueModel::Arr(t@),
            SecretValue::Obj(t) => ValueModel::Obj(t@),
        }
    }
}

/// The text a value renders to: a string as itself, a number as its decimal
/// text, a boolean as `true` or `false`, null as `null`, and a composite
/// value as its serialized text.
pub open spec fn spec_render(v: ValueModel) -> Seq<char> {
    match v {
        ValueModel::Text(s) => s,
        ValueModel::Num(t) => t,
        ValueModel::Bool(b) => if b {
            "true"@
        } else {
            "false"@
        },
        ValueModel::Null => "null"@,
        ValueModel::Arr(t) => t,
        ValueModel::Obj(t) => t,
    }
}

/// Renders a value as display text, exactly as `spec_render` describes.
pub fn value_to_string(value: &SecretValue) -> (r: String)
    ensures
        r@ == spec_render(value@),
{
    match value {
        SecretValue::Text(s) => s.clone(),
        SecretValue::Num(t) => t.clone(),
        SecretValue::Bool(b) => if *b {
            "true".to_owned()
        } else {
            "false".to_owned()
        },
        SecretValue::Null => "null".to_owned(),
        SecretValue::Arr(t) => t.clone(),
        SecretValue::Obj(t) => t.clone(),
    }
}

/// Rendering a string value yields exactly the stored string: text is never
/// re-escaped or otherwise altered on display.
pub proof fn lemma_text_render_identity(s: Seq<char>)
    ensures
        spec_render(ValueModel::Text(s)) == s,
{
}

} // verus!
