use vstd::prelude::*;

verus! {

#[verifier::external_type_specification]
#[verifier::external_body]
pub struct ExTomlValue(toml::Value);

#[verifier::external_type_specification]
#[verifier::external_body]
pub struct ExTomlError(toml::de::Error);

/// One level of a parsed TOML value: a string, the entries of a table in
/// declaration order, or any other kind of value.
pub enum TomlLayer {
    Str(String),
    Table(Vec<(String, toml::Value)>),
    Other,
}

/// The top-level entries, in declaration order, of the TOML document that the
/// text holds; `None` where the text is no TOML document.
pub uninterp spec fn toml_document(text: Seq<char>) -> Option<Seq<(String, toml::Value)>>;

/// What a parsed TOML value holds at its top level.
pub uninterp spec fn toml_layer(v: toml::Value) -> TomlLayer;

/// Relies on `<toml::Table as FromStr>::from_str`: parses a whole TOML document
/// into its top-level table; with `preserve_order` the entries come out in
/// declaration order. The outcome depends on the text alone.
#[verifier::external_body]
fn parse_toml_table(text: &str) -> (r: Result<Vec<(String, toml::Value)>, toml::de::Error>)
    ensures
        r is Ok <==> toml_document(text@) is Some,
        r is Ok ==> r->Ok_0@ == toml_document(text@)->Some_0,
{
    text.parse::<toml::Table>().map(|t| t.into_iter().collect())
}

/// Relies on toml::Value's variants: moves out a string or the entries of a table.
#[verifier::external_body]
pub(crate) fn split_layer(v: toml::Value) -> (r: TomlLayer)
    ensures
        r == toml_layer(v),
{
    match v {
        toml::Value::String(s) => TomlLayer::Str(s),
        toml::Value::Table(t) => TomlLayer::Table(t.into_iter().collect()),
        toml::Value::Integer(_) => TomlLayer::Other,
        toml::Value::Float(_) => TomlLayer::Other,
        toml::Value::Boolean(_) => TomlLayer::Other,
        toml::Value::Datetime(_) => TomlLayer::Other,
        toml::Value::Array(_) => TomlLayer::Other,
    }
}

/// Relies on toml::de::Error's `Display`: the parser's description of the fault.
#[verifier::external_body]
fn describe_toml_error(e: &toml::de::Error) -> (r: String) {
    e.to_string()
}

/// Parses a TOML document into its top-level entries, in declaration order; a
/// malformed document gives the parser's message.
pub fn parse_document(text: &str) -> (r: Result<Vec<(String, toml::Value)>, String>)
    ensures
        r is Ok <==> toml_document(text@) is Some,
        r is Ok ==> r->Ok_0@ == toml_document(text@)->Some_0,
{
    match parse_toml_table(text) {
        Ok(entries) => Ok(entries),
        Err(e) => Err(describe_toml_error(&e)),
    }
}

} // verus!
