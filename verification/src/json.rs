//! The templates document: reading and writing the JSON file format.
//!
//! A template collection is persisted as one JSON object mapping each
//! template's name to an object with an `enabled` flag, an `extends`
//! reference (or null), and a `settings` object of scalar values.
//!
//! Writing is the library's own, pinned to the exact text by
//! [`templates_json`]. Reading leans on serde_json for JSON syntax: what
//! the parser makes of the bytes, projected as deep as the schema looks,
//! carries the name [`json_of`], and the trusted boundary promises only
//! that it hands that named document over. Everything on top — which
//! field means what, which values are scalars, which shapes are rejected,
//! and which collection comes back — is proved code, pinned to the name
//! by [`templates_outcome`].

use vstd::prelude::*;

verus! {

use crate::error::Error;
use crate::template::SettingModel;
use crate::template::SettingValue;
use crate::template::Template;
use crate::template::TemplateModel;
use crate::template::Templates;
use crate::template::settings_view;
use crate::template::template_entries_view;
use crate::template::template_wf;
use crate::template::distinct_keys;
use crate::text::str_eq;

/// One hexadecimal digit, lower case.
pub open spec fn hex_digit(n: u32) -> Seq<char> {
    if n == 0 {
        "0"@
    } else if n == 1 {
        "1"@
    } else if n == 2 {
        "2"@
    } else if n == 3 {
        "3"@
    } else if n == 4 {
        "4"@
    } else if n == 5 {
        "5"@
    } else if n == 6 {
        "6"@
    } else if n == 7 {
        "7"@
    } else if n == 8 {
        "8"@
    } else if n == 9 {
        "9"@
    } else if n == 10 {
        "a"@
    } else if n == 11 {
        "b"@
    } else if n == 12 {
        "c"@
    } else if n == 13 {
        "d"@
    } else if n == 14 {
        "e"@
    } else {
        "f"@
    }
}

/// The JSON escape of one character inside a string literal.
pub open spec fn escaped_char(c: char) -> Seq<char> {
    if c == '"' {
        "\\\""@
    } else if c == '\\' {
        "\\\\"@
    } else if c == '\n' {
        "\\n"@
    } else if c == '\r' {
        "\\r"@
    } else if c == '\t' {
        "\\t"@
    } else if c == '\u{8}' {
        "\\b"@
    } else if c == '\u{c}' {
        "\\f"@
    } else if (c as u32) < 32 {
        "\\u00"@ + hex_digit((c as u32) / 16) + hex_digit((c as u32) % 16)
    } else {
        seq![c]
    }
}

/// The JSON escape of a whole string's characters.
pub open spec fn escaped(s: Seq<char>) -> Seq<char>
    decreases s.len(),
{
    if s.len() == 0 {
        Seq::empty()
    } else {
        escaped_char(s[0]) + escaped(s.drop_first())
    }
}

/// A JSON string literal: the escaped text in double quotes.
pub open spec fn quoted(s: Seq<char>) -> Seq<char> {
    "\""@ + escaped(s) + "\""@
}

/// The JSON text of one setting value.
pub open spec fn setting_text(v: SettingModel) -> Seq<char> {
    match v {
        SettingModel::Null => "null"@,
        SettingModel::Flag(b) => if b {
            "true"@
        } else {
            "false"@
        },
        SettingModel::Number(t) => t,
        SettingModel::Text(s) => quoted(s),
        SettingModel::Array => "[]"@,
        SettingModel::Object => "{}"@,
    }
}

/// The lines of a settings object from entry `i` on, one per entry, each
/// six spaces deep, with a comma after every entry but the last.
pub open spec fn settings_items(s: Seq<(Seq<char>, SettingModel)>, i: int) -> Seq<char>
    decreases s.len() - i,
{
    if i < 0 || i >= s.len() {
        Seq::empty()
    } else {
        "      "@ + quoted(s[i].0) + ": "@ + setting_text(s[i].1) + (if i == s.len() - 1 {
            "\n"@
        } else {
            ",\n"@
        }) + settings_items(s, i + 1)
    }
}

/// The JSON text of a settings object.
pub open spec fn settings_json(s: Seq<(Seq<char>, SettingModel)>) -> Seq<char> {
    if s.len() == 0 {
        "{}"@
    } else {
        "{\n"@ + settings_items(s, 0) + "    }"@
    }
}

/// The JSON text of an `extends` reference.
pub open spec fn extends_text(e: Option<Seq<char>>) -> Seq<char> {
    match e {
        None => "null"@,
        Some(s) => quoted(s),
    }
}

/// The JSON text of one template object.
pub open spec fn template_json(t: TemplateModel) -> Seq<char> {
    "{\n    \"enabled\": "@ + (if t.enabled {
        "true"@
    } else {
        "false"@
    }) + ",\n    \"extends\": "@ + extends_text(t.extends) + ",\n    \"settings\": "@
        + settings_json(t.settings) + "\n  }"@
}

/// The lines of the top-level object from entry `i` on, one per template,
/// each two spaces deep, with a comma after every entry but the last.
pub open spec fn template_items(entries: Seq<(Seq<char>, TemplateModel)>, i: int) -> Seq<char>
    decreases entries.len() - i,
{
    if i < 0 || i >= entries.len() {
        Seq::empty()
    } else {
        "  "@ + quoted(entries[i].0) + ": "@ + template_json(entries[i].1) + (if i == entries.len()
            - 1 {
            "\n"@
        } else {
            ",\n"@
        }) + template_items(entries, i + 1)
    }
}

/// The JSON text of a whole template collection.
pub open spec fn templates_json(entries: Seq<(Seq<char>, TemplateModel)>) -> Seq<char> {
    if entries.len() == 0 {
        "{}"@
    } else {
        "{\n"@ + template_items(entries, 0) + "}"@
    }
}

/// One hexadecimal digit, lower case.
fn hex_digit_str(n: u32) -> (r: &'static str)
    ensures
        r@ == hex_digit(n),
{
    if n == 0 {
        "0"
    } else if n == 1 {
        "1"
    } else if n == 2 {
        "2"
    } else if n == 3 {
        "3"
    } else if n == 4 {
        "4"
    } else if n == 5 {
        "5"
    } else if n == 6 {
        "6"
    } else if n == 7 {
        "7"
    } else if n == 8 {
        "8"
    } else if n == 9 {
        "9"
    } else if n == 10 {
        "a"
    } else if n == 11 {
        "b"
    } else if n == 12 {
        "c"
    } else if n == 13 {
        "d"
    } else if n == 14 {
        "e"
    } else {
        "f"
    }
}

/// Appends the JSON escape of a string's characters.
fn append_escaped(out: &mut String, s: &str)
    ensures
        final(out)@ == old(out)@ + escaped(s@),
{
    let len = s.unicode_len();
    let mut i: usize = 0;
    proof {
        assert(s@.skip(0) =~= s@);
        assert(out@ + escaped(s@.skip(0)) =~= old(out)@ + escaped(s@));
    }
    while i < len
        invariant
            i <= len,
            len == s@.len(),
            out@ + escaped(s@.skip(i as int)) == old(out)@ + escaped(s@),
        decreases len - i,
    {
        let ghost rest = s@.skip(i as int);
        proof {
            assert(rest[0] == s@[i as int]);
            assert(rest.drop_first() =~= s@.skip(i + 1));
        }
        let c = s.get_char(i);
        if c == '"' {
            out.append("\\\"");
        } else if c == '\\' {
            out.append("\\\\");
        } else if c == '\n' {
            out.append("\\n");
        } else if c == '\r' {
            out.append("\\r");
        } else if c == '\t' {
            out.append("\\t");
        } else if c == '\u{8}' {
            out.append("\\b");
        } else if c == '\u{c}' {
            out.append("\\f");
        } else if (c as u32) < 32 {
            out.append("\\u00");
            out.append(hex_digit_str((c as u32) / 16));
            out.append(hex_digit_str((c as u32) % 16));
        } else {
            let piece = s.substring_char(i, i + 1);
            proof {
                assert(piece@ =~= seq![s@[i as int]]);
            }
            out.append(piece);
        }
        proof {
            assert(out@ + escaped(s@.skip(i + 1)) =~= old(out)@ + escaped(s@));
        }
        i = i + 1;
    }
    proof {
        assert(escaped(s@.skip(len as int)) =~= Seq::<char>::empty());
        assert(out@ =~= out@ + escaped(s@.skip(len as int)));
    }
}

/// Appends a JSON string literal.
fn append_quoted(out: &mut String, s: &str)
    ensures
        final(out)@ == old(out)@ + quoted(s@),
{
    out.append("\"");
    append_escaped(out, s);
    out.append("\"");
    proof {
        assert(out@ =~= old(out)@ + quoted(s@));
    }
}

/// Appends the JSON text of one setting value.
fn append_setting(out: &mut String, v: &SettingValue)
    ensures
        final(out)@ == old(out)@ + setting_text(v@),
{
    match v {
        SettingValue::Null => out.append("null"),
        SettingValue::Flag(b) => {
            if *b {
                out.append("true")
            } else {
                out.append("false")
            }
        },
        SettingValue::Number(t) => out.append(t.as_str()),
        SettingValue::Text(s) => append_quoted(out, s.as_str()),
        SettingValue::Array => out.append("[]"),
        SettingValue::Object => out.append("{}"),
    }
}

/// Appends the JSON text of one template object.
#[verifier::rlimit(60)]
fn append_template(out: &mut String, t: &Template)
    ensures
        final(out)@ == old(out)@ + template_json(t@),
{
    out.append("{\n    \"enabled\": ");
    if t.enabled() {
        out.append("true");
    } else {
        out.append("false");
    }
    out.append(",\n    \"extends\": ");
    match t.extends() {
        None => out.append("null"),
        Some(e) => append_quoted(out, e.as_str()),
    }
    out.append(",\n    \"settings\": ");
    let settings = t.settings();
    let n = settings.len();
    if n == 0 {
        out.append("{}");
        proof {
            assert(settings_json(t@.settings) == "{}"@);
        }
    } else {
        out.append("{\n");
        let ghost base = out@;
        let mut i: usize = 0;
        while i < n
            invariant
                i <= n,
                n == settings.len(),
                n == t@.settings.len(),
                t@.settings == settings_view(settings@),
                out@ + settings_items(t@.settings, i as int) == base + settings_items(
                    t@.settings,
                    0,
                ),
            decreases n - i,
        {
            out.append("      ");
            append_quoted(out, settings[i].0.as_str());
            out.append(": ");
            append_setting(out, &settings[i].1);
            if i == n - 1 {
                out.append("\n");
            } else {
                out.append(",\n");
            }
            proof {
                assert(t@.settings[i as int] == (settings@[i as int].0@, settings@[i as int].1@));
                assert(out@ + settings_items(t@.settings, i + 1) =~= base + settings_items(
                    t@.settings,
                    0,
                ));
            }
            i = i + 1;
        }
        proof {
            assert(settings_items(t@.settings, n as int) =~= Seq::<char>::empty());
            assert(out@ =~= base + settings_items(t@.settings, 0));
        }
        out.append("    }");
    }
    out.append("\n  }");
    proof {
        assert(out@ =~= old(out)@ + template_json(t@));
    }
}

/// Writes a template collection as its JSON document, pretty-printed,
/// exactly as [`templates_json`] lays it out.
#[verifier::rlimit(60)]
pub fn serialize_templates(templates: &Templates) -> (r: String)
    ensures
        r@ == templates_json(templates@),
{
    let n = templates.len();
    let mut out = String::new();
    if n == 0 {
        out.append("{}");
        proof {
            assert(out@ =~= templates_json(templates@));
        }
        return out;
    }
    out.append("{\n");
    let ghost base = out@;
    let mut i: usize = 0;
    while i < n
        invariant
            i <= n,
            n == templates@.len(),
            out@ + template_items(templates@, i as int) == base + template_items(templates@, 0),
        decreases n - i,
    {
        out.append("  ");
        append_quoted(&mut out, templates.name_at(i).as_str());
        out.append(": ");
        append_template(&mut out, templates.template_at(i));
        if i == n - 1 {
            out.append("\n");
        } else {
            out.append(",\n");
        }
        proof {
            assert(out@ + template_items(templates@, i + 1) =~= base + template_items(
                templates@,
                0,
            ));
        }
        i = i + 1;
    }
    proof {
        assert(template_items(templates@, n as int) =~= Seq::<char>::empty());
        assert(out@ =~= base + template_items(templates@, 0));
    }
    out.append("}");
    proof {
        assert(out@ =~= templates_json(templates@));
    }
    out
}

/// The parsed JSON document type of serde_json, declared so values of it
/// can pass through signatures; the library never looks inside one except
/// through the projection wrappers below.
#[verifier::external_type_specification]
#[verifier::external_body]
pub struct ExJsonValue(serde_json::Value);

/// One field of a template object, as deep as the schema looks at it: a
/// scalar-or-composite mark, or an object's own entries of scalar values
/// (anything nested deeper keeps only its mark).
#[derive(Debug)]
pub enum JsonField {
    /// A value that is not a JSON object.
    Scalar(SettingValue),
    /// A JSON object's entries, each value one level deep.
    Object(Vec<(String, SettingValue)>),
}

/// The mathematical model of a [`JsonField`].
pub enum JsonFieldModel {
    /// A value that is not a JSON object.
    Scalar(SettingModel),
    /// A JSON object's entries, each value one level deep.
    Object(Seq<(Seq<char>, SettingModel)>),
}

impl View for JsonField {
    type V = JsonFieldModel;

    open spec fn view(&self) -> JsonFieldModel {
        match self {
            JsonField::Scalar(v) => JsonFieldModel::Scalar(v@),
            JsonField::Object(entries) => JsonFieldModel::Object(settings_view(entries@)),
        }
    }
}

/// One value of the top-level document: a template object's fields, or the
/// mark of a value that is no object.
#[derive(Debug)]
pub enum JsonTemplate {
    /// A value that is not a JSON object.
    Scalar(SettingValue),
    /// A template object's fields.
    Object(Vec<(String, JsonField)>),
}

/// The mathematical model of a [`JsonTemplate`].
pub enum JsonTemplateModel {
    /// A value that is not a JSON object.
    Scalar(SettingModel),
    /// A template object's fields.
    Object(Seq<(Seq<char>, JsonFieldModel)>),
}

/// The view of a vector of named template fields.
pub open spec fn field_entries_view(s: Seq<(String, JsonField)>) -> Seq<
    (Seq<char>, JsonFieldModel),
> {
    s.map_values(|p: (String, JsonField)| (p.0@, p.1@))
}

impl View for JsonTemplate {
    type V = JsonTemplateModel;

    open spec fn view(&self) -> JsonTemplateModel {
        match self {
            JsonTemplate::Scalar(v) => JsonTemplateModel::Scalar(v@),
            JsonTemplate::Object(fields) => JsonTemplateModel::Object(
                field_entries_view(fields@),
            ),
        }
    }
}

/// A whole parsed document, as deep as the schema looks at it.
#[derive(Debug)]
pub enum JsonDocument {
    /// A document that is not a JSON object.
    Scalar(SettingValue),
    /// The document's named templates.
    Object(Vec<(String, JsonTemplate)>),
}

/// The mathematical model of a [`JsonDocument`].
pub enum JsonDocumentModel {
    /// A document that is not a JSON object.
    Scalar(SettingModel),
    /// The document's named templates.
    Object(Seq<(Seq<char>, JsonTemplateModel)>),
}

/// The view of a vector of named template values.
pub open spec fn template_node_view(s: Seq<(String, JsonTemplate)>) -> Seq<
    (Seq<char>, JsonTemplateModel),
> {
    s.map_values(|p: (String, JsonTemplate)| (p.0@, p.1@))
}

impl View for JsonDocument {
    type V = JsonDocumentModel;

    open spec fn view(&self) -> JsonDocumentModel {
        match self {
            JsonDocument::Scalar(v) => JsonDocumentModel::Scalar(v@),
            JsonDocument::Object(entries) => JsonDocumentModel::Object(
                template_node_view(entries@),
            ),
        }
    }
}

/// Holds when no object of the field carries a repeated key.
pub open spec fn field_keyed_once(f: JsonFieldModel) -> bool {
    match f {
        JsonFieldModel::Scalar(_) => true,
        JsonFieldModel::Object(entries) => distinct_keys(entries),
    }
}

/// Holds when no object of the template value carries a repeated key.
pub open spec fn template_keyed_once(t: JsonTemplateModel) -> bool {
    match t {
        JsonTemplateModel::Scalar(_) => true,
        JsonTemplateModel::Object(fields) => distinct_keys(fields) && forall|i: int|
            0 <= i < fields.len() ==> field_keyed_once((#[trigger] fields[i]).1),
    }
}

/// Holds when no object anywhere in the document carries a repeated key.
pub open spec fn document_keyed_once(d: JsonDocumentModel) -> bool {
    match d {
        JsonDocumentModel::Scalar(_) => true,
        JsonDocumentModel::Object(entries) => distinct_keys(entries) && forall|i: int|
            0 <= i < entries.len() ==> template_keyed_once((#[trigger] entries[i]).1),
    }
}

/// What the JSON parser makes of the given bytes, projected as deep as the
/// templates schema looks: the parsed document, or the parser's own words
/// for why the bytes are not JSON. The result depends on the bytes alone.
pub uninterp spec fn json_of(bytes: Seq<u8>) -> Result<JsonDocumentModel, Seq<char>>;

/// Relies on `serde_json::Value`: its variants are told apart one arm
/// each, scalar contents moving over — a number as the decimal text it
/// prints as — while an array or object leaves only its kind behind.
#[verifier::external_body]
fn scalar_of(v: &serde_json::Value) -> SettingValue {
    match v {
        serde_json::Value::Null => SettingValue::Null,
        serde_json::Value::Bool(b) => SettingValue::Flag(*b),
        serde_json::Value::Number(n) => SettingValue::Number(n.to_string()),
        serde_json::Value::String(s) => SettingValue::Text(s.clone()),
        serde_json::Value::Array(_) => SettingValue::Array,
        serde_json::Value::Object(_) => SettingValue::Object,
    }
}

/// Relies on `serde_json::Value::Object` and `serde_json::Map`: an object
/// yields its entries in order, each value projected by [`scalar_of`];
/// any other value keeps only its mark.
#[verifier::external_body]
fn project_field(v: serde_json::Value) -> JsonField {
    match v {
        serde_json::Value::Object(m) => JsonField::Object(
            m.into_iter().map(|(k, w)| (k, scalar_of(&w))).collect(),
        ),
        other => JsonField::Scalar(scalar_of(&other)),
    }
}

/// Relies on `serde_json::Value::Object` and `serde_json::Map`: a template
/// object yields its fields in order, each projected by [`project_field`];
/// any other value keeps only its mark.
#[verifier::external_body]
fn project_template(v: serde_json::Value) -> JsonTemplate {
    match v {
        serde_json::Value::Object(m) => JsonTemplate::Object(
            m.into_iter().map(|(k, w)| (k, project_field(w))).collect(),
        ),
        other => JsonTemplate::Scalar(scalar_of(&other)),
    }
}

/// Relies on `serde_json::Value::Object` and `serde_json::Map`: the
/// document yields its named values in order, each projected by
/// [`project_template`]; any other value keeps only its mark.
#[verifier::external_body]
fn project_document(v: serde_json::Value) -> JsonDocument {
    match v {
        serde_json::Value::Object(m) => JsonDocument::Object(
            m.into_iter().map(|(k, w)| (k, project_template(w))).collect(),
        ),
        other => JsonDocument::Scalar(scalar_of(&other)),
    }
}

/// Relies on `serde_json::from_slice`: it parses one JSON document from
/// bytes or reports in its own words why it cannot; the parsed value,
/// projected by [`project_document`], is named [`json_of`], a function of
/// the bytes alone. Each object is a map backed by an ordered tree, so no
/// object of the projection carries a repeated key.
#[verifier::external_body]
fn parse_json(bytes: &[u8]) -> (r: Result<JsonDocument, String>)
    ensures
        match r {
            Ok(d) => json_of(bytes@) == Ok::<JsonDocumentModel, Seq<char>>(d@)
                && document_keyed_once(d@),
            Err(m) => json_of(bytes@) == Err::<JsonDocumentModel, Seq<char>>(m@),
        },
{
    match serde_json::from_slice::<serde_json::Value>(bytes) {
        Ok(v) => Ok(project_document(v)),
        Err(e) => Err(e.to_string()),
    }
}

/// The message of the error for a document that is not a JSON object.
pub open spec fn top_not_object_message() -> Seq<char> {
    "The templates document is not a JSON object."@
}

/// The message of a schema error naming one template.
pub open spec fn schema_message(name: Seq<char>, what: Seq<char>) -> Seq<char> {
    "The profile template, "@ + name + ", "@ + what
}

/// Reads one template's fields from index `i` on, with the values read so
/// far: the `enabled` flag (true when never named), the `extends`
/// reference (a string or null), the required `settings` object, and any
/// unknown field ignored.
pub open spec fn template_outcome_from(
    name: Seq<char>,
    fields: Seq<(Seq<char>, JsonFieldModel)>,
    i: int,
    enabled: bool,
    extends: Option<Seq<char>>,
    settings: Option<Seq<(Seq<char>, SettingModel)>>,
) -> Result<TemplateModel, Seq<char>>
    decreases fields.len() - i,
{
    if i < 0 || i >= fields.len() {
        match settings {
            Some(s) => Ok(TemplateModel { enabled, extends, settings: s }),
            None => Err(schema_message(name, "does not name any settings."@)),
        }
    } else if fields[i].0 == "enabled"@ {
        match fields[i].1 {
            JsonFieldModel::Scalar(SettingModel::Flag(b)) => template_outcome_from(
                name,
                fields,
                i + 1,
                b,
                extends,
                settings,
            ),
            _ => Err(schema_message(name, "does not have a boolean enabled flag."@)),
        }
    } else if fields[i].0 == "extends"@ {
        match fields[i].1 {
            JsonFieldModel::Scalar(SettingModel::Null) => template_outcome_from(
                name,
                fields,
                i + 1,
                enabled,
                None,
                settings,
            ),
            JsonFieldModel::Scalar(SettingModel::Text(s)) => template_outcome_from(
                name,
                fields,
                i + 1,
                enabled,
                Some(s),
                settings,
            ),
            _ => Err(
                schema_message(name, "does not extend another template by name or null."@),
            ),
        }
    } else if fields[i].0 == "settings"@ {
        match fields[i].1 {
            JsonFieldModel::Object(entries) => template_outcome_from(
                name,
                fields,
                i + 1,
                enabled,
                extends,
                Some(entries),
            ),
            _ => Err(
                schema_message(name, "does not hold its settings in a JSON object."@),
            ),
        }
    } else {
        template_outcome_from(name, fields, i + 1, enabled, extends, settings)
    }
}

/// Reads the document's templates from entry `i` on, in order; the first
/// schema failure is the outcome.
pub open spec fn templates_outcome_from(
    entries: Seq<(Seq<char>, JsonTemplateModel)>,
    i: int,
) -> Result<Seq<(Seq<char>, TemplateModel)>, Seq<char>>
    decreases entries.len() - i,
{
    if i < 0 || i >= entries.len() {
        Ok(Seq::empty())
    } else {
        match entries[i].1 {
            JsonTemplateModel::Scalar(_) => Err(
                schema_message(entries[i].0, "is not a JSON object."@),
            ),
            JsonTemplateModel::Object(fields) => match template_outcome_from(
                entries[i].0,
                fields,
                0,
                true,
                None,
                None,
            ) {
                Ok(t) => match templates_outcome_from(entries, i + 1) {
                    Ok(rest) => Ok(seq![(entries[i].0, t)] + rest),
                    Err(m) => Err(m),
                },
                Err(m) => Err(m),
            },
        }
    }
}

/// What the template collection read from the given parser outcome comes
/// to: the parser's own failure verbatim, a document that is no object,
/// or the templates the schema walk reads out, in document order.
pub open spec fn templates_outcome(doc: Result<JsonDocumentModel, Seq<char>>) -> Result<
    Seq<(Seq<char>, TemplateModel)>,
    Seq<char>,
> {
    match doc {
        Err(m) => Err(m),
        Ok(JsonDocumentModel::Scalar(_)) => Err(top_not_object_message()),
        Ok(JsonDocumentModel::Object(entries)) => templates_outcome_from(entries, 0),
    }
}

/// The view of a field mirrors its constructors: each shape of interest
/// holds of the view exactly when it holds of the value.
proof fn lemma_field_view_shape(f: JsonField)
    ensures
        (f@ matches JsonFieldModel::Scalar(SettingModel::Flag(_))) <==> (f matches
            JsonField::Scalar(SettingValue::Flag(_))),
        (f@ matches JsonFieldModel::Scalar(SettingModel::Null)) <==> (f matches
            JsonField::Scalar(SettingValue::Null)),
        (f@ matches JsonFieldModel::Scalar(SettingModel::Text(_))) <==> (f matches
            JsonField::Scalar(SettingValue::Text(_))),
        (f@ matches JsonFieldModel::Object(_)) <==> (f matches JsonField::Object(_)),
{
    match f {
        JsonField::Scalar(sv) => {
            match sv {
                SettingValue::Null => {},
                SettingValue::Flag(_) => {},
                SettingValue::Number(_) => {},
                SettingValue::Text(_) => {},
                SettingValue::Array => {},
                SettingValue::Object => {},
            }
        },
        JsonField::Object(_) => {},
    }
}

/// Builds the schema error for one template: status 1 and a message
/// naming the template and what was wrong with it.
fn template_schema_error(name: &str, what: &str) -> (r: Error)
    ensures
        r@.status == 1,
        r@.message == Some(schema_message(name@, what@)),
        r@.context == Seq::<Seq<char>>::empty(),
{
    let mut m = String::from_str("The profile template, ");
    m.append(name);
    m.append(", ");
    m.append(what);
    Error::new(1).with_message(m)
}

/// Reads one template out of its fields, exactly as
/// [`template_outcome_from`] lays it out.
fn parse_template(name: &str, fields: Vec<(String, JsonField)>) -> (r: Result<Template, Error>)
    requires
        forall|i: int|
            0 <= i < fields@.len() ==> field_keyed_once(
                (#[trigger] field_entries_view(fields@)[i]).1,
            ),
    ensures
        match r {
            Ok(t) => template_outcome_from(name@, field_entries_view(fields@), 0, true, None, None)
                == Ok::<TemplateModel, Seq<char>>(t@) && template_wf(t@),
            Err(e) => e@.status == 1 && e@.context == Seq::<Seq<char>>::empty() && match
                template_outcome_from(name@, field_entries_view(fields@), 0, true, None, None) {
                Err(m) => e@.message == Some(m),
                Ok(_) => false,
            },
        },
{
    let ghost fview = field_entries_view(fields@);
    let mut rest = fields;
    let mut enabled = true;
    let mut extends: Option<String> = None;
    let mut settings: Option<Vec<(String, SettingValue)>> = None;
    let ghost mut k: int = 0;
    proof {
        assert(rest@ =~= fields@.skip(0));
        assert(field_entries_view(rest@) =~= fview.skip(0));
    }
    while rest.len() > 0
        invariant
            0 <= k <= fview.len(),
            fview == field_entries_view(fields@),
            field_entries_view(rest@) == fview.skip(k),
            forall|i: int|
                0 <= i < fview.len() ==> field_keyed_once((#[trigger] fview[i]).1),
            match settings {
                Some(ref s) => distinct_keys(settings_view(s@)),
                None => true,
            },
            template_outcome_from(
                name@,
                fview,
                k,
                enabled,
                match extends {
                    Some(ref e) => Some(e@),
                    None => None,
                },
                match settings {
                    Some(ref s) => Some(settings_view(s@)),
                    None => None,
                },
            ) == template_outcome_from(name@, fview, 0, true, None, None),
        decreases rest@.len(),
    {
        let ghost rest_pre = field_entries_view(rest@);
        let (key, value) = rest.remove(0);
        proof {
            assert(field_entries_view(rest@) =~= rest_pre.drop_first());
            assert(rest_pre.drop_first() =~= fview.skip(k + 1));
            assert(rest_pre[0] == fview[k]);
            assert((key@, value@) == fview[k]);
            lemma_field_view_shape(value);
        }
        if str_eq(key.as_str(), "enabled") {
            match value {
                JsonField::Scalar(SettingValue::Flag(b)) => {
                    enabled = b;
                },
                _ => {
                    return Err(
                        template_schema_error(name, "does not have a boolean enabled flag."),
                    );
                },
            }
        } else if str_eq(key.as_str(), "extends") {
            match value {
                JsonField::Scalar(SettingValue::Null) => {
                    extends = None;
                },
                JsonField::Scalar(SettingValue::Text(s)) => {
                    extends = Some(s);
                },
                _ => {
                    return Err(
                        template_schema_error(
                            name,
                            "does not extend another template by name or null.",
                        ),
                    );
                },
            }
        } else if str_eq(key.as_str(), "settings") {
            match value {
                JsonField::Object(entries) => {
                    proof {
                        assert(field_keyed_once(fview[k].1));
                    }
                    settings = Some(entries);
                },
                _ => {
                    return Err(
                        template_schema_error(
                            name,
                            "does not hold its settings in a JSON object.",
                        ),
                    );
                },
            }
        }
        proof {
            k = k + 1;
        }
    }
    proof {
        assert(fview.skip(k).len() == 0);
    }
    match settings {
        Some(s) => Ok(Template::new(enabled, extends, s)),
        None => Err(template_schema_error(name, "does not name any settings.")),
    }
}

/// Parses a JSON document into a template collection, exactly as
/// [`templates_outcome`] lays it out over the named parser outcome
/// [`json_of`]: the parser's own words for malformed bytes, and the
/// schema walk's verdicts — decided here, in proved code — for everything
/// on top.
pub fn parse_templates(bytes: &[u8]) -> (r: Result<Templates, Error>)
    ensures
        match r {
            Ok(t) => templates_outcome(json_of(bytes@)) == Ok::<
                Seq<(Seq<char>, TemplateModel)>,
                Seq<char>,
            >(t@) && t.wf(),
            Err(e) => e@.status == 1 && e@.context == Seq::<Seq<char>>::empty() && match
                templates_outcome(json_of(bytes@)) {
                Err(m) => e@.message == Some(m),
                Ok(_) => false,
            },
        },
{
    let document = match parse_json(bytes) {
        Ok(d) => d,
        Err(m) => {
            return Err(Error::new(1).with_message(m));
        },
    };
    let entries = match document {
        JsonDocument::Object(entries) => entries,
        JsonDocument::Scalar(_) => {
            return Err(
                Error::new(1).with_message(
                    String::from_str("The templates document is not a JSON object."),
                ),
            );
        },
    };
    let ghost eview = template_node_view(entries@);
    let mut rest = entries;
    let mut out: Vec<(String, Template)> = Vec::new();
    let ghost mut k: int = 0;
    proof {
        assert(rest@ =~= rest@.skip(0));
        assert(template_node_view(rest@) =~= eview.skip(0));
        assert(template_entries_view(out@) =~= Seq::<
            (Seq<char>, TemplateModel),
        >::empty());
    }
    while rest.len() > 0
        invariant
            0 <= k <= eview.len(),
            json_of(bytes@) == Ok::<JsonDocumentModel, Seq<char>>(JsonDocumentModel::Object(
                eview,
            )),
            template_node_view(rest@) == eview.skip(k),
            distinct_keys(eview),
            forall|i: int|
                0 <= i < eview.len() ==> template_keyed_once((#[trigger] eview[i]).1),
            out@.len() == k,
            forall|j: int|
                0 <= j < k ==> (#[trigger] template_entries_view(out@)[j]).0
                    == eview[j].0,
            forall|j: int|
                0 <= j < k ==> template_wf(
                    (#[trigger] template_entries_view(out@)[j]).1,
                ),
            match templates_outcome_from(eview, k) {
                Ok(rest_spec) => templates_outcome_from(eview, 0) == Ok::<
                    Seq<(Seq<char>, TemplateModel)>,
                    Seq<char>,
                >(template_entries_view(out@) + rest_spec),
                Err(m) => templates_outcome_from(eview, 0) == Err::<
                    Seq<(Seq<char>, TemplateModel)>,
                    Seq<char>,
                >(m),
            },
        decreases rest@.len(),
    {
        let ghost rest_pre = template_node_view(rest@);
        let (name, node) = rest.remove(0);
        proof {
            assert(template_node_view(rest@) =~= rest_pre.drop_first());
            assert(rest_pre.drop_first() =~= eview.skip(k + 1));
            assert(rest_pre[0] == eview[k]);
            assert((name@, node@) == eview[k]);
        }
        let fields = match node {
            JsonTemplate::Object(fields) => fields,
            JsonTemplate::Scalar(_) => {
                return Err(template_schema_error(name.as_str(), "is not a JSON object."));
            },
        };
        proof {
            assert(template_keyed_once(eview[k].1));
        }
        let template = match parse_template(name.as_str(), fields) {
            Ok(t) => t,
            Err(e) => {
                return Err(e);
            },
        };
        let ghost out_pre = template_entries_view(out@);
        let ghost t_model = template@;
        let ghost n_view = name@;
        out.push((name, template));
        proof {
            let out_post = template_entries_view(out@);
            assert(out_post =~= out_pre.push((n_view, t_model)));
            match templates_outcome_from(eview, k + 1) {
                Ok(rest_spec) => {
                    assert(out_pre + (seq![(eview[k].0, t_model)] + rest_spec) =~= out_post
                        + rest_spec);
                },
                Err(_) => {},
            }
            k = k + 1;
        }
    }
    proof {
        assert(eview.skip(k).len() == 0);
        assert(templates_outcome_from(eview, k) == Ok::<
            Seq<(Seq<char>, TemplateModel)>,
            Seq<char>,
        >(Seq::empty()));
        let out_view = template_entries_view(out@);
        assert(out_view + Seq::<(Seq<char>, TemplateModel)>::empty() =~= out_view);
        assert forall|a: int, b: int|
            0 <= a < b < out_view.len() implies (#[trigger] out_view[a]).0 != (
        #[trigger] out_view[b]).0 by {
            assert(out_view[a].0 == eview[a].0);
            assert(out_view[b].0 == eview[b].0);
        }
    }
    Ok(Templates::from_entries(out))
}

} // verus!
