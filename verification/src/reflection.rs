//! Reading slangc's reflection JSON: which entry points a module has, what
//! its parameters are, and which display mode follows from them.
//!
//! Lookups follow JSON indexing conventions: a missing member, an index
//! out of range, or a value of the wrong kind all read as "absent", and
//! every accessor of an absent value yields nothing.

use crate::shader::{ParamKind, RenderMode, ShaderParam, CompiledShader, ShaderParamView, ParamKindView, RenderModeView, Stage, params_view};
use vstd::prelude::*;
use vstd::string::StringExecFns;

verus! {

/// A JSON document as the reflection logic reads it.
pub enum JsonValue {
    Null,
    Bool(bool),
    /// A number, with its value when it is an integer that fits in `u64`.
    Number(Option<u64>),
    Str(String),
    Array(Vec<JsonValue>),
    /// Members in ascending key order, as serde_json's default map keeps
    /// them (keys are unique).
    Object(Vec<(String, JsonValue)>),
}

/// serde_json's parsed document; only converted into a [`JsonValue`],
/// never inspected here.
#[verifier::external_type_specification]
#[verifier::external_body]
pub struct ExJsonDocument(serde_json::Value);

/// The document serde_json parses from `text`, as a [`JsonValue`]; `None`
/// when `text` is not valid JSON. The parse depends on the text alone:
/// serde_json's default map orders members by key.
pub uninterp spec fn spec_parse_json(text: Seq<char>) -> Option<JsonValue>;

/// Converts serde_json's document into a [`JsonValue`] variant by variant:
/// strings and booleans are moved, numbers keep `Number::as_u64`, arrays
/// and objects are converted member by member in the map's order. This is
/// the conversion half of [`parse_json`] and carries no contract of its own.
#[verifier::external_body]
fn json_from_document(document: serde_json::Value) -> JsonValue {
    match document {
        serde_json::Value::Null => JsonValue::Null,
        serde_json::Value::Bool(b) => JsonValue::Bool(b),
        serde_json::Value::Number(n) => JsonValue::Number(n.as_u64()),
        serde_json::Value::String(s) => JsonValue::Str(s),
        serde_json::Value::Array(items) => JsonValue::Array(items.into_iter().map(json_from_document).collect()),
        serde_json::Value::Object(members) => JsonValue::Object(
            members.into_iter().map(|(key, member)| (key, json_from_document(member))).collect(),
        ),
    }
}

/// Parses JSON text with `serde_json::from_str::<serde_json::Value>`.
///
/// Its contract claims only that the result is a fixed function of the
/// text ([`spec_parse_json`]): `None` exactly when serde_json rejects it.
/// Which document a given text yields is serde_json's grammar, not stated
/// here.
#[verifier::external_body]
pub(crate) fn parse_json(text: &str) -> (parsed: Option<JsonValue>)
    ensures
        parsed == spec_parse_json(text@),
{
    serde_json::from_str::<serde_json::Value>(text).ok().map(json_from_document)
}

/// The value of the first member named `key` among `entries`.
pub open spec fn lookup(entries: Seq<(String, JsonValue)>, key: Seq<char>) -> Option<JsonValue>
    decreases entries.len(),
{
    if entries.len() == 0 {
        None
    } else if entries[0].0@ == key {
        Some(entries[0].1)
    } else {
        lookup(entries.drop_first(), key)
    }
}

/// What [`lookup`] finds: the value of a member named `key` with no
/// member of that name before it, or `None` when no member has that name.
pub proof fn lemma_lookup(entries: Seq<(String, JsonValue)>, key: Seq<char>)
    ensures
        match lookup(entries, key) {
            Some(v) => exists|i: int| 0 <= i < entries.len() && #[trigger] entries[i].0@ == key
                && entries[i].1 == v && forall|j: int| 0 <= j < i ==> (#[trigger] entries[j]).0@ != key,
            None => forall|j: int| 0 <= j < entries.len() ==> (#[trigger] entries[j]).0@ != key,
        },
    decreases entries.len(),
{
    if entries.len() > 0 {
        let rest = entries.drop_first();
        lemma_lookup(rest, key);
        if entries[0].0@ == key {
            assert(entries[0].0@ == key);
        } else {
            match lookup(rest, key) {
                Some(v) => {
                    let i = choose|i: int| 0 <= i < rest.len() && #[trigger] rest[i].0@ == key
                        && rest[i].1 == v && forall|j: int| 0 <= j < i ==> (#[trigger] rest[j]).0@ != key;
                    assert(entries[i + 1] == rest[i]);
                    assert forall|j: int| 0 <= j < i + 1 implies (#[trigger] entries[j]).0@ != key by {
                        if j > 0 {
                            assert(entries[j] == rest[j - 1]);
                        }
                    }
                    assert(entries[i + 1].0@ == key);
                },
                None => {
                    assert forall|j: int| 0 <= j < entries.len() implies (#[trigger] entries[j]).0@ != key by {
                        if j > 0 {
                            assert(entries[j] == rest[j - 1]);
                        }
                    }
                },
            }
        }
    }
}

/// `v[key]`.
pub open spec fn member(v: Option<JsonValue>, key: Seq<char>) -> Option<JsonValue> {
    match v {
        Some(JsonValue::Object(entries)) => lookup(entries@, key),
        _ => None,
    }
}

/// `v[i]`.
pub open spec fn element(v: Option<JsonValue>, i: int) -> Option<JsonValue> {
    match v {
        Some(JsonValue::Array(items)) => if 0 <= i < items.len() {
            Some(items@[i])
        } else {
            None
        },
        _ => None,
    }
}

/// `v.as_str()`.
pub open spec fn str_of(v: Option<JsonValue>) -> Option<Seq<char>> {
    match v {
        Some(JsonValue::Str(s)) => Some(s@),
        _ => None,
    }
}

/// `v.as_str().unwrap_or_default()`.
pub open spec fn str_or_empty(v: Option<JsonValue>) -> Seq<char> {
    match str_of(v) {
        Some(s) => s,
        None => Seq::empty(),
    }
}

/// `v.as_u64()`.
pub open spec fn u64_of(v: Option<JsonValue>) -> Option<u64> {
    match v {
        Some(JsonValue::Number(n)) => n,
        _ => None,
    }
}

/// `v.as_array()`.
pub open spec fn array_of(v: Option<JsonValue>) -> Option<Seq<JsonValue>> {
    match v {
        Some(JsonValue::Array(items)) => Some(items@),
        _ => None,
    }
}

/// `v.as_array().unwrap_or_default()`.
pub open spec fn items_or_empty(v: Option<JsonValue>) -> Seq<JsonValue> {
    match array_of(v) {
        Some(items) => items,
        None => Seq::empty(),
    }
}

pub open spec fn deref_opt(v: Option<&JsonValue>) -> Option<JsonValue> {
    match v {
        Some(x) => Some(*x),
        None => None,
    }
}

/// Index of the first item at or after `from` whose `key` member reads as
/// the string `wanted`.
pub open spec fn first_with(items: Seq<JsonValue>, key: Seq<char>, wanted: Seq<char>, from: int) -> Option<int>
    decreases items.len() - from,
{
    if from < 0 || from >= items.len() {
        None
    } else if str_of(member(Some(items[from]), key)) == Some(wanted) {
        Some(from)
    } else {
        first_with(items, key, wanted, from + 1)
    }
}

/// What [`first_with`] finds: the first item at or after `from` whose
/// `key` member is the string `wanted`, or `None` when no such item is
/// there.
pub proof fn lemma_first_with(items: Seq<JsonValue>, key: Seq<char>, wanted: Seq<char>, from: int)
    requires
        0 <= from,
    ensures
        match first_with(items, key, wanted, from) {
            Some(i) => from <= i < items.len() && str_of(member(Some(items[i]), key)) == Some(wanted)
                && forall|j: int| from <= j < i ==> str_of(member(Some(#[trigger] items[j]), key))
                    != Some(wanted),
            None => forall|j: int| from <= j < items.len() ==> str_of(member(Some(#[trigger] items[j]), key))
                != Some(wanted),
        },
    decreases items.len() - from,
{
    if from < items.len() && str_of(member(Some(items[from]), key)) != Some(wanted) {
        lemma_first_with(items, key, wanted, from + 1);
    }
}

/// `v[key]`.
pub fn get<'a>(v: Option<&'a JsonValue>, key: &str) -> (r: Option<&'a JsonValue>)
    ensures
        deref_opt(r) == member(deref_opt(v), key@),
{
    match v {
        Some(JsonValue::Object(entries)) => {
            let wanted = key.to_owned();
            let mut i: usize = 0;
            assert(entries@.skip(0) =~= entries@);
            while i < entries.len()
                invariant
                    i <= entries.len(),
                    wanted@ == key@,
                    member(deref_opt(v), key@) == lookup(entries@, key@),
                    lookup(entries@, key@) == lookup(entries@.skip(i as int), key@),
                decreases entries.len() - i,
            {
                assert(entries@.skip(i as int).drop_first() =~= entries@.skip(i + 1));
                assert(entries@.skip(i as int)[0] == entries@[i as int]);
                if entries[i].0 == wanted {
                    return Some(&entries[i].1);
                }
                i += 1;
            }
            None
        },
        _ => None,
    }
}

/// `v[i]`.
pub fn at<'a>(v: Option<&'a JsonValue>, i: usize) -> (r: Option<&'a JsonValue>)
    ensures
        deref_opt(r) == element(deref_opt(v), i as int),
{
    match v {
        Some(JsonValue::Array(items)) => if i < items.len() {
            Some(&items[i])
        } else {
            None
        },
        _ => None,
    }
}

/// `v.as_str()`.
pub fn as_str<'a>(v: Option<&'a JsonValue>) -> (r: Option<&'a String>)
    ensures
        match r {
            Some(s) => str_of(deref_opt(v)) == Some(s@),
            None => str_of(deref_opt(v)) is None,
        },
{
    match v {
        Some(JsonValue::Str(s)) => Some(s),
        _ => None,
    }
}

/// `v.as_u64()`.
pub fn as_u64(v: Option<&JsonValue>) -> (r: Option<u64>)
    ensures
        r == u64_of(deref_opt(v)),
{
    match v {
        Some(JsonValue::Number(n)) => *n,
        _ => None,
    }
}

/// `v.as_array()`.
pub fn as_array<'a>(v: Option<&'a JsonValue>) -> (r: Option<&'a Vec<JsonValue>>)
    ensures
        match r {
            Some(items) => array_of(deref_opt(v)) == Some(items@),
            None => array_of(deref_opt(v)) is None,
        },
{
    match v {
        Some(JsonValue::Array(items)) => Some(items),
        _ => None,
    }
}

/// `v.as_str().unwrap_or_default().to_string()`.
pub fn string_or_empty(v: Option<&JsonValue>) -> (r: String)
    ensures
        r@ == str_or_empty(deref_opt(v)),
{
    match as_str(v) {
        Some(s) => s.clone(),
        None => String::new(),
    }
}

/// Whether `v` reads as the string `wanted`.
pub fn is_str(v: Option<&JsonValue>, wanted: &str) -> (r: bool)
    ensures
        r == (str_of(deref_opt(v)) == Some(wanted@)),
{
    match as_str(v) {
        Some(s) => {
            let w = wanted.to_owned();
            *s == w
        },
        None => false,
    }
}

/// Index of the first of `items` (from `from` on) whose `key` member is
/// the string `wanted`.
pub fn find_with(items: &Vec<JsonValue>, key: &str, wanted: &str) -> (r: Option<usize>)
    ensures
        match r {
            Some(i) => i < items@.len() && first_with(items@, key@, wanted@, 0) == Some(i as int),
            None => first_with(items@, key@, wanted@, 0) is None,
        },
{
    let mut i: usize = 0;
    while i < items.len()
        invariant
            i <= items.len(),
            first_with(items@, key@, wanted@, 0) == first_with(items@, key@, wanted@, i as int),
        decreases items.len() - i,
    {
        if is_str(get(Some(&items[i]), key), wanted) {
            return Some(i);
        }
        i += 1;
    }
    None
}


/// What a reflection parameter's shape and access say about how the
/// viewer can supply it.
pub open spec fn spec_param_kind(base_shape: Seq<char>, access: Seq<char>, is_float: bool) -> ParamKindView {
    if base_shape == "structuredBuffer"@ && access == "readWrite"@ && is_float {
        ParamKindView::RandomFloatBuffer
    } else if base_shape == "texture2D"@ && access == "write"@ {
        ParamKindView::OutputTexture
    } else {
        ParamKindView::Unsupported(base_shape + " ("@ + access + ")"@)
    }
}

/// The element count of a parameter's `[playground::RAND(n)]` attribute:
/// the first argument of the first user attribute named `playground_RAND`.
pub open spec fn spec_rand_count(param: JsonValue) -> Option<u32> {
    match array_of(member(Some(param), "userAttribs"@)) {
        None => None,
        Some(attribs) => match first_with(attribs, "name"@, "playground_RAND"@, 0) {
            None => None,
            Some(i) => match u64_of(element(member(Some(attribs[i]), "arguments"@), 0)) {
                Some(n) => Some(n as u32),
                None => None,
            },
        },
    }
}

/// One reflection parameter as the viewer reads it; absent fields default
/// to an empty name, binding 0 and an empty shape and access.
pub open spec fn spec_parameter(param: JsonValue) -> ShaderParamView {
    let p = Some(param);
    let ty = member(p, "type"@);
    ShaderParamView {
        name: str_or_empty(member(p, "name"@)),
        binding: (match u64_of(member(member(p, "binding"@), "index"@)) {
            Some(n) => n,
            None => 0,
        }) as u32,
        kind: spec_param_kind(
            str_or_empty(member(ty, "baseShape"@)),
            str_or_empty(member(ty, "access"@)),
            str_of(member(member(ty, "resultType"@), "scalarType"@)) == Some("float32"@),
        ),
        rand_count: spec_rand_count(param),
    }
}

/// How the viewer supplies a reflection parameter, from the strings its
/// `type` member gives (an absent string reads as empty): a random float
/// buffer only for a read-write structured buffer of `float32`, the output
/// texture only for a write-only 2D texture, and anything else is
/// unsupported, described as its shape and access.
pub proof fn lemma_parameter_kind(param: JsonValue)
    ensures
        ({
            let ty = member(Some(param), "type"@);
            let shape = str_or_empty(member(ty, "baseShape"@));
            let access = str_or_empty(member(ty, "access"@));
            let float = str_of(member(member(ty, "resultType"@), "scalarType"@)) == Some("float32"@);
            let kind = spec_parameter(param).kind;
            &&& (kind == ParamKindView::RandomFloatBuffer) <==> (shape == "structuredBuffer"@
                && access == "readWrite"@ && float)
            &&& (kind == ParamKindView::OutputTexture) <==> (shape == "texture2D"@ && access
                == "write"@)
            &&& (kind is Unsupported) <==> !((shape == "structuredBuffer"@ && access
                == "readWrite"@ && float) || (shape == "texture2D"@ && access == "write"@))
            &&& kind is Unsupported ==> kind == ParamKindView::Unsupported(
                shape + " ("@ + access + ")"@,
            )
        }),
{
    reveal_strlit("structuredBuffer");
    reveal_strlit("texture2D");
    let ty = member(Some(param), "type"@);
    let shape = str_or_empty(member(ty, "baseShape"@));
    if shape == "structuredBuffer"@ {
        assert(shape[0] == 's');
        assert(shape != "texture2D"@);
    }
}

/// The module-level parameters listed in a reflection document.
pub open spec fn spec_parameters(reflection: JsonValue) -> Seq<ShaderParamView> {
    items_or_empty(member(Some(reflection), "parameters"@)).map_values(
        |p: JsonValue| spec_parameter(p),
    )
}

fn parse_rand_count(param: &JsonValue) -> (r: Option<u32>)
    ensures
        r == spec_rand_count(*param),
{
    match as_array(get(Some(param), "userAttribs")) {
        None => None,
        Some(attribs) => match find_with(attribs, "name", "playground_RAND") {
            None => None,
            Some(i) => match as_u64(at(get(Some(&attribs[i]), "arguments"), 0)) {
                Some(n) => Some(n as u32),
                None => None,
            },
        },
    }
}

fn parse_parameter(param: &JsonValue) -> (r: ShaderParam)
    ensures
        r@ == spec_parameter(*param),
{
    let p = Some(param);
    let ty = get(p, "type");
    let name = string_or_empty(get(p, "name"));
    let index: u64 = match as_u64(get(get(p, "binding"), "index")) {
        Some(n) => n,
        None => 0,
    };
    let binding = index as u32;
    let base_shape = string_or_empty(get(ty, "baseShape"));
    let access = string_or_empty(get(ty, "access"));
    let is_float = is_str(get(get(ty, "resultType"), "scalarType"), "float32");
    let structured = "structuredBuffer".to_owned();
    let read_write = "readWrite".to_owned();
    let texture = "texture2D".to_owned();
    let write = "write".to_owned();
    let kind = if base_shape == structured && access == read_write && is_float {
        ParamKind::RandomFloatBuffer
    } else if base_shape == texture && access == write {
        ParamKind::OutputTexture
    } else {
        let mut what = base_shape.clone();
        what.append(" (");
        what.append(access.as_str());
        what.append(")");
        ParamKind::Unsupported(what)
    };
    ShaderParam { name, binding, kind, rand_count: parse_rand_count(param) }
}

/// The module-level parameters a reflection document declares, in order.
pub fn parse_parameters(reflection: &JsonValue) -> (params: Vec<ShaderParam>)
    ensures
        params_view(params@) == spec_parameters(*reflection),
{
    let mut params: Vec<ShaderParam> = Vec::new();
    match as_array(get(Some(reflection), "parameters")) {
        None => {},
        Some(items) => {
            let mut i: usize = 0;
            while i < items.len()
                invariant
                    i <= items.len(),
                    params@.len() == i,
                    forall|k: int| 0 <= k < i ==> #[trigger] params@[k]@ == spec_parameter(items@[k]),
                decreases items.len() - i,
            {
                params.push(parse_parameter(&items[i]));
                i += 1;
            }
        },
    }
    assert(params_view(params@) =~= spec_parameters(*reflection));
    params
}

/// The `name` member of an entry point, or empty.
pub open spec fn entry_name(entry: JsonValue) -> Seq<char> {
    str_or_empty(member(Some(entry), "name"@))
}

/// One thread-group dimension of an entry point (1 when not given).
pub open spec fn entry_group_dim(entry: JsonValue, k: int) -> u32 {
    (match u64_of(element(member(Some(entry), "threadGroupSize"@), k)) {
        Some(n) => n,
        None => 1,
    }) as u32
}

/// The display mode a compiled module gets: graphics when it has a vertex
/// and a fragment entry point and no resource parameters, otherwise
/// compute when it has a compute entry point, otherwise nothing.
pub open spec fn spec_finish(words: Seq<u32>, reflection: JsonValue) -> Option<RenderModeView> {
    let entries = items_or_empty(member(Some(reflection), "entryPoints"@));
    let params = spec_parameters(reflection);
    let vertex = first_with(entries, "stage"@, "vertex"@, 0);
    let fragment = first_with(entries, "stage"@, "fragment"@, 0);
    let compute = first_with(entries, "stage"@, "compute"@, 0);
    if vertex is Some && fragment is Some && params.len() == 0 {
        Some(
            RenderModeView::Graphics {
                vertex_spirv: words,
                fragment_spirv: words,
                vertex_entry: entry_name(entries[vertex->0]),
                fragment_entry: entry_name(entries[fragment->0]),
                shadertoy: false,
            },
        )
    } else if compute is Some {
        let c = entries[compute->0];
        Some(
            RenderModeView::Compute {
                spirv: words,
                entry: entry_name(c),
                group_size: seq![entry_group_dim(c, 0), entry_group_dim(c, 1), entry_group_dim(c, 2)],
                parameters: params,
            },
        )
    } else {
        None
    }
}

fn group_dim(entry: &JsonValue, k: usize) -> (d: u32)
    ensures
        d == entry_group_dim(*entry, k as int),
{
    let n: u64 = match as_u64(at(get(Some(entry), "threadGroupSize"), k)) {
        Some(n) => n,
        None => 1,
    };
    n as u32
}

/// Selects a display mode for a compiled module from its SPIR-V words and
/// its reflection; `None` when it contains nothing the viewer can display.
pub fn finish(words: Vec<u32>, reflection: &JsonValue) -> (compiled: Option<CompiledShader>)
    ensures
        match compiled {
            Some(c) => spec_finish(words@, *reflection) == Some(c@),
            None => spec_finish(words@, *reflection) is None,
        },
{
    let parameters = parse_parameters(reflection);
    let empty: Vec<JsonValue> = Vec::new();
    let entries = match as_array(get(Some(reflection), "entryPoints")) {
        Some(items) => items,
        None => &empty,
    };
    assert(entries@ == items_or_empty(member(Some(*reflection), "entryPoints"@)));
    let vertex = find_with(entries, "stage", "vertex");
    let fragment = find_with(entries, "stage", "fragment");
    let compute = find_with(entries, "stage", "compute");
    if let (Some(v), Some(f)) = (vertex, fragment) {
        if parameters.len() == 0 {
            let vertex_entry = string_or_empty(get(Some(&entries[v]), "name"));
            let fragment_entry = string_or_empty(get(Some(&entries[f]), "name"));
            return Some(
                CompiledShader {
                    mode: RenderMode::Graphics {
                        vertex_spirv: words.clone(),
                        fragment_spirv: words,
                        vertex_entry,
                        fragment_entry,
                        shadertoy: false,
                    },
                },
            );
        }
    }
    match compute {
        Some(c) => {
            let entry = string_or_empty(get(Some(&entries[c]), "name"));
            let group_size = [
                group_dim(&entries[c], 0),
                group_dim(&entries[c], 1),
                group_dim(&entries[c], 2),
            ];
            let ghost g = group_size@;
            assert(g =~= seq![
                entry_group_dim(entries@[c as int], 0),
                entry_group_dim(entries@[c as int], 1),
                entry_group_dim(entries@[c as int], 2)
            ]);
            Some(CompiledShader { mode: RenderMode::Compute { spirv: words, entry, group_size, parameters } })
        },
        None => None,
    }
}

/// Selects a display mode from a module's SPIR-V words and the text of its
/// reflection JSON: `None` when the text does not parse, otherwise what
/// [`finish`] selects from the parsed document.
pub fn finish_from_text(words: Vec<u32>, text: &str) -> (compiled: Option<Option<CompiledShader>>)
    ensures
        match spec_parse_json(text@) {
            None => compiled is None,
            Some(r) => compiled matches Some(inner) && match inner {
                Some(c) => spec_finish(words@, r) == Some(c@),
                None => spec_finish(words@, r) is None,
            },
        },
{
    match parse_json(text) {
        None => None,
        Some(reflection) => Some(finish(words, &reflection)),
    }
}

/// The name reflection gives the entry point of `stage` in a per-stage
/// compile; "main" when the reflection is missing or does not say.
pub open spec fn spec_stage_entry_name(reflection: Option<JsonValue>, flag: Seq<char>) -> Seq<char> {
    match array_of(member(reflection, "entryPoints"@)) {
        Some(items) => match first_with(items, "stage"@, flag, 0) {
            Some(i) => match str_of(member(Some(items[i]), "name"@)) {
                Some(name) => name,
                None => "main"@,
            },
            None => "main"@,
        },
        None => "main"@,
    }
}

pub fn stage_entry_name(reflection: Option<&JsonValue>, stage: Stage) -> (name: String)
    ensures
        name@ == spec_stage_entry_name(deref_opt(reflection), stage.flag()),
{
    let flag = stage.slang_flag();
    match as_array(get(reflection, "entryPoints")) {
        Some(items) => match find_with(items, "stage", flag) {
            Some(i) => match as_str(get(Some(&items[i]), "name")) {
                Some(name) => name.clone(),
                None => "main".to_owned(),
            },
            None => "main".to_owned(),
        },
        None => "main".to_owned(),
    }
}

/// The entry-point name of `stage` from the text of a per-stage compile's
/// reflection JSON, if it could be read; "main" when there is no text, it
/// does not parse, or it does not say.
pub fn stage_entry_name_from_text(text: Option<&str>, stage: Stage) -> (name: String)
    ensures
        name@ == spec_stage_entry_name(
            match text {
                Some(t) => spec_parse_json(t@),
                None => None,
            },
            stage.flag(),
        ),
{
    let reflection = match text {
        Some(t) => parse_json(t),
        None => None,
    };
    match reflection {
        Some(r) => stage_entry_name(Some(&r), stage),
        None => stage_entry_name(None, stage),
    }
}

} // verus!
