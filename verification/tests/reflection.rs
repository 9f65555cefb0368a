use vert_frag_viewer::reflection::{
    finish, finish_from_text, parse_parameters, stage_entry_name, stage_entry_name_from_text,
    JsonValue,
};
use vert_frag_viewer::shader::{ParamKind, RenderMode, Stage};

fn s(text: &str) -> JsonValue {
    JsonValue::Str(text.to_string())
}

fn n(value: u64) -> JsonValue {
    JsonValue::Number(Some(value))
}

fn obj(members: Vec<(&str, JsonValue)>) -> JsonValue {
    JsonValue::Object(members.into_iter().map(|(k, v)| (k.to_string(), v)).collect())
}

fn arr(items: Vec<JsonValue>) -> JsonValue {
    JsonValue::Array(items)
}

fn entry(name: &str, stage: &str) -> JsonValue {
    obj(vec![("name", s(name)), ("stage", s(stage))])
}

fn rand_buffer(binding: u64, count: Option<u64>) -> JsonValue {
    let mut members = vec![
        ("name", s("randoms")),
        ("binding", obj(vec![("kind", s("descriptorTableSlot")), ("index", n(binding))])),
        (
            "type",
            obj(vec![
                ("kind", s("resource")),
                ("baseShape", s("structuredBuffer")),
                ("access", s("readWrite")),
                ("resultType", obj(vec![("kind", s("scalar")), ("scalarType", s("float32"))])),
            ]),
        ),
    ];
    if let Some(count) = count {
        members.push((
            "userAttribs",
            arr(vec![obj(vec![("name", s("playground_RAND")), ("arguments", arr(vec![n(count)]))])]),
        ));
    }
    obj(members)
}

fn output_texture(binding: u64) -> JsonValue {
    obj(vec![
        ("name", s("outputTexture")),
        ("binding", obj(vec![("index", n(binding))])),
        ("type", obj(vec![("baseShape", s("texture2D")), ("access", s("write"))])),
    ])
}

#[test]
fn graphics_module() {
    let reflection = obj(vec![
        ("parameters", arr(vec![])),
        ("entryPoints", arr(vec![entry("vertMain", "vertex"), entry("fragMain", "fragment")])),
    ]);
    match finish(vec![0x0723_0203, 1], &reflection).map(|c| c.mode) {
        Some(RenderMode::Graphics { vertex_spirv, fragment_spirv, vertex_entry, fragment_entry, shadertoy }) => {
            assert_eq!(vertex_spirv, vec![0x0723_0203, 1]);
            assert_eq!(fragment_spirv, vec![0x0723_0203, 1]);
            assert_eq!(vertex_entry, "vertMain");
            assert_eq!(fragment_entry, "fragMain");
            assert!(!shadertoy);
        }
        _ => panic!("expected graphics"),
    }
}

#[test]
fn compute_module() {
    let compute = obj(vec![
        ("name", s("imageMain")),
        ("stage", s("compute")),
        ("threadGroupSize", arr(vec![n(16), n(8), n(1)])),
    ]);
    let reflection = obj(vec![
        ("parameters", arr(vec![output_texture(0), rand_buffer(1, Some(64))])),
        ("entryPoints", arr(vec![compute])),
    ]);
    match finish(vec![9], &reflection).map(|c| c.mode) {
        Some(RenderMode::Compute { spirv, entry, group_size, parameters }) => {
            assert_eq!(spirv, vec![9]);
            assert_eq!(entry, "imageMain");
            assert_eq!(group_size, [16, 8, 1]);
            assert_eq!(parameters.len(), 2);
            assert!(matches!(parameters[0].kind, ParamKind::OutputTexture));
            assert_eq!(parameters[0].binding, 0);
            assert!(matches!(parameters[1].kind, ParamKind::RandomFloatBuffer));
            assert_eq!(parameters[1].rand_count, Some(64));
        }
        _ => panic!("expected compute"),
    }
}

#[test]
fn graphics_with_parameters_falls_back_to_compute_or_nothing() {
    let reflection = obj(vec![
        ("parameters", arr(vec![output_texture(0)])),
        ("entryPoints", arr(vec![entry("v", "vertex"), entry("f", "fragment")])),
    ]);
    assert!(finish(vec![1], &reflection).is_none());
}

#[test]
fn missing_thread_group_size_defaults_to_one() {
    let reflection = obj(vec![("entryPoints", arr(vec![entry("k", "compute")]))]);
    match finish(vec![], &reflection).map(|c| c.mode) {
        Some(RenderMode::Compute { group_size, parameters, .. }) => {
            assert_eq!(group_size, [1, 1, 1]);
            assert!(parameters.is_empty());
        }
        _ => panic!("expected compute"),
    }
}

#[test]
fn nothing_displayable() {
    assert!(finish(vec![], &JsonValue::Null).is_none());
    let only_vertex = obj(vec![("entryPoints", arr(vec![entry("v", "vertex")]))]);
    assert!(finish(vec![], &only_vertex).is_none());
}

#[test]
fn parameter_defaults_and_unsupported_description() {
    let odd = obj(vec![("type", obj(vec![("baseShape", s("texture2D")), ("access", s("read"))]))]);
    let params = parse_parameters(&obj(vec![("parameters", arr(vec![odd, rand_buffer(3, None)]))]));
    assert_eq!(params.len(), 2);
    assert_eq!(params[0].name, "");
    assert_eq!(params[0].binding, 0);
    match &params[0].kind {
        ParamKind::Unsupported(what) => assert_eq!(what, "texture2D (read)"),
        _ => panic!("expected unsupported"),
    }
    assert_eq!(params[1].binding, 3);
    assert_eq!(params[1].rand_count, None);
}

#[test]
fn float_buffer_needs_float32() {
    let ints = obj(vec![(
        "type",
        obj(vec![
            ("baseShape", s("structuredBuffer")),
            ("access", s("readWrite")),
            ("resultType", obj(vec![("scalarType", s("int32"))])),
        ]),
    )]);
    let params = parse_parameters(&obj(vec![("parameters", arr(vec![ints]))]));
    match &params[0].kind {
        ParamKind::Unsupported(what) => assert_eq!(what, "structuredBuffer (readWrite)"),
        _ => panic!("expected unsupported"),
    }
}

#[test]
fn stage_entry_names() {
    let reflection = obj(vec![("entryPoints", arr(vec![entry("vmain", "vertex")]))]);
    assert_eq!(stage_entry_name(Some(&reflection), Stage::Vertex), "vmain");
    assert_eq!(stage_entry_name(Some(&reflection), Stage::Fragment), "main");
    assert_eq!(stage_entry_name(None, Stage::Vertex), "main");
}

#[test]
fn compute_module_from_reflection_text() {
    let text = r#"{
        "parameters": [
            {"name": "outputTexture", "binding": {"kind": "descriptorTableSlot", "index": 1},
             "type": {"kind": "resource", "baseShape": "texture2D", "access": "write"}},
            {"name": "randoms", "binding": {"index": 0},
             "userAttribs": [{"name": "playground_RAND", "arguments": [64]}],
             "type": {"baseShape": "structuredBuffer", "access": "readWrite",
                      "resultType": {"kind": "scalar", "scalarType": "float32"}}}
        ],
        "entryPoints": [
            {"name": "imageMain", "stage": "compute", "threadGroupSize": [16, 8, 1]}
        ]
    }"#;
    let compiled = finish_from_text(vec![0x0723_0203, 1], text).unwrap().unwrap();
    match compiled.mode {
        RenderMode::Compute { spirv, entry, group_size, parameters } => {
            assert_eq!(spirv, vec![0x0723_0203, 1]);
            assert_eq!(entry, "imageMain");
            assert_eq!(group_size, [16, 8, 1]);
            assert_eq!(parameters.len(), 2);
            assert_eq!(parameters[0].name, "outputTexture");
            assert_eq!(parameters[0].binding, 1);
            assert!(matches!(parameters[0].kind, ParamKind::OutputTexture));
            assert_eq!(parameters[1].name, "randoms");
            assert!(matches!(parameters[1].kind, ParamKind::RandomFloatBuffer));
            assert_eq!(parameters[1].rand_count, Some(64));
        }
        _ => panic!("expected a compute mode"),
    }
}

#[test]
fn graphics_module_from_reflection_text() {
    let text = r#"{"entryPoints": [{"stage": "fragment", "name": "fs"}, {"stage": "vertex", "name": "vs"}],
                   "parameters": []}"#;
    match finish_from_text(vec![7], text).unwrap().unwrap().mode {
        RenderMode::Graphics { vertex_entry, fragment_entry, shadertoy, .. } => {
            assert_eq!(vertex_entry, "vs");
            assert_eq!(fragment_entry, "fs");
            assert!(!shadertoy);
        }
        _ => panic!("expected a graphics mode"),
    }
}

#[test]
fn reflection_text_that_does_not_parse() {
    assert!(finish_from_text(vec![7], "{\"entryPoints\": [").is_none());
    assert!(finish_from_text(vec![7], "").is_none());
}

#[test]
fn reflection_text_with_nothing_displayable() {
    assert!(matches!(finish_from_text(vec![7], r#"{"entryPoints": []}"#), Some(None)));
    assert!(matches!(finish_from_text(vec![7], "[1, 2]"), Some(None)));
}

#[test]
fn stage_entry_names_from_text() {
    let text = r#"{"entryPoints": [{"name": "vsMain", "stage": "vertex"}, {"name": "psMain", "stage": "fragment"}]}"#;
    assert_eq!(stage_entry_name_from_text(Some(text), Stage::Vertex), "vsMain");
    assert_eq!(stage_entry_name_from_text(Some(text), Stage::Fragment), "psMain");
    assert_eq!(stage_entry_name_from_text(Some("not json"), Stage::Vertex), "main");
    assert_eq!(stage_entry_name_from_text(None, Stage::Fragment), "main");
    assert_eq!(stage_entry_name_from_text(Some(r#"{"entryPoints": [{"stage": "vertex"}]}"#), Stage::Vertex), "main");
}
