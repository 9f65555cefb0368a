use vert_frag_viewer::shader::{Stage, StageFormat};
use vert_frag_viewer::sniff::{
    binary_stage, classify_stage, disasm_stage, is_shadertoy, is_spirv, spirv_words, SPIRV_MAGIC,
};

fn module(words: &[u32]) -> Vec<u8> {
    words.iter().flat_map(|w| w.to_le_bytes()).collect()
}

/// A minimal module: header, one `OpCapability`, then an `OpEntryPoint`
/// with the given execution model.
fn module_with_entry(model: u32) -> Vec<u8> {
    module(&[
        SPIRV_MAGIC,
        0x0001_0300,
        0,
        10,
        0,
        (2 << 16) | 17,
        1,
        (4 << 16) | 15,
        model,
        3,
        0x6e69_616d,
    ])
}

#[test]
fn words_are_little_endian_and_drop_partial_tail() {
    assert_eq!(spirv_words(&[0x03, 0x02, 0x23, 0x07, 1, 0, 0, 0, 9]), vec![SPIRV_MAGIC, 1]);
    assert!(spirv_words(&[1, 2, 3]).is_empty());
}

#[test]
fn magic_number_check() {
    assert!(is_spirv(&[SPIRV_MAGIC, 5]));
    assert!(!is_spirv(&[0x0203_0723]));
    assert!(!is_spirv(&[]));
}

#[test]
fn binary_stage_reads_execution_model() {
    assert_eq!(binary_stage(&module_with_entry(0)), Some(Stage::Vertex));
    assert_eq!(binary_stage(&module_with_entry(4)), Some(Stage::Fragment));
    assert_eq!(binary_stage(&module_with_entry(5)), None);
}

#[test]
fn binary_stage_decided_by_first_entry_point() {
    let compute_then_vertex = module(&[
        0x07230203, 0x00010300, 0, 8, 0, 0x0005000F, 5, 1, 0x6E69616D, 0, 0x0005000F, 0, 2,
        0x6E69616D, 0,
    ]);
    assert_eq!(binary_stage(&compute_then_vertex), None);
    let fragment_then_vertex = module(&[
        0x07230203, 0x00010300, 0, 8, 0, 0x0005000F, 4, 1, 0x6E69616D, 0, 0x0005000F, 0, 2,
        0x6E69616D, 0,
    ]);
    assert_eq!(binary_stage(&fragment_then_vertex), Some(Stage::Fragment));
}

#[test]
fn binary_stage_stops_on_zero_length_instruction() {
    let bytes = module(&[SPIRV_MAGIC, 0x0001_0300, 0, 10, 0, 0, (4 << 16) | 15, 0, 3, 0]);
    assert_eq!(binary_stage(&bytes), None);
}

#[test]
fn disassembly_stage_from_keyword() {
    assert_eq!(
        disasm_stage(b"; SPIR-V\nOpEntryPoint Fragment %main \"main\"\n"),
        Some(Stage::Fragment)
    );
    assert_eq!(disasm_stage(b"OpEntryPoint Vertex %v \"vs\""), Some(Stage::Vertex));
    assert_eq!(disasm_stage(b"OpEntryPoint GLCompute %c \"c\""), None);
}

#[test]
fn extension_decides_when_it_can() {
    assert_eq!(classify_stage(Some("vert"), b"void main() {}"), Some((Stage::Vertex, StageFormat::Source)));
    assert_eq!(classify_stage(Some("FS"), b"void main() {}"), Some((Stage::Fragment, StageFormat::Source)));
    assert_eq!(classify_stage(Some("glsl"), b"void main() {}"), None);
    assert_eq!(classify_stage(None, b""), None);
}

#[test]
fn content_decides_for_misnamed_files() {
    let dump = b"; SPIR-V\n; Version: 1.3\nOpEntryPoint Vertex %main \"vertMain\"\n";
    assert_eq!(classify_stage(Some("txt"), dump), Some((Stage::Vertex, StageFormat::Disassembly)));
    assert_eq!(
        classify_stage(Some("spv"), &module_with_entry(4)),
        Some((Stage::Fragment, StageFormat::Binary))
    );
    assert_eq!(
        classify_stage(Some("vs"), &module_with_entry(4)),
        Some((Stage::Vertex, StageFormat::Binary))
    );
}

#[test]
fn shadertoy_detection() {
    assert!(is_shadertoy(b"void mainImage(out vec4 c, in vec2 p) { c = vec4(1.0); }"));
    assert!(!is_shadertoy(b"[shader(\"fragment\")] float4 mainImage(float2 p) { return 0; }"));
    assert!(!is_shadertoy(b"; SPIR-V mainImage("));
    assert!(!is_shadertoy(&module_with_entry(4)));
    assert!(!is_shadertoy(b"void main() {}"));
}

#[test]
fn shadertoy_detection_ignores_invalid_utf8_around_markers() {
    let mut bytes = vec![0xff, 0xfe];
    bytes.extend_from_slice(b"mainImage(");
    bytes.push(0xc3);
    assert!(is_shadertoy(&bytes));
}

#[test]
fn disassembly_stage_round_trips_the_keyword() {
    for stage in [Stage::Vertex, Stage::Fragment] {
        let text = format!("; SPIR-V\n               {}%main \"main\"\n", stage.disasm_keyword());
        assert_eq!(disasm_stage(text.as_bytes()), Some(stage));
    }
}
