use std::path::PathBuf;
use vert_frag_viewer::shader::{
    choose_input, compile_pair, compile_shadertoy, disassembly_entry, display_name,
    module_step, parse_disasm_entry_point, unsupported_parameter, uses_shadertoy_uniforms,
    with_playground_imports, Attempt, BuiltStage, CompiledShader, InputChoice, ModuleAction,
    ModuleState, ParamKind, RenderMode, ShaderInput, ShaderParam, SourceFile, Stage, StagePair,
};

#[test]
fn display_name_of_each_input() {
    let module = ShaderInput::Module(SourceFile {
        display_name: "demo.slang".to_string(),
        path: PathBuf::from("/tmp/demo.slang"),
    });
    assert_eq!(display_name(&module), "demo.slang");
    let pair = ShaderInput::StagePair(StagePair {
        display_name: "a.vert + a.frag".to_string(),
        vertex: PathBuf::from("a.vert"),
        fragment: PathBuf::from("a.frag"),
    });
    assert_eq!(display_name(&pair), "a.vert + a.frag");
}

#[test]
fn stage_names() {
    assert_eq!(Stage::Vertex.slang_flag(), "vertex");
    assert_eq!(Stage::Fragment.slang_flag(), "fragment");
    assert_eq!(Stage::Vertex.disasm_keyword(), "OpEntryPoint Vertex ");
    assert_eq!(Stage::Fragment.disasm_keyword(), "OpEntryPoint Fragment ");
}

#[test]
fn entry_point_from_disassembly() {
    let text = "; SPIR-V\nOpCapability Shader\nOpEntryPoint Vertex %vertMain \"vertMain\" %gl_Position\nOpEntryPoint Fragment %fragMain \"fragMain\" %out\n";
    assert_eq!(parse_disasm_entry_point(text, Stage::Vertex).as_deref(), Some("vertMain"));
    assert_eq!(parse_disasm_entry_point(text, Stage::Fragment).as_deref(), Some("fragMain"));
    assert_eq!(parse_disasm_entry_point("OpEntryPoint Vertex %main main", Stage::Vertex), None);
    assert_eq!(parse_disasm_entry_point("OpCapability Shader", Stage::Fragment), None);
}

#[test]
fn entry_point_on_crlf_lines() {
    let text = "OpEntryPoint Fragment %m \"fs\"\r\nOpEntryPoint Vertex %v \"vs\"\r\n";
    assert_eq!(parse_disasm_entry_point(text, Stage::Vertex).as_deref(), Some("vs"));
}

#[test]
fn disassembly_entry_defaults_to_main() {
    assert_eq!(disassembly_entry("OpEntryPoint Fragment %m \"frag\"", Stage::Fragment), "frag");
    assert_eq!(disassembly_entry("OpEntryPoint Fragment %m", Stage::Fragment), "main");
}

#[test]
fn playground_imports_added_once() {
    assert_eq!(
        with_playground_imports("void f() {}"),
        "import playground;\nimport rendering;\n\nvoid f() {}"
    );
    assert_eq!(with_playground_imports("import rendering;\nx"), "import rendering;\nx");
}

#[test]
fn playground_imports_twice_same_as_once() {
    let once = with_playground_imports("float4 main() : SV_Target { return 1; }");
    assert_eq!(with_playground_imports(&once), once);
}

fn stage(words: &[u32], entry: &str) -> BuiltStage {
    BuiltStage { spirv: words.to_vec(), entry: entry.to_string() }
}

#[test]
fn pair_and_shadertoy_modes() {
    match compile_pair(stage(&[1, 2], "vs"), stage(&[3], "fs")).mode {
        RenderMode::Graphics { vertex_spirv, fragment_spirv, vertex_entry, fragment_entry, shadertoy } => {
            assert_eq!(vertex_spirv, vec![1, 2]);
            assert_eq!(fragment_spirv, vec![3]);
            assert_eq!(vertex_entry, "vs");
            assert_eq!(fragment_entry, "fs");
            assert!(!shadertoy);
        }
        _ => panic!("expected graphics"),
    }
    let toy = compile_shadertoy(stage(&[1], "main"), stage(&[2], "main"));
    assert!(uses_shadertoy_uniforms(&toy.mode));
}

#[test]
fn unsupported_parameters_found() {
    let param = |kind| ShaderParam { name: "p".to_string(), binding: 0, kind, rand_count: None };
    let mode = RenderMode::Compute {
        spirv: vec![],
        entry: "main".to_string(),
        group_size: [8, 8, 1],
        parameters: vec![
            param(ParamKind::OutputTexture),
            param(ParamKind::Unsupported("texture2D (read)".to_string())),
            param(ParamKind::Unsupported("x".to_string())),
        ],
    };
    assert_eq!(unsupported_parameter(&mode), Some(1));
    assert!(!uses_shadertoy_uniforms(&mode));
}

#[test]
fn input_choice() {
    let stages = vec![Some(Stage::Fragment), None, Some(Stage::Vertex), Some(Stage::Fragment)];
    assert!(matches!(choose_input(4, &stages), InputChoice::Pair { vertex: 2, fragment: 3 }));
    assert!(matches!(choose_input(2, &vec![Some(Stage::Vertex), None]), InputChoice::FirstArgument));
    assert!(matches!(choose_input(1, &vec![]), InputChoice::FirstArgument));
    assert!(matches!(choose_input(0, &vec![]), InputChoice::NoArgument));
}

fn shader() -> CompiledShader {
    compile_pair(stage(&[7], "v"), stage(&[7], "f"))
}

#[test]
fn module_attempts() {
    assert!(matches!(module_step(ModuleState::Plain, Attempt::Displayable(shader())), ModuleAction::Display(_)));
    match module_step(ModuleState::Plain, Attempt::CompileFailed("boom".to_string())) {
        ModuleAction::RetryWithPrelude(state) => {
            match module_step(state, Attempt::NothingDisplayable) {
                ModuleAction::ReportCompileError(e) => assert_eq!(e, "boom"),
                _ => panic!("plain diagnostics expected"),
            }
        }
        _ => panic!("retry expected"),
    }
    match module_step(ModuleState::Plain, Attempt::NothingDisplayable) {
        ModuleAction::RetryWithPrelude(state) => {
            assert!(matches!(
                module_step(state, Attempt::CompileFailed("x".to_string())),
                ModuleAction::ReportNotDisplayable
            ));
        }
        _ => panic!("retry expected"),
    }
}

#[test]
fn pair_title_joins_both_names() {
    assert_eq!(vert_frag_viewer::shader::pair_display_name("tri.vert", "tri.frag"), "tri.vert + tri.frag");
}

#[test]
fn blank_stdin_is_only_white_space() {
    let is_blank = vert_frag_viewer::shader::is_blank;
    assert!(is_blank(""));
    assert!(is_blank(" \t\r\n\u{a0}\u{3000}"));
    assert!(!is_blank("  x "));
    for text in ["", " \n", "\u{2028}\u{85}", " a", "void main() {}"] {
        assert_eq!(is_blank(text), text.trim().is_empty());
    }
}

#[test]
fn binary_stage_entry_is_main() {
    let stage = BuiltStage::from_binary(vec![0x0723_0203, 5]);
    assert_eq!(stage.spirv, vec![0x0723_0203, 5]);
    assert_eq!(stage.entry, "main");
}
