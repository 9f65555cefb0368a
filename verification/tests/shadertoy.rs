use vert_frag_viewer::shadertoy::{
    shadertoy_problem, strip_glsl_comments, wrap_shadertoy, ShadertoyProblem,
    SHADERTOY_EPILOGUE, SHADERTOY_UNIFORM_BLOCK,
};

#[test]
fn strips_line_and_block_comments() {
    assert_eq!(strip_glsl_comments("a // note\nb"), "a \nb");
    assert_eq!(strip_glsl_comments("a// note\nuniform"), "a\nuniform");
    assert_eq!(strip_glsl_comments("a /* x\ny */ b"), "a  b");
    assert_eq!(strip_glsl_comments("x / y * z"), "x / y * z");
}

#[test]
fn block_comment_needs_its_own_star() {
    assert_eq!(strip_glsl_comments("/*/ still comment */after"), "after");
    assert_eq!(strip_glsl_comments("/**/x"), "x");
}

#[test]
fn unterminated_comments_run_to_the_end() {
    assert_eq!(strip_glsl_comments("keep // tail"), "keep ");
    assert_eq!(strip_glsl_comments("keep /* tail"), "keep ");
}

#[test]
fn stripping_twice_changes_nothing() {
    for text in ["a/ /*c*/ /b", "//x\n/", "/*a*//*b*/c", "x/y//z\nw/*"] {
        let once = strip_glsl_comments(text);
        assert_eq!(strip_glsl_comments(&once), once);
    }
}

#[test]
fn texture_inputs_are_reported() {
    match shadertoy_problem("void mainImage(out vec4 c, in vec2 p) { c = texture(iChannel0, p); }") {
        Some(ShadertoyProblem::TextureInput(token)) => assert_eq!(token, "iChannel0"),
        _ => panic!("expected a texture input"),
    }
}

#[test]
fn own_uniforms_are_reported() {
    assert!(matches!(
        shadertoy_problem("uniform float speed;\nvoid mainImage(out vec4 c, in vec2 p) {}"),
        Some(ShadertoyProblem::OwnUniforms)
    ));
}

#[test]
fn first_problem_wins() {
    assert!(matches!(
        shadertoy_problem("uniform sampler2D iChannel1;"),
        Some(ShadertoyProblem::OwnUniforms)
    ));
}

#[test]
fn words_in_comments_and_longer_words_are_fine() {
    assert!(shadertoy_problem("// uses iChannel0\n/* uniform */ float uniforms; void mainImage() {}").is_none());
    assert!(shadertoy_problem("float myiChannel = 1.0;").is_none());
}

#[test]
fn wrap_adds_version_when_missing() {
    let wrapped = wrap_shadertoy("\u{feff}\n  void mainImage(out vec4 c, in vec2 p) {}\n", "toy.glsl");
    let expected = format!(
        "#version 450\n// --- vert_frag_viewer: Shadertoy prelude (built-in uniforms) ---\n{}#line 1 \"toy.glsl\"\n\nvoid mainImage(out vec4 c, in vec2 p) {{}}\n// --- vert_frag_viewer: epilogue (mainImage -> main) ---\n{}",
        SHADERTOY_UNIFORM_BLOCK, SHADERTOY_EPILOGUE
    );
    assert_eq!(wrapped, expected);
}

#[test]
fn wrap_keeps_line_numbers_after_leading_blank_lines() {
    let wrapped = wrap_shadertoy(
        "\n\nvoid mainImage(out vec4 c, in vec2 p) { c = vec4(1.0); }\n",
        "a.glsl",
    );
    let directive = "#line 1 \"a.glsl\"\n";
    let after = &wrapped[wrapped.find(directive).unwrap() + directive.len()..];
    let line = after[..after.find("void mainImage").unwrap()].matches('\n').count() + 1;
    assert_eq!(line, 3);
}

#[test]
fn wrap_keeps_line_numbers_after_version_line() {
    let wrapped = wrap_shadertoy("\r\n#version 300 es\n\nvoid mainImage() {}\n", "b.glsl");
    assert!(wrapped.starts_with("#version 300 es\n"));
    let directive = "#line 1 \"b.glsl\"\n";
    let after = &wrapped[wrapped.find(directive).unwrap() + directive.len()..];
    let line = after[..after.find("void mainImage").unwrap()].matches('\n').count() + 1;
    assert_eq!(line, 4);
}

#[test]
fn comment_before_uniform_keeps_the_line_break() {
    assert!(matches!(
        shadertoy_problem("float a;// note\nuniform float b;\nvoid mainImage() {}"),
        Some(ShadertoyProblem::OwnUniforms)
    ));
}

#[test]
fn wrap_keeps_own_version_line_first() {
    let wrapped = wrap_shadertoy("#version 300 es\nvoid mainImage() {}\n", "a.glsl");
    assert!(wrapped.starts_with("#version 300 es\n// --- vert_frag_viewer: Shadertoy prelude"));
    assert!(wrapped.contains("#line 1 \"a.glsl\"\n\nvoid mainImage() {}\n// --- vert_frag_viewer: epilogue"));
    assert!(wrapped.ends_with(SHADERTOY_EPILOGUE));
}

#[test]
fn uniform_block_matches_the_sixty_byte_push_constant_layout() {
    for field in ["vec3  iResolution;", "float iTime;", "vec4  iMouse;", "vec4  iDate;", "float iTimeDelta;", "float iFrameRate;", "int   iFrame;"] {
        assert!(SHADERTOY_UNIFORM_BLOCK.contains(field));
    }
}
