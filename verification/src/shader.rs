//! What the viewer was asked to show and what a compile produced: the
//! shader inputs, the two graphics stages, the display modes and the
//! parameters a compute kernel binds.

use crate::text::{
    chars_contain, chars_of, contains, find_char, first_index_of, lemma_first_index_of,
    occurs_at, string_from_chars,
};
use std::path::PathBuf;
use vstd::prelude::*;
use vstd::string::StringExecFns;

verus! {

/// `PathBuf` is carried through the library untouched; nothing here looks
/// inside it.
#[verifier::external_type_specification]
#[verifier::external_body]
pub struct ExPathBuf(PathBuf);

/// Default element count for an unattributed `RWStructuredBuffer<float>`.
///
/// The playground's gaussian-splat demo reads `[playground::RAND(131072)]`;
/// local copies of the demo usually have the attribute stripped, so the
/// viewer fills any unattributed float buffer with this many randoms.
pub const DEFAULT_RAND_COUNT: u32 = 131_072;

/// The .slang file to view: either a path given on the command line or the
/// contents of stdin dumped to disk (slangc only reads files).
pub struct SourceFile {
    /// Shown in the window title.
    pub display_name: String,
    /// Path of the source on disk.
    pub path: PathBuf,
}

/// What the user asked to view on the command line.
pub enum ShaderInput {
    /// One .slang module compiled as a whole.
    Module(SourceFile),
    /// Separate vertex + fragment files built stage by stage.
    StagePair(StagePair),
}

/// A vertex + fragment file pair.
pub struct StagePair {
    /// Both file names, shown in the window title.
    pub display_name: String,
    pub vertex: PathBuf,
    pub fragment: PathBuf,
}

/// The two graphics stages a `.vert`/`.frag` pair can supply.
#[derive(Clone, Copy, Debug, PartialEq, Eq, Structural)]
pub enum Stage {
    Vertex,
    Fragment,
}

/// The three forms a per-stage file can take.
#[derive(Clone, Copy, Debug, PartialEq, Eq, Structural)]
pub enum StageFormat {
    /// `spirv-dis` text output; assembled back to binary with `spirv-as`.
    Disassembly,
    /// Raw SPIR-V binary; loaded directly.
    Binary,
    /// Slang/GLSL source compiled by slangc for one stage.
    Source,
}

/// One compiled graphics stage: its SPIR-V and entry-point name.
pub struct BuiltStage {
    pub spirv: Vec<u32>,
    pub entry: String,
}

/// How a compiled module is displayed.
pub enum RenderMode {
    /// Classic vertex + fragment rendering through the render pass. The
    /// stages may come from one module or from separate per-stage binaries.
    Graphics {
        vertex_spirv: Vec<u32>,
        fragment_spirv: Vec<u32>,
        vertex_entry: String,
        fragment_entry: String,
        /// Shadertoy mode: the fragment stage reads the Shadertoy
        /// built-ins (`iTime`, `iResolution`, ...) from the push-constant
        /// block the viewer's wrapper declares, and the viewer feeds that
        /// block every frame.
        shadertoy: bool,
    },
    /// Compute kernel writing pixels through the playground's `drawPixel`.
    Compute { spirv: Vec<u32>, entry: String, group_size: [u32; 3], parameters: Vec<ShaderParam> },
}

/// A module-level shader parameter the viewer must bind.
pub struct ShaderParam {
    pub name: String,
    pub binding: u32,
    pub kind: ParamKind,
    /// Element count from `[playground::RAND(n)]`, if present.
    pub rand_count: Option<u32>,
}

pub enum ParamKind {
    /// `RWStructuredBuffer<float>` filled with uniform randoms.
    RandomFloatBuffer,
    /// Screen-sized storage image the kernel writes to.
    OutputTexture,
    /// Anything the viewer does not know how to supply.
    Unsupported(String),
}

pub struct CompiledShader {
    pub mode: RenderMode,
}

/// Mathematical model of a [`ParamKind`].
pub enum ParamKindView {
    RandomFloatBuffer,
    OutputTexture,
    Unsupported(Seq<char>),
}

/// Mathematical model of a [`ShaderParam`].
pub struct ShaderParamView {
    pub name: Seq<char>,
    pub binding: u32,
    pub kind: ParamKindView,
    pub rand_count: Option<u32>,
}

/// Mathematical model of a [`RenderMode`].
pub enum RenderModeView {
    Graphics {
        vertex_spirv: Seq<u32>,
        fragment_spirv: Seq<u32>,
        vertex_entry: Seq<char>,
        fragment_entry: Seq<char>,
        shadertoy: bool,
    },
    Compute {
        spirv: Seq<u32>,
        entry: Seq<char>,
        group_size: Seq<u32>,
        parameters: Seq<ShaderParamView>,
    },
}

impl View for ParamKind {
    type V = ParamKindView;

    open spec fn view(&self) -> ParamKindView {
        match self {
            ParamKind::RandomFloatBuffer => ParamKindView::RandomFloatBuffer,
            ParamKind::OutputTexture => ParamKindView::OutputTexture,
            ParamKind::Unsupported(what) => ParamKindView::Unsupported(what@),
        }
    }
}

impl View for ShaderParam {
    type V = ShaderParamView;

    open spec fn view(&self) -> ShaderParamView {
        ShaderParamView {
            name: self.name@,
            binding: self.binding,
            kind: self.kind@,
            rand_count: self.rand_count,
        }
    }
}

/// The models of a list of parameters.
pub open spec fn params_view(params: Seq<ShaderParam>) -> Seq<ShaderParamView> {
    params.map_values(|p: ShaderParam| p@)
}

impl View for RenderMode {
    type V = RenderModeView;

    open spec fn view(&self) -> RenderModeView {
        match self {
            RenderMode::Graphics {
                vertex_spirv,
                fragment_spirv,
                vertex_entry,
                fragment_entry,
                shadertoy,
            } => RenderModeView::Graphics {
                vertex_spirv: vertex_spirv@,
                fragment_spirv: fragment_spirv@,
                vertex_entry: vertex_entry@,
                fragment_entry: fragment_entry@,
                shadertoy: *shadertoy,
            },
            RenderMode::Compute { spirv, entry, group_size, parameters } => RenderModeView::Compute {
                spirv: spirv@,
                entry: entry@,
                group_size: group_size@,
                parameters: params_view(parameters@),
            },
        }
    }
}

impl View for CompiledShader {
    type V = RenderModeView;

    open spec fn view(&self) -> RenderModeView {
        self.mode@
    }
}

/// The name shown in the window title for the resolved input.
pub fn display_name(input: &ShaderInput) -> (name: String)
    ensures
        name@ == match input {
            ShaderInput::Module(source) => source.display_name@,
            ShaderInput::StagePair(pair) => pair.display_name@,
        },
{
    match input {
        ShaderInput::Module(source) => source.display_name.clone(),
        ShaderInput::StagePair(pair) => pair.display_name.clone(),
    }
}

/// The window title of a vertex + fragment pair: both file names joined
/// by " + ".
pub fn pair_display_name(vertex: &str, fragment: &str) -> (name: String)
    ensures
        name@ == vertex@ + " + "@ + fragment@,
{
    let mut name = vertex.to_owned();
    name.append(" + ");
    name.append(fragment);
    name
}

/// Characters with Unicode's `White_Space` property, the ones
/// `str::trim` removes.
pub open spec fn is_white_space(c: char) -> bool {
    ('\u{9}' <= c <= '\u{d}') || c == ' ' || c == '\u{85}' || c == '\u{a0}' || c == '\u{1680}'
        || ('\u{2000}' <= c <= '\u{200a}') || c == '\u{2028}' || c == '\u{2029}'
        || c == '\u{202f}' || c == '\u{205f}' || c == '\u{3000}'
}

/// Whether piped-in source holds nothing but white space (nothing to
/// compile).
pub fn is_blank(source: &str) -> (blank: bool)
    ensures
        blank == forall|i: int| 0 <= i < source@.len() ==> is_white_space(#[trigger] source@[i]),
{
    let s = chars_of(source);
    let mut i: usize = 0;
    while i < s.len()
        invariant
            s@ == source@,
            i <= s@.len(),
            forall|k: int| 0 <= k < i ==> is_white_space(#[trigger] s@[k]),
        decreases s.len() - i,
    {
        let c = s[i];
        let white = ('\u{9}' <= c && c <= '\u{d}') || c == ' ' || c == '\u{85}' || c == '\u{a0}'
            || c == '\u{1680}' || ('\u{2000}' <= c && c <= '\u{200a}') || c == '\u{2028}'
            || c == '\u{2029}' || c == '\u{202f}' || c == '\u{205f}' || c == '\u{3000}';
        if !white {
            return false;
        }
        i += 1;
    }
    true
}

impl BuiltStage {
    /// A stage loaded from a raw SPIR-V binary. Such a binary carries no
    /// readable entry-point name; slangc names it "main" unless
    /// `-fvk-use-entrypoint-name` was used when it was built.
    pub fn from_binary(spirv: Vec<u32>) -> (stage: BuiltStage)
        ensures
            stage.spirv@ == spirv@,
            stage.entry@ == "main"@,
    {
        BuiltStage { spirv, entry: "main".to_owned() }
    }
}

impl Stage {
    /// The reflection and command-line name of this stage.
    pub open spec fn flag(self) -> Seq<char> {
        match self {
            Stage::Vertex => "vertex"@,
            Stage::Fragment => "fragment"@,
        }
    }

    /// The keyword introducing this stage's entry point in disassembly.
    pub open spec fn keyword(self) -> Seq<char> {
        match self {
            Stage::Vertex => "OpEntryPoint Vertex "@,
            Stage::Fragment => "OpEntryPoint Fragment "@,
        }
    }

    /// The `-stage` value slangc expects for this stage.
    pub fn slang_flag(self) -> (flag: &'static str)
        ensures
            flag@ == self.flag(),
    {
        match self {
            Stage::Vertex => "vertex",
            Stage::Fragment => "fragment",
        }
    }

    /// Entry-point keyword used in SPIR-V disassembly
    /// (`OpEntryPoint Vertex ...` / `OpEntryPoint Fragment ...`).
    pub fn disasm_keyword(self) -> (keyword: &'static str)
        ensures
            keyword@ == self.keyword(),
    {
        match self {
            Stage::Vertex => "OpEntryPoint Vertex ",
            Stage::Fragment => "OpEntryPoint Fragment ",
        }
    }
}


/// Builds a `.vert`/`.frag` pair's display mode from its two compiled
/// stages.
pub fn compile_pair(vertex: BuiltStage, fragment: BuiltStage) -> (compiled: CompiledShader)
    ensures
        compiled@ == (RenderModeView::Graphics {
            vertex_spirv: vertex.spirv@,
            fragment_spirv: fragment.spirv@,
            vertex_entry: vertex.entry@,
            fragment_entry: fragment.entry@,
            shadertoy: false,
        }),
{
    CompiledShader {
        mode: RenderMode::Graphics {
            vertex_spirv: vertex.spirv,
            fragment_spirv: fragment.spirv,
            vertex_entry: vertex.entry,
            fragment_entry: fragment.entry,
            shadertoy: false,
        },
    }
}

/// Builds a Shadertoy export's display mode from the viewer's fullscreen
/// vertex stage and the wrapped fragment stage; the viewer feeds the
/// Shadertoy uniforms to it every frame.
pub fn compile_shadertoy(vertex: BuiltStage, fragment: BuiltStage) -> (compiled: CompiledShader)
    ensures
        compiled@ == (RenderModeView::Graphics {
            vertex_spirv: vertex.spirv@,
            fragment_spirv: fragment.spirv@,
            vertex_entry: vertex.entry@,
            fragment_entry: fragment.entry@,
            shadertoy: true,
        }),
{
    CompiledShader {
        mode: RenderMode::Graphics {
            vertex_spirv: vertex.spirv,
            fragment_spirv: fragment.spirv,
            vertex_entry: vertex.entry,
            fragment_entry: fragment.entry,
            shadertoy: true,
        },
    }
}

/// Whether the display mode is a Shadertoy pass fed with the Shadertoy
/// uniforms.
pub fn uses_shadertoy_uniforms(mode: &RenderMode) -> (r: bool)
    ensures
        r == (mode@ matches RenderModeView::Graphics { shadertoy, .. } && shadertoy),
{
    match mode {
        RenderMode::Graphics { shadertoy, .. } => *shadertoy,
        RenderMode::Compute { .. } => false,
    }
}

/// Index of the first parameter of a compute kernel that the viewer
/// cannot supply (neither a random float buffer nor the output texture).
pub fn unsupported_parameter(mode: &RenderMode) -> (index: Option<usize>)
    ensures
        match mode@ {
            RenderModeView::Compute { parameters, .. } => match index {
                Some(i) => i < parameters.len() && parameters[i as int].kind is Unsupported && forall|
                    k: int,
                | 0 <= k < i ==> !(parameters[k].kind is Unsupported),
                None => forall|k: int|
                    0 <= k < parameters.len() ==> !(parameters[k].kind is Unsupported),
            },
            RenderModeView::Graphics { .. } => index is None,
        },
{
    match mode {
        RenderMode::Graphics { .. } => None,
        RenderMode::Compute { parameters, .. } => {
            let mut i: usize = 0;
            while i < parameters.len()
                invariant
                    i <= parameters.len(),
                    forall|k: int| 0 <= k < i ==> !(params_view(parameters@)[k].kind is Unsupported),
                    match mode@ {
                        RenderModeView::Compute { parameters: ps, .. } => ps == params_view(
                            parameters@,
                        ),
                        _ => false,
                    },
                decreases parameters.len() - i,
            {
                assert(params_view(parameters@)[i as int] == parameters@[i as int]@);
                if let ParamKind::Unsupported(_) = &parameters[i].kind {
                    return Some(i);
                }
                i += 1;
            }
            None
        },
    }
}

/// End (exclusive) of the line starting at `start`.
pub open spec fn line_end(s: Seq<char>, start: int) -> int {
    match first_index_of(s, '\n', start) {
        Some(k) => k,
        None => s.len() as int,
    }
}

/// Start of the first line, at or after the line starting at `start`, that
/// contains `keyword`.
pub open spec fn keyword_line_from(s: Seq<char>, keyword: Seq<char>, start: int) -> Option<int>
    decreases s.len() - start,
{
    if start < 0 || start > s.len() {
        None
    } else if contains(s.subrange(start, line_end(s, start)), keyword) {
        Some(start)
    } else if line_end(s, start) >= s.len() {
        None
    } else {
        proof {
            lemma_first_index_of(s, '\n', start);
        }
        keyword_line_from(s, keyword, line_end(s, start) + 1)
    }
}

/// The text between the first two double quotes of `line`.
pub open spec fn quoted(line: Seq<char>) -> Option<Seq<char>> {
    match first_index_of(line, '"', 0) {
        Some(open) => match first_index_of(line, '"', open + 1) {
            Some(close) => Some(line.subrange(open + 1, close)),
            None => None,
        },
        None => None,
    }
}

/// The user-visible entry point name of a disassembled module: the quoted
/// string on the first line holding the stage's `OpEntryPoint` keyword.
/// Lines end at `'\n'`; a `'\r'` before it is neither part of the keyword
/// nor a quote, so it changes neither which line is found nor the name.
pub open spec fn spec_disasm_entry_point(disasm: Seq<char>, stage: Stage) -> Option<Seq<char>> {
    match keyword_line_from(disasm, stage.keyword(), 0) {
        Some(start) => quoted(disasm.subrange(start, line_end(disasm, start))),
        None => None,
    }
}

proof fn lemma_keyword_line_found(s: Seq<char>, kw: Seq<char>, t: int, start: int, end: int, k: int)
    requires
        0 <= t <= start <= end <= s.len(),
        t == 0 || s[t - 1] == '\n',
        start == 0 || s[start - 1] == '\n',
        end == s.len() || s[end] == '\n',
        forall|j: int| start <= j < end ==> s[j] != '\n',
        occurs_at(s, kw, k),
        start <= k,
        k + kw.len() <= end,
        forall|j: int| 0 <= j < start ==> !occurs_at(s, kw, j),
    ensures
        keyword_line_from(s, kw, t) == Some(start),
    decreases start - t,
{
    lemma_first_index_of(s, '\n', t);
    if t == start {
        assert(line_end(s, start) == end);
        let line = s.subrange(start, end);
        assert(line.subrange(k - start, k - start + kw.len()) =~= s.subrange(k, k + kw.len()));
        assert(occurs_at(line, kw, k - start));
    } else {
        assert(s[start - 1] == '\n');
        let e = line_end(s, t);
        assert(e <= start - 1);
        let line = s.subrange(t, e);
        assert forall|m: int| !occurs_at(line, kw, m) by {
            if occurs_at(line, kw, m) {
                assert(s.subrange(t + m, t + m + kw.len()) =~= line.subrange(m, m + kw.len()));
                assert(occurs_at(s, kw, t + m));
            }
        }
        lemma_keyword_line_found(s, kw, e + 1, start, end, k);
    }
}

proof fn lemma_keyword_line_absent(s: Seq<char>, kw: Seq<char>, t: int)
    requires
        0 <= t,
        forall|j: int| !occurs_at(s, kw, j),
    ensures
        keyword_line_from(s, kw, t) is None,
    decreases s.len() - t,
{
    if t <= s.len() {
        lemma_first_index_of(s, '\n', t);
        let e = line_end(s, t);
        let line = s.subrange(t, e);
        assert forall|m: int| !occurs_at(line, kw, m) by {
            if occurs_at(line, kw, m) {
                assert(s.subrange(t + m, t + m + kw.len()) =~= line.subrange(m, m + kw.len()));
                assert(occurs_at(s, kw, t + m));
            }
        }
        if e < s.len() {
            lemma_keyword_line_absent(s, kw, e + 1);
        }
    }
}

/// The entry-point name is read from the first line (lines end at
/// `'\n'`) on which the stage's `OpEntryPoint` keyword occurs anywhere:
/// it is the text between the first two double quotes of that line.
pub proof fn lemma_disasm_entry_point_from_first_keyword_line(
    s: Seq<char>,
    stage: Stage,
    start: int,
    end: int,
    k: int,
    open: int,
    close: int,
)
    requires
        0 <= start <= end <= s.len(),
        start == 0 || s[start - 1] == '\n',
        end == s.len() || s[end] == '\n',
        forall|j: int| start <= j < end ==> s[j] != '\n',
        occurs_at(s, stage.keyword(), k),
        start <= k,
        k + stage.keyword().len() <= end,
        forall|j: int| 0 <= j < start ==> !occurs_at(s, stage.keyword(), j),
        start <= open < close < end,
        s[open] == '"',
        s[close] == '"',
        forall|j: int| start <= j < open ==> s[j] != '"',
        forall|j: int| open < j < close ==> s[j] != '"',
    ensures
        spec_disasm_entry_point(s, stage) == Some(s.subrange(open + 1, close)),
{
    lemma_keyword_line_found(s, stage.keyword(), 0, start, end, k);
    lemma_first_index_of(s, '\n', start);
    assert(line_end(s, start) == end);
    let line = s.subrange(start, end);
    lemma_first_index_of(line, '"', 0);
    assert(line[open - start] == '"');
    assert forall|j: int| 0 <= j < open - start implies line[j] != '"' by {
        assert(line[j] == s[start + j]);
    }
    assert(first_index_of(line, '"', 0) == Some(open - start));
    lemma_first_index_of(line, '"', open - start + 1);
    assert(line[close - start] == '"');
    assert forall|j: int| open - start + 1 <= j < close - start implies line[j] != '"' by {
        assert(line[j] == s[start + j]);
    }
    assert(first_index_of(line, '"', open - start + 1) == Some(close - start));
    assert(line.subrange(open - start + 1, close - start) =~= s.subrange(open + 1, close));
}

/// Text in which the stage's `OpEntryPoint` keyword never occurs names no
/// entry point.
pub proof fn lemma_disasm_entry_point_absent(s: Seq<char>, stage: Stage)
    requires
        forall|j: int| !occurs_at(s, stage.keyword(), j),
    ensures
        spec_disasm_entry_point(s, stage) is None,
{
    lemma_keyword_line_absent(s, stage.keyword(), 0);
}

/// Extracts the user-visible entry point name from a disassembled module:
/// the quoted string on the `OpEntryPoint <Stage> %symbol "<name>"` line.
pub fn parse_disasm_entry_point(disasm: &str, stage: Stage) -> (name: Option<String>)
    ensures
        match name {
            Some(n) => spec_disasm_entry_point(disasm@, stage) == Some(n@),
            None => spec_disasm_entry_point(disasm@, stage) is None,
        },
{
    let s = chars_of(disasm);
    let keyword = chars_of(stage.disasm_keyword());
    let mut start: usize = 0;
    loop
        invariant
            s@ == disasm@,
            keyword@ == stage.keyword(),
            start <= s@.len(),
            keyword_line_from(s@, keyword@, 0) == keyword_line_from(s@, keyword@, start as int),
        decreases s@.len() - start,
    {
        let end = match find_char(&s, '\n', start) {
            Some(k) => k,
            None => s.len(),
        };
        let line = &s[start..end];
        assert(line@ == s@.subrange(start as int, line_end(s@, start as int)));
        if chars_contain(line, &keyword) {
            let open = match find_char(line, '"', 0) {
                Some(k) => k,
                None => return None,
            };
            let close = match find_char(line, '"', open + 1) {
                Some(k) => k,
                None => return None,
            };
            return Some(string_from_chars(&line[open + 1..close]));
        }
        if end >= s.len() {
            return None;
        }
        start = end + 1;
    }
}

/// Entry point of a `spirv-dis` stage: the one its disassembly names, else
/// "main".
pub fn disassembly_entry(disasm: &str, stage: Stage) -> (entry: String)
    ensures
        entry@ == match spec_disasm_entry_point(disasm@, stage) {
            Some(n) => n,
            None => "main"@,
        },
{
    match parse_disasm_entry_point(disasm, stage) {
        Some(name) => name,
        None => "main".to_owned(),
    }
}

/// The prelude imports the viewer adds to a playground demo.
pub open spec fn playground_imports() -> Seq<char> {
    "import playground;\nimport rendering;\n\n"@
}

/// The source with the playground imports prepended, unless it already
/// imports `rendering`.
pub open spec fn spec_with_playground_imports(source: Seq<char>) -> Seq<char> {
    if contains(source, "import rendering"@) {
        source
    } else {
        playground_imports() + source
    }
}

/// The imports are added at most once: the combined source imports
/// `rendering`, so adding the imports again changes nothing.
pub proof fn lemma_playground_imports_once(source: Seq<char>)
    ensures
        contains(spec_with_playground_imports(source), "import rendering"@),
        spec_with_playground_imports(spec_with_playground_imports(source))
            == spec_with_playground_imports(source),
{
    if !contains(source, "import rendering"@) {
        reveal_strlit("import playground;\nimport rendering;\n\n");
        reveal_strlit("import rendering");
        let combined = playground_imports() + source;
        assert(combined.subrange(19, 35) =~= "import rendering"@);
        assert(crate::text::occurs_at(combined, "import rendering"@, 19));
    }
}

/// Prepends the playground imports unless the source already has them.
pub fn with_playground_imports(source: &str) -> (combined: String)
    ensures
        combined@ == spec_with_playground_imports(source@),
{
    let text = chars_of(source);
    let marker = chars_of("import rendering");
    if chars_contain(&text, &marker) {
        source.to_owned()
    } else {
        let mut combined = "import playground;\nimport rendering;\n\n".to_owned();
        combined.append(source);
        combined
    }
}

/// What the command line asks for.
pub enum InputChoice {
    /// A vertex + fragment pair: the indices of the two arguments.
    Pair { vertex: usize, fragment: usize },
    /// The first argument, as one module.
    FirstArgument,
    /// No argument: read the module from stdin.
    NoArgument,
}

/// Index of the last argument classified as `stage`.
pub open spec fn last_with_stage(stages: Seq<Option<Stage>>, stage: Stage) -> Option<int>
    decreases stages.len(),
{
    if stages.len() == 0 {
        None
    } else if stages.last() == Some(stage) {
        Some(stages.len() - 1)
    } else {
        last_with_stage(stages.drop_last(), stage)
    }
}

/// What [`last_with_stage`] finds, for every classification of the
/// arguments: the index of an argument of that stage after which no
/// argument has it, or `None` when no argument at all (the first one
/// included) has that stage.
pub proof fn lemma_last_with_stage(stages: Seq<Option<Stage>>, stage: Stage)
    ensures
        match last_with_stage(stages, stage) {
            Some(i) => 0 <= i < stages.len() && stages[i] == Some(stage) && forall|j: int|
                i < j < stages.len() ==> stages[j] != Some(stage),
            None => forall|j: int| 0 <= j < stages.len() ==> stages[j] != Some(stage),
        },
    decreases stages.len(),
{
    if stages.len() > 0 && stages.last() != Some(stage) {
        lemma_last_with_stage(stages.drop_last(), stage);
        let rest = stages.drop_last();
        match last_with_stage(rest, stage) {
            Some(i) => {
                assert forall|j: int| i < j < stages.len() implies stages[j] != Some(stage) by {
                    if j < stages.len() - 1 {
                        assert(stages[j] == rest[j]);
                    }
                }
            },
            None => {
                assert forall|j: int| 0 <= j < stages.len() implies stages[j] != Some(stage) by {
                    if j < stages.len() - 1 {
                        assert(stages[j] == rest[j]);
                    }
                }
            },
        }
    }
}

/// With two or more arguments, the input is a pair exactly when some
/// argument is a vertex stage and some argument a fragment stage, and the
/// pair then names arguments of those stages.
pub proof fn lemma_pair_when_both_stages(stages: Seq<Option<Stage>>)
    ensures
        (last_with_stage(stages, Stage::Vertex) is Some && last_with_stage(stages, Stage::Fragment) is Some)
            <==> ((exists|i: int| 0 <= i < stages.len() && stages[i] == Some(Stage::Vertex))
            && (exists|i: int| 0 <= i < stages.len() && stages[i] == Some(Stage::Fragment))),
{
    lemma_last_with_stage(stages, Stage::Vertex);
    lemma_last_with_stage(stages, Stage::Fragment);
    if let Some(i) = last_with_stage(stages, Stage::Vertex) {
        assert(0 <= i < stages.len() && stages[i] == Some(Stage::Vertex));
    }
    if let Some(i) = last_with_stage(stages, Stage::Fragment) {
        assert(0 <= i < stages.len() && stages[i] == Some(Stage::Fragment));
    }
}

/// Resolves what to view: a `.vert` + `.frag` pair when two or more
/// arguments include both stages (a later argument of a stage replaces an
/// earlier one), else the first argument as one module, else stdin.
///
/// `stages` holds the classification of each argument; it is only
/// consulted, and only needs to be given, with two or more arguments.
pub fn choose_input(argument_count: usize, stages: &Vec<Option<Stage>>) -> (choice: InputChoice)
    requires
        argument_count >= 2 ==> stages@.len() == argument_count,
    ensures
        ({
            let v = last_with_stage(stages@, Stage::Vertex);
            let f = last_with_stage(stages@, Stage::Fragment);
            if argument_count >= 2 && v is Some && f is Some {
                choice == (InputChoice::Pair { vertex: v->0 as usize, fragment: f->0 as usize })
            } else if argument_count >= 1 {
                choice is FirstArgument
            } else {
                choice is NoArgument
            }
        }),
        choice matches InputChoice::Pair { vertex, fragment } ==> argument_count >= 2
            && vertex < stages@.len() && stages@[vertex as int] == Some(Stage::Vertex)
            && fragment < stages@.len() && stages@[fragment as int] == Some(Stage::Fragment),
        argument_count >= 2 && (exists|i: int| 0 <= i < stages@.len() && stages@[i] == Some(Stage::Vertex))
            && (exists|i: int| 0 <= i < stages@.len() && stages@[i] == Some(Stage::Fragment))
            ==> choice is Pair,
{
    proof {
        lemma_last_with_stage(stages@, Stage::Vertex);
        lemma_last_with_stage(stages@, Stage::Fragment);
        lemma_pair_when_both_stages(stages@);
    }
    if argument_count >= 2 {
        let mut vertex: Option<usize> = None;
        let mut fragment: Option<usize> = None;
        let mut i: usize = 0;
        while i < stages.len()
            invariant
                i <= stages@.len(),
                vertex == match last_with_stage(stages@.take(i as int), Stage::Vertex) {
                    Some(k) => Some(k as usize),
                    None => None::<usize>,
                },
                fragment == match last_with_stage(stages@.take(i as int), Stage::Fragment) {
                    Some(k) => Some(k as usize),
                    None => None::<usize>,
                },
                forall|k: int| #[trigger] last_with_stage(stages@.take(i as int), Stage::Vertex) == Some(k) ==> 0 <= k < i,
                forall|k: int| #[trigger] last_with_stage(stages@.take(i as int), Stage::Fragment) == Some(k) ==> 0 <= k < i,
            decreases stages.len() - i,
        {
            assert(stages@.take(i + 1).drop_last() =~= stages@.take(i as int));
            match stages[i] {
                Some(Stage::Vertex) => vertex = Some(i),
                Some(Stage::Fragment) => fragment = Some(i),
                None => {},
            }
            i += 1;
        }
        assert(stages@.take(stages@.len() as int) =~= stages@);
        if let (Some(v), Some(f)) = (vertex, fragment) {
            return InputChoice::Pair { vertex: v, fragment: f };
        }
    }
    if argument_count >= 1 {
        InputChoice::FirstArgument
    } else {
        InputChoice::NoArgument
    }
}

/// The result of one slangc attempt on a module.
pub enum Attempt {
    /// slangc failed, with its diagnostics.
    CompileFailed(String),
    /// It compiled, and reflection shows nothing the viewer can display.
    NothingDisplayable,
    /// It compiled into something the viewer can display.
    Displayable(CompiledShader),
}

/// Where the compile of one module stands.
pub enum ModuleState {
    /// The file is compiled as it is.
    Plain,
    /// The file is compiled again with the playground prelude; holds the
    /// diagnostics of the plain attempt when it did not compile.
    WithPrelude { plain_error: Option<String> },
}

/// What to do after an attempt.
pub enum ModuleAction {
    /// Compile again with the playground prelude written and imported.
    RetryWithPrelude(ModuleState),
    /// Show this shader.
    Display(CompiledShader),
    /// Report slangc's diagnostics for the plain file and give up.
    ReportCompileError(String),
    /// Report that the module has nothing this viewer can display.
    ReportNotDisplayable,
}

/// The decision after each slangc attempt on a module: a displayable
/// result is shown; a plain attempt that is not displayable is retried
/// with the playground prelude; when that fails too, the plain attempt's
/// diagnostics are reported if it did not compile, else that nothing is
/// displayable.
pub fn module_step(state: ModuleState, attempt: Attempt) -> (action: ModuleAction)
    ensures
        match attempt {
            Attempt::Displayable(c) => action == ModuleAction::Display(c),
            Attempt::CompileFailed(e) => match state {
                ModuleState::Plain => action == ModuleAction::RetryWithPrelude(
                    ModuleState::WithPrelude { plain_error: Some(e) },
                ),
                ModuleState::WithPrelude { plain_error: Some(p) } => action
                    == ModuleAction::ReportCompileError(p),
                ModuleState::WithPrelude { plain_error: None } => action
                    is ReportNotDisplayable,
            },
            Attempt::NothingDisplayable => match state {
                ModuleState::Plain => action == ModuleAction::RetryWithPrelude(
                    ModuleState::WithPrelude { plain_error: None },
                ),
                ModuleState::WithPrelude { plain_error: Some(p) } => action
                    == ModuleAction::ReportCompileError(p),
                ModuleState::WithPrelude { plain_error: None } => action
                    is ReportNotDisplayable,
            },
        },
{
    match attempt {
        Attempt::Displayable(c) => ModuleAction::Display(c),
        Attempt::CompileFailed(e) => match state {
            ModuleState::Plain => ModuleAction::RetryWithPrelude(
                ModuleState::WithPrelude { plain_error: Some(e) },
            ),
            ModuleState::WithPrelude { plain_error: Some(p) } => ModuleAction::ReportCompileError(p),
            ModuleState::WithPrelude { plain_error: None } => ModuleAction::ReportNotDisplayable,
        },
        Attempt::NothingDisplayable => match state {
            ModuleState::Plain => ModuleAction::RetryWithPrelude(
                ModuleState::WithPrelude { plain_error: None },
            ),
            ModuleState::WithPrelude { plain_error: Some(p) } => ModuleAction::ReportCompileError(p),
            ModuleState::WithPrelude { plain_error: None } => ModuleAction::ReportNotDisplayable,
        },
    }
}

} // verus!
