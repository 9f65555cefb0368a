//! Shadertoy-style GLSL.
//!
//! Shadertoy exports are fragment-only GLSL around a `mainImage(out, in)`
//! entry point, relying on uniforms (`iTime`, `iResolution`, ...) that
//! Shadertoy's own environment injects. The viewer wraps the export so
//! slangc accepts it, and feeds the uniforms as push constants.

use crate::text::{
    chars_of, chars_start_with, find_char, first_index_of, is_prefix, lemma_first_index_of, push_all,
    string_from_chars,
};
use vstd::prelude::*;

verus! {

/// The Shadertoy built-in uniforms, as a push-constant block. slangc's
/// GLSL front-end accepts `layout(push_constant)`, and push constants
/// need no descriptor sets — only a range in the pipeline layout and one
/// command per frame.
pub const SHADERTOY_UNIFORM_BLOCK: &'static str = "layout(push_constant) uniform ShadertoyUniforms
{
    vec3  iResolution;      // viewport resolution in pixels (z = 1.0)
    float iTime;            // seconds since the viewer started
    vec4  iMouse;           // xy: cursor, zw: last click (origin bottom-left)
    vec4  iDate;            // year, month, day, seconds into the day (UTC)
    float iTimeDelta;       // seconds since the previous frame
    float iFrameRate;       // estimated frames per second
    int   iFrame;           // frame counter
};
";

/// The entry point Shadertoy's environment would inject: call the user's
/// `mainImage`, translating Vulkan's top-left `gl_FragCoord` into
/// Shadertoy's bottom-left `fragCoord`.
pub const SHADERTOY_EPILOGUE: &'static str = "layout(location = 0) out vec4 _shadertoy_outColor;
void main()
{
    vec4 _shadertoy_color;
    mainImage(_shadertoy_color, vec2(gl_FragCoord.x, iResolution.y - gl_FragCoord.y));
    _shadertoy_outColor = _shadertoy_color;
}
";

/// The viewer-owned vertex stage for Shadertoy files: one triangle
/// spanning the whole viewport, generated from the vertex index because
/// the viewer supplies no vertex buffer. GLSL keeps it in the same
/// language as the wrapped fragment stage.
pub const SHADERTOY_FULLSCREEN_VERT: &'static str = "#version 450
void main(int vertexID: SV_VertexID)
{
    vec2 uv = vec2(float((vertexID << 1) & 2), float(vertexID & 2));
    gl_Position = vec4(uv * 2.0 - 1.0, 0.0, 1.0);
}
";

/// The banner line before the uniform block.
pub const PRELUDE_BANNER: &'static str = "// --- vert_frag_viewer: Shadertoy prelude (built-in uniforms) ---\n";

/// The banner line before the epilogue.
pub const EPILOGUE_BANNER: &'static str = "// --- vert_frag_viewer: epilogue (mainImage -> main) ---\n";

// ------------------------------------------------------------
// Comments
// ------------------------------------------------------------

/// First index `j >= from` where `*/` ends, i.e. `s[j - 1] == '*'` and
/// `s[j] == '/'`.
pub open spec fn first_close(s: Seq<char>, from: int) -> Option<int>
    decreases s.len() - from,
{
    if from < 1 || from >= s.len() {
        None
    } else if s[from - 1] == '*' && s[from] == '/' {
        Some(from)
    } else {
        first_close(s, from + 1)
    }
}

pub proof fn lemma_first_close(s: Seq<char>, from: int)
    requires
        1 <= from,
    ensures
        match first_close(s, from) {
            Some(j) => from <= j < s.len() && s[j - 1] == '*' && s[j] == '/',
            None => true,
        },
    decreases s.len() - from,
{
    if from < s.len() && !(s[from - 1] == '*' && s[from] == '/') {
        lemma_first_close(s, from + 1);
    }
}

/// Where a `//` comment opened at `start` ends: at the next newline,
/// which is not part of the comment and stays in the text, or at the end
/// of the text.
pub open spec fn line_comment_end(s: Seq<char>, start: int) -> int {
    match first_index_of(s, '\n', start + 2) {
        Some(k) => k,
        None => s.len() as int,
    }
}

/// Where a `/*` comment opened at `start` ends: just past the first `*/`
/// whose `*` follows the opening `/*`, or at the end of the text.
pub open spec fn block_comment_end(s: Seq<char>, start: int) -> int {
    match first_close(s, start + 3) {
        Some(j) => j + 1,
        None => s.len() as int,
    }
}

/// Whether a comment opens at `i`.
pub open spec fn opens_comment(s: Seq<char>, i: int) -> bool {
    0 <= i && i + 1 < s.len() && s[i] == '/' && (s[i + 1] == '/' || s[i + 1] == '*')
}

/// The text from index `i` on with `//` line comments (up to the newline
/// that ends them, which is kept) and `/* */` block comments removed.
pub open spec fn strip_from(s: Seq<char>, i: int) -> Seq<char>
    decreases s.len() - i,
{
    if i < 0 || i >= s.len() {
        Seq::empty()
    } else if opens_comment(s, i) && s[i + 1] == '/' {
        proof {
            lemma_first_index_of(s, '\n', i + 2);
        }
        strip_from(s, line_comment_end(s, i))
    } else if opens_comment(s, i) {
        proof {
            lemma_first_close(s, i + 3);
        }
        strip_from(s, block_comment_end(s, i))
    } else {
        seq![s[i]] + strip_from(s, i + 1)
    }
}

/// `s` with its comments removed.
pub open spec fn strip_comments(s: Seq<char>) -> Seq<char> {
    strip_from(s, 0)
}

/// Index of the first `*/` close at or after `from`.
fn find_close(s: &[char], from: usize) -> (r: Option<usize>)
    requires
        1 <= from,
    ensures
        match r {
            Some(j) => first_close(s@, from as int) == Some(j as int),
            None => first_close(s@, from as int) is None,
        },
{
    let mut j = from;
    while j < s.len()
        invariant
            1 <= from <= j,
            first_close(s@, from as int) == first_close(s@, j as int),
        decreases s.len() - j,
    {
        if s[j - 1] == '*' && s[j] == '/' {
            return Some(j);
        }
        j += 1;
    }
    None
}

/// Removes `//` line comments and `/* */` block comments so token scans do
/// not match words that only appear in comments.
pub fn strip_glsl_comments(source: &str) -> (stripped: String)
    ensures
        stripped@ == strip_comments(source@),
{
    let s = chars_of(source);
    let mut out: Vec<char> = Vec::new();
    let mut i: usize = 0;
    while i < s.len()
        invariant
            s@ == source@,
            i <= s@.len(),
            strip_comments(s@) == out@ + strip_from(s@, i as int),
        decreases s.len() - i,
    {
        let c = s[i];
        if c == '/' && i + 1 < s.len() && s[i + 1] == '/' {
            proof {
                lemma_first_index_of(s@, '\n', i + 2);
            }
            i = match find_char(&s, '\n', i + 2) {
                Some(k) => k,
                None => s.len(),
            };
        } else if c == '/' && i + 1 < s.len() && s[i + 1] == '*' {
            proof {
                lemma_first_close(s@, i + 3);
            }
            i = if s.len() - i < 3 {
                s.len()
            } else {
                match find_close(&s, i + 3) {
                    Some(j) => j + 1,
                    None => s.len(),
                }
            };
        } else {
            let ghost before = out@;
            out.push(c);
            i += 1;
            assert(out@ + strip_from(s@, i as int) =~= before + (seq![c] + strip_from(
                s@,
                i as int,
            )));
        }
    }
    string_from_chars(&out)
}

/// No comment opens anywhere in `s`.
pub open spec fn comment_free(s: Seq<char>) -> bool {
    forall|i: int| !opens_comment(s, i)
}

proof fn lemma_strip_from_comment_free(s: Seq<char>, i: int)
    requires
        0 <= i,
    ensures
        comment_free(strip_from(s, i)),
    decreases s.len() - i,
{
    if i >= s.len() {
    } else if opens_comment(s, i) && s[i + 1] == '/' {
        lemma_first_index_of(s, '\n', i + 2);
        lemma_strip_from_comment_free(s, line_comment_end(s, i));
    } else if opens_comment(s, i) {
        lemma_first_close(s, i + 3);
        lemma_strip_from_comment_free(s, block_comment_end(s, i));
    } else {
        lemma_strip_from_comment_free(s, i + 1);
        let rest = strip_from(s, i + 1);
        let out = seq![s[i]] + rest;
        if i + 1 < s.len() && s[i] == '/' {
            assert(!opens_comment(s, i + 1) || s[i + 1] != '/');
            assert(rest[0] == s[i + 1]);
        }
        assert forall|k: int| !opens_comment(out, k) by {
            if k >= 1 {
                assert(opens_comment(out, k) ==> opens_comment(rest, k - 1));
            }
        }
    }
}

proof fn lemma_strip_from_keeps_comment_free(s: Seq<char>, i: int)
    requires
        0 <= i <= s.len(),
        comment_free(s),
    ensures
        strip_from(s, i) == s.skip(i),
    decreases s.len() - i,
{
    if i >= s.len() {
        assert(s.skip(i) =~= Seq::<char>::empty());
    } else {
        assert(!opens_comment(s, i));
        lemma_strip_from_keeps_comment_free(s, i + 1);
        assert(s.skip(i) =~= seq![s[i]] + s.skip(i + 1));
    }
}

/// Removing comments leaves no comment opener behind, leaves text without
/// comments unchanged, and so doing it twice is the same as doing it once.
pub proof fn lemma_strip_comments_idempotent(s: Seq<char>)
    ensures
        comment_free(strip_comments(s)),
        comment_free(s) ==> strip_comments(s) == s,
        strip_comments(strip_comments(s)) == strip_comments(s),
{
    lemma_strip_from_comment_free(s, 0);
    lemma_strip_from_keeps_comment_free(strip_comments(s), 0);
    assert(strip_comments(s).skip(0) =~= strip_comments(s));
    if comment_free(s) {
        lemma_strip_from_keeps_comment_free(s, 0);
        assert(s.skip(0) =~= s);
    }
}


proof fn lemma_first_index_of_shift(x: Seq<char>, y: Seq<char>, c: char, i: int)
    requires
        0 <= i,
    ensures
        first_index_of(x + y, c, x.len() + i) == match first_index_of(y, c, i) {
            Some(k) => Some(x.len() + k),
            None => None::<int>,
        },
    decreases y.len() - i,
{
    if i < y.len() {
        assert((x + y)[x.len() + i] == y[i]);
        if y[i] != c {
            lemma_first_index_of_shift(x, y, c, i + 1);
        }
    }
}

proof fn lemma_first_close_shift(x: Seq<char>, y: Seq<char>, i: int)
    requires
        1 <= i,
    ensures
        first_close(x + y, x.len() + i) == match first_close(y, i) {
            Some(k) => Some(x.len() + k),
            None => None::<int>,
        },
    decreases y.len() - i,
{
    if i < y.len() {
        assert((x + y)[x.len() + i] == y[i]);
        assert((x + y)[x.len() + i - 1] == y[i - 1]);
        if !(y[i - 1] == '*' && y[i] == '/') {
            lemma_first_close_shift(x, y, i + 1);
        }
    }
}

/// Stripping from a position only reads the text from there on.
proof fn lemma_strip_from_shift(x: Seq<char>, y: Seq<char>, i: int)
    requires
        0 <= i,
    ensures
        strip_from(x + y, x.len() + i) == strip_from(y, i),
    decreases y.len() - i,
{
    let s = x + y;
    let p = x.len() + i;
    if i < y.len() {
        assert(s[p] == y[i]);
        if i + 1 < y.len() {
            assert(s[p + 1] == y[i + 1]);
        }
        assert(opens_comment(s, p) == opens_comment(y, i));
        if opens_comment(y, i) && y[i + 1] == '/' {
            lemma_first_index_of(y, '\n', i + 2);
            lemma_first_index_of_shift(x, y, '\n', i + 2);
            assert(line_comment_end(s, p) == x.len() + line_comment_end(y, i));
            lemma_strip_from_shift(x, y, line_comment_end(y, i));
        } else if opens_comment(y, i) {
            lemma_first_close(y, i + 3);
            lemma_first_close_shift(x, y, i + 3);
            assert(block_comment_end(s, p) == x.len() + block_comment_end(y, i));
            lemma_strip_from_shift(x, y, block_comment_end(y, i));
        } else {
            lemma_strip_from_shift(x, y, i + 1);
        }
    }
}

/// Stripping a text that starts with comment-free `a` (not ending in a
/// `/` that could open a comment with what follows) keeps `a` as it is.
proof fn lemma_strip_from_keeps_prefix(a: Seq<char>, t: Seq<char>, j: int)
    requires
        0 <= j <= a.len(),
        comment_free(a),
        a.len() == 0 || a.last() != '/',
    ensures
        strip_from(a + t, j) == a.skip(j) + strip_from(a + t, a.len() as int),
    decreases a.len() - j,
{
    let s = a + t;
    if j == a.len() {
        assert(a.skip(j) =~= Seq::<char>::empty());
        assert(a.skip(j) + strip_from(s, a.len() as int) =~= strip_from(s, a.len() as int));
    } else {
        assert(s[j] == a[j]);
        assert(!opens_comment(a, j));
        if j + 1 < a.len() {
            assert(s[j + 1] == a[j + 1]);
        }
        assert(!opens_comment(s, j));
        lemma_strip_from_keeps_prefix(a, t, j + 1);
        assert(a.skip(j) =~= seq![a[j]] + a.skip(j + 1));
        assert(strip_from(s, j) =~= a.skip(j) + strip_from(s, a.len() as int));
    }
}

/// A `//` comment is removed up to the newline that ends it, and that
/// newline stays: the line after the comment stays a line of its own.
pub proof fn lemma_line_comment_keeps_newline(a: Seq<char>, c: Seq<char>, b: Seq<char>)
    requires
        comment_free(a),
        a.len() == 0 || a.last() != '/',
        forall|i: int| 0 <= i < c.len() ==> c[i] != '\n',
    ensures
        strip_comments(a + seq!['/', '/'] + c + seq!['\n'] + b) == a + seq!['\n'] + strip_comments(b),
{
    let head = seq!['/', '/'] + c + seq!['\n'];
    let t = head + b;
    let s = a + t;
    assert(a + seq!['/', '/'] + c + seq!['\n'] + b =~= s);
    lemma_strip_from_keeps_prefix(a, t, 0);
    assert(a.skip(0) =~= a);
    let p = a.len() as int;
    assert(s[p] == '/' && s[p + 1] == '/');
    let nl = p + 2 + c.len();
    assert(s[nl] == '\n');
    assert forall|j: int| p + 2 <= j < nl implies s[j] != '\n' by {
        assert(s[j] == c[j - p - 2]);
    }
    lemma_first_index_of(s, '\n', p + 2);
    assert(line_comment_end(s, p) == nl);
    assert(strip_from(s, p) == strip_from(s, nl));
    assert(!opens_comment(s, nl));
    assert(strip_from(s, nl) == seq![s[nl]] + strip_from(s, nl + 1));
    assert(a + head + b =~= s);
    assert((a + head).len() == nl + 1);
    lemma_strip_from_shift(a + head, b, 0);
    assert(s =~= (a + head) + b);
    assert(strip_comments(s) =~= a + seq!['\n'] + strip_comments(b));
}

// ------------------------------------------------------------
// Inputs the viewer cannot feed
// ------------------------------------------------------------

/// Characters that can be part of a GLSL identifier token.
pub open spec fn is_token_char(c: char) -> bool {
    ('0' <= c <= '9') || ('a' <= c <= 'z') || ('A' <= c <= 'Z') || c == '_'
}

/// The pieces of `s` between non-token characters (empty pieces
/// included), as splitting on every non-token character gives them.
pub open spec fn tokens(s: Seq<char>) -> Seq<Seq<char>>
    decreases s.len(),
{
    if s.len() == 0 {
        seq![Seq::empty()]
    } else {
        let init = tokens(s.drop_last());
        if is_token_char(s.last()) {
            init.update(init.len() - 1, init.last().push(s.last()))
        } else {
            init.push(Seq::empty())
        }
    }
}

/// A Shadertoy input the viewer cannot supply.
pub enum ShadertoyProblem {
    /// The shader reads this `iChannel*` texture input.
    TextureInput(String),
    /// The shader declares `uniform`s of its own.
    OwnUniforms,
}

/// Model of a [`ShadertoyProblem`].
pub enum ProblemView {
    TextureInput(Seq<char>),
    OwnUniforms,
}

impl View for ShadertoyProblem {
    type V = ProblemView;

    open spec fn view(&self) -> ProblemView {
        match self {
            ShadertoyProblem::TextureInput(t) => ProblemView::TextureInput(t@),
            ShadertoyProblem::OwnUniforms => ProblemView::OwnUniforms,
        }
    }
}

/// What a single token says about the shader.
pub open spec fn token_problem(token: Seq<char>) -> Option<ProblemView> {
    if is_prefix("iChannel"@, token) {
        Some(ProblemView::TextureInput(token))
    } else if token == "uniform"@ {
        Some(ProblemView::OwnUniforms)
    } else {
        None
    }
}

/// The problem of the first token that has one.
pub open spec fn first_problem(tokens: Seq<Seq<char>>) -> Option<ProblemView>
    decreases tokens.len(),
{
    if tokens.len() == 0 {
        None
    } else {
        match token_problem(tokens[0]) {
            Some(p) => Some(p),
            None => first_problem(tokens.drop_first()),
        }
    }
}

/// The first problem among the tokens of a Shadertoy source, comments
/// excluded.
pub open spec fn spec_shadertoy_problem(source: Seq<char>) -> Option<ProblemView> {
    first_problem(tokens(strip_comments(source)))
}

proof fn lemma_tokens_nonempty(s: Seq<char>)
    ensures
        tokens(s).len() >= 1,
    decreases s.len(),
{
    if s.len() > 0 {
        lemma_tokens_nonempty(s.drop_last());
    }
}

/// Completed tokens of a prefix stay tokens of every longer prefix.
proof fn lemma_tokens_stable(s: Seq<char>, i: int, j: int)
    requires
        0 <= i <= j <= s.len(),
    ensures
        tokens(s.take(i)).len() <= tokens(s.take(j)).len(),
        forall|k: int|
            0 <= k < tokens(s.take(i)).len() - 1 ==> tokens(s.take(j))[k] == tokens(s.take(i))[k],
    decreases j - i,
{
    if i < j {
        lemma_tokens_stable(s, i, j - 1);
        assert(s.take(j).drop_last() =~= s.take(j - 1));
        lemma_tokens_nonempty(s.take(j - 1));
    }
}

proof fn lemma_first_problem_at(ts: Seq<Seq<char>>, m: int)
    requires
        0 <= m < ts.len(),
        forall|k: int| 0 <= k < m ==> token_problem(#[trigger] ts[k]) is None,
        token_problem(ts[m]) is Some,
    ensures
        first_problem(ts) == token_problem(ts[m]),
    decreases m,
{
    if m > 0 {
        assert forall|k: int| 0 <= k < m - 1 implies token_problem(
            #[trigger] ts.drop_first()[k],
        ) is None by {
            assert(ts.drop_first()[k] == ts[k + 1]);
        }
        lemma_first_problem_at(ts.drop_first(), m - 1);
    }
}

proof fn lemma_first_problem_none(ts: Seq<Seq<char>>)
    requires
        forall|k: int| 0 <= k < ts.len() ==> token_problem(#[trigger] ts[k]) is None,
    ensures
        first_problem(ts) is None,
    decreases ts.len(),
{
    if ts.len() > 0 {
        assert(token_problem(ts[0]) is None);
        assert forall|k: int| 0 <= k < ts.len() - 1 implies token_problem(
            #[trigger] ts.drop_first()[k],
        ) is None by {
            assert(ts.drop_first()[k] == ts[k + 1]);
        }
        lemma_first_problem_none(ts.drop_first());
    }
}

/// What a token says about the shader.
fn check_token(token: &[char], ichannel: &[char], uniform: &[char]) -> (r: Option<ShadertoyProblem>)
    requires
        ichannel@ == "iChannel"@,
        uniform@ == "uniform"@,
    ensures
        match r {
            Some(p) => token_problem(token@) == Some(p@),
            None => token_problem(token@) is None,
        },
{
    if chars_start_with(token, ichannel) {
        assert(token@.take(ichannel@.len() as int) == ichannel@);
        Some(ShadertoyProblem::TextureInput(string_from_chars(token)))
    } else if token.len() == uniform.len() && chars_start_with(token, uniform) {
        assert(token@ =~= token@.take(uniform@.len() as int));
        Some(ShadertoyProblem::OwnUniforms)
    } else {
        proof {
            if token@ == "uniform"@ {
                assert(token@.take(uniform@.len() as int) =~= token@);
            }
        }
        None
    }
}

/// Finds Shadertoy inputs the viewer cannot feed: `iChannel*` texture
/// inputs and `uniform` declarations of the shader's own. Both would
/// compile into resources the pipeline layout does not provide, so they
/// are reported up front instead of failing at draw time. Words that only
/// appear in comments do not count.
pub fn shadertoy_problem(source: &str) -> (problem: Option<ShadertoyProblem>)
    ensures
        match problem {
            Some(p) => spec_shadertoy_problem(source@) == Some(p@),
            None => spec_shadertoy_problem(source@) is None,
        },
{
    let stripped = strip_glsl_comments(source);
    let s = chars_of(stripped.as_str());
    let ichannel = chars_of("iChannel");
    let uniform = chars_of("uniform");
    let ghost full = s@;
    let mut start: usize = 0;
    let mut i: usize = 0;
    proof {
        assert(s@.take(0) =~= Seq::<char>::empty());
        assert(tokens(s@.take(0)) == seq![Seq::<char>::empty()]);
    }
    while i < s.len()
        invariant
            s@ == full,
            full == strip_comments(source@),
            ichannel@ == "iChannel"@,
            uniform@ == "uniform"@,
            start <= i <= s@.len(),
            tokens(s@.take(i as int)).len() >= 1,
            tokens(s@.take(i as int)).last() == s@.subrange(start as int, i as int),
            forall|k: int|
                0 <= k < tokens(s@.take(i as int)).len() - 1 ==> token_problem(
                    #[trigger] tokens(s@.take(i as int))[k],
                ) is None,
        decreases s.len() - i,
    {
        let c = s[i];
        let ghost before = tokens(s@.take(i as int));
        assert(s@.take(i + 1).drop_last() =~= s@.take(i as int));
        assert(s@.take(i + 1).last() == c);
        let is_token = ('0' <= c && c <= '9') || ('a' <= c && c <= 'z') || ('A' <= c && c <= 'Z')
            || c == '_';
        if is_token {
            i += 1;
            assert(s@.subrange(start as int, i as int) =~= s@.subrange(start as int, i - 1).push(c));
        } else {
            let token = &s[start..i];
            let found = check_token(token, &ichannel, &uniform);
            if let Some(p) = found {
                proof {
                    let n = before.len() - 1;
                    lemma_tokens_stable(full, i + 1, full.len() as int);
                    assert(full.take(full.len() as int) =~= full);
                    assert(tokens(full)[n] == before[n]);
                    assert forall|k: int| 0 <= k < n implies token_problem(
                        #[trigger] tokens(full)[k],
                    ) is None by {
                        assert(tokens(full)[k] == before[k]);
                    }
                    lemma_first_problem_at(tokens(full), n);
                }
                return Some(p);
            }
            i += 1;
            start = i;
            assert(s@.subrange(start as int, i as int) =~= Seq::<char>::empty());
        }
    }
    assert(s@.take(i as int) =~= full);
    let token = &s[start..i];
    let found = check_token(token, &ichannel, &uniform);
    proof {
        let ts = tokens(full);
        let n = ts.len() - 1;
        if found is Some {
            lemma_first_problem_at(ts, n);
        } else {
            lemma_first_problem_none(ts);
        }
    }
    found
}

/// An ASCII letter, digit or `_`: a character of a GLSL identifier.
pub open spec fn is_identifier_char(c: char) -> bool {
    ('a' <= c <= 'z') || ('A' <= c <= 'Z') || ('0' <= c <= '9') || c == '_'
}

proof fn lemma_identifier_tokens(w: Seq<char>)
    requires
        forall|i: int| 0 <= i < w.len() ==> is_identifier_char(#[trigger] w[i]),
    ensures
        tokens(w) == seq![w],
    decreases w.len(),
{
    if w.len() > 0 {
        lemma_identifier_tokens(w.drop_last());
        assert(is_identifier_char(w[w.len() - 1]));
        assert(w.drop_last().push(w.last()) =~= w);
        assert(tokens(w) =~= seq![w]);
    } else {
        assert(w =~= Seq::<char>::empty());
    }
}

proof fn lemma_tokens_split(a: Seq<char>, c: char, b: Seq<char>)
    requires
        !is_identifier_char(c),
    ensures
        tokens(a + seq![c] + b) == tokens(a) + tokens(b),
    decreases b.len(),
{
    if b.len() == 0 {
        assert(a + seq![c] + b =~= a + seq![c]);
        assert((a + seq![c]).drop_last() =~= a);
        assert(tokens(b) =~= seq![Seq::<char>::empty()]);
        assert(tokens(a + seq![c] + b) =~= tokens(a) + tokens(b));
    } else {
        let s = a + seq![c] + b;
        let bd = b.drop_last();
        assert(s.drop_last() =~= a + seq![c] + bd);
        lemma_tokens_split(a, c, bd);
        lemma_tokens_nonempty(bd);
        lemma_tokens_nonempty(a);
        assert(s.last() == b.last());
        assert(tokens(s) =~= tokens(a) + tokens(b));
    }
}

proof fn lemma_first_problem_concat(x: Seq<Seq<char>>, y: Seq<Seq<char>>)
    ensures
        first_problem(x + y) == match first_problem(x) {
            Some(p) => Some(p),
            None => first_problem(y),
        },
    decreases x.len(),
{
    if x.len() == 0 {
        assert(x + y =~= y);
    } else {
        assert((x + y)[0] == x[0]);
        assert((x + y).drop_first() =~= x.drop_first() + y);
        lemma_first_problem_concat(x.drop_first(), y);
    }
}

proof fn lemma_slash_free_unstripped(s: Seq<char>)
    requires
        forall|i: int| 0 <= i < s.len() ==> s[i] != '/',
    ensures
        strip_comments(s) == s,
{
    assert forall|i: int| !opens_comment(s, i) by {}
    lemma_strip_comments_idempotent(s);
}

/// A single identifier (ASCII letters, digits and `_`, so `uniform_x` is
/// one word) is a problem only when it is exactly `uniform`, or when it
/// starts with `iChannel`, which names that texture input.
pub proof fn lemma_identifier_problem(w: Seq<char>)
    requires
        forall|i: int| 0 <= i < w.len() ==> is_identifier_char(#[trigger] w[i]),
    ensures
        spec_shadertoy_problem(w) == if is_prefix("iChannel"@, w) {
            Some(ProblemView::TextureInput(w))
        } else if w == "uniform"@ {
            Some(ProblemView::OwnUniforms)
        } else {
            None
        },
{
    assert forall|i: int| 0 <= i < w.len() implies w[i] != '/' by {
        assert(is_identifier_char(w[i]));
    }
    lemma_slash_free_unstripped(w);
    lemma_identifier_tokens(w);
    assert(seq![w].drop_first() =~= Seq::<Seq<char>>::empty());
    assert(first_problem(Seq::<Seq<char>>::empty()) is None);
    assert(seq![w][0] == w);
    assert(first_problem(seq![w]) == token_problem(w));
}

/// Text split at a character that cannot be part of an identifier has
/// the problem of its first part, or else that of its second: the check
/// reads whole words, in order.
pub proof fn lemma_problem_splits_at_separator(a: Seq<char>, c: char, b: Seq<char>)
    requires
        !is_identifier_char(c),
        c != '/',
        forall|i: int| 0 <= i < a.len() ==> a[i] != '/',
        forall|i: int| 0 <= i < b.len() ==> b[i] != '/',
    ensures
        spec_shadertoy_problem(a + seq![c] + b) == match spec_shadertoy_problem(a) {
            Some(p) => Some(p),
            None => spec_shadertoy_problem(b),
        },
{
    let s = a + seq![c] + b;
    assert forall|i: int| 0 <= i < s.len() implies s[i] != '/' by {
        if i < a.len() {
            assert(s[i] == a[i]);
        } else if i > a.len() {
            assert(s[i] == b[i - a.len() - 1]);
        }
    }
    lemma_slash_free_unstripped(s);
    lemma_slash_free_unstripped(a);
    lemma_slash_free_unstripped(b);
    lemma_tokens_split(a, c, b);
    lemma_first_problem_concat(tokens(a), tokens(b));
}

// ------------------------------------------------------------
// Wrapping
// ------------------------------------------------------------

/// Characters dropped from the start of an export before looking for its
/// `#version` line.
pub open spec fn is_leading_trim(c: char) -> bool {
    c == '\u{feff}' || c == ' ' || c == '\t' || c == '\r' || c == '\n'
}

/// Index of the first character at or after `from` that is not dropped.
pub open spec fn first_kept(s: Seq<char>, from: int) -> int
    decreases s.len() - from,
{
    if from < 0 || from >= s.len() {
        s.len() as int
    } else if is_leading_trim(s[from]) {
        first_kept(s, from + 1)
    } else {
        from
    }
}

proof fn lemma_first_kept(s: Seq<char>, from: int)
    requires
        0 <= from,
    ensures
        from <= first_kept(s, from) <= s.len() || (from > s.len() && first_kept(s, from) == s.len()),
    decreases s.len() - from,
{
    if from < s.len() && is_leading_trim(s[from]) {
        lemma_first_kept(s, from + 1);
    }
}

/// `s` without its leading byte-order marks and whitespace.
pub open spec fn trim_leading(s: Seq<char>) -> Seq<char> {
    s.skip(first_kept(s, 0))
}

/// The `#version` line an export is wrapped with (its own first line when
/// it has one, else `#version 450`) and the code that follows it.
pub open spec fn version_and_body(source: Seq<char>) -> (Seq<char>, Seq<char>) {
    let t = trim_leading(source);
    if is_prefix("#version"@, t) {
        let end = match first_index_of(t, '\n', 0) {
            Some(k) => k,
            None => t.len() as int,
        };
        (t.take(end), t.skip(end))
    } else {
        ("#version 450"@, t)
    }
}

/// How many newlines `s` holds.
pub open spec fn newline_count(s: Seq<char>) -> nat
    decreases s.len(),
{
    if s.len() == 0 {
        0
    } else {
        newline_count(s.drop_last()) + if s.last() == '\n' {
            1nat
        } else {
            0nat
        }
    }
}

/// The zero-based line of the character at index `i` of `s`.
pub open spec fn line_of(s: Seq<char>, i: int) -> nat {
    newline_count(s.take(i))
}

/// `n` newlines.
pub open spec fn line_breaks(n: nat) -> Seq<char> {
    Seq::new(n, |i: int| '\n')
}

/// Where in `source` the code kept after the `#version` line starts.
pub open spec fn body_start(source: Seq<char>) -> int {
    let (version, body) = version_and_body(source);
    source.len() - body.len()
}

/// The user's code as it stands after the `#line 1` directive: one blank
/// line for every line break dropped with the leading whitespace, then
/// the code itself, so every line keeps its number.
pub open spec fn shown_body(source: Seq<char>) -> Seq<char> {
    let (version, body) = version_and_body(source);
    line_breaks(newline_count(source.take(first_kept(source, 0)))) + body
}

/// The wrapped export: version line, uniform block, a `#line` directive
/// naming the export's own file, its code, and the `main()` epilogue.
pub open spec fn spec_wrap_shadertoy(source: Seq<char>, name: Seq<char>) -> Seq<char> {
    let (version, body) = version_and_body(source);
    version + "\n"@ + PRELUDE_BANNER@ + SHADERTOY_UNIFORM_BLOCK@ + "#line 1 \""@ + name + "\"\n"@
        + shown_body(source) + EPILOGUE_BANNER@ + SHADERTOY_EPILOGUE@
}

proof fn lemma_newline_count_add(a: Seq<char>, b: Seq<char>)
    ensures
        newline_count(a + b) == newline_count(a) + newline_count(b),
    decreases b.len(),
{
    if b.len() == 0 {
        assert(a + b =~= a);
    } else {
        assert((a + b).drop_last() =~= a + b.drop_last());
        lemma_newline_count_add(a, b.drop_last());
    }
}

proof fn lemma_no_newline(s: Seq<char>)
    requires
        forall|j: int| 0 <= j < s.len() ==> s[j] != '\n',
    ensures
        newline_count(s) == 0,
    decreases s.len(),
{
    if s.len() > 0 {
        lemma_no_newline(s.drop_last());
    }
}

proof fn lemma_line_breaks_count(n: nat)
    ensures
        newline_count(line_breaks(n)) == n,
    decreases n,
{
    if n > 0 {
        assert(line_breaks(n).drop_last() =~= line_breaks((n - 1) as nat));
        lemma_line_breaks_count((n - 1) as nat);
    }
}

/// The wrapped export keeps the user's line numbers: after the `#line 1`
/// directive the code follows unchanged, and every character of it sits
/// on the same line as in the export's file.
pub proof fn lemma_wrapped_keeps_line_numbers(source: Seq<char>)
    ensures
        0 <= body_start(source) <= source.len(),
        shown_body(source).skip(shown_body(source).len() - (source.len() - body_start(source)))
            == source.skip(body_start(source)),
        forall|i: int|
            0 <= i <= source.len() - body_start(source) ==> #[trigger] line_of(
                shown_body(source),
                shown_body(source).len() - (source.len() - body_start(source)) + i,
            ) == line_of(source, body_start(source) + i),
{
    reveal_strlit("#version");
    let p = first_kept(source, 0);
    lemma_first_kept(source, 0);
    let t = trim_leading(source);
    let (version, body) = version_and_body(source);
    let end: int = if is_prefix("#version"@, t) {
        match first_index_of(t, '\n', 0) {
            Some(k) => k,
            None => t.len() as int,
        }
    } else {
        0
    };
    lemma_first_index_of(t, '\n', 0);
    assert(body == t.skip(end));
    assert forall|j: int| 0 <= j < end implies t.take(end)[j] != '\n' by {}
    lemma_no_newline(t.take(end));
    let n = newline_count(source.take(p));
    let shown = shown_body(source);
    let start = body_start(source);
    assert(start == p + end);
    lemma_line_breaks_count(n);
    assert(shown.skip(n as int) =~= body);
    assert(source.skip(start) =~= body);
    assert forall|i: int| 0 <= i <= body.len() implies #[trigger] line_of(shown, n + i) == line_of(
        source,
        start + i,
    ) by {
        assert(shown.take(n + i) =~= line_breaks(n) + body.take(i));
        lemma_newline_count_add(line_breaks(n), body.take(i));
        assert(source.take(start + i) =~= source.take(p) + t.take(end) + body.take(i));
        lemma_newline_count_add(source.take(p) + t.take(end), body.take(i));
        lemma_newline_count_add(source.take(p), t.take(end));
    }
}

/// `#version` stays on the first line: every wrapped export starts with
/// it.
pub proof fn lemma_wrapped_starts_with_version(source: Seq<char>, name: Seq<char>)
    ensures
        is_prefix("#version"@, spec_wrap_shadertoy(source, name)),
{
    reveal_strlit("#version");
    reveal_strlit("#version 450");
    let t = trim_leading(source);
    let (version, body) = version_and_body(source);
    let wrapped = spec_wrap_shadertoy(source, name);
    if is_prefix("#version"@, t) {
        let end = match first_index_of(t, '\n', 0) {
            Some(k) => k,
            None => t.len() as int,
        };
        assert forall|j: int| 0 <= j < 8 implies t[j] != '\n' by {
            assert(t.take(8)[j] == "#version"@[j]);
        }
        lemma_first_index_of(t, '\n', 0);
        assert(end >= 8);
        assert(version == t.take(end));
        assert(wrapped.take(8) =~= t.take(8));
    } else {
        assert(wrapped.take(8) =~= "#version"@);
    }
}

fn is_leading_trim_char(c: char) -> (r: bool)
    ensures
        r == is_leading_trim(c),
{
    c == '\u{feff}' || c == ' ' || c == '\t' || c == '\r' || c == '\n'
}

/// Wraps a Shadertoy export so slangc's GLSL front-end accepts it.
///
/// `#version` must stay on the first line of a GLSL file: the export's own
/// line is kept when present, otherwise the viewer supplies `#version 450`.
/// `#line` then resets numbering, and each line break dropped with the
/// leading whitespace is given back after it, so slangc reports errors
/// from the user's code against the export's own file name and line
/// numbers.
pub fn wrap_shadertoy(source: &str, name: &str) -> (wrapped: String)
    ensures
        wrapped@ == spec_wrap_shadertoy(source@, name@),
{
    let s = chars_of(source);
    let mut k: usize = 0;
    let mut breaks: Vec<char> = Vec::new();
    assert(s@.take(0) =~= Seq::<char>::empty());
    assert(breaks@ =~= line_breaks(0));
    while k < s.len() && is_leading_trim_char(s[k])
        invariant
            s@ == source@,
            k <= s@.len(),
            first_kept(s@, 0) == first_kept(s@, k as int),
            breaks@ == line_breaks(newline_count(s@.take(k as int))),
        decreases s.len() - k,
    {
        assert(s@.take(k + 1).drop_last() =~= s@.take(k as int));
        if s[k] == '\n' {
            breaks.push('\n');
        }
        k += 1;
        assert(breaks@ =~= line_breaks(newline_count(s@.take(k as int))));
    }
    assert(first_kept(s@, 0) == k);
    let trimmed = &s[k..s.len()];
    assert(trimmed@ =~= trim_leading(source@));
    let mut out: Vec<char> = Vec::new();
    let body_start: usize;
    if chars_start_with(trimmed, &chars_of("#version")) {
        let end = match find_char(trimmed, '\n', 0) {
            Some(e) => e,
            None => trimmed.len(),
        };
        push_all(&mut out, &trimmed[0..end]);
        body_start = end;
    } else {
        push_all(&mut out, &chars_of("#version 450"));
        body_start = 0;
    }
    let ghost version = out@;
    assert(version_and_body(source@) == (version, trimmed@.skip(body_start as int)));
    push_all(&mut out, &chars_of("\n"));
    push_all(&mut out, &chars_of(PRELUDE_BANNER));
    push_all(&mut out, &chars_of(SHADERTOY_UNIFORM_BLOCK));
    push_all(&mut out, &chars_of("#line 1 \""));
    push_all(&mut out, &chars_of(name));
    push_all(&mut out, &chars_of("\"\n"));
    push_all(&mut out, &breaks);
    push_all(&mut out, &trimmed[body_start..trimmed.len()]);
    push_all(&mut out, &chars_of(EPILOGUE_BANNER));
    push_all(&mut out, &chars_of(SHADERTOY_EPILOGUE));
    assert(out@ =~= spec_wrap_shadertoy(source@, name@));
    string_from_chars(&out)
}

} // verus!
