//! Telling shader files apart by their contents: SPIR-V binaries,
//! `spirv-dis` text dumps, Shadertoy exports and plain source.
//!
//! Every marker looked for is ASCII, so it is matched in the raw bytes; a
//! lossy UTF-8 decoding of the same bytes contains an ASCII marker exactly
//! when the bytes do, because decoding never folds an ASCII byte into a
//! replacement character.

use crate::shader::{Stage, StageFormat};
use crate::text::{
    ascii, ascii_bytes, bytes_contain, bytes_start_with, chars_of, contains, is_prefix,
};
use vstd::prelude::*;

verus! {

/// The SPIR-V magic number.
pub const SPIRV_MAGIC: u32 = 0x0723_0203;

/// The magic number as it appears at the start of a little-endian module.
pub open spec fn spirv_magic_le() -> Seq<u8> {
    seq![0x03u8, 0x02u8, 0x23u8, 0x07u8]
}

/// The first line of every `spirv-dis` dump.
pub open spec fn disasm_header() -> Seq<u8> {
    ascii("; SPIR-V"@)
}

/// Little-endian word `i` of `bytes`.
pub open spec fn le_word(bytes: Seq<u8>, i: int) -> u32 {
    (bytes[4 * i] + 256 * bytes[4 * i + 1] + 65536 * bytes[4 * i + 2] + 16777216 * bytes[4
        * i + 3]) as u32
}

/// `bytes` read as little-endian 32-bit words; a trailing partial word is
/// ignored.
pub open spec fn le_words(bytes: Seq<u8>) -> Seq<u32> {
    Seq::new(bytes.len() / 4, |i: int| le_word(bytes, i))
}

/// Reads `bytes` as little-endian 32-bit words, dropping a trailing
/// partial word.
pub fn spirv_words(bytes: &[u8]) -> (words: Vec<u32>)
    ensures
        words@ == le_words(bytes@),
{
    let len = bytes.len();
    let n = len / 4;
    let mut words: Vec<u32> = Vec::new();
    let mut i: usize = 0;
    while i < n
        invariant
            len == bytes@.len(),
            n == bytes@.len() / 4,
            i <= n,
            words@.len() == i,
            forall|k: int| 0 <= k < i ==> #[trigger] words@[k] == le_word(bytes@, k),
        decreases n - i,
    {
        assert(4 * i + 3 < bytes@.len());
        let b0 = bytes[4 * i] as u32;
        let b1 = bytes[4 * i + 1] as u32;
        let b2 = bytes[4 * i + 2] as u32;
        let b3 = bytes[4 * i + 3] as u32;
        words.push(b0 + 256 * b1 + 65536 * b2 + 16777216 * b3);
        i += 1;
    }
    assert(words@ =~= le_words(bytes@));
    words
}

/// Whether `words` is a SPIR-V module: its first word is the magic number.
pub fn is_spirv(words: &[u32]) -> (r: bool)
    ensures
        r == (words@.len() > 0 && words@[0] == SPIRV_MAGIC),
{
    words.len() > 0 && words[0] == SPIRV_MAGIC
}

/// Starting with the little-endian magic bytes is the same as having the
/// magic number as first little-endian word.
pub proof fn lemma_magic_bytes_iff_magic_word(bytes: Seq<u8>)
    ensures
        is_prefix(spirv_magic_le(), bytes) <==> (le_words(bytes).len() > 0 && le_words(bytes)[0]
            == SPIRV_MAGIC),
{
    if bytes.len() >= 4 {
        let w = le_word(bytes, 0);
        if w == SPIRV_MAGIC {
            assert(bytes.take(4) =~= spirv_magic_le());
        }
        if is_prefix(spirv_magic_le(), bytes) {
            assert(bytes.take(4)[0] == bytes[0]);
            assert(bytes.take(4)[1] == bytes[1]);
            assert(bytes.take(4)[2] == bytes[2]);
            assert(bytes.take(4)[3] == bytes[3]);
        }
    }
}

/// Stage named by the first entry point whose instruction starts at or
/// after `offset`, walking the instruction stream of a SPIR-V module.
///
/// Each instruction starts with a word whose high 16 bits are its word
/// count and low 16 bits its opcode; `OpEntryPoint` (opcode 15) is
/// followed by its execution model (Vertex = 0, Fragment = 4). The first
/// `OpEntryPoint` decides: any other execution model gives no stage. A
/// zero-length instruction ends the walk.
pub open spec fn entry_stage_from(words: Seq<u32>, offset: int) -> Option<Stage>
    decreases words.len() + 65536 - offset,
{
    if offset < 0 || offset >= words.len() {
        None
    } else {
        let count = words[offset] / 65536;
        let opcode = words[offset] % 65536;
        if count == 0 {
            None
        } else if opcode == 15 && offset + 2 < words.len() && words[offset + 1] == 0 {
            Some(Stage::Vertex)
        } else if opcode == 15 && offset + 2 < words.len() && words[offset + 1] == 4 {
            Some(Stage::Fragment)
        } else if opcode == 15 && offset + 2 < words.len() {
            None
        } else {
            entry_stage_from(words, offset + count)
        }
    }
}

/// Walking a module's instructions: an `OpEntryPoint` reached by the walk
/// decides the stage by its execution model alone (Vertex = 0,
/// Fragment = 4, anything else no stage, later entry points unread), and
/// any other instruction is stepped over by its word count.
pub proof fn lemma_first_entry_point_decides(words: Seq<u32>, offset: int)
    requires
        0 <= offset < words.len(),
        words[offset] / 65536 > 0,
    ensures
        words[offset] % 65536 == 15 && offset + 2 < words.len() ==> entry_stage_from(words, offset)
            == if words[offset + 1] == 0 {
            Some(Stage::Vertex)
        } else if words[offset + 1] == 4 {
            Some(Stage::Fragment)
        } else {
            None
        },
        !(words[offset] % 65536 == 15 && offset + 2 < words.len()) ==> entry_stage_from(words, offset)
            == entry_stage_from(words, offset + words[offset] / 65536),
{
}

/// Stage of a raw SPIR-V binary, from the execution model of its first
/// `OpEntryPoint` after the five-word header (Vertex = 0, Fragment = 4;
/// any other model gives `None`).
pub fn binary_stage(bytes: &[u8]) -> (stage: Option<Stage>)
    ensures
        stage == entry_stage_from(le_words(bytes@), 5),
{
    let words = spirv_words(bytes);
    let len = bytes.len();
    assert(words@.len() <= usize::MAX / 4);
    let mut offset: usize = 5;
    while offset < words.len()
        invariant
            words@ == le_words(bytes@),
            words@.len() <= usize::MAX / 4,
            entry_stage_from(words@, 5) == entry_stage_from(words@, offset as int),
        decreases words.len() + 65536 - offset,
    {
        let word = words[offset];
        let word_count = (word >> 16) as usize;
        assert(word >> 16 == word / 65536 && word & 0xFFFF == word % 65536) by (bit_vector);
        if word_count == 0 {
            return None;
        }
        if word & 0xFFFF == 15 && offset + 2 < words.len() {
            if words[offset + 1] == 0 {
                return Some(Stage::Vertex);
            }
            if words[offset + 1] == 4 {
                return Some(Stage::Fragment);
            }
            return None;
        }
        offset += word_count;
    }
    None
}

/// Stage of a disassembled module, from its `OpEntryPoint` keyword.
pub open spec fn spec_disasm_stage(text: Seq<u8>) -> Option<Stage> {
    if contains(text, ascii(Stage::Vertex.keyword())) {
        Some(Stage::Vertex)
    } else if contains(text, ascii(Stage::Fragment.keyword())) {
        Some(Stage::Fragment)
    } else {
        None
    }
}

/// Round trip with [`Stage::disasm_keyword`]: text holding one stage's
/// `OpEntryPoint` keyword and not the other's is read back as that stage.
pub proof fn lemma_disasm_stage_round_trip(text: Seq<u8>, stage: Stage)
    requires
        contains(text, ascii(stage.keyword())),
        forall|other: Stage| other != stage ==> !contains(text, ascii(#[trigger] other.keyword())),
    ensures
        spec_disasm_stage(text) == Some(stage),
{
    match stage {
        Stage::Vertex => {},
        Stage::Fragment => {
            assert(!contains(text, ascii(Stage::Vertex.keyword())));
        },
    }
}

/// Stage of a disassembled module, from its `OpEntryPoint` keyword.
pub fn disasm_stage(text: &[u8]) -> (stage: Option<Stage>)
    ensures
        stage == spec_disasm_stage(text@),
{
    proof {
        reveal_strlit("OpEntryPoint Vertex ");
        reveal_strlit("OpEntryPoint Fragment ");
    }
    if bytes_contain(text, ascii_bytes(Stage::Vertex.disasm_keyword())) {
        Some(Stage::Vertex)
    } else if bytes_contain(text, ascii_bytes(Stage::Fragment.disasm_keyword())) {
        Some(Stage::Fragment)
    } else {
        None
    }
}

/// `c`, ASCII lower-cased, is `p`.
pub open spec fn lowers_to(c: char, p: char) -> bool {
    if 'A' <= c <= 'Z' {
        c as u32 + 32 == p as u32
    } else {
        c == p
    }
}

/// `s`, ASCII lower-cased, is `word`.
pub open spec fn lowercases_to(s: Seq<char>, word: Seq<char>) -> bool {
    s.len() == word.len() && forall|i: int| 0 <= i < s.len() ==> lowers_to(s[i], word[i])
}

/// Whether `ext`, ASCII lower-cased, is `word`.
fn lowercases_to_word(ext: &[char], word: &str) -> (r: bool)
    ensures
        r == lowercases_to(ext@, word@),
{
    let w = chars_of(word);
    if ext.len() != w.len() {
        return false;
    }
    let mut i: usize = 0;
    while i < ext.len()
        invariant
            w@ == word@,
            ext@.len() == w@.len(),
            i <= ext.len(),
            forall|k: int| 0 <= k < i ==> lowers_to(ext@[k], w@[k]),
        decreases ext.len() - i,
    {
        let c = ext[i];
        let matches = if 'A' <= c && c <= 'Z' {
            (c as u32) + 32 == w[i] as u32
        } else {
            c == w[i]
        };
        if !matches {
            return false;
        }
        i += 1;
    }
    true
}

/// Stage named by a file extension (`.vert`/`.vs`, `.frag`/`.fs`, in any
/// letter case).
pub open spec fn stage_from_extension(extension: Option<Seq<char>>) -> Option<Stage> {
    match extension {
        Some(e) => if lowercases_to(e, "vert"@) || lowercases_to(e, "vs"@) {
            Some(Stage::Vertex)
        } else if lowercases_to(e, "frag"@) || lowercases_to(e, "fs"@) {
            Some(Stage::Fragment)
        } else {
            None
        },
        None => None,
    }
}

pub open spec fn or_else(first: Option<Stage>, second: Option<Stage>) -> Option<Stage> {
    match first {
        Some(s) => Some(s),
        None => second,
    }
}

/// A pair member's stage and file format: the extension decides the
/// stage when it can, otherwise the content is sniffed.
pub open spec fn spec_classify(extension: Option<Seq<char>>, bytes: Seq<u8>) -> Option<
    (Stage, StageFormat),
> {
    let from_ext = stage_from_extension(extension);
    if is_prefix(disasm_header(), bytes) {
        match or_else(from_ext, spec_disasm_stage(bytes)) {
            Some(s) => Some((s, StageFormat::Disassembly)),
            None => None,
        }
    } else if is_prefix(spirv_magic_le(), bytes) {
        match or_else(from_ext, entry_stage_from(le_words(bytes), 5)) {
            Some(s) => Some((s, StageFormat::Binary)),
            None => None,
        }
    } else {
        match from_ext {
            Some(s) => Some((s, StageFormat::Source)),
            None => None,
        }
    }
}

/// The bytes of `; SPIR-V`, the first line of a `spirv-dis` dump.
pub open spec fn disasm_header_bytes() -> Seq<u8> {
    seq![0x3bu8, 0x20u8, 0x53u8, 0x50u8, 0x49u8, 0x52u8, 0x2du8, 0x56u8]
}

proof fn lemma_disasm_header_bytes()
    ensures
        disasm_header() == disasm_header_bytes(),
{
    reveal_strlit("; SPIR-V");
    assert(disasm_header() =~= disasm_header_bytes());
}

/// A file starting with `; SPIR-V` is a `spirv-dis` dump, whatever its
/// extension: the extension can only name its stage, and the format is
/// always disassembly (reassembled with `spirv-as`). Without a stage
/// extension the stage comes from the dump's `OpEntryPoint` keyword.
pub proof fn lemma_disassembly_header_decides_format(extension: Option<Seq<char>>, bytes: Seq<u8>)
    requires
        bytes.len() >= 8,
        bytes.take(8) == disasm_header_bytes(),
    ensures
        spec_classify(extension, bytes) matches Some((_, format)) ==> format
            == StageFormat::Disassembly,
        stage_from_extension(extension) matches Some(stage) ==> spec_classify(extension, bytes)
            == Some((stage, StageFormat::Disassembly)),
        stage_from_extension(extension) is None ==> spec_classify(extension, bytes) == match spec_disasm_stage(bytes) {
            Some(stage) => Some((stage, StageFormat::Disassembly)),
            None => None,
        },
{
    lemma_disasm_header_bytes();
}

/// A file starting with the little-endian SPIR-V magic number is a raw
/// binary, whatever its extension; without a stage extension the stage
/// comes from its first `OpEntryPoint`.
pub proof fn lemma_magic_number_decides_format(extension: Option<Seq<char>>, bytes: Seq<u8>)
    requires
        bytes.len() >= 4,
        bytes[0] == 0x03u8 && bytes[1] == 0x02u8 && bytes[2] == 0x23u8 && bytes[3] == 0x07u8,
    ensures
        spec_classify(extension, bytes) matches Some((_, format)) ==> format == StageFormat::Binary,
        stage_from_extension(extension) matches Some(stage) ==> spec_classify(extension, bytes)
            == Some((stage, StageFormat::Binary)),
        stage_from_extension(extension) is None ==> spec_classify(extension, bytes) == match entry_stage_from(le_words(bytes), 5) {
            Some(stage) => Some((stage, StageFormat::Binary)),
            None => None,
        },
{
    lemma_disasm_header_bytes();
    assert(bytes.take(4) =~= spirv_magic_le());
    if bytes.len() >= 8 && bytes.take(8) == disasm_header_bytes() {
        assert(bytes.take(8)[0] == bytes[0]);
        assert(disasm_header_bytes()[0] == 0x3bu8);
    }
}

/// Any other file is source: it is classified exactly when its extension
/// names a stage, and then as source of that stage.
pub proof fn lemma_other_content_is_source(extension: Option<Seq<char>>, bytes: Seq<u8>)
    requires
        !(bytes.len() >= 8 && bytes.take(8) == disasm_header_bytes()),
        !(bytes.len() >= 4 && bytes[0] == 0x03u8 && bytes[1] == 0x02u8 && bytes[2] == 0x23u8
            && bytes[3] == 0x07u8),
    ensures
        spec_classify(extension, bytes) == match stage_from_extension(extension) {
            Some(stage) => Some((stage, StageFormat::Source)),
            None => None,
        },
{
    lemma_disasm_header_bytes();
    if is_prefix(spirv_magic_le(), bytes) {
        assert(bytes.take(4)[0] == bytes[0]);
        assert(bytes.take(4)[1] == bytes[1]);
        assert(bytes.take(4)[2] == bytes[2]);
        assert(bytes.take(4)[3] == bytes[3]);
    }
}

/// `e` spells the lower-case ASCII word `word` in any letter case: each
/// character is the word's letter or its capital.
pub open spec fn spells_in_any_case(e: Seq<char>, word: Seq<char>) -> bool {
    e.len() == word.len() && forall|i: int|
        0 <= i < e.len() ==> e[i] == word[i] || ('A' <= e[i] <= 'Z' && e[i] as u32 + 32
            == word[i] as u32)
}

proof fn lemma_lowercases_to_word(e: Seq<char>, word: Seq<char>)
    requires
        forall|i: int| 0 <= i < word.len() ==> 'a' <= #[trigger] word[i] <= 'z',
    ensures
        lowercases_to(e, word) <==> spells_in_any_case(e, word),
{
    if spells_in_any_case(e, word) {
        assert forall|i: int| 0 <= i < e.len() implies lowers_to(e[i], word[i]) by {
            assert('a' <= word[i] <= 'z');
            if e[i] == word[i] {
                assert(!('A' <= e[i] <= 'Z'));
            }
        }
    }
    if lowercases_to(e, word) {
        assert forall|i: int| 0 <= i < e.len() implies e[i] == word[i] || ('A' <= e[i] <= 'Z'
            && e[i] as u32 + 32 == word[i] as u32) by {
            assert(lowers_to(e[i], word[i]));
        }
    }
}

/// The extension rule: `vert` or `vs` names the vertex stage and `frag`
/// or `fs` the fragment stage, in any letter case; every other extension,
/// and no extension, names none.
pub proof fn lemma_extension_names_stage(extension: Option<Seq<char>>)
    ensures
        stage_from_extension(extension) == match extension {
            Some(e) => if spells_in_any_case(e, seq!['v', 'e', 'r', 't']) || spells_in_any_case(
                e,
                seq!['v', 's'],
            ) {
                Some(Stage::Vertex)
            } else if spells_in_any_case(e, seq!['f', 'r', 'a', 'g']) || spells_in_any_case(
                e,
                seq!['f', 's'],
            ) {
                Some(Stage::Fragment)
            } else {
                None
            },
            None => None,
        },
{
    reveal_strlit("vert");
    reveal_strlit("vs");
    reveal_strlit("frag");
    reveal_strlit("fs");
    assert("vert"@ =~= seq!['v', 'e', 'r', 't']);
    assert("vs"@ =~= seq!['v', 's']);
    assert("frag"@ =~= seq!['f', 'r', 'a', 'g']);
    assert("fs"@ =~= seq!['f', 's']);
    if let Some(e) = extension {
        lemma_lowercases_to_word(e, seq!['v', 'e', 'r', 't']);
        lemma_lowercases_to_word(e, seq!['v', 's']);
        lemma_lowercases_to_word(e, seq!['f', 'r', 'a', 'g']);
        lemma_lowercases_to_word(e, seq!['f', 's']);
    }
}

/// Stage named by a file extension.
pub fn extension_stage(extension: Option<&str>) -> (stage: Option<Stage>)
    ensures
        stage == stage_from_extension(
            match extension {
                Some(e) => Some(e@),
                None => None,
            },
        ),
{
    match extension {
        Some(e) => {
            let chars = chars_of(e);
            if lowercases_to_word(&chars, "vert") || lowercases_to_word(&chars, "vs") {
                Some(Stage::Vertex)
            } else if lowercases_to_word(&chars, "frag") || lowercases_to_word(&chars, "fs") {
                Some(Stage::Fragment)
            } else {
                None
            }
        },
        None => None,
    }
}

fn magic_le_bytes() -> (m: [u8; 4])
    ensures
        m@ == spirv_magic_le(),
{
    let m: [u8; 4] = [0x03, 0x02, 0x23, 0x07];
    assert(m@ =~= spirv_magic_le());
    m
}

/// Classifies a pair member from its extension and its contents.
pub fn classify_stage(extension: Option<&str>, bytes: &[u8]) -> (classified: Option<
    (Stage, StageFormat),
>)
    ensures
        classified == spec_classify(
            match extension {
                Some(e) => Some(e@),
                None => None,
            },
            bytes@,
        ),
{
    let from_ext = extension_stage(extension);
    proof {
        reveal_strlit("; SPIR-V");
    }
    let magic = magic_le_bytes();
    if bytes_start_with(bytes, ascii_bytes("; SPIR-V")) {
        let stage = match from_ext {
            Some(s) => Some(s),
            None => disasm_stage(bytes),
        };
        match stage {
            Some(s) => Some((s, StageFormat::Disassembly)),
            None => None,
        }
    } else if bytes_start_with(bytes, &magic) {
        let stage = match from_ext {
            Some(s) => Some(s),
            None => binary_stage(bytes),
        };
        match stage {
            Some(s) => Some((s, StageFormat::Binary)),
            None => None,
        }
    } else {
        match from_ext {
            Some(s) => Some((s, StageFormat::Source)),
            None => None,
        }
    }
}

/// A Shadertoy-style export: text (neither a `spirv-dis` dump nor a SPIR-V
/// binary) that calls `mainImage(` and has no `[shader(` attributes.
pub open spec fn spec_is_shadertoy(bytes: Seq<u8>) -> bool {
    !is_prefix(disasm_header(), bytes) && !is_prefix(spirv_magic_le(), bytes) && contains(
        bytes,
        ascii("mainImage("@),
    ) && !contains(bytes, ascii("[shader("@))
}

/// True when the module is a Shadertoy-style export rather than a slangc
/// module: text GLSL defining `mainImage`, with no `[shader(...)]`
/// attributes of its own. SPIR-V inputs are never text and never wrapped.
pub fn is_shadertoy(bytes: &[u8]) -> (r: bool)
    ensures
        r == spec_is_shadertoy(bytes@),
{
    proof {
        reveal_strlit("; SPIR-V");
        reveal_strlit("mainImage(");
        reveal_strlit("[shader(");
    }
    let magic = magic_le_bytes();
    if bytes_start_with(bytes, ascii_bytes("; SPIR-V")) || bytes_start_with(bytes, &magic) {
        return false;
    }
    bytes_contain(bytes, ascii_bytes("mainImage(")) && !bytes_contain(bytes, ascii_bytes("[shader("))
}

} // verus!
