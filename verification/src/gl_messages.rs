//! What the renderer makes of OpenGL's debug messages, and which shader stage a
//! source file holds.
use crate::mesh::{ends_with, has_suffix};
use vstd::prelude::*;

verus! {

/// Message ids that carry no useful information and are not reported.
pub open spec fn is_ignored_spec(id: u32) -> bool {
    id == 131169 || id == 131185 || id == 131218 || id == 131204
}

/// Whether a debug message with this id is left unreported.
pub fn is_ignored_message(id: u32) -> (r: bool)
    ensures
        r == is_ignored_spec(id),
        r <==> set![131169u32, 131185u32, 131218u32, 131204u32].contains(id),
{
    id == 131169 || id == 131185 || id == 131218 || id == 131204
}

/// The report line for a message's source (`GL_DEBUG_SOURCE_*`).
pub open spec fn source_label_spec(source: u32) -> Seq<char> {
    if source == 0x8246 {
        "Source: API"@
    } else if source == 0x8247 {
        "Source: Window System"@
    } else if source == 0x8248 {
        "Source: Shader Compiler"@
    } else if source == 0x8249 {
        "Source: Third Party"@
    } else if source == 0x824A {
        "Source: Application"@
    } else if source == 0x824B {
        "Source: Other"@
    } else {
        "Source: Unknown"@
    }
}

/// The report line for a message's source.
pub fn source_label(source: u32) -> (r: &'static str)
    ensures
        r@ == source_label_spec(source),
{
    if source == 0x8246 {
        "Source: API"
    } else if source == 0x8247 {
        "Source: Window System"
    } else if source == 0x8248 {
        "Source: Shader Compiler"
    } else if source == 0x8249 {
        "Source: Third Party"
    } else if source == 0x824A {
        "Source: Application"
    } else if source == 0x824B {
        "Source: Other"
    } else {
        "Source: Unknown"
    }
}

/// The report line for a message's type (`GL_DEBUG_TYPE_*`).
pub open spec fn type_label_spec(gltype: u32) -> Seq<char> {
    if gltype == 0x824C {
        "Type: Error"@
    } else if gltype == 0x824D {
        "Type: Deprecated Behaviour"@
    } else if gltype == 0x824E {
        "Type: Undefined Behaviour"@
    } else if gltype == 0x824F {
        "Type: Portability"@
    } else if gltype == 0x8250 {
        "Type: Performance"@
    } else if gltype == 0x8268 {
        "Type: Marker"@
    } else if gltype == 0x8269 {
        "Type: Push Group"@
    } else if gltype == 0x826A {
        "Type: Pop Group"@
    } else if gltype == 0x8251 {
        "Type: Other"@
    } else {
        "Type: Unknown"@
    }
}

/// The report line for a message's type.
pub fn type_label(gltype: u32) -> (r: &'static str)
    ensures
        r@ == type_label_spec(gltype),
{
    if gltype == 0x824C {
        "Type: Error"
    } else if gltype == 0x824D {
        "Type: Deprecated Behaviour"
    } else if gltype == 0x824E {
        "Type: Undefined Behaviour"
    } else if gltype == 0x824F {
        "Type: Portability"
    } else if gltype == 0x8250 {
        "Type: Performance"
    } else if gltype == 0x8268 {
        "Type: Marker"
    } else if gltype == 0x8269 {
        "Type: Push Group"
    } else if gltype == 0x826A {
        "Type: Pop Group"
    } else if gltype == 0x8251 {
        "Type: Other"
    } else {
        "Type: Unknown"
    }
}

/// The report line for a message's severity (`GL_DEBUG_SEVERITY_*`).
pub open spec fn severity_label_spec(severity: u32) -> Seq<char> {
    if severity == 0x9146 {
        "Severity: high"@
    } else if severity == 0x9147 {
        "Severity: medium"@
    } else if severity == 0x9148 {
        "Severity: low"@
    } else if severity == 0x826B {
        "Severity: notification"@
    } else {
        "Severity: unknown"@
    }
}

/// The report line for a message's severity.
pub fn severity_label(severity: u32) -> (r: &'static str)
    ensures
        r@ == severity_label_spec(severity),
{
    if severity == 0x9146 {
        "Severity: high"
    } else if severity == 0x9147 {
        "Severity: medium"
    } else if severity == 0x9148 {
        "Severity: low"
    } else if severity == 0x826B {
        "Severity: notification"
    } else {
        "Severity: unknown"
    }
}

/// The stage of a shader source file.
#[derive(PartialEq, Eq, Structural, Debug, Clone, Copy)]
pub enum ShaderKind {
    Vertex,
    Fragment,
}

/// The stage that a shader path names by its extension: `.vert` or `.frag`.
pub open spec fn shader_kind_spec(path: Seq<u8>) -> Option<ShaderKind> {
    if ends_with(path, seq![46u8, 118u8, 101u8, 114u8, 116u8]) {
        Some(ShaderKind::Vertex)
    } else if ends_with(path, seq![46u8, 102u8, 114u8, 97u8, 103u8]) {
        Some(ShaderKind::Fragment)
    } else {
        None
    }
}

/// The stage of the shader at `path` (its bytes), by extension; `None` for any other
/// extension.
pub fn shader_kind(path: &[u8]) -> (r: Option<ShaderKind>)
    ensures
        r == shader_kind_spec(path@),
{
    let vert: [u8; 5] = [46u8, 118u8, 101u8, 114u8, 116u8];
    let frag: [u8; 5] = [46u8, 102u8, 114u8, 97u8, 103u8];
    proof {
        assert(vert@ =~= seq![46u8, 118u8, 101u8, 114u8, 116u8]);
        assert(frag@ =~= seq![46u8, 102u8, 114u8, 97u8, 103u8]);
    }
    if has_suffix(path, &vert) {
        Some(ShaderKind::Vertex)
    } else if has_suffix(path, &frag) {
        Some(ShaderKind::Fragment)
    } else {
        None
    }
}


/// Exactly the ids 131169, 131185, 131218 and 131204 go unreported.
pub proof fn lemma_ignored_ids(id: u32)
    ensures
        is_ignored_spec(id) <==> set![131169u32, 131185u32, 131218u32, 131204u32].contains(id),
{
}

/// Each source code has its own line, and every other code reads as unknown.
pub proof fn lemma_source_labels(source: u32)
    ensures
        (source_label_spec(source) == "Source: API"@) <==> source == 0x8246,
        (source_label_spec(source) == "Source: Window System"@) <==> source == 0x8247,
        (source_label_spec(source) == "Source: Shader Compiler"@) <==> source == 0x8248,
        (source_label_spec(source) == "Source: Third Party"@) <==> source == 0x8249,
        (source_label_spec(source) == "Source: Application"@) <==> source == 0x824A,
        (source_label_spec(source) == "Source: Other"@) <==> source == 0x824B,
        (source_label_spec(source) == "Source: Unknown"@) <==> !(source == 0x8246 || source == 0x8247 || source == 0x8248 || source == 0x8249 || source == 0x824A || source == 0x824B),
{
    reveal_strlit("Source: API");
    reveal_strlit("Source: Window System");
    reveal_strlit("Source: Shader Compiler");
    reveal_strlit("Source: Third Party");
    reveal_strlit("Source: Application");
    reveal_strlit("Source: Other");
    reveal_strlit("Source: Unknown");
    assert("Source: API"@.len() != "Source: Window System"@.len());
    assert("Source: API"@.len() != "Source: Shader Compiler"@.len());
    assert("Source: API"@.len() != "Source: Third Party"@.len());
    assert("Source: API"@.len() != "Source: Application"@.len());
    assert("Source: API"@.len() != "Source: Other"@.len());
    assert("Source: API"@.len() != "Source: Unknown"@.len());
    assert("Source: Window System"@.len() != "Source: Shader Compiler"@.len());
    assert("Source: Window System"@.len() != "Source: Third Party"@.len());
    assert("Source: Window System"@.len() != "Source: Application"@.len());
    assert("Source: Window System"@.len() != "Source: Other"@.len());
    assert("Source: Window System"@.len() != "Source: Unknown"@.len());
    assert("Source: Shader Compiler"@.len() != "Source: Third Party"@.len());
    assert("Source: Shader Compiler"@.len() != "Source: Application"@.len());
    assert("Source: Shader Compiler"@.len() != "Source: Other"@.len());
    assert("Source: Shader Compiler"@.len() != "Source: Unknown"@.len());
    assert("Source: Third Party"@[8] != "Source: Application"@[8]);
    assert("Source: Third Party"@.len() != "Source: Other"@.len());
    assert("Source: Third Party"@.len() != "Source: Unknown"@.len());
    assert("Source: Application"@.len() != "Source: Other"@.len());
    assert("Source: Application"@.len() != "Source: Unknown"@.len());
    assert("Source: Other"@.len() != "Source: Unknown"@.len());
}

/// Each type code has its own line, and every other code reads as unknown.
pub proof fn lemma_type_labels(gltype: u32)
    ensures
        (type_label_spec(gltype) == "Type: Error"@) <==> gltype == 0x824C,
        (type_label_spec(gltype) == "Type: Deprecated Behaviour"@) <==> gltype == 0x824D,
        (type_label_spec(gltype) == "Type: Undefined Behaviour"@) <==> gltype == 0x824E,
        (type_label_spec(gltype) == "Type: Portability"@) <==> gltype == 0x824F,
        (type_label_spec(gltype) == "Type: Performance"@) <==> gltype == 0x8250,
        (type_label_spec(gltype) == "Type: Marker"@) <==> gltype == 0x8268,
        (type_label_spec(gltype) == "Type: Push Group"@) <==> gltype == 0x8269,
        (type_label_spec(gltype) == "Type: Pop Group"@) <==> gltype == 0x826A,
        (type_label_spec(gltype) == "Type: Other"@) <==> gltype == 0x8251,
        (type_label_spec(gltype) == "Type: Unknown"@) <==> !(gltype == 0x824C || gltype == 0x824D || gltype == 0x824E || gltype == 0x824F || gltype == 0x8250 || gltype == 0x8268 || gltype == 0x8269 || gltype == 0x826A || gltype == 0x8251),
{
    reveal_strlit("Type: Error");
    reveal_strlit("Type: Deprecated Behaviour");
    reveal_strlit("Type: Undefined Behaviour");
    reveal_strlit("Type: Portability");
    reveal_strlit("Type: Performance");
    reveal_strlit("Type: Marker");
    reveal_strlit("Type: Push Group");
    reveal_strlit("Type: Pop Group");
    reveal_strlit("Type: Other");
    reveal_strlit("Type: Unknown");
    assert("Type: Error"@.len() != "Type: Deprecated Behaviour"@.len());
    assert("Type: Error"@.len() != "Type: Undefined Behaviour"@.len());
    assert("Type: Error"@.len() != "Type: Portability"@.len());
    assert("Type: Error"@.len() != "Type: Performance"@.len());
    assert("Type: Error"@.len() != "Type: Marker"@.len());
    assert("Type: Error"@.len() != "Type: Push Group"@.len());
    assert("Type: Error"@.len() != "Type: Pop Group"@.len());
    assert("Type: Error"@[6] != "Type: Other"@[6]);
    assert("Type: Error"@.len() != "Type: Unknown"@.len());
    assert("Type: Deprecated Behaviour"@.len() != "Type: Undefined Behaviour"@.len());
    assert("Type: Deprecated Behaviour"@.len() != "Type: Portability"@.len());
    assert("Type: Deprecated Behaviour"@.len() != "Type: Performance"@.len());
    assert("Type: Deprecated Behaviour"@.len() != "Type: Marker"@.len());
    assert("Type: Deprecated Behaviour"@.len() != "Type: Push Group"@.len());
    assert("Type: Deprecated Behaviour"@.len() != "Type: Pop Group"@.len());
    assert("Type: Deprecated Behaviour"@.len() != "Type: Other"@.len());
    assert("Type: Deprecated Behaviour"@.len() != "Type: Unknown"@.len());
    assert("Type: Undefined Behaviour"@.len() != "Type: Portability"@.len());
    assert("Type: Undefined Behaviour"@.len() != "Type: Performance"@.len());
    assert("Type: Undefined Behaviour"@.len() != "Type: Marker"@.len());
    assert("Type: Undefined Behaviour"@.len() != "Type: Push Group"@.len());
    assert("Type: Undefined Behaviour"@.len() != "Type: Pop Group"@.len());
    assert("Type: Undefined Behaviour"@.len() != "Type: Other"@.len());
    assert("Type: Undefined Behaviour"@.len() != "Type: Unknown"@.len());
    assert("Type: Portability"@[7] != "Type: Performance"@[7]);
    assert("Type: Portability"@.len() != "Type: Marker"@.len());
    assert("Type: Portability"@.len() != "Type: Push Group"@.len());
    assert("Type: Portability"@.len() != "Type: Pop Group"@.len());
    assert("Type: Portability"@.len() != "Type: Other"@.len());
    assert("Type: Portability"@.len() != "Type: Unknown"@.len());
    assert("Type: Performance"@.len() != "Type: Marker"@.len());
    assert("Type: Performance"@.len() != "Type: Push Group"@.len());
    assert("Type: Performance"@.len() != "Type: Pop Group"@.len());
    assert("Type: Performance"@.len() != "Type: Other"@.len());
    assert("Type: Performance"@.len() != "Type: Unknown"@.len());
    assert("Type: Marker"@.len() != "Type: Push Group"@.len());
    assert("Type: Marker"@.len() != "Type: Pop Group"@.len());
    assert("Type: Marker"@.len() != "Type: Other"@.len());
    assert("Type: Marker"@.len() != "Type: Unknown"@.len());
    assert("Type: Push Group"@.len() != "Type: Pop Group"@.len());
    assert("Type: Push Group"@.len() != "Type: Other"@.len());
    assert("Type: Push Group"@.len() != "Type: Unknown"@.len());
    assert("Type: Pop Group"@.len() != "Type: Other"@.len());
    assert("Type: Pop Group"@.len() != "Type: Unknown"@.len());
    assert("Type: Other"@.len() != "Type: Unknown"@.len());
}

/// Each severity code has its own line, and every other code reads as unknown.
pub proof fn lemma_severity_labels(severity: u32)
    ensures
        (severity_label_spec(severity) == "Severity: high"@) <==> severity == 0x9146,
        (severity_label_spec(severity) == "Severity: medium"@) <==> severity == 0x9147,
        (severity_label_spec(severity) == "Severity: low"@) <==> severity == 0x9148,
        (severity_label_spec(severity) == "Severity: notification"@) <==> severity == 0x826B,
        (severity_label_spec(severity) == "Severity: unknown"@) <==> !(severity == 0x9146 || severity == 0x9147 || severity == 0x9148 || severity == 0x826B),
{
    reveal_strlit("Severity: high");
    reveal_strlit("Severity: medium");
    reveal_strlit("Severity: low");
    reveal_strlit("Severity: notification");
    reveal_strlit("Severity: unknown");
    assert("Severity: high"@.len() != "Severity: medium"@.len());
    assert("Severity: high"@.len() != "Severity: low"@.len());
    assert("Severity: high"@.len() != "Severity: notification"@.len());
    assert("Severity: high"@.len() != "Severity: unknown"@.len());
    assert("Severity: medium"@.len() != "Severity: low"@.len());
    assert("Severity: medium"@.len() != "Severity: notification"@.len());
    assert("Severity: medium"@.len() != "Severity: unknown"@.len());
    assert("Severity: low"@.len() != "Severity: notification"@.len());
    assert("Severity: low"@.len() != "Severity: unknown"@.len());
    assert("Severity: notification"@.len() != "Severity: unknown"@.len());
}

/// A path ending in `.vert` holds a vertex shader and one ending in `.frag` a fragment
/// shader; any other path names no stage.
pub proof fn lemma_shader_kinds(stem: Seq<u8>, path: Seq<u8>)
    ensures
        shader_kind_spec(stem + seq![46u8, 118u8, 101u8, 114u8, 116u8]) == Some(ShaderKind::Vertex),
        shader_kind_spec(stem + seq![46u8, 102u8, 114u8, 97u8, 103u8]) == Some(ShaderKind::Fragment),
        (forall|s: Seq<u8>| path != s + seq![46u8, 118u8, 101u8, 114u8, 116u8] && path != s + seq![46u8, 102u8, 114u8, 97u8, 103u8])
            ==> shader_kind_spec(path) is None,
{
    let v = stem + seq![46u8, 118u8, 101u8, 114u8, 116u8];
    let f = stem + seq![46u8, 102u8, 114u8, 97u8, 103u8];
    assert(v.skip(v.len() - 5) =~= seq![46u8, 118u8, 101u8, 114u8, 116u8]);
    assert(f.skip(f.len() - 5) =~= seq![46u8, 102u8, 114u8, 97u8, 103u8]);
    assert(f.skip(f.len() - 5) != seq![46u8, 118u8, 101u8, 114u8, 116u8]) by {
        assert(f.skip(f.len() - 5)[1] == 102u8);
    }
    if path.len() >= 5 {
        let s = path.take(path.len() - 5);
        assert(path =~= s + path.skip(path.len() - 5));
    }
}

} // verus!
