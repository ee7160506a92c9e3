//! The configuration of a compile request: shader stage, target environment,
//! file name and entry point, checked before any compilation is attempted.
use crate::annotated_disassembly::AnnotatedDisassembly;
use vstd::prelude::*;

verus! {

/// The pipeline stage a shader is compiled for.
#[derive(PartialEq, Eq, Structural, Clone, Copy, Debug)]
pub enum ShaderStage {
    Vertex,
    Fragment,
    Geometry,
    TessControl,
    TessEvaluation,
    RayGeneration,
    AnyHit,
    ClosestHit,
    Miss,
    Intersection,
    Callable,
    Compute,
    Task,
    Mesh,
}

/// The environment the compiled module targets.
#[derive(PartialEq, Eq, Structural, Clone, Copy, Debug)]
pub enum TargetEnvironment {
    /// GLSL source for Vulkan 1.2.
    Vulkan,
    /// GLSL source for OpenGL 4.5, with locations and uniform bindings
    /// assigned automatically.
    OpenGL,
    /// HLSL source.
    Hlsl,
}

/// The options of a compile request, as the caller gives them.
pub struct CompileShaderOptions {
    pub file_name: Option<String>,
    pub target_env: Option<String>,
    pub limit_result_name_length: Option<usize>,
    pub entry_point: Option<String>,
}

/// A checked compile request: what the compiler is called with.
pub struct CompilePlan {
    pub stage: ShaderStage,
    pub target: TargetEnvironment,
    pub file_name: String,
    pub entry_point: String,
}

/// The outcome of a compile request.
pub enum Compilation {
    Success { assembly: AnnotatedDisassembly, warning: String },
    Failure { error: String },
}

pub open spec fn shader_stage_of(s: Seq<char>) -> Option<ShaderStage> {
    if s == "Vertex"@ {
        Some(ShaderStage::Vertex)
    } else if s == "Fragment"@ {
        Some(ShaderStage::Fragment)
    } else if s == "Geometry"@ {
        Some(ShaderStage::Geometry)
    } else if s == "TesselationControl"@ {
        Some(ShaderStage::TessControl)
    } else if s == "TesselationEvaluation"@ {
        Some(ShaderStage::TessEvaluation)
    } else if s == "RayGeneration"@ {
        Some(ShaderStage::RayGeneration)
    } else if s == "AnyHit"@ {
        Some(ShaderStage::AnyHit)
    } else if s == "ClosestHit"@ {
        Some(ShaderStage::ClosestHit)
    } else if s == "Miss"@ {
        Some(ShaderStage::Miss)
    } else if s == "Intersection"@ {
        Some(ShaderStage::Intersection)
    } else if s == "Callable"@ {
        Some(ShaderStage::Callable)
    } else if s == "Compute"@ {
        Some(ShaderStage::Compute)
    } else if s == "Task"@ {
        Some(ShaderStage::Task)
    } else if s == "Mesh"@ {
        Some(ShaderStage::Mesh)
    } else {
        None
    }
}

pub open spec fn target_environment_of(s: Seq<char>) -> Option<TargetEnvironment> {
    if s == "Vulkan"@ {
        Some(TargetEnvironment::Vulkan)
    } else if s == "OpenGL"@ {
        Some(TargetEnvironment::OpenGL)
    } else if s == "HLSL"@ {
        Some(TargetEnvironment::Hlsl)
    } else {
        None
    }
}

/// The target named in the options; Vulkan where none is named.
pub open spec fn requested_target(options: CompileShaderOptions) -> Seq<char> {
    match options.target_env {
        Some(t) => t@,
        None => "Vulkan"@,
    }
}

/// The whole decision on a compile request.
pub open spec fn plan_of(shader_kind: Seq<char>, options: CompileShaderOptions) -> Result<
    (ShaderStage, TargetEnvironment, Seq<char>, Seq<char>),
    Seq<char>,
> {
    match shader_stage_of(shader_kind) {
        None => Err("Unknown shader kind "@ + shader_kind),
        Some(stage) => match target_environment_of(requested_target(options)) {
            None => Err("Unknown target environment: "@ + requested_target(options)),
            Some(target) => {
                let hlsl = target == TargetEnvironment::Hlsl;
                let file_name = match options.file_name {
                    Some(f) => f@,
                    None => if hlsl {
                        "shader.hlsl"@
                    } else {
                        "shader.glsl"@
                    },
                };
                let entry_point = match options.entry_point {
                    Some(e) => if hlsl {
                        e@
                    } else {
                        "main"@
                    },
                    None => "main"@,
                };
                Ok((stage, target, file_name, entry_point))
            },
        },
    }
}

/// Whether two strings hold the same characters.
pub fn str_equal(a: &str, b: &str) -> (r: bool)
    ensures
        r == (a@ == b@),
{
    let n = a.unicode_len();
    if n != b.unicode_len() {
        return false;
    }
    let mut i: usize = 0;
    while i < n
        invariant
            n == a@.len(),
            n == b@.len(),
            i <= n,
            forall|j: int| 0 <= j < i ==> a@[j] == b@[j],
        decreases n - i,
    {
        if a.get_char(i) != b.get_char(i) {
            return false;
        }
        i = i + 1;
    }
    assert(a@ =~= b@);
    true
}

/// The stage that a shader kind names, if any.
pub fn parse_shader_kind(s: &str) -> (r: Option<ShaderStage>)
    ensures
        r == shader_stage_of(s@),
{
    if str_equal(s, "Vertex") {
        Some(ShaderStage::Vertex)
    } else if str_equal(s, "Fragment") {
        Some(ShaderStage::Fragment)
    } else if str_equal(s, "Geometry") {
        Some(ShaderStage::Geometry)
    } else if str_equal(s, "TesselationControl") {
        Some(ShaderStage::TessControl)
    } else if str_equal(s, "TesselationEvaluation") {
        Some(ShaderStage::TessEvaluation)
    } else if str_equal(s, "RayGeneration") {
        Some(ShaderStage::RayGeneration)
    } else if str_equal(s, "AnyHit") {
        Some(ShaderStage::AnyHit)
    } else if str_equal(s, "ClosestHit") {
        Some(ShaderStage::ClosestHit)
    } else if str_equal(s, "Miss") {
        Some(ShaderStage::Miss)
    } else if str_equal(s, "Intersection") {
        Some(ShaderStage::Intersection)
    } else if str_equal(s, "Callable") {
        Some(ShaderStage::Callable)
    } else if str_equal(s, "Compute") {
        Some(ShaderStage::Compute)
    } else if str_equal(s, "Task") {
        Some(ShaderStage::Task)
    } else if str_equal(s, "Mesh") {
        Some(ShaderStage::Mesh)
    } else {
        None
    }
}

/// The target environment that a name denotes, if any.
pub fn parse_target_environment(s: &str) -> (r: Option<TargetEnvironment>)
    ensures
        r == target_environment_of(s@),
{
    if str_equal(s, "Vulkan") {
        Some(TargetEnvironment::Vulkan)
    } else if str_equal(s, "OpenGL") {
        Some(TargetEnvironment::OpenGL)
    } else if str_equal(s, "HLSL") {
        Some(TargetEnvironment::Hlsl)
    } else {
        None
    }
}

/// Checks a compile request and settles what the compiler is called with:
/// an unknown shader kind or target environment is a configuration error,
/// reported as a message; the file name defaults by source language, and the
/// entry point given is used for HLSL only, `main` otherwise.
pub fn plan_compilation(shader_kind: &str, options: &CompileShaderOptions) -> (r: Result<
    CompilePlan,
    String,
>)
    ensures
        match plan_of(shader_kind@, *options) {
            Ok((stage, target, file_name, entry_point)) => r is Ok && r->Ok_0.stage == stage
                && r->Ok_0.target == target && r->Ok_0.file_name@ == file_name
                && r->Ok_0.entry_point@ == entry_point,
            Err(e) => r is Err && r->Err_0@ == e,
        },
{
    let stage = match parse_shader_kind(shader_kind) {
        Some(stage) => stage,
        None => {
            let mut e = String::from_str("Unknown shader kind ");
            e.append(shader_kind);
            return Err(e);
        },
    };
    let requested = match &options.target_env {
        Some(t) => t.clone(),
        None => String::from_str("Vulkan"),
    };
    let target = match parse_target_environment(requested.as_str()) {
        Some(target) => target,
        None => {
            let mut e = String::from_str("Unknown target environment: ");
            e.append(requested.as_str());
            return Err(e);
        },
    };
    let hlsl = target == TargetEnvironment::Hlsl;
    let file_name = match &options.file_name {
        Some(f) => f.clone(),
        None => if hlsl {
            String::from_str("shader.hlsl")
        } else {
            String::from_str("shader.glsl")
        },
    };
    let entry_point = match &options.entry_point {
        Some(e) => if hlsl {
            e.clone()
        } else {
            String::from_str("main")
        },
        None => String::from_str("main"),
    };
    Ok(CompilePlan { stage, target, file_name, entry_point })
}

} // verus!
