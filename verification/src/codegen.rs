//! The offline source-generation pass.
//!
//! Runs once per host-type set, never per tick: it turns generated binding
//! descriptors into one bridge module source text per crate. Writing the text
//! to disk is the caller's business; this module only computes it.

use vstd::prelude::*;
use vstd::string::StringExecFns;
use crate::bindings::LuaMethod;

verus! {

/// The kinds of output the generation pass renders, each from one template.
#[derive(Debug, Clone, Copy, PartialEq, Eq, Structural)]
pub enum TemplateKind {
    /// The per-crate bridge module artifact.
    CrateArtifact,
}

impl TemplateKind {
    /// The template file each kind renders from.
    pub open spec fn template_file_spec(&self) -> Seq<char> {
        match self {
            TemplateKind::CrateArtifact => "crate.tera"@,
        }
    }

    /// Executable form of `template_file_spec`.
    pub fn template_file(&self) -> (r: &'static str)
        ensures
            r@ == self.template_file_spec(),
    {
        match self {
            TemplateKind::CrateArtifact => "crate.tera",
        }
    }

    /// Every template kind's file name, in declaration order.
    pub fn variants() -> (r: Vec<&'static str>)
        ensures
            r@.len() == 1,
            r@[0]@ == TemplateKind::CrateArtifact.template_file_spec(),
    {
        let mut v: Vec<&'static str> = Vec::new();
        v.push(TemplateKind::CrateArtifact.template_file());
        v
    }
}

/// The template files shipped with the generation pass.
pub fn template_files() -> (r: Vec<&'static str>)
    ensures
        r@.len() == 1,
        r@[0]@ == "crate.tera"@,
    {
    let mut v: Vec<&'static str> = Vec::new();
    v.push("crate.tera");
    v
}

/// The rendered module's header line.
pub open spec fn render_header(crate_name: Seq<char>) -> Seq<char> {
    "// bridge bindings for "@ + crate_name + "\n"@
}

/// The registration line one emitted method renders to.
pub open spec fn method_line(m: LuaMethod) -> Seq<char> {
    "register(\""@ + m.metamethod@ + "\")\n"@
}

/// The registration lines of the first `n` methods, in order.
pub open spec fn render_lines(methods: Seq<LuaMethod>, n: int) -> Seq<char>
    decreases n,
{
    if n <= 0 {
        Seq::empty()
    } else {
        render_lines(methods, n - 1) + method_line(methods[n - 1])
    }
}

/// The whole bridge module text for one crate.
pub open spec fn render_spec(crate_name: Seq<char>, methods: Seq<LuaMethod>) -> Seq<char> {
    render_header(crate_name) + render_lines(methods, methods.len() as int)
}

/// Generates the bridge module for one crate: the artifact's file name and its
/// full source text, assembled from the crate name and the emitted methods.
#[verifier::loop_isolation(false)]
pub fn codegen(crate_name: &str, methods: &Vec<LuaMethod>) -> (r: (String, String))
    ensures
        r.0@ == crate_name@ + ".rs"@,
        r.1@ == render_spec(crate_name@, methods@),
{
    let mut file_name = crate_name.to_owned();
    file_name.append(".rs");
    let mut out = String::new();
    out.append("// bridge bindings for ");
    out.append(crate_name);
    out.append("\n");
    proof {
        assert(out@ =~= render_header(crate_name@));
    }
    let n = methods.len();
    let mut j: usize = 0;
    while j < n
        invariant
            j <= n,
            out@ == render_header(crate_name@) + render_lines(methods@, j as int),
        decreases n - j,
    {
        out.append("register(\"");
        out.append(methods[j].metamethod.as_str());
        out.append("\")\n");
        proof {
            assert(out@ =~= render_header(crate_name@) + render_lines(methods@, j as int + 1));
        }
        j = j + 1;
    }
    proof {
        assert(out@ =~= render_spec(crate_name@, methods@));
    }
    (file_name, out)
}

} // verus!
