//! The template registry: a fixed set of named templates, each with a
//! destination path relative to the chosen output directory, and the
//! interpolation engine that renders them from the collected metadata.
//!
//! A template is plain text in which `{{ field }}` stands for a field
//! of the metadata record. Rendering is a function of the template and
//! the metadata alone, so rendering twice with the same inputs yields
//! byte-identical output.

use vstd::prelude::*;

use crate::errors::CreateCliError;
use crate::generate::{MetaModel, Metadata};
use crate::text::{
    find_from, find_last, first_at, last_at, lemma_first_at, lemma_first_at_is, lemma_last_at,
    starts_with, str_eq,
};

verus! {

/// The embedded manifest template.
pub const CARGO_TOML_TPL: &'static str = "[package]
name = \"{{ name }}\"
description = \"{{ description }}\"
version = \"0.1.0\"
edition = \"2021\"

[dependencies]
{{ lib_argparsing.name }} = \"*\"
";

/// The embedded entry-point template.
pub const MAIN_RS_TPL: &'static str = "//! {{ description }}

fn main() {
    println!(\"Hello from {{ name }}!\");
}
";

/// The fields a template may reference.
pub open spec fn known_var(v: Seq<char>) -> bool {
    ||| v == "name"@
    ||| v == "description"@
    ||| v == "use_defaults"@
    ||| v == "lib_argparsing.name"@
    ||| v == "lib_argparsing.description"@
}

/// The text a field interpolates to, if the metadata can supply it.
pub open spec fn lookup_var(m: MetaModel, v: Seq<char>) -> Option<Seq<char>> {
    if v == "name"@ {
        Some(m.name)
    } else if v == "description"@ {
        Some(m.description)
    } else if v == "use_defaults"@ {
        Some(
            if m.use_defaults {
                "true"@
            } else {
                "false"@
            },
        )
    } else if v == "lib_argparsing.name"@ {
        match m.lib_argparsing {
            Some(l) => Some(l.name),
            None => None,
        }
    } else if v == "lib_argparsing.description"@ {
        match m.lib_argparsing {
            Some(l) => match l.description {
                Some(d) => Some(d),
                None => Some(Seq::empty()),
            },
            None => None,
        }
    } else {
        None
    }
}

/// What rendering a template denotes: literal text copied through, each
/// `{{ field }}` replaced by the field's text; `None` on a malformed
/// reference or a field the metadata cannot supply.
pub open spec fn spec_render(t: Seq<char>, m: MetaModel) -> Option<Seq<char>>
    decreases t.len(),
    via spec_render_dec
{
    if t.len() == 0 {
        Some(Seq::empty())
    } else if t.len() >= 2 && t[0] == '{' && t[1] == '{' {
        let j = first_at(t, '}');
        if j + 1 < t.len() && t[j + 1] == '}' && j >= 4 && t[2] == ' ' && t[j - 1] == ' ' {
            match lookup_var(m, t.subrange(3, j - 1)) {
                Some(val) => match spec_render(t.skip(j + 2), m) {
                    Some(rest) => Some(val + rest),
                    None => None,
                },
                None => None,
            }
        } else {
            None
        }
    } else {
        match spec_render(t.drop_first(), m) {
            Some(rest) => Some(seq![t[0]] + rest),
            None => None,
        }
    }
}

#[via_fn]
proof fn spec_render_dec(t: Seq<char>, m: MetaModel) {
    lemma_first_at(t, '}');
}

/// A template parses: every `{{` is properly closed and every field it
/// references is one the metadata model exposes.
pub open spec fn template_wf(t: Seq<char>) -> bool
    decreases t.len(),
    via template_wf_dec
{
    if t.len() == 0 {
        true
    } else if t.len() >= 2 && t[0] == '{' && t[1] == '{' {
        let j = first_at(t, '}');
        &&& j + 1 < t.len()
        &&& t[j + 1] == '}'
        &&& j >= 4
        &&& t[2] == ' '
        &&& t[j - 1] == ' '
        &&& known_var(t.subrange(3, j - 1))
        &&& template_wf(t.skip(j + 2))
    } else {
        template_wf(t.drop_first())
    }
}

#[via_fn]
proof fn template_wf_dec(t: Seq<char>) {
    lemma_first_at(t, '}');
}

/// Law: a template that parses renders for every metadata record whose
/// argument-parsing choice is present.
pub proof fn lemma_wf_render(t: Seq<char>, m: MetaModel)
    requires
        template_wf(t),
        m.lib_argparsing is Some,
    ensures
        spec_render(t, m) is Some,
    decreases t.len(),
{
    if t.len() == 0 {
    } else if t.len() >= 2 && t[0] == '{' && t[1] == '{' {
        let j = first_at(t, '}');
        lemma_first_at(t, '}');
        lemma_wf_render(t.skip(j + 2), m);
    } else {
        lemma_wf_render(t.drop_first(), m);
    }
}

/// Concatenation of a rendered prefix with the rest of a render.
pub open spec fn opt_concat(a: Seq<char>, b: Option<Seq<char>>) -> Option<Seq<char>> {
    match b {
        Some(x) => Some(a + x),
        None => None,
    }
}

/// Resolve a field reference against the metadata.
fn lookup_field(v: &str, context: &Metadata) -> (r: Option<String>)
    ensures
        match r {
            Some(s) => lookup_var(context@, v@) == Some(s@),
            None => lookup_var(context@, v@) is None,
        },
{
    if str_eq(v, "name") {
        Some(context.name.clone())
    } else if str_eq(v, "description") {
        Some(context.description.clone())
    } else if str_eq(v, "use_defaults") {
        if context.use_defaults {
            Some("true".to_owned())
        } else {
            Some("false".to_owned())
        }
    } else if str_eq(v, "lib_argparsing.name") {
        match &context.lib_argparsing {
            Some(l) => Some(l.name.clone()),
            None => None,
        }
    } else if str_eq(v, "lib_argparsing.description") {
        match &context.lib_argparsing {
            Some(l) => match &l.description {
                Some(d) => Some(d.clone()),
                None => Some(String::new()),
            },
            None => None,
        }
    } else {
        None
    }
}

/// Whether a field reference is one the metadata model exposes.
fn is_known_var(v: &str) -> (r: bool)
    ensures
        r == known_var(v@),
{
    str_eq(v, "name") || str_eq(v, "description") || str_eq(v, "use_defaults") || str_eq(
        v,
        "lib_argparsing.name",
    ) || str_eq(v, "lib_argparsing.description")
}

/// Render a template body against the metadata.
fn render_text(t: &str, context: &Metadata) -> (r: Option<String>)
    ensures
        match r {
            Some(s) => spec_render(t@, context@) == Some(s@),
            None => spec_render(t@, context@) is None,
        },
{
    let n = t.unicode_len();
    let mut out = String::new();
    let mut pos: usize = 0;
    proof {
        assert(t@.skip(0) =~= t@);
    }
    while pos < n
        invariant
            pos <= n,
            n == t@.len(),
            spec_render(t@, context@) == opt_concat(
                out@,
                spec_render(t@.skip(pos as int), context@),
            ),
        decreases n - pos,
    {
        let ghost tail = t@.skip(pos as int);
        let c = t.get_char(pos);
        if c == '{' && pos + 1 < n && t.get_char(pos + 1) == '{' {
            let j = find_from(t, pos, '}');
            proof {
                assert forall|k: int| 0 <= k < j - pos implies tail[k] != '}' by {
                    assert(tail[k] == t@[pos + k]);
                }
                if (j as int) < n as int {
                    assert(tail[j - pos] == t@[j as int]);
                }
                lemma_first_at_is(tail, '}', j as int - pos as int);
            }
            if n - j > 1 && t.get_char(j + 1) == '}' && j - pos >= 4 && t.get_char(pos + 2) == ' '
                && t.get_char(j - 1) == ' ' {
                let var = t.substring_char(pos + 3, j - 1);
                proof {
                    assert(var@ =~= tail.subrange(3, j - pos - 1));
                }
                match lookup_field(var, context) {
                    Some(val) => {
                        proof {
                            assert(tail.skip(j - pos + 2) =~= t@.skip(j as int + 2));
                            let rest = spec_render(t@.skip(j as int + 2), context@);
                            match rest {
                                Some(rs) => {
                                    assert(out@ + (val@ + rs) =~= (out@ + val@) + rs);
                                },
                                None => {},
                            }
                        }
                        out.append(val.as_str());
                        pos = j + 2;
                    },
                    None => {
                        return None;
                    },
                }
            } else {
                return None;
            }
        } else {
            let piece = t.substring_char(pos, pos + 1);
            proof {
                assert(piece@ =~= seq![tail[0]]);
                assert(tail.drop_first() =~= t@.skip(pos as int + 1));
                let rest = spec_render(t@.skip(pos as int + 1), context@);
                match rest {
                    Some(rs) => {
                        assert(out@ + (seq![tail[0]] + rs) =~= (out@ + piece@) + rs);
                    },
                    None => {},
                }
            }
            out.append(piece);
            pos = pos + 1;
        }
    }
    proof {
        assert(t@.skip(n as int) =~= Seq::<char>::empty());
        assert(out@ + Seq::<char>::empty() =~= out@);
    }
    Some(out)
}

/// Check that a template body parses.
fn check_template(t: &str) -> (r: bool)
    ensures
        r == template_wf(t@),
{
    let n = t.unicode_len();
    let mut pos: usize = 0;
    proof {
        assert(t@.skip(0) =~= t@);
    }
    while pos < n
        invariant
            pos <= n,
            n == t@.len(),
            template_wf(t@) == template_wf(t@.skip(pos as int)),
        decreases n - pos,
    {
        let ghost tail = t@.skip(pos as int);
        let c = t.get_char(pos);
        if c == '{' && pos + 1 < n && t.get_char(pos + 1) == '{' {
            let j = find_from(t, pos, '}');
            proof {
                assert forall|k: int| 0 <= k < j - pos implies tail[k] != '}' by {
                    assert(tail[k] == t@[pos + k]);
                }
                if (j as int) < n as int {
                    assert(tail[j - pos] == t@[j as int]);
                }
                lemma_first_at_is(tail, '}', j as int - pos as int);
            }
            if n - j > 1 && t.get_char(j + 1) == '}' && j - pos >= 4 && t.get_char(pos + 2) == ' '
                && t.get_char(j - 1) == ' ' {
                let var = t.substring_char(pos + 3, j - 1);
                proof {
                    assert(var@ =~= tail.subrange(3, j - pos - 1));
                }
                if is_known_var(var) {
                    proof {
                        assert(tail.skip(j - pos + 2) =~= t@.skip(j as int + 2));
                    }
                    pos = j + 2;
                } else {
                    return false;
                }
            } else {
                return false;
            }
        } else {
            proof {
                assert(tail.drop_first() =~= t@.skip(pos as int + 1));
            }
            pos = pos + 1;
        }
    }
    true
}

/// One registered template: logical name, body, destination path
/// relative to the output directory.
pub struct TemplateEntry {
    pub name: String,
    pub body: String,
    pub dest: String,
}

/// The registry. The set is closed at build time: a manifest template
/// and an entry-point template.
pub struct Templating {
    pub entries: Vec<TemplateEntry>,
}

/// A rendered file ready to be written: its full destination path, the
/// directory that must exist for the write, and the rendered text.
pub struct RenderedFile {
    pub path: String,
    pub parent: String,
    pub content: String,
}

/// A path directly under `base`.
pub open spec fn join_path(base: Seq<char>, rel: Seq<char>) -> Seq<char> {
    base + "/"@ + rel
}

/// The directory a rendered file lands in: `base` itself for a bare
/// file name, otherwise `base` plus the relative directory part.
pub open spec fn parent_for(base: Seq<char>, rel: Seq<char>) -> Seq<char> {
    if last_at(rel, '/') < 0 {
        base
    } else {
        join_path(base, rel.take(last_at(rel, '/')))
    }
}

impl Templating {
    /// Registry invariant: exactly the two fixed templates, with their
    /// embedded bodies, both of which parse.
    pub open spec fn wf(&self) -> bool {
        &&& self.entries@.len() == 2
        &&& self.entries@[0].name@ == "Cargo.toml"@
        &&& self.entries@[0].dest@ == "Cargo.toml"@
        &&& self.entries@[0].body@ == CARGO_TOML_TPL@
        &&& self.entries@[1].name@ == "main.rs"@
        &&& self.entries@[1].dest@ == "src/main.rs"@
        &&& self.entries@[1].body@ == MAIN_RS_TPL@
        &&& template_wf(CARGO_TOML_TPL@)
        &&& template_wf(MAIN_RS_TPL@)
    }

    /// The body registered under a name.
    pub open spec fn spec_body_of(&self, name: Seq<char>) -> Option<Seq<char>>
        recommends
            self.wf(),
    {
        if name == "Cargo.toml"@ {
            Some(CARGO_TOML_TPL@)
        } else if name == "main.rs"@ {
            Some(MAIN_RS_TPL@)
        } else {
            None
        }
    }

    /// The destination path registered under a name; always relative.
    pub open spec fn spec_dest_of(&self, name: Seq<char>) -> Option<Seq<char>>
        recommends
            self.wf(),
    {
        if name == "Cargo.toml"@ {
            Some("Cargo.toml"@)
        } else if name == "main.rs"@ {
            Some("src/main.rs"@)
        } else {
            None
        }
    }

    /// What `render` returns: the registered body rendered against the
    /// metadata, or nothing for an unregistered name or a failed render.
    pub open spec fn render_result(&self, name: Seq<char>, m: MetaModel) -> Option<Seq<char>>
        recommends
            self.wf(),
    {
        match self.spec_body_of(name) {
            Some(b) => spec_render(b, m),
            None => None,
        }
    }

    /// Register the fixed template set; fails exactly when an embedded
    /// template does not parse.
    pub fn new() -> (r: Result<Templating, CreateCliError>)
        ensures
            r is Ok <==> template_wf(CARGO_TOML_TPL@) && template_wf(MAIN_RS_TPL@),
            match r {
                Ok(t) => t.wf(),
                Err(e) => e == CreateCliError::TemplateParse,
            },
    {
        if !check_template(CARGO_TOML_TPL) {
            return Err(CreateCliError::TemplateParse);
        }
        if !check_template(MAIN_RS_TPL) {
            return Err(CreateCliError::TemplateParse);
        }
        let mut entries: Vec<TemplateEntry> = Vec::new();
        entries.push(
            TemplateEntry {
                name: "Cargo.toml".to_owned(),
                body: CARGO_TOML_TPL.to_owned(),
                dest: "Cargo.toml".to_owned(),
            },
        );
        entries.push(
            TemplateEntry {
                name: "main.rs".to_owned(),
                body: MAIN_RS_TPL.to_owned(),
                dest: "src/main.rs".to_owned(),
            },
        );
        Ok(Templating { entries })
    }

    /// Render the template registered under `name`.
    pub fn render(&self, name: &str, context: &Metadata) -> (r: Result<String, CreateCliError>)
        requires
            self.wf(),
        ensures
            match r {
                Ok(s) => self.render_result(name@, context@) == Some(s@),
                Err(e) => self.render_result(name@, context@) is None && e
                    == CreateCliError::TemplateRender,
            },
    {
        let body: &String = if str_eq(name, "Cargo.toml") {
            &self.entries[0].body
        } else if str_eq(name, "main.rs") {
            &self.entries[1].body
        } else {
            return Err(CreateCliError::TemplateRender);
        };
        match render_text(body.as_str(), context) {
            Some(s) => Ok(s),
            None => Err(CreateCliError::TemplateRender),
        }
    }

    /// Render a template and resolve where under `base_path` it is to
    /// be written; the combined path always stays under `base_path`.
    pub fn render_to(&self, name: &str, context: &Metadata, base_path: &str) -> (r: Result<
        RenderedFile,
        CreateCliError,
    >)
        requires
            self.wf(),
        ensures
            match r {
                Ok(f) => {
                    &&& self.render_result(name@, context@) == Some(f.content@)
                    &&& self.spec_dest_of(name@) matches Some(dst) && f.path@ == join_path(
                        base_path@,
                        dst,
                    ) && f.parent@ == parent_for(base_path@, dst)
                    &&& starts_with(f.path@, base_path@ + "/"@)
                },
                Err(e) => self.render_result(name@, context@) is None && e
                    == CreateCliError::TemplateRender,
            },
    {
        let content = match self.render(name, context) {
            Ok(s) => s,
            Err(e) => {
                return Err(e);
            },
        };
        let dest: &String = if str_eq(name, "Cargo.toml") {
            &self.entries[0].dest
        } else {
            &self.entries[1].dest
        };
        let mut path = base_path.to_owned();
        path.append("/");
        path.append(dest.as_str());
        proof {
            lemma_last_at(dest@, '/');
        }
        let parent = match find_last(dest.as_str(), '/') {
            None => base_path.to_owned(),
            Some(j) => {
                let mut p = base_path.to_owned();
                p.append("/");
                p.append(dest.as_str().substring_char(0, j));
                p
            },
        };
        proof {
            reveal_strlit("/");
            let dst = dest@;
            assert(path@ =~= join_path(base_path@, dst));
            if last_at(dst, '/') >= 0 {
                assert(dst.subrange(0, last_at(dst, '/')) =~= dst.take(last_at(dst, '/')));
                assert(parent@ =~= parent_for(base_path@, dst));
            }
            assert(path@.subrange(0, base_path@.len() as int + 1) =~= base_path@ + "/"@);
        }
        Ok(RenderedFile { path, parent, content })
    }
}

/// Law: rendering is deterministic — two renders of one template with
/// identical metadata agree byte for byte.
pub proof fn lemma_render_deterministic(
    t: Templating,
    name: Seq<char>,
    m: MetaModel,
    r1: Seq<char>,
    r2: Seq<char>,
)
    requires
        t.render_result(name, m) == Some(r1),
        t.render_result(name, m) == Some(r2),
    ensures
        r1 == r2,
{
}

/// Law: rendering a registered template cannot fail once the metadata
/// holds an argument-parsing choice.
pub proof fn lemma_render_total(t: Templating, name: Seq<char>, m: MetaModel)
    requires
        t.wf(),
        m.lib_argparsing is Some,
        name == "Cargo.toml"@ || name == "main.rs"@,
    ensures
        t.render_result(name, m) is Some,
{
    if name == "Cargo.toml"@ {
        lemma_wf_render(CARGO_TOML_TPL@, m);
    } else {
        lemma_wf_render(MAIN_RS_TPL@, m);
    }
}

} // verus!
