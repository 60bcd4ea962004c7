//! The single error sum of the scaffolder.
//!
//! Lower layers convert their native failures into one of these kinds at
//! the boundary; nothing is recovered locally, every error travels up to
//! the entry point.

use vstd::prelude::*;

verus! {

/// Everything that can go wrong while scaffolding a project.
#[derive(Debug, PartialEq, Eq, Structural)]
pub enum CreateCliError {
    /// The embedded catalog document is malformed or holds an unknown field.
    CatalogLoad,
    /// An embedded template is not well formed.
    TemplateParse,
    /// Rendering failed: unknown template name or a field the template
    /// references is absent from the metadata.
    TemplateRender,
    /// A filesystem or terminal failure reported by the surrounding program.
    Io,
}

impl CreateCliError {
    /// A short diagnostic line for the user.
    pub fn describe(&self) -> (r: &'static str)
        ensures
            r@ == self.spec_describe(),
    {
        match self {
            CreateCliError::CatalogLoad => "the embedded library catalog is malformed",
            CreateCliError::TemplateParse => "an embedded template failed to parse",
            CreateCliError::TemplateRender => "a template could not be rendered",
            CreateCliError::Io => "an input/output operation failed",
        }
    }

    /// What `describe` returns for each kind.
    pub open spec fn spec_describe(self) -> Seq<char> {
        match self {
            CreateCliError::CatalogLoad => "the embedded library catalog is malformed"@,
            CreateCliError::TemplateParse => "an embedded template failed to parse"@,
            CreateCliError::TemplateRender => "a template could not be rendered"@,
            CreateCliError::Io => "an input/output operation failed"@,
        }
    }
}

} // verus!
