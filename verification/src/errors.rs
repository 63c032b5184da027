use vstd::prelude::*;

verus! {

/// The required configuration fields; a missing or ill-shaped one is named in
/// `BuildError::Config`.
#[derive(Debug, Clone, Copy, PartialEq, Eq, Structural)]
pub enum ConfigField {
    Source,
    Output,
    Theme,
    SiteName,
    SiteAuthor,
    SiteBaseUrl,
    PreviewPort,
    PostsPerPage,
}

/// The build error taxonomy: configuration errors abort before any build
/// stage; discovery and content errors are per-entry and recoverable;
/// path and collision errors are fatal routing-invariant violations;
/// write errors are reported per artifact.
#[derive(Debug, Clone)]
pub enum BuildError {
    /// A required configuration field is absent or of the wrong shape.
    Config(ConfigField),
    /// A filesystem entry could not be traversed or is not a usable path.
    Discovery { path: Vec<String> },
    /// A document's front matter is present but unparseable.
    Content { path: Vec<String> },
    /// A document path is not contained within the source root.
    Path { path: Vec<String> },
    /// Two distinct source paths map to the same output path.
    Collision { first: Vec<String>, second: Vec<String> },
    /// An output artifact could not be written.
    Write { path: Vec<String> },
}

} // verus!
