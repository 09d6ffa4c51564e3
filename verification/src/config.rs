//! The RC file of the command line tool: options, input files and output
//! paths.

use vstd::prelude::*;
use crate::template::Options;

verus! {

/// Where the outputs go; each is written only where a path is given.
pub struct OutputPaths {
    pub css_variables: Option<String>,
    pub css_atoms: Option<String>,
    pub json_atoms: Option<String>,
    pub types: Option<String>,
    pub snippets: Option<String>,
}

/// The contents of the RC file.
pub struct RCFile {
    pub options: Options,
    pub design_tokens: Vec<String>,
    pub templates: Vec<String>,
    pub output: OutputPaths,
}

} // verus!
