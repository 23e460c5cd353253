//! The preprocessing pipeline: imports, then macros, then constant
//! folding, each pass consuming the previous pass's full output.

use vstd::prelude::*;
use crate::imports::{
    FileMap, FileMapV, Resolution, ResolutionV, ImportError, spec_resolve,
};
use crate::macros::{MacroError, MacroErrorV, spec_process_macros, process_macros};
use crate::optimize::{spec_constant_fold, optimize};

verus! {

pub enum PreprocessOutcomeV {
    Done(Seq<char>),
    Needs(Seq<char>),
    ImportFailed(crate::imports::ImportErrorV),
    MacroFailed(MacroErrorV),
}

/// Outcome of one pipeline run over one source text.
#[derive(Debug)]
pub enum PreprocessOutcome {
    /// The fully resolved, expanded and folded text.
    Done(String),
    /// A path the caller must load into the file map before retrying.
    Needs(String),
    ImportFailed(ImportError),
    MacroFailed(MacroError),
}

/// The pipeline applied to one source text: resolve the directive-form
/// imports against `fs` starting from an empty import chain, expand the
/// macros of the flattened text, then fold its constant expressions.
pub open spec fn spec_preprocess(s: Seq<char>, base: Seq<char>, fs: FileMapV) -> PreprocessOutcomeV {
    match spec_resolve(s, base, fs, Seq::empty()) {
        ResolutionV::Needs(p) => PreprocessOutcomeV::Needs(p),
        ResolutionV::Fail(e) => PreprocessOutcomeV::ImportFailed(e),
        ResolutionV::Done(flat, _) => match spec_process_macros(flat) {
            Err(e) => PreprocessOutcomeV::MacroFailed(e),
            Ok(expanded) => PreprocessOutcomeV::Done(spec_constant_fold(expanded)),
        },
    }
}

/// Preprocess `code`: inline its imports from `fs`, expand its macros, and
/// fold its constant expressions.
pub fn preprocess(code: &str, base_path: &str, fs: &FileMap) -> (r: PreprocessOutcome)
    ensures
        match r {
            PreprocessOutcome::Done(out) => spec_preprocess(code@, base_path@, fs@)
                == PreprocessOutcomeV::Done(out@),
            PreprocessOutcome::Needs(p) => spec_preprocess(code@, base_path@, fs@)
                == PreprocessOutcomeV::Needs(p@),
            PreprocessOutcome::ImportFailed(e) => spec_preprocess(code@, base_path@, fs@)
                == PreprocessOutcomeV::ImportFailed(e@),
            PreprocessOutcome::MacroFailed(e) => spec_preprocess(code@, base_path@, fs@)
                == PreprocessOutcomeV::MacroFailed(e@),
        },
{
    let mut visited: Vec<String> = Vec::new();
    proof {
        assert(crate::imports::visited_view(visited@) =~= Seq::<Seq<char>>::empty());
    }
    let flat = match crate::imports::process_imports(code, base_path, fs, &mut visited) {
        Resolution::Done(flat) => flat,
        Resolution::Needs(p) => {
            return PreprocessOutcome::Needs(p);
        },
        Resolution::Fail(e) => {
            return PreprocessOutcome::ImportFailed(e);
        },
    };
    let expanded = match process_macros(flat.as_str()) {
        Ok(x) => x,
        Err(e) => {
            return PreprocessOutcome::MacroFailed(e);
        },
    };
    match optimize(expanded.as_str()) {
        Ok(out) => PreprocessOutcome::Done(out),
        Err(_) => {
            proof {
                assert(false);
            }
            PreprocessOutcome::Needs(String::new())
        },
    }
}

} // verus!
