//! Project-scaffolding decisions that work on plain values: which source
//! languages exist and which entry file each starts from.  Creating the
//! directories and files happens outside the library.

use vstd::prelude::*;
use vstd::string::StringExecFns;

verus! {

/// What `str::to_lowercase` turns a text into; the result depends on the
/// characters alone.
pub uninterp spec fn lower_of(s: Seq<char>) -> Seq<char>;

/// Relies on `str::to_lowercase`: the lowercased text is a function of the
/// input characters alone, and an empty text stays empty.
#[verifier::external_body]
fn lowercase(s: &str) -> (r: String)
    ensures
        r@ == lower_of(s@),
        s@.len() == 0 ==> r@.len() == 0,
{
    s.to_lowercase()
}

/// A language name that no supported language matches.
#[derive(Debug, Clone, PartialEq, Eq)]
pub enum ProjectError {
    UnsupportedLanguage(String),
}

pub enum ProjectErrorV {
    UnsupportedLanguage(Seq<char>),
}

impl View for ProjectError {
    type V = ProjectErrorV;

    open spec fn view(&self) -> ProjectErrorV {
        match self {
            ProjectError::UnsupportedLanguage(s) => ProjectErrorV::UnsupportedLanguage(s@),
        }
    }
}

/// Supported project languages.
#[derive(Debug, Clone, Copy, PartialEq, Eq, Structural)]
pub enum ProjectLanguage {
    Gpc,
    Gpx,
}

impl ProjectLanguage {
    /// The language named by `language`, compared after lowercasing.
    pub fn from_str(language: &str) -> (r: Result<ProjectLanguage, ProjectError>)
        ensures
            r == Ok::<_, ProjectError>(ProjectLanguage::Gpc) <==> lower_of(language@) == "gpc"@,
            r == Ok::<_, ProjectError>(ProjectLanguage::Gpx) <==> lower_of(language@) == "gpx"@,
            r is Err <==> lower_of(language@) != "gpc"@ && lower_of(language@) != "gpx"@,
            r is Err ==> r->Err_0@ == ProjectErrorV::UnsupportedLanguage(language@),
    {
        proof {
            reveal_strlit("gpc");
            reveal_strlit("gpx");
        }
        let lower = lowercase(language);
        let is_gpc = lower == String::from_str("gpc");
        let is_gpx = lower == String::from_str("gpx");
        proof {
            assert("gpc"@[2] == 'c');
            assert("gpx"@[2] == 'x');
            assert("gpc"@ != "gpx"@);
        }
        if is_gpc {
            Ok(ProjectLanguage::Gpc)
        } else if is_gpx {
            Ok(ProjectLanguage::Gpx)
        } else {
            Err(ProjectError::UnsupportedLanguage(String::from_str(language)))
        }
    }

    /// The entry file a fresh project of this language starts from.
    pub fn get_entry_file(&self) -> (r: &'static str)
        ensures
            *self is Gpc ==> r@ == "src/main.gpc"@,
            *self is Gpx ==> r@ == "src/main.gpx"@,
    {
        match self {
            ProjectLanguage::Gpc => "src/main.gpc",
            ProjectLanguage::Gpx => "src/main.gpx",
        }
    }
}

} // verus!
