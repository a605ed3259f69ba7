//! Facts about the application itself.

use vstd::prelude::*;
use vstd::string::StringExecFns;

verus! {

/// The book club application.
pub struct App;

/// `version (build)`: the package version and, in brackets, the build.
pub open spec fn version_text(version: Seq<char>, build: Seq<char>) -> Seq<char> {
    version + " ("@ + build + ")"@
}

impl App {
    /// The name of the application: the name of its crate.
    pub fn app_name() -> (name: &'static str)
        ensures
            name@ == "bookclub"@,
    {
        "bookclub"
    }

    /// The version shown: the package version followed by the build hash
    /// from `BUILD_SHA`, else from `GITHUB_SHA`, else `dev`.
    pub fn app_version(version: &str, build_sha: Option<&str>, github_sha: Option<&str>) -> (v: String)
        ensures
            v@ == version_text(
                version@,
                match build_sha {
                    Some(b) => b@,
                    None => match github_sha {
                        Some(g) => g@,
                        None => "dev"@,
                    },
                },
            ),
    {
        let build = match build_sha {
            Some(b) => b,
            None => match github_sha {
                Some(g) => g,
                None => "dev",
            },
        };
        let mut v = String::from_str(version);
        v.append(" (");
        v.append(build);
        v.append(")");
        v
    }
}

} // verus!
