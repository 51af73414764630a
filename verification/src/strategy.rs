use vstd::prelude::*;

verus! {

/// The command-line options the formatter reads: the packages named on the
/// command line, if any.
pub struct Opts {
    pub packages: Vec<String>,
}

/// Which part of a workspace a run formats: the packages named on the
/// command line, or the package at the working directory alone.
#[derive(Debug, PartialEq, Eq)]
pub enum FmtStrategy {
    Packages(Vec<String>),
    Root,
}

impl FmtStrategy {
    /// Name some packages and those are formatted; name none and the run
    /// covers the root package only.
    pub fn from_opts(opts: &Opts) -> (r: FmtStrategy)
        ensures
            opts.packages@.len() == 0 ==> r is Root,
            opts.packages@.len() > 0 ==> (r matches FmtStrategy::Packages(v) && v.deep_view()
                == opts.packages.deep_view()),
    {
        if opts.packages.is_empty() {
            FmtStrategy::Root
        } else {
            let cloned = opts.packages.clone();
            proof {
                assert(cloned.deep_view() =~= opts.packages.deep_view());
            }
            FmtStrategy::Packages(cloned)
        }
    }
}

/// Where a formatting run writes its result.
#[derive(Debug, Clone, Copy)]
pub enum EmitMode {
    /// Write each formatted file back in place.
    Files,
    /// Write the formatted text to standard output.
    Stdout,
}

/// The arguments of one formatter invocation: the files to format and where
/// to emit the result.
pub struct Args {
    pub emit_mode: EmitMode,
    pub files: Vec<String>,
}

} // verus!
