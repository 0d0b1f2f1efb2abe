//! Decisions of the command line: message levels and the input/output check.
use vstd::prelude::*;

verus! {

/// The severity of a console message.
#[derive(Debug, Clone, Copy, PartialEq, Eq, Structural)]
pub enum Level {
    Info,
    Success,
    Warn,
    Error,
}

impl Level {
    /// The tag that a console message of this level starts with.
    pub fn label(&self) -> (r: &'static str)
        ensures
            *self == Level::Info ==> r@ == "INFO"@,
            *self == Level::Success ==> r@ == "SUCCESS"@,
            *self == Level::Warn ==> r@ == "WARN"@,
            *self == Level::Error ==> r@ == "ERROR"@,
    {
        match self {
            Level::Info => "INFO",
            Level::Success => "SUCCESS",
            Level::Warn => "WARN",
            Level::Error => "ERROR",
        }
    }
}

/// What is known of a path on disk.
#[derive(Debug, Clone, Copy, PartialEq, Eq, Structural)]
pub struct PathState {
    pub exists: bool,
    pub is_file: bool,
    pub is_dir: bool,
}

/// A reason why the input file or the output directory cannot be used.
#[derive(Debug, Clone, Copy, PartialEq, Eq, Structural)]
pub enum IoIssue {
    InputMissing,
    OutputMissing,
    InputNotFile,
    OutputNotDir,
}

pub open spec fn issue_if(cond: bool, issue: IoIssue) -> Seq<IoIssue> {
    if cond {
        seq![issue]
    } else {
        seq![]
    }
}

/// Every problem with an input file and an output directory, in the order
/// they are reported: existence first, then the kind of each path.
pub open spec fn io_issues(input: PathState, output: PathState) -> Seq<IoIssue> {
    issue_if(!input.exists, IoIssue::InputMissing) + issue_if(!output.exists, IoIssue::OutputMissing)
        + issue_if(!input.is_file, IoIssue::InputNotFile) + issue_if(
        !output.is_dir,
        IoIssue::OutputNotDir,
    )
}

/// Checks that the input is an existing file and the output an existing
/// directory; on failure, lists every problem found.
pub fn check_io(input: PathState, output: PathState) -> (r: Result<(), Vec<IoIssue>>)
    ensures
        r is Ok <==> io_issues(input, output).len() == 0,
        r matches Err(v) ==> v@ == io_issues(input, output),
{
    let mut issues: Vec<IoIssue> = Vec::new();
    if !input.exists {
        issues.push(IoIssue::InputMissing);
    }
    if !output.exists {
        issues.push(IoIssue::OutputMissing);
    }
    if !input.is_file {
        issues.push(IoIssue::InputNotFile);
    }
    if !output.is_dir {
        issues.push(IoIssue::OutputNotDir);
    }
    proof {
        assert(issues@ =~= io_issues(input, output));
    }
    if issues.len() == 0 {
        Ok(())
    } else {
        Err(issues)
    }
}

} // verus!
