//! Verified core of `hk`, a git hook manager: step selection by profile,
//! command choice per run type, path bookkeeping and the stash protocol
//! that keeps unstaged changes out of the way while hooks run.
pub mod path;
pub mod path_set;
pub mod indexed;
pub mod step;
pub mod text;
pub mod git;
pub mod workspace;
pub mod step_run;
pub mod pre_push;

