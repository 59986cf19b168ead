use vstd::prelude::*;

use crate::error::Error;

verus! {

/// How a worker's execution context ended, as seen when it is joined.
#[derive(Clone, Debug)]
pub enum WorkerExit {
    /// It returned without error.
    Finished,
    /// It returned an error.
    Failed(Error),
    /// It panicked; this is reported but not fatal.
    Panicked,
}

/// The first error among the workers' exits, in the order they were joined.
pub open spec fn first_failure(workers: Seq<WorkerExit>) -> Option<Error>
    decreases workers.len(),
{
    if workers.len() == 0 {
        None
    } else {
        match workers[0] {
            WorkerExit::Failed(e) => Some(e),
            _ => first_failure(workers.drop_first()),
        }
    }
}

/// The result of a run: the session loop's own error if it had one, else
/// the first error a worker returned, else success.
pub open spec fn run_result(session: Option<Error>, workers: Seq<WorkerExit>) -> Result<(), Error> {
    match session {
        Some(e) => Err(e),
        None => match first_failure(workers) {
            Some(e) => Err(e),
            None => Ok(()),
        },
    }
}

/// Decides the result of a run once every worker has been joined.
pub fn outcome(session: Option<Error>, workers: Vec<WorkerExit>) -> (r: Result<(), Error>)
    ensures
        r == run_result(session, workers@),
{
    match session {
        Some(e) => Err(e),
        None => {
            let ghost old_workers = workers;
            let mut rest = workers;
            while rest.len() > 0
                invariant
                    session is None,
                    old_workers == workers,
                    first_failure(old_workers@) == first_failure(rest@),
                decreases rest@.len(),
            {
                let ghost before = rest@;
                let w = rest.remove(0);
                assert(rest@ =~= before.drop_first());
                if let WorkerExit::Failed(e) = w {
                    assert(first_failure(before) == Some(e));
                    return Err(e);
                }
            }
            Ok(())
        },
    }
}

} // verus!
