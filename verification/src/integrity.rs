//! Watching that the files of the configuration stay as they were at start.

use vstd::prelude::*;
use vstd::string::StringExecFns;
use crate::error::ArcellaUtilsError;

verus! {

/// A moment at which a file was last changed, since the start of 1970.
#[derive(Debug, Clone, Copy, PartialEq, Eq, Structural)]
pub struct Timestamp {
    pub secs: u64,
    pub nanos: u32,
}

/// Watches that the files of the configuration stay as they were at start.
#[derive(Debug, Clone)]
pub struct IntegrityChecker {
    /// The files that are watched.
    pub paths: Vec<String>,
    /// When each of them was last changed, at start.
    pub initial_mtimes: Vec<(String, Timestamp)>,
}

/// The moment noted for `path` among the first `upto` of `mtimes`, the first
/// one if there are several.
pub open spec fn noted(mtimes: Seq<(String, Timestamp)>, path: Seq<char>) -> Option<Timestamp>
    decreases mtimes.len(),
{
    if mtimes.len() == 0 {
        None
    } else if noted(mtimes.drop_last(), path) is Some {
        noted(mtimes.drop_last(), path)
    } else if mtimes.last().0@ == path {
        Some(mtimes.last().1)
    } else {
        None
    }
}

/// The first file of `current` that is not as it was noted in `initial`:
/// its position, and whether it was noted at all.
pub open spec fn first_violation(initial: Seq<(String, Timestamp)>, current: Seq<(String, Timestamp)>) -> Option<
    (int, bool),
>
    decreases current.len(),
{
    if current.len() == 0 {
        None
    } else if first_violation(initial, current.drop_last()) is Some {
        first_violation(initial, current.drop_last())
    } else {
        match noted(initial, current.last().0@) {
            Some(moment) => if moment == current.last().1 {
                None
            } else {
                Some((current.len() - 1, true))
            },
            None => Some((current.len() - 1, false)),
        }
    }
}

/// The complaint about the file at `path`.
pub open spec fn violation_message(path: Seq<char>, was_noted: bool) -> Seq<char> {
    if was_noted {
        "Config integrity violation: file "@ + path + " was modified after startup"@
    } else {
        "Config integrity violation: file "@ + path + " not found in initial list"@
    }
}

/// The moment noted for `path`, if one was.
fn find_noted(mtimes: &Vec<(String, Timestamp)>, path: &String) -> (r: Option<Timestamp>)
    ensures
        r == noted(mtimes@, path@),
{
    let mut i: usize = 0;
    proof {
        assert(mtimes@.subrange(0, 0) =~= Seq::<(String, Timestamp)>::empty());
    }
    while i < mtimes.len()
        invariant
            i <= mtimes.len(),
            noted(mtimes@.subrange(0, i as int), path@) is None,
        decreases mtimes.len() - i,
    {
        proof {
            let upto = mtimes@.subrange(0, i + 1);
            assert(upto.drop_last() =~= mtimes@.subrange(0, i as int));
        }
        if mtimes[i].0 == *path {
            proof {
                lemma_noted_early(mtimes@, i + 1, path@);
            }
            return Some(mtimes[i].1);
        }
        i += 1;
    }
    proof {
        assert(mtimes@.subrange(0, mtimes.len() as int) =~= mtimes@);
    }
    None
}

/// What is noted among the first `upto` moments is what is noted among all.
pub proof fn lemma_noted_early(mtimes: Seq<(String, Timestamp)>, upto: int, path: Seq<char>)
    requires
        0 <= upto <= mtimes.len(),
        noted(mtimes.subrange(0, upto), path) is Some,
    ensures
        noted(mtimes, path) == noted(mtimes.subrange(0, upto), path),
    decreases mtimes.len() - upto,
{
    if upto < mtimes.len() {
        let next = mtimes.subrange(0, upto + 1);
        assert(next.drop_last() =~= mtimes.subrange(0, upto));
        lemma_noted_early(mtimes, upto + 1, path);
    } else {
        assert(mtimes.subrange(0, upto) =~= mtimes);
    }
}

/// A violation among the first `upto` files is the first violation of all.
pub proof fn lemma_violation_early(
    initial: Seq<(String, Timestamp)>,
    current: Seq<(String, Timestamp)>,
    upto: int,
)
    requires
        0 <= upto <= current.len(),
        first_violation(initial, current.subrange(0, upto)) is Some,
    ensures
        first_violation(initial, current) == first_violation(initial, current.subrange(0, upto)),
    decreases current.len() - upto,
{
    if upto < current.len() {
        let next = current.subrange(0, upto + 1);
        assert(next.drop_last() =~= current.subrange(0, upto));
        lemma_violation_early(initial, current, upto + 1);
    } else {
        assert(current.subrange(0, upto) =~= current);
    }
}

/// Checks that every file of `current_mtimes` was noted in `initial_mtimes`
/// and was last changed at the moment noted.
///
/// The first file, in the order of `current_mtimes`, that was changed since
/// or was not noted is refused with its path.
pub fn check_mtimes_changed(
    initial_mtimes: &Vec<(String, Timestamp)>,
    current_mtimes: &Vec<(String, Timestamp)>,
) -> (r: Result<(), ArcellaUtilsError>)
    ensures
        match first_violation(initial_mtimes@, current_mtimes@) {
            None => r is Ok,
            Some((at, was_noted)) => match r {
                Err(ArcellaUtilsError::Internal(message)) => 0 <= at < current_mtimes@.len() && message@
                    == violation_message(current_mtimes@[at].0@, was_noted),
                _ => false,
            },
        },
{
    let mut i: usize = 0;
    proof {
        assert(current_mtimes@.subrange(0, 0) =~= Seq::<(String, Timestamp)>::empty());
    }
    while i < current_mtimes.len()
        invariant
            i <= current_mtimes.len(),
            first_violation(initial_mtimes@, current_mtimes@.subrange(0, i as int)) is None,
        decreases current_mtimes.len() - i,
    {
        proof {
            let upto = current_mtimes@.subrange(0, i + 1);
            assert(upto.drop_last() =~= current_mtimes@.subrange(0, i as int));
            assert(upto.last() == current_mtimes@[i as int]);
        }
        let path = &current_mtimes[i].0;
        let moment = current_mtimes[i].1;
        match find_noted(initial_mtimes, path) {
            Some(initial) => {
                if initial != moment {
                    let mut message = String::from_str("Config integrity violation: file ");
                    message.append(path.as_str());
                    message.append(" was modified after startup");
                    proof {
                        lemma_violation_early(initial_mtimes@, current_mtimes@, i + 1);
                    }
                    return Err(ArcellaUtilsError::Internal(message));
                }
            },
            None => {
                let mut message = String::from_str("Config integrity violation: file ");
                message.append(path.as_str());
                message.append(" not found in initial list");
                proof {
                    lemma_violation_early(initial_mtimes@, current_mtimes@, i + 1);
                }
                return Err(ArcellaUtilsError::Internal(message));
            },
        }
        i += 1;
    }
    proof {
        assert(current_mtimes@.subrange(0, current_mtimes.len() as int) =~= current_mtimes@);
    }
    Ok(())
}

impl IntegrityChecker {
    /// Notes for `paths` the moments at which each was last changed, as they
    /// are now.
    pub fn new(paths: Vec<String>, initial_mtimes: Vec<(String, Timestamp)>) -> (r: IntegrityChecker)
        ensures
            r.paths == paths,
            r.initial_mtimes == initial_mtimes,
    {
        IntegrityChecker { paths, initial_mtimes }
    }

    /// Checks the moments at which the files were last changed, as they are
    /// now, against those noted at start.
    pub fn check(&self, current_mtimes: &Vec<(String, Timestamp)>) -> (r: Result<(), ArcellaUtilsError>)
        ensures
            match first_violation(self.initial_mtimes@, current_mtimes@) {
                None => r is Ok,
                Some((at, was_noted)) => match r {
                    Err(ArcellaUtilsError::Internal(message)) => 0 <= at < current_mtimes@.len()
                        && message@ == violation_message(current_mtimes@[at].0@, was_noted),
                    _ => false,
                },
            },
    {
        check_mtimes_changed(&self.initial_mtimes, current_mtimes)
    }
}

} // verus!
