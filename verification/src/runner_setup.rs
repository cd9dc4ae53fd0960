//! Sizes and directories that a sweep starts with.

use vstd::prelude::*;

verus! {

/// Threads left to the rest of the machine.
pub const RESERVED_THREADS: usize = 6;

/// Worker threads of a sweep: what is left of the machine, at least two.
pub fn pool_threads(logical: usize) -> (r: usize)
    ensures
        r == if logical >= RESERVED_THREADS + 2 {
            logical - RESERVED_THREADS
        } else {
            2
        },
{
    if logical >= RESERVED_THREADS + 2 {
        logical - RESERVED_THREADS
    } else {
        2
    }
}

/// The size of the slot pool that nobody fixed: what fits the device's memory, at
/// least one and at most `max_slots`.
pub open spec fn sized_slots(vram_slots: Option<usize>, max_slots: usize) -> int {
    let capped = match vram_slots {
        Some(v) => if v < max_slots {
            v as int
        } else {
            max_slots as int
        },
        None => max_slots as int,
    };
    if capped > 1 {
        capped
    } else {
        1
    }
}

/// The size of the slot pool. A given size wins as it is.
pub fn slot_count(given: Option<usize>, vram_slots: Option<usize>, max_slots: usize) -> (r: usize)
    ensures
        given matches Some(n) ==> r == n,
        given is None ==> r == sized_slots(vram_slots, max_slots),
{
    match given {
        Some(n) => n,
        None => {
            let capped: usize = match vram_slots {
                Some(v) => if v < max_slots {
                    v
                } else {
                    max_slots
                },
                None => max_slots,
            };
            if capped > 1 {
                capped
            } else {
                1
            }
        },
    }
}

/// A directory holds neutron data where it holds the file of hydrogen or that of
/// uranium 235.
pub fn looks_like_neutron_dir(has_h1: bool, has_u235: bool) -> (r: bool)
    ensures
        r == (has_h1 || has_u235),
{
    has_h1 || has_u235
}

/// What was found about a data directory that was given.
pub struct GivenDir {
    /// The directory as it was typed, for messages.
    pub typed: String,
    /// Its path, absolute wherever the working directory can be told.
    pub path: String,
    /// It holds neutron data itself.
    pub is_neutron: bool,
    /// The path of its subdirectory for neutron data, of the same form.
    pub subdir: String,
    /// That subdirectory holds neutron data.
    pub subdir_is_neutron: bool,
    /// The path of neutron data found by searching from it, of the same form.
    pub discovered: Option<String>,
    /// It exists and is a directory.
    pub is_dir: bool,
}

/// What was found from the working directory.
pub enum WorkingDir {
    /// It could not be told, with the message.
    Unknown(String),
    /// Its path, and the absolute path of neutron data found by searching from it.
    Known { path: String, discovered: Option<String> },
}

/// The message for a directory without neutron data.
pub open spec fn no_data_text(path: Seq<char>) -> Seq<char> {
    "--data-dir "@ + path
        + " exists but contains no neutron HDF5 files (expected `H1.h5` either directly inside it or under a `neutron/` subdirectory)"@
}

/// The message for a directory that does not exist.
pub open spec fn no_dir_text(path: Seq<char>) -> Seq<char> {
    "--data-dir "@ + path + " not found"@
}

/// The message for an unknown working directory.
pub open spec fn no_cwd_text(cause: Seq<char>) -> Seq<char> {
    "failed to read current directory: "@ + cause
}

/// The message for a search that found nothing.
pub open spec fn no_library_text(cwd: Seq<char>) -> Seq<char> {
    "no ENDF/B HDF5 library discovered (walked up from "@ + cwd
        + " looking for data/endfb-viii.1-hdf5/neutron, data/endfb-viii.0-hdf5/neutron, data/endfb-vii.1-hdf5/neutron). Pass --data-dir explicitly."@
}

/// The absolute path of the neutron data, or why they are nowhere. A directory that was given
/// is taken as it is, then by its subdirectory, then by searching from it, and the
/// working directory does not come into it.
pub open spec fn data_dir_outcome(given: Option<GivenDir>, cwd: WorkingDir) -> Result<Seq<char>, Seq<char>> {
    match given {
        Some(g) => if g.is_neutron {
            Ok(g.path@)
        } else if g.subdir_is_neutron {
            Ok(g.subdir@)
        } else if g.discovered is Some {
            Ok(g.discovered->0@)
        } else if g.is_dir {
            Err(no_data_text(g.typed@))
        } else {
            Err(no_dir_text(g.typed@))
        },
        None => match cwd {
            WorkingDir::Unknown(cause) => Err(no_cwd_text(cause@)),
            WorkingDir::Known { path, discovered } => match discovered {
                Some(d) => Ok(d@),
                None => Err(no_library_text(path@)),
            },
        },
    }
}

/// The texts of a result.
pub open spec fn outcome_texts(r: Result<String, String>) -> Result<Seq<char>, Seq<char>> {
    match r {
        Ok(s) => Ok(s@),
        Err(s) => Err(s@),
    }
}

/// Decides where the neutron data are, as a path of the form that was given.
pub fn resolve_data_dir(given: Option<GivenDir>, cwd: WorkingDir) -> (r: Result<String, String>)
    ensures
        outcome_texts(r) == data_dir_outcome(given, cwd),
{
    match given {
        Some(g) => {
            if g.is_neutron {
                return Ok(g.path);
            }
            if g.subdir_is_neutron {
                return Ok(g.subdir);
            }
            match g.discovered {
                Some(d) => Ok(d),
                None => {
                    let mut msg = "--data-dir ".to_owned();
                    msg.append(g.typed.as_str());
                    if g.is_dir {
                        msg.append(
                            " exists but contains no neutron HDF5 files (expected `H1.h5` either directly inside it or under a `neutron/` subdirectory)",
                        );
                    } else {
                        msg.append(" not found");
                    }
                    Err(msg)
                },
            }
        },
        None => match cwd {
            WorkingDir::Unknown(cause) => {
                let mut msg = "failed to read current directory: ".to_owned();
                msg.append(cause.as_str());
                Err(msg)
            },
            WorkingDir::Known { path, discovered } => match discovered {
                Some(d) => Ok(d),
                None => {
                    let mut msg = "no ENDF/B HDF5 library discovered (walked up from ".to_owned();
                    msg.append(path.as_str());
                    msg.append(
                        " looking for data/endfb-viii.1-hdf5/neutron, data/endfb-viii.0-hdf5/neutron, data/endfb-vii.1-hdf5/neutron). Pass --data-dir explicitly.",
                    );
                    Err(msg)
                },
            },
        },
    }
}

/// The exit code of a program whose sweep did not start.
pub const PIPELINE_FAILURE_CODE: u8 = 3;

/// The exit code of a program that found no nuclear data.
pub const NO_DATA_CODE: u8 = 2;

/// Directory `i` of a chain of directories, each the parent of the one before, is
/// where a search upwards stops: the first one that holds what is looked for, and
/// the topmost one if none does.
pub open spec fn stops_at(holds: Seq<bool>, i: int) -> bool {
    &&& 0 <= i < holds.len()
    &&& holds[i] || i == holds.len() - 1
    &&& forall|k: int| 0 <= k < i ==> !#[trigger] holds[k]
}

/// Searches upwards for the root of the workspace. `holds` says of each directory,
/// from the first one up to the topmost, whether it holds the benchmark cases.
pub fn workspace_root(holds: &Vec<bool>) -> (r: usize)
    requires
        holds@.len() > 0,
    ensures
        stops_at(holds@, r as int),
{
    let mut i: usize = 0;
    while i < holds.len() - 1 && !holds[i]
        invariant
            i < holds@.len(),
            forall|k: int| 0 <= k < i ==> !#[trigger] holds@[k],
        decreases holds@.len() - i,
    {
        i += 1;
    }
    i
}

/// The search upwards stops at one directory only.
pub proof fn law_workspace_root_is_unique(holds: Seq<bool>, i: int, j: int)
    requires
        stops_at(holds, i),
        stops_at(holds, j),
    ensures
        i == j,
{
}

/// A data directory that is given is used where it holds neutron data itself, else
/// its subdirectory where that does, else what is found from it; only where none is
/// given is the working directory searched. Nothing is used that holds no data.
pub proof fn law_given_directory_comes_first(given: Option<GivenDir>, cwd: WorkingDir, r: Result<String, String>)
    requires
        call_ensures(resolve_data_dir, (given, cwd), r),
    ensures
        given matches Some(g) ==> {
            &&& r is Ok <==> g.is_neutron || g.subdir_is_neutron || g.discovered is Some
            &&& g.is_neutron ==> r->Ok_0@ == g.path@
            &&& !g.is_neutron && g.subdir_is_neutron ==> r->Ok_0@ == g.subdir@
            &&& !g.is_neutron && !g.subdir_is_neutron && g.discovered is Some ==> r->Ok_0@ == g.discovered->0@
        },
        given is None ==> match cwd {
            WorkingDir::Unknown(_) => r is Err,
            WorkingDir::Known { path, discovered } => match discovered {
                Some(d) => r is Ok && r->Ok_0@ == d@,
                None => r is Err,
            },
        },
{
}

/// A sweep has the slots that were asked for, else as many as fit the device and the
/// limit, but at least one.
pub proof fn law_slots_fit_the_device(given: Option<usize>, fits: Option<usize>, limit: usize, r: usize)
    requires
        call_ensures(slot_count, (given, fits, limit), r),
    ensures
        given matches Some(n) ==> r == n,
        given is None ==> r >= 1,
        given is None && r > 1 ==> r <= limit && (fits matches Some(v) ==> r <= v),
        given is None && limit >= 1 && fits is None ==> r == limit,
        given is None && fits is Some && 1 <= fits->0 <= limit ==> r == fits->0,
        given is None && fits is Some && 1 <= limit <= fits->0 ==> r == limit,
{
}

/// Six threads are kept for the stages, as long as two are left for the work.
pub proof fn law_stages_keep_their_threads(logical: usize, r: usize)
    requires
        call_ensures(pool_threads, (logical,), r),
    ensures
        r >= 2,
        logical >= 8 ==> r + 6 == logical,
        logical < 8 ==> r == 2,
{
}

/// The root of a workspace is the nearest directory that holds the cases, and the
/// topmost one where none does; one of two files makes a directory one of neutron
/// data.
pub proof fn law_root_is_the_nearest(holds: &Vec<bool>, r: usize, k: int, h1: bool, u235: bool, neutron: bool)
    requires
        call_ensures(workspace_root, (holds,), r),
        call_ensures(looks_like_neutron_dir, (h1, u235), neutron),
    ensures
        r < holds@.len(),
        0 <= k < r ==> !holds@[k],
        !holds@[r as int] ==> r == holds@.len() - 1,
        !neutron <==> !h1 && !u235,
{
}

} // verus!
