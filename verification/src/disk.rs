//! What a relocation does to the disk.
//!
//! The library touches no disk, so the disk stands here as a model: a map from
//! paths to what stands there. [`run`] drives a relocation against that model,
//! answering each of its requests truthfully, and the laws below say what
//! follows for the files on it.

use crate::ops::{
    already_in_place, arrival, candidate_name, counter_limit, folder, folder_failure,
    hidden_file, initial, invalid_name, invalid_source, move_failure, next, no_free_name,
    pending, source_name, target, Job, Outcome, Reply, Stage, State, Task,
};
use crate::path_text::{
    final_component, hidden, is_file_name, lemma_final_component_is_file_name,
    lemma_final_component_of_joined, lemma_joined_injective, lemma_numbered_differs,
    lemma_numbered_injective, lemma_numbered_is_file_name,
};
use vstd::prelude::*;

verus! {

/// What stands at a path: two paths lead to the same file where their entries
/// have the same `id`, and `regular` tells a file from a folder.
pub struct Entry {
    pub id: nat,
    pub regular: bool,
}

/// The disk: what stands at each path at which anything stands.
pub type Disk = Map<Seq<char>, Entry>;

/// What the relocation cannot know beforehand: which folders appear when the
/// category folder is created, and whether creating it and moving the file
/// succeed.
pub struct Fate {
    /// The folders that creating the category folder adds besides it.
    pub ancestors: Set<Seq<char>>,
    /// The identity given to a folder that is created.
    pub folder_id: nat,
    /// Why creating the category folder fails, if it does.
    pub folder_error: Option<Seq<char>>,
    /// Why moving the file fails, if it does.
    pub move_error: Option<Seq<char>>,
}

/// Whether a regular file stands at `path`.
pub open spec fn is_file(disk: Disk, path: Seq<char>) -> bool {
    disk.dom().contains(path) && disk[path].regular
}

/// Whether `a` and `b` lead to one and the same file.
pub open spec fn same_file(disk: Disk, a: Seq<char>, b: Seq<char>) -> bool {
    disk.dom().contains(a) && disk.dom().contains(b) && disk[a].id == disk[b].id
}

/// The disk after folders were created at `paths`: what stood there before
/// still stands.
pub open spec fn with_folders(disk: Disk, paths: Set<Seq<char>>, id: nat) -> Disk {
    Map::new(
        |path: Seq<char>| disk.dom().contains(path) || paths.contains(path),
        |path: Seq<char>|
            if disk.dom().contains(path) {
                disk[path]
            } else {
                Entry { id, regular: false }
            },
    )
}

/// The disk after what stood at `from` was moved to `to`.
pub open spec fn moved(disk: Disk, from: Seq<char>, to: Seq<char>) -> Disk {
    disk.remove(from).insert(to, disk[from])
}

/// The disk after `task` was carried out on it, and the truthful reply.
pub open spec fn respond(disk: Disk, fate: Fate, task: Task) -> (Disk, Reply) {
    match task {
        Task::CheckSource(path) => (disk, Reply::Answer(is_file(disk, path))),
        Task::CheckFolder(path) => (disk, Reply::Answer(disk.dom().contains(path))),
        Task::CreateFolder(path) => match fate.folder_error {
            None => (
                with_folders(disk, fate.ancestors.insert(path), fate.folder_id),
                Reply::Done,
            ),
            Some(reason) => (
                with_folders(disk, fate.ancestors, fate.folder_id),
                Reply::Error(reason),
            ),
        },
        Task::CheckTarget(path) => (disk, Reply::Answer(disk.dom().contains(path))),
        Task::CompareFiles { source, target } => (
            disk,
            Reply::Answer(same_file(disk, source, target)),
        ),
        Task::Move { from, to } => match fate.move_error {
            None => (moved(disk, from, to), Reply::Done),
            Some(reason) => (disk, Reply::Error(reason)),
        },
        Task::Finish(_) => (disk, Reply::Done),
    }
}

/// A bound on the replies that `stage` still needs before it is finished.
pub open spec fn remaining(stage: Stage) -> nat {
    match stage {
        Stage::Source => 2 * counter_limit() + 7,
        Stage::Folder => 2 * counter_limit() + 6,
        Stage::Creating => 2 * counter_limit() + 5,
        Stage::Target(k) => if k == 0 {
            2 * counter_limit() + 4
        } else if k <= counter_limit() {
            (2 * (counter_limit() - k) + 2) as nat
        } else {
            2
        },
        Stage::Identity => 2 * counter_limit() + 3,
        Stage::Moving(_) => 1,
        Stage::Finished(_) => 0,
    }
}

/// The relocation `state` driven to its end on `disk`: the disk it leaves and
/// how it ended.
pub open spec fn run(disk: Disk, fate: Fate, state: State) -> (Disk, Outcome)
    decreases remaining(state.stage),
{
    match state.stage {
        Stage::Finished(outcome) => (disk, outcome),
        _ => {
            let (after, reply) = respond(disk, fate, pending(state));
            run(after, fate, next(state, reply))
        },
    }
}

/// The relocation of `job` from its beginning on `disk`.
pub open spec fn relocate(disk: Disk, fate: Fate, job: Job) -> (Disk, Outcome) {
    run(disk, fate, initial(job))
}

/// The first counter from `k` on whose candidate is free on `disk`; one more
/// than the limit where every candidate up to the limit is taken.
pub open spec fn first_free(disk: Disk, job: Job, k: nat) -> nat
    decreases counter_limit() + 1 - k,
{
    if k > counter_limit() || !disk.dom().contains(target(job, k)) {
        k
    } else {
        first_free(disk, job, k + 1)
    }
}

/// What moving the file to the candidate with counter `k` leaves: the file
/// there where the move succeeds, and everything as it was where it fails.
pub open spec fn delivered(disk: Disk, fate: Fate, job: Job, k: nat) -> (Disk, Outcome) {
    match fate.move_error {
        None => (moved(disk, job.source, target(job, k)), arrival(job, k)),
        Some(reason) => (disk, Outcome::Failed(move_failure(reason))),
    }
}

/// What a relocation leaves once its category folder stands: the file goes
/// under its own name where that is free, stays where it already stands
/// there, and else goes under the first numbered name that is free.
pub open spec fn placed(disk: Disk, fate: Fate, job: Job) -> (Disk, Outcome) {
    if !disk.dom().contains(target(job, 0)) {
        delivered(disk, fate, job, 0)
    } else if same_file(disk, job.source, target(job, 0)) {
        (disk, Outcome::Ignored(already_in_place()))
    } else if first_free(disk, job, 1) <= counter_limit() {
        delivered(disk, fate, job, first_free(disk, job, 1))
    } else {
        (disk, Outcome::Failed(no_free_name()))
    }
}

/// What a relocation leaves, said at once.
pub open spec fn settled(disk: Disk, fate: Fate, job: Job) -> (Disk, Outcome) {
    if !is_file(disk, job.source) {
        (disk, Outcome::Failed(invalid_source()))
    } else {
        match final_component(job.source) {
            None => (disk, Outcome::Failed(invalid_name())),
            Some(name) => if job.ignore_hidden && hidden(name) {
                (disk, Outcome::Ignored(hidden_file()))
            } else if disk.dom().contains(folder(job)) {
                placed(disk, fate, job)
            } else {
                match fate.folder_error {
                    Some(reason) => (
                        with_folders(disk, fate.ancestors, fate.folder_id),
                        Outcome::Failed(folder_failure(reason)),
                    ),
                    None => placed(
                        with_folders(disk, fate.ancestors.insert(folder(job)), fate.folder_id),
                        fate,
                        job,
                    ),
                }
            },
        }
    }
}

/// A relocation that is not finished goes on with the truthful reply to what
/// it waits for.
proof fn lemma_run_step(disk: Disk, fate: Fate, state: State)
    requires
        !(state.stage is Finished),
    ensures
        run(disk, fate, state) == run(
            respond(disk, fate, pending(state)).0,
            fate,
            next(state, respond(disk, fate, pending(state)).1),
        ),
{
}

/// A finished relocation leaves the disk as it is.
proof fn lemma_run_finished(disk: Disk, fate: Fate, job: Job, outcome: Outcome)
    ensures
        run(disk, fate, State { job, stage: Stage::Finished(outcome) }) == (disk, outcome),
{
}

/// From the move on, a relocation leaves what [`delivered`] says.
proof fn lemma_run_moving(disk: Disk, fate: Fate, job: Job, k: nat)
    ensures
        run(disk, fate, State { job, stage: Stage::Moving(k) }) == delivered(disk, fate, job, k),
{
    let state = State { job, stage: Stage::Moving(k) };
    lemma_run_step(disk, fate, state);
    match fate.move_error {
        None => {
            lemma_run_finished(moved(disk, job.source, target(job, k)), fate, job, arrival(job, k));
        },
        Some(reason) => {
            lemma_run_finished(disk, fate, job, Outcome::Failed(move_failure(reason)));
        },
    }
}

/// From a numbered candidate on, a relocation moves the file to the first
/// free one, or fails where there is none up to the limit.
proof fn lemma_run_numbered(disk: Disk, fate: Fate, job: Job, k: nat)
    requires
        1 <= k <= counter_limit(),
    ensures
        run(disk, fate, State { job, stage: Stage::Target(k) }) == (if first_free(disk, job, k)
            <= counter_limit() {
            delivered(disk, fate, job, first_free(disk, job, k))
        } else {
            (disk, Outcome::Failed(no_free_name()))
        }),
    decreases counter_limit() - k,
{
    let state = State { job, stage: Stage::Target(k) };
    lemma_run_step(disk, fate, state);
    if !disk.dom().contains(target(job, k)) {
        lemma_run_moving(disk, fate, job, k);
    } else if k < counter_limit() {
        lemma_run_numbered(disk, fate, job, k + 1);
        assert(first_free(disk, job, k) == first_free(disk, job, k + 1));
    } else {
        lemma_run_finished(disk, fate, job, Outcome::Failed(no_free_name()));
        assert(first_free(disk, job, k + 1) == k + 1);
        assert(first_free(disk, job, k) == k + 1);
    }
}

/// From the first look at the destination on, a relocation leaves what
/// [`placed`] says.
proof fn lemma_run_placed(disk: Disk, fate: Fate, job: Job)
    ensures
        run(disk, fate, State { job, stage: Stage::Target(0) }) == placed(disk, fate, job),
{
    let state = State { job, stage: Stage::Target(0) };
    lemma_run_step(disk, fate, state);
    if !disk.dom().contains(target(job, 0)) {
        lemma_run_moving(disk, fate, job, 0);
    } else {
        let identity = State { job, stage: Stage::Identity };
        lemma_run_step(disk, fate, identity);
        if same_file(disk, job.source, target(job, 0)) {
            lemma_run_finished(disk, fate, job, Outcome::Ignored(already_in_place()));
        } else {
            lemma_run_numbered(disk, fate, job, 1);
        }
    }
}

/// Driving a relocation step by step leaves what [`settled`] says at once.
pub proof fn relocation_settles(disk: Disk, fate: Fate, job: Job)
    ensures
        relocate(disk, fate, job) == settled(disk, fate, job),
{
    lemma_run_step(disk, fate, initial(job));
    if !is_file(disk, job.source) {
        lemma_run_finished(disk, fate, job, Outcome::Failed(invalid_source()));
    } else {
        match final_component(job.source) {
            None => {
                lemma_run_finished(disk, fate, job, Outcome::Failed(invalid_name()));
            },
            Some(name) => {
                if job.ignore_hidden && hidden(name) {
                    lemma_run_finished(disk, fate, job, Outcome::Ignored(hidden_file()));
                } else {
                    lemma_run_step(disk, fate, State { job, stage: Stage::Folder });
                    if disk.dom().contains(folder(job)) {
                        lemma_run_placed(disk, fate, job);
                    } else {
                        lemma_run_step(disk, fate, State { job, stage: Stage::Creating });
                        match fate.folder_error {
                            Some(reason) => {
                                lemma_run_finished(
                                    with_folders(disk, fate.ancestors, fate.folder_id),
                                    fate,
                                    job,
                                    Outcome::Failed(folder_failure(reason)),
                                );
                            },
                            None => {
                                lemma_run_placed(
                                    with_folders(
                                        disk,
                                        fate.ancestors.insert(folder(job)),
                                        fate.folder_id,
                                    ),
                                    fate,
                                    job,
                                );
                            },
                        }
                    }
                }
            },
        }
    }
}

/// [`first_free`] points at a free candidate, unless it points past the
/// limit, and every candidate from `k` up to it is taken.
pub proof fn lemma_first_free(disk: Disk, job: Job, k: nat)
    requires
        k <= counter_limit() + 1,
    ensures
        k <= first_free(disk, job, k) <= counter_limit() + 1,
        first_free(disk, job, k) <= counter_limit() ==> !disk.dom().contains(
            target(job, first_free(disk, job, k)),
        ),
        forall|j: nat|
            k <= j < first_free(disk, job, k) ==> disk.dom().contains(#[trigger] target(job, j)),
    decreases counter_limit() + 1 - k,
{
    if k <= counter_limit() && disk.dom().contains(target(job, k)) {
        lemma_first_free(disk, job, k + 1);
    }
}

/// No overwrite: whatever stood at a path other than the source before a
/// relocation stands there unchanged after it, however the relocation ends.
pub proof fn nothing_is_overwritten(disk: Disk, fate: Fate, job: Job, path: Seq<char>)
    requires
        disk.dom().contains(path),
        path != job.source,
    ensures
        relocate(disk, fate, job).0.dom().contains(path),
        relocate(disk, fate, job).0[path] == disk[path],
{
    relocation_settles(disk, fate, job);
    let grown = with_folders(disk, fate.ancestors.insert(folder(job)), fate.folder_id);
    lemma_first_free(disk, job, 1);
    lemma_first_free(grown, job, 1);
}

/// A relocation that ends as ignored or failed has left its source where it
/// was and as it was.
pub proof fn source_stays_unless_moved(disk: Disk, fate: Fate, job: Job)
    requires
        disk.dom().contains(job.source),
    ensures
        relocate(disk, fate, job).1 is Ignored || relocate(disk, fate, job).1 is Failed ==> {
            &&& relocate(disk, fate, job).0.dom().contains(job.source)
            &&& relocate(disk, fate, job).0[job.source] == disk[job.source]
        },
{
    relocation_settles(disk, fate, job);
}

/// A relocation moves at most the source: where it ends as moved or renamed,
/// the source stands at the path it names, and that path was free before.
pub proof fn arrival_takes_a_free_path(disk: Disk, fate: Fate, job: Job)
    requires
        disk.dom().contains(job.source),
    ensures
        match relocate(disk, fate, job).1 {
            Outcome::Moved(path) | Outcome::Renamed(path) => {
                &&& !disk.dom().contains(path)
                &&& relocate(disk, fate, job).0.dom().contains(path)
                &&& relocate(disk, fate, job).0[path] == disk[job.source]
            },
            _ => true,
        },
{
    relocation_settles(disk, fate, job);
    let grown = with_folders(disk, fate.ancestors.insert(folder(job)), fate.folder_id);
    lemma_first_free(disk, job, 1);
    lemma_first_free(grown, job, 1);
}

/// Hidden-file policy: where hidden files are to stay, a source whose name
/// begins with a dot is ignored and the disk is left as it is.
pub proof fn hidden_file_is_ignored(disk: Disk, fate: Fate, job: Job)
    requires
        job.ignore_hidden,
        is_file(disk, job.source),
        final_component(job.source) matches Some(name) && hidden(name),
    ensures
        relocate(disk, fate, job) == (disk, Outcome::Ignored(hidden_file())),
{
    relocation_settles(disk, fate, job);
}

/// A source that is no regular file is refused and the disk is left as it is.
pub proof fn invalid_source_is_refused(disk: Disk, fate: Fate, job: Job)
    requires
        !is_file(disk, job.source),
    ensures
        relocate(disk, fate, job) == (disk, Outcome::Failed(invalid_source())),
{
    relocation_settles(disk, fate, job);
}

/// Failure isolation: where the category folder is missing and cannot be
/// created, the relocation fails with the reason and the source is left where
/// it was and as it was.
pub proof fn folder_failure_leaves_source(disk: Disk, fate: Fate, job: Job, reason: Seq<char>)
    requires
        is_file(disk, job.source),
        final_component(job.source) matches Some(name) && !(job.ignore_hidden && hidden(name)),
        !disk.dom().contains(folder(job)),
        fate.folder_error == Some(reason),
    ensures
        relocate(disk, fate, job).1 == Outcome::Failed(folder_failure(reason)),
        relocate(disk, fate, job).0.dom().contains(job.source),
        relocate(disk, fate, job).0[job.source] == disk[job.source],
{
    relocation_settles(disk, fate, job);
}

/// Failure isolation: where the move itself fails, the relocation fails with
/// the reason and the source is left where it was and as it was.
pub proof fn move_failure_leaves_source(disk: Disk, fate: Fate, job: Job, reason: Seq<char>)
    requires
        disk.dom().contains(job.source),
        fate.move_error == Some(reason),
    ensures
        !(relocate(disk, fate, job).1 is Moved),
        !(relocate(disk, fate, job).1 is Renamed),
        relocate(disk, fate, job).0.dom().contains(job.source),
        relocate(disk, fate, job).0[job.source] == disk[job.source],
{
    relocation_settles(disk, fate, job);
}

/// Every candidate of a job whose source has a file name gives the file a
/// file name.
pub proof fn lemma_candidate_is_file_name(job: Job, k: nat)
    requires
        final_component(job.source) is Some,
    ensures
        is_file_name(candidate_name(job, k)),
{
    lemma_final_component_is_file_name(job.source);
    if k > 0 {
        lemma_numbered_is_file_name(source_name(job), k);
    }
}

/// Deterministic naming: two counters never give one file the same path.
pub proof fn candidates_differ(job: Job, j: nat, k: nat)
    requires
        final_component(job.source) is Some,
        j != k,
    ensures
        target(job, j) != target(job, k),
{
    lemma_candidate_is_file_name(job, j);
    lemma_candidate_is_file_name(job, k);
    if target(job, j) == target(job, k) {
        lemma_joined_injective(folder(job), candidate_name(job, j), candidate_name(job, k));
        if j == 0 {
            lemma_numbered_differs(source_name(job), k);
        } else if k == 0 {
            lemma_numbered_differs(source_name(job), j);
        } else {
            lemma_numbered_injective(source_name(job), j, k);
        }
    }
}

/// The job is one that goes on to its destination once its source is known
/// to be a regular file: the source has a file name, and it is not a hidden
/// file that is to stay.
pub open spec fn admissible(job: Job) -> bool {
    final_component(job.source) matches Some(name) && !(job.ignore_hidden && hidden(name))
}

/// Where the file's own name is free in its category folder, the file is
/// moved there under that name.
pub proof fn free_name_is_kept(disk: Disk, fate: Fate, job: Job)
    requires
        is_file(disk, job.source),
        admissible(job),
        disk.dom().contains(folder(job)),
        !disk.dom().contains(target(job, 0)),
        fate.move_error is None,
    ensures
        relocate(disk, fate, job) == (
            moved(disk, job.source, target(job, 0)),
            Outcome::Moved(target(job, 0)),
        ),
{
    relocation_settles(disk, fate, job);
}

/// Where the file's own name is taken by another file, the file is moved
/// under the numbered name with the smallest counter that is free.
pub proof fn taken_name_is_numbered(disk: Disk, fate: Fate, job: Job, k: nat)
    requires
        is_file(disk, job.source),
        admissible(job),
        disk.dom().contains(folder(job)),
        disk.dom().contains(target(job, 0)),
        !same_file(disk, job.source, target(job, 0)),
        1 <= k <= counter_limit(),
        forall|j: nat| 1 <= j < k ==> disk.dom().contains(#[trigger] target(job, j)),
        !disk.dom().contains(target(job, k)),
        fate.move_error is None,
    ensures
        relocate(disk, fate, job) == (
            moved(disk, job.source, target(job, k)),
            Outcome::Renamed(target(job, k)),
        ),
{
    relocation_settles(disk, fate, job);
    lemma_first_free(disk, job, 1);
    let found = first_free(disk, job, 1);
    if found < k {
        assert(disk.dom().contains(target(job, found)));
    } else if found > k {
        assert(disk.dom().contains(target(job, k)));
    }
}

/// Where the file already stands in its category folder under its own name,
/// it is ignored and the disk is left as it is.
pub proof fn file_in_place_is_ignored(disk: Disk, fate: Fate, job: Job)
    requires
        is_file(disk, job.source),
        admissible(job),
        disk.dom().contains(folder(job)),
        same_file(disk, job.source, target(job, 0)),
    ensures
        relocate(disk, fate, job) == (disk, Outcome::Ignored(already_in_place())),
{
    relocation_settles(disk, fate, job);
}

/// The job that relocates again the file that `job` put at `path`.
pub open spec fn again(job: Job, path: Seq<char>) -> Job {
    Job {
        source: path,
        dest_root: job.dest_root,
        category: job.category,
        ignore_hidden: job.ignore_hidden,
    }
}

/// The path at which a relocation puts a file is the path that the file's
/// own name has in that category folder: relocated again, the file is its own
/// first candidate.
pub proof fn arrival_is_in_place(job: Job, k: nat)
    requires
        final_component(job.source) is Some,
    ensures
        final_component(target(job, k)) == Some(candidate_name(job, k)),
        target(again(job, target(job, k)), 0) == target(job, k),
{
    lemma_candidate_is_file_name(job, k);
    lemma_final_component_of_joined(folder(job), candidate_name(job, k));
}

/// Idempotence: a file that a relocation moved or renamed is ignored when it
/// is relocated again from where it now stands, and the disk is left as the
/// first relocation left it. The source must not be its own category folder.
pub proof fn second_relocation_is_ignored(disk: Disk, first: Fate, second: Fate, job: Job)
    requires
        job.source != folder(job),
        relocate(disk, first, job).1 is Moved || relocate(disk, first, job).1 is Renamed,
    ensures
        ({
            let (after, outcome) = relocate(disk, first, job);
            let path = match outcome {
                Outcome::Moved(path) | Outcome::Renamed(path) => path,
                _ => job.source,
            };
            &&& relocate(after, second, again(job, path)).0 == after
            &&& relocate(after, second, again(job, path)).1 is Ignored
        }),
{
    relocation_settles(disk, first, job);
    let grown = with_folders(disk, first.ancestors.insert(folder(job)), first.folder_id);
    let before = if disk.dom().contains(folder(job)) {
        disk
    } else {
        grown
    };
    let k = if !before.dom().contains(target(job, 0)) {
        0
    } else {
        first_free(before, job, 1)
    };
    let (after, outcome) = relocate(disk, first, job);
    assert(after == moved(before, job.source, target(job, k)));
    assert(outcome == arrival(job, k));
    let path = target(job, k);
    arrival_is_in_place(job, k);
    relocation_settles(after, second, again(job, path));
    assert(folder(again(job, path)) == folder(job));
    assert(after.dom().contains(folder(job)));
    assert(is_file(after, path));
    assert(same_file(after, path, path));
}

/// Two jobs that give their files the same candidates: the same category
/// folder and the same file name.
pub open spec fn namesakes(a: Job, b: Job) -> bool {
    &&& a.dest_root == b.dest_root
    &&& a.category == b.category
    &&& final_component(a.source) == final_component(b.source)
}

/// Collision determinism: three different files of one name that are
/// relocated one after the other into a category folder that holds none of
/// their candidates end as moved under the name, renamed with counter 1 and
/// renamed with counter 2; all three then stand in the folder, each at a path
/// of its own.
pub proof fn three_namesakes_line_up(disk: Disk, fates: (Fate, Fate, Fate), a: Job, b: Job, c: Job)
    requires
        namesakes(a, b),
        namesakes(a, c),
        admissible(a),
        admissible(b),
        admissible(c),
        is_file(disk, a.source),
        is_file(disk, b.source),
        is_file(disk, c.source),
        disk[a.source].id != disk[b.source].id,
        disk[a.source].id != disk[c.source].id,
        disk[b.source].id != disk[c.source].id,
        disk.dom().contains(folder(a)),
        !disk[folder(a)].regular,
        !disk.dom().contains(target(a, 0)),
        !disk.dom().contains(target(a, 1)),
        !disk.dom().contains(target(a, 2)),
        fates.0.move_error is None,
        fates.1.move_error is None,
        fates.2.move_error is None,
    ensures
        ({
            let (first, moved) = relocate(disk, fates.0, a);
            let (second, renamed) = relocate(first, fates.1, b);
            let (third, renamed_again) = relocate(second, fates.2, c);
            &&& moved == Outcome::Moved(target(a, 0))
            &&& renamed == Outcome::Renamed(target(a, 1))
            &&& renamed_again == Outcome::Renamed(target(a, 2))
            &&& third.dom().contains(target(a, 0)) && third[target(a, 0)] == disk[a.source]
            &&& third.dom().contains(target(a, 1)) && third[target(a, 1)] == disk[b.source]
            &&& third.dom().contains(target(a, 2)) && third[target(a, 2)] == disk[c.source]
            &&& target(a, 0) != target(a, 1)
            &&& target(a, 0) != target(a, 2)
            &&& target(a, 1) != target(a, 2)
        }),
{
    candidates_differ(a, 0, 1);
    candidates_differ(a, 0, 2);
    candidates_differ(a, 1, 2);
    assert forall|k: nat| target(b, k) == target(a, k) && target(c, k) == target(a, k) by {}
    free_name_is_kept(disk, fates.0, a);
    let first = moved(disk, a.source, target(a, 0));
    assert(!same_file(first, b.source, target(b, 0)));
    taken_name_is_numbered(first, fates.1, b, 1);
    let second = moved(first, b.source, target(a, 1));
    assert(!same_file(second, c.source, target(c, 0)));
    assert forall|j: nat| 1 <= j < 2 implies second.dom().contains(#[trigger] target(c, j)) by {
        assert(j == 1);
    }
    taken_name_is_numbered(second, fates.2, c, 2);
}

/// One pass, no way back: every truthful reply brings a relocation that is
/// not finished nearer to its end.
pub proof fn every_reply_brings_the_end_nearer(disk: Disk, fate: Fate, state: State)
    requires
        !(state.stage is Finished),
    ensures
        remaining(next(state, respond(disk, fate, pending(state)).1).stage) < remaining(
            state.stage,
        ),
{
}

} // verus!
