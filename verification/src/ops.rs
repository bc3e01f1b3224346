//! Moving one file into its category folder, decided step by step.
//!
//! The library never touches the disk. A [`Relocation`] says what must be
//! looked up or done next ([`Relocation::pending`]), the caller does it and
//! reports what happened ([`Relocation::step`]), until the relocation ends in
//! a [`MoveResult`].

use crate::path_text::{
    file_name, final_component, hidden, is_hidden, join, joined, numbered, numbered_name,
};
use vstd::prelude::*;

verus! {

/// How the relocation of one file ended.
#[derive(Debug, Clone, PartialEq, Eq)]
pub enum MoveResult {
    /// The file went to this path, under its own name.
    Moved(String),
    /// The file went to this path, under a numbered name, because its own was taken.
    Renamed(String),
    /// The file was left where it is, for this reason.
    Ignored(String),
    /// The file could not be moved, for this reason, and is where it was.
    Failed(String),
}

/// A [`MoveResult`] as plain values.
pub enum Outcome {
    Moved(Seq<char>),
    Renamed(Seq<char>),
    Ignored(Seq<char>),
    Failed(Seq<char>),
}

impl View for MoveResult {
    type V = Outcome;

    open spec fn view(&self) -> Outcome {
        match self {
            MoveResult::Moved(path) => Outcome::Moved(path@),
            MoveResult::Renamed(path) => Outcome::Renamed(path@),
            MoveResult::Ignored(reason) => Outcome::Ignored(reason@),
            MoveResult::Failed(reason) => Outcome::Failed(reason@),
        }
    }
}

/// What the caller of a [`Relocation`] has to look up or do next.
#[derive(Debug, Clone, PartialEq, Eq)]
pub enum Action {
    /// Say whether a regular file stands at this path.
    CheckSource(String),
    /// Say whether anything stands at this path, the category folder.
    CheckFolder(String),
    /// Create this folder with its missing ancestors.
    CreateFolder(String),
    /// Say whether anything stands at this path, a candidate destination.
    CheckTarget(String),
    /// Say whether the two paths lead to one and the same file.
    CompareFiles { source: String, target: String },
    /// Move the file at `from` to `to`, in one step.
    Move { from: String, to: String },
    /// Nothing: the relocation has ended.
    Finish(MoveResult),
}

/// An [`Action`] as plain values.
pub enum Task {
    CheckSource(Seq<char>),
    CheckFolder(Seq<char>),
    CreateFolder(Seq<char>),
    CheckTarget(Seq<char>),
    CompareFiles { source: Seq<char>, target: Seq<char> },
    Move { from: Seq<char>, to: Seq<char> },
    Finish(Outcome),
}

impl View for Action {
    type V = Task;

    open spec fn view(&self) -> Task {
        match self {
            Action::CheckSource(path) => Task::CheckSource(path@),
            Action::CheckFolder(path) => Task::CheckFolder(path@),
            Action::CreateFolder(path) => Task::CreateFolder(path@),
            Action::CheckTarget(path) => Task::CheckTarget(path@),
            Action::CompareFiles { source, target } => Task::CompareFiles {
                source: source@,
                target: target@,
            },
            Action::Move { from, to } => Task::Move { from: from@, to: to@ },
            Action::Finish(result) => Task::Finish(result@),
        }
    }
}

/// What the caller reports of the [`Action`] it was given.
#[derive(Debug, Clone, PartialEq, Eq)]
pub enum Event {
    /// The answer to a `Check…` or to `CompareFiles`.
    Answer(bool),
    /// `CreateFolder` or `Move` was carried out.
    Done,
    /// `CreateFolder` or `Move` failed; the text says why.
    Error(String),
}

/// An [`Event`] as plain values.
pub enum Reply {
    Answer(bool),
    Done,
    Error(Seq<char>),
}

impl View for Event {
    type V = Reply;

    open spec fn view(&self) -> Reply {
        match self {
            Event::Answer(yes) => Reply::Answer(*yes),
            Event::Done => Reply::Done,
            Event::Error(reason) => Reply::Error(reason@),
        }
    }
}

/// What is asked for: the file at `source` is to go under
/// `dest_root`/`category`, and hidden files stay where `ignore_hidden` is set.
pub struct Job {
    pub source: Seq<char>,
    pub dest_root: Seq<char>,
    pub category: Seq<char>,
    pub ignore_hidden: bool,
}

/// How far a relocation has come. Each stage but the last waits for the reply
/// to one [`Task`].
pub enum Stage {
    /// Is the source a regular file?
    Source,
    /// Is the category folder there?
    Folder,
    /// The category folder is being created.
    Creating,
    /// Is the candidate with this counter taken? Counter `0` stands for the
    /// file's own name.
    Target(nat),
    /// The file's own name is taken: by the source itself?
    Identity,
    /// The file is being moved to the candidate with this counter.
    Moving(nat),
    /// The relocation has ended.
    Finished(Outcome),
}

/// A [`Relocation`] as plain values.
pub struct State {
    pub job: Job,
    pub stage: Stage,
}

/// The largest counter that is tried before a relocation gives up.
pub open spec fn counter_limit() -> nat {
    u64::MAX as nat
}

/// Why a source that is no regular file is refused.
pub open spec fn invalid_source() -> Seq<char> {
    "Arquivo de origem inválido"@
}

/// Why a source whose path ends in no file name is refused.
pub open spec fn invalid_name() -> Seq<char> {
    "Nome de arquivo inválido"@
}

/// Why a hidden file stays where it is.
pub open spec fn hidden_file() -> Seq<char> {
    "Arquivo oculto"@
}

/// Why a file that already stands in its category folder stays where it is.
pub open spec fn already_in_place() -> Seq<char> {
    "Mesmo arquivo (já organizado)"@
}

/// Why a relocation fails when every numbered name up to the limit is taken.
pub open spec fn no_free_name() -> Seq<char> {
    "Nenhum nome livre"@
}

/// Why a relocation fails when its folder cannot be created for `reason`.
pub open spec fn folder_failure(reason: Seq<char>) -> Seq<char> {
    "Falha ao criar diretório: "@ + reason
}

/// Why a relocation fails when the move itself fails for `reason`.
pub open spec fn move_failure(reason: Seq<char>) -> Seq<char> {
    "Erro ao mover: "@ + reason
}

/// The category folder of `job`.
pub open spec fn folder(job: Job) -> Seq<char> {
    joined(job.dest_root, job.category)
}

/// The file name of the source of `job`; empty where its path ends in none.
pub open spec fn source_name(job: Job) -> Seq<char> {
    match final_component(job.source) {
        Some(name) => name,
        None => Seq::empty(),
    }
}

/// The name that the candidate with counter `k` gives the file: its own for
/// `0`, and `stem_k.ext` for the others.
pub open spec fn candidate_name(job: Job, k: nat) -> Seq<char> {
    if k == 0 {
        source_name(job)
    } else {
        numbered(source_name(job), k)
    }
}

/// The path of the candidate with counter `k`, in the category folder.
pub open spec fn target(job: Job, k: nat) -> Seq<char> {
    joined(folder(job), candidate_name(job, k))
}

/// The stage that follows once the source is known to be a regular file: the
/// file needs a name, and a hidden one stays where the job says so.
pub open spec fn admitted(job: Job) -> Stage {
    match final_component(job.source) {
        None => Stage::Finished(Outcome::Failed(invalid_name())),
        Some(name) => if job.ignore_hidden && hidden(name) {
            Stage::Finished(Outcome::Ignored(hidden_file()))
        } else {
            Stage::Folder
        },
    }
}

/// How a relocation that moved its file to the candidate with counter `k` ends.
pub open spec fn arrival(job: Job, k: nat) -> Outcome {
    if k == 0 {
        Outcome::Moved(target(job, 0))
    } else {
        Outcome::Renamed(target(job, k))
    }
}

/// The relocation of `job` before anything is known.
pub open spec fn initial(job: Job) -> State {
    State { job, stage: Stage::Source }
}

/// What `state` waits for.
pub open spec fn pending(state: State) -> Task {
    match state.stage {
        Stage::Source => Task::CheckSource(state.job.source),
        Stage::Folder => Task::CheckFolder(folder(state.job)),
        Stage::Creating => Task::CreateFolder(folder(state.job)),
        Stage::Target(k) => Task::CheckTarget(target(state.job, k)),
        Stage::Identity => Task::CompareFiles {
            source: state.job.source,
            target: target(state.job, 0),
        },
        Stage::Moving(k) => Task::Move { from: state.job.source, to: target(state.job, k) },
        Stage::Finished(outcome) => Task::Finish(outcome),
    }
}

/// The stage that follows `state` on `reply`. A reply that does not answer
/// what `state` waits for changes nothing.
pub open spec fn next_stage(state: State, reply: Reply) -> Stage {
    match (state.stage, reply) {
        (Stage::Source, Reply::Answer(regular)) => if regular {
            admitted(state.job)
        } else {
            Stage::Finished(Outcome::Failed(invalid_source()))
        },
        (Stage::Folder, Reply::Answer(present)) => if present {
            Stage::Target(0)
        } else {
            Stage::Creating
        },
        (Stage::Creating, Reply::Done) => Stage::Target(0),
        (Stage::Creating, Reply::Error(reason)) => Stage::Finished(
            Outcome::Failed(folder_failure(reason)),
        ),
        (Stage::Target(k), Reply::Answer(taken)) => if !taken {
            Stage::Moving(k)
        } else if k == 0 {
            Stage::Identity
        } else if k < counter_limit() {
            Stage::Target(k + 1)
        } else {
            Stage::Finished(Outcome::Failed(no_free_name()))
        },
        (Stage::Identity, Reply::Answer(same)) => if same {
            Stage::Finished(Outcome::Ignored(already_in_place()))
        } else {
            Stage::Target(1)
        },
        (Stage::Moving(k), Reply::Done) => Stage::Finished(arrival(state.job, k)),
        (Stage::Moving(k), Reply::Error(reason)) => Stage::Finished(
            Outcome::Failed(move_failure(reason)),
        ),
        (stage, _) => stage,
    }
}

/// The state that follows `state` on `reply`.
pub open spec fn next(state: State, reply: Reply) -> State {
    State { job: state.job, stage: next_stage(state, reply) }
}

/// How far a [`Relocation`] has come; [`Stage`] is its view.
enum Phase {
    Source,
    Folder,
    Creating,
    Target(u64),
    Identity,
    Moving(u64),
    Finished(MoveResult),
}

impl View for Phase {
    type V = Stage;

    closed spec fn view(&self) -> Stage {
        match self {
            Phase::Source => Stage::Source,
            Phase::Folder => Stage::Folder,
            Phase::Creating => Stage::Creating,
            Phase::Target(k) => Stage::Target(*k as nat),
            Phase::Identity => Stage::Identity,
            Phase::Moving(k) => Stage::Moving(*k as nat),
            Phase::Finished(result) => Stage::Finished(result@),
        }
    }
}

/// The relocation of one file, as far as it has come.
pub struct Relocation {
    source: String,
    dest_root: String,
    category: String,
    ignore_hidden: bool,
    phase: Phase,
}

impl View for Relocation {
    type V = State;

    closed spec fn view(&self) -> State {
        State {
            job: Job {
                source: self.source@,
                dest_root: self.dest_root@,
                category: self.category@,
                ignore_hidden: self.ignore_hidden,
            },
            stage: self.phase@,
        }
    }
}

/// A copy of `result`.
fn duplicate(result: &MoveResult) -> (copy: MoveResult)
    ensures
        copy@ == result@,
{
    match result {
        MoveResult::Moved(path) => MoveResult::Moved(path.clone()),
        MoveResult::Renamed(path) => MoveResult::Renamed(path.clone()),
        MoveResult::Ignored(reason) => MoveResult::Ignored(reason.clone()),
        MoveResult::Failed(reason) => MoveResult::Failed(reason.clone()),
    }
}

/// Relocates files into category folders.
pub struct FileOps;

impl FileOps {
    /// Begins the relocation of the file at `source` into the folder of
    /// `category` under `dest_root`. Nothing has happened yet: the relocation
    /// that comes back first asks whether the source is a regular file.
    pub fn organize_file(source: &str, dest_root: &str, category: &str, ignore_hidden: bool) -> (relocation: Relocation)
        ensures
            relocation@ == initial(
                Job { source: source@, dest_root: dest_root@, category: category@, ignore_hidden },
            ),
    {
        Relocation {
            source: source.to_owned(),
            dest_root: dest_root.to_owned(),
            category: category.to_owned(),
            ignore_hidden,
            phase: Phase::Source,
        }
    }
}

impl Relocation {
    /// The path of the candidate with counter `k`.
    fn target(&self, k: u64) -> (path: String)
        ensures
            path@ == target(self@.job, k as nat),
    {
        let name = match file_name(self.source.as_str()) {
            Some(name) => name,
            None => String::new(),
        };
        let folder = join(self.dest_root.as_str(), self.category.as_str());
        if k == 0 {
            join(folder.as_str(), name.as_str())
        } else {
            let numbered = numbered_name(name.as_str(), k);
            join(folder.as_str(), numbered.as_str())
        }
    }

    /// The phase that follows once the source is known to be a regular file.
    fn accept(&self) -> (phase: Phase)
        ensures
            phase@ == admitted(self@.job),
    {
        match file_name(self.source.as_str()) {
            None => Phase::Finished(MoveResult::Failed("Nome de arquivo inválido".to_owned())),
            Some(name) => {
                if self.ignore_hidden && is_hidden(name.as_str()) {
                    Phase::Finished(MoveResult::Ignored("Arquivo oculto".to_owned()))
                } else {
                    Phase::Folder
                }
            },
        }
    }

    /// What the caller has to look up or do next; `Finish` with the result
    /// once the relocation has ended.
    pub fn pending(&self) -> (action: Action)
        ensures
            action@ == pending(self@),
    {
        match &self.phase {
            Phase::Source => Action::CheckSource(self.source.clone()),
            Phase::Folder => Action::CheckFolder(
                join(self.dest_root.as_str(), self.category.as_str()),
            ),
            Phase::Creating => Action::CreateFolder(
                join(self.dest_root.as_str(), self.category.as_str()),
            ),
            Phase::Target(k) => Action::CheckTarget(self.target(*k)),
            Phase::Identity => Action::CompareFiles {
                source: self.source.clone(),
                target: self.target(0),
            },
            Phase::Moving(k) => Action::Move { from: self.source.clone(), to: self.target(*k) },
            Phase::Finished(result) => Action::Finish(duplicate(result)),
        }
    }

    /// The relocation after the caller reported `event` of the pending
    /// action. An event that does not answer that action changes nothing.
    pub fn step(self, event: Event) -> (after: Relocation)
        ensures
            after@ == next(self@, event@),
    {
        let phase = match event {
            Event::Answer(yes) => match self.phase {
                Phase::Source => {
                    if yes {
                        self.accept()
                    } else {
                        Phase::Finished(MoveResult::Failed("Arquivo de origem inválido".to_owned()))
                    }
                },
                Phase::Folder => {
                    if yes {
                        Phase::Target(0)
                    } else {
                        Phase::Creating
                    }
                },
                Phase::Target(k) => {
                    if !yes {
                        Phase::Moving(k)
                    } else if k == 0 {
                        Phase::Identity
                    } else if k < u64::MAX {
                        Phase::Target(k + 1)
                    } else {
                        Phase::Finished(MoveResult::Failed("Nenhum nome livre".to_owned()))
                    }
                },
                Phase::Identity => {
                    if yes {
                        Phase::Finished(
                            MoveResult::Ignored("Mesmo arquivo (já organizado)".to_owned()),
                        )
                    } else {
                        Phase::Target(1)
                    }
                },
                other => other,
            },
            Event::Done => match self.phase {
                Phase::Creating => Phase::Target(0),
                Phase::Moving(k) => {
                    let path = self.target(k);
                    if k == 0 {
                        Phase::Finished(MoveResult::Moved(path))
                    } else {
                        Phase::Finished(MoveResult::Renamed(path))
                    }
                },
                other => other,
            },
            Event::Error(reason) => match self.phase {
                Phase::Creating => Phase::Finished(
                    MoveResult::Failed(
                        "Falha ao criar diretório: ".to_owned().concat(reason.as_str()),
                    ),
                ),
                Phase::Moving(_) => Phase::Finished(
                    MoveResult::Failed("Erro ao mover: ".to_owned().concat(reason.as_str())),
                ),
                other => other,
            },
        };
        Relocation {
            source: self.source,
            dest_root: self.dest_root,
            category: self.category,
            ignore_hidden: self.ignore_hidden,
            phase,
        }
    }
}

/// A relocation that has ended stays as it ended, whatever is reported.
pub proof fn finished_stays_finished(job: Job, outcome: Outcome, reply: Reply)
    ensures
        next(State { job, stage: Stage::Finished(outcome) }, reply) == (State {
            job,
            stage: Stage::Finished(outcome),
        }),
{
}

/// A relocation asks for a move only to the path that it was just told is
/// free: it comes to move to a candidate only from the look at that candidate,
/// on the answer that nothing stands there.
pub proof fn move_follows_a_free_answer(state: State, reply: Reply, k: nat)
    requires
        next(state, reply).stage == Stage::Moving(k),
        state.stage != Stage::Moving(k),
    ensures
        state.stage == Stage::Target(k),
        reply == Reply::Answer(false),
        pending(state) == Task::CheckTarget(target(state.job, k)),
        pending(next(state, reply)) == (Task::Move {
            from: state.job.source,
            to: target(state.job, k),
        }),
{
}

/// A relocation ends as moved or renamed only on the report that the move
/// was carried out.
pub proof fn arrival_follows_a_move(state: State, reply: Reply)
    requires
        !(state.stage is Finished),
        next(state, reply).stage matches Stage::Finished(outcome) && (outcome is Moved
            || outcome is Renamed),
    ensures
        state.stage is Moving,
        reply == Reply::Done,
{
}

} // verus!
