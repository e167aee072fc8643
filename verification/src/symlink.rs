//! One link and the steps that put it in place.
//!
//! Putting a link in place takes looking at the disk and changing it, which
//! the library leaves to its caller. A `LinkRun` holds how far the work on
//! one link has come. It asks for one thing at a time, a `Request`; the
//! caller does it and reports what happened, an `Event`; the run then says
//! what is next, until it has a result.

use vstd::prelude::*;
use crate::env::Env;
use crate::path::{adjoin, adjoined, components, parse_path, resolved, same_path, ResolveError};

verus! {

/// A link as it is declared: `from` is the path of what is kept in the
/// dotfiles directory, relative to it; `to` is where the link belongs and
/// may hold placeholders.
#[derive(Debug, Clone, PartialEq, Eq)]
pub struct Symlink {
    pub from: String,
    pub to: String,
}

/// How the work on one link ended, where it ended well.
#[derive(Debug, Clone, Copy, PartialEq, Eq, Structural)]
pub enum Outcome {
    /// Nothing was at the target; the link was made.
    Created,
    /// The target was a link to the source already; nothing was done.
    AlreadyCorrect,
    /// Something else was at the target; it was removed and the link made.
    Replaced,
    /// The link is disabled; nothing was done.
    Skipped,
}

/// Why a link could not be put in place.
#[derive(Debug, Clone, Copy, PartialEq, Eq, Structural)]
pub enum LinkError {
    /// The target names a variable that is not set.
    ResolutionFailed,
    /// Nothing exists at the source.
    SourceMissing,
    /// Something is at the target and overwriting was not asked for.
    TargetExists,
    /// What was at the target could not be removed.
    RemovalFailed,
    /// The link could not be made.
    LinkCreationFailed,
    /// No link of that name is declared.
    UnknownEntry,
}

/// What was found at the source, following links.
#[derive(Debug, Clone, Copy, PartialEq, Eq, Structural)]
pub enum SourceKind {
    Missing,
    File,
    Directory,
}

/// What was found at the target itself, not following links. A link carries
/// its destination as it is stored, unresolved.
#[derive(Debug, Clone, PartialEq, Eq)]
pub enum TargetKind {
    Absent,
    File,
    Directory,
    Link(String),
}

/// What the target is with respect to a source.
#[derive(Debug, Clone, Copy, PartialEq, Eq, Structural)]
pub enum TargetState {
    /// Nothing is there.
    Absent,
    /// A file that is no link.
    File,
    /// A directory that is no link.
    Directory,
    /// A link to the source.
    Correct,
    /// A link to somewhere else.
    Stray,
}

/// How far the work on one link has come.
#[derive(Debug, Clone, Copy, PartialEq, Eq)]
pub enum Stage {
    /// Waiting to hear what is at the source and at the target.
    Probing,
    /// Waiting for what is at the target to be removed, as a whole tree or
    /// as a single file.
    Removing { tree: bool },
    /// Waiting for the link to be made where nothing was.
    Creating,
    /// Waiting for the link to be made where something was removed.
    Replacing,
    /// Nothing is left to do.
    Done(Result<Outcome, LinkError>),
}

/// What a run asks its caller to do.
#[derive(Debug, Clone, PartialEq, Eq)]
pub enum Request {
    /// Look at both paths and report `Event::Probed`.
    Probe { source: String, target: String },
    /// Remove the target with all that is below it and report
    /// `Event::Removed`.
    RemoveTree { target: String },
    /// Remove the target as a single file and report `Event::Removed`.
    RemoveFile { target: String },
    /// Make a link at `target` that points to `source` and report
    /// `Event::Linked`.
    CreateLink { source: String, target: String },
}

/// What the caller reports back.
#[derive(Debug, Clone, PartialEq, Eq)]
pub enum Event {
    Probed { source: SourceKind, target: TargetKind },
    Removed { ok: bool },
    Linked { ok: bool },
}

/// What a target that was found is with respect to `source`. A link counts
/// as correct where its stored destination has the components of `source`.
pub open spec fn target_state(found: TargetKind, source: Seq<char>) -> TargetState {
    match found {
        TargetKind::Absent => TargetState::Absent,
        TargetKind::File => TargetState::File,
        TargetKind::Directory => TargetState::Directory,
        TargetKind::Link(destination) => if components(destination@) == components(source) {
            TargetState::Correct
        } else {
            TargetState::Stray
        },
    }
}

/// The stage that follows a look at the disk.
///
/// A missing source ends the run; so does a target that is correct already.
/// Where nothing is at the target the link can be made. Anything else at the
/// target ends the run unless overwriting was asked for; then it is removed
/// first, as a tree if the source is a directory, else as a single file.
pub open spec fn decided(source: SourceKind, target: TargetState, overwrite: bool) -> Stage {
    if source is Missing {
        Stage::Done(Err(LinkError::SourceMissing))
    } else if target is Correct {
        Stage::Done(Ok(Outcome::AlreadyCorrect))
    } else if target is Absent {
        Stage::Creating
    } else if !overwrite {
        Stage::Done(Err(LinkError::TargetExists))
    } else {
        Stage::Removing { tree: source is Directory }
    }
}

/// The stage that follows `stage` once `event` is reported for a run with
/// the given source. An event that the stage does not wait for leaves it as
/// it is.
pub open spec fn advanced(stage: Stage, event: Event, source: Seq<char>, overwrite: bool) -> Stage {
    match (stage, event) {
        (Stage::Probing, Event::Probed { source: found, target }) => decided(
            found,
            target_state(target, source),
            overwrite,
        ),
        (Stage::Removing { tree }, Event::Removed { ok }) => if ok {
            Stage::Replacing
        } else {
            Stage::Done(Err(LinkError::RemovalFailed))
        },
        (Stage::Creating, Event::Linked { ok }) => if ok {
            Stage::Done(Ok(Outcome::Created))
        } else {
            Stage::Done(Err(LinkError::LinkCreationFailed))
        },
        (Stage::Replacing, Event::Linked { ok }) => if ok {
            Stage::Done(Ok(Outcome::Replaced))
        } else {
            Stage::Done(Err(LinkError::LinkCreationFailed))
        },
        _ => stage,
    }
}

/// Whether `request` is what a run at `stage` asks for, with these paths:
/// nothing once it is done, else the one thing that the stage waits for.
pub open spec fn asks(
    stage: Stage,
    source: Seq<char>,
    target: Seq<char>,
    request: Option<Request>,
) -> bool {
    match stage {
        Stage::Probing => request matches Some(Request::Probe { source: s, target: t }) && s@
            == source && t@ == target,
        Stage::Removing { tree } => if tree {
            request matches Some(Request::RemoveTree { target: t }) && t@ == target
        } else {
            request matches Some(Request::RemoveFile { target: t }) && t@ == target
        },
        Stage::Creating | Stage::Replacing => request matches Some(
            Request::CreateLink { source: s, target: t },
        ) && s@ == source && t@ == target,
        Stage::Done(_) => request is None,
    }
}

/// Whether a request changes the disk.
pub open spec fn changes_disk(request: Request) -> bool {
    !(request is Probe)
}

/// The work on one link: the declared link, the two paths it stands for and
/// how far the work has come.
#[derive(Debug, Clone, PartialEq, Eq)]
pub struct LinkRun {
    /// The link as it is declared.
    pub link: Symlink,
    /// The source, below the dotfiles directory.
    pub source: String,
    /// The target with its placeholders resolved, or the declared target
    /// where they could not be.
    pub target: String,
    /// Whether something else at the target may be removed.
    pub overwrite: bool,
    pub stage: Stage,
}

impl Symlink {
    /// The link in words.
    pub open spec fn words(self) -> Seq<char> {
        "Symlink: "@ + self.from@ + " => "@ + self.to@
    }

    /// The link in words: its source, an arrow, its target.
    pub fn text(&self) -> (text: String)
        ensures
            text@ == self.words(),
    {
        let mut text: String = "Symlink: ".to_owned();
        text.append(self.from.as_str());
        text.append(" => ");
        text.append(self.to.as_str());
        text
    }

    /// A copy of the link.
    pub fn copied(&self) -> (r: Symlink)
        ensures
            r == *self,
    {
        Symlink { from: self.from.clone(), to: self.to.clone() }
    }

    /// Where the link belongs: the declared target with its placeholders
    /// resolved in `env`.
    pub fn get_to(&self, env: &Env) -> (r: Result<String, ResolveError>)
        ensures
            match r {
                Ok(target) => resolved(self.to@, env@) == Ok::<Seq<char>, Seq<char>>(target@),
                Err(ResolveError::UnresolvedVariable(name)) => resolved(self.to@, env@) == Err::<
                    Seq<char>,
                    Seq<char>,
                >(name@),
            },
    {
        parse_path(self.to.as_str(), env)
    }

    /// What the link points to: the declared source as seen from the
    /// dotfiles directory.
    pub fn get_from(&self, config_root: &str) -> (source: String)
        ensures
            source@ == adjoined(config_root@, self.from@),
    {
        adjoin(config_root, self.from.as_str())
    }

    /// Whether what was found at the source of this link is a directory.
    /// That decides how something in the way at the target is removed: the
    /// link that replaces it will stand for a directory or for a file.
    pub fn is_dir(&self, found: SourceKind) -> (r: bool)
        ensures
            r == (found is Directory),
    {
        match found {
            SourceKind::Directory => true,
            _ => false,
        }
    }

    /// Begins the work on this link.
    ///
    /// The source is the declared one as seen from `config_root`. Where the
    /// target resolves in `env`, the run asks for a look at both paths;
    /// where it does not, the run is done at once with `ResolutionFailed`
    /// and asks for nothing.
    pub fn link(&self, overwrite: bool, config_root: &str, env: &Env) -> (r: (
        LinkRun,
        Option<Request>,
    ))
        ensures
            r.0.link == *self,
            r.0.overwrite == overwrite,
            r.0.source@ == adjoined(config_root@, self.from@),
            match resolved(self.to@, env@) {
                Ok(target) => r.0.target@ == target && r.0.stage == Stage::Probing,
                Err(_) => r.0.target@ == self.to@ && r.0.stage == Stage::Done(
                    Err(LinkError::ResolutionFailed),
                ),
            },
            asks(r.0.stage, r.0.source@, r.0.target@, r.1),
    {
        let source = self.get_from(config_root);
        match self.get_to(env) {
            Ok(target) => {
                let run = LinkRun {
                    link: self.copied(),
                    source,
                    target,
                    overwrite,
                    stage: Stage::Probing,
                };
                let request = run.request();
                (run, request)
            },
            Err(_) => {
                let run = LinkRun {
                    link: self.copied(),
                    source,
                    target: self.to.clone(),
                    overwrite,
                    stage: Stage::Done(Err(LinkError::ResolutionFailed)),
                };
                (run, None)
            },
        }
    }
}

impl LinkRun {
    /// What the run asks for at its stage.
    pub fn request(&self) -> (r: Option<Request>)
        ensures
            asks(self.stage, self.source@, self.target@, r),
    {
        match self.stage {
            Stage::Probing => Some(
                Request::Probe { source: self.source.clone(), target: self.target.clone() },
            ),
            Stage::Removing { tree } => if tree {
                Some(Request::RemoveTree { target: self.target.clone() })
            } else {
                Some(Request::RemoveFile { target: self.target.clone() })
            },
            Stage::Creating | Stage::Replacing => Some(
                Request::CreateLink { source: self.source.clone(), target: self.target.clone() },
            ),
            Stage::Done(_) => None,
        }
    }

    /// The result of the run, once it is done.
    pub fn result(&self) -> (r: Option<Result<Outcome, LinkError>>)
        ensures
            r == match self.stage {
                Stage::Done(result) => Some(result),
                _ => None,
            },
    {
        match self.stage {
            Stage::Done(result) => Some(result),
            _ => None,
        }
    }

    /// The stage that follows a look at the disk.
    fn decide(&self, found: SourceKind, target: &TargetKind) -> (stage: Stage)
        ensures
            stage == decided(found, target_state(*target, self.source@), self.overwrite),
    {
        let correct = match target {
            TargetKind::Link(destination) => same_path(destination.as_str(), self.source.as_str()),
            _ => false,
        };
        let absent = match target {
            TargetKind::Absent => true,
            _ => false,
        };
        match found {
            SourceKind::Missing => Stage::Done(Err(LinkError::SourceMissing)),
            _ => if correct {
                Stage::Done(Ok(Outcome::AlreadyCorrect))
            } else if absent {
                Stage::Creating
            } else if !self.overwrite {
                Stage::Done(Err(LinkError::TargetExists))
            } else {
                Stage::Removing { tree: self.link.is_dir(found) }
            },
        }
    }

    /// Takes in what the caller reports and says what is next.
    ///
    /// The stage moves as `advanced` says and nothing else of the run
    /// changes. The answer is what the new stage asks for: `None` once the
    /// run is done. An event that the stage does not wait for changes
    /// nothing, so the run asks again for what it waits for.
    pub fn step(&mut self, event: Event) -> (next: Option<Request>)
        ensures
            final(self).link == old(self).link,
            final(self).source == old(self).source,
            final(self).target == old(self).target,
            final(self).overwrite == old(self).overwrite,
            final(self).stage == advanced(
                old(self).stage,
                event,
                old(self).source@,
                old(self).overwrite,
            ),
            asks(final(self).stage, final(self).source@, final(self).target@, next),
    {
        let stage = match self.stage {
            Stage::Probing => match &event {
                Event::Probed { source, target } => self.decide(*source, target),
                _ => Stage::Probing,
            },
            Stage::Removing { tree } => match &event {
                Event::Removed { ok } => if *ok {
                    Stage::Replacing
                } else {
                    Stage::Done(Err(LinkError::RemovalFailed))
                },
                _ => Stage::Removing { tree },
            },
            Stage::Creating => match &event {
                Event::Linked { ok } => if *ok {
                    Stage::Done(Ok(Outcome::Created))
                } else {
                    Stage::Done(Err(LinkError::LinkCreationFailed))
                },
                _ => Stage::Creating,
            },
            Stage::Replacing => match &event {
                Event::Linked { ok } => if *ok {
                    Stage::Done(Ok(Outcome::Replaced))
                } else {
                    Stage::Done(Err(LinkError::LinkCreationFailed))
                },
                _ => Stage::Replacing,
            },
            Stage::Done(result) => Stage::Done(result),
        };
        self.stage = stage;
        self.request()
    }
}

/// The result of a whole run, from what the first look finds and from
/// whether the removal and the making of the link, where the run comes to
/// ask for them, succeed.
pub open spec fn reconciled(
    source: SourceKind,
    target: TargetState,
    overwrite: bool,
    removed: bool,
    linked: bool,
) -> Result<Outcome, LinkError> {
    if source is Missing {
        Err(LinkError::SourceMissing)
    } else if target is Correct {
        Ok(Outcome::AlreadyCorrect)
    } else if target is Absent {
        if linked {
            Ok(Outcome::Created)
        } else {
            Err(LinkError::LinkCreationFailed)
        }
    } else if !overwrite {
        Err(LinkError::TargetExists)
    } else if !removed {
        Err(LinkError::RemovalFailed)
    } else if linked {
        Ok(Outcome::Replaced)
    } else {
        Err(LinkError::LinkCreationFailed)
    }
}

/// What is at the target after a whole run, on a disk on which a removal
/// that succeeds leaves nothing at the target, a link that is made points to
/// the source, and a request that fails changes nothing.
pub open spec fn target_after(
    source: SourceKind,
    target: TargetState,
    overwrite: bool,
    removed: bool,
    linked: bool,
) -> TargetState {
    match decided(source, target, overwrite) {
        Stage::Creating => if linked {
            TargetState::Correct
        } else {
            target
        },
        Stage::Removing { tree } => if !removed {
            target
        } else if linked {
            TargetState::Correct
        } else {
            TargetState::Absent
        },
        _ => target,
    }
}

/// The stage that a run has reached when it was told what a look found and
/// then, each time it asked for a removal or for the link, whether that
/// succeeded.
pub open spec fn driven(
    found: SourceKind,
    target: TargetKind,
    source: Seq<char>,
    overwrite: bool,
    removed: bool,
    linked: bool,
) -> Stage {
    let looked = advanced(Stage::Probing, Event::Probed { source: found, target }, source, overwrite);
    let cleared = if looked is Removing {
        advanced(looked, Event::Removed { ok: removed }, source, overwrite)
    } else {
        looked
    };
    if cleared is Creating || cleared is Replacing {
        advanced(cleared, Event::Linked { ok: linked }, source, overwrite)
    } else {
        cleared
    }
}

/// A run that is told what it asks for is done after at most three events,
/// with the result that `reconciled` gives.
pub proof fn lemma_run_ends_as_reconciled(
    found: SourceKind,
    target: TargetKind,
    source: Seq<char>,
    overwrite: bool,
    removed: bool,
    linked: bool,
)
    ensures
        driven(found, target, source, overwrite, removed, linked) == Stage::Done(
            reconciled(found, target_state(target, source), overwrite, removed, linked),
        ),
{
}

/// Only a run that waits for a removal or for the link asks for something
/// that changes the disk; a run that is looking or done does not.
pub proof fn lemma_changes_only_when_decided(
    stage: Stage,
    source: Seq<char>,
    target: Seq<char>,
    request: Request,
)
    requires
        asks(stage, source, target, Some(request)),
    ensures
        changes_disk(request) == (stage is Removing || stage is Creating || stage is Replacing),
{
}

/// Running twice: whenever a run ends well, whatever it had to do, a second
/// run on what it left finds the link in place and reports `AlreadyCorrect`,
/// with or without overwriting. In particular the second run after one that
/// reported `Created` does.
pub proof fn lemma_second_run_finds_the_link(
    source: SourceKind,
    target: TargetState,
    overwrite: bool,
    removed: bool,
    linked: bool,
    again_overwrite: bool,
    again_removed: bool,
    again_linked: bool,
)
    requires
        reconciled(source, target, overwrite, removed, linked) is Ok,
    ensures
        reconciled(
            source,
            target_after(source, target, overwrite, removed, linked),
            again_overwrite,
            again_removed,
            again_linked,
        ) == Ok::<Outcome, LinkError>(Outcome::AlreadyCorrect),
{
}

/// Without overwriting, a file at the target stays: where the source
/// exists the run is done after its look with `TargetExists`, and the target
/// is the file it was.
pub proof fn lemma_existing_file_is_kept(source: SourceKind, removed: bool, linked: bool)
    requires
        !(source is Missing),
    ensures
        decided(source, TargetState::File, false) == Stage::Done(Err(LinkError::TargetExists)),
        reconciled(source, TargetState::File, false, removed, linked) == Err::<
            Outcome,
            LinkError,
        >(LinkError::TargetExists),
        target_after(source, TargetState::File, false, removed, linked) == TargetState::File,
{
}

/// With overwriting, a directory at the target gives way: where the source
/// exists the run asks for its removal, as a whole tree exactly if the source
/// is a directory, and where removal and link succeed the run reports
/// `Replaced` and the target is a link to the source.
pub proof fn lemma_directory_is_replaced(source: SourceKind)
    requires
        !(source is Missing),
    ensures
        decided(source, TargetState::Directory, true) == (Stage::Removing {
            tree: source is Directory,
        }),
        reconciled(source, TargetState::Directory, true, true, true) == Ok::<Outcome, LinkError>(
            Outcome::Replaced,
        ),
        target_after(source, TargetState::Directory, true, true, true) == TargetState::Correct,
{
}

/// Whether `event` is the report that a run at `stage` waits for.
pub open spec fn answers(event: Event, stage: Stage) -> bool {
    match stage {
        Stage::Probing => event is Probed,
        Stage::Removing { tree } => event is Removed,
        Stage::Creating | Stage::Replacing => event is Linked,
        Stage::Done(_) => false,
    }
}

/// How many reports a run at `stage` may still need.
pub open spec fn steps_left(stage: Stage) -> nat {
    match stage {
        Stage::Probing => 3,
        Stage::Removing { tree } => 2,
        Stage::Creating | Stage::Replacing => 1,
        Stage::Done(_) => 0,
    }
}

/// A run comes to its end: every report that it waits for brings it closer
/// to being done, and any other report leaves it where it is.
pub proof fn lemma_answer_brings_closer(
    stage: Stage,
    event: Event,
    source: Seq<char>,
    overwrite: bool,
)
    ensures
        answers(event, stage) ==> steps_left(advanced(stage, event, source, overwrite))
            < steps_left(stage),
        !answers(event, stage) ==> advanced(stage, event, source, overwrite) == stage,
{
}

impl Outcome {
    /// The outcome in words.
    pub open spec fn words(self) -> Seq<char> {
        match self {
            Outcome::Created => "created"@,
            Outcome::AlreadyCorrect => "already correct"@,
            Outcome::Replaced => "replaced"@,
            Outcome::Skipped => "skipped"@,
        }
    }

    /// The outcome in words.
    pub fn text(&self) -> (text: &'static str)
        ensures
            text@ == self.words(),
    {
        match self {
            Outcome::Created => "created",
            Outcome::AlreadyCorrect => "already correct",
            Outcome::Replaced => "replaced",
            Outcome::Skipped => "skipped",
        }
    }
}

impl LinkError {
    /// The error in words.
    pub open spec fn words(self) -> Seq<char> {
        match self {
            LinkError::ResolutionFailed => "the target names a variable that is not set"@,
            LinkError::SourceMissing => "the source does not exist"@,
            LinkError::TargetExists => "the target exists"@,
            LinkError::RemovalFailed => "the target could not be removed"@,
            LinkError::LinkCreationFailed => "the link could not be made"@,
            LinkError::UnknownEntry => "no such link is declared"@,
        }
    }

    /// The error in words.
    pub fn text(&self) -> (text: &'static str)
        ensures
            text@ == self.words(),
    {
        match self {
            LinkError::ResolutionFailed => "the target names a variable that is not set",
            LinkError::SourceMissing => "the source does not exist",
            LinkError::TargetExists => "the target exists",
            LinkError::RemovalFailed => "the target could not be removed",
            LinkError::LinkCreationFailed => "the link could not be made",
            LinkError::UnknownEntry => "no such link is declared",
        }
    }
}

} // verus!
