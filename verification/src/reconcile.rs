//! Bringing the disk into agreement with the declarations, link by link.
//!
//! A `Reconciler` goes through the links that were chosen, in order, and
//! keeps a row for each of them in its report. A link that is switched off,
//! a name that is not declared and a target that does not resolve get their
//! row at once. Every other link gets a `LinkRun`, and the reconciler hands
//! on what that run asks for. Whatever comes of one link, the next one is
//! taken up.
//!
//! Nothing is undone when a link fails, and nothing keeps two programs from
//! working on the same dotfiles directory at once: whoever runs them has to.

use vstd::prelude::*;
use crate::config::{Config, LinkConfig};
use crate::env::Env;
use crate::path::{adjoined, resolved};
use crate::symlink::{
    advanced, answers, asks, lemma_answer_brings_closer, steps_left, Event, LinkError, LinkRun,
    Outcome, Request, Stage, Symlink,
};

verus! {

/// What is to be done about one name.
#[derive(Debug, Clone, PartialEq, Eq)]
pub enum Task {
    /// The link is switched off.
    Skip,
    /// No link is declared under the name.
    Unknown,
    /// The link is to be put in place.
    Link(Symlink),
}

/// What came of one name.
#[derive(Debug, PartialEq, Eq)]
pub struct ReportRow {
    pub name: String,
    pub result: Result<Outcome, LinkError>,
}

/// The work on a choice of links.
#[derive(Debug)]
pub struct Reconciler {
    /// The names that were chosen, in order, each with what is to be done
    /// about it.
    pub rows: Vec<(String, Task)>,
    /// What came of the names that are dealt with: the row at an index
    /// belongs to the name at that index.
    pub report: Vec<ReportRow>,
    /// The run for the first name that is not dealt with yet, or nothing
    /// once every name is.
    pub run: Option<LinkRun>,
    /// Whether something else at a target may be removed.
    pub overwrite: bool,
    /// The dotfiles directory.
    pub root: String,
    /// The environment in which targets are resolved.
    pub env: Env,
}

/// What is to be done about a name, from what is declared under it.
pub open spec fn task_of(entry: Option<LinkConfig>) -> Task {
    match entry {
        None => Task::Unknown,
        Some(link) => if link.disabled == Some(true) {
            Task::Skip
        } else {
            Task::Link(link.symlink)
        },
    }
}

/// Whether `name` is among `names`.
pub open spec fn mentions(names: Seq<String>, name: Seq<char>) -> bool {
    exists|i: int| 0 <= i < names.len() && (#[trigger] names[i])@ == name
}

/// The names without repetitions: each name once, where it stands first.
pub open spec fn unique(names: Seq<String>) -> Seq<String>
    decreases names.len(),
{
    if names.len() == 0 {
        Seq::empty()
    } else {
        let before = unique(names.drop_last());
        if mentions(before, names.last()@) {
            before
        } else {
            before.push(names.last())
        }
    }
}

/// The names that are chosen, each with its task: without a filter every
/// declared link in the order of the table; with one, the names of the
/// filter, each once, in the order in which the filter first has them,
/// whether they are declared or not.
pub open spec fn planned(config: Config, filter: Option<Seq<String>>) -> Seq<(String, Task)> {
    match filter {
        None => Seq::new(
            config.links.len() as nat,
            |i: int| (config.links[i].0, task_of(Some(config.links[i].1))),
        ),
        Some(names) => Seq::new(
            unique(names).len(),
            |i: int| (unique(names)[i], task_of(config.declared(unique(names)[i]@))),
        ),
    }
}

/// The result that a task has without a look at the disk, if it has one: a
/// link that is switched off is skipped, a name that is not declared is
/// unknown, and a link whose target does not resolve has failed.
pub open spec fn immediate(task: Task, env: Map<Seq<char>, Seq<char>>) -> Option<
    Result<Outcome, LinkError>,
> {
    match task {
        Task::Skip => Some(Ok(Outcome::Skipped)),
        Task::Unknown => Some(Err(LinkError::UnknownEntry)),
        Task::Link(link) => if resolved(link.to@, env) is Err {
            Some(Err(LinkError::ResolutionFailed))
        } else {
            None
        },
    }
}

/// The rows of the names from `from` up to the first that needs a look at
/// the disk.
pub open spec fn settled(
    rows: Seq<(String, Task)>,
    from: int,
    env: Map<Seq<char>, Seq<char>>,
) -> Seq<ReportRow>
    decreases rows.len() - from,
{
    if from < 0 || from >= rows.len() {
        Seq::empty()
    } else {
        match immediate(rows[from].1, env) {
            Some(result) => seq![ReportRow { name: rows[from].0, result }] + settled(
                rows,
                from + 1,
                env,
            ),
            None => Seq::empty(),
        }
    }
}

/// Whether a result can be that of a task: a skipped link is reported as
/// skipped, an undeclared name as unknown, and a link that was worked on as
/// neither.
pub open spec fn fits(task: Task, result: Result<Outcome, LinkError>) -> bool {
    match task {
        Task::Skip => result == Ok::<Outcome, LinkError>(Outcome::Skipped),
        Task::Unknown => result == Err::<Outcome, LinkError>(LinkError::UnknownEntry),
        Task::Link(_) => result != Ok::<Outcome, LinkError>(Outcome::Skipped) && result != Err::<
            Outcome,
            LinkError,
        >(LinkError::UnknownEntry),
    }
}

/// Whether `run` is the unfinished work on `task`, begun with these
/// settings.
pub open spec fn works_on(
    run: LinkRun,
    task: Task,
    root: Seq<char>,
    env: Map<Seq<char>, Seq<char>>,
    overwrite: bool,
) -> bool {
    &&& task == Task::Link(run.link)
    &&& run.overwrite == overwrite
    &&& run.source@ == adjoined(root, run.link.from@)
    &&& resolved(run.link.to@, env) == Ok::<Seq<char>, Seq<char>>(run.target@)
    &&& !(run.stage is Done)
}

/// A run that is not done does not end as skipped or unknown.
pub proof fn lemma_run_result_fits(stage: Stage, event: Event, source: Seq<char>, overwrite: bool)
    requires
        !(stage is Done),
    ensures
        advanced(stage, event, source, overwrite) matches Stage::Done(result) ==> result != Ok::<
            Outcome,
            LinkError,
        >(Outcome::Skipped) && result != Err::<Outcome, LinkError>(LinkError::UnknownEntry),
{
}

/// Each settled row has the name of its place and a result that fits the
/// task there.
proof fn lemma_settled_rows(rows: Seq<(String, Task)>, from: int, env: Map<Seq<char>, Seq<char>>)
    requires
        0 <= from,
    ensures
        forall|k: int|
            0 <= k < settled(rows, from, env).len() ==> (#[trigger] settled(rows, from, env)[k]).name
                == rows[from + k].0 && fits(rows[from + k].1, settled(rows, from, env)[k].result),
    decreases rows.len() - from,
{
    if from < rows.len() && immediate(rows[from].1, env) is Some {
        lemma_settled_rows(rows, from + 1, env);
        let here = settled(rows, from, env);
        let rest = settled(rows, from + 1, env);
        assert forall|k: int| 0 <= k < here.len() implies (#[trigger] here[k]).name == rows[from
            + k].0 && fits(rows[from + k].1, here[k].result) by {
            if k > 0 {
                assert(here[k] == rest[k - 1]);
            }
        }
    }
}

/// What is to be done about a name, from what is declared under it.
pub fn task_for(entry: Option<&LinkConfig>) -> (task: Task)
    ensures
        task == task_of(
            match entry {
                Some(link) => Some(*link),
                None => None,
            },
        ),
{
    match entry {
        None => Task::Unknown,
        Some(link) => match link.disabled {
            Some(true) => Task::Skip,
            _ => Task::Link(link.symlink.copied()),
        },
    }
}

/// Whether `name` is among `names`.
pub fn is_among(names: &Vec<String>, name: &str) -> (r: bool)
    ensures
        r == mentions(names@, name@),
{
    let wanted: String = name.to_owned();
    let mut i: usize = 0;
    while i < names.len()
        invariant
            i <= names.len(),
            wanted@ == name@,
            forall|j: int| 0 <= j < i ==> names@[j]@ != name@,
        decreases names.len() - i,
    {
        if names[i] == wanted {
            return true;
        }
        i += 1;
    }
    false
}

/// The names without repetitions, as `unique` defines them.
pub fn without_repetitions(names: &Vec<String>) -> (kept: Vec<String>)
    ensures
        kept@ == unique(names@),
{
    let mut kept: Vec<String> = Vec::new();
    let mut i: usize = 0;
    assert(names@.take(0) =~= Seq::<String>::empty());
    while i < names.len()
        invariant
            i <= names.len(),
            kept@ == unique(names@.take(i as int)),
        decreases names.len() - i,
    {
        assert(names@.take(i + 1).drop_last() =~= names@.take(i as int));
        if !is_among(&kept, names[i].as_str()) {
            kept.push(names[i].clone());
        }
        i += 1;
    }
    assert(names@.take(names.len() as int) =~= names@);
    kept
}

/// The names that are chosen, each with its task, as `planned` defines
/// them.
pub fn plan(config: &Config, filter: Option<&Vec<String>>) -> (rows: Vec<(String, Task)>)
    ensures
        rows@ == planned(
            *config,
            match filter {
                Some(names) => Some(names@),
                None => None,
            },
        ),
{
    let mut rows: Vec<(String, Task)> = Vec::new();
    match filter {
        None => {
            let ghost all = planned(*config, None);
            let mut i: usize = 0;
            while i < config.links.len()
                invariant
                    i <= config.links.len(),
                    all == planned(*config, None),
                    rows.len() == i,
                    forall|j: int| 0 <= j < i ==> rows@[j] == all[j],
                decreases config.links.len() - i,
            {
                let task = task_for(Some(&config.links[i].1));
                rows.push((config.links[i].0.clone(), task));
                i += 1;
            }
            assert(rows@ =~= all);
        },
        Some(listed) => {
            let names = without_repetitions(listed);
            let ghost all = planned(*config, Some(listed@));
            let mut i: usize = 0;
            while i < names.len()
                invariant
                    i <= names.len(),
                    names@ == unique(listed@),
                    all == planned(*config, Some(listed@)),
                    rows.len() == i,
                    forall|j: int| 0 <= j < i ==> rows@[j] == all[j],
                decreases names.len() - i,
            {
                let task = task_for(config.link(names[i].as_str()));
                rows.push((names[i].clone(), task));
                i += 1;
            }
            assert(rows@ =~= all);
        },
    }
    rows
}

impl Reconciler {
    /// Whether the state hangs together: every row of the report belongs to
    /// the name at its index and fits its task, and there is a run exactly
    /// while a name is left, for the first such name.
    pub open spec fn wf(&self) -> bool {
        &&& self.report.len() <= self.rows.len()
        &&& forall|i: int|
            0 <= i < self.report.len() ==> (#[trigger] self.report[i]).name == self.rows[i].0
                && fits(self.rows[i].1, self.report[i].result)
        &&& match self.run {
            Some(run) => self.report.len() < self.rows.len() && works_on(
                run,
                self.rows[self.report.len() as int].1,
                self.root@,
                self.env@,
                self.overwrite,
            ),
            None => self.report.len() == self.rows.len(),
        }
    }

    /// Whether every name is dealt with.
    pub open spec fn finished(&self) -> bool {
        self.run is None
    }

    /// A bound on the reports that are still needed: three for every name
    /// without a row, less what the run in progress has behind it.
    pub open spec fn work_left(&self) -> nat {
        match self.run {
            Some(run) => (3 * (self.rows.len() - self.report.len() - 1) + steps_left(
                run.stage,
            )) as nat,
            None => 0,
        }
    }

    /// Deals with the names that need no look at the disk, from the first
    /// that has no row yet, and begins the run for the one after them.
    fn settle(&mut self) -> (next: Option<Request>)
        requires
            old(self).run is None,
            old(self).report.len() <= old(self).rows.len(),
        ensures
            final(self).rows == old(self).rows,
            final(self).overwrite == old(self).overwrite,
            final(self).root == old(self).root,
            final(self).env == old(self).env,
            final(self).report@ == old(self).report@ + settled(
                old(self).rows@,
                old(self).report.len() as int,
                old(self).env@,
            ),
            final(self).report.len() <= final(self).rows.len(),
            match final(self).run {
                Some(run) => final(self).report.len() < final(self).rows.len() && works_on(
                    run,
                    final(self).rows[final(self).report.len() as int].1,
                    final(self).root@,
                    final(self).env@,
                    final(self).overwrite,
                ) && run.stage == Stage::Probing && asks(
                    run.stage,
                    run.source@,
                    run.target@,
                    next,
                ),
                None => final(self).report.len() == final(self).rows.len() && next is None,
            },
    {
        let ghost start = self.report.len() as int;
        let ghost before = self.report@;
        assert(before + settled(self.rows@, start, self.env@) =~= self.report@ + settled(
            self.rows@,
            self.report.len() as int,
            self.env@,
        ));
        while self.report.len() < self.rows.len()
            invariant
                self.rows == old(self).rows,
                self.overwrite == old(self).overwrite,
                self.root == old(self).root,
                self.env == old(self).env,
                self.run is None,
                self.report.len() <= self.rows.len(),
                start == old(self).report.len(),
                before == old(self).report@,
                before + settled(self.rows@, start, self.env@) == self.report@ + settled(
                    self.rows@,
                    self.report.len() as int,
                    self.env@,
                ),
            decreases self.rows.len() - self.report.len(),
        {
            let at = self.report.len();
            let ghost done = self.report@;
            let ghost rest = settled(self.rows@, at + 1, self.env@);
            let result = match &self.rows[at].1 {
                Task::Skip => Ok(Outcome::Skipped),
                Task::Unknown => Err(LinkError::UnknownEntry),
                Task::Link(link) => {
                    let (run, request) = link.link(self.overwrite, self.root.as_str(), &self.env);
                    match run.result() {
                        Some(result) => result,
                        None => {
                            assert(settled(self.rows@, at as int, self.env@) =~= Seq::<
                                ReportRow,
                            >::empty());
                            assert(self.report@ + Seq::<ReportRow>::empty() =~= self.report@);
                            self.run = Some(run);
                            return request;
                        },
                    }
                },
            };
            let row = ReportRow { name: self.rows[at].0.clone(), result };
            self.report.push(row);
            assert(done + (seq![row] + rest) =~= self.report@ + rest);
        }
        assert(settled(self.rows@, self.report.len() as int, self.env@) =~= Seq::<
            ReportRow,
        >::empty());
        assert(self.report@ + Seq::<ReportRow>::empty() =~= self.report@);
        None
    }

    /// Begins the work on the links of `config` that `filter` chooses, seen
    /// from the dotfiles directory `root`, with targets resolved in `env`.
    ///
    /// The names are planned as `planned` says. Those at the front that
    /// need no look at the disk have their rows at once; the answer is what
    /// the run for the first of the others asks for, or `None` where there
    /// is no such name and the report is complete.
    pub fn start(
        config: &Config,
        filter: Option<&Vec<String>>,
        root: String,
        env: Env,
        overwrite: bool,
    ) -> (r: (Reconciler, Option<Request>))
        ensures
            r.0.rows@ == planned(
                *config,
                match filter {
                    Some(names) => Some(names@),
                    None => None,
                },
            ),
            r.0.root == root,
            r.0.env == env,
            r.0.overwrite == overwrite,
            r.0.report@ == settled(r.0.rows@, 0, env@),
            r.0.wf(),
            match r.0.run {
                Some(run) => run.stage == Stage::Probing && asks(
                    run.stage,
                    run.source@,
                    run.target@,
                    r.1,
                ),
                None => r.1 is None,
            },
    {
        let rows = plan(config, filter);
        let mut reconciler = Reconciler {
            rows,
            report: Vec::new(),
            run: None,
            overwrite,
            root,
            env,
        };
        let next = reconciler.settle();
        proof {
            assert(reconciler.report@ =~= settled(reconciler.rows@, 0, reconciler.env@));
            lemma_settled_rows(reconciler.rows@, 0, reconciler.env@);
        }
        (reconciler, next)
    }

    /// Takes in what the caller reports and says what is next.
    ///
    /// The event goes to the run in progress, which moves as `advanced`
    /// says. While that run is not done the report stays as it is and the
    /// answer is what the run asks for. Once it is done its result becomes
    /// the row of its name, whether it is an error or not; the names after
    /// it that need no look at the disk get their rows too, and the answer
    /// is what the run for the next name asks for. The answer is `None`
    /// exactly when every name has its row. Once that is so, an event
    /// changes nothing.
    pub fn step(&mut self, event: Event) -> (next: Option<Request>)
        ensures
            final(self).rows == old(self).rows,
            final(self).overwrite == old(self).overwrite,
            final(self).root == old(self).root,
            final(self).env == old(self).env,
            old(self).wf() ==> final(self).wf(),
            old(self).wf() ==> match old(self).run {
                None => final(self).report == old(self).report && final(self).run is None,
                Some(run) => match advanced(run.stage, event, run.source@, run.overwrite) {
                    Stage::Done(result) => final(self).report@ == old(self).report@.push(
                        ReportRow { name: old(self).rows[old(self).report.len() as int].0, result },
                    ) + settled(old(self).rows@, old(self).report.len() + 1, old(self).env@) && (
                    final(self).run matches Some(begun) ==> begun.stage == Stage::Probing),
                    stage => final(self).report == old(self).report && final(self).run == Some(
                        LinkRun { stage, ..run },
                    ),
                },
            },
            old(self).wf() ==> match final(self).run {
                Some(run) => asks(run.stage, run.source@, run.target@, next),
                None => next is None,
            },
            old(self).wf() && old(self).run is Some && answers(event, old(self).run->0.stage)
                ==> final(self).work_left() < old(self).work_left(),
    {
        let ghost rows = self.rows@;
        let ghost env = self.env@;
        let ghost before = self.report@;
        match self.run.take() {
            None => None,
            Some(mut run) => {
                let ghost stage = run.stage;
                proof {
                    lemma_answer_brings_closer(stage, event, run.source@, run.overwrite);
                }
                let next = run.step(event);
                match run.result() {
                    None => {
                        self.run = Some(run);
                        next
                    },
                    Some(result) => {
                        if self.report.len() < self.rows.len() {
                            let at = self.report.len();
                            let row = ReportRow { name: self.rows[at].0.clone(), result };
                            self.report.push(row);
                            let next = self.settle();
                            proof {
                                if old(self).wf() {
                                    let rest = settled(rows, at + 1, env);
                                    lemma_run_result_fits(
                                        stage,
                                        event,
                                        run.source@,
                                        run.overwrite,
                                    );
                                    lemma_settled_rows(rows, at + 1, env);
                                    assert(self.report@ =~= before.push(row) + rest);
                                    assert forall|i: int|
                                        0 <= i < self.report.len() implies (
                                    #[trigger] self.report[i]).name == self.rows[i].0 && fits(
                                        self.rows[i].1,
                                        self.report[i].result,
                                    ) by {
                                        if i < at {
                                            assert(self.report[i] == old(self).report[i]);
                                        } else if i > at {
                                            assert(self.report[i] == rest[i - at - 1]);
                                        }
                                    }
                                }
                            }
                            next
                        } else {
                            None
                        }
                    },
                }
            },
        }
    }

    /// Whether every name has its row, so that nothing is left to ask for.
    pub fn is_finished(&self) -> (r: bool)
        ensures
            r == self.finished(),
    {
        self.run.is_none()
    }

    /// The rows of the report, once every name has one; before that,
    /// nothing.
    pub fn into_report(self) -> (report: Option<Vec<ReportRow>>)
        ensures
            match report {
                Some(rows) => self.finished() && rows == self.report,
                None => !self.finished(),
            },
    {
        if self.run.is_none() {
            Some(self.report)
        } else {
            None
        }
    }
}

impl ReportRow {
    /// The row in words: the name, then what came of it.
    pub open spec fn words(self) -> Seq<char> {
        self.name@ + ": "@ + match self.result {
            Ok(outcome) => outcome.words(),
            Err(error) => error.words(),
        }
    }

    /// The row in words: the name, then what came of it.
    pub fn message(&self) -> (text: String)
        ensures
            text@ == self.words(),
    {
        let mut text = self.name.clone();
        text.append(": ");
        match self.result {
            Ok(outcome) => text.append(outcome.text()),
            Err(error) => text.append(error.text()),
        }
        text
    }
}

/// How many rows report a failure.
pub open spec fn failures(rows: Seq<ReportRow>) -> nat
    decreases rows.len(),
{
    if rows.len() == 0 {
        0
    } else {
        failures(rows.drop_last()) + if rows.last().result is Err {
            1nat
        } else {
            0nat
        }
    }
}

/// There are failures exactly if some row reports one.
pub proof fn lemma_failures_none(rows: Seq<ReportRow>)
    ensures
        failures(rows) <= rows.len(),
        failures(rows) == 0 <==> forall|i: int| 0 <= i < rows.len() ==> (#[trigger] rows[i]).result is Ok,
    decreases rows.len(),
{
    if rows.len() > 0 {
        lemma_failures_none(rows.drop_last());
        if failures(rows) == 0 {
            assert forall|i: int| 0 <= i < rows.len() implies (#[trigger] rows[i]).result is Ok by {
                if i < rows.len() - 1 {
                    assert(rows.drop_last()[i] == rows[i]);
                }
            }
        } else if rows.last().result is Ok {
            let i = choose|i: int|
                0 <= i < rows.drop_last().len() && !((#[trigger] rows.drop_last()[i]).result is Ok);
            assert(rows[i] == rows.drop_last()[i]);
        }
    }
}

/// How many rows report a failure.
pub fn count_failures(report: &Vec<ReportRow>) -> (count: usize)
    ensures
        count == failures(report@),
{
    let mut count: usize = 0;
    let mut i: usize = 0;
    assert(report@.take(0) =~= Seq::<ReportRow>::empty());
    while i < report.len()
        invariant
            i <= report.len(),
            count <= i,
            count == failures(report@.take(i as int)),
        decreases report.len() - i,
    {
        assert(report@.take(i + 1).drop_last() =~= report@.take(i as int));
        if report[i].result.is_err() {
            count += 1;
        }
        i += 1;
    }
    assert(report@.take(report.len() as int) =~= report@);
    count
}

/// The exit status that a report calls for: zero exactly if no row reports
/// a failure, else one.
pub fn exit_code(report: &Vec<ReportRow>) -> (code: u8)
    ensures
        code == if failures(report@) == 0 {
            0u8
        } else {
            1u8
        },
        code == 0 <==> forall|i: int| 0 <= i < report.len() ==> (#[trigger] report@[i]).result is Ok,
{
    proof {
        lemma_failures_none(report@);
    }
    if count_failures(report) == 0 {
        0
    } else {
        1
    }
}

/// Every name of `unique(names)` is among `names`, and every name among
/// `names` is in `unique(names)`, once.
pub proof fn lemma_unique(names: Seq<String>)
    ensures
        forall|name: Seq<char>| mentions(unique(names), name) == mentions(names, name),
        forall|i: int, j: int|
            0 <= i < j < unique(names).len() ==> (#[trigger] unique(names)[i])@ != (
            #[trigger] unique(names)[j])@,
    decreases names.len(),
{
    if names.len() > 0 {
        let before = names.drop_last();
        let last = names.last();
        lemma_unique(before);
        let kept = unique(before);
        let all = unique(names);
        assert forall|name: Seq<char>| mentions(all, name) == mentions(names, name) by {
            if mentions(names, name) {
                let i = choose|i: int| 0 <= i < names.len() && (#[trigger] names[i])@ == name;
                if i < before.len() {
                    assert(before[i]@ == name);
                    assert(mentions(before, name));
                    assert(mentions(kept, name));
                    let k = choose|k: int| 0 <= k < kept.len() && (#[trigger] kept[k])@ == name;
                    assert(all[k]@ == name);
                } else if mentions(kept, last@) {
                    let k = choose|k: int| 0 <= k < kept.len() && (#[trigger] kept[k])@ == last@;
                    assert(all[k]@ == name);
                } else {
                    assert(all[all.len() - 1]@ == name);
                }
            }
            if mentions(all, name) {
                let k = choose|k: int| 0 <= k < all.len() && (#[trigger] all[k])@ == name;
                if k < kept.len() {
                    assert(kept[k]@ == name);
                    assert(mentions(before, name));
                    let i = choose|i: int| 0 <= i < before.len() && (#[trigger] before[i])@ == name;
                    assert(names[i]@ == name);
                } else {
                    assert(names[names.len() - 1]@ == name);
                }
            }
        }
        assert forall|i: int, j: int| 0 <= i < j < all.len() implies (#[trigger] all[i])@ != (
        #[trigger] all[j])@ by {
            if j < kept.len() {
                assert(kept[i]@ != kept[j]@);
            } else {
                assert(kept[i]@ != last@);
            }
        }
    }
}

/// With a filter, the plan has the names of the filter and no other: a link
/// that the filter does not name has no row, however it is declared, and a
/// name of the filter has exactly one. Without a filter the plan has the
/// declared links, one row each.
pub proof fn lemma_plan_follows_filter(config: Config, filter: Option<Seq<String>>)
    ensures
        match filter {
            Some(names) => {
                &&& forall|i: int|
                    0 <= i < planned(config, filter).len() ==> mentions(
                        names,
                        (#[trigger] planned(config, filter)[i]).0@,
                    )
                &&& forall|k: int|
                    0 <= k < names.len() ==> exists|i: int|
                        0 <= i < planned(config, filter).len() && (#[trigger] planned(
                            config,
                            filter,
                        )[i]).0@ == (#[trigger] names[k])@
                &&& forall|i: int, j: int|
                    0 <= i < j < planned(config, filter).len() ==> (#[trigger] planned(
                        config,
                        filter,
                    )[i]).0@ != (#[trigger] planned(config, filter)[j]).0@
            },
            None => {
                &&& planned(config, filter).len() == config.links.len()
                &&& forall|i: int|
                    0 <= i < config.links.len() ==> (#[trigger] planned(config, filter)[i]).0
                        == config.links[i].0
            },
        },
{
    if let Some(names) = filter {
        lemma_unique(names);
        let rows = planned(config, filter);
        let kept = unique(names);
        assert forall|i: int| 0 <= i < rows.len() implies mentions(names, (#[trigger] rows[i]).0@) by {
            assert(rows[i].0 == kept[i]);
            assert(mentions(kept, kept[i]@));
        }
        assert forall|k: int| 0 <= k < names.len() implies exists|i: int|
            0 <= i < rows.len() && (#[trigger] rows[i]).0@ == (#[trigger] names[k])@ by {
            assert(mentions(names, names[k]@));
            assert(mentions(kept, names[k]@));
            let i = choose|i: int| 0 <= i < kept.len() && (#[trigger] kept[i])@ == names[k]@;
            assert(rows[i].0 == kept[i]);
        }
        assert forall|i: int, j: int| 0 <= i < j < rows.len() implies (#[trigger] rows[i]).0@ != (
        #[trigger] rows[j]).0@ by {
            assert(rows[i].0 == kept[i]);
            assert(rows[j].0 == kept[j]);
        }
    }
}

/// A link that is switched off is skipped: its task is to skip it, which
/// needs no look at the disk and is reported as `Skipped`.
pub proof fn lemma_disabled_is_skipped(link: LinkConfig, env: Map<Seq<char>, Seq<char>>)
    requires
        link.disabled == Some(true),
    ensures
        task_of(Some(link)) == Task::Skip,
        immediate(Task::Skip, env) == Some(Ok::<Outcome, LinkError>(Outcome::Skipped)),
{
}

/// Where no chosen name needs a look at the disk, every name has its row
/// from the beginning, so that nothing is ever asked of the caller.
pub proof fn lemma_settled_all(rows: Seq<(String, Task)>, from: int, env: Map<Seq<char>, Seq<char>>)
    requires
        0 <= from <= rows.len(),
        forall|i: int| from <= i < rows.len() ==> immediate((#[trigger] rows[i]).1, env) is Some,
    ensures
        settled(rows, from, env).len() == rows.len() - from,
        forall|k: int|
            0 <= k < rows.len() - from ==> (#[trigger] settled(rows, from, env)[k]).name == rows[from
                + k].0 && Some(settled(rows, from, env)[k].result) == immediate(
                rows[from + k].1,
                env,
            ),
    decreases rows.len() - from,
{
    if from < rows.len() {
        lemma_settled_all(rows, from + 1, env);
        let here = settled(rows, from, env);
        let rest = settled(rows, from + 1, env);
        assert(immediate(rows[from].1, env) is Some);
        assert forall|k: int| 0 <= k < rows.len() - from implies (#[trigger] here[k]).name
            == rows[from + k].0 && Some(here[k].result) == immediate(rows[from + k].1, env) by {
            if k > 0 {
                assert(here[k] == rest[k - 1]);
            }
        }
    }
}

/// Once every name is dealt with, the report has one row for each chosen
/// name, in the order of the plan, whatever came of the names before it: a
/// failure does not keep the names after it from their turn.
pub proof fn lemma_report_is_complete(reconciler: Reconciler)
    requires
        reconciler.wf(),
        reconciler.finished(),
    ensures
        reconciler.report.len() == reconciler.rows.len(),
        forall|i: int|
            0 <= i < reconciler.rows.len() ==> (#[trigger] reconciler.report[i]).name
                == reconciler.rows[i].0 && fits(reconciler.rows[i].1, reconciler.report[i].result),
{
}

} // verus!
