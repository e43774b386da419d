//! Carrying out fixes and exports: what is done in what order, what stops it, and what the dialog
//! shows of it.
use vstd::prelude::*;
use crate::capture::{ExportEvent, ExportModel};
use crate::checks::{Fix, FixModel};
use crate::install::{Event, EventModel};
use crate::path::{file_name, name_of_path};
use crate::text::{cat2, cat3, cat5, join, joined};
use crate::tune::{bytes_text, human_bytes, Action, ActionModel};

verus! {

/// How far something has come.
#[derive(Debug, Clone, PartialEq, Eq)]
pub enum Part {
    /// So much of a total.
    Of { done: u64, total: u64 },
    /// So many seconds of video, as the exporter wrote them, of a recording of so many microseconds
    /// where its length is known.
    Seconds { written: String, of: Option<u64> },
}

/// How far something has come.
#[verifier::ext_equal]
pub enum PartModel {
    Of(u64, u64),
    Seconds(Seq<char>, Option<u64>),
}

impl DeepView for Part {
    type V = PartModel;

    open spec fn deep_view(&self) -> PartModel {
        match self {
            Part::Of { done, total } => PartModel::Of(*done, *total),
            Part::Seconds { written, of } => PartModel::Seconds(written@, *of),
        }
    }
}

/// What a running task reports. One vocabulary for every kind of work, so that the dialog does not
/// have to know whether it is watching a package install, a module build or a video export.
#[derive(Debug, Clone, PartialEq, Eq)]
pub enum TaskEvent {
    Stage(String),
    /// How far it has come, and what is said of it; for an export that is how many frames it wrote.
    Progress { label: String, part: Part },
    Log(String),
    Failed(String),
    Finished { ok: bool },
}

/// What a running task reports.
#[verifier::ext_equal]
pub enum TaskModel {
    Stage(Seq<char>),
    Progress(Seq<char>, PartModel),
    Log(Seq<char>),
    Failed(Seq<char>),
    Finished(bool),
}

impl DeepView for TaskEvent {
    type V = TaskModel;

    open spec fn deep_view(&self) -> TaskModel {
        match self {
            TaskEvent::Stage(text) => TaskModel::Stage(text@),
            TaskEvent::Progress { label, part } => TaskModel::Progress(label@, part.deep_view()),
            TaskEvent::Log(text) => TaskModel::Log(text@),
            TaskEvent::Failed(text) => TaskModel::Failed(text@),
            TaskEvent::Finished { ok } => TaskModel::Finished(*ok),
        }
    }
}

// ---------------------------------------------------------------------------
// The dialog
// ---------------------------------------------------------------------------

/// What the dialog of a task shows.
#[derive(Debug, PartialEq, Eq)]
pub struct TaskView {
    pub stage: String,
    /// What the progress bar shows, while it is shown.
    pub bar: Option<(String, Part)>,
    pub log: Vec<String>,
    /// The last failure that was reported.
    pub failure: Option<String>,
    /// How the task ended, once it has.
    pub ended: Option<bool>,
    /// What is said where it did not finish.
    pub summary: Option<String>,
}

/// What the dialog of a task shows.
#[verifier::ext_equal]
pub struct TaskViewModel {
    pub stage: Seq<char>,
    pub bar: Option<(Seq<char>, PartModel)>,
    pub log: Seq<Seq<char>>,
    pub failure: Option<Seq<char>>,
    pub ended: Option<bool>,
    pub summary: Option<Seq<char>>,
}

impl DeepView for TaskView {
    type V = TaskViewModel;

    open spec fn deep_view(&self) -> TaskViewModel {
        TaskViewModel {
            stage: self.stage@,
            bar: self.bar.deep_view(),
            log: self.log.deep_view(),
            failure: self.failure.deep_view(),
            ended: self.ended,
            summary: self.summary.deep_view(),
        }
    }
}

/// What the dialog shows after an event. A task has succeeded only where it says so and no failure
/// was reported before.
pub open spec fn view_after(v: TaskViewModel, event: TaskModel) -> TaskViewModel {
    match event {
        TaskModel::Stage(text) => TaskViewModel {
            stage: text,
            log: v.log.push("▸ "@ + text),
            ..v
        },
        TaskModel::Progress(label, part) => TaskViewModel { bar: Some((label, part)), ..v },
        TaskModel::Log(line) => TaskViewModel { log: v.log.push(line), ..v },
        TaskModel::Failed(message) => TaskViewModel {
            log: v.log.push("✖ "@ + message),
            failure: Some(message),
            ..v
        },
        TaskModel::Finished(ok) => if ok && v.failure is None {
            TaskViewModel { stage: "Done"@, bar: None, ended: Some(true), ..v }
        } else {
            TaskViewModel {
                stage: "Did not finish"@,
                bar: None,
                ended: Some(false),
                summary: Some(
                    match v.failure {
                        Some(message) => message,
                        None => "Something did not complete. The details below say what."@,
                    },
                ),
                ..v
            }
        },
    }
}

impl TaskView {
    /// The dialog of a task that has not reported anything.
    pub fn new() -> (r: TaskView)
        ensures
            r.deep_view() == (TaskViewModel {
                stage: "Starting…"@,
                bar: None,
                log: Seq::empty(),
                failure: None,
                ended: None,
                summary: None,
            }),
    {
        let log: Vec<String> = Vec::new();
        assert(log.deep_view() =~= Seq::empty());
        TaskView {
            stage: String::from_str("Starting…"),
            bar: None,
            log,
            failure: None,
            ended: None,
            summary: None,
        }
    }

    fn append_log(&mut self, line: String)
        ensures
            final(self).deep_view() == (TaskViewModel {
                log: old(self).deep_view().log.push(line@),
                ..old(self).deep_view()
            }),
    {
        let ghost before = self.log.deep_view();
        let ghost text = line@;
        self.log.push(line);
        assert(self.log.deep_view() =~= before.push(text));
    }

    /// Takes an event into the dialog, and says how the task ended where it has.
    pub fn handle(&mut self, event: &TaskEvent) -> (r: Option<bool>)
        ensures
            final(self).deep_view() == view_after(old(self).deep_view(), event.deep_view()),
            r is Some == (event is Finished),
            r is Some ==> r == final(self).ended,
    {
        match event {
            TaskEvent::Stage(text) => {
                self.stage = text.clone();
                self.append_log(cat2("▸ ", text));
                None
            },
            TaskEvent::Progress { label, part } => {
                self.bar = Some((label.clone(), copied_part(part)));
                None
            },
            TaskEvent::Log(line) => {
                self.append_log(line.clone());
                None
            },
            TaskEvent::Failed(message) => {
                self.append_log(cat2("✖ ", message));
                self.failure = Some(message.clone());
                None
            },
            TaskEvent::Finished { ok } => {
                let done: bool = *ok && self.failure.is_none();
                self.ended = Some(done);
                self.bar = None;
                if done {
                    self.stage = String::from_str("Done");
                } else {
                    self.stage = String::from_str("Did not finish");
                    let said: String = match &self.failure {
                        Some(message) => message.clone(),
                        None => String::from_str(
                            "Something did not complete. The details below say what.",
                        ),
                    };
                    self.summary = Some(said);
                }
                Some(done)
            },
        }
    }
}

/// What is reported where a worker went away without saying how it ended.
pub fn lost_task() -> (r: (TaskEvent, TaskEvent))
    ensures
        r.0.deep_view() == TaskModel::Failed("The task ended without reporting a result"@),
        r.1.deep_view() == TaskModel::Finished(false),
{
    (
        TaskEvent::Failed(String::from_str("The task ended without reporting a result")),
        TaskEvent::Finished { ok: false },
    )
}

// ---------------------------------------------------------------------------
// Jobs
// ---------------------------------------------------------------------------

/// What a job does outside this library.
#[derive(Debug, PartialEq, Eq)]
pub enum Work {
    /// Installs packages.
    Install(Vec<String>),
    /// Carries out an action as root.
    AsRoot(Action),
    /// Nothing.
    Rest,
}

/// What a job does.
#[verifier::ext_equal]
pub enum WorkModel {
    Install(Seq<Seq<char>>),
    AsRoot(ActionModel),
    Rest,
}

impl DeepView for Work {
    type V = WorkModel;

    open spec fn deep_view(&self) -> WorkModel {
        match self {
            Work::Install(packages) => WorkModel::Install(packages.deep_view()),
            Work::AsRoot(action) => WorkModel::AsRoot(action.deep_view()),
            Work::Rest => WorkModel::Rest,
        }
    }
}

/// One thing to do: what is reported before it, what it does, and what is reported once it is done.
#[derive(Debug, PartialEq, Eq)]
pub struct Job {
    pub before: TaskEvent,
    pub work: Work,
    pub after: Vec<TaskEvent>,
}

/// One thing to do.
#[verifier::ext_equal]
pub struct JobModel {
    pub before: TaskModel,
    pub work: WorkModel,
    pub after: Seq<TaskModel>,
}

impl DeepView for Job {
    type V = JobModel;

    open spec fn deep_view(&self) -> JobModel {
        JobModel {
            before: self.before.deep_view(),
            work: self.work.deep_view(),
            after: self.after.deep_view(),
        }
    }
}

/// Building modules for a kernel.
pub open spec fn build_job(kernel: Seq<char>) -> JobModel {
    JobModel {
        before: TaskModel::Stage(
            "Building driver modules for "@ + kernel + " — this takes a few minutes"@,
        ),
        work: WorkModel::AsRoot(ActionModel::DkmsInstall { kernel }),
        after: seq![TaskModel::Log("✔ modules built for "@ + kernel)],
    }
}

/// What there is to do for a fix.
pub open spec fn jobs_for(fix: FixModel) -> Seq<JobModel> {
    match fix {
        FixModel::Install(packages) => seq![
            JobModel {
                before: TaskModel::Stage("Installing "@ + join(packages, ", "@)),
                work: WorkModel::Install(packages),
                after: Seq::empty(),
            },
        ],
        FixModel::BuildModules(kernels) => kernels.map_values(
            |kernel: Seq<char>| build_job(kernel),
        ),
        FixModel::ApplyTweaks => seq![
            JobModel {
                before: TaskModel::Stage("Applying system settings"@),
                work: WorkModel::AsRoot(ActionModel::ApplyTweaks),
                after: seq![
                    TaskModel::Log("✔ settings written, and saved so they survive a reboot"@),
                    TaskModel::Log("The open-file limit takes effect at your next login."@),
                ],
            },
        ],
        FixModel::Manual(advice) => seq![
            JobModel {
                before: TaskModel::Log(advice),
                work: WorkModel::Rest,
                after: Seq::empty(),
            },
        ],
    }
}

/// What there is to do for fixes, in their order.
pub open spec fn jobs_for_all(fixes: Seq<FixModel>) -> Seq<JobModel>
    decreases fixes.len(),
{
    if fixes.len() == 0 {
        Seq::empty()
    } else {
        jobs_for_all(fixes.drop_last()) + jobs_for(fixes.last())
    }
}

fn no_events() -> (r: Vec<TaskEvent>)
    ensures
        r.deep_view() == Seq::<TaskModel>::empty(),
{
    let none: Vec<TaskEvent> = Vec::new();
    assert(none.deep_view() =~= Seq::empty());
    none
}

fn one_event(event: TaskEvent) -> (r: Vec<TaskEvent>)
    ensures
        r.deep_view() == seq![event.deep_view()],
{
    let ghost one = event.deep_view();
    let mut list: Vec<TaskEvent> = Vec::new();
    list.push(event);
    assert(list.deep_view() =~= seq![one]);
    list
}

fn one_job(job: Job) -> (r: Vec<Job>)
    ensures
        r.deep_view() == seq![job.deep_view()],
{
    let ghost one = job.deep_view();
    let mut list: Vec<Job> = Vec::new();
    list.push(job);
    assert(list.deep_view() =~= seq![one]);
    list
}

/// What there is to do for a fix.
pub fn fix_jobs(fix: &Fix) -> (r: Vec<Job>)
    ensures
        r.deep_view() == jobs_for(fix.deep_view()),
{
    match fix {
        Fix::Install(packages) => one_job(
            Job {
                before: TaskEvent::Stage(cat2("Installing ", &joined(packages, ", "))),
                work: Work::Install(crate::checks::copied_strings(packages)),
                after: no_events(),
            },
        ),
        Fix::BuildModules(kernels) => {
            let ghost every = kernels.deep_view();
            let ghost f = |kernel: Seq<char>| build_job(kernel);
            let mut jobs: Vec<Job> = Vec::new();
            let mut i: usize = 0;
            assert(jobs.deep_view() =~= every.take(0).map_values(f));
            while i < kernels.len()
                invariant
                    i <= kernels.len(),
                    every == kernels.deep_view(),
                    f == (|kernel: Seq<char>| build_job(kernel)),
                    jobs.deep_view() == every.take(i as int).map_values(f),
                decreases kernels.len() - i,
            {
                let ghost before = jobs.deep_view();
                assert(every[i as int] == kernels@[i as int]@);
                let kernel = &kernels[i];
                let job = Job {
                    before: TaskEvent::Stage(
                        cat3(
                            "Building driver modules for ",
                            kernel,
                            " — this takes a few minutes",
                        ),
                    ),
                    work: Work::AsRoot(Action::DkmsInstall { kernel: kernel.clone() }),
                    after: one_event(TaskEvent::Log(cat2("✔ modules built for ", kernel))),
                };
                let ghost one = job.deep_view();
                jobs.push(job);
                assert(jobs.deep_view() =~= before.push(one));
                i = i + 1;
                assert(jobs.deep_view() =~= every.take(i as int).map_values(f));
            }
            assert(every.take(i as int) =~= every);
            jobs
        },
        Fix::ApplyTweaks => {
            let mut after: Vec<TaskEvent> = Vec::new();
            after.push(
                TaskEvent::Log(
                    String::from_str("✔ settings written, and saved so they survive a reboot"),
                ),
            );
            after.push(
                TaskEvent::Log(
                    String::from_str("The open-file limit takes effect at your next login."),
                ),
            );
            assert(after.deep_view() =~= seq![
                TaskModel::Log("✔ settings written, and saved so they survive a reboot"@),
                TaskModel::Log("The open-file limit takes effect at your next login."@),
            ]);
            one_job(
                Job {
                    before: TaskEvent::Stage(String::from_str("Applying system settings")),
                    work: Work::AsRoot(Action::ApplyTweaks),
                    after,
                },
            )
        },
        Fix::Manual(advice) => one_job(
            Job {
                before: TaskEvent::Log(String::from_str(advice)),
                work: Work::Rest,
                after: no_events(),
            },
        ),
    }
}

/// How the work of a job came out.
#[derive(Debug, PartialEq, Eq)]
pub enum Outcome {
    Done,
    /// It failed, and this is said of it.
    Failed(String),
    /// It did not finish; what went wrong was reported already.
    Unfinished,
}

/// A run over jobs: which is next, and whether the run goes on.
#[derive(Debug)]
pub struct Run {
    jobs: Vec<Job>,
    at: usize,
    ok: bool,
}

/// Where a run stands.
#[verifier::ext_equal]
pub struct RunModel {
    pub jobs: Seq<JobModel>,
    pub at: int,
    pub ok: bool,
}

impl DeepView for Run {
    type V = RunModel;

    closed spec fn deep_view(&self) -> RunModel {
        RunModel { jobs: self.jobs.deep_view(), at: self.at as int, ok: self.ok }
    }
}

/// The job that a run does next; none where it is through, or something failed.
pub open spec fn next_job(r: RunModel) -> Option<JobModel> {
    if r.ok && r.at < r.jobs.len() {
        Some(r.jobs[r.at])
    } else {
        None
    }
}

/// A run after a job came out one way or another: a failure ends it.
pub open spec fn run_after(r: RunModel, done: bool) -> RunModel {
    if done {
        RunModel { at: r.at + 1, ..r }
    } else {
        RunModel { ok: false, ..r }
    }
}

/// What is reported of how a job came out.
pub open spec fn reported(job: JobModel, outcome: Outcome) -> Seq<TaskModel> {
    match outcome {
        Outcome::Done => job.after,
        Outcome::Failed(message) => seq![TaskModel::Failed(message@)],
        Outcome::Unfinished => Seq::empty(),
    }
}

impl Run {
    #[verifier::type_invariant]
    spec fn in_bounds(&self) -> bool {
        self.at <= self.jobs.len()
    }

    /// A run over what there is to do for fixes.
    pub fn new(fixes: &Vec<Fix>) -> (r: Run)
        ensures
            r.deep_view() == (RunModel {
                jobs: jobs_for_all(fixes.deep_view()),
                at: 0,
                ok: true,
            }),
    {
        let ghost every = fixes.deep_view();
        let mut jobs: Vec<Job> = Vec::new();
        let mut i: usize = 0;
        assert(jobs.deep_view() =~= Seq::empty());
        while i < fixes.len()
            invariant
                i <= fixes.len(),
                every == fixes.deep_view(),
                jobs.deep_view() == jobs_for_all(every.take(i as int)),
            decreases fixes.len() - i,
        {
            assert(every.take(i + 1).drop_last() =~= every.take(i as int));
            assert(every.take(i + 1).last() == fixes@[i as int].deep_view());
            let ghost before = jobs.deep_view();
            let mut more = fix_jobs(&fixes[i]);
            let ghost m = more.deep_view();
            jobs.append(&mut more);
            assert(jobs.deep_view() =~= before + m);
            i = i + 1;
        }
        assert(every.take(i as int) =~= every);
        Run { jobs, at: 0, ok: true }
    }

    /// The job that is next; none where the run is over.
    pub fn next(&self) -> (r: Option<&Job>)
        ensures
            r is Some == next_job(self.deep_view()) is Some,
            r is Some ==> r->0.deep_view() == next_job(self.deep_view())->0,
    {
        if self.ok && self.at < self.jobs.len() {
            Some(&self.jobs[self.at])
        } else {
            None
        }
    }

    /// Takes how the next job came out, and gives what is reported of it. A failure stops the rest:
    /// a driver that failed to install must not be followed by an attempt to build its modules.
    pub fn report(self, outcome: Outcome) -> (r: (Run, Vec<TaskEvent>))
        requires
            next_job(self.deep_view()) is Some,
        ensures
            r.0.deep_view() == run_after(self.deep_view(), outcome is Done),
            r.1.deep_view() == reported(next_job(self.deep_view())->0, outcome),
    {
        match outcome {
            Outcome::Done => {
                let n: usize = self.jobs.len();
                assert(self.at < n);
                let events = copied_events(&self.jobs[self.at].after);
                (Run { jobs: self.jobs, at: self.at + 1, ok: true }, events)
            },
            Outcome::Failed(message) => (
                Run { jobs: self.jobs, at: self.at, ok: false },
                one_event(TaskEvent::Failed(message)),
            ),
            Outcome::Unfinished => (
                Run { jobs: self.jobs, at: self.at, ok: false },
                no_events(),
            ),
        }
    }

    /// What is reported when the run is over.
    pub fn finished(&self) -> (r: TaskEvent)
        ensures
            r.deep_view() == TaskModel::Finished(self.deep_view().ok),
    {
        TaskEvent::Finished { ok: self.ok }
    }
}

fn copied_part(part: &Part) -> (r: Part)
    ensures
        r.deep_view() == part.deep_view(),
{
    match part {
        Part::Of { done, total } => Part::Of { done: *done, total: *total },
        Part::Seconds { written, of } => Part::Seconds { written: written.clone(), of: *of },
    }
}

fn copied_event(event: &TaskEvent) -> (r: TaskEvent)
    ensures
        r.deep_view() == event.deep_view(),
{
    match event {
        TaskEvent::Stage(text) => TaskEvent::Stage(text.clone()),
        TaskEvent::Progress { label, part } => TaskEvent::Progress {
            label: label.clone(),
            part: copied_part(part),
        },
        TaskEvent::Log(text) => TaskEvent::Log(text.clone()),
        TaskEvent::Failed(text) => TaskEvent::Failed(text.clone()),
        TaskEvent::Finished { ok } => TaskEvent::Finished { ok: *ok },
    }
}

fn copied_events(events: &Vec<TaskEvent>) -> (r: Vec<TaskEvent>)
    ensures
        r.deep_view() == events.deep_view(),
{
    let ghost every = events.deep_view();
    let mut out: Vec<TaskEvent> = Vec::new();
    let mut i: usize = 0;
    while i < events.len()
        invariant
            i <= events.len(),
            every == events.deep_view(),
            out.deep_view() == every.take(i as int),
        decreases events.len() - i,
    {
        let ghost before = out.deep_view();
        out.push(copied_event(&events[i]));
        assert(out.deep_view() =~= before.push(every[i as int]));
        i = i + 1;
        assert(out.deep_view() =~= every.take(i as int));
    }
    assert(every.take(i as int) =~= every);
    out
}

// ---------------------------------------------------------------------------
// An install
// ---------------------------------------------------------------------------

/// What a task reports of an event of an install; nothing of its end.
pub open spec fn install_task(event: EventModel) -> Option<TaskModel> {
    match event {
        EventModel::Stage(text) => Some(TaskModel::Stage(text)),
        EventModel::Progress(label, done, total) => Some(
            TaskModel::Progress(
                label + " — "@ + bytes_text(done) + " of "@ + bytes_text(total),
                PartModel::Of(done, total),
            ),
        ),
        EventModel::Message(text) => Some(TaskModel::Log(text)),
        EventModel::Failed(message) => Some(TaskModel::Failed(message)),
        EventModel::Exited(_) => None,
    }
}

/// Whether an install is still good after an event: a failure spoils it, and so does an exit that
/// was no success.
pub open spec fn still_good(ok: bool, event: EventModel) -> bool {
    match event {
        EventModel::Failed(_) => false,
        EventModel::Exited(success) => ok && success,
        _ => ok,
    }
}

/// Takes an event of an install: whether the install is still good, and what is reported.
pub fn install_event(ok: bool, event: &Event) -> (r: (bool, Option<TaskEvent>))
    ensures
        r.0 == still_good(ok, event.deep_view()),
        r.1.deep_view() == install_task(event.deep_view()),
{
    match event {
        Event::Stage(text) => (ok, Some(TaskEvent::Stage(text.clone()))),
        Event::Progress { label, done, total } => (
            ok,
            Some(
                TaskEvent::Progress {
                    label: cat5(
                        label,
                        " — ",
                        &human_bytes(*done),
                        " of ",
                        &human_bytes(*total),
                    ),
                    part: Part::Of { done: *done, total: *total },
                },
            ),
        ),
        Event::Message(text) => (ok, Some(TaskEvent::Log(text.clone()))),
        Event::Failed(message) => (false, Some(TaskEvent::Failed(message.clone()))),
        Event::Exited { success } => (ok && *success, None),
    }
}

/// How an install came out, and what is reported where it was not good.
pub fn install_finished(ok: bool) -> (r: (Outcome, Option<TaskEvent>))
    ensures
        ok ==> r.0 is Done && r.1 is None,
        !ok ==> r.0 is Unfinished && r.1.deep_view() == Some(
            TaskModel::Log("rvn did not finish successfully"@),
        ),
{
    if ok {
        (Outcome::Done, None)
    } else {
        (
            Outcome::Unfinished,
            Some(TaskEvent::Log(String::from_str("rvn did not finish successfully"))),
        )
    }
}

// ---------------------------------------------------------------------------
// Fixes
// ---------------------------------------------------------------------------

/// The packages that fixes install, in their order.
pub open spec fn packages_in(fixes: Seq<FixModel>) -> Seq<Seq<char>>
    decreases fixes.len(),
{
    if fixes.len() == 0 {
        Seq::empty()
    } else {
        packages_in(fixes.drop_last()) + (match fixes.last() {
            FixModel::Install(names) => names,
            _ => Seq::empty(),
        })
    }
}

/// The packages that fixes install, in their order.
pub fn packages_of(fixes: &Vec<Fix>) -> (r: Vec<String>)
    ensures
        r.deep_view() == packages_in(fixes.deep_view()),
{
    let ghost every = fixes.deep_view();
    let mut out: Vec<String> = Vec::new();
    let mut i: usize = 0;
    assert(out.deep_view() =~= Seq::empty());
    while i < fixes.len()
        invariant
            i <= fixes.len(),
            every == fixes.deep_view(),
            out.deep_view() == packages_in(every.take(i as int)),
        decreases fixes.len() - i,
    {
        assert(every.take(i + 1).drop_last() =~= every.take(i as int));
        assert(every.take(i + 1).last() == fixes@[i as int].deep_view());
        let ghost before = out.deep_view();
        if let Fix::Install(names) = &fixes[i] {
            let mut more = crate::checks::copied_strings(names);
            let ghost m = more.deep_view();
            out.append(&mut more);
            assert(out.deep_view() =~= before + m);
        } else {
            assert(before + Seq::<Seq<char>>::empty() =~= before);
        }
        i = i + 1;
    }
    assert(every.take(i as int) =~= every);
    out
}

/// What the dialog over fixes is called.
pub open spec fn title_for(fixes: Seq<FixModel>) -> Seq<char> {
    if fixes.len() == 1 {
        match fixes[0] {
            FixModel::Install(names) => if names.len() == 1 {
                "Installing "@ + names[0]
            } else {
                "Installing packages"@
            },
            FixModel::BuildModules(_) => "Building driver modules"@,
            FixModel::ApplyTweaks => "Applying system settings"@,
            FixModel::Manual(_) => "Setting this computer up for games"@,
        }
    } else {
        "Setting this computer up for games"@
    }
}

/// What the dialog over fixes is called.
pub fn fixes_title(fixes: &Vec<Fix>) -> (r: String)
    ensures
        r@ == title_for(fixes.deep_view()),
{
    if fixes.len() == 1 {
        assert(fixes.deep_view()[0] == fixes@[0].deep_view());
        match &fixes[0] {
            Fix::Install(names) => if names.len() == 1 {
                assert(names.deep_view()[0] == names@[0]@);
                cat2("Installing ", &names[0])
            } else {
                String::from_str("Installing packages")
            },
            Fix::BuildModules(_) => String::from_str("Building driver modules"),
            Fix::ApplyTweaks => String::from_str("Applying system settings"),
            Fix::Manual(_) => String::from_str("Setting this computer up for games"),
        }
    } else {
        String::from_str("Setting this computer up for games")
    }
}

/// What comes of a request to carry out fixes.
#[derive(Debug, PartialEq, Eq)]
pub enum Request {
    /// Something else is running.
    Busy,
    /// Packages cannot be installed, for this reason; a terminal may be offered for them.
    Unavailable { reason: String, packages: Vec<String> },
    /// The fixes are carried out, under this title.
    Start { title: String },
}

/// What comes of a request to carry out fixes, given whether something is running, and why packages
/// cannot be installed where they cannot.
pub fn request_fixes(busy: bool, fixes: &Vec<Fix>, unavailable: Option<String>) -> (r: Request)
    ensures
        r is Busy == busy,
        r is Unavailable == (!busy && packages_in(fixes.deep_view()).len() > 0 && unavailable
            is Some),
        r is Unavailable ==> r->reason == unavailable->0 && r->packages.deep_view() == packages_in(
            fixes.deep_view(),
        ),
        r is Start ==> r->title@ == title_for(fixes.deep_view()),
{
    if busy {
        return Request::Busy;
    }
    let packages = packages_of(fixes);
    if packages.len() > 0 {
        if let Some(reason) = unavailable {
            return Request::Unavailable { reason, packages };
        }
    }
    Request::Start { title: fixes_title(fixes) }
}

/// What is said when a task has ended: nothing where it failed, or there is nothing to say.
pub fn finished_toast(ok: bool, text: &str) -> (r: Option<String>)
    ensures
        r.deep_view() == (if ok && text@.len() > 0 {
            Some(text@)
        } else {
            None
        }),
{
    if ok && crate::text::chars_of(text).len() > 0 {
        Some(String::from_str(text))
    } else {
        None
    }
}

// ---------------------------------------------------------------------------
// Actions as root without a dialog
// ---------------------------------------------------------------------------

/// Actions carried out as root one after another, and what is said once they are.
#[derive(Debug)]
pub struct RootRun {
    actions: Vec<Action>,
    at: usize,
    failure: Option<String>,
    said: String,
}

/// Where a run of actions stands.
#[verifier::ext_equal]
pub struct RootRunModel {
    pub actions: Seq<ActionModel>,
    pub at: int,
    pub failure: Option<Seq<char>>,
    pub said: Seq<char>,
}

impl DeepView for RootRun {
    type V = RootRunModel;

    closed spec fn deep_view(&self) -> RootRunModel {
        RootRunModel {
            actions: self.actions.deep_view(),
            at: self.at as int,
            failure: self.failure.deep_view(),
            said: self.said@,
        }
    }
}

/// The action that is next; none where all are done, or one failed.
pub open spec fn next_action(r: RootRunModel) -> Option<ActionModel> {
    if r.failure is None && r.at < r.actions.len() {
        Some(r.actions[r.at])
    } else {
        None
    }
}

/// A run of actions after the next one came out, with its failure where it failed.
pub open spec fn root_after(r: RootRunModel, failure: Option<Seq<char>>) -> RootRunModel {
    match failure {
        Some(error) => RootRunModel { failure: Some(error), ..r },
        None => RootRunModel { at: r.at + 1, ..r },
    }
}

impl RootRun {
    /// A run of actions, and what is said once they are done.
    pub fn new(actions: Vec<Action>, said: &str) -> (r: RootRun)
        ensures
            r.deep_view() == (RootRunModel {
                actions: actions.deep_view(),
                at: 0,
                failure: None,
                said: said@,
            }),
    {
        RootRun { actions, at: 0, failure: None, said: String::from_str(said) }
    }

    /// The action that is next.
    pub fn next(&self) -> (r: Option<&Action>)
        ensures
            r is Some == next_action(self.deep_view()) is Some,
            r is Some ==> r->0.deep_view() == next_action(self.deep_view())->0,
    {
        if self.failure.is_none() && self.at < self.actions.len() {
            Some(&self.actions[self.at])
        } else {
            None
        }
    }

    /// Takes how the next action came out. A failure ends the run.
    pub fn report(self, outcome: Result<(), String>) -> (r: RootRun)
        requires
            next_action(self.deep_view()) is Some,
        ensures
            r.deep_view() == root_after(
                self.deep_view(),
                match outcome {
                    Ok(_) => None,
                    Err(error) => Some(error@),
                },
            ),
    {
        match outcome {
            Ok(_) => {
                let n: usize = self.actions.len();
                assert(self.at < n);
                RootRun {
                    actions: self.actions,
                    at: self.at + 1,
                    failure: self.failure,
                    said: self.said,
                }
            },
            Err(error) => RootRun {
                actions: self.actions,
                at: self.at,
                failure: Some(error),
                said: self.said,
            },
        }
    }

    /// What is said at the end: the failure, or what was to be said.
    pub fn toast(&self) -> (r: String)
        ensures
            r@ == (match self.deep_view().failure {
                Some(error) => error,
                None => self.deep_view().said,
            }),
    {
        match &self.failure {
            Some(error) => error.clone(),
            None => self.said.clone(),
        }
    }
}

// ---------------------------------------------------------------------------
// An export
// ---------------------------------------------------------------------------

/// What the dialog over an export is called.
pub fn export_title(source: &str) -> (r: String)
    ensures
        r@ == "Exporting "@ + (match file_name(source@) {
            Some(name) => name,
            None => ""@,
        }),
{
    let name: String = match name_of_path(source) {
        Some(name) => name,
        None => String::from_str(""),
    };
    cat2("Exporting ", &name)
}

/// What a task reports of an event of an export of a recording of some length, to a file.
pub open spec fn export_task(event: ExportModel, total: Option<u64>, destination: Seq<char>) -> TaskModel {
    match event {
        ExportModel::Progress(frames, seconds) => TaskModel::Progress(
            crate::number::decimal(frames as int) + " frames"@,
            PartModel::Seconds(seconds, total),
        ),
        ExportModel::Log(line) => TaskModel::Log(line),
        ExportModel::Finished(ok, message) => if ok {
            TaskModel::Log("✔ wrote "@ + destination)
        } else {
            TaskModel::Failed(message)
        },
    }
}

/// Takes an event of an export: whether the export is still good, and what is reported.
pub fn export_event(ok: bool, event: &ExportEvent, total: Option<u64>, destination: &str) -> (r: (
    bool,
    TaskEvent,
))
    ensures
        r.0 == (match event.deep_view() {
            ExportModel::Finished(success, _) => success,
            _ => ok,
        }),
        r.1.deep_view() == export_task(event.deep_view(), total, destination@),
{
    match event {
        ExportEvent::Progress { frames, seconds } => (
            ok,
            TaskEvent::Progress {
                label: cat2(&crate::number::decimal_of(*frames), " frames"),
                part: Part::Seconds { written: seconds.clone(), of: total },
            },
        ),
        ExportEvent::Log(line) => (ok, TaskEvent::Log(line.clone())),
        ExportEvent::Finished { ok: success, message } => {
            if *success {
                (true, TaskEvent::Log(cat2("✔ wrote ", destination)))
            } else {
                (false, TaskEvent::Failed(message.clone()))
            }
        },
    }
}

// ---------------------------------------------------------------------------
// Laws
// ---------------------------------------------------------------------------

/// After a failure no other job is started.
pub proof fn a_failure_stops_the_rest(r: RunModel)
    ensures
        next_job(run_after(r, false)) is None,
{
}

/// After an action failed no other is carried out as root, and the failure is what is said.
pub proof fn a_failed_action_is_the_last(r: RootRunModel, error: Seq<char>)
    ensures
        next_action(root_after(r, Some(error))) is None,
        root_after(r, Some(error)).failure == Some(error),
{
}

/// A run that is over without a failure has done every job.
pub proof fn a_good_run_does_everything(r: RunModel)
    requires
        next_job(r) is None,
        r.ok,
        0 <= r.at,
    ensures
        r.at >= r.jobs.len(),
{
}

/// A run does its jobs in their order, one after another.
pub proof fn jobs_are_done_in_order(r: RunModel)
    requires
        r.ok,
        0 <= r.at,
        r.at + 1 < r.jobs.len(),
    ensures
        next_job(run_after(r, true)) == Some(r.jobs[r.at + 1]),
{
}

/// A task that reported a failure has not succeeded, whatever it says at its end.
pub proof fn a_failure_is_never_success(v: TaskViewModel, message: Seq<char>, ok: bool)
    ensures
        view_after(view_after(v, TaskModel::Failed(message)), TaskModel::Finished(ok)).ended
            == Some(false),
        view_after(view_after(v, TaskModel::Failed(message)), TaskModel::Finished(ok)).summary
            == Some(message),
{
}

/// An install that failed once is not good again, whatever follows.
pub proof fn a_failed_install_stays_failed(events: Seq<EventModel>, i: int)
    requires
        0 <= i < events.len(),
        events[i] is Failed,
    ensures
        !good_after(events),
    decreases events.len(),
{
    if i < events.len() - 1 {
        a_failed_install_stays_failed(events.drop_last(), i);
    }
}

/// Whether an install is good after events.
pub open spec fn good_after(events: Seq<EventModel>) -> bool
    decreases events.len(),
{
    if events.len() == 0 {
        true
    } else {
        still_good(good_after(events.drop_last()), events.last())
    }
}

/// The jobs follow the fixes: those of the first fixes come first, then those of the rest, and there
/// are no others.
pub proof fn jobs_follow_the_fixes(first: Seq<FixModel>, rest: Seq<FixModel>)
    ensures
        jobs_for_all(first + rest) == jobs_for_all(first) + jobs_for_all(rest),
    decreases rest.len(),
{
    if rest.len() == 0 {
        assert(first + rest =~= first);
        assert(jobs_for_all(first) + jobs_for_all(rest) =~= jobs_for_all(first));
    } else {
        jobs_follow_the_fixes(first, rest.drop_last());
        assert((first + rest).drop_last() =~= first + rest.drop_last());
        assert((first + rest).last() == rest.last());
        let a = jobs_for_all(first);
        let b = jobs_for_all(rest.drop_last());
        let c = jobs_for(rest.last());
        assert(a + b + c =~= a + (b + c));
    }
}

/// Each fix is carried out by what it is for: packages by one install of just those packages, modules by
/// one build as root for each kernel, in their order, the settings by one change as root. Advice is given
/// and nothing is done.
pub proof fn each_fix_is_carried_out(packages: Seq<Seq<char>>, kernels: Seq<Seq<char>>, advice: Seq<char>, i: int)
    ensures
        jobs_for(FixModel::Install(packages)).len() == 1,
        jobs_for(FixModel::Install(packages))[0].work == WorkModel::Install(packages),
        jobs_for(FixModel::BuildModules(kernels)).len() == kernels.len(),
        0 <= i < kernels.len() ==> jobs_for(FixModel::BuildModules(kernels))[i].work == WorkModel::AsRoot(
            ActionModel::DkmsInstall { kernel: kernels[i] },
        ),
        jobs_for(FixModel::ApplyTweaks).len() == 1,
        jobs_for(FixModel::ApplyTweaks)[0].work == WorkModel::AsRoot(ActionModel::ApplyTweaks),
        jobs_for(FixModel::Manual(advice)).len() == 1,
        jobs_for(FixModel::Manual(advice))[0].work == WorkModel::Rest,
        jobs_for(FixModel::Manual(advice))[0].before == TaskModel::Log(advice),
{
}

/// A run goes on to the next job exactly where the one before was done, and starts with the first.
pub proof fn a_run_goes_on_only_after_success(jobs: Seq<JobModel>, at: int)
    requires
        0 <= at < jobs.len(),
    ensures
        next_job(RunModel { jobs, at, ok: true }) == Some(jobs[at]),
        next_job(RunModel { jobs, at, ok: false }) is None,
        run_after(RunModel { jobs, at, ok: true }, true) == (RunModel { jobs, at: at + 1, ok: true }),
        !run_after(RunModel { jobs, at, ok: true }, false).ok,
        next_job(RunModel { jobs, at: jobs.len() as int, ok: true }) is None,
{
}

/// What is reported of a job that was done is what it says then; of one that failed, why; of one that did
/// not finish nothing more.
pub proof fn a_job_reports_how_it_came_out(job: JobModel, message: String)
    ensures
        reported(job, Outcome::Done) == job.after,
        reported(job, Outcome::Failed(message)) == seq![TaskModel::Failed(message@)],
        reported(job, Outcome::Unfinished) == Seq::<TaskModel>::empty(),
{
}

/// Actions as root are carried out in their order, one after another, until one fails.
pub proof fn actions_are_carried_out_in_order(r: RootRunModel)
    requires
        r.failure is None,
        0 <= r.at < r.actions.len(),
    ensures
        next_action(r) == Some(r.actions[r.at]),
        root_after(r, None).at == r.at + 1,
        root_after(r, None).failure is None,
        root_after(r, None).actions == r.actions,
        root_after(r, None).said == r.said,
{
}

/// The dialog shows what it is told: the stage, the progress and every line of the log in the order they
/// came, and a task that says it succeeded, with no failure reported, has.
pub proof fn the_dialog_shows_what_it_is_told(v: TaskViewModel, text: Seq<char>, part: PartModel)
    ensures
        view_after(v, TaskModel::Stage(text)).stage == text,
        view_after(v, TaskModel::Progress(text, part)).bar == Some((text, part)),
        view_after(v, TaskModel::Log(text)).log == v.log.push(text),
        view_after(v, TaskModel::Log(text)).stage == v.stage,
        view_after(v, TaskModel::Failed(text)).failure == Some(text),
        v.log.is_prefix_of(view_after(v, TaskModel::Stage(text)).log),
        v.log.is_prefix_of(view_after(v, TaskModel::Failed(text)).log),
        v.failure is None ==> view_after(v, TaskModel::Finished(true)).ended == Some(true) && view_after(
            v,
            TaskModel::Finished(true),
        ).stage == "Done"@,
        view_after(v, TaskModel::Finished(false)).ended == Some(false) && view_after(
            v,
            TaskModel::Finished(false),
        ).stage == "Did not finish"@,
        view_after(v, TaskModel::Finished(false)).summary is Some,
        view_after(v, TaskModel::Finished(true)).bar is None,
{
    let a = view_after(v, TaskModel::Stage(text)).log;
    let b = view_after(v, TaskModel::Failed(text)).log;
    assert(a.subrange(0, v.log.len() as int) =~= v.log);
    assert(b.subrange(0, v.log.len() as int) =~= v.log);
}

/// What an install reports is passed on as what it is, and it stays good through everything but a failure
/// and an exit that was no success.
pub proof fn an_install_is_good_until_it_fails(ok: bool, text: Seq<char>, done: u64, total: u64)
    ensures
        install_task(EventModel::Stage(text)) == Some(TaskModel::Stage(text)),
        install_task(EventModel::Message(text)) == Some(TaskModel::Log(text)),
        install_task(EventModel::Failed(text)) == Some(TaskModel::Failed(text)),
        install_task(EventModel::Progress(text, done, total)) matches Some(TaskModel::Progress(_, part))
            && part == PartModel::Of(done, total),
        still_good(ok, EventModel::Stage(text)) == ok,
        still_good(ok, EventModel::Message(text)) == ok,
        still_good(ok, EventModel::Progress(text, done, total)) == ok,
        !still_good(ok, EventModel::Failed(text)),
        !still_good(ok, EventModel::Exited(false)),
        still_good(ok, EventModel::Exited(true)) == ok,
        install_task(EventModel::Exited(ok)) is None,
{
}

/// What an export reports is passed on as what it is: its progress as seconds of the recording, and its end
/// as a line where it succeeded and as a failure where it did not.
pub proof fn an_export_says_how_it_ended(
    frames: u64,
    seconds: Seq<char>,
    text: Seq<char>,
    total: Option<u64>,
    destination: Seq<char>,
)
    ensures
        export_task(ExportModel::Progress(frames, seconds), total, destination) == TaskModel::Progress(
            crate::number::decimal(frames as int) + " frames"@,
            PartModel::Seconds(seconds, total),
        ),
        export_task(ExportModel::Log(text), total, destination) == TaskModel::Log(text),
        export_task(ExportModel::Finished(true, text), total, destination) == TaskModel::Log(
            "✔ wrote "@ + destination,
        ),
        export_task(ExportModel::Finished(false, text), total, destination) == TaskModel::Failed(text),
{
}

/// The packages of some fixes are those of each install among them, in their order.
pub proof fn packages_follow_the_installs(fixes: Seq<FixModel>, names: Seq<Seq<char>>, fix: FixModel)
    ensures
        packages_in(fixes.push(FixModel::Install(names))) == packages_in(fixes) + names,
        !(fix is Install) ==> packages_in(fixes.push(fix)) == packages_in(fixes),
        packages_in(Seq::empty()) == Seq::<Seq<char>>::empty(),
{
    assert(fixes.push(FixModel::Install(names)).drop_last() =~= fixes);
    assert(fixes.push(fix).drop_last() =~= fixes);
    if !(fix is Install) {
        assert(packages_in(fixes.push(fix)) =~= packages_in(fixes));
    }
}

} // verus!
