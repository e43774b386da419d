use raven_gaming::capture::ExportEvent;
use raven_gaming::checks::Fix;
use raven_gaming::install::Event;
use raven_gaming::tasks::{
    export_event, export_title, finished_toast, fix_jobs, fixes_title, install_event,
    install_finished, lost_task, packages_of, request_fixes, Outcome, Part, Request, RootRun, Run,
    TaskEvent, TaskView, Work,
};
use raven_gaming::tune::{Action, GpuMode};

fn everything() -> Vec<Fix> {
    vec![
        Fix::Install(vec!["mesa".into(), "steam".into()]),
        Fix::BuildModules(vec!["6.1".into(), "7.2".into()]),
        Fix::ApplyTweaks,
        Fix::Manual("log in again"),
    ]
}

#[test]
fn a_run_does_every_job_in_order() {
    let mut run = Run::new(&everything());
    let mut done = Vec::new();
    let mut said = Vec::new();
    while let Some(job) = run.next() {
        said.push(format!("{:?}", job.before));
        done.push(match &job.work {
            Work::Install(names) => names.join(" "),
            Work::AsRoot(action) => action.args().join(" "),
            Work::Rest => "rest".into(),
        });
        let (next, events) = run.report(Outcome::Done);
        said.extend(events.iter().map(|e| format!("{e:?}")));
        run = next;
    }
    assert_eq!(
        done,
        ["mesa steam", "--apply dkms-install 6.1", "--apply dkms-install 7.2", "--apply tweaks", "rest"]
    );
    assert!(said[0].contains("Installing mesa, steam"));
    assert!(said.iter().any(|s| s.contains("✔ modules built for 7.2")));
    assert!(said.iter().any(|s| s.contains("log in again")));
    assert_eq!(run.finished(), TaskEvent::Finished { ok: true });
}

#[test]
fn a_failed_job_ends_the_run() {
    let run = Run::new(&everything());
    let (run, events) = run.report(Outcome::Failed("no disk".into()));
    assert_eq!(events, [TaskEvent::Failed("no disk".into())]);
    assert!(run.next().is_none());
    assert_eq!(run.finished(), TaskEvent::Finished { ok: false });
    let (run, events) = Run::new(&everything()).report(Outcome::Unfinished);
    assert!(events.is_empty());
    assert!(run.next().is_none());
    assert!(Run::new(&Vec::new()).next().is_none());
}

#[test]
fn each_fix_has_its_jobs() {
    let jobs = fix_jobs(&Fix::ApplyTweaks);
    assert_eq!(jobs.len(), 1);
    assert_eq!(jobs[0].before, TaskEvent::Stage("Applying system settings".into()));
    assert_eq!(jobs[0].after.len(), 2);
    let jobs = fix_jobs(&Fix::BuildModules(vec!["6.1".into()]));
    assert_eq!(
        jobs[0].before,
        TaskEvent::Stage(
            "Building driver modules for 6.1 — this takes a few minutes".into()
        )
    );
    assert_eq!(jobs[0].work, Work::AsRoot(Action::DkmsInstall { kernel: "6.1".into() }));
}

#[test]
fn the_dialog_follows_its_events() {
    let mut view = TaskView::new();
    assert_eq!(view.stage, "Starting…");
    assert_eq!(view.handle(&TaskEvent::Stage("Resolving".into())), None);
    assert_eq!(view.stage, "Resolving");
    let part = Part::Of { done: 1, total: 2 };
    assert_eq!(view.handle(&TaskEvent::Progress { label: "half".into(), part }), None);
    assert_eq!(view.bar, Some(("half".into(), Part::Of { done: 1, total: 2 })));
    assert_eq!(view.handle(&TaskEvent::Log("line".into())), None);
    assert_eq!(view.handle(&TaskEvent::Finished { ok: true }), Some(true));
    assert_eq!(view.stage, "Done");
    assert_eq!(view.bar, None);
    assert_eq!(view.log, ["▸ Resolving", "line"]);
    assert_eq!(view.summary, None);
}

#[test]
fn a_reported_failure_is_never_called_done() {
    let mut view = TaskView::new();
    view.handle(&TaskEvent::Failed("target not found".into()));
    assert_eq!(view.handle(&TaskEvent::Finished { ok: true }), Some(false));
    assert_eq!(view.stage, "Did not finish");
    assert_eq!(view.summary.as_deref(), Some("target not found"));
    assert_eq!(view.log, ["✖ target not found"]);
    let mut silent = TaskView::new();
    assert_eq!(silent.handle(&TaskEvent::Finished { ok: false }), Some(false));
    assert_eq!(
        silent.summary.as_deref(),
        Some("Something did not complete. The details below say what.")
    );
    let (failed, finished) = lost_task();
    assert_eq!(failed, TaskEvent::Failed("The task ended without reporting a result".into()));
    assert_eq!(finished, TaskEvent::Finished { ok: false });
}

#[test]
fn an_install_is_good_only_where_nothing_failed() {
    let (ok, said) = install_event(true, &Event::Progress { label: "mesa".into(), done: 1024, total: 2048 });
    assert!(ok);
    assert_eq!(
        said,
        Some(TaskEvent::Progress {
            label: "mesa — 1.0 KB of 2.0 KB".into(),
            part: Part::Of { done: 1024, total: 2048 },
        })
    );
    let (ok, said) = install_event(true, &Event::Failed("no".into()));
    assert!(!ok);
    assert_eq!(said, Some(TaskEvent::Failed("no".into())));
    assert_eq!(install_event(false, &Event::Exited { success: true }), (false, None));
    assert_eq!(install_event(true, &Event::Exited { success: false }), (false, None));
    assert_eq!(install_event(true, &Event::Stage("x".into())).1, Some(TaskEvent::Stage("x".into())));
    assert_eq!(install_event(true, &Event::Message("x".into())).1, Some(TaskEvent::Log("x".into())));
    assert_eq!(install_finished(true), (Outcome::Done, None));
    assert_eq!(
        install_finished(false),
        (Outcome::Unfinished, Some(TaskEvent::Log("rvn did not finish successfully".into())))
    );
}

#[test]
fn a_request_is_refused_where_it_cannot_be_met() {
    let fixes = everything();
    assert_eq!(packages_of(&fixes), ["mesa", "steam"]);
    assert_eq!(request_fixes(true, &fixes, None), Request::Busy);
    assert_eq!(
        request_fixes(false, &fixes, Some("no rvn".into())),
        Request::Unavailable { reason: "no rvn".into(), packages: vec!["mesa".into(), "steam".into()] }
    );
    assert_eq!(
        request_fixes(false, &fixes, None),
        Request::Start { title: "Setting this computer up for games".into() }
    );
    // Nothing is installed here, so it does not matter that nothing can be.
    assert_eq!(
        request_fixes(false, &vec![Fix::ApplyTweaks], Some("no rvn".into())),
        Request::Start { title: "Applying system settings".into() }
    );
}

#[test]
fn a_dialog_is_called_by_what_it_does() {
    assert_eq!(fixes_title(&vec![Fix::Install(vec!["mesa".into()])]), "Installing mesa");
    assert_eq!(
        fixes_title(&vec![Fix::Install(vec!["mesa".into(), "steam".into()])]),
        "Installing packages"
    );
    assert_eq!(fixes_title(&vec![Fix::BuildModules(vec!["6.1".into()])]), "Building driver modules");
    assert_eq!(fixes_title(&vec![Fix::Manual("x")]), "Setting this computer up for games");
    assert_eq!(export_title("/v/run.rvr"), "Exporting run.rvr");
    assert_eq!(finished_toast(true, "Exported").as_deref(), Some("Exported"));
    assert_eq!(finished_toast(true, ""), None);
    assert_eq!(finished_toast(false, "Exported"), None);
}

#[test]
fn actions_as_root_stop_at_the_first_failure() {
    let actions = || {
        vec![
            Action::GpuMode { card: "card0".into(), mode: GpuMode::High },
            Action::GpuMode { card: "card1".into(), mode: GpuMode::High },
        ]
    };
    let run = RootRun::new(actions(), "Performance mode");
    assert!(run.next().is_some());
    let run = run.report(Ok(()));
    let run = run.report(Ok(()));
    assert!(run.next().is_none());
    assert_eq!(run.toast(), "Performance mode");
    let run = RootRun::new(actions(), "Performance mode").report(Err("denied".into()));
    assert!(run.next().is_none());
    assert_eq!(run.toast(), "denied");
}

#[test]
fn an_export_reports_where_it_is() {
    let progress = ExportEvent::Progress { frames: 12, seconds: "0.4".into() };
    let (ok, said) = export_event(true, &progress, Some(1_000_000), "/v/a.mp4");
    assert!(ok);
    assert_eq!(
        said,
        TaskEvent::Progress {
            label: "12 frames".into(),
            part: Part::Seconds { written: "0.4".into(), of: Some(1_000_000) },
        }
    );
    let end = ExportEvent::Finished { ok: true, message: String::new() };
    assert_eq!(
        export_event(true, &end, None, "/v/a.mp4"),
        (true, TaskEvent::Log("✔ wrote /v/a.mp4".into()))
    );
    let end = ExportEvent::Finished { ok: false, message: "broke".into() };
    assert_eq!(export_event(true, &end, None, "/v/a.mp4"), (false, TaskEvent::Failed("broke".into())));
    assert_eq!(
        export_event(true, &ExportEvent::Log("x".into()), None, "/v/a.mp4"),
        (true, TaskEvent::Log("x".into()))
    );
}
