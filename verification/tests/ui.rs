use brush_splat::diagnostics::{Diagnostics, Span};
use brush_splat::scalar::Scalar;
use brush_splat::ui::{handle_event, Flow, UiAction, UiEvent};

fn show(action: &UiAction) -> String {
    match action {
        UiAction::Main(s) => format!("main:{s}"),
        UiAction::Stats(s) => format!("stats:{s}"),
        UiAction::Eval(s) => format!("eval:{s}"),
        UiAction::EvalClear => "eval cleared".to_string(),
        UiAction::Progress(n) => format!("progress:{n}"),
        UiAction::Report(s) => format!("report:{s}"),
        UiAction::LogInfo(s) => format!("info:{s}"),
        UiAction::LogWarn(s) => format!("warn:{s}"),
    }
}

fn run(diag: &mut Diagnostics, event: UiEvent) -> (Vec<String>, Flow) {
    let (actions, flow) = handle_event(diag, &event, 1000);
    (actions.iter().map(show).collect(), flow)
}

#[test]
fn loading_is_shown_only_for_training() {
    let mut diag = Diagnostics::new(10);
    let (shown, flow) = run(&mut diag, UiEvent::NewProcess);
    assert_eq!(shown, vec!["main:Starting process..."]);
    assert_eq!(flow, Flow::Continue);
    let event = UiEvent::StartLoading {
        name: "scene".to_string(),
        training: true,
    };
    let (shown, flow) = run(&mut diag, event);
    assert_eq!(shown, vec!["main:Loading scene..."]);
    assert_eq!(flow, Flow::Continue);
    let event = UiEvent::StartLoading {
        name: "scene".to_string(),
        training: false,
    };
    let (shown, flow) = run(&mut diag, event);
    assert_eq!(
        shown,
        vec![
            "report:❌ Only training is supported in the CLI (try passing --with-viewer to view a splat)"
        ]
    );
    assert_eq!(flow, Flow::Stop);
    assert_eq!(diag, Diagnostics::new(10));
}

#[test]
fn datasets_announce_their_views() {
    let mut diag = Diagnostics::new(10);
    let event = UiEvent::Dataset {
        train_views: 81,
        eval_views: 9,
    };
    let (shown, flow) = run(&mut diag, event);
    assert_eq!(
        shown,
        vec![
            "info:Loaded dataset with 81 training, 9 eval views",
            "main:Loading dataset with 81 training, 9 eval views",
            "eval:evaluating 9 views every 1000 steps",
        ]
    );
    assert_eq!(flow, Flow::Continue);
    assert_eq!(diag.eval_views, 9);
    let event = UiEvent::Dataset {
        train_views: 81,
        eval_views: 0,
    };
    let (shown, _) = run(&mut diag, event);
    assert_eq!(shown[2], "eval cleared");
    assert_eq!(diag.eval_views, 0);
}

#[test]
fn steps_move_the_progress() {
    let mut diag = Diagnostics::new(10);
    diag.last_report = Some((1, Span { secs: 1, nanos: 0 }));
    let event = UiEvent::TrainStep {
        iter: 7,
        total_elapsed: Span { secs: 3, nanos: 4 },
        lod_progress: Some((1, 2)),
        train_loss: Some(Scalar::one()),
    };
    let (shown, _) = run(&mut diag, event);
    assert_eq!(shown, vec!["main:LOD 1/2", "progress:7"]);
    assert_eq!(diag.iter, 7);
    assert_eq!(diag.train_elapsed, Span { secs: 3, nanos: 4 });
    assert_eq!(diag.lod_progress, Some((1, 2)));
    assert_eq!(diag.train_loss, Some(Scalar::one()));
    assert_eq!(diag.last_report, Some((1, Span { secs: 1, nanos: 0 })));
    let event = UiEvent::TrainStep {
        iter: 8,
        total_elapsed: Span { secs: 4, nanos: 0 },
        lod_progress: None,
        train_loss: None,
    };
    let (shown, _) = run(&mut diag, event);
    assert_eq!(shown, vec!["main:Training", "progress:8"]);
    assert_eq!(diag.train_loss, None);
}

#[test]
fn splat_counts_and_evaluations_are_recorded() {
    let mut diag = Diagnostics::new(10);
    let (shown, _) = run(&mut diag, UiEvent::SplatsUpdated { num_splats: 5 });
    assert!(shown.is_empty());
    assert_eq!(diag.splats, 5);
    let event = UiEvent::RefineStep {
        cur_splat_count: 12,
        iter: 3,
    };
    let (shown, _) = run(&mut diag, event);
    assert_eq!(
        shown,
        vec!["stats:Current splat count 12", "info:Refine iter 3, 12 splats."]
    );
    assert_eq!(diag.splats, 12);
    let event = UiEvent::EvalResult {
        iter: 4,
        avg_psnr: Scalar::one(),
        avg_ssim: Scalar::zero(),
        psnr_text: "24.5".to_string(),
        ssim_text: "0.8".to_string(),
    };
    let (shown, _) = run(&mut diag, event);
    assert_eq!(
        shown,
        vec![
            "info:Eval iter 4: PSNR 24.5, ssim 0.8",
            "eval:Eval iter 4: PSNR 24.5, ssim 0.8",
        ]
    );
    assert_eq!(diag.last_eval, Some((4, Scalar::one(), Scalar::zero())));
}

#[test]
fn the_end_of_a_run() {
    let mut diag = Diagnostics::new(10);
    let (shown, flow) = run(&mut diag, UiEvent::DoneLoading);
    assert_eq!(
        shown,
        vec![
            "info:Completed loading.",
            "main:Completed loading",
            "stats:Completed loading",
        ]
    );
    assert_eq!(flow, Flow::Continue);
    let event = UiEvent::Warning {
        error: "odd".to_string(),
    };
    let (shown, flow) = run(&mut diag, event);
    assert_eq!(shown, vec!["warn:odd", "report:⚠️: odd"]);
    assert_eq!(flow, Flow::Continue);
    let (shown, flow) = run(&mut diag, UiEvent::Failed);
    assert_eq!(shown, vec!["report:❌ Encountered an error"]);
    assert_eq!(flow, Flow::Fail);
    for event in [UiEvent::TrainConfig, UiEvent::DoneTraining, UiEvent::Other] {
        let (shown, flow) = run(&mut diag, event);
        assert!(shown.is_empty());
        assert_eq!(flow, Flow::Continue);
    }
    let (shown, flow) = run(&mut diag, UiEvent::Closed);
    assert!(shown.is_empty());
    assert_eq!(flow, Flow::Stop);
    assert_eq!(diag, Diagnostics::new(10));
}
