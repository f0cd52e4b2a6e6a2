//! What the command line shows of a training run: each message of the run
//! becomes a change of the diagnostics and a list of things to display.

use vstd::prelude::*;
use vstd::string::*;

use crate::diagnostics::{Diagnostics, Span};
use crate::scalar::Scalar;
use crate::text::{decimal, owned, push_decimal};

verus! {

/// A message of a run.
pub enum UiEvent {
    NewProcess,
    StartLoading { name: String, training: bool },
    SplatsUpdated { num_splats: u32 },
    TrainConfig,
    Dataset { train_views: usize, eval_views: usize },
    TrainStep {
        iter: u32,
        total_elapsed: Span,
        lod_progress: Option<(u32, u32)>,
        train_loss: Option<Scalar>,
    },
    RefineStep { cur_splat_count: u32, iter: u32 },
    /// An evaluation; the texts are the two numbers written out in full.
    EvalResult {
        iter: u32,
        avg_psnr: Scalar,
        avg_ssim: Scalar,
        psnr_text: String,
        ssim_text: String,
    },
    DoneTraining,
    DoneLoading,
    Warning { error: String },
    /// A message that the command line does not show.
    Other,
    /// The run failed.
    Failed,
    /// No message will follow.
    Closed,
}

/// A thing to display.
pub enum UiAction {
    /// A new text for the main spinner.
    Main(String),
    /// A new text for the statistics spinner.
    Stats(String),
    /// A new text for the evaluation spinner.
    Eval(String),
    /// The evaluation spinner goes away.
    EvalClear,
    /// A new position of the progress bar.
    Progress(u64),
    /// A line above the spinners.
    Report(String),
    LogInfo(String),
    LogWarn(String),
}

/// What a [`UiAction`] holds.
#[verifier::ext_equal]
pub enum ActionView {
    Main(Seq<char>),
    Stats(Seq<char>),
    Eval(Seq<char>),
    EvalClear,
    Progress(u64),
    Report(Seq<char>),
    LogInfo(Seq<char>),
    LogWarn(Seq<char>),
}

impl View for UiAction {
    type V = ActionView;

    open spec fn view(&self) -> ActionView {
        match *self {
            UiAction::Main(s) => ActionView::Main(s@),
            UiAction::Stats(s) => ActionView::Stats(s@),
            UiAction::Eval(s) => ActionView::Eval(s@),
            UiAction::EvalClear => ActionView::EvalClear,
            UiAction::Progress(n) => ActionView::Progress(n),
            UiAction::Report(s) => ActionView::Report(s@),
            UiAction::LogInfo(s) => ActionView::LogInfo(s@),
            UiAction::LogWarn(s) => ActionView::LogWarn(s@),
        }
    }
}

/// What a list of actions holds.
pub open spec fn action_views(actions: Seq<UiAction>) -> Seq<ActionView> {
    Seq::new(actions.len(), |i: int| actions[i]@)
}

/// How the loop over the messages goes on.
#[derive(Clone, Copy, Debug, PartialEq, Eq, Structural)]
pub enum Flow {
    /// With the next message.
    Continue,
    /// It ends, and the closing lines are reported.
    Stop,
    /// It ends with the error of the run.
    Fail,
}

/// `"{train} training, {eval} eval views"`.
pub open spec fn views_text(train_views: nat, eval_views: nat) -> Seq<char> {
    decimal(train_views) + " training, "@ + decimal(eval_views) + " eval views"@
}

/// The text of an evaluation.
pub open spec fn eval_text(iter: nat, psnr: Seq<char>, ssim: Seq<char>) -> Seq<char> {
    "Eval iter "@ + decimal(iter) + ": PSNR "@ + psnr + ", ssim "@ + ssim
}

/// What a message makes the command line display, in this order.
pub open spec fn display(event: UiEvent, eval_every: u32) -> Seq<ActionView> {
    match event {
        UiEvent::NewProcess => seq![ActionView::Main("Starting process..."@)],
        UiEvent::StartLoading { name, training } => if training {
            seq![ActionView::Main("Loading "@ + name@ + "..."@)]
        } else {
            seq![
                ActionView::Report(
                    "❌ Only training is supported in the CLI (try passing --with-viewer to view a splat)"@,
                ),
            ]
        },
        UiEvent::Dataset { train_views, eval_views } => {
            let views = views_text(train_views as nat, eval_views as nat);
            seq![
                ActionView::LogInfo("Loaded dataset with "@ + views),
                ActionView::Main("Loading dataset with "@ + views),
                if eval_views > 0 {
                    ActionView::Eval(
                        "evaluating "@ + decimal(eval_views as nat) + " views every "@ + decimal(
                            eval_every as nat,
                        ) + " steps"@,
                    )
                } else {
                    ActionView::EvalClear
                },
            ]
        },
        UiEvent::TrainStep { iter, lod_progress, .. } => seq![
            ActionView::Main(
                match lod_progress {
                    Some((lod, total)) => "LOD "@ + decimal(lod as nat) + "/"@ + decimal(
                        total as nat,
                    ),
                    None => "Training"@,
                },
            ),
            ActionView::Progress(iter as u64),
        ],
        UiEvent::RefineStep { cur_splat_count, iter } => seq![
            ActionView::Stats("Current splat count "@ + decimal(cur_splat_count as nat)),
            ActionView::LogInfo(
                "Refine iter "@ + decimal(iter as nat) + ", "@ + decimal(cur_splat_count as nat)
                    + " splats."@,
            ),
        ],
        UiEvent::EvalResult { iter, psnr_text, ssim_text, .. } => {
            let text = eval_text(iter as nat, psnr_text@, ssim_text@);
            seq![ActionView::LogInfo(text), ActionView::Eval(text)]
        },
        UiEvent::DoneLoading => seq![
            ActionView::LogInfo("Completed loading."@),
            ActionView::Main("Completed loading"@),
            ActionView::Stats("Completed loading"@),
        ],
        UiEvent::Warning { error } => seq![
            ActionView::LogWarn(error@),
            ActionView::Report("⚠️: "@ + error@),
        ],
        UiEvent::Failed => seq![ActionView::Report("❌ Encountered an error"@)],
        _ => Seq::empty(),
    }
}

/// How the loop goes on after a message.
pub open spec fn flow(event: UiEvent) -> Flow {
    match event {
        UiEvent::StartLoading { training, .. } => if training {
            Flow::Continue
        } else {
            Flow::Stop
        },
        UiEvent::Failed => Flow::Fail,
        UiEvent::Closed => Flow::Stop,
        _ => Flow::Continue,
    }
}

/// The diagnostics after a message.
pub open spec fn recorded(d: Diagnostics, event: UiEvent) -> Diagnostics {
    match event {
        UiEvent::SplatsUpdated { num_splats } => Diagnostics { splats: num_splats, ..d },
        UiEvent::Dataset { eval_views, .. } => Diagnostics { eval_views: eval_views as u32, ..d },
        UiEvent::TrainStep { iter, total_elapsed, lod_progress, train_loss } => Diagnostics {
            iter,
            train_elapsed: total_elapsed,
            lod_progress,
            train_loss,
            ..d
        },
        UiEvent::RefineStep { cur_splat_count, .. } => Diagnostics {
            splats: cur_splat_count,
            ..d
        },
        UiEvent::EvalResult { iter, avg_psnr, avg_ssim, .. } => Diagnostics {
            last_eval: Some((iter, avg_psnr, avg_ssim)),
            ..d
        },
        _ => d,
    }
}

/// `before`, a number and `after`.
fn numbered(before: &str, n: u64, after: &str) -> (r: String)
    ensures
        r@ == before@ + decimal(n as nat) + after@,
{
    let mut r: String = owned(before);
    push_decimal(&mut r, n);
    r.append(after);
    r
}

/// `before`, a text and `after`.
fn wrapped(before: &str, text: &str, after: &str) -> (r: String)
    ensures
        r@ == before@ + text@ + after@,
{
    let mut r: String = owned(before);
    r.append(text);
    r.append(after);
    r
}

fn write_views(before: &str, train_views: usize, eval_views: usize) -> (r: String)
    ensures
        r@ == before@ + views_text(train_views as nat, eval_views as nat),
{
    let mut r: String = owned(before);
    push_decimal(&mut r, train_views as u64);
    r.append(" training, ");
    push_decimal(&mut r, eval_views as u64);
    r.append(" eval views");
    assert(r@ =~= before@ + views_text(train_views as nat, eval_views as nat));
    r
}

fn write_eval(iter: u32, psnr: &str, ssim: &str) -> (r: String)
    ensures
        r@ == eval_text(iter as nat, psnr@, ssim@),
{
    let mut r: String = numbered("Eval iter ", iter as u64, ": PSNR ");
    r.append(psnr);
    r.append(", ssim ");
    r.append(ssim);
    r
}

/// Takes one message: records what it says in `diag`, and tells what to
/// display and how to go on.
pub fn handle_event(diag: &mut Diagnostics, event: &UiEvent, eval_every: u32) -> (r: (
    Vec<UiAction>,
    Flow,
))
    ensures
        action_views(r.0@) == display(*event, eval_every),
        r.1 == flow(*event),
        *final(diag) == recorded(*old(diag), *event),
{
    let mut actions: Vec<UiAction> = Vec::new();
    let mut next: Flow = Flow::Continue;
    match event {
        UiEvent::NewProcess => {
            actions.push(UiAction::Main(owned("Starting process...")));
        },
        UiEvent::StartLoading { name, training } => {
            if *training {
                actions.push(UiAction::Main(wrapped("Loading ", name.as_str(), "...")));
            } else {
                actions.push(
                    UiAction::Report(
                        owned(
                            "❌ Only training is supported in the CLI (try passing --with-viewer to view a splat)",
                        ),
                    ),
                );
                next = Flow::Stop;
            }
        },
        UiEvent::SplatsUpdated { num_splats } => {
            diag.splats = *num_splats;
        },
        UiEvent::TrainConfig => {},
        UiEvent::Dataset { train_views, eval_views } => {
            actions.push(
                UiAction::LogInfo(write_views("Loaded dataset with ", *train_views, *eval_views)),
            );
            actions.push(
                UiAction::Main(write_views("Loading dataset with ", *train_views, *eval_views)),
            );
            diag.eval_views = #[verifier::truncate]
            (*eval_views as u32);
            if *eval_views > 0 {
                let mut text: String = numbered("evaluating ", *eval_views as u64, " views every ");
                push_decimal(&mut text, eval_every as u64);
                text.append(" steps");
                actions.push(UiAction::Eval(text));
            } else {
                actions.push(UiAction::EvalClear);
            }
        },
        UiEvent::TrainStep { iter, total_elapsed, lod_progress, train_loss } => {
            match lod_progress {
                Some((lod, total)) => {
                    let mut text: String = numbered("LOD ", *lod as u64, "/");
                    push_decimal(&mut text, *total as u64);
                    actions.push(UiAction::Main(text));
                },
                None => {
                    actions.push(UiAction::Main(owned("Training")));
                },
            }
            actions.push(UiAction::Progress(*iter as u64));
            diag.iter = *iter;
            diag.train_elapsed = *total_elapsed;
            diag.lod_progress = *lod_progress;
            diag.train_loss = *train_loss;
        },
        UiEvent::RefineStep { cur_splat_count, iter } => {
            let mut count: String = owned("Current splat count ");
            push_decimal(&mut count, *cur_splat_count as u64);
            actions.push(UiAction::Stats(count));
            let mut text: String = numbered("Refine iter ", *iter as u64, ", ");
            push_decimal(&mut text, *cur_splat_count as u64);
            text.append(" splats.");
            actions.push(UiAction::LogInfo(text));
            diag.splats = *cur_splat_count;
        },
        UiEvent::EvalResult { iter, avg_psnr, avg_ssim, psnr_text, ssim_text } => {
            actions.push(
                UiAction::LogInfo(write_eval(*iter, psnr_text.as_str(), ssim_text.as_str())),
            );
            actions.push(UiAction::Eval(write_eval(*iter, psnr_text.as_str(), ssim_text.as_str())));
            diag.last_eval = Some((*iter, *avg_psnr, *avg_ssim));
        },
        UiEvent::DoneTraining => {},
        UiEvent::DoneLoading => {
            actions.push(UiAction::LogInfo(owned("Completed loading.")));
            actions.push(UiAction::Main(owned("Completed loading")));
            actions.push(UiAction::Stats(owned("Completed loading")));
        },
        UiEvent::Warning { error } => {
            actions.push(UiAction::LogWarn(owned(error.as_str())));
            let mut text: String = owned("⚠️: ");
            text.append(error.as_str());
            actions.push(UiAction::Report(text));
        },
        UiEvent::Other => {},
        UiEvent::Failed => {
            actions.push(UiAction::Report(owned("❌ Encountered an error")));
            next = Flow::Fail;
        },
        UiEvent::Closed => {
            next = Flow::Stop;
        },
    }
    assert(action_views(actions@) =~= display(*event, eval_every));
    (actions, next)
}

/// No message touches what the previous report left behind or the number of
/// iterations asked for, and the recorded times stay proper.
pub proof fn law_messages_keep_the_last_report(d: Diagnostics, event: UiEvent)
    requires
        d.wf(),
        event matches UiEvent::TrainStep { total_elapsed, .. } ==> total_elapsed.wf(),
    ensures
        recorded(d, event).wf(),
        recorded(d, event).last_report == d.last_report,
        recorded(d, event).total_iters == d.total_iters,
{
}

/// A failed run, a run that only views splats and the end of the messages end
/// the loop; nothing else does.
pub proof fn law_what_ends_the_loop(event: UiEvent)
    ensures
        flow(event) == Flow::Fail <==> event is Failed,
        flow(event) == Flow::Stop <==> event is Closed || (event matches UiEvent::StartLoading {
            training,
            ..
        } && !training),
{
}

/// Each message that carries a number or a text records it where it belongs and
/// leaves everything else as it was.
pub proof fn law_messages_record_what_they_say(d: Diagnostics, event: UiEvent)
    ensures
        event matches UiEvent::TrainStep { iter, total_elapsed, lod_progress, train_loss } ==> {
            let after = recorded(d, event);
            &&& after.iter == iter
            &&& after.train_elapsed == total_elapsed
            &&& after.lod_progress == lod_progress
            &&& after.train_loss == train_loss
        },
        !(event is TrainStep) ==> {
            let after = recorded(d, event);
            &&& after.iter == d.iter
            &&& after.train_elapsed == d.train_elapsed
            &&& after.lod_progress == d.lod_progress
            &&& after.train_loss == d.train_loss
        },
        event matches UiEvent::SplatsUpdated { num_splats } ==> recorded(d, event).splats
            == num_splats,
        event matches UiEvent::RefineStep { cur_splat_count, iter } ==> recorded(d, event).splats
            == cur_splat_count,
        !(event is SplatsUpdated) && !(event is RefineStep) ==> recorded(d, event).splats
            == d.splats,
        event matches UiEvent::Dataset { train_views, eval_views } ==> (eval_views <= u32::MAX
            ==> recorded(d, event).eval_views == eval_views),
        !(event is Dataset) ==> recorded(d, event).eval_views == d.eval_views,
        event matches UiEvent::EvalResult { iter, avg_psnr, avg_ssim, psnr_text, ssim_text }
            ==> recorded(d, event).last_eval == Some((iter, avg_psnr, avg_ssim)),
        !(event is EvalResult) ==> recorded(d, event).last_eval == d.last_eval,
{
}

/// What a run shows while it starts: its process, the name of what it loads or
/// that it cannot show it, and the numbers of views of its dataset.
pub proof fn law_display_while_loading(event: UiEvent, eval_every: u32)
    ensures
        event is NewProcess ==> display(event, eval_every) == seq![
            ActionView::Main("Starting process..."@),
        ],
        event matches UiEvent::StartLoading { name, training } ==> {
            &&& training ==> display(event, eval_every) == seq![
                ActionView::Main("Loading "@ + name@ + "..."@),
            ]
            &&& !training ==> display(event, eval_every).len() == 1 && display(event, eval_every)[0]
                == ActionView::Report(
                "❌ Only training is supported in the CLI (try passing --with-viewer to view a splat)"@,
            )
        },
        event matches UiEvent::Dataset { train_views, eval_views } ==> {
            let shown = display(event, eval_every);
            let views = decimal(train_views as nat) + " training, "@ + decimal(eval_views as nat)
                + " eval views"@;
            &&& shown.len() == 3
            &&& shown[0] == ActionView::LogInfo("Loaded dataset with "@ + views)
            &&& shown[1] == ActionView::Main("Loading dataset with "@ + views)
            &&& eval_views == 0 ==> shown[2] == ActionView::EvalClear
            &&& eval_views > 0 ==> shown[2] == ActionView::Eval(
                "evaluating "@ + decimal(eval_views as nat) + " views every "@ + decimal(
                    eval_every as nat,
                ) + " steps"@,
            )
        },
        event is DoneLoading ==> display(event, eval_every) == seq![
            ActionView::LogInfo("Completed loading."@),
            ActionView::Main("Completed loading"@),
            ActionView::Stats("Completed loading"@),
        ],
{
}

/// What a run shows while it trains: the level of detail or that it trains, and
/// how far it is; the splats after a refinement; and the two scores of an
/// evaluation, both in the log and on the screen.
pub proof fn law_display_while_training(event: UiEvent, eval_every: u32)
    ensures
        event matches UiEvent::TrainStep { iter, total_elapsed, lod_progress, train_loss } ==> {
            let shown = display(event, eval_every);
            &&& shown.len() == 2
            &&& lod_progress is None ==> shown[0] == ActionView::Main("Training"@)
            &&& lod_progress matches Some((lod, total)) ==> shown[0] == ActionView::Main(
                "LOD "@ + decimal(lod as nat) + "/"@ + decimal(total as nat),
            )
            &&& shown[1] == ActionView::Progress(iter as u64)
        },
        event matches UiEvent::RefineStep { cur_splat_count, iter } ==> {
            let shown = display(event, eval_every);
            &&& shown.len() == 2
            &&& shown[0] == ActionView::Stats(
                "Current splat count "@ + decimal(cur_splat_count as nat),
            )
            &&& shown[1] == ActionView::LogInfo(
                "Refine iter "@ + decimal(iter as nat) + ", "@ + decimal(cur_splat_count as nat)
                    + " splats."@,
            )
        },
        event matches UiEvent::EvalResult { iter, avg_psnr, avg_ssim, psnr_text, ssim_text } ==> {
            let shown = display(event, eval_every);
            let text = "Eval iter "@ + decimal(iter as nat) + ": PSNR "@ + psnr_text@ + ", ssim "@
                + ssim_text@;
            &&& shown.len() == 2
            &&& shown[0] == ActionView::LogInfo(text)
            &&& shown[1] == ActionView::Eval(text)
        },
{
}

/// A warning goes to the log as it is and to the screen behind a sign, a failure
/// is reported, and every other message shows nothing.
pub proof fn law_display_of_warnings_and_the_rest(event: UiEvent, eval_every: u32)
    ensures
        event matches UiEvent::Warning { error } ==> display(event, eval_every) == seq![
            ActionView::LogWarn(error@),
            ActionView::Report("⚠️: "@ + error@),
        ],
        event is Failed ==> display(event, eval_every) == seq![
            ActionView::Report("❌ Encountered an error"@),
        ],
        event is SplatsUpdated || event is TrainConfig || event is DoneTraining || event is Other
            || event is Closed ==> display(event, eval_every).len() == 0,
        !(event is Dataset) ==> forall|other: u32| #[trigger]
            display(event, other) == display(event, eval_every),
{
}

/// An action displays its own text or number, and nothing of another kind.
pub proof fn law_actions_by_kind(actions: Seq<UiAction>, i: int)
    requires
        0 <= i < actions.len(),
    ensures
        action_views(actions).len() == actions.len(),
        action_views(actions)[i] == actions[i]@,
        actions[i] matches UiAction::Main(s) ==> actions[i]@ == ActionView::Main(s@),
        actions[i] matches UiAction::Stats(s) ==> actions[i]@ == ActionView::Stats(s@),
        actions[i] matches UiAction::Eval(s) ==> actions[i]@ == ActionView::Eval(s@),
        actions[i] matches UiAction::Progress(n) ==> actions[i]@ == ActionView::Progress(n),
        actions[i] matches UiAction::Report(s) ==> actions[i]@ == ActionView::Report(s@),
        actions[i] matches UiAction::LogInfo(s) ==> actions[i]@ == ActionView::LogInfo(s@),
        actions[i] matches UiAction::LogWarn(s) ==> actions[i]@ == ActionView::LogWarn(s@),
        actions[i] is EvalClear ==> actions[i]@ == ActionView::EvalClear,
{
}

} // verus!
