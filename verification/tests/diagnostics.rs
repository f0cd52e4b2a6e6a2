use brush_splat::diagnostics::{Diagnostics, FigureTexts, Figures, Span};
use brush_splat::scalar::Scalar;

fn scalar(x: f32) -> Scalar {
    Scalar { bits: x.to_bits() }
}

fn value(x: Scalar) -> f32 {
    f32::from_bits(x.bits)
}

fn seconds(secs: u64) -> Span {
    Span { secs, nanos: 0 }
}

fn per_second(iters: u32, time: Span) -> f64 {
    f64::from(iters) / (time.secs as f64 + f64::from(time.nanos) / 1e9)
}

fn write(figures: &Figures) -> FigureTexts {
    FigureTexts {
        rate: figures.rate.map(|(n, t)| format!("{:.1}", per_second(n, t))),
        avg: figures.avg.map(|(n, t)| format!("{:.1}", per_second(n, t))),
        loss: figures.loss.map(|x| format!("{:.5}", value(x))),
        eval: figures
            .eval
            .map(|(p, s)| (format!("{:.2}", value(p)), format!("{:.3}", value(s)))),
        left_secs: figures.left.map(|left| {
            let (n, t) = figures.rate.unwrap();
            (left as f64 / per_second(n, t)) as u64
        }),
    }
}

fn line(diag: &mut Diagnostics, now: Span) -> Option<String> {
    let texts = write(&diag.figures(now));
    diag.line(now, &texts)
}

#[test]
fn diagnostics_stay_quiet_before_the_first_step() {
    let mut diag = Diagnostics::new(1000);
    assert!(line(&mut diag, seconds(0)).is_none());
    assert_eq!(diag, Diagnostics::new(1000));
}

#[test]
fn diagnostics_report_rate_psnr_and_eta() {
    let mut diag = Diagnostics::new(1000);
    diag.eval_views = 5;
    diag.iter = 100;
    diag.train_elapsed = seconds(2);
    diag.splats = 45_678;

    // No previous report yet, so only the average rate is known.
    let start = seconds(77);
    let first = line(&mut diag, start).expect("a step has landed");
    assert!(first.contains("iter 100/1000"), "{first}");
    assert!(first.contains("avg 50.0 it/s"), "{first}");
    assert!(first.contains("45.7k splats"), "{first}");
    assert!(first.contains("eval pending"), "{first}");
    // Nothing to extrapolate an ETA from on the first line.
    assert!(!first.contains("left"), "{first}");

    diag.iter = 300;
    diag.train_elapsed = seconds(6);
    diag.train_loss = Some(scalar(0.0421));
    diag.last_eval = Some((200, scalar(24.5), scalar(0.8123)));

    let second = line(&mut diag, seconds(77 + 10)).expect("still training");
    // 200 iters in 10s of wall clock, 300 iters in 6s of trainer time.
    assert!(second.contains("20.0 it/s (avg 50.0)"), "{second}");
    assert!(second.contains("loss 0.04210"), "{second}");
    assert!(
        second.contains("eval@200 24.50 PSNR / 0.812 SSIM"),
        "{second}"
    );
    // 700 iters left at the interval rate.
    assert!(second.contains("~35s left"), "{second}");
}

#[test]
fn a_whole_line_is_put_together_in_order() {
    let mut diag = Diagnostics::new(30_000);
    diag.iter = 12;
    diag.lod_progress = Some((1, 3));
    diag.train_elapsed = seconds(3_661);
    diag.last_report = Some((2, seconds(10)));
    diag.train_loss = Some(scalar(1.5));
    diag.splats = 7;
    diag.last_eval = Some((9, scalar(20.0), scalar(0.5)));
    let now = Span { secs: 14, nanos: 0 };
    // Ten iterations in four seconds; 29988 of them take 11995 seconds.
    assert_eq!(
        line(&mut diag, now).unwrap(),
        "📊 iter 12/30000 · LOD 1/3 · 2.5 it/s (avg 0.0) · loss 1.50000 · 7 splats · \
         eval@9 20.00 PSNR / 0.500 SSIM · 1h 1m 1s elapsed · ~3h 19m 55s left"
    );
    assert_eq!(diag.last_report, Some((12, now)));
}

#[test]
fn the_shortest_line_has_progress_and_time_only() {
    let mut diag = Diagnostics::new(5);
    diag.iter = 1;
    assert_eq!(
        line(&mut diag, seconds(1)).unwrap(),
        "📊 iter 1/5 · 0s elapsed"
    );
}

#[test]
fn a_rate_without_an_average_stands_alone() {
    let mut diag = Diagnostics::new(5);
    diag.iter = 3;
    diag.last_report = Some((1, seconds(1)));
    assert_eq!(
        line(&mut diag, seconds(2)).unwrap(),
        "📊 iter 3/5 · 2.0 it/s · 0s elapsed · ~1s left"
    );
}

#[test]
fn no_rate_without_new_iterations_or_time() {
    let mut diag = Diagnostics::new(1000);
    diag.iter = 10;
    diag.last_report = Some((10, seconds(1)));
    assert_eq!(diag.figures(seconds(50)).rate, None);
    diag.last_report = Some((5, seconds(50)));
    assert_eq!(diag.figures(seconds(50)).rate, None);
    assert_eq!(diag.figures(seconds(49)).rate, None);
    assert_eq!(diag.figures(seconds(51)).rate, Some((5, seconds(1))));
    assert_eq!(diag.figures(seconds(51)).left, Some(990));
}

#[test]
fn nothing_is_left_at_the_last_iteration() {
    let mut diag = Diagnostics::new(10);
    diag.iter = 10;
    diag.last_report = Some((5, seconds(0)));
    assert_eq!(diag.figures(seconds(1)).left, None);
    assert!(diag.figures(seconds(1)).rate.is_some());
}

#[test]
fn spans_are_subtracted_with_borrow() {
    let a = Span { secs: 5, nanos: 100 };
    let b = Span { secs: 3, nanos: 200 };
    assert_eq!(
        a.since(b),
        Span {
            secs: 1,
            nanos: 999_999_900
        }
    );
    assert_eq!(b.since(a), seconds(0));
    assert_eq!(a.since(a), seconds(0));
    assert!(!seconds(0).is_positive());
    assert!(Span { secs: 0, nanos: 1 }.is_positive());
}

#[test]
fn the_closing_line_gives_the_time() {
    let mut diag = Diagnostics::new(10);
    diag.train_elapsed = Span {
        secs: 9_420,
        nanos: 5,
    };
    assert_eq!(diag.closing(), "Training took 2h 37m");
    diag.train_elapsed = seconds(59);
    assert_eq!(diag.closing(), "Training took 59s");
    diag.train_elapsed = seconds(0);
    assert_eq!(diag.closing(), "Training took 0s");
}

#[test]
fn durations_are_split_into_units() {
    let mut diag = Diagnostics::new(10);
    for (secs, text) in [
        (1, "1s"),
        (60, "1m"),
        (61, "1m 1s"),
        (3_600, "1h"),
        (86_399, "23h 59m 59s"),
        (86_400, "1day"),
        (172_801, "2days 1s"),
        (2_630_016, "1month"),
        (5_260_032, "2months"),
        (31_557_600, "1year"),
        (63_115_200, "2years"),
        (31_557_600 + 2_630_016 + 86_400 + 3_661, "1year 1month 1day 1h 1m 1s"),
        (3 * 31_557_600 - 1, "2years 11months 30days 9h 50m 23s"),
        (u64::MAX, "584542046090years 7months 15days 17h 5m 3s"),
    ] {
        diag.train_elapsed = seconds(secs);
        assert_eq!(diag.closing(), format!("Training took {text}"));
    }
}
