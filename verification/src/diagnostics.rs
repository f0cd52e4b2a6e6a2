//! The one-line summary of a training run.

use vstd::prelude::*;
use vstd::string::*;

use crate::count::{count_text, format_count};
use crate::scalar::Scalar;
use crate::text::{decimal, join, joined, push_decimal, texts};

verus! {

/// Seconds between two diagnostic lines.
pub const DIAGNOSTIC_EVERY_SECS: u64 = 10;

/// Nanoseconds in a second.
pub const NANOS_PER_SEC: u32 = 1_000_000_000;

/// A length of time, or a moment as the time since some fixed start.
#[derive(Clone, Copy, Debug, PartialEq, Eq, Structural)]
pub struct Span {
    pub secs: u64,
    /// Less than a second.
    pub nanos: u32,
}

impl Span {
    /// Less than a second is in `nanos`.
    pub open spec fn wf(self) -> bool {
        self.nanos < NANOS_PER_SEC
    }

    /// The time in nanoseconds.
    pub open spec fn total(self) -> int {
        self.secs * NANOS_PER_SEC + self.nanos
    }

    /// The time from `earlier` to `self`, none where `earlier` is later.
    pub fn since(self, earlier: Span) -> (r: Span)
        requires
            self.wf(),
            earlier.wf(),
        ensures
            r.wf(),
            r.total() == if self.total() > earlier.total() {
                self.total() - earlier.total()
            } else {
                0
            },
    {
        if self.secs < earlier.secs || (self.secs == earlier.secs && self.nanos <= earlier.nanos) {
            Span { secs: 0, nanos: 0 }
        } else if self.nanos >= earlier.nanos {
            Span { secs: self.secs - earlier.secs, nanos: self.nanos - earlier.nanos }
        } else {
            Span {
                secs: self.secs - earlier.secs - 1,
                nanos: self.nanos + (NANOS_PER_SEC - earlier.nanos),
            }
        }
    }

    /// Whether any time passes.
    pub fn is_positive(self) -> (b: bool)
        ensures
            b == (self.total() > 0),
    {
        self.secs > 0 || self.nanos > 0
    }
}

/// A count of one unit of time, where there is any; `plural` units get an `s`
/// behind more than one.
pub open spec fn unit_text(count: nat, name: Seq<char>, plural: bool) -> Seq<Seq<char>> {
    if count == 0 {
        Seq::empty()
    } else if plural && count > 1 {
        seq![decimal(count) + name + "s"@]
    } else {
        seq![decimal(count) + name]
    }
}

/// A number of seconds in years of 365.25 days, months of 30.44 days, days,
/// hours, minutes and seconds, without those of which there are none.
pub open spec fn duration_text(secs: u64) -> Seq<char> {
    let in_year = secs as nat % 31_557_600;
    let in_month = in_year % 2_630_016;
    let in_day = in_month % 86_400;
    if secs == 0 {
        "0s"@
    } else {
        joined(
            unit_text(secs as nat / 31_557_600, "year"@, true) + unit_text(
                in_year / 2_630_016,
                "month"@,
                true,
            ) + unit_text(in_month / 86_400, "day"@, true) + unit_text(
                in_day / 3_600,
                "h"@,
                false,
            ) + unit_text(in_day % 3_600 / 60, "m"@, false) + unit_text(in_day % 60, "s"@, false),
            " "@,
        )
    }
}

/// `humantime::format_duration` writes a whole number of seconds as
/// [`duration_text`] says.
#[verifier::external_body]
pub(crate) fn write_duration(secs: u64) -> (r: String)
    ensures
        r@ == duration_text(secs),
{
    humantime::format_duration(std::time::Duration::from_secs(secs)).to_string()
}

/// Rolling training state, summarized into one line now and then.
#[derive(Clone, Copy, Debug, PartialEq, Eq)]
pub struct Diagnostics {
    pub total_iters: u64,
    pub iter: u32,
    pub train_elapsed: Span,
    pub train_loss: Option<Scalar>,
    pub splats: u32,
    pub eval_views: u32,
    pub lod_progress: Option<(u32, u32)>,
    /// Iteration, signal-to-noise ratio and similarity of the last evaluation.
    pub last_eval: Option<(u32, Scalar, Scalar)>,
    /// Iteration and moment of the previous report, for the interval rate.
    pub last_report: Option<(u32, Span)>,
}

/// The numbers that a line shows as fractions.
#[derive(Clone, Copy, Debug, PartialEq, Eq)]
pub struct Figures {
    /// Iterations since the last report and the time they took.
    pub rate: Option<(u32, Span)>,
    /// All iterations and the time they took.
    pub avg: Option<(u32, Span)>,
    pub loss: Option<Scalar>,
    /// Signal-to-noise ratio and similarity of the last evaluation.
    pub eval: Option<(Scalar, Scalar)>,
    /// Iterations left, where the rate gives the time that they take.
    pub left: Option<u64>,
}

/// The figures of a line, written out.
pub struct FigureTexts {
    /// Iterations per second since the last report, to one decimal.
    pub rate: Option<String>,
    /// Iterations per second over all, to one decimal.
    pub avg: Option<String>,
    /// The loss, to five decimals.
    pub loss: Option<String>,
    /// The last evaluation, to two and three decimals.
    pub eval: Option<(String, String)>,
    /// Whole seconds left at the interval rate.
    pub left_secs: Option<u64>,
}

/// One part of a line, or none.
pub open spec fn part_if(shown: bool, text: Seq<char>) -> Seq<Seq<char>> {
    if shown {
        seq![text]
    } else {
        Seq::empty()
    }
}

/// The rates in a line: the one since the last report, with the average behind
/// it.
pub open spec fn speed_text(rate: Option<Seq<char>>, avg: Option<Seq<char>>) -> Seq<char> {
    match (rate, avg) {
        (Some(rate), Some(avg)) => rate + " it/s (avg "@ + avg + ")"@,
        (Some(rate), None) => rate + " it/s"@,
        (None, Some(avg)) => "avg "@ + avg + " it/s"@,
        (None, None) => Seq::empty(),
    }
}

/// What an optional string holds.
pub open spec fn text_of(s: Option<String>) -> Option<Seq<char>> {
    match s {
        Some(s) => Some(s@),
        None => None,
    }
}

impl Diagnostics {
    /// The recorded times are proper.
    pub open spec fn wf(&self) -> bool {
        &&& self.train_elapsed.wf()
        &&& self.last_report matches Some((_, at)) ==> at.wf()
    }

    /// Whether there is a rate since the last report at the moment `now`: time
    /// has passed, and iterations were made.
    pub open spec fn has_rate(&self, now: Span) -> bool {
        self.last_report matches Some((iter, at)) && now.total() > at.total() && self.iter > iter
    }

    /// The figures of a line at the moment `now`.
    pub open spec fn shows(&self, now: Span, f: Figures) -> bool {
        &&& f.rate is Some <==> self.has_rate(now)
        &&& f.rate matches Some((iters, time)) ==> {
            &&& self.last_report matches Some((iter, at))
            &&& iters == self.iter - iter
            &&& time.wf()
            &&& time.total() == now.total() - at.total()
        }
        &&& f.avg == if self.train_elapsed.total() > 0 {
            Some((self.iter, self.train_elapsed))
        } else {
            None
        }
        &&& f.loss == self.train_loss
        &&& f.eval == match self.last_eval {
            Some((_, psnr, ssim)) => Some((psnr, ssim)),
            None => None,
        }
        &&& f.left == if self.has_rate(now) && self.total_iters > self.iter {
            Some((self.total_iters - self.iter) as u64)
        } else {
            None
        }
    }

    /// The figures of a line at the moment `now` are written out in `t`, and
    /// nothing else is.
    pub open spec fn written_in(&self, now: Span, t: FigureTexts) -> bool {
        &&& t.rate is Some <==> self.has_rate(now)
        &&& t.avg is Some <==> self.train_elapsed.total() > 0
        &&& t.loss is Some <==> self.train_loss is Some
        &&& t.eval is Some <==> self.last_eval is Some
        &&& t.left_secs is Some <==> self.has_rate(now) && self.total_iters > self.iter
    }

    /// The parts of a line with its figures and times written out.
    pub open spec fn parts(
        &self,
        t: FigureTexts,
        elapsed: Seq<char>,
        left: Option<Seq<char>>,
    ) -> Seq<Seq<char>> {
        seq!["iter "@ + decimal(self.iter as nat) + "/"@ + decimal(self.total_iters as nat)]
            + match self.lod_progress {
            Some((lod, total)) => seq![
                "LOD "@ + decimal(lod as nat) + "/"@ + decimal(total as nat),
            ],
            None => Seq::empty(),
        } + part_if(
            t.rate is Some || t.avg is Some,
            speed_text(text_of(t.rate), text_of(t.avg)),
        ) + match t.loss {
            Some(loss) => seq!["loss "@ + loss@],
            None => Seq::empty(),
        } + part_if(self.splats > 0, count_text(self.splats as nat) + " splats"@) + match (
            self.last_eval,
            t.eval,
        ) {
            (Some((iter, _, _)), Some((psnr, ssim))) => seq![
                "eval@"@ + decimal(iter as nat) + " "@ + psnr@ + " PSNR / "@ + ssim@ + " SSIM"@,
            ],
            _ => part_if(self.eval_views > 0, "eval pending"@),
        } + seq![elapsed + " elapsed"@] + match left {
            Some(left) => seq!["~"@ + left + " left"@],
            None => Seq::empty(),
        }
    }

    /// The line with its figures and times written out.
    pub open spec fn composed(
        &self,
        t: FigureTexts,
        elapsed: Seq<char>,
        left: Option<Seq<char>>,
    ) -> Seq<char> {
        "📊 "@ + joined(self.parts(t, elapsed, left), " · "@)
    }

    /// The line with its figures written out.
    pub open spec fn line_text(&self, t: FigureTexts) -> Seq<char> {
        self.composed(
            t,
            duration_text(self.train_elapsed.secs),
            match t.left_secs {
                Some(secs) => Some(duration_text(secs)),
                None => None,
            },
        )
    }

    /// The state before the first training step.
    pub fn new(total_iters: u64) -> (r: Diagnostics)
        ensures
            r.wf(),
            r == (Diagnostics {
                total_iters,
                iter: 0,
                train_elapsed: Span { secs: 0, nanos: 0 },
                train_loss: None,
                splats: 0,
                eval_views: 0,
                lod_progress: None,
                last_eval: None,
                last_report: None,
            }),
    {
        Diagnostics {
            total_iters,
            iter: 0,
            train_elapsed: Span { secs: 0, nanos: 0 },
            train_loss: None,
            splats: 0,
            eval_views: 0,
            lod_progress: None,
            last_eval: None,
            last_report: None,
        }
    }

    /// The figures of a line at the moment `now`. The time left is taken from
    /// the interval rate rather than the average, so that it follows the speed
    /// that the run is going at now.
    pub fn figures(&self, now: Span) -> (r: Figures)
        requires
            self.wf(),
            now.wf(),
        ensures
            self.shows(now, r),
    {
        let rate: Option<(u32, Span)> = match self.last_report {
            Some((iter, at)) => {
                let time = now.since(at);
                if time.is_positive() && self.iter > iter {
                    Some((self.iter - iter, time))
                } else {
                    None
                }
            },
            None => None,
        };
        let avg: Option<(u32, Span)> = if self.train_elapsed.is_positive() {
            Some((self.iter, self.train_elapsed))
        } else {
            None
        };
        let left: Option<u64> = if rate.is_some() && self.total_iters > self.iter as u64 {
            Some(self.total_iters - self.iter as u64)
        } else {
            None
        };
        Figures {
            rate,
            avg,
            loss: self.train_loss,
            eval: match self.last_eval {
                Some((_, psnr, ssim)) => Some((psnr, ssim)),
                None => None,
            },
            left,
        }
    }

    /// The line with its figures and times written out.
    pub fn compose(&self, figures: &FigureTexts, elapsed: &str, left: &Option<String>) -> (r:
        String)
        ensures
            r@ == self.composed(*figures, elapsed@, text_of(*left)),
    {
        let mut parts: Vec<String> = Vec::new();
        let ghost mut shown: Seq<Seq<char>> = Seq::empty();

        let mut part: String = String::new();
        part.append("iter ");
        push_decimal(&mut part, self.iter as u64);
        part.append("/");
        push_decimal(&mut part, self.total_iters);
        proof {
            shown = shown + seq![part@];
        }
        parts.push(part);
        assert(texts(parts@) =~= shown);

        if let Some((lod, total)) = self.lod_progress {
            let mut part: String = String::new();
            part.append("LOD ");
            push_decimal(&mut part, lod as u64);
            part.append("/");
            push_decimal(&mut part, total as u64);
            proof {
                shown = shown + seq![part@];
            }
            parts.push(part);
        }
        assert(texts(parts@) =~= shown);

        let mut part: String = String::new();
        match (&figures.rate, &figures.avg) {
            (Some(rate), Some(avg)) => {
                part.append(rate.as_str());
                part.append(" it/s (avg ");
                part.append(avg.as_str());
                part.append(")");
            },
            (Some(rate), None) => {
                part.append(rate.as_str());
                part.append(" it/s");
            },
            (None, Some(avg)) => {
                part.append("avg ");
                part.append(avg.as_str());
                part.append(" it/s");
            },
            (None, None) => {},
        }
        assert(part@ =~= speed_text(text_of(figures.rate), text_of(figures.avg)));
        if figures.rate.is_some() || figures.avg.is_some() {
            proof {
                shown = shown + seq![part@];
            }
            parts.push(part);
        }
        assert(texts(parts@) =~= shown);

        if let Some(loss) = &figures.loss {
            let mut part: String = String::new();
            part.append("loss ");
            part.append(loss.as_str());
            assert(part@ =~= "loss "@ + loss@);
            proof {
                shown = shown + seq![part@];
            }
            parts.push(part);
        }
        assert(texts(parts@) =~= shown);

        if self.splats > 0 {
            let mut part: String = format_count(self.splats);
            part.append(" splats");
            proof {
                shown = shown + seq![part@];
            }
            parts.push(part);
        }
        assert(texts(parts@) =~= shown);

        match (self.last_eval, &figures.eval) {
            (Some((iter, _, _)), Some((psnr, ssim))) => {
                let mut part: String = String::new();
                part.append("eval@");
                push_decimal(&mut part, iter as u64);
                part.append(" ");
                part.append(psnr.as_str());
                part.append(" PSNR / ");
                part.append(ssim.as_str());
                part.append(" SSIM");
                assert(part@ =~= "eval@"@ + decimal(iter as nat) + " "@ + psnr@ + " PSNR / "@
                    + ssim@ + " SSIM"@);
                proof {
                    shown = shown + seq![part@];
                }
                parts.push(part);
            },
            _ => {
                if self.eval_views > 0 {
                    let mut part: String = String::new();
                    part.append("eval pending");
                    assert(part@ =~= "eval pending"@);
                    proof {
                        shown = shown + seq![part@];
                    }
                    parts.push(part);
                }
            },
        }
        assert(texts(parts@) =~= shown);

        let mut part: String = String::new();
        part.append(elapsed);
        part.append(" elapsed");
        assert(part@ =~= elapsed@ + " elapsed"@);
        proof {
            shown = shown + seq![part@];
        }
        parts.push(part);
        assert(texts(parts@) =~= shown);

        if let Some(left) = left {
            let mut part: String = String::new();
            part.append("~");
            part.append(left.as_str());
            part.append(" left");
            assert(part@ =~= "~"@ + left@ + " left"@);
            proof {
                shown = shown + seq![part@];
            }
            parts.push(part);
        }
        assert(texts(parts@) =~= shown);
        assert(shown =~= self.parts(*figures, elapsed@, text_of(*left)));

        let mut line: String = String::new();
        line.append("📊 ");
        line.append(join(&parts, " · ").as_str());
        line
    }

    /// The diagnostic line at the moment `now`, with its figures written out,
    /// or `None` before the first training step.
    pub fn line(&mut self, now: Span, figures: &FigureTexts) -> (r: Option<String>)
        requires
            old(self).wf(),
            now.wf(),
            old(self).iter > 0 ==> old(self).written_in(now, *figures),
        ensures
            final(self).wf(),
            r is Some <==> old(self).iter > 0,
            r matches Some(line) ==> line@ == old(self).line_text(*figures),
            *final(self) == if old(self).iter == 0 {
                *old(self)
            } else {
                Diagnostics { last_report: Some((old(self).iter, now)), ..*old(self) }
            },
    {
        if self.iter == 0 {
            return None;
        }
        let elapsed: String = write_duration(self.train_elapsed.secs);
        let left: Option<String> = match figures.left_secs {
            Some(secs) => Some(write_duration(secs)),
            None => None,
        };
        let line = self.compose(figures, elapsed.as_str(), &left);
        self.last_report = Some((self.iter, now));
        Some(line)
    }

    /// What is reported when a run has ended.
    pub fn closing(&self) -> (r: String)
        ensures
            r@ == "Training took "@ + duration_text(self.train_elapsed.secs),
    {
        let mut r: String = String::new();
        r.append("Training took ");
        r.append(write_duration(self.train_elapsed.secs).as_str());
        r
    }
}

/// The first line has nothing to extrapolate from: no interval rate and no time
/// left.
pub proof fn law_first_line_has_no_estimate(d: Diagnostics, now: Span, f: Figures)
    requires
        d.last_report is None,
        d.shows(now, f),
    ensures
        f.rate is None,
        f.left is None,
{
}

/// The interval rate is measured from the line before: with a line at `at` and
/// the run at `iter` by the moment `now`, it covers exactly the iterations and
/// the time in between, and there is none where either is missing.
pub proof fn law_rate_covers_the_interval(
    before: Diagnostics,
    at: Span,
    after: Diagnostics,
    now: Span,
    f: Figures,
)
    requires
        after.last_report == Some((before.iter, at)),
        after.shows(now, f),
    ensures
        f.rate is Some <==> now.total() > at.total() && after.iter > before.iter,
        f.rate matches Some((iters, time)) ==> iters == after.iter - before.iter && time.total()
            == now.total() - at.total(),
        f.left is Some <==> f.rate is Some && after.iter < after.total_iters,
        f.left matches Some(left) ==> left == after.total_iters - after.iter,
{
}

/// Below a minute a duration is the number of its seconds and an `s`.
pub proof fn law_short_durations_are_seconds(secs: u64)
    requires
        secs < 60,
    ensures
        duration_text(secs) == decimal(secs as nat) + "s"@,
{
    if secs == 0 {
        reveal_strlit("0s");
        reveal_strlit("s");
        assert("0s"@ =~= decimal(0) + "s"@);
    } else {
        let part = unit_text(secs as nat, "s"@, false);
        let none = Seq::<Seq<char>>::empty();
        assert(none + none + none + none + none + part =~= part);
    }
}

/// A time is its seconds and the nanoseconds beyond them, of which there are
/// less than a second's; so no two proper times are the same in nanoseconds.
pub proof fn law_times_by_nanoseconds(a: Span, b: Span)
    ensures
        a.total() == a.secs * 1_000_000_000 + a.nanos,
        a.wf() <==> a.nanos < 1_000_000_000,
        a.wf() && b.wf() && a.total() == b.total() ==> a == b,
        a.wf() && b.wf() && a.secs < b.secs ==> a.total() < b.total(),
        DIAGNOSTIC_EVERY_SECS == 10,
{
}

/// The figures of a line are the recorded ones: the loss and the last
/// evaluation bit for bit, and the average over all iterations and the whole
/// training time where any time has passed.
pub proof fn law_figures_are_the_recorded_ones(d: Diagnostics, now: Span, f: Figures)
    requires
        d.shows(now, f),
    ensures
        f.loss == d.train_loss,
        d.last_eval matches Some((iter, psnr, ssim)) ==> f.eval == Some((psnr, ssim)),
        d.last_eval is None ==> f.eval is None,
        d.train_elapsed.secs > 0 || d.train_elapsed.nanos > 0 ==> f.avg == Some(
            (d.iter, d.train_elapsed),
        ),
        d.train_elapsed.secs == 0 && d.train_elapsed.nanos == 0 ==> f.avg is None,
        d.total_iters <= d.iter ==> f.left is None,
        f.rate is None ==> f.left is None,
        f.rate is Some && d.iter < d.total_iters ==> f.left == Some(
            (d.total_iters - d.iter) as u64,
        ),
        d.last_report matches Some((iter, at)) ==> {
            &&& f.rate is Some <==> at.total() < now.total() && iter < d.iter
            &&& f.rate matches Some((iters, time)) ==> iters == d.iter - iter && time.total()
                == now.total() - at.total()
        },
{
}

/// A line is written out exactly as far as it has figures.
pub proof fn law_texts_follow_the_figures(
    d: Diagnostics,
    now: Span,
    f: Figures,
    t: FigureTexts,
)
    requires
        d.shows(now, f),
        d.written_in(now, t),
    ensures
        t.rate is Some <==> f.rate is Some,
        t.avg is Some <==> f.avg is Some,
        t.loss is Some <==> f.loss is Some,
        t.eval is Some <==> f.eval is Some,
        t.left_secs is Some <==> f.left is Some,
{
}

/// The rates in a line: both, with the average in brackets behind, or the one
/// that there is.
pub proof fn law_speeds_by_case(rate: Seq<char>, avg: Seq<char>)
    ensures
        speed_text(Some(rate), Some(avg)) == rate + " it/s (avg "@ + avg + ")"@,
        speed_text(Some(rate), None) == rate + " it/s"@,
        speed_text(None, Some(avg)) == "avg "@ + avg + " it/s"@,
{
}

/// The parts of a line in their order: the iterations, the level of detail, the
/// speeds, the loss, the splats, the evaluation, the time passed and the time
/// left; each of them exactly where there is something to show, and the
/// iterations and the time passed always.
pub proof fn law_line_part_by_part(
    d: Diagnostics,
    t: FigureTexts,
    elapsed: Seq<char>,
    left: Option<Seq<char>>,
)
    ensures
        ({
            let parts = d.parts(t, elapsed, left);
            let lod_at = 1int;
            let speed_at = lod_at + if d.lod_progress is Some {
                1int
            } else {
                0
            };
            let loss_at = speed_at + if t.rate is Some || t.avg is Some {
                1int
            } else {
                0
            };
            let splats_at = loss_at + if t.loss is Some {
                1int
            } else {
                0
            };
            let eval_at = splats_at + if d.splats > 0 {
                1int
            } else {
                0
            };
            let evaluated = d.last_eval is Some && t.eval is Some;
            let elapsed_at = eval_at + if evaluated || d.eval_views > 0 {
                1int
            } else {
                0
            };
            &&& parts.len() == elapsed_at + 1 + if left is Some {
                1int
            } else {
                0
            }
            &&& parts[0] == "iter "@ + decimal(d.iter as nat) + "/"@ + decimal(d.total_iters as nat)
            &&& d.lod_progress matches Some((lod, total)) ==> parts[lod_at] == "LOD "@ + decimal(
                lod as nat,
            ) + "/"@ + decimal(total as nat)
            &&& t.rate is Some && t.avg is Some ==> parts[speed_at] == t.rate->0@ + " it/s (avg "@
                + t.avg->0@ + ")"@
            &&& t.rate is Some && t.avg is None ==> parts[speed_at] == t.rate->0@ + " it/s"@
            &&& t.rate is None && t.avg is Some ==> parts[speed_at] == "avg "@ + t.avg->0@
                + " it/s"@
            &&& t.loss matches Some(loss) ==> parts[loss_at] == "loss "@ + loss@
            &&& d.splats > 0 ==> parts[splats_at] == count_text(d.splats as nat) + " splats"@
            &&& d.last_eval matches Some((iter, _, _)) ==> (t.eval matches Some((psnr, ssim))
                ==> parts[eval_at] == "eval@"@ + decimal(iter as nat) + " "@ + psnr@ + " PSNR / "@
                + ssim@ + " SSIM"@)
            &&& !evaluated && d.eval_views > 0 ==> parts[eval_at] == "eval pending"@
            &&& parts[elapsed_at] == elapsed + " elapsed"@
            &&& left matches Some(left) ==> parts[elapsed_at + 1] == "~"@ + left + " left"@
        }),
{
}

/// A line is its parts behind a chart, with dots between them; the times in it
/// are the whole seconds of the training time and the seconds left.
pub proof fn law_line_is_its_parts(d: Diagnostics, t: FigureTexts)
    ensures
        t.left_secs is None ==> d.line_text(t) == "📊 "@ + joined(
            d.parts(t, duration_text(d.train_elapsed.secs), None),
            " · "@,
        ),
        t.left_secs matches Some(secs) ==> d.line_text(t) == "📊 "@ + joined(
            d.parts(t, duration_text(d.train_elapsed.secs), Some(duration_text(secs))),
            " · "@,
        ),
{
}

/// A duration that is so many years, months, days, hours, minutes and seconds
/// is written as those of which there are any, from the longest to the shortest,
/// with a space between them; years, months and days get an `s` behind more than
/// one.
pub proof fn law_durations_by_unit(
    years: nat,
    months: nat,
    days: nat,
    hours: nat,
    minutes: nat,
    seconds: nat,
    secs: u64,
)
    requires
        secs == years * 31_557_600 + months * 2_630_016 + days * 86_400 + hours * 3_600 + minutes
            * 60 + seconds,
        seconds < 60,
        minutes < 60,
        hours < 24,
        days * 86_400 + hours * 3_600 + minutes * 60 + seconds < 2_630_016,
        months * 2_630_016 + days * 86_400 + hours * 3_600 + minutes * 60 + seconds < 31_557_600,
        secs > 0,
    ensures
        ({
            let none = Seq::<Seq<char>>::empty();
            let shown = (if years > 1 {
                seq![decimal(years) + "year"@ + "s"@]
            } else if years == 1 {
                seq![decimal(1) + "year"@]
            } else {
                none
            }) + (if months > 1 {
                seq![decimal(months) + "month"@ + "s"@]
            } else if months == 1 {
                seq![decimal(1) + "month"@]
            } else {
                none
            }) + (if days > 1 {
                seq![decimal(days) + "day"@ + "s"@]
            } else if days == 1 {
                seq![decimal(1) + "day"@]
            } else {
                none
            }) + (if hours > 0 {
                seq![decimal(hours) + "h"@]
            } else {
                none
            }) + (if minutes > 0 {
                seq![decimal(minutes) + "m"@]
            } else {
                none
            }) + (if seconds > 0 {
                seq![decimal(seconds) + "s"@]
            } else {
                none
            });
            duration_text(secs) == joined(shown, " "@)
        }),
{
    let in_day = hours * 3_600 + minutes * 60 + seconds;
    let in_month = days * 86_400 + in_day;
    let in_year = months * 2_630_016 + in_month;
    let n = secs as nat;
    assert(in_day < 86_400);
    assert(n / 31_557_600 == years && n % 31_557_600 == in_year);
    assert(in_year / 2_630_016 == months && in_year % 2_630_016 == in_month);
    assert(in_month / 86_400 == days && in_month % 86_400 == in_day);
    assert(in_day / 3_600 == hours && in_day % 3_600 == minutes * 60 + seconds);
    assert((minutes * 60 + seconds) / 60 == minutes && in_day % 60 == seconds);
}

/// The time from an earlier moment to a later one, added to the earlier, is the
/// later; from a later one to an earlier there is none.
pub proof fn law_time_between_moments(later: Span, earlier: Span, r: Span)
    requires
        call_ensures(Span::since, (later, earlier), r),
    ensures
        r.nanos < 1_000_000_000,
        earlier.total() <= later.total() ==> r.total() + earlier.total() == later.total(),
        earlier.total() > later.total() ==> r.secs == 0 && r.nanos == 0,
{
}

/// A run starts at iteration zero with nothing recorded but how many iterations
/// it takes, and closes with the whole seconds of its training time.
pub proof fn law_start_and_end_of_a_run(
    total_iters: u64,
    start: Diagnostics,
    d: Diagnostics,
    closing: String,
)
    requires
        call_ensures(Diagnostics::new, (total_iters,), start),
        call_ensures(Diagnostics::closing, (&d,), closing),
    ensures
        start.total_iters == total_iters,
        start.iter == 0 && start.splats == 0 && start.eval_views == 0,
        start.train_elapsed.secs == 0 && start.train_elapsed.nanos == 0,
        start.train_loss is None && start.lod_progress is None,
        start.last_eval is None && start.last_report is None,
        closing@ == "Training took "@ + duration_text(d.train_elapsed.secs),
{
}

} // verus!
