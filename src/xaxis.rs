//! The time axis: clock labels at round minutes under the plot.
use vstd::prelude::*;
use chrono::{DateTime, Local, NaiveTime, TimeZone};
use vstd::arithmetic::div_mod::lemma_fundamental_div_mod_converse;
use vstd::string::StrSliceExecFns;
use crate::decimal::digit;
use crate::fixed::floor_div_i128;
use crate::geometry::{Alignment, Point, Primitive, Px, Role};

verus! {

/// A time of day, given in minutes since midnight, as `%H:%M` prints it:
/// two zero-padded digits of hour, a colon, two of minute.
pub open spec fn clock_text(minute_of_day: int) -> Seq<char> {
    let h = minute_of_day / 60;
    let m = minute_of_day % 60;
    seq![digit(h / 10), digit(h % 10), ':', digit(m / 10), digit(m % 10)]
}

/// Relies on `chrono::DateTime::from_timestamp_millis` and
/// `TimeZone::offset_from_utc_datetime` of `chrono::Local`: the machine's
/// offset from UTC, in seconds, at an instant; a `FixedOffset` lies strictly
/// within a day. Every instant within about 250,000 years of 1970 is in the
/// date library's range. Where the machine's time-zone data cannot be read
/// the library uses UTC; it panics only where a zone lookup fails.
#[verifier::external_body]
fn local_offset_seconds(millis: i64) -> (r: Option<i32>)
    ensures
        r.is_some() ==> -86_400 < r.unwrap() < 86_400,
        -MAX_CLOCK_MILLIS <= millis <= MAX_CLOCK_MILLIS ==> r.is_some(),
{
    match DateTime::from_timestamp_millis(millis) {
        Some(t) => Some(Local.offset_from_utc_datetime(&t.naive_utc()).local_minus_utc()),
        None => None,
    }
}

/// Relies on `chrono::NaiveTime::from_num_seconds_from_midnight_opt` and
/// `format("%H:%M")`: two zero-padded digits of hour and of minute around a
/// colon.
#[verifier::external_body]
fn clock_label(minute_of_day: u32) -> (r: String)
    requires
        minute_of_day < 1440,
    ensures
        r@ == clock_text(minute_of_day as int),
{
    match NaiveTime::from_num_seconds_from_midnight_opt(minute_of_day * 60, 0) {
        Some(t) => t.format("%H:%M").to_string(),
        None => String::new(),
    }
}

/// Instants, in epoch milliseconds, up to this far from 1970 have a local
/// time.
pub const MAX_CLOCK_MILLIS: i64 = 8_000_000_000_000_000;

/// Height, in pixels, below the plot's rows at which the time axis runs.
pub const TIME_AXIS_DROP: i64 = 100;

/// Length, in pixels, of a tick below the time axis.
pub const TIME_TICK_LENGTH: i64 = 7;

/// Drop, in pixels, of the labels below the plot's rows.
pub const TIME_LABEL_DROP: i64 = 110;

/// Font size, in pixels, of the time labels.
pub const TIME_FONT_SIZE: i64 = 12;

/// Above this many minutes shown, labels stand half an hour apart instead of
/// a quarter.
pub const WIDE_RANGE_MINUTES: i64 = 180;

pub const MILLIS_PER_MINUTE: i64 = 60_000;

/// The time axis of a plot `screen_width` by `screen_height` pixels showing
/// the candles from `start_time` to `end_time` (epoch milliseconds). Clock
/// labels are drawn for the one-minute timeframe.
#[derive(Clone, Debug)]
pub struct XAxisRenderer {
    pub screen_width: u32,
    pub screen_height: u32,
    pub start_time: u64,
    pub end_time: u64,
    pub timeframe: String,
}

pub open spec fn whole_px(v: int) -> Px {
    Px { num: v as i128, den: 1 }
}

impl XAxisRenderer {
    /// Times that stay in range once moved to local time.
    pub open spec fn valid(self) -> bool {
        &&& self.start_time <= i64::MAX - 86_400_000
        &&& self.end_time <= i64::MAX - 86_400_000
    }

    pub open spec fn axis_line(self) -> Primitive {
        let y = whole_px(self.screen_height + TIME_AXIS_DROP);
        Primitive::Line {
            from: Point { x: whole_px(0), y },
            to: Point { x: whole_px(self.screen_width as int), y },
            role: Role::AxisLine,
        }
    }

    /// Minutes between labels: a quarter hour, or half an hour where the
    /// axis spans more than three hours. The span is taken from the start to
    /// the end, so that wide ranges get sparser labels on purpose.
    pub open spec fn interval(self) -> int {
        if (self.end_time - self.start_time) / (MILLIS_PER_MINUTE as int) > WIDE_RANGE_MINUTES {
            30
        } else {
            15
        }
    }

    /// The start in local time, for an offset of `off` seconds.
    pub open spec fn local_start(self, off: int) -> int {
        self.start_time + off * 1000
    }

    /// The first label's time: the start moved up to a whole multiple of the
    /// interval in minutes past the hour.
    pub open spec fn first_label(self, off: int) -> int {
        let minute = (self.local_start(off) / (MILLIS_PER_MINUTE as int)) % 60;
        let rem = minute % self.interval();
        let ahead = if rem == 0 {
            0
        } else {
            self.interval() - rem
        };
        self.local_start(off) + ahead * MILLIS_PER_MINUTE
    }

    /// Whole seconds from the start to the end.
    pub open spec fn span_seconds(self) -> int {
        if self.end_time >= self.start_time {
            (self.end_time - self.start_time) / 1000
        } else {
            0
        }
    }

    /// Labels from the first up to the end, one interval apart; none where
    /// the span is under a second.
    pub open spec fn label_count(self, off: int) -> int {
        let end = self.end_time + off * 1000;
        if self.span_seconds() <= 0 || self.first_label(off) > end {
            0
        } else {
            (end - self.first_label(off)) / (self.interval() * MILLIS_PER_MINUTE) + 1
        }
    }

    /// Local time of label `k`, in milliseconds.
    pub open spec fn label_time(self, off: int, k: int) -> int {
        self.first_label(off) + k * self.interval() * MILLIS_PER_MINUTE
    }

    /// Column of label `k`: its whole seconds after the start, scaled from
    /// the span onto the width.
    pub open spec fn label_x(self, off: int, k: int) -> Px {
        let secs = (self.label_time(off, k) - self.local_start(off)) / 1000;
        Px { num: (secs * self.screen_width) as i128, den: self.span_seconds() as i128 }
    }

    /// Whether `p` is label `k`: its clock text, centred on its column by the
    /// text's estimated width.
    pub open spec fn is_label(self, off: int, k: int, p: Primitive) -> bool {
        let x = self.label_x(off, k);
        let text = clock_text((self.label_time(off, k) / (MILLIS_PER_MINUTE as int)) % 1440);
        match p {
            Primitive::Text { content, position, alignment, role } => {
                &&& content@ == text
                &&& position == Point {
                    x: Px { num: (10 * x.num - 3 * text.len() * TIME_FONT_SIZE * x.den) as i128, den: (10 * x.den) as i128 },
                    y: whole_px(self.screen_height + TIME_LABEL_DROP),
                }
                &&& alignment == Alignment::Left
                &&& role == Role::TimeLabel
            },
            _ => false,
        }
    }

    pub open spec fn tick(self, off: int, k: int) -> Primitive {
        let x = self.label_x(off, k);
        Primitive::Line {
            from: Point { x, y: whole_px(self.screen_height + TIME_AXIS_DROP) },
            to: Point { x, y: whole_px(self.screen_height + TIME_AXIS_DROP + TIME_TICK_LENGTH) },
            role: Role::TimeTick,
        }
    }

    /// The axis for a local offset of `off` seconds from UTC.
    pub fn layout_time_axis(&self, off: i32) -> (r: Vec<Primitive>)
        requires
            self.valid(),
            -86_400 < off < 86_400,
        ensures
            self.time_axis(off as int, r@),
    {
        let h: i128 = self.screen_height as i128;
        let w: i128 = self.screen_width as i128;
        let mut prims: Vec<Primitive> = Vec::new();
        prims.push(
            Primitive::Line {
                from: Point { x: Px { num: 0, den: 1 }, y: Px { num: h + TIME_AXIS_DROP as i128, den: 1 } },
                to: Point { x: Px { num: w, den: 1 }, y: Px { num: h + TIME_AXIS_DROP as i128, den: 1 } },
                role: Role::AxisLine,
            },
        );
        let start: i128 = self.start_time as i128;
        let end: i128 = self.end_time as i128;
        let minute_ms: i128 = MILLIS_PER_MINUTE as i128;
        let iv: i128 = if floor_div_i128(end - start, minute_ms) > WIDE_RANGE_MINUTES as i128 {
            30
        } else {
            15
        };
        let sl: i128 = start + (off as i128) * 1000;
        let el: i128 = end + (off as i128) * 1000;
        let q = floor_div_i128(sl, minute_ms);
        let minute = q - floor_div_i128(q, 60) * 60;
        proof {
            lemma_fundamental_div_mod_converse(q as int, 60, q as int / 60, minute as int);
            vstd::arithmetic::div_mod::lemma_fundamental_div_mod(q as int, 60);
            vstd::arithmetic::div_mod::lemma_mod_bound(q as int, 60);
        }
        assert(minute == (sl / 60000) % 60);
        let rem = minute % iv;
        let ahead: i128 = if rem == 0 {
            0
        } else {
            iv - rem
        };
        let first: i128 = sl + ahead * minute_ms;
        assert(first == self.first_label(off as int));
        let span: i128 = if self.end_time >= self.start_time {
            ((self.end_time - self.start_time) / 1000) as i128
        } else {
            0
        };
        assert(span == self.span_seconds());
        if span <= 0 {
            return prims;
        }
        let step: i128 = iv * minute_ms;
        let mut t: i128 = first;
        let mut k: u64 = 0;
        while t <= el
            invariant
                self.valid(),
                -86_400 < off < 86_400,
                span == self.span_seconds() > 0,
                span <= 18_446_744_073_709_552,
                step == self.interval() * MILLIS_PER_MINUTE,
                sl == self.local_start(off as int),
                el == self.end_time + off * 1000,
                first == self.first_label(off as int),
                minute_ms == 60_000,
                iv == 15 || iv == 30,
                step == iv * 60_000,
                -100_000_000 <= sl <= first <= sl + 30 * 60_000,
                el <= 9_223_372_036_854_775_807 + 100_000_000,
                t == self.label_time(off as int, k as int),
                t == first + k * step,
                t >= first,
                k > 0 ==> t - step <= el,
                k <= t - first,
                prims@.len() == 1 + 2 * k,
                prims@[0] == self.axis_line(),
                h == self.screen_height,
                w == self.screen_width,
                forall|j: int| 0 <= j < k ==> #[trigger] self.labelled(off as int, j, prims@),
            decreases el + step - t,
        {
            let secs: i128 = floor_div_i128(t - sl, 1000);
            proof {
                assert(t - sl <= el - sl);
                assert(secs <= span);
                assert(0 <= secs * w <= (span + 100_000) * 4_294_967_295) by (nonlinear_arith)
                    requires
                        0 <= secs <= span + 100_000,
                        0 <= w <= 4_294_967_295,
                ;
            }
            let x = Px { num: secs * w, den: span };
            proof {
                assert(0 <= secs * w <= 18_446_744_073_709_552 * 4_294_967_295) by (nonlinear_arith)
                    requires
                        0 <= secs <= span <= 18_446_744_073_709_552,
                        0 <= w <= 4_294_967_295,
                ;
            }
            let mq = floor_div_i128(t, minute_ms);
            let of_day = mq - floor_div_i128(mq, 1440) * 1440;
            proof {
                lemma_fundamental_div_mod_converse(mq as int, 1440, mq as int / 1440, of_day as int);
                vstd::arithmetic::div_mod::lemma_fundamental_div_mod(mq as int, 1440);
                vstd::arithmetic::div_mod::lemma_mod_bound(mq as int, 1440);
            }
            let label = clock_label(of_day as u32);
            let len: i128 = label.as_str().unicode_len() as i128;
            assert(len == 5);
            assert(3 * len * 12 * span == 180 * span);
            assert(of_day == (self.label_time(off as int, k as int) / (MILLIS_PER_MINUTE as int)) % 1440);
            let ghost before = prims@;
            prims.push(
                Primitive::Text {
                    content: label,
                    position: Point {
                        x: Px { num: 10 * x.num - 3 * len * (TIME_FONT_SIZE as i128) * span, den: 10 * span },
                        y: Px { num: h + TIME_LABEL_DROP as i128, den: 1 },
                    },
                    alignment: Alignment::Left,
                    role: Role::TimeLabel,
                },
            );
            prims.push(
                Primitive::Line {
                    from: Point { x, y: Px { num: h + TIME_AXIS_DROP as i128, den: 1 } },
                    to: Point { x, y: Px { num: h + TIME_AXIS_DROP as i128 + TIME_TICK_LENGTH as i128, den: 1 } },
                    role: Role::TimeTick,
                },
            );
            proof {
                let text = clock_text((self.label_time(off as int, k as int) / (MILLIS_PER_MINUTE as int)) % 1440);
                assert(text.len() == 5);
                assert(x == self.label_x(off as int, k as int));
                assert(self.is_label(off as int, k as int, prims@[1 + 2 * k]));
                assert(prims@[2 + 2 * k] == self.tick(off as int, k as int));
                assert forall|j: int| 0 <= j < k + 1 implies #[trigger] self.labelled(off as int, j, prims@) by {
                    if j < k {
                        assert(self.labelled(off as int, j, before));
                        assert(prims@[1 + 2 * j] == before[1 + 2 * j]);
                        assert(prims@[2 + 2 * j] == before[2 + 2 * j]);
                    }
                }
                assert(self.label_time(off as int, k + 1) == t + step) by (nonlinear_arith)
                    requires
                        t == self.label_time(off as int, k as int),
                        step == self.interval() * MILLIS_PER_MINUTE,
                        self.label_time(off as int, k + 1) == self.first_label(off as int) + (k + 1) * self.interval() * MILLIS_PER_MINUTE,
                        t == self.first_label(off as int) + k * self.interval() * MILLIS_PER_MINUTE,
                ;
            }
            proof {
                assert(t + step == first + (k + 1) * step) by (nonlinear_arith)
                    requires
                        t == first + k * step,
                ;
                assert(t - first <= 9_300_000_000_000_000_000);
                assert(k + 1 <= t + step - first) by (nonlinear_arith)
                    requires
                        k <= t - first,
                        step >= 1,
                ;
            }
            t = t + step;
            k = k + 1;
        }
        proof {
            if k == 0 {
                assert(first > el);
            } else {
                let d = el - first;
                assert(d == (k - 1) * step + (el - (t - step))) by (nonlinear_arith)
                    requires
                        t == first + k * step,
                        d == el - first,
                ;
                lemma_fundamental_div_mod_converse(d as int, step as int, k - 1, el - (t - step));
            }
        }
        prims
    }

    fn line_only(&self) -> (r: Vec<Primitive>)
        ensures
            r@ == seq![self.axis_line()],
    {
        let h: i128 = self.screen_height as i128 + TIME_AXIS_DROP as i128;
        let mut prims: Vec<Primitive> = Vec::new();
        prims.push(
            Primitive::Line {
                from: Point { x: Px { num: 0, den: 1 }, y: Px { num: h, den: 1 } },
                to: Point { x: Px { num: self.screen_width as i128, den: 1 }, y: Px { num: h, den: 1 } },
                role: Role::AxisLine,
            },
        );
        proof {
            assert(prims@ =~= seq![self.axis_line()]);
        }
        prims
    }

    /// Draws the time axis: its line, and for the one-minute timeframe clock
    /// labels at round quarters (half hours over three hours) of local time,
    /// each with a tick. Local time is the machine's, taken at the start.
    pub fn render_axis(&self) -> (r: Vec<Primitive>)
        requires
            self.valid(),
        ensures
            self.rendered(r@),
    {
        let one_minute = "1m".to_owned();
        if self.timeframe != one_minute {
            return self.line_only();
        }
        match local_offset_seconds(self.start_time as i64) {
            Some(off) => {
                let r = self.layout_time_axis(off);
                proof {
                    assert(self.time_axis(off as int, r@));
                }
                r
            },
            None => self.line_only(),
        }
    }

    /// What `render_axis` yields: the line alone, or for the one-minute
    /// timeframe the labelled axis for the machine's offset at the start (the
    /// line alone only where the start is out of the date library's range).
    pub open spec fn rendered(self, r: Seq<Primitive>) -> bool {
        &&& r.len() >= 1
        &&& r[0] == self.axis_line()
        &&& self.timeframe@ != "1m"@ ==> r == seq![self.axis_line()]
        &&& self.timeframe@ == "1m"@ ==> r == seq![self.axis_line()] || exists|off: int|
            -86_400 < off < 86_400 && self.time_axis(off, r)
        &&& self.timeframe@ == "1m"@ && self.start_time <= MAX_CLOCK_MILLIS ==> exists|off: int|
            -86_400 < off < 86_400 && self.time_axis(off, r)
    }

    /// Label `k` and its tick stand at `1 + 2k` and `2 + 2k` of `p`.
    pub open spec fn labelled(self, off: int, k: int, p: Seq<Primitive>) -> bool {
        self.is_label(off, k, p[1 + 2 * k]) && p[2 + 2 * k] == self.tick(off, k)
    }

    /// The axis line, then each label followed by its tick.
    pub open spec fn time_axis(self, off: int, p: Seq<Primitive>) -> bool {
        &&& p.len() == 1 + 2 * self.label_count(off)
        &&& p[0] == self.axis_line()
        &&& forall|k: int| 0 <= k < self.label_count(off) ==> #[trigger] self.labelled(off, k, p)
    }
}

} // verus!
