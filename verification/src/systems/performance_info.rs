use std::time::Instant;

use vstd::prelude::*;

verus! {

/// How often the overlay values are refreshed, in microseconds.
pub const PERIOD_MICROS: u128 = 1_000_000;

/// Frame statistics shown in the overlay.
pub struct PerformanceInfo {
    pub fps: u64,
    /// Raw values written by the render system each frame.
    pub frame_time_us_raw: u64,
    pub opticast_us_raw: u64,
    pub upload_us_raw: u64,
    /// Smoothed values shown in the overlay (updated once per period).
    pub frame_time_us: u64,
    pub opticast_us: u64,
    pub upload_us: u64,
    /// Start of the current period.
    pub update_timer: Instant,
}

/// The raw values are unchanged from `a` to `b`.
pub open spec fn same_raw(a: PerformanceInfo, b: PerformanceInfo) -> bool {
    &&& b.frame_time_us_raw == a.frame_time_us_raw
    &&& b.opticast_us_raw == a.opticast_us_raw
    &&& b.upload_us_raw == a.upload_us_raw
}

/// `b` shows `fps` and the raw values of `a`.
pub open spec fn published(a: PerformanceInfo, b: PerformanceInfo, fps: u64) -> bool {
    &&& same_raw(a, b)
    &&& b.fps == fps
    &&& b.frame_time_us == a.frame_time_us_raw
    &&& b.opticast_us == a.opticast_us_raw
    &&& b.upload_us == a.upload_us_raw
}

/// `b` shows what `a` showed.
pub open spec fn kept(a: PerformanceInfo, b: PerformanceInfo) -> bool {
    &&& same_raw(a, b)
    &&& b.fps == a.fps
    &&& b.frame_time_us == a.frame_time_us
    &&& b.opticast_us == a.opticast_us
    &&& b.upload_us == a.upload_us
}

impl PerformanceInfo {
    /// All values zero; the period starts now.
    pub fn new() -> (info: PerformanceInfo)
        ensures
            info.fps == 0,
            info.frame_time_us_raw == 0,
            info.opticast_us_raw == 0,
            info.upload_us_raw == 0,
            info.frame_time_us == 0,
            info.opticast_us == 0,
            info.upload_us == 0,
    {
        PerformanceInfo {
            fps: 0,
            frame_time_us_raw: 0,
            opticast_us_raw: 0,
            upload_us_raw: 0,
            frame_time_us: 0,
            opticast_us: 0,
            upload_us: 0,
            update_timer: Instant::now(),
        }
    }

    /// Once `elapsed_micros` reaches the period, shows `fps` and copies the
    /// raw values to the shown ones; returns whether it did.
    pub fn publish_if_due(&mut self, elapsed_micros: u128, fps: u64) -> (due: bool)
        ensures
            due == (elapsed_micros >= PERIOD_MICROS),
            final(self).update_timer == old(self).update_timer,
            due ==> published(*old(self), *final(self), fps),
            !due ==> kept(*old(self), *final(self)),
    {
        if elapsed_micros >= PERIOD_MICROS {
            self.fps = fps;
            self.frame_time_us = self.frame_time_us_raw;
            self.opticast_us = self.opticast_us_raw;
            self.upload_us = self.upload_us_raw;
            true
        } else {
            false
        }
    }
}

/// Refreshes the shown values with `fps` and the raw values once a period
/// has passed since the last refresh, and starts a new period then;
/// otherwise changes nothing, the period start included. Returns the time
/// measured since the period start, in microseconds: the refresh happens
/// exactly when it is at least `PERIOD_MICROS`. The measurement itself
/// comes from the clock (`Instant::elapsed`), of which nothing is stated.
pub fn update_info(fps: u64, info: &mut PerformanceInfo) -> (elapsed_micros: u128)
    ensures
        published(*old(info), *final(info), fps) || (kept(*old(info), *final(info))
            && final(info).update_timer == old(info).update_timer),
        elapsed_micros >= PERIOD_MICROS ==> published(*old(info), *final(info), fps),
        elapsed_micros < PERIOD_MICROS ==> kept(*old(info), *final(info))
            && final(info).update_timer == old(info).update_timer,
{
    let elapsed = info.update_timer.elapsed();
    let micros = elapsed.as_micros();
    if info.publish_if_due(micros, fps) {
        info.update_timer = Instant::now();
    }
    micros
}

/// Less than a period after the last refresh nothing shown changes; a full
/// period after it the overlay shows the given frame rate and the raw
/// timings, whatever it showed before.
pub proof fn law_refresh_once_per_period(
    before: PerformanceInfo,
    after: PerformanceInfo,
    fps: u64,
    elapsed_micros: u128,
)
    requires
        elapsed_micros >= PERIOD_MICROS ==> published(before, after, fps),
        elapsed_micros < PERIOD_MICROS ==> kept(before, after),
    ensures
        elapsed_micros < PERIOD_MICROS ==> after.fps == before.fps && after.frame_time_us
            == before.frame_time_us && after.opticast_us == before.opticast_us && after.upload_us
            == before.upload_us,
        elapsed_micros >= PERIOD_MICROS ==> after.fps == fps && after.frame_time_us
            == before.frame_time_us_raw && after.opticast_us == before.opticast_us_raw
            && after.upload_us == before.upload_us_raw,
        after.frame_time_us_raw == before.frame_time_us_raw,
{
}

} // verus!
