//! Lap timer.
//!
//! Advisory instrumentation around the pipeline's named stages. Reading
//! the clock is an outside effect whose values nothing can promise, so
//! the wall-clock calls sit behind trusted declarations and every lap
//! duration is treated as an arbitrary number of nanoseconds; the
//! statistics and the fixed-point text rendering over those numbers are
//! verified exactly.

use vstd::prelude::*;
use vstd::string::StringExecFns;
use std::time::{Duration, Instant};

verus! {

/// `std::time::Instant`, opaque to the verifier.
#[verifier::external_type_specification]
#[verifier::external_body]
pub struct ExInstant(Instant);

/// Relies on `Instant::now`: a reading of the monotonic clock. Nothing is
/// promised of the value.
#[verifier::external_body]
fn instant_now() -> Instant {
    Instant::now()
}

/// Relies on `Instant::saturating_duration_since`: the elapsed time from
/// `earlier` to `later`, zero if `earlier` is the later one; the call
/// never panics. Nothing is promised of the value.
#[verifier::external_body]
fn since(later: &Instant, earlier: &Instant) -> Duration {
    later.saturating_duration_since(*earlier)
}

/// Relies on `Duration::as_nanos`: the duration as total nanoseconds.
/// Nothing is promised of the value.
#[verifier::external_body]
fn duration_as_nanos(d: &Duration) -> u128 {
    d.as_nanos()
}

/// Nanoseconds from `earlier` to `later`, clamped into a `u64` (which
/// holds more than five centuries).
fn nanos_between(earlier: &Instant, later: &Instant) -> u64 {
    let d = since(later, earlier);
    let n = duration_as_nanos(&d);
    if n > 0xffff_ffff_ffff_ffffu128 {
        u64::MAX
    } else {
        n as u64
    }
}

/// The recorded durations of a lap list, in order.
pub open spec fn durations_of(laps: Seq<(u64, String)>) -> Seq<u64> {
    laps.map_values(|p: (u64, String)| p.0)
}

/// Least element of a non-empty duration sequence.
pub open spec fn seq_min(s: Seq<u64>) -> int
    decreases s.len(),
{
    if s.len() <= 1 {
        if s.len() == 1 {
            s[0] as int
        } else {
            0
        }
    } else {
        let m = seq_min(s.drop_last());
        if s.last() < m {
            s.last() as int
        } else {
            m
        }
    }
}

/// Greatest element of a non-empty duration sequence.
pub open spec fn seq_max(s: Seq<u64>) -> int
    decreases s.len(),
{
    if s.len() <= 1 {
        if s.len() == 1 {
            s[0] as int
        } else {
            0
        }
    } else {
        let m = seq_max(s.drop_last());
        if s.last() > m {
            s.last() as int
        } else {
            m
        }
    }
}

/// Sum of a duration sequence.
pub open spec fn seq_sum(s: Seq<u64>) -> int
    decreases s.len(),
{
    if s.len() == 0 {
        0
    } else {
        seq_sum(s.drop_last()) + s.last()
    }
}

/// The sum of `u64` values is bounded by `len` times the type maximum.
proof fn lemma_seq_sum_bound(s: Seq<u64>)
    ensures
        0 <= seq_sum(s) <= s.len() * 0xffff_ffff_ffff_ffff,
    decreases s.len(),
{
    if s.len() > 0 {
        lemma_seq_sum_bound(s.drop_last());
        assert((s.len() - 1) * 0xffff_ffff_ffff_ffff + 0xffff_ffff_ffff_ffff == s.len()
            * 0xffff_ffff_ffff_ffff) by (nonlinear_arith);
    }
}

/// Lap timer: a start instant, recorded laps, and a tick count.
pub struct StopWatch {
    begin: Instant,
    laps: Vec<(u64, String)>,
    end: Instant,
    total_ticks: i32,
    last_lap_time: Instant,
}

impl StopWatch {
    /// The recorded laps: nanoseconds with their stage label.
    pub closed spec fn spec_laps(&self) -> Seq<(u64, String)> {
        self.laps@
    }

    /// The tick count.
    pub closed spec fn spec_ticks(&self) -> i32 {
        self.total_ticks
    }

    /// A stopped watch with no laps and no ticks.
    pub fn new() -> (w: StopWatch)
        ensures
            w.spec_laps() == Seq::<(u64, String)>::empty(),
            w.spec_ticks() == 0,
    {
        let now = instant_now();
        StopWatch { begin: now, laps: Vec::new(), end: now, total_ticks: 0, last_lap_time: now }
    }

    /// Restarts the lap clock; laps and ticks are kept.
    pub fn start(&mut self)
        ensures
            final(self).spec_laps() == old(self).spec_laps(),
            final(self).spec_ticks() == old(self).spec_ticks(),
    {
        let now = instant_now();
        self.begin = now;
        self.last_lap_time = now;
    }

    /// Records a lap: the time since the last lap (or start), under the
    /// given stage label.
    pub fn lap(&mut self, label: &str)
        ensures
            final(self).spec_laps().len() == old(self).spec_laps().len() + 1,
            forall|i: int|
                0 <= i < old(self).spec_laps().len() ==> #[trigger] final(self).spec_laps()[i]
                    == old(self).spec_laps()[i],
            final(self).spec_laps().last().1@ == label@,
            final(self).spec_ticks() == old(self).spec_ticks(),
    {
        let now = instant_now();
        let duration = nanos_between(&self.last_lap_time, &now);
        self.last_lap_time = now;
        self.laps.push((duration, label.to_owned()));
    }

    /// Counts one processed frame and moves the end mark.
    pub fn tick(&mut self)
        requires
            old(self).spec_ticks() < i32::MAX,
        ensures
            final(self).spec_laps() == old(self).spec_laps(),
            final(self).spec_ticks() == old(self).spec_ticks() + 1,
    {
        self.total_ticks = self.total_ticks + 1;
        self.end = instant_now();
    }

    /// The number of frames counted so far.
    pub fn get_ticks(&self) -> (r: i32)
        ensures
            r == self.spec_ticks(),
    {
        self.total_ticks
    }

    /// Moves the end mark without counting a frame.
    pub fn stop(&mut self)
        ensures
            final(self).spec_laps() == old(self).spec_laps(),
            final(self).spec_ticks() == old(self).spec_ticks(),
    {
        self.end = instant_now();
    }

    /// Minimum, maximum and truncated mean of the recorded lap durations,
    /// in nanoseconds; `None` exactly when no lap was recorded.
    pub fn calc_stats(&self) -> (r: Option<(u64, u64, u64)>)
        ensures
            r is Some <==> self.spec_laps().len() > 0,
            r is Some ==> {
                &&& r->Some_0.0 == seq_min(durations_of(self.spec_laps()))
                &&& r->Some_0.1 == seq_max(durations_of(self.spec_laps()))
                &&& r->Some_0.2 == seq_sum(durations_of(self.spec_laps())) / durations_of(
                    self.spec_laps(),
                ).len() as int
            },
    {
        if self.laps.len() == 0 {
            return None;
        }
        let mut ds: Vec<u64> = Vec::new();
        let mut k: usize = 0;
        while k < self.laps.len()
            invariant
                0 <= k <= self.laps@.len(),
                ds@.len() == k,
                forall|i: int| 0 <= i < k ==> ds@[i] == self.laps@[i].0,
            decreases self.laps@.len() - k,
        {
            ds.push(self.laps[k].0);
            k = k + 1;
        }
        proof {
            assert(ds@ =~= durations_of(self.spec_laps()));
        }
        Some(stats_of(&ds))
    }

    /// The overall lap statistics alongside per-label statistics, one
    /// entry per distinct label in order of first recording.
    pub fn calc_detailed_stats(&self) -> (r: (
        Option<(u64, u64, u64)>,
        Vec<(String, (u64, u64, u64))>,
    ))
        ensures
            r.0 is Some <==> self.spec_laps().len() > 0,
            r.0 is Some ==> {
                &&& r.0->Some_0.0 == seq_min(durations_of(self.spec_laps()))
                &&& r.0->Some_0.1 == seq_max(durations_of(self.spec_laps()))
                &&& r.0->Some_0.2 == seq_sum(durations_of(self.spec_laps())) / durations_of(
                    self.spec_laps(),
                ).len() as int
            },
            r.1@.len() == distinct_labels(self.spec_laps()).len(),
            forall|i: int|
                0 <= i < r.1@.len() ==> {
                    let ds = durations_with(self.spec_laps(), distinct_labels(self.spec_laps())[i]);
                    &&& (#[trigger] r.1@[i]).0@ == distinct_labels(self.spec_laps())[i]
                    &&& r.1@[i].1.0 == seq_min(ds)
                    &&& r.1@[i].1.1 == seq_max(ds)
                    &&& r.1@[i].1.2 == seq_sum(ds) / ds.len() as int
                },
    {
        let total_stats = self.calc_stats();
        let ghost laps = self.spec_laps();
        let mut groups: Vec<(String, Vec<u64>)> = Vec::new();
        proof {
            assert(laps.take(0) =~= Seq::<(u64, String)>::empty());
            assert(group_labels(groups@) =~= distinct_labels(laps.take(0)));
        }
        let mut k: usize = 0;
        while k < self.laps.len()
            invariant
                0 <= k <= self.laps@.len(),
                laps == self.spec_laps(),
                laps.len() == self.laps@.len(),
                group_labels(groups@) == distinct_labels(laps.take(k as int)),
                forall|i: int|
                    0 <= i < groups@.len() ==> (#[trigger] groups@[i]).1@ == durations_with(
                        laps.take(k as int),
                        group_labels(groups@)[i],
                    ) && groups@[i].1@.len() > 0,
            decreases self.laps@.len() - k,
        {
            proof {
                assert(laps.take(k as int + 1).drop_last() =~= laps.take(k as int));
                assert(laps.take(k as int + 1).last() == laps[k as int]);
            }
            let d: u64 = self.laps[k].0;
            let ghost lbl = laps[k as int].1@;
            let mut found = false;
            let mut found_at: usize = 0;
            let mut j: usize = 0;
            while j < groups.len()
                invariant
                    0 <= j <= groups@.len(),
                    0 <= k < laps.len(),
                    laps == self.spec_laps(),
                    laps.len() == self.laps@.len(),
                    lbl == laps[k as int].1@,
                    !found ==> forall|i: int|
                        0 <= i < j ==> (#[trigger] groups@[i]).0@ != lbl,
                    found ==> found_at < groups@.len() && groups@[found_at as int].0@ == lbl,
                decreases groups@.len() - j,
            {
                if !found {
                    if groups[j].0 == self.laps[k].1 {
                        found = true;
                        found_at = j;
                    }
                }
                j = j + 1;
            }
            let ghost pre_groups = groups@;
            proof {
                lemma_distinct_labels_distinct(laps.take(k as int));
            }
            if found {
                let jj = found_at;
                groups[jj].1.push(d);
                proof {
                    assert(groups@[jj as int].0 == pre_groups[jj as int].0);
                    assert(groups@[jj as int].1@ == pre_groups[jj as int].1@.push(d));
                    assert(forall|i: int|
                        0 <= i < pre_groups.len() && i != jj ==> groups@[i] == pre_groups[i]);
                    assert(group_labels(groups@) =~= group_labels(pre_groups));
                    assert(group_labels(pre_groups)[jj as int] == lbl);
                    assert(distinct_labels(laps.take(k as int)).contains(lbl));
                    assert(distinct_labels(laps.take(k as int + 1)) == distinct_labels(
                        laps.take(k as int),
                    ));
                    lemma_durations_with_step(laps, k as int, pre_groups, groups@, jj as int, lbl);
                }
            } else {
                proof {
                    assert(!distinct_labels(laps.take(k as int)).contains(lbl)) by {
                        assert forall|i: int|
                            0 <= i < distinct_labels(laps.take(k as int)).len() implies distinct_labels(
                            laps.take(k as int),
                        )[i] != lbl by {
                            assert(group_labels(pre_groups)[i] == pre_groups[i].0@);
                        }
                    }
                    assert(distinct_labels(laps.take(k as int + 1)) == distinct_labels(
                        laps.take(k as int),
                    ).push(lbl));
                    lemma_label_absent(laps.take(k as int), lbl);
                }
                let label_copy = self.laps[k].1.clone();
                let mut nv: Vec<u64> = Vec::new();
                nv.push(d);
                groups.push((label_copy, nv));
                proof {
                    assert(group_labels(groups@) =~= group_labels(pre_groups).push(lbl));
                    assert forall|i: int|
                        0 <= i < groups@.len() implies (#[trigger] groups@[i]).1@
                        == durations_with(laps.take(k as int + 1), group_labels(groups@)[i])
                        && groups@[i].1@.len() > 0 by {
                        if i < pre_groups.len() {
                            assert(groups@[i] == pre_groups[i]);
                            lemma_durations_with_other(
                                laps,
                                k as int,
                                group_labels(pre_groups)[i],
                                lbl,
                            );
                        } else {
                            assert(groups@[i].1@ =~= seq![d]);
                            lemma_durations_with_new(laps, k as int, lbl);
                        }
                    }
                }
            }
            k = k + 1;
        }
        proof {
            assert(laps.take(laps.len() as int) =~= laps);
        }
        let mut label_stats: Vec<(String, (u64, u64, u64))> = Vec::new();
        let mut g: usize = 0;
        while g < groups.len()
            invariant
                0 <= g <= groups@.len(),
                laps == self.spec_laps(),
                group_labels(groups@) == distinct_labels(laps),
                forall|i: int|
                    0 <= i < groups@.len() ==> (#[trigger] groups@[i]).1@ == durations_with(
                        laps,
                        group_labels(groups@)[i],
                    ) && groups@[i].1@.len() > 0,
                label_stats@.len() == g,
                forall|i: int|
                    0 <= i < g ==> {
                        let ds = durations_with(laps, distinct_labels(laps)[i]);
                        &&& (#[trigger] label_stats@[i]).0@ == distinct_labels(laps)[i]
                        &&& label_stats@[i].1.0 == seq_min(ds)
                        &&& label_stats@[i].1.1 == seq_max(ds)
                        &&& label_stats@[i].1.2 == seq_sum(ds) / ds.len() as int
                    },
            decreases groups@.len() - g,
        {
            let stats = stats_of(&groups[g].1);
            let label_copy = groups[g].0.clone();
            label_stats.push((label_copy, stats));
            proof {
                assert(group_labels(groups@)[g as int] == groups@[g as int].0@);
            }
            g = g + 1;
        }
        (total_stats, label_stats)
    }
}

impl StopWatch {
    /// The lap summary as text: minimum, maximum and mean lap duration,
    /// each with the frame rate it corresponds to. At least one lap must
    /// have been recorded.
    pub fn to_string(&self) -> (s: String)
        requires
            self.spec_laps().len() > 0,
        ensures
            s@ == ({
                let ds = durations_of(self.spec_laps());
                stat_line("Min: "@, seq_min(ds)) + stat_line("Max: "@, seq_max(ds)) + stat_line(
                    "Avg: "@,
                    seq_sum(ds) / ds.len() as int,
                )
            }),
    {
        let stats = self.calc_stats();
        let (mn, mx, avg) = match stats {
            Option::Some(t) => t,
            Option::None => (0u64, 0u64, 0u64),
        };
        proof {
            reveal_strlit("Min: ");
            reveal_strlit("Max: ");
            reveal_strlit("Avg: ");
            reveal_strlit(" | ");
            reveal_strlit(" fps\n");
        }
        let mut out = String::new();
        out.append("Min: ");
        let mnd = format_duration_ms(mn);
        out.append(mnd.as_str());
        out.append(" | ");
        append_fps(&mut out, mn);
        out.append(" fps\n");
        out.append("Max: ");
        let mxd = format_duration_ms(mx);
        out.append(mxd.as_str());
        out.append(" | ");
        append_fps(&mut out, mx);
        out.append(" fps\n");
        out.append("Avg: ");
        let avd = format_duration_ms(avg);
        out.append(avd.as_str());
        out.append(" | ");
        append_fps(&mut out, avg);
        out.append(" fps\n");
        proof {
            let ds = durations_of(self.spec_laps());
            assert(out@ =~= stat_line("Min: "@, seq_min(ds)) + stat_line("Max: "@, seq_max(ds))
                + stat_line("Avg: "@, seq_sum(ds) / ds.len() as int));
        }
        out
    }
}

impl StopWatch {
    /// The detailed lap summary as text: the total stat block, then one
    /// block per distinct label in order of first recording, each rate
    /// computed from its own duration.
    pub fn to_string_detailed(&self) -> (s: String)
        ensures
            s@ == detailed_text(self.spec_laps()),
    {
        let detailed = self.calc_detailed_stats();
        let total = detailed.0;
        let by_label = detailed.1;
        let ghost laps = self.spec_laps();
        let mut out = String::new();
        match total {
            Option::Some(t) => {
                proof {
                    reveal_strlit("[ Total ]\n");
                }
                out.append("[ Total ]\n");
                append_stat_block(&mut out, t.0, t.1, t.2);
            },
            Option::None => {
            },
        }
        let ghost head = out@;
        if by_label.len() > 0 {
            proof {
                reveal_strlit("\n[ Laps ]\n");
                reveal_strlit(":\n");
                reveal_strlit("\n");
            }
            out.append("\n[ Laps ]\n");
            let mut g: usize = 0;
            while g < by_label.len()
                invariant
                    0 <= g <= by_label@.len(),
                    laps == self.spec_laps(),
                    by_label@.len() == distinct_labels(laps).len(),
                    forall|i: int|
                        0 <= i < by_label@.len() ==> {
                            let ds = durations_with(laps, distinct_labels(laps)[i]);
                            &&& (#[trigger] by_label@[i]).0@ == distinct_labels(laps)[i]
                            &&& by_label@[i].1.0 == seq_min(ds)
                            &&& by_label@[i].1.1 == seq_max(ds)
                            &&& by_label@[i].1.2 == seq_sum(ds) / ds.len() as int
                        },
                    out@ == head + "\n[ Laps ]\n"@ + label_blocks(laps, g as int),
                decreases by_label@.len() - g,
            {
                let ghost pre = out@;
                out.append(by_label[g].0.as_str());
                proof {
                    reveal_strlit(":\n");
                    reveal_strlit("\n");
                }
                out.append(":\n");
                let stats = by_label[g].1;
                append_stat_block(&mut out, stats.0, stats.1, stats.2);
                out.append("\n");
                proof {
                    assert(out@ =~= head + "\n[ Laps ]\n"@ + label_blocks(laps, g as int + 1));
                }
                g = g + 1;
            }
        }
        proof {
            assert(out@ =~= detailed_text(laps));
        }
        out
    }
}

/// Minimum, maximum and truncated mean of a non-empty duration list.
fn stats_of(ds: &Vec<u64>) -> (r: (u64, u64, u64))
    requires
        ds@.len() > 0,
    ensures
        r.0 == seq_min(ds@),
        r.1 == seq_max(ds@),
        r.2 == seq_sum(ds@) / ds@.len() as int,
{
    proof {
        assert(ds@.take(1).drop_last() =~= ds@.take(0));
        assert(ds@.take(1) =~= seq![ds@[0]]);
        assert(seq_sum(ds@.take(0)) == 0);
        assert(seq_sum(ds@.take(1)) == ds@[0] && seq_min(ds@.take(1)) == ds@[0] && seq_max(
            ds@.take(1),
        ) == ds@[0]);
    }
    let first: u64 = ds[0];
    let mut mn: u64 = first;
    let mut mx: u64 = first;
    let mut sum: u128 = first as u128;
    let mut k: usize = 1;
    while k < ds.len()
        invariant
            1 <= k <= ds@.len(),
            mn == seq_min(ds@.take(k as int)),
            mx == seq_max(ds@.take(k as int)),
            sum == seq_sum(ds@.take(k as int)),
            sum <= k * 0xffff_ffff_ffff_ffff,
        decreases ds@.len() - k,
    {
        proof {
            assert(ds@.take(k as int + 1).drop_last() =~= ds@.take(k as int));
            assert(ds@.take(k as int + 1).last() == ds@[k as int]);
            assert((k as int) * 0xffff_ffff_ffff_ffff + 0xffff_ffff_ffff_ffff == (k as int + 1)
                * 0xffff_ffff_ffff_ffff) by (nonlinear_arith);
            assert((k as int + 1) * 0xffff_ffff_ffff_ffff <= 0xffff_ffff_ffff_ffff
                * 0xffff_ffff_ffff_ffff) by (nonlinear_arith)
                requires
                    k as int + 1 <= 0xffff_ffff_ffff_ffff,
            ;
        }
        let d = ds[k];
        if d < mn {
            mn = d;
        }
        if d > mx {
            mx = d;
        }
        sum = sum + (d as u128);
        k = k + 1;
    }
    proof {
        assert(ds@.take(ds@.len() as int) =~= ds@);
    }
    let len: u128 = ds.len() as u128;
    let avg_wide: u128 = sum / len;
    proof {
        vstd::arithmetic::div_mod::lemma_fundamental_div_mod(sum as int, len as int);
        lemma_seq_sum_bound(ds@);
        lemma_sum_le_len_max(ds@);
        assert(avg_wide <= mx) by (nonlinear_arith)
            requires
                avg_wide == (sum as int) / (len as int),
                sum as int == (len as int) * ((sum as int) / (len as int)) + (sum as int) % (
                len as int),
                0 <= (sum as int) % (len as int) < len as int,
                len >= 1,
                sum as int <= (len as int) * (mx as int),
        ;
    }
    (mn, mx, avg_wide as u64)
}

/// The durations recorded under one label, in order.
pub open spec fn durations_with(laps: Seq<(u64, String)>, label: Seq<char>) -> Seq<u64>
    decreases laps.len(),
{
    if laps.len() == 0 {
        Seq::empty()
    } else {
        let rest = durations_with(laps.drop_last(), label);
        if laps.last().1@ == label {
            rest.push(laps.last().0)
        } else {
            rest
        }
    }
}

/// The distinct lap labels, in order of first recording.
pub open spec fn distinct_labels(laps: Seq<(u64, String)>) -> Seq<Seq<char>>
    decreases laps.len(),
{
    if laps.len() == 0 {
        Seq::empty()
    } else {
        let rest = distinct_labels(laps.drop_last());
        if rest.contains(laps.last().1@) {
            rest
        } else {
            rest.push(laps.last().1@)
        }
    }
}

/// The labels of a group list, in order.
pub open spec fn group_labels(gs: Seq<(String, Vec<u64>)>) -> Seq<Seq<char>> {
    Seq::new(gs.len(), |i: int| gs[i].0@)
}

/// A number below 100, zero-padded to exactly two digits.
pub open spec fn pad2(n: int) -> Seq<char> {
    if n < 10 {
        seq!['0'] + dec_digits(n)
    } else {
        dec_digits(n)
    }
}

/// Frames per second at two rounded decimals for one lap duration in
/// nanoseconds; "inf" for a zero duration.
pub open spec fn fps_text(ns: int) -> Seq<char> {
    if ns == 0 {
        "inf"@
    } else {
        let h = (200_000_000_000 + ns) / (2 * ns);
        dec_digits(h / 100) + "."@ + pad2(h % 100)
    }
}

/// One line of the summary: a labelled duration and the frame rate it
/// corresponds to.
pub open spec fn stat_line(prefix: Seq<char>, ns: int) -> Seq<char> {
    prefix + duration_text(ns) + " | "@ + fps_text(ns) + " fps\n"@
}

/// An indented block of the three stat lines over the given minimum,
/// maximum and mean durations.
pub open spec fn stat_block(mn: int, mx: int, avg: int) -> Seq<char> {
    stat_line("  Min: "@, mn) + stat_line("  Max: "@, mx) + stat_line("  Avg: "@, avg)
}

/// The report blocks of the first `k` distinct labels, each a heading and
/// the stat block over that label's recorded durations. Every rate in a
/// block is computed from its own duration.
pub open spec fn label_blocks(laps: Seq<(u64, String)>, k: int) -> Seq<char>
    decreases k,
{
    if k <= 0 {
        Seq::empty()
    } else {
        let label = distinct_labels(laps)[k - 1];
        let ds = durations_with(laps, label);
        label_blocks(laps, k - 1) + label + ":\n"@ + stat_block(
            seq_min(ds),
            seq_max(ds),
            seq_sum(ds) / ds.len() as int,
        ) + "\n"@
    }
}

/// The whole detailed report: a total block when laps exist, then one
/// block per distinct label in order of first recording.
pub open spec fn detailed_text(laps: Seq<(u64, String)>) -> Seq<char> {
    (if laps.len() > 0 {
        "[ Total ]\n"@ + stat_block(
            seq_min(durations_of(laps)),
            seq_max(durations_of(laps)),
            seq_sum(durations_of(laps)) / durations_of(laps).len() as int,
        )
    } else {
        Seq::empty()
    }) + (if distinct_labels(laps).len() > 0 {
        "\n[ Laps ]\n"@ + label_blocks(laps, distinct_labels(laps).len() as int)
    } else {
        Seq::empty()
    })
}

/// Appends one indented stat block.
fn append_stat_block(s: &mut String, mn: u64, mx: u64, avg: u64)
    ensures
        final(s)@ == old(s)@ + stat_block(mn as int, mx as int, avg as int),
{
    let ghost start = s@;
    proof {
        reveal_strlit("  Min: ");
        reveal_strlit("  Max: ");
        reveal_strlit("  Avg: ");
        reveal_strlit(" | ");
        reveal_strlit(" fps\n");
    }
    s.append("  Min: ");
    let mnd = format_duration_ms(mn);
    s.append(mnd.as_str());
    s.append(" | ");
    append_fps(s, mn);
    s.append(" fps\n");
    s.append("  Max: ");
    let mxd = format_duration_ms(mx);
    s.append(mxd.as_str());
    s.append(" | ");
    append_fps(s, mx);
    s.append(" fps\n");
    s.append("  Avg: ");
    let avd = format_duration_ms(avg);
    s.append(avd.as_str());
    s.append(" | ");
    append_fps(s, avg);
    s.append(" fps\n");
    proof {
        assert(s@ =~= start + stat_block(mn as int, mx as int, avg as int));
    }
}

/// Appends the two-decimal frame rate of one lap duration.
fn append_fps(s: &mut String, ns: u64)
    ensures
        final(s)@ == old(s)@ + fps_text(ns as int),
{
    let ghost start = s@;
    if ns == 0 {
        proof {
            reveal_strlit("inf");
        }
        s.append("inf");
        proof {
            assert(s@ =~= start + fps_text(ns as int));
        }
        return ;
    }
    let dividend: u128 = 200_000_000_000u128 + (ns as u128);
    let divisor: u128 = 2 * (ns as u128);
    let h_wide: u128 = dividend / divisor;
    proof {
        vstd::arithmetic::div_mod::lemma_fundamental_div_mod(dividend as int, divisor as int);
        assert(2 * h_wide <= 200_000_000_000 + ns) by (nonlinear_arith)
            requires
                h_wide == (dividend as int) / (divisor as int),
                dividend as int == (divisor as int) * ((dividend as int) / (divisor as int)) + (
                dividend as int) % (divisor as int),
                0 <= (dividend as int) % (divisor as int) < divisor as int,
                divisor == 2 * (ns as int),
                dividend == 200_000_000_000 + ns,
                1 <= ns,
        ;
    }
    let h: u64 = h_wide as u64;
    let whole = u64_to_string(h / 100);
    s.append(whole.as_str());
    proof {
        reveal_strlit(".");
    }
    s.append(".");
    let frac: u64 = h % 100;
    if frac < 10 {
        proof {
            reveal_strlit("0");
        }
        s.append("0");
    }
    let fd = u64_to_string(frac);
    s.append(fd.as_str());
    proof {
        assert(s@ =~= start + fps_text(ns as int));
    }
}

/// Labels collected in order of first recording never repeat.
proof fn lemma_distinct_labels_distinct(laps: Seq<(u64, String)>)
    ensures
        forall|i: int, l: int|
            0 <= i < distinct_labels(laps).len() && 0 <= l < distinct_labels(laps).len() && i != l
                ==> #[trigger] distinct_labels(laps)[i] != #[trigger] distinct_labels(laps)[l],
    decreases laps.len(),
{
    if laps.len() > 0 {
        lemma_distinct_labels_distinct(laps.drop_last());
        let rest = distinct_labels(laps.drop_last());
        if !rest.contains(laps.last().1@) {
            assert forall|i: int, l: int|
                0 <= i < distinct_labels(laps).len() && 0 <= l < distinct_labels(laps).len() && i
                    != l implies #[trigger] distinct_labels(laps)[i] != #[trigger] distinct_labels(
                laps)[l] by {
                if l == rest.len() {
                    assert(rest[i] != laps.last().1@) by {
                        if rest[i] == laps.last().1@ {
                            assert(rest.contains(laps.last().1@));
                        }
                    }
                } else if i == rest.len() {
                    assert(rest[l] != laps.last().1@) by {
                        if rest[l] == laps.last().1@ {
                            assert(rest.contains(laps.last().1@));
                        }
                    }
                }
            }
        }
    }
}

/// A label outside the distinct list has no recorded durations.
proof fn lemma_label_absent(laps: Seq<(u64, String)>, label: Seq<char>)
    requires
        !distinct_labels(laps).contains(label),
    ensures
        durations_with(laps, label) == Seq::<u64>::empty(),
    decreases laps.len(),
{
    if laps.len() > 0 {
        let rest = distinct_labels(laps.drop_last());
        assert(!rest.contains(label)) by {
            if rest.contains(label) {
                let i = choose|i: int| 0 <= i < rest.len() && rest[i] == label;
                if rest.contains(laps.last().1@) {
                    assert(distinct_labels(laps)[i] == label);
                } else {
                    assert(distinct_labels(laps)[i] == label);
                }
                assert(distinct_labels(laps).contains(label));
            }
        }
        lemma_label_absent(laps.drop_last(), label);
        assert(laps.last().1@ != label) by {
            if laps.last().1@ == label {
                if rest.contains(laps.last().1@) {
                    assert(rest.contains(label));
                } else {
                    assert(distinct_labels(laps).last() == label);
                    assert(distinct_labels(laps).contains(label));
                }
            }
        }
    }
}

/// One grouping step when the label is already present: the group under
/// that label grows by the new duration, every other group is untouched.
proof fn lemma_durations_with_step(
    laps: Seq<(u64, String)>,
    k: int,
    pre: Seq<(String, Vec<u64>)>,
    cur: Seq<(String, Vec<u64>)>,
    jj: int,
    lbl: Seq<char>,
)
    requires
        0 <= k < laps.len(),
        lbl == laps[k].1@,
        laps.take(k + 1).drop_last() == laps.take(k),
        laps.take(k + 1).last() == laps[k],
        0 <= jj < pre.len(),
        cur.len() == pre.len(),
        pre[jj].0@ == lbl,
        cur[jj].1@ == pre[jj].1@.push(laps[k].0),
        cur[jj].0@ == pre[jj].0@,
        forall|i: int| 0 <= i < pre.len() && i != jj ==> cur[i] == pre[i],
        forall|i: int|
            0 <= i < pre.len() ==> (#[trigger] pre[i]).1@ == durations_with(
                laps.take(k),
                group_labels(pre)[i],
            ) && pre[i].1@.len() > 0,
        forall|i: int, l: int|
            0 <= i < pre.len() && 0 <= l < pre.len() && i != l ==> group_labels(pre)[i]
                != group_labels(pre)[l],
    ensures
        forall|i: int|
            0 <= i < cur.len() ==> (#[trigger] cur[i]).1@ == durations_with(
                laps.take(k + 1),
                group_labels(cur)[i],
            ) && cur[i].1@.len() > 0,
{
    assert forall|i: int|
        0 <= i < cur.len() implies (#[trigger] cur[i]).1@ == durations_with(
        laps.take(k + 1),
        group_labels(cur)[i],
    ) && cur[i].1@.len() > 0 by {
        assert(group_labels(cur)[i] == cur[i].0@);
        assert(group_labels(pre)[i] == pre[i].0@);
        if i == jj {
            assert(durations_with(laps.take(k + 1), lbl) == durations_with(laps.take(k), lbl).push(
                laps[k].0,
            ));
        } else {
            assert(cur[i] == pre[i]);
            assert(pre[i].0@ != lbl);
            assert(durations_with(laps.take(k + 1), pre[i].0@) == durations_with(
                laps.take(k),
                pre[i].0@,
            ));
        }
    }
}

/// A label different from the newly recorded one keeps its durations.
proof fn lemma_durations_with_other(
    laps: Seq<(u64, String)>,
    k: int,
    label: Seq<char>,
    lbl: Seq<char>,
)
    requires
        0 <= k < laps.len(),
        lbl == laps[k].1@,
        label != lbl,
    ensures
        durations_with(laps.take(k + 1), label) == durations_with(laps.take(k), label),
{
    assert(laps.take(k + 1).drop_last() =~= laps.take(k));
    assert(laps.take(k + 1).last() == laps[k]);
}

/// A label seen for the first time starts with exactly the new duration.
proof fn lemma_durations_with_new(laps: Seq<(u64, String)>, k: int, lbl: Seq<char>)
    requires
        0 <= k < laps.len(),
        lbl == laps[k].1@,
        durations_with(laps.take(k), lbl) == Seq::<u64>::empty(),
    ensures
        durations_with(laps.take(k + 1), lbl) == seq![laps[k].0],
{
    assert(laps.take(k + 1).drop_last() =~= laps.take(k));
    assert(laps.take(k + 1).last() == laps[k]);
    assert(durations_with(laps.take(k + 1), lbl) =~= seq![laps[k].0]);
}

/// The character of one decimal digit.
pub open spec fn digit_char(d: int) -> char {
    if d == 0 {
        '0'
    } else if d == 1 {
        '1'
    } else if d == 2 {
        '2'
    } else if d == 3 {
        '3'
    } else if d == 4 {
        '4'
    } else if d == 5 {
        '5'
    } else if d == 6 {
        '6'
    } else if d == 7 {
        '7'
    } else if d == 8 {
        '8'
    } else {
        '9'
    }
}

/// The decimal digits of a non-negative number, most significant first.
pub open spec fn dec_digits(n: int) -> Seq<char>
    decreases n,
{
    if n < 10 {
        seq![digit_char(n)]
    } else {
        dec_digits(n / 10).push(digit_char(n % 10))
    }
}

/// A number below 1000, zero-padded to exactly three digits.
pub open spec fn pad3(n: int) -> Seq<char> {
    if n < 10 {
        seq!['0', '0'] + dec_digits(n)
    } else if n < 100 {
        seq!['0'] + dec_digits(n)
    } else {
        dec_digits(n)
    }
}

/// A duration rendered at nanosecond, microsecond or millisecond scale:
/// plain nanoseconds below one microsecond, otherwise the whole part and
/// exactly three (truncated) fractional digits.
pub open spec fn duration_text(ns: int) -> Seq<char> {
    if ns < 1000 {
        dec_digits(ns) + " ns"@
    } else if ns < 1000000 {
        dec_digits(ns / 1000) + "."@ + pad3(ns % 1000) + " us"@
    } else {
        dec_digits(ns / 1000000) + "."@ + pad3((ns / 1000) % 1000) + " ms"@
    }
}

/// The string of one decimal digit.
fn digit_str(d: u64) -> (s: String)
    requires
        d < 10,
    ensures
        s@ == seq![digit_char(d as int)],
{
    proof {
        reveal_strlit("0");
        reveal_strlit("1");
        reveal_strlit("2");
        reveal_strlit("3");
        reveal_strlit("4");
        reveal_strlit("5");
        reveal_strlit("6");
        reveal_strlit("7");
        reveal_strlit("8");
        reveal_strlit("9");
    }
    let s: &str = if d == 0 {
        "0"
    } else if d == 1 {
        "1"
    } else if d == 2 {
        "2"
    } else if d == 3 {
        "3"
    } else if d == 4 {
        "4"
    } else if d == 5 {
        "5"
    } else if d == 6 {
        "6"
    } else if d == 7 {
        "7"
    } else if d == 8 {
        "8"
    } else {
        "9"
    };
    proof {
        assert(s@ =~= seq![digit_char(d as int)]);
    }
    s.to_owned()
}

/// The decimal rendering of a number.
pub fn u64_to_string(n: u64) -> (s: String)
    ensures
        s@ == dec_digits(n as int),
    decreases n,
{
    if n < 10 {
        digit_str(n)
    } else {
        let mut s = u64_to_string(n / 10);
        let d = digit_str(n % 10);
        s.append(d.as_str());
        proof {
            assert(s@ =~= dec_digits(n as int));
        }
        s
    }
}

/// Appends a number below 1000 zero-padded to three digits.
fn append_pad3(s: &mut String, n: u64)
    requires
        n < 1000,
    ensures
        final(s)@ == old(s)@ + pad3(n as int),
{
    let ghost start = s@;
    if n < 10 {
        proof {
            reveal_strlit("00");
        }
        s.append("00");
    } else if n < 100 {
        proof {
            reveal_strlit("0");
        }
        s.append("0");
    }
    let d = u64_to_string(n);
    s.append(d.as_str());
    proof {
        assert(s@ =~= start + pad3(n as int));
    }
}

/// Renders a duration in nanoseconds at the scale the value calls for:
/// whole nanoseconds below a microsecond, otherwise microseconds or
/// milliseconds with exactly three truncated fractional digits.
pub fn format_duration_ms(ns: u64) -> (s: String)
    ensures
        s@ == duration_text(ns as int),
{
    if ns < 1000 {
        let mut s = u64_to_string(ns);
        proof {
            reveal_strlit(" ns");
        }
        s.append(" ns");
        proof {
            assert(s@ =~= duration_text(ns as int));
        }
        s
    } else if ns < 1000000 {
        let mut s = u64_to_string(ns / 1000);
        proof {
            reveal_strlit(".");
        }
        s.append(".");
        append_pad3(&mut s, ns % 1000);
        proof {
            reveal_strlit(" us");
        }
        s.append(" us");
        proof {
            assert(s@ =~= duration_text(ns as int));
        }
        s
    } else {
        let mut s = u64_to_string(ns / 1000000);
        proof {
            reveal_strlit(".");
        }
        s.append(".");
        append_pad3(&mut s, (ns / 1000) % 1000);
        proof {
            reveal_strlit(" ms");
        }
        s.append(" ms");
        proof {
            assert(s@ =~= duration_text(ns as int));
        }
        s
    }
}

/// Every element is at most the sequence maximum, so the sum is at most
/// `len` times the maximum.
pub open spec fn seq_max_dominates(s: Seq<u64>) -> bool {
    seq_sum(s) <= s.len() * seq_max(s)
}

/// The sum never exceeds the length times the maximum.
pub proof fn lemma_sum_le_len_max(s: Seq<u64>)
    ensures
        seq_max_dominates(s),
    decreases s.len(),
{
    if s.len() == 0 {
        assert(s.len() * seq_max(s) == 0) by (nonlinear_arith)
            requires
                s.len() == 0,
        ;
    } else if s.len() == 1 {
        assert(seq_sum(s.drop_last()) == 0);
        assert(s.len() * seq_max(s) == seq_max(s)) by (nonlinear_arith)
            requires
                s.len() == 1,
        ;
    } else {
        lemma_sum_le_len_max(s.drop_last());
        let md = seq_max(s.drop_last());
        let m = seq_max(s);
        assert(md <= m && s.last() <= m);
        assert((s.len() - 1) * md <= (s.len() - 1) * m) by (nonlinear_arith)
            requires
                md <= m,
                s.len() >= 1,
        ;
        assert((s.len() - 1) * m + m == s.len() * m) by (nonlinear_arith);
    }
}

} // verus!
