use vstd::prelude::*;

verus! {

use crate::time::{rfc3339_instant_seconds, rfc3339_valid, spec_fields_of, spec_rfc3339_offset};

/// The training zone of one heart-rate sample, as a fraction of the maximal
/// heart rate: below 60 percent is zone 1, then one zone per 10 points, and
/// 90 percent or more is zone 5.
pub open spec fn spec_zone(hr: int, max_hr: int) -> int {
    if hr * 100 < max_hr * 60 {
        1
    } else if hr * 100 < max_hr * 70 {
        2
    } else if hr * 100 < max_hr * 80 {
        3
    } else if hr * 100 < max_hr * 90 {
        4
    } else {
        5
    }
}

/// Classifies one sample.
pub fn heart_rate_zone(hr: u32, max_hr: u32) -> (z: u8)
    requires
        max_hr >= 1,
    ensures
        z == spec_zone(hr as int, max_hr as int),
        1 <= z <= 5,
{
    let h: u64 = (hr as u64) * 100;
    let m: u64 = max_hr as u64;
    if h < m * 60 {
        1
    } else if h < m * 70 {
        2
    } else if h < m * 80 {
        3
    } else if h < m * 90 {
        4
    } else {
        5
    }
}

/// How many samples fall in zone `z`.
pub open spec fn spec_zone_count(samples: Seq<u32>, max_hr: int, z: int) -> int
    decreases samples.len(),
{
    if samples.len() == 0 {
        0int
    } else {
        spec_zone_count(samples.drop_last(), max_hr, z) + (if spec_zone(
            samples.last() as int,
            max_hr,
        ) == z {
            1int
        } else {
            0int
        })
    }
}

/// Samples counted into the five training zones.
pub struct ZoneCounts {
    pub z1: usize,
    pub z2: usize,
    pub z3: usize,
    pub z4: usize,
    pub z5: usize,
}

/// Counts every sample into its zone; the five counts partition the samples.
pub fn zone_counts(samples: &Vec<u32>, max_hr: u32) -> (r: ZoneCounts)
    requires
        max_hr >= 1,
    ensures
        r.z1 == spec_zone_count(samples@, max_hr as int, 1),
        r.z2 == spec_zone_count(samples@, max_hr as int, 2),
        r.z3 == spec_zone_count(samples@, max_hr as int, 3),
        r.z4 == spec_zone_count(samples@, max_hr as int, 4),
        r.z5 == spec_zone_count(samples@, max_hr as int, 5),
        r.z1 + r.z2 + r.z3 + r.z4 + r.z5 == samples@.len(),
{
    let mut r = ZoneCounts { z1: 0, z2: 0, z3: 0, z4: 0, z5: 0 };
    let n = samples.len();
    for i in 0..n
        invariant
            max_hr >= 1,
            n == samples@.len(),
            r.z1 == spec_zone_count(samples@.take(i as int), max_hr as int, 1),
            r.z2 == spec_zone_count(samples@.take(i as int), max_hr as int, 2),
            r.z3 == spec_zone_count(samples@.take(i as int), max_hr as int, 3),
            r.z4 == spec_zone_count(samples@.take(i as int), max_hr as int, 4),
            r.z5 == spec_zone_count(samples@.take(i as int), max_hr as int, 5),
            r.z1 + r.z2 + r.z3 + r.z4 + r.z5 == i,
    {
        let z = heart_rate_zone(samples[i], max_hr);
        if z == 1 {
            r.z1 = r.z1 + 1;
        } else if z == 2 {
            r.z2 = r.z2 + 1;
        } else if z == 3 {
            r.z3 = r.z3 + 1;
        } else if z == 4 {
            r.z4 = r.z4 + 1;
        } else {
            r.z5 = r.z5 + 1;
        }
        proof {
            assert(samples@.take(i as int + 1).drop_last() =~= samples@.take(i as int));
            assert(samples@.take(i as int + 1).last() == samples@[i as int]);
        }
    }
    proof {
        assert(samples@.take(n as int) =~= samples@);
    }
    r
}

/// The recovery score over milli-unit inputs: the percentage of current
/// heart-rate variability against its seven-day baseline, zero when the
/// baseline is zero, less five points per beat of resting-heart-rate
/// elevation, clamped to 0 through 100 and rounded half up.
pub open spec fn spec_recovery_score(
    baseline_hrv: int,
    current_hrv: int,
    baseline_rhr: int,
    current_rhr: int,
) -> int {
    let den = (if baseline_hrv > 0 {
        baseline_hrv
    } else {
        1
    }) * 1000;
    let base = if baseline_hrv > 0 {
        100 * current_hrv * 1000
    } else {
        0
    };
    let pen = if current_rhr > baseline_rhr && baseline_rhr > 0 {
        5 * ((current_rhr - baseline_rhr) * (if baseline_hrv > 0 {
            baseline_hrv
        } else {
            1
        }))
    } else {
        0
    };
    let num = base - pen;
    if num <= 0 {
        0
    } else if num >= 100 * den {
        100
    } else {
        (2 * num + den) / (2 * den)
    }
}

/// The recovery status for a score: above 80 Optimal, above 50 Good, above
/// 30 Strained, otherwise Recovery Needed.
pub open spec fn spec_recovery_status(score: int) -> Seq<char> {
    if score > 80 {
        "Optimal"@
    } else if score > 50 {
        "Good"@
    } else if score > 30 {
        "Strained"@
    } else {
        "Recovery Needed"@
    }
}

/// Computes the recovery score from milli-unit averages.
pub fn recovery_score(
    baseline_hrv: u64,
    current_hrv: u64,
    baseline_rhr: u64,
    current_rhr: u64,
) -> (r: u32)
    requires
        baseline_hrv <= 1000000000,
        current_hrv <= 1000000000,
        baseline_rhr <= 1000000000,
        current_rhr <= 1000000000,
    ensures
        r == spec_recovery_score(
            baseline_hrv as int,
            current_hrv as int,
            baseline_rhr as int,
            current_rhr as int,
        ),
        r <= 100,
{
    let den: i128 = (if baseline_hrv > 0 {
        baseline_hrv as i128
    } else {
        1
    }) * 1000;
    let base: i128 = if baseline_hrv > 0 {
        100 * (current_hrv as i128) * 1000
    } else {
        0
    };
    let pen: i128 = if current_rhr > baseline_rhr && baseline_rhr > 0 {
        let diff: i128 = (current_rhr - baseline_rhr) as i128;
        let bh: i128 = if baseline_hrv > 0 {
            baseline_hrv as i128
        } else {
            1
        };
        proof {
            assert(0 <= diff * bh <= 1000000000000000000) by (nonlinear_arith)
                requires
                    0 <= diff <= 1000000000,
                    0 <= bh <= 1000000000,
            ;
        }
        5 * (diff * bh)
    } else {
        0
    };
    let num: i128 = base - pen;
    if num <= 0 {
        0
    } else if num >= 100 * den {
        100
    } else {
        proof {
            assert(0 < num < 100 * den);
            assert(0 <= (2 * num + den) / (2 * den) <= 100) by (nonlinear_arith)
                requires
                    0 < den,
                    0 < num < 100 * den,
            ;
        }
        let q: u128 = ((2 * num + den) as u128) / ((2 * den) as u128);
        q as u32
    }
}

/// Names the recovery status of a score.
pub fn recovery_status(score: u32) -> (r: String)
    ensures
        r@ == spec_recovery_status(score as int),
{
    if score > 80 {
        "Optimal".to_owned()
    } else if score > 50 {
        "Good".to_owned()
    } else if score > 30 {
        "Strained".to_owned()
    } else {
        "Recovery Needed".to_owned()
    }
}

/// One stored sleep row: its stage code and its time window.
pub struct SleepRow {
    pub stage: i64,
    pub start: String,
    pub end: String,
}

/// The name of a sleep stage code.
pub open spec fn spec_stage_name(stage: int) -> Seq<char> {
    if stage == 0 {
        "In Bed"@
    } else if stage == 1 {
        "Asleep"@
    } else if stage == 2 {
        "Awake"@
    } else if stage == 3 {
        "Core"@
    } else if stage == 4 {
        "Deep"@
    } else if stage == 5 {
        "REM"@
    } else {
        "Unknown"@
    }
}

/// Names a sleep stage code.
pub fn stage_name(stage: i64) -> (r: String)
    ensures
        r@ == spec_stage_name(stage as int),
{
    if stage == 0 {
        "In Bed".to_owned()
    } else if stage == 1 {
        "Asleep".to_owned()
    } else if stage == 2 {
        "Awake".to_owned()
    } else if stage == 3 {
        "Core".to_owned()
    } else if stage == 4 {
        "Deep".to_owned()
    } else if stage == 5 {
        "REM".to_owned()
    } else {
        "Unknown".to_owned()
    }
}

/// The instant a timestamp names, in seconds.
pub open spec fn spec_instant(s: Seq<char>) -> int {
    spec_fields_of(s, 11).epoch_seconds() - spec_rfc3339_offset(s) * 60
}

/// The seconds a sleep row spans, when both its timestamps parse; negative
/// when the window is reversed.
pub open spec fn spec_sleep_duration(row: SleepRow) -> Option<int> {
    if rfc3339_valid(row.start@) && rfc3339_valid(row.end@) {
        Some(spec_instant(row.end@) - spec_instant(row.start@))
    } else {
        None
    }
}

/// Total seconds of the rows whose timestamps parse.
pub open spec fn spec_sleep_total(rows: Seq<SleepRow>) -> int
    decreases rows.len(),
{
    if rows.len() == 0 {
        0int
    } else {
        spec_sleep_total(rows.drop_last()) + (match spec_sleep_duration(rows.last()) {
            Some(d) => d,
            None => 0,
        })
    }
}

/// The first index holding the stage `name`, if any.
pub open spec fn spec_stage_index(acc: Seq<(Seq<char>, int)>, name: Seq<char>) -> Option<int>
    decreases acc.len(),
{
    if acc.len() == 0 {
        None
    } else if acc.first().0 == name {
        Some(0)
    } else {
        match spec_stage_index(acc.drop_first(), name) {
            Some(i) => Some(i + 1),
            None => None,
        }
    }
}

/// A stage breakdown after adding `seconds` under `name`.
pub open spec fn spec_stage_add(
    acc: Seq<(Seq<char>, int)>,
    name: Seq<char>,
    seconds: int,
) -> Seq<(Seq<char>, int)> {
    match spec_stage_index(acc, name) {
        Some(i) => acc.update(i, (name, acc[i].1 + seconds)),
        None => acc.push((name, seconds)),
    }
}

/// The per-stage breakdown of the rows whose timestamps parse, stages in
/// order of first appearance.
pub open spec fn spec_sleep_stages(
    acc: Seq<(Seq<char>, int)>,
    rows: Seq<SleepRow>,
) -> Seq<(Seq<char>, int)>
    decreases rows.len(),
{
    if rows.len() == 0 {
        acc
    } else {
        spec_sleep_stages(
            match spec_sleep_duration(rows.first()) {
                Some(d) => spec_stage_add(acc, spec_stage_name(rows.first().stage as int), d),
                None => acc,
            },
            rows.drop_first(),
        )
    }
}

/// The view of a stage breakdown.
pub open spec fn stages_view(acc: Seq<(String, i128)>) -> Seq<(Seq<char>, int)> {
    acc.map_values(|p: (String, i128)| (p.0@, p.1 as int))
}

/// A first match at `i` is what the stage lookup finds.
proof fn lemma_stage_index_found(acc: Seq<(Seq<char>, int)>, name: Seq<char>, i: int)
    requires
        0 <= i < acc.len(),
        forall|j: int| 0 <= j < i ==> acc[j].0 != name,
        acc[i].0 == name,
    ensures
        spec_stage_index(acc, name) == Some(i),
    decreases i,
{
    if i > 0 {
        assert forall|j: int| 0 <= j < i - 1 implies acc.drop_first()[j].0 != name by {
            assert(acc.drop_first()[j] == acc[j + 1]);
        }
        assert(acc.drop_first()[i - 1] == acc[i]);
        lemma_stage_index_found(acc.drop_first(), name, i - 1);
    }
}

/// With no match anywhere, the stage lookup finds nothing.
proof fn lemma_stage_index_none(acc: Seq<(Seq<char>, int)>, name: Seq<char>)
    requires
        forall|j: int| 0 <= j < acc.len() ==> acc[j].0 != name,
    ensures
        spec_stage_index(acc, name) is None,
    decreases acc.len(),
{
    if acc.len() > 0 {
        assert forall|j: int|
            0 <= j < acc.drop_first().len() implies acc.drop_first()[j].0 != name by {
            assert(acc.drop_first()[j] == acc[j + 1]);
        }
        lemma_stage_index_none(acc.drop_first(), name);
    }
}

/// Adds seconds under a stage name, extending the breakdown on first sight.
fn stage_add(acc: &mut Vec<(String, i128)>, name: String, seconds: i64, Ghost(b): Ghost<int>)
    requires
        0 <= b,
        b + 0x10000000000 < 0x40000000000000000000000000000000,
        forall|j: int| 0 <= j < old(acc)@.len() ==> -b <= (#[trigger] old(acc)@[j]).1 <= b,
        -0x10000000000 <= seconds <= 0x10000000000,
    ensures
        stages_view(final(acc)@) == spec_stage_add(
            stages_view(old(acc)@),
            name@,
            seconds as int,
        ),
        forall|j: int| 0 <= j < final(acc)@.len() ==> -(b + 0x10000000000)
            <= (#[trigger] final(acc)@[j]).1 <= b + 0x10000000000,
{
    let n = acc.len();
    for i in 0..n
        invariant
            n == acc@.len(),
            acc@ == old(acc)@,
            forall|j: int| 0 <= j < old(acc)@.len() ==> -b <= (#[trigger] old(acc)@[j]).1 <= b,
            b + 0x10000000000 < 0x40000000000000000000000000000000,
            -0x10000000000 <= seconds <= 0x10000000000,
            forall|j: int| 0 <= j < i ==> stages_view(acc@)[j].0 != name@,
    {
        if acc[i].0 == name {
            proof {
                lemma_stage_index_found(stages_view(acc@), name@, i as int);
            }
            let total = acc[i].1 + (seconds as i128);
            acc.set(i, (name, total));
            proof {
                assert(stages_view(acc@) =~= spec_stage_add(
                    stages_view(old(acc)@),
                    name@,
                    seconds as int,
                ));
            }
            return;
        }
    }
    proof {
        lemma_stage_index_none(stages_view(acc@), name@);
    }
    acc.push((name, seconds as i128));
    proof {
        assert(stages_view(acc@) =~= spec_stage_add(
            stages_view(old(acc)@),
            name@,
            seconds as int,
        ));
    }
}

/// A sleep window summarized: total seconds and the per-stage breakdown.
pub struct SleepSummary {
    pub total_seconds: i128,
    pub stages: Vec<(String, i128)>,
}

/// Summarizes sleep rows: rows whose timestamps do not parse are skipped;
/// the rest contribute their seconds to the total and to their stage.
#[verifier::rlimit(50)]
pub fn sleep_summary(rows: &Vec<SleepRow>) -> (r: SleepSummary)
    ensures
        r.total_seconds == spec_sleep_total(rows@),
        stages_view(r.stages@) == spec_sleep_stages(Seq::empty(), rows@),
{
    let mut total: i128 = 0;
    let mut stages: Vec<(String, i128)> = Vec::new();
    let n = rows.len();
    proof {
        assert(rows@.skip(0) =~= rows@);
        assert(stages_view(stages@) =~= Seq::<(Seq<char>, int)>::empty());
        assert(rows@.take(0) =~= Seq::<SleepRow>::empty());
    }
    for i in 0..n
        invariant
            n == rows@.len(),
            total == spec_sleep_total(rows@.take(i as int)),
            -(i * 0x10000000000) <= total <= i * 0x10000000000,
            forall|j: int| 0 <= j < stages@.len() ==> -(i * 0x10000000000)
                <= (#[trigger] stages@[j]).1 <= i * 0x10000000000,
            spec_sleep_stages(Seq::empty(), rows@) == spec_sleep_stages(
                stages_view(stages@),
                rows@.skip(i as int),
            ),
    {
        proof {
            assert(rows@.take(i as int + 1).drop_last() =~= rows@.take(i as int));
            assert(rows@.take(i as int + 1).last() == rows@[i as int]);
            assert(rows@.skip(i as int).drop_first() =~= rows@.skip(i as int + 1));
            assert(rows@.skip(i as int).first() == rows@[i as int]);
            assert((i as int + 1) * 0x10000000000 == i * 0x10000000000 + 0x10000000000);
            assert(n * 0x10000000000 < 0x40000000000000000000000000000000) by (nonlinear_arith)
                requires n <= 0xffffffffffffffffu64;
        }
        let start_instant = rfc3339_instant_seconds(rows[i].start.as_str());
        let end_instant = rfc3339_instant_seconds(rows[i].end.as_str());
        match (start_instant, end_instant) {
            (Some(s), Some(e)) => {
                let duration: i64 = e - s;
                total = total + (duration as i128);
                let name = stage_name(rows[i].stage);
                stage_add(&mut stages, name, duration, Ghost(i * 0x10000000000));
            },
            _ => {},
        }
    }
    proof {
        assert(rows@.take(n as int) =~= rows@);
        assert(rows@.skip(n as int) =~= Seq::<SleepRow>::empty());
    }
    SleepSummary { total_seconds: total, stages }
}

/// The climb over a route: only rises between consecutive points count.
pub open spec fn spec_elevation_gain(elevations: Seq<i64>) -> int
    decreases elevations.len(),
{
    if elevations.len() < 2 {
        0int
    } else {
        spec_elevation_gain(elevations.drop_last()) + (if elevations.last()
            > elevations[elevations.len() - 2] {
            elevations.last() - elevations[elevations.len() - 2]
        } else {
            0int
        })
    }
}

/// Sums the positive elevation deltas of a route, in milli-meters.
pub fn elevation_gain_milli(elevations: &Vec<i64>) -> (r: i128)
    requires
        forall|j: int| 0 <= j < elevations@.len() ==> -100000000000
            <= #[trigger] elevations@[j] <= 100000000000,
    ensures
        r == spec_elevation_gain(elevations@),
{
    let mut gain: i128 = 0;
    let n = elevations.len();
    if n < 2 {
        proof {
            assert(spec_elevation_gain(elevations@) == 0);
        }
        return 0;
    }
    for i in 1..n
        invariant
            n == elevations@.len(),
            1 <= i <= n,
            forall|j: int| 0 <= j < elevations@.len() ==> -100000000000
                <= #[trigger] elevations@[j] <= 100000000000,
            gain == spec_elevation_gain(elevations@.take(i as int + 1 - 1)),
            0 <= gain <= (i - 1) * 200000000000,
    {
        proof {
            assert(elevations@.take(i as int + 1).drop_last() =~= elevations@.take(i as int));
            assert(elevations@.take(i as int + 1).last() == elevations@[i as int]);
            assert(elevations@.take(i as int + 1)[i as int - 1] == elevations@[i as int - 1]);
        }
        let prev = elevations[i - 1];
        let cur = elevations[i];
        if cur > prev {
            gain = gain + ((cur as i128) - (prev as i128));
        }
    }
    proof {
        assert(elevations@.take(n as int) =~= elevations@);
    }
    gain
}

} // verus!
