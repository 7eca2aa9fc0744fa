//! Timestamps that a message collects on its way through the stages.

use vstd::prelude::*;

verus! {

pub struct TimestampEntry {
    pub stage: String,
    /// An RFC 3339 timestamp.
    pub time: String,
}

pub struct LatencyTracker {
    pub sequence_id: String,
    pub timestamps: Vec<TimestampEntry>,
    /// Optional metadata, as key and value pairs.
    pub metadata: Option<Vec<(String, String)>>,
}

/// Nanoseconds since the Unix epoch, leap seconds left out, of an RFC 3339
/// timestamp; nothing where it does not parse or lies outside the `i64` range.
pub uninterp spec fn rfc3339_nanos_of(s: Seq<char>) -> Option<i64>;

/// Relies on `chrono::DateTime::parse_from_rfc3339` and
/// `DateTime::timestamp_nanos_opt`: the instant depends on the text alone.
#[verifier::external_body]
fn rfc3339_nanos(s: &str) -> (r: Option<i64>)
    ensures
        r == rfc3339_nanos_of(s@),
{
    chrono::DateTime::parse_from_rfc3339(s).ok().and_then(|d| d.timestamp_nanos_opt())
}

/// Relies on `chrono::Utc::now` and `DateTime::to_rfc3339_opts`: the current
/// UTC time with nanoseconds, marked `Z`.
#[verifier::external_body]
fn utc_now_rfc3339() -> String {
    chrono::Utc::now().to_rfc3339_opts(chrono::SecondsFormat::Nanos, true)
}

pub open spec fn entries_view(ts: Seq<TimestampEntry>) -> Seq<(Seq<char>, Seq<char>)> {
    ts.map_values(|e: TimestampEntry| (e.stage@, e.time@))
}

/// The instants of the entries, where every one parses.
pub open spec fn instants(ts: Seq<TimestampEntry>) -> Option<Seq<i64>>
    decreases ts.len(),
{
    if ts.len() == 0 {
        Some(Seq::empty())
    } else {
        match (instants(ts.drop_last()), rfc3339_nanos_of(ts.last().time@)) {
            (Some(p), Some(n)) => Some(p.push(n)),
            _ => None,
        }
    }
}

pub open spec fn seq_max(s: Seq<i64>) -> int
    decreases s.len(),
{
    if s.len() <= 1 {
        if s.len() == 0 {
            0
        } else {
            s[0] as int
        }
    } else if s.last() as int > seq_max(s.drop_last()) {
        s.last() as int
    } else {
        seq_max(s.drop_last())
    }
}

pub open spec fn seq_min(s: Seq<i64>) -> int
    decreases s.len(),
{
    if s.len() <= 1 {
        if s.len() == 0 {
            0
        } else {
            s[0] as int
        }
    } else if (s.last() as int) < seq_min(s.drop_last()) {
        s.last() as int
    } else {
        seq_min(s.drop_last())
    }
}

/// Whole milliseconds from the earliest to the latest entry, where there
/// are two entries or more and all of them parse.
pub open spec fn total_latency_of(ts: Seq<TimestampEntry>) -> Option<i64> {
    if ts.len() < 2 {
        None
    } else {
        match instants(ts) {
            Some(p) => Some(((seq_max(p) - seq_min(p)) / 1_000_000) as i64),
            None => None,
        }
    }
}

proof fn lemma_extremes_in_range(s: Seq<i64>)
    ensures
        s.len() > 0 ==> i64::MIN <= seq_min(s) <= seq_max(s) <= i64::MAX,
    decreases s.len(),
{
    if s.len() > 1 {
        lemma_extremes_in_range(s.drop_last());
    }
}

impl LatencyTracker {
    pub fn new(sequence_id: String) -> (r: Self)
        ensures
            r.sequence_id == sequence_id,
            r.timestamps@.len() == 0,
            r.metadata is None,
    {
        LatencyTracker { sequence_id, timestamps: Vec::new(), metadata: None }
    }

    pub fn sequence_id(&self) -> (r: &str)
        ensures
            r@ == self.sequence_id@,
    {
        self.sequence_id.as_str()
    }

    /// Records that the message reached `stage` at `time`.
    pub fn add_timestamp_at(&mut self, stage: &str, time: String)
        ensures
            entries_view(final(self).timestamps@) == entries_view(old(self).timestamps@).push(
                (stage@, time@),
            ),
            final(self).sequence_id == old(self).sequence_id,
            final(self).metadata == old(self).metadata,
    {
        let ghost before = self.timestamps@;
        self.timestamps.push(TimestampEntry { stage: String::from_str(stage), time });
        assert(entries_view(self.timestamps@) =~= entries_view(before).push((stage@, time@)));
    }

    /// Records that the message reached `stage` now.
    pub fn add_timestamp(&mut self, stage: &str)
        ensures
            final(self).timestamps@.len() == old(self).timestamps@.len() + 1,
            entries_view(final(self).timestamps@).drop_last() == entries_view(old(self).timestamps@),
            entries_view(final(self).timestamps@).last().0 == stage@,
            final(self).sequence_id == old(self).sequence_id,
    {
        let now = utc_now_rfc3339();
        self.add_timestamp_at(stage, now);
        assert(entries_view(self.timestamps@).drop_last() =~= entries_view(old(self).timestamps@));
    }

    /// Milliseconds from the earliest to the latest timestamp.
    pub fn total_latency(&self) -> (r: Option<i64>)
        ensures
            r == total_latency_of(self.timestamps@),
    {
        let n = self.timestamps.len();
        if n < 2 {
            return None;
        }
        let ghost ts = self.timestamps@;
        let mut vals: Vec<i64> = Vec::new();
        let mut lo: i64 = 0;
        let mut hi: i64 = 0;
        let mut i: usize = 0;
        while i < n
            invariant
                n == ts.len(),
                ts == self.timestamps@,
                i <= n,
                instants(ts.take(i as int)) == Some(vals@),
                i > 0 ==> lo == seq_min(vals@) && hi == seq_max(vals@),
            decreases n - i,
        {
            proof {
                assert(ts.take(i + 1).drop_last() =~= ts.take(i as int));
            }
            let t = rfc3339_nanos(self.timestamps[i].time.as_str());
            match t {
                None => {
                    proof {
                        lemma_instants_prefix(ts, i + 1);
                    }
                    return None;
                },
                Some(v) => {
                    let ghost before = vals@;
                    vals.push(v);
                    assert(vals@.drop_last() =~= before);
                    if i == 0 || v < lo {
                        lo = v;
                    }
                    if i == 0 || v > hi {
                        hi = v;
                    }
                },
            }
            i = i + 1;
        }
        assert(ts.take(n as int) =~= ts);
        proof {
            lemma_extremes_in_range(vals@);
        }
        let diff: i128 = hi as i128 - lo as i128;
        Some((diff / 1_000_000) as i64)
    }
}

proof fn lemma_instants_prefix(ts: Seq<TimestampEntry>, i: int)
    requires
        0 <= i <= ts.len(),
        instants(ts.take(i)) is None,
    ensures
        instants(ts) is None,
    decreases ts.len() - i,
{
    if i < ts.len() {
        let p = ts.drop_last();
        assert(p.take(i) =~= ts.take(i));
        lemma_instants_prefix(p, i);
    } else {
        assert(ts.take(i) =~= ts);
    }
}

} // verus!
