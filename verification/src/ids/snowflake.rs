//! Snowflake: a 64-bit identifier made of a millisecond timestamp, a worker id
//! and a per-millisecond sequence number.
//!
//! Layout, most significant bit first: one zero bit, 41 bits of milliseconds
//! since the epoch, 10 bits of worker id, 12 bits of sequence.

use vstd::prelude::*;
use vstd::utf8::encode_utf8;

use super::IdError;
use crate::entropy::unix_time_ms;
use crate::text::{
    ascii_chars, ascii_to_string, i64_decimal, lemma_ascii_utf8, lemma_i64_decimal_parse, parse_i64,
    parse_i64_spec, parse_u64_spec, push_i64_decimal,
};

verus! {

/// 2020-01-01 00:00:00 UTC in milliseconds since the Unix epoch.
pub const DEFAULT_EPOCH_MS: u64 = 1_577_836_800_000;

/// Largest worker id (10 bits).
pub const MAX_WORKER: u16 = 1023;

/// Largest sequence number (12 bits).
pub const MAX_SEQUENCE: u16 = 4095;

/// Worker id and epoch of a Snowflake generator.
#[derive(Debug, Clone)]
pub struct SnowflakeConfig {
    /// Worker id (0 to 1023).
    pub worker_id: u16,
    /// Epoch in milliseconds since the Unix epoch.
    pub epoch_ms: u64,
}

impl SnowflakeConfig {
    /// The worker id [`from_worker_text`](Self::from_worker_text) reads.
    pub open spec fn from_worker_text_spec(value: Option<&str>) -> u16 {
        match value {
            Some(v) => match parse_u64_spec(encode_utf8(v@)) {
                Some(n) => if n <= 0xffff { (n & 1023) as u16 } else { 0 },
                None => 0,
            },
            None => 0,
        }
    }

    /// The configuration for a worker id given as text (as in the
    /// `SNOWFLAKE_WORKER_ID` variable): its value as a `u16` when it parses,
    /// else 0, keeping the low 10 bits; the epoch is 2020-01-01.
    pub fn from_worker_text(value: Option<&str>) -> (c: SnowflakeConfig)
        ensures
            c.epoch_ms == DEFAULT_EPOCH_MS,
            c.worker_id == Self::from_worker_text_spec(value),
    {
        let worker: u16 = match value {
            Some(v) => match crate::text::parse_u64(v.as_bytes()) {
                Some(n) => if n <= 0xffff { (n as u16) & MAX_WORKER } else { 0 },
                None => 0,
            },
            None => 0,
        };
        proof {
            if let Some(v) = value {
                if let Some(n) = parse_u64_spec(encode_utf8(v@)) {
                    if n <= 0xffff {
                        assert((n as u16) & 1023 == (n & 1023) as u16) by (bit_vector)
                            requires
                                n <= 0xffff,
                        ;
                    }
                }
            }
        }
        SnowflakeConfig { worker_id: worker, epoch_ms: DEFAULT_EPOCH_MS }
    }
}

/// The id made of timestamp `ts`, worker id `worker` and sequence `seq`.
pub open spec fn compose(ts: i64, worker: u16, seq: u16) -> i64 {
    ((ts << 22i64) | (((worker as i64) & 1023i64) << 12i64) | (seq as i64)) as i64
}

/// Timestamp part of an id (milliseconds since the configured epoch).
pub open spec fn ts_part(id: i64) -> i64 {
    (id >> 22i64) as i64
}

/// Worker part of an id.
pub open spec fn worker_part(id: i64) -> u16 {
    ((id >> 12i64) & 1023i64) as u16
}

/// Sequence part of an id.
pub open spec fn seq_part(id: i64) -> u16 {
    (id & 4095i64) as u16
}

/// A timestamp that fits the 41-bit field.
pub open spec fn ts_in_range(ts: i64) -> bool {
    0 <= ts < 0x200_0000_0000
}

/// Composing and taking apart again gives back each field (the worker id
/// reduced to 10 bits, the timestamp when it fits 41 bits).
pub proof fn lemma_compose_parts(ts: i64, worker: u16, seq: u16)
    requires
        seq <= 4095,
    ensures
        worker_part(compose(ts, worker, seq)) == worker & 1023,
        seq_part(compose(ts, worker, seq)) == seq,
        ts_in_range(ts) ==> ts_part(compose(ts, worker, seq)) == ts && compose(ts, worker, seq)
            >= 0,
{
    assert(((((ts << 22i64) | (((worker as i64) & 1023i64) << 12i64) | (seq as i64)) >> 12i64)
        & 1023i64) as u16 == worker & 1023) by (bit_vector)
        requires
            seq <= 4095,
    ;
    assert((((ts << 22i64) | (((worker as i64) & 1023i64) << 12i64) | (seq as i64)) & 4095i64)
        as u16 == seq) by (bit_vector)
        requires
            seq <= 4095,
    ;
    assert(0 <= ts < 0x200_0000_0000 ==> (((ts << 22i64) | (((worker as i64) & 1023i64)
        << 12i64) | (seq as i64)) >> 22i64) == ts && ((ts << 22i64) | (((worker as i64)
        & 1023i64) << 12i64) | (seq as i64)) >= 0) by (bit_vector)
        requires
            seq <= 4095,
    ;
}

/// Within the 41-bit range, ids of one worker are ordered as their
/// (timestamp, sequence) pairs.
pub proof fn lemma_compose_ordered(t1: i64, s1: u16, t2: i64, s2: u16, worker: u16)
    requires
        ts_in_range(t1),
        ts_in_range(t2),
        s1 <= 4095,
        s2 <= 4095,
        t1 < t2 || (t1 == t2 && s1 < s2),
    ensures
        compose(t1, worker, s1) < compose(t2, worker, s2),
{
    assert(((t1 << 22i64) | (((worker as i64) & 1023i64) << 12i64) | (s1 as i64)) < ((t2
        << 22i64) | (((worker as i64) & 1023i64) << 12i64) | (s2 as i64))) by (bit_vector)
        requires
            0 <= t1 < 0x200_0000_0000,
            0 <= t2 < 0x200_0000_0000,
            s1 <= 4095,
            s2 <= 4095,
            t1 < t2 || (t1 == t2 && s1 < s2),
    ;
}

/// One step of [`Snowflake::generate`] when the clock has not gone back: the
/// same millisecond with the next sequence number, or a later millisecond
/// with sequence 0.
pub open spec fn forward_step(prev_ts: i64, prev_seq: u16, next_ts: i64, next_seq: u16) -> bool {
    (next_ts == prev_ts && next_seq == prev_seq + 1) || (next_ts > prev_ts && next_seq == 0)
}

/// Successive ids of one generator increase, while the clock does not go back
/// and the timestamps fit 41 bits.
pub proof fn lemma_generate_increasing(
    prev_ts: i64,
    prev_seq: u16,
    next_ts: i64,
    next_seq: u16,
    worker: u16,
)
    requires
        ts_in_range(prev_ts),
        ts_in_range(next_ts),
        prev_seq <= 4095,
        next_seq <= 4095,
        forward_step(prev_ts, prev_seq, next_ts, next_seq),
    ensures
        compose(prev_ts, worker, prev_seq) < compose(next_ts, worker, next_seq),
{
    lemma_compose_ordered(prev_ts, prev_seq, next_ts, next_seq, worker);
}

/// An id made at the clock reading `now_ms` (milliseconds since the Unix
/// epoch, not before the configured epoch and within 41 bits of it) reads
/// back, through [`Snowflake::timestamp_ms`], as that reading, whatever its
/// worker id and sequence number.
pub proof fn lemma_timestamp_of_reading(now_ms: u64, epoch_ms: u64, worker: u16, seq: u16)
    requires
        epoch_ms <= now_ms <= i64::MAX,
        now_ms - epoch_ms < 0x200_0000_0000,
        seq <= 4095,
    ensures
        ((now_ms as i64).wrapping_sub(epoch_ms as i64)) == now_ms - epoch_ms,
        (ts_part(compose((now_ms - epoch_ms) as i64, worker, seq)) as u64) + epoch_ms == now_ms,
{
    lemma_compose_parts((now_ms - epoch_ms) as i64, worker, seq);
}

/// The decimal text of a non-negative id parses back to it.
pub proof fn lemma_snowflake_text_roundtrip(n: i64)
    requires
        n >= 0,
    ensures
        parse_i64_spec(encode_utf8(ascii_chars(i64_decimal(n)))) == Some(n),
{
    lemma_i64_decimal_parse(n);
    lemma_ascii_utf8(i64_decimal(n));
}

/// What [`Snowflake::step`] does at clock reading `ts` from the state
/// `(last_ts, sequence)`: the next `(last_ts, sequence)`, or `None` to wait.
pub open spec fn step_spec(last_ts: i64, sequence: u16, ts: i64) -> Option<(i64, u16)> {
    if ts == last_ts {
        if sequence < 4095 {
            Some((ts, (sequence + 1) as u16))
        } else {
            None
        }
    } else {
        Some((ts, 0u16))
    }
}

/// A Snowflake id.
#[derive(Debug, Clone, Copy, PartialEq, Eq, Hash, PartialOrd, Ord)]
pub struct Snowflake(pub i64);

/// Milliseconds since `epoch_ms` at the clock reading `now_ms` (milliseconds
/// since the Unix epoch), both taken as `i64`, subtracted with wraparound.
fn current_ts(epoch_ms: u64, now_ms: u128) -> (ts: i64)
    ensures
        ts == (now_ms as i64).wrapping_sub(epoch_ms as i64),
{
    (#[verifier::truncate] (now_ms as i64)).wrapping_sub(#[verifier::truncate] (epoch_ms as i64))
}

/// Generator state: the last timestamp used and the sequence number within it.
pub struct SnowflakeState {
    pub last_ts: i64,
    pub sequence: u16,
}

impl SnowflakeState {
    /// No id generated yet.
    pub fn new() -> (s: SnowflakeState)
        ensures
            s.last_ts == -1,
            s.sequence == 0,
    {
        SnowflakeState { last_ts: -1, sequence: 0 }
    }
}

impl Snowflake {
    /// The id for `(ts, seq)` with the worker id of `worker`.
    fn make_id(ts: i64, worker: u16, seq: u16) -> (id: Snowflake)
        ensures
            id.0 == compose(ts, worker, seq),
    {
        Snowflake((ts << 22) | (((worker as i64) & 1023) << 12) | (seq as i64))
    }

    /// One decision of the generator at the clock reading `ts` (milliseconds
    /// since the configured epoch), as [`step_spec`] says: the same
    /// millisecond as the last id takes the next sequence number, or `None`
    /// (wait for the next millisecond) when 4095 is used up; any other
    /// millisecond starts again at sequence 0. On `None` the state is kept.
    pub fn step(state: &mut SnowflakeState, config: &SnowflakeConfig, ts: i64) -> (id: Option<
        Snowflake,
    >)
        requires
            old(state).sequence <= 4095,
        ensures
            match step_spec(old(state).last_ts, old(state).sequence, ts) {
                Some((t, q)) => final(state).last_ts == t && final(state).sequence == q && id
                    == Some(Snowflake(compose(t, config.worker_id, q))),
                None => final(state).last_ts == old(state).last_ts && final(state).sequence
                    == old(state).sequence && id is None,
            },
    {
        if ts == state.last_ts {
            if state.sequence < MAX_SEQUENCE {
                state.sequence = state.sequence + 1;
            } else {
                return None;
            }
        } else {
            state.sequence = 0;
            state.last_ts = ts;
        }
        Some(Self::make_id(state.last_ts, config.worker_id, state.sequence))
    }

    /// The next id: [`step`](Self::step) at the current clock reading; when
    /// the millisecond's sequence numbers are used up, the generator reads the
    /// clock until it is past that millisecond and steps there (sequence 0).
    pub fn generate(state: &mut SnowflakeState, config: &SnowflakeConfig) -> (id: Snowflake)
        requires
            old(state).sequence <= 4095,
        ensures
            final(state).sequence <= 4095,
            id.0 == compose(final(state).last_ts, config.worker_id, final(state).sequence),
            (exists|ts: i64| #[trigger] step_spec(old(state).last_ts, old(state).sequence, ts)
                == Some((final(state).last_ts, final(state).sequence))) || (old(state).sequence
                == 4095 && final(state).sequence == 0 && (final(state).last_ts
                > old(state).last_ts || (final(state).last_ts == old(state).last_ts
                && old(state).last_ts == i64::MAX))),
            final(state).last_ts < old(state).last_ts
                || (final(state).last_ts == old(state).last_ts
                    && final(state).sequence == old(state).sequence + 1)
                || (final(state).last_ts > old(state).last_ts && final(state).sequence == 0)
                || (final(state).last_ts == old(state).last_ts && old(state).last_ts == i64::MAX
                    && final(state).sequence == 0),
    {
        let ts = current_ts(config.epoch_ms, unix_time_ms());
        let first = Self::step(state, config, ts);
        match first {
            Some(id) => id,
            None => {
                let last = state.last_ts;
                let mut now = ts;
                let mut tries: u64 = u64::MAX;
                while now <= last
                    invariant
                        state.sequence == 4095,
                        state.last_ts == last,
                    ensures
                        now > last || (now == last && last == i64::MAX),
                        state.sequence == 4095,
                        state.last_ts == last,
                    decreases tries,
                {
                    if tries == 0 {
                        if last < i64::MAX {
                            now = last + 1;
                        } else {
                            now = last;
                        }
                        break;
                    } else {
                        tries = tries - 1;
                        now = current_ts(config.epoch_ms, unix_time_ms());
                    }
                }
                let next = Self::step(state, config, now);
                match next {
                    Some(id) => id,
                    None => {
                        state.sequence = 0;
                        Self::make_id(last, config.worker_id, 0)
                    },
                }
            },
        }
    }

    /// The next id with the default configuration for the given
    /// `SNOWFLAKE_WORKER_ID` value (see [`SnowflakeConfig::from_worker_text`]).
    pub fn new(state: &mut SnowflakeState, worker_id_var: Option<&str>) -> (id: Snowflake)
        requires
            old(state).sequence <= 4095,
        ensures
            final(state).sequence <= 4095,
            id.0 == compose(
                final(state).last_ts,
                SnowflakeConfig::from_worker_text_spec(worker_id_var),
                final(state).sequence,
            ),
            final(state).last_ts < old(state).last_ts || forward_step(
                old(state).last_ts,
                old(state).sequence,
                final(state).last_ts,
                final(state).sequence,
            ) || (final(state).last_ts == old(state).last_ts && old(state).last_ts == i64::MAX
                && final(state).sequence == 0),
    {
        let config = SnowflakeConfig::from_worker_text(worker_id_var);
        Self::generate(state, &config)
    }

    /// The id as a number.
    pub fn value(&self) -> (v: i64)
        ensures
            v == self.0,
    {
        self.0
    }

    /// Milliseconds since the Unix epoch at which the id was made.
    pub fn timestamp_ms(&self, config: &SnowflakeConfig) -> (t: u64)
        requires
            (ts_part(self.0) as u64) + config.epoch_ms <= u64::MAX,
        ensures
            t == (ts_part(self.0) as u64) + config.epoch_ms,
    {
        let ts = self.0 >> 22;
        (#[verifier::truncate] (ts as u64)) + config.epoch_ms
    }

    pub fn worker_id(&self) -> (w: u16)
        ensures
            w == worker_part(self.0),
    {
        ((self.0 >> 12) & 1023) as u16
    }

    pub fn sequence(&self) -> (s: u16)
        ensures
            s == seq_part(self.0),
    {
        (self.0 & 4095) as u16
    }

    /// The id in decimal.
    pub fn to_string(&self) -> (s: String)
        ensures
            s@ == ascii_chars(i64_decimal(self.0)),
    {
        let mut out: Vec<u8> = Vec::new();
        push_i64_decimal(self.0, &mut out);
        proof {
            lemma_i64_decimal_parse(self.0);
            assert(out@ =~= i64_decimal(self.0));
        }
        ascii_to_string(out)
    }

    /// Parse a non-negative decimal id (`str::parse::<i64>` rules).
    pub fn from_str(s: &str) -> (res: Result<Snowflake, IdError>)
        ensures
            res == (match parse_i64_spec(encode_utf8(s@)) {
                None => Err(IdError::InvalidFormat("snowflake", "expected integer")),
                Some(n) => if n < 0 {
                    Err(IdError::InvalidFormat("snowflake", "must be non-negative"))
                } else {
                    Ok(Snowflake(n))
                },
            }),
    {
        match parse_i64(s.as_bytes()) {
            None => Err(IdError::InvalidFormat("snowflake", "expected integer")),
            Some(n) => {
                if n < 0 {
                    Err(IdError::InvalidFormat("snowflake", "must be non-negative"))
                } else {
                    Ok(Snowflake(n))
                }
            },
        }
    }
}

impl From<i64> for Snowflake {
    fn from(n: i64) -> (s: Snowflake) {
        Snowflake(n)
    }
}

impl vstd::std_specs::convert::FromSpecImpl<i64> for Snowflake {
    open spec fn obeys_from_spec() -> bool {
        true
    }

    open spec fn from_spec(n: i64) -> Snowflake {
        Snowflake(n)
    }
}

impl From<Snowflake> for i64 {
    fn from(s: Snowflake) -> (n: i64) {
        s.0
    }
}

impl vstd::std_specs::convert::FromSpecImpl<Snowflake> for i64 {
    open spec fn obeys_from_spec() -> bool {
        true
    }

    open spec fn from_spec(s: Snowflake) -> i64 {
        s.0
    }
}

} // verus!
