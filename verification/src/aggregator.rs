//! The hour-bucket aggregator: a state machine holding the current bucket key
//! and its error count, plus the run total. A line whose key differs from the
//! held key displaces the bucket, which is emitted; the final open bucket is
//! never emitted at end of input (only the grand total reflects it).

use vstd::prelude::*;
use crate::matcher::{contains_keyword, contains_seq};
use crate::timestamp::{extract_key, key_of_line, TimestampKey};

verus! {

/// The mathematical state of the aggregator: the open bucket's key (if any),
/// its error count, and the run total of matched-and-errored lines.
pub ghost struct AggModel {
    pub key: Option<(Seq<char>, Seq<char>)>,
    pub count: nat,
    pub total: nat,
}

/// A displaced bucket in the model: date, hour, and final error count.
pub type EmissionModel = (Seq<char>, Seq<char>, nat);

/// The state before any line was seen: no bucket open, counts zero.
pub open spec fn init_model() -> AggModel {
    AggModel { key: None, count: 0, total: 0 }
}

/// The error contribution of one line: 1 iff it contains the keyword.
pub open spec fn err_of(line: Seq<char>, keyword: Seq<char>) -> nat {
    if contains_seq(line, keyword) {
        1
    } else {
        0
    }
}

/// One transition of the state machine on one line: a line without a key is
/// ignored; a line whose key equals the open bucket's accumulates into it; a
/// line with a fresh key displaces the open bucket (if any), which is emitted,
/// and opens a new one. The run total grows on every keyed line that matches
/// the keyword, displaced or not.
pub open spec fn step(m: AggModel, line: Seq<char>, keyword: Seq<char>) -> (
    AggModel,
    Option<EmissionModel>,
) {
    match key_of_line(line) {
        None => (m, None),
        Some(k) => {
            let e = err_of(line, keyword);
            if m.key == Some(k) {
                (AggModel { key: m.key, count: m.count + e, total: m.total + e }, None)
            } else {
                let emission = match m.key {
                    Some(pk) => Some((pk.0, pk.1, m.count)),
                    None => None,
                };
                (AggModel { key: Some(k), count: e, total: m.total + e }, emission)
            }
        },
    }
}

/// A displaced bucket handed to the reporter: its date, hour, and final count.
pub struct Emission {
    pub date: String,
    pub hour: String,
    pub count: u64,
}

impl Emission {
    pub open spec fn view(&self) -> EmissionModel {
        (self.date@, self.hour@, self.count as nat)
    }
}

/// The executable aggregator; its model is an `AggModel`.
pub struct Aggregator {
    key: Option<TimestampKey>,
    count: u64,
    total: u64,
}

impl View for Aggregator {
    type V = AggModel;

    closed spec fn view(&self) -> AggModel {
        AggModel {
            key: match self.key {
                Some(k) => Some((k.date@, k.hour@)),
                None => None,
            },
            count: self.count as nat,
            total: self.total as nat,
        }
    }
}

/// The model invariant: the open bucket's count never exceeds the run total.
pub open spec fn model_inv(m: AggModel) -> bool {
    m.count <= m.total
}

impl Aggregator {
    pub fn new() -> (r: Aggregator)
        ensures
            r@ == init_model(),
            model_inv(r@),
    {
        Aggregator { key: None, count: 0, total: 0 }
    }

    /// The run total so far: one per line that carried a timestamp key and
    /// contained the keyword.
    pub fn total(&self) -> (r: u64)
        ensures
            r as nat == self@.total,
    {
        self.total
    }

    /// Feeds one line to the state machine; returns the displaced bucket when
    /// the line's key differs from the open bucket's.
    pub fn advance(&mut self, line: &str, keyword: &str) -> (r: Option<Emission>)
        requires
            model_inv(old(self)@),
            old(self)@.total < u64::MAX,
        ensures
            final(self)@ == step(old(self)@, line@, keyword@).0,
            match r {
                Some(e) => step(old(self)@, line@, keyword@).1 == Some(e@),
                None => step(old(self)@, line@, keyword@).1 is None,
            },
            model_inv(final(self)@),
    {
        let k = match extract_key(line) {
            None => {
                return None;
            },
            Some(k) => k,
        };
        let e: u64 = if contains_keyword(line, keyword) {
            1
        } else {
            0
        };
        let same = match &self.key {
            Some(pk) => pk.date == k.date && pk.hour == k.hour,
            None => false,
        };
        if same {
            self.count = self.count + e;
            self.total = self.total + e;
            None
        } else {
            let displaced = match &self.key {
                Some(pk) => Some(
                    Emission { date: pk.date.clone(), hour: pk.hour.clone(), count: self.count },
                ),
                None => None,
            };
            self.key = Some(k);
            self.count = e;
            self.total = self.total + e;
            displaced
        }
    }
}

/// A line with no recognized timestamp affects neither the open bucket nor
/// the run total: the state machine ignores it and emits nothing.
pub proof fn lemma_no_timestamp_no_effect(m: AggModel, line: Seq<char>, keyword: Seq<char>)
    requires
        key_of_line(line) is None,
    ensures
        step(m, line, keyword).0 == m,
        step(m, line, keyword).1 is None,
{
}

/// Consecutive lines sharing the open bucket's key accumulate their error
/// contributions into that one bucket, and nothing is emitted until the key
/// changes: the count and the total each grow by exactly the line's
/// contribution, and the key is kept.
pub proof fn lemma_same_key_accumulates(m: AggModel, line: Seq<char>, keyword: Seq<char>)
    requires
        m.key is Some,
        key_of_line(line) == m.key,
    ensures
        step(m, line, keyword).1 is None,
        step(m, line, keyword).0.key == m.key,
        step(m, line, keyword).0.count == m.count + err_of(line, keyword),
        step(m, line, keyword).0.total == m.total + err_of(line, keyword),
{
}

/// A line that carries a timestamp is bucketed even when it contains no
/// keyword (an empty remainder, say): the open bucket's key becomes the
/// line's, and the line contributes zero to the count and the total — it is
/// not skipped.
pub proof fn lemma_keyed_line_without_keyword(m: AggModel, line: Seq<char>, keyword: Seq<char>)
    requires
        key_of_line(line) is Some,
        !contains_seq(line, keyword),
    ensures
        step(m, line, keyword).0.key == key_of_line(line),
        step(m, line, keyword).0.total == m.total,
        step(m, line, keyword).0.count == (if m.key == key_of_line(line) {
            m.count
        } else {
            0
        }),
{
}

} // verus!
