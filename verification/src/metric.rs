//! Metric records and completed batches.

use crate::text::{
    count_newlines, decode_lossy, join_lines, lemma_split_lines_len, split_trimmed, texts,
    trimmed_lines, utf8_lossy,
};
use vstd::prelude::*;
use vstd::string::StringExecFns;

verus! {

/// What a metric record holds: one line of line-protocol text and the
/// destination it is bound for.
pub struct MetricView {
    pub data: Seq<char>,
    pub org: Seq<char>,
    pub bucket: Seq<char>,
}

/// One line of line-protocol text with its destination.
#[derive(Debug)]
pub struct Metric {
    data: String,
    org: String,
    bucket: String,
}

impl View for Metric {
    type V = MetricView;

    closed spec fn view(&self) -> MetricView {
        MetricView { data: self.data@, org: self.org@, bucket: self.bucket@ }
    }
}

impl Metric {
    pub fn new(data: String, org: String, bucket: String) -> (out: Metric)
        ensures
            out@ == (MetricView { data: data@, org: org@, bucket: bucket@ }),
    {
        Metric { data, org, bucket }
    }

    pub fn data(&self) -> (out: &String)
        ensures
            out@ == self@.data,
    {
        &self.data
    }

    pub fn org(&self) -> (out: &String)
        ensures
            out@ == self@.org,
    {
        &self.org
    }

    pub fn bucket(&self) -> (out: &String)
        ensures
            out@ == self@.bucket,
    {
        &self.bucket
    }

    /// Gives up the record as `(data, org, bucket)`.
    pub fn into_parts(self) -> (out: (String, String, String))
        ensures
            out.0@ == self@.data,
            out.1@ == self@.org,
            out.2@ == self@.bucket,
    {
        (self.data, self.org, self.bucket)
    }
}

/// What the records of `v` hold.
pub open spec fn metric_views(v: Seq<Metric>) -> Seq<MetricView> {
    v.map_values(|m: Metric| m@)
}

/// The records that a payload `body` for `(bucket, org)` splits into: one
/// per piece between newlines, trimmed, empty pieces included.
pub open spec fn records_of(bucket: Seq<char>, org: Seq<char>, body: Seq<char>) -> Seq<MetricView> {
    trimmed_lines(body).map_values(|line: Seq<char>| MetricView { data: line, org, bucket })
}

/// A payload with `n` newlines splits into `n + 1` records, each bound for
/// the payload's destination.
pub proof fn lemma_records_of(bucket: Seq<char>, org: Seq<char>, body: Seq<char>)
    ensures
        records_of(bucket, org, body).len() == count_newlines(body) + 1,
        forall|i: int|
            0 <= i < records_of(bucket, org, body).len() ==> {
                &&& (#[trigger] records_of(bucket, org, body)[i]).org == org
                &&& records_of(bucket, org, body)[i].bucket == bucket
            },
{
    lemma_split_lines_len(body);
}

/// Splits a payload into its metric records.
pub fn extract_data(bucket: String, org: String, body: String) -> (out: Vec<Metric>)
    ensures
        metric_views(out@) == records_of(bucket@, org@, body@),
        out@.len() == count_newlines(body@) + 1,
        forall|i: int|
            0 <= i < out@.len() ==> (#[trigger] out@[i])@.org == org@ && out@[i]@.bucket == bucket@,
{
    let pieces = split_trimmed(body.as_str());
    let mut out: Vec<Metric> = Vec::new();
    let mut at: usize = 0;
    while at < pieces.len()
        invariant
            at <= pieces@.len(),
            out@.len() == at,
            forall|i: int|
                0 <= i < at ==> (#[trigger] out@[i])@ == (MetricView {
                    data: pieces@[i]@,
                    org: org@,
                    bucket: bucket@,
                }),
        decreases pieces@.len() - at,
    {
        out.push(Metric::new(pieces[at].clone(), org.clone(), bucket.clone()));
        at += 1;
    }
    proof {
        assert(texts(pieces@).len() == pieces@.len());
        assert forall|i: int| 0 <= i < out@.len() implies metric_views(out@)[i] == records_of(
            bucket@,
            org@,
            body@,
        )[i] by {
            assert(texts(pieces@)[i] == pieces@[i]@);
        }
        assert(metric_views(out@) =~= records_of(bucket@, org@, body@));
    }
    out
}

/// Decodes a raw payload and splits it into its metric records. Bytes
/// that are no UTF-8 are replaced, never refused; a payload that is
/// well-formed UTF-8 is taken as the text it encodes.
pub fn ingest(bucket: String, org: String, body: &[u8]) -> (out: Vec<Metric>)
    ensures
        metric_views(out@) == records_of(bucket@, org@, utf8_lossy(body@)),
        out@.len() == count_newlines(utf8_lossy(body@)) + 1,
        vstd::utf8::valid_utf8(body@) ==> metric_views(out@) == records_of(
            bucket@,
            org@,
            vstd::utf8::decode_utf8(body@),
        ),
{
    let text = decode_lossy(body);
    proof {
        if vstd::utf8::valid_utf8(body@) {
            vstd::utf8::encode_utf8_decode_utf8(text@);
        }
    }
    extract_data(bucket, org, text)
}

/// What a completed batch holds: a destination and the payloads gathered
/// for it, in arrival order.
pub struct BatchView {
    pub org: Seq<char>,
    pub bucket: Seq<char>,
    pub data: Seq<Seq<char>>,
}

/// The payloads gathered for one destination between two flushes.
#[derive(Debug)]
pub struct AggregatedMetric {
    org: String,
    bucket: String,
    data: Vec<String>,
}

impl View for AggregatedMetric {
    type V = BatchView;

    closed spec fn view(&self) -> BatchView {
        BatchView { org: self.org@, bucket: self.bucket@, data: texts(self.data@) }
    }
}

impl AggregatedMetric {
    pub fn new(org: String, bucket: String, data: Vec<String>) -> (out: AggregatedMetric)
        ensures
            out@ == (BatchView { org: org@, bucket: bucket@, data: texts(data@) }),
    {
        AggregatedMetric { org, bucket, data }
    }

    pub fn org(&self) -> (out: &String)
        ensures
            out@ == self@.org,
    {
        &self.org
    }

    pub fn bucket(&self) -> (out: &String)
        ensures
            out@ == self@.bucket,
    {
        &self.bucket
    }

    pub fn data(&self) -> (out: &Vec<String>)
        ensures
            texts(out@) == self@.data,
    {
        &self.data
    }

    /// Number of payloads in the batch.
    pub fn len(&self) -> (out: usize)
        ensures
            out == self@.data.len(),
    {
        self.data.len()
    }

    /// Whether the batch is bound for `(bucket, org)`, compared exactly.
    pub fn is_for(&self, bucket: &String, org: &String) -> (out: bool)
        ensures
            out == (self@.bucket == bucket@ && self@.org == org@),
    {
        self.bucket == *bucket && self.org == *org
    }

    /// Appends one payload behind those already gathered.
    pub fn push(&mut self, payload: String)
        ensures
            final(self)@ == (BatchView { data: old(self)@.data.push(payload@), ..old(self)@ }),
    {
        self.data.push(payload);
        assert(texts(self.data@) =~= texts(old(self).data@).push(payload@));
    }

    /// The delivery body: the payloads in order, one newline between
    /// neighbours.
    pub fn body(&self) -> (out: String)
        ensures
            out@ == join_lines(self@.data),
    {
        let mut out = String::new();
        let mut at: usize = 0;
        while at < self.data.len()
            invariant
                at <= self.data@.len(),
                out@ == join_lines(texts(self.data@).take(at as int)),
            decreases self.data@.len() - at,
        {
            proof {
                reveal_strlit("\n");
                let upto = texts(self.data@).take(at + 1);
                assert(upto.drop_last() =~= texts(self.data@).take(at as int));
                assert(upto.last() == self.data@[at as int]@);
                assert("\n"@ =~= seq!['\n']);
            }
            if at > 0 {
                out.append("\n");
            }
            out.append(self.data[at].as_str());
            at += 1;
        }
        assert(texts(self.data@).take(at as int) =~= texts(self.data@));
        out
    }
}

} // verus!
