//! What a run of the property checks reports: the inputs tried, the time
//! taken, the first failure, and the one JSON line that sums it up.
use vstd::prelude::*;
use vstd::string::StringExecFns;
use crate::text::{
    decimal,
    json_str,
    json_string,
    json_string_value,
    lemma_json_string_round_trip,
    push_decimal,
};

verus! {

/// How many inputs a run tried and how long it took, in microseconds.
#[derive(Default, Clone, Copy, Debug)]
pub struct Metrics {
    pub inputs: u64,
    pub elapsed_us: u128,
}

impl Metrics {
    /// The totals of two runs.
    pub fn combine(self, other: Metrics) -> (r: Metrics)
        requires
            self.inputs + other.inputs <= u64::MAX,
            self.elapsed_us + other.elapsed_us <= u128::MAX,
        ensures
            r.inputs == self.inputs + other.inputs,
            r.elapsed_us == self.elapsed_us + other.elapsed_us,
    {
        Metrics {
            inputs: self.inputs + other.inputs,
            elapsed_us: self.elapsed_us + other.elapsed_us,
        }
    }
}

/// Adds one property's outcome to a run over several: the metrics add up,
/// and the status stays the first failure seen.
pub fn record_outcome(
    status: Result<(), String>,
    total: Metrics,
    outcome: Result<(), String>,
    metrics: Metrics,
) -> (r: (Result<(), String>, Metrics))
    requires
        total.inputs + metrics.inputs <= u64::MAX,
        total.elapsed_us + metrics.elapsed_us <= u128::MAX,
    ensures
        r.1.inputs == total.inputs + metrics.inputs,
        r.1.elapsed_us == total.elapsed_us + metrics.elapsed_us,
        r.0 == (if status is Ok && outcome is Err {
            outcome
        } else {
            status
        }),
{
    let total = total.combine(metrics);
    if status.is_ok() && outcome.is_err() {
        (outcome, total)
    } else {
        (status, total)
    }
}

/// An optional text as a JSON value: a string, or `null`.
pub open spec fn json_opt(o: Option<Seq<char>>) -> Seq<char> {
    match o {
        Some(s) => json_string(s),
        None => "null"@,
    }
}

/// The report line of a run.
pub open spec fn json_report(
    tool: Seq<char>,
    property: Seq<char>,
    status: Seq<char>,
    metrics: Metrics,
    counterexample: Option<Seq<char>>,
    error: Option<Seq<char>>,
) -> Seq<char> {
    "{\"status\":"@ + json_string(status) + ",\"tests\":"@ + decimal(metrics.inputs as nat)
        + ",\"discards\":0,\"time\":"@ + json_string(decimal(metrics.elapsed_us as nat) + "us"@)
        + ",\"counterexample\":"@ + json_opt(counterexample) + ",\"error\":"@ + json_opt(error)
        + ",\"tool\":"@ + json_string(tool) + ",\"property\":"@ + json_string(property) + "}"@
}

/// The view of an optional text.
pub open spec fn opt_view(o: Option<&str>) -> Option<Seq<char>> {
    match o {
        Some(s) => Some(s@),
        None => None,
    }
}

fn push_json_opt(out: &mut String, o: Option<&str>)
    ensures
        final(out)@ == old(out)@ + json_opt(opt_view(o)),
{
    match o {
        Some(s) => {
            let j = json_str(s);
            out.append(j.as_str());
        },
        None => {
            out.append("null");
        },
    }
}

/// The JSON line that reports a run: status, inputs tried, time taken,
/// counterexample, error, tool and property.
pub fn json_line(
    tool: &str,
    property: &str,
    status: &str,
    metrics: Metrics,
    counterexample: Option<&str>,
    error: Option<&str>,
) -> (r: String)
    ensures
        r@ == json_report(
            tool@,
            property@,
            status@,
            metrics,
            opt_view(counterexample),
            opt_view(error),
        ),
{
    let mut time = String::new();
    push_decimal(&mut time, metrics.elapsed_us);
    time.append("us");
    let mut out = String::new();
    out.append("{\"status\":");
    out.append(json_str(status).as_str());
    out.append(",\"tests\":");
    push_decimal(&mut out, metrics.inputs as u128);
    out.append(",\"discards\":0,\"time\":");
    out.append(json_str(time.as_str()).as_str());
    out.append(",\"counterexample\":");
    push_json_opt(&mut out, counterexample);
    out.append(",\"error\":");
    push_json_opt(&mut out, error);
    out.append(",\"tool\":");
    out.append(json_str(tool).as_str());
    out.append(",\"property\":");
    out.append(json_str(property).as_str());
    out.append("}");
    assert(out@ =~= json_report(
        tool@,
        property@,
        status@,
        metrics,
        opt_view(counterexample),
        opt_view(error),
    ));
    out
}

/// A JSON value that is `null` or a string literal: `Some(None)` for
/// `null`, `Some(Some(x))` for a literal that stands for `x`, and `None` for
/// anything else.
pub open spec fn json_null_or_string(t: Seq<char>) -> Option<Option<Seq<char>>> {
    if t == "null"@ {
        Some(None)
    } else {
        match json_string_value(t) {
            Some(x) => Some(Some(x)),
            None => None,
        }
    }
}

proof fn lemma_json_opt_reads_back(o: Option<Seq<char>>)
    ensures
        json_null_or_string(json_opt(o)) == Some(o),
{
    match o {
        Some(x) => {
            lemma_json_string_round_trip(x);
            reveal_strlit("null");
            assert(json_string(x)[0] == '"');
            assert(json_string(x) != "null"@);
        },
        None => {},
    }
}

/// The report line reads back: it is a JSON object with the keys status,
/// tests, discards, time, counterexample, error, tool and property, in that
/// order, whose values are JSON literals that stand for exactly the given
/// status, number of inputs, time in microseconds, counterexample (or
/// `null`), error (or `null`), tool and property.
pub proof fn lemma_report_reads_back(
    tool: Seq<char>,
    property: Seq<char>,
    status: Seq<char>,
    metrics: Metrics,
    counterexample: Option<Seq<char>>,
    error: Option<Seq<char>>,
)
    ensures
        exists|ts: Seq<char>, tt: Seq<char>, tc: Seq<char>, te: Seq<char>, tl: Seq<char>, tp: Seq<char>|
            #![trigger json_string_value(ts), json_string_value(tt), json_null_or_string(tc), json_null_or_string(te), json_string_value(tl), json_string_value(tp)]
            {
                &&& json_report(tool, property, status, metrics, counterexample, error) == "{\"status\":"@
                    + ts + ",\"tests\":"@ + decimal(metrics.inputs as nat)
                    + ",\"discards\":0,\"time\":"@ + tt + ",\"counterexample\":"@ + tc
                    + ",\"error\":"@ + te + ",\"tool\":"@ + tl + ",\"property\":"@ + tp + "}"@
                &&& json_string_value(ts) == Some(status)
                &&& json_string_value(tt) == Some(decimal(metrics.elapsed_us as nat) + "us"@)
                &&& json_null_or_string(tc) == Some(counterexample)
                &&& json_null_or_string(te) == Some(error)
                &&& json_string_value(tl) == Some(tool)
                &&& json_string_value(tp) == Some(property)
            },
{
    let ts = json_string(status);
    let tt = json_string(decimal(metrics.elapsed_us as nat) + "us"@);
    let tc = json_opt(counterexample);
    let te = json_opt(error);
    let tl = json_string(tool);
    let tp = json_string(property);
    lemma_json_string_round_trip(status);
    lemma_json_string_round_trip(decimal(metrics.elapsed_us as nat) + "us"@);
    lemma_json_opt_reads_back(counterexample);
    lemma_json_opt_reads_back(error);
    lemma_json_string_round_trip(tool);
    lemma_json_string_round_trip(property);
    assert(json_string_value(ts) == Some(status));
    assert(json_string_value(tt) == Some(decimal(metrics.elapsed_us as nat) + "us"@));
    assert(json_null_or_string(tc) == Some(counterexample));
    assert(json_null_or_string(te) == Some(error));
    assert(json_string_value(tl) == Some(tool));
    assert(json_string_value(tp) == Some(property));
}

} // verus!
