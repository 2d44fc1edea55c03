//! Human-readable one-line summaries of the model values, for logs.
//!
//! The shape mirrors the values: `Envelope rid=<n>, timestamp=<n>,
//! event=Event pid=<n>, execution=Execution path=<p>, args=[...]`.

use vstd::prelude::*;
use vstd::string::StringExecFns;
use crate::model::{Envelope, EnvelopeView, Event, EventView, Execution, ExecutionView};

verus! {

/// The digit character for a value below ten.
pub open spec fn spec_digit_char(d: nat) -> char {
    if d == 0 {
        '0'
    } else if d == 1 {
        '1'
    } else if d == 2 {
        '2'
    } else if d == 3 {
        '3'
    } else if d == 4 {
        '4'
    } else if d == 5 {
        '5'
    } else if d == 6 {
        '6'
    } else if d == 7 {
        '7'
    } else if d == 8 {
        '8'
    } else {
        '9'
    }
}

/// The decimal rendering of a number, most significant digit first, with no
/// leading zero except for zero itself.
pub open spec fn spec_decimal(v: u64) -> Seq<char>
    decreases v,
{
    if v < 10 {
        seq![spec_digit_char(v as nat)]
    } else {
        spec_decimal(v / 10) + seq![spec_digit_char((v % 10) as nat)]
    }
}

fn digit_char(d: u64) -> (c: char)
    requires
        d < 10,
    ensures
        c == spec_digit_char(d as nat),
{
    if d == 0 {
        '0'
    } else if d == 1 {
        '1'
    } else if d == 2 {
        '2'
    } else if d == 3 {
        '3'
    } else if d == 4 {
        '4'
    } else if d == 5 {
        '5'
    } else if d == 6 {
        '6'
    } else if d == 7 {
        '7'
    } else if d == 8 {
        '8'
    } else {
        '9'
    }
}

/// Renders a number in decimal.
pub fn u64_to_decimal(v: u64) -> (s: String)
    ensures
        s@ == spec_decimal(v),
{
    let mut digits_rev: Vec<char> = Vec::new();
    let ghost mut tail = Seq::<char>::empty();
    let mut x = v;
    while x >= 10
        invariant
            spec_decimal(v) == spec_decimal(x) + tail,
            digits_rev@.len() == tail.len(),
            forall|k: int|
                0 <= k < tail.len() ==> #[trigger] digits_rev@[k] == tail[tail.len() - 1 - k],
        decreases x,
    {
        let d = x % 10;
        let c = digit_char(d);
        digits_rev.push(c);
        proof {
            tail = seq![c] + tail;
        }
        x = x / 10;
        proof {
            assert(spec_decimal(v) =~= spec_decimal(x) + tail);
        }
    }
    let c = digit_char(x);
    digits_rev.push(c);
    proof {
        tail = seq![c] + tail;
        assert(spec_decimal(v) =~= tail);
    }
    let m = digits_rev.len();
    let mut out: Vec<char> = Vec::new();
    let mut j: usize = 0;
    while j < m
        invariant
            j <= m,
            m == digits_rev@.len(),
            m == tail.len(),
            forall|k: int|
                0 <= k < tail.len() ==> #[trigger] digits_rev@[k] == tail[tail.len() - 1 - k],
            out@ =~= tail.take(j as int),
        decreases m - j,
    {
        out.push(digits_rev[m - 1 - j]);
        proof {
            assert(out@ =~= tail.take(j as int + 1));
        }
        j += 1;
    }
    proof {
        assert(tail.take(m as int) =~= tail);
    }
    crate::model::string_from_chars(&out)
}

/// The entries joined with `','` between them.
pub open spec fn spec_join_comma(parts: Seq<Seq<char>>) -> Seq<char>
    decreases parts.len(),
{
    if parts.len() == 0 {
        Seq::empty()
    } else if parts.len() == 1 {
        parts[0]
    } else {
        spec_join_comma(parts.drop_last()) + seq![','] + parts.last()
    }
}

/// The summary of an execution: its path and its comma-joined arguments.
pub open spec fn spec_execution_summary(x: ExecutionView) -> Seq<char> {
    "Execution path="@ + x.executable + ", args=["@ + spec_join_comma(x.arguments) + "]"@
}

/// The summary of an event: its pid and its execution.
pub open spec fn spec_event_summary(x: EventView) -> Seq<char> {
    "Event pid="@ + spec_decimal(x.pid as u64) + ", execution="@ + spec_execution_summary(
        x.execution,
    )
}

/// The summary of an envelope: reporter id, timestamp, and its event.
pub open spec fn spec_envelope_summary(v: EnvelopeView) -> Seq<char> {
    "Envelope rid="@ + spec_decimal(v.rid) + ", timestamp="@ + spec_decimal(v.timestamp)
        + ", event="@ + spec_event_summary(v.event)
}

/// Renders the one-line summary of an execution.
pub fn execution_summary(x: &Execution) -> (s: String)
    ensures
        s@ == spec_execution_summary(x@),
{
    let mut s = String::from_str("Execution path=");
    s.append(x.executable.as_str());
    s.append(", args=[");
    let ghost base = s@;
    let ghost dv = x.arguments.deep_view();
    let n = x.arguments.len();
    let mut i: usize = 0;
    while i < n
        invariant
            i <= n,
            n == dv.len(),
            dv == x.arguments.deep_view(),
            s@ == base + spec_join_comma(dv.take(i as int)),
        decreases n - i,
    {
        proof {
            assert(dv.take(i as int + 1).drop_last() =~= dv.take(i as int));
            assert(dv.take(i as int + 1).last() == dv[i as int]);
            assert(dv[i as int] == x.arguments@[i as int]@);
        }
        if i > 0 {
            s.append(",");
            proof {
                reveal_strlit(",");
                assert(","@ =~= seq![',']);
            }
        }
        s.append(x.arguments[i].as_str());
        proof {
            if i == 0 {
                assert(dv.take(1)[0] == dv[0]);
                assert(spec_join_comma(dv.take(0)) =~= Seq::<char>::empty());
                assert(s@ =~= base + spec_join_comma(dv.take(1)));
            } else {
                assert(s@ =~= base + spec_join_comma(dv.take(i as int + 1)));
            }
        }
        i += 1;
    }
    proof {
        assert(dv.take(n as int) =~= dv);
    }
    s.append("]");
    proof {
        assert(s@ =~= spec_execution_summary(x@));
    }
    s
}

/// Renders the one-line summary of an event.
pub fn event_summary(x: &Event) -> (s: String)
    ensures
        s@ == spec_event_summary(x@),
{
    let mut s = String::from_str("Event pid=");
    let pid = u64_to_decimal(x.pid.0 as u64);
    s.append(pid.as_str());
    s.append(", execution=");
    let body = execution_summary(&x.execution);
    s.append(body.as_str());
    proof {
        assert(s@ =~= spec_event_summary(x@));
    }
    s
}

/// Renders the one-line summary of an envelope.
pub fn envelope_summary(v: &Envelope) -> (s: String)
    ensures
        s@ == spec_envelope_summary(v@),
{
    let mut s = String::from_str("Envelope rid=");
    let rid = u64_to_decimal(v.rid.0);
    s.append(rid.as_str());
    s.append(", timestamp=");
    let ts = u64_to_decimal(v.timestamp);
    s.append(ts.as_str());
    s.append(", event=");
    let body = event_summary(&v.event);
    s.append(body.as_str());
    proof {
        assert(s@ =~= spec_envelope_summary(v@));
    }
    s
}

} // verus!
