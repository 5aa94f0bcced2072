//! The scan pipeline around the sink: the presentation filter and the
//! end-to-end processing of one scan's results, together with the laws
//! that make the pipeline's guarantees explicit.

use vstd::prelude::*;

use crate::range::PortRange;
use crate::sink::Sink;
use crate::status::ProbeResult;
use crate::status::Status;

verus! {

/// What the caller asked to see: every result, or open ports only.
#[derive(Clone, Copy)]
pub enum Mode {
    AllResults,
    OpenOnly,
}

/// Whether a result of status `s` is written under mode `m`.
pub open spec fn spec_keep(s: Status, m: Mode) -> bool {
    match m {
        Mode::AllResults => true,
        Mode::OpenOnly => s is Open,
    }
}

/// The presentation filter: under `AllResults` everything is written,
/// under `OpenOnly` exactly the `Open` results. It never affects the
/// ordering state; a suppressed port still advances the cursor.
pub fn should_emit(s: &Status, m: Mode) -> (r: bool)
    ensures
        r == spec_keep(*s, m),
{
    match m {
        Mode::AllResults => true,
        Mode::OpenOnly => s.is_open(),
    }
}

/// The filter predicate of mode `m`, as a function on results.
pub open spec fn keep_fn(m: Mode) -> spec_fn(ProbeResult) -> bool {
    |r: ProbeResult| spec_keep(r.status, m)
}

/// The subsequence of `s` that mode `m` lets through, order preserved.
pub open spec fn spec_filter(s: Seq<ProbeResult>, m: Mode) -> Seq<ProbeResult> {
    s.filter(keep_fn(m))
}

/// Applies the presentation filter to an already ordered result
/// sequence, keeping exactly the results the mode admits, in order.
pub fn filter_results(results: Vec<ProbeResult>, m: Mode) -> (out: Vec<ProbeResult>)
    ensures
        out@ == spec_filter(results@, m),
{
    let ghost all = results@;
    let mut rest = results;
    let mut out: Vec<ProbeResult> = Vec::new();
    proof {
        assert(all.take(0) =~= Seq::<ProbeResult>::empty());
        assert(Seq::<ProbeResult>::empty().filter(keep_fn(m)) =~= Seq::<ProbeResult>::empty())
            by {
            reveal(Seq::filter);
        }
    }
    while rest.len() > 0
        invariant
            rest@.len() <= all.len(),
            rest@ == all.skip(all.len() - rest@.len()),
            out@ == all.take(all.len() - rest@.len()).filter(keep_fn(m)),
        decreases rest@.len(),
    {
        let ghost i = all.len() - rest@.len();
        let r = rest.remove(0);
        proof {
            assert(r == all[i]);
            assert(rest@ =~= all.skip(all.len() - rest@.len()));
            assert(all.take(i + 1) =~= all.take(i).push(all[i]));
            all.take(i).lemma_filter_push(all[i], keep_fn(m));
            assert(keep_fn(m)(all[i]) == spec_keep(all[i].status, m));
        }
        if should_emit(&r.status, m) {
            out.push(r);
        }
    }
    proof {
        assert(all.take(all.len() as int) =~= all);
    }
    out
}

/// Under `AllResults` the filter is the identity: everything is written.
pub proof fn lemma_filter_all_identity(s: Seq<ProbeResult>)
    ensures
        spec_filter(s, Mode::AllResults) == s,
    decreases s.len(),
{
    reveal(Seq::filter);
    if s.len() > 0 {
        lemma_filter_all_identity(s.drop_last());
        assert(spec_filter(s, Mode::AllResults) =~= s);
    } else {
        assert(spec_filter(s, Mode::AllResults) =~= s);
    }
}

/// The open-only output is exactly the subsequence of the full-mode
/// output whose entries are `Open`, with relative order preserved.
pub proof fn lemma_open_only_subsequence(s: Seq<ProbeResult>)
    ensures
        spec_filter(s, Mode::OpenOnly) == spec_filter(s, Mode::AllResults).filter(
            |r: ProbeResult| r.status is Open,
        ),
    decreases s.len(),
{
    reveal(Seq::filter);
    lemma_filter_all_identity(s);
    if s.len() > 0 {
        lemma_open_only_subsequence(s.drop_last());
        lemma_filter_all_identity(s.drop_last());
    }
}

/// An arrival sequence is one scan's worth of probe completions: every
/// port it mentions lies in the range, no port appears twice, and every
/// port of the range appears.
pub open spec fn valid_arrivals(range: PortRange, s: Seq<ProbeResult>) -> bool {
    &&& forall|i: int| 0 <= i < s.len() ==> range.spec_contains((#[trigger] s[i]).port)
    &&& forall|i: int, j: int|
        0 <= i < j < s.len() ==> (#[trigger] s[i]).port != (#[trigger] s[j]).port
    &&& forall|p: u16|
        range.spec_contains(p) ==> exists|i: int| 0 <= i < s.len() && (#[trigger] s[i]).port == p
}

/// The status an arrival sequence delivers for port `p`.
pub open spec fn arrival_status(s: Seq<ProbeResult>, p: u16) -> Status {
    s[choose|i: int| 0 <= i < s.len() && (#[trigger] s[i]).port == p].status
}

/// The one output a scan owes: for each port of the range, in ascending
/// order, the status its probe delivered.
pub open spec fn ordered_output(range: PortRange, s: Seq<ProbeResult>) -> Seq<ProbeResult> {
    Seq::new(
        range.spec_len() as nat,
        |k: int|
            ProbeResult {
                port: (range.start + k) as u16,
                status: arrival_status(s, (range.start + k) as u16),
            },
    )
}

/// Runs one scan's worth of completions through a sink, in their arrival
/// order, and returns everything emitted: always the full range in
/// ascending port order, each port with the status its probe delivered,
/// no matter how the arrivals were interleaved.
pub fn process_results(range: &PortRange, arrivals: Vec<ProbeResult>) -> (out: Vec<ProbeResult>)
    requires
        range.wf(),
        valid_arrivals(*range, arrivals@),
    ensures
        out@ == ordered_output(*range, arrivals@),
{
    let ghost all = arrivals@;
    let mut sink = Sink::new(range);
    let mut rest = arrivals;
    let mut emitted: Vec<ProbeResult> = Vec::new();
    proof {
        assert(all.skip(0) =~= all);
    }
    while rest.len() > 0
        invariant
            range.wf(),
            valid_arrivals(*range, all),
            sink.wf(),
            sink.start == range.start,
            sink.end == range.end,
            rest@.len() <= all.len(),
            rest@ == all.skip(all.len() - rest@.len()),
            emitted@ == sink.history@,
            forall|j: int|
                0 <= j < all.len() - rest@.len() ==> sink.recorded@.contains_key(
                    (#[trigger] all[j]).port,
                ) && sink.recorded@[all[j].port] == all[j].status,
            forall|p: u16|
                #[trigger] sink.recorded@.contains_key(p) ==> exists|j: int|
                    0 <= j < all.len() - rest@.len() && (#[trigger] all[j]).port == p,
        decreases rest@.len(),
    {
        let ghost i = all.len() - rest@.len();
        let r = rest.remove(0);
        proof {
            assert(r == all[i]);
            assert(rest@ =~= all.skip(all.len() - rest@.len()));
            if sink.recorded@.contains_key(r.port) {
                let j = choose|j: int| 0 <= j < i && (#[trigger] all[j]).port == r.port;
                assert(all[j].port == all[i].port);
                assert(false);
            }
        }
        let mut batch = sink.offer(r);
        emitted.append(&mut batch);
    }
    proof {
        assert(all.len() - rest@.len() == all.len());
        assert forall|p: u16|
            sink.start <= p <= sink.end implies #[trigger] sink.recorded@.contains_key(p) by {
            assert(range.spec_contains(p));
            let j = choose|j: int| 0 <= j < all.len() && (#[trigger] all[j]).port == p;
            assert(sink.recorded@.contains_key(all[j].port));
        }
        sink.lemma_full_coverage();
        assert forall|k: int|
            0 <= k < emitted@.len() implies emitted@[k] == ordered_output(*range, all)[k] by {
            let p = (range.start + k) as u16;
            assert(emitted@[k].port == p);
            assert(emitted@[k].status == sink.recorded@[p]);
            let j = choose|j: int| 0 <= j < all.len() && (#[trigger] all[j]).port == p;
            let c = choose|i0: int| 0 <= i0 < all.len() && (#[trigger] all[i0]).port == p;
            assert(all[c].port == all[j].port);
            assert(c == j);
            assert(sink.recorded@[p] == all[j].status);
        }
        assert(emitted@ =~= ordered_output(*range, all));
    }
    emitted
}

/// Completion order is irrelevant: two arrival sequences that deliver
/// the same status for every port of the range (in particular, any two
/// permutations of the same completions) yield the same ordered output.
pub proof fn lemma_order_independence(range: PortRange, a: Seq<ProbeResult>, b: Seq<ProbeResult>)
    requires
        range.wf(),
        valid_arrivals(range, a),
        valid_arrivals(range, b),
        forall|i: int|
            0 <= i < a.len() ==> exists|j: int|
                0 <= j < b.len() && (#[trigger] b[j]).port == (#[trigger] a[i]).port
                    && b[j].status == a[i].status,
    ensures
        ordered_output(range, a) == ordered_output(range, b),
{
    assert forall|k: int|
        0 <= k < range.spec_len() implies ordered_output(range, a)[k] == ordered_output(
        range,
        b,
    )[k] by {
        let p = (range.start + k) as u16;
        assert(range.spec_contains(p));
        let ca = choose|i: int| 0 <= i < a.len() && (#[trigger] a[i]).port == p;
        assert(arrival_status(a, p) == a[ca].status);
        let jb = choose|j: int|
            0 <= j < b.len() && (#[trigger] b[j]).port == a[ca].port && b[j].status
                == a[ca].status;
        let cb = choose|i: int| 0 <= i < b.len() && (#[trigger] b[i]).port == p;
        assert(b[jb].port == b[cb].port);
        assert(jb == cb);
        assert(arrival_status(b, p) == a[ca].status);
    }
    assert(ordered_output(range, a) =~= ordered_output(range, b));
}

} // verus!
