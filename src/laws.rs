//! What holds of whole runs of the dispatcher.
use vstd::prelude::*;
use crate::sample::{Triple, RawSample, Correction, Update, update_of};
use crate::lines::{NEWLINE, raw_lines, lines_of, line_len, strip_line_end, lemma_line_len_bounds};
use crate::dispatch::{Phase, Event, Action, Model, next, run};

verus! {

/// The events that a sequence of decoded records gives, in file order.
pub open spec fn records<T>(rs: Seq<RawSample<T>>) -> Seq<Event<T>> {
    rs.map_values(|s: RawSample<T>| Event::Record(s))
}

/// The updates that a sequence of records calls for, in file order.
pub open spec fn deliveries<T>(rs: Seq<RawSample<T>>, scale: Triple<T>) -> Seq<Action<T>> {
    rs.map_values(|s: RawSample<T>| Action::Deliver(update_of(s, scale)))
}

/// Running two sequences of events one after the other is running their
/// concatenation.
pub proof fn lemma_run_append<T>(m: Model<T>, a: Seq<Event<T>>, b: Seq<Event<T>>)
    ensures
        run(m, a + b) == (run(run(m, a).0, b).0, run(m, a).1 + run(run(m, a).0, b).1),
    decreases a.len(),
{
    if a.len() == 0 {
        assert(a + b =~= b);
        assert(run(m, a).1 + run(m, b).1 =~= run(m, b).1);
    } else {
        let a1 = a.subrange(1, a.len() as int);
        assert((a + b)[0] == a[0]);
        assert((a + b).subrange(1, (a + b).len() as int) =~= a1 + b);
        lemma_run_append(next(m, a[0]).0, a1, b);
        let x = seq![next(m, a[0]).1];
        let y = run(next(m, a[0]).0, a1).1;
        let z = run(run(next(m, a[0]).0, a1).0, b).1;
        assert(x + (y + z) =~= (x + y) + z);
    }
}

/// Running a single event is taking one transition.
pub proof fn lemma_run_one<T>(m: Model<T>, e: Event<T>)
    ensures
        run(m, seq![e]) == (next(m, e).0, seq![next(m, e).1]),
{
    let es = seq![e];
    assert(es.subrange(1, 1) =~= Seq::<Event<T>>::empty());
    assert(run(next(m, e).0, Seq::<Event<T>>::empty()).1 =~= Seq::<Action<T>>::empty());
    assert(seq![next(m, e).1] + Seq::<Action<T>>::empty() =~= seq![next(m, e).1]);
}

/// While streaming, a gyroscope record is delivered with each axis paired
/// with its own offset and the scale of that axis, and an accelerometer
/// record is delivered as recorded.
pub proof fn lemma_record_update<T>(m: Model<T>, s: RawSample<T>)
    requires
        m.phase == Phase::Streaming,
    ensures
        match s {
            RawSample::Gyro { x, y, z, ox, oy, oz } => next(m, Event::Record(s)).1
                == Action::Deliver(Update::Gyro(Triple {
                    x: Correction { raw: x, offset: ox, scale: m.scale.x },
                    y: Correction { raw: y, offset: oy, scale: m.scale.y },
                    z: Correction { raw: z, offset: oz, scale: m.scale.z },
                })),
            RawSample::Accel { x, y, z } => next(m, Event::Record(s)).1
                == Action::Deliver(Update::Accel(Triple { x, y, z })),
        },
{
}

/// While streaming, each decoded record is delivered at once, in the order
/// of the records, accelerometer vectors unchanged and gyroscope readings
/// paired with their own offset and the scale of their axis; the phase
/// stays the same and the position advances by one per record.
pub proof fn lemma_records_delivered_in_order<T>(m: Model<T>, rs: Seq<RawSample<T>>)
    requires
        m.phase == Phase::Streaming,
    ensures
        run(m, records(rs)) == (
            Model { scale: m.scale, phase: Phase::Streaming, position: m.position + rs.len() },
            deliveries(rs, m.scale),
        ),
    decreases rs.len(),
{
    let es = records(rs);
    if rs.len() == 0 {
        assert(deliveries(rs, m.scale) =~= Seq::empty());
    } else {
        let rs1 = rs.subrange(1, rs.len() as int);
        assert(es[0] == Event::Record(rs[0]));
        assert(es.subrange(1, es.len() as int) =~= records(rs1));
        let m1 = next(m, es[0]).0;
        lemma_records_delivered_in_order(m1, rs1);
        assert(seq![Action::Deliver(update_of(rs[0], m.scale))] + deliveries(rs1, m.scale)
            =~= deliveries(rs, m.scale));
    }
}

/// A complete run over a well-formed dataset: opening it, its records in file
/// order, then its end. The estimator receives exactly one update per
/// record, in file order, and the run ends in `Finished` with a report.
pub proof fn lemma_complete_run<T>(scale: Triple<T>, rs: Seq<RawSample<T>>)
    ensures
        run(
            Model { scale, phase: Phase::NotStarted, position: 0 },
            seq![Event::Open] + records(rs) + seq![Event::EndOfData],
        ) == (
            Model { scale, phase: Phase::Finished, position: rs.len() },
            seq![Action::Nothing] + deliveries(rs, scale) + seq![Action::Report],
        ),
{
    let m0 = Model { scale, phase: Phase::NotStarted, position: 0 };
    let m1 = Model { scale, phase: Phase::Streaming, position: 0 };
    let open = seq![Event::Open];
    let end = seq![Event::EndOfData];
    lemma_run_append(m0, open + records(rs), end);
    lemma_run_append(m0, open, records(rs));
    lemma_run_one(m0, Event::Open);
    lemma_records_delivered_in_order(m1, rs);
    let m2 = run(m1, records(rs)).0;
    lemma_run_one(m2, Event::EndOfData);
}

/// Once a run has aborted, no event has any effect and no action follows.
pub proof fn lemma_aborted_is_inert<T>(m: Model<T>, es: Seq<Event<T>>)
    requires
        m.phase == Phase::Aborted,
    ensures
        run(m, es) == (m, Seq::new(es.len(), |i: int| Action::<T>::Nothing)),
    decreases es.len(),
{
    if es.len() == 0 {
        assert(Seq::new(0, |i: int| Action::<T>::Nothing) =~= Seq::<Action<T>>::empty());
    } else {
        lemma_aborted_is_inert(m, es.subrange(1, es.len() as int));
        assert(seq![Action::<T>::Nothing] + Seq::new((es.len() - 1) as nat, |i: int| Action::<T>::Nothing)
            =~= Seq::new(es.len(), |i: int| Action::<T>::Nothing));
    }
}

/// A malformed record at position `k` of a streaming run (after the records
/// `before`, `k` of them) aborts it: the records before it are delivered in
/// order, the abort names its position, and whatever follows (`after`)
/// delivers no update and brings no report.
pub proof fn lemma_fail_fast<T>(m: Model<T>, before: Seq<RawSample<T>>, after: Seq<Event<T>>)
    requires
        m.phase == Phase::Streaming,
    ensures
        ({
            let k = before.len();
            let es = records(before) + seq![Event::Malformed] + after;
            let (m2, acts) = run(m, es);
            &&& m2.phase == Phase::Aborted
            &&& acts.len() == es.len()
            &&& acts.subrange(0, k as int) == deliveries(before, m.scale)
            &&& acts[k as int] == Action::<T>::Abort { position: (m.position + k) as u64 }
            &&& forall|i: int| k < i < acts.len() ==> acts[i] == Action::<T>::Nothing
        }),
{
    let k = before.len();
    let bad = seq![Event::<T>::Malformed];
    lemma_run_append(m, records(before) + bad, after);
    lemma_run_append(m, records(before), bad);
    lemma_records_delivered_in_order(m, before);
    let m1 = run(m, records(before)).0;
    assert(m1.phase == Phase::Streaming && m1.position == m.position + k);
    lemma_run_one(m1, Event::Malformed);
    let m2 = run(m1, bad).0;
    assert(m2.phase == Phase::Aborted);
    assert(run(m1, bad).1 =~= seq![Action::<T>::Abort { position: (m.position + k) as u64 }]);
    lemma_aborted_is_inert(m2, after);
    let acts = run(m, records(before) + bad + after).1;
    assert(acts.subrange(0, k as int) =~= deliveries(before, m.scale));
}

/// After a finished run, asking for the orientation any number of times
/// changes nothing and always calls for the same report.
pub proof fn lemma_query_changes_nothing<T>(m: Model<T>, n: nat)
    requires
        m.phase == Phase::Finished,
    ensures
        run(m, Seq::new(n, |i: int| Event::<T>::Query))
            == (m, Seq::new(n, |i: int| Action::<T>::Report)),
    decreases n,
{
    let qs = Seq::new(n, |i: int| Event::<T>::Query);
    if n == 0 {
        assert(Seq::new(0, |i: int| Action::<T>::Report) =~= Seq::<Action<T>>::empty());
    } else {
        assert(qs.subrange(1, n as int) =~= Seq::new((n - 1) as nat, |i: int| Event::<T>::Query));
        lemma_query_changes_nothing(m, (n - 1) as nat);
        assert(seq![Action::<T>::Report] + Seq::new((n - 1) as nat, |i: int| Action::<T>::Report)
            =~= Seq::new(n, |i: int| Action::<T>::Report));
    }
}

/// The raw lines of a file, joined in order, give back the file. Each is
/// non-empty, holds a `\n` only as its last byte, and all but the last end
/// in `\n`.
pub proof fn lemma_lines_rejoin(t: Seq<u8>)
    ensures
        raw_lines(t).flatten() == t,
        forall|i: int| 0 <= i < raw_lines(t).len() ==> raw_lines(t)[i].len() > 0,
        forall|i: int, j: int|
            0 <= i < raw_lines(t).len() && 0 <= j < raw_lines(t)[i].len() - 1
                ==> raw_lines(t)[i][j] != NEWLINE,
        forall|i: int| 0 <= i < raw_lines(t).len() - 1 ==> raw_lines(t)[i].last() == NEWLINE,
    decreases t.len(),
{
    if t.len() > 0 {
        lemma_line_len_bounds(t);
        let k = line_len(t) as int;
        let rest = t.skip(k);
        lemma_lines_rejoin(rest);
        let ls = raw_lines(t);
        let rs = raw_lines(rest);
        assert(ls == seq![t.take(k)] + rs);
        assert(ls.drop_first() =~= rs);
        assert(t.take(k) + rest =~= t);
        if rest.len() == 0 {
            assert(rs.len() == 0);
        }
        assert forall|i: int| 0 <= i < ls.len() implies ls[i].len() > 0 by {
            if i > 0 {
                assert(ls[i] == rs[i - 1]);
            }
        }
        assert forall|i: int, j: int| 0 <= i < ls.len() && 0 <= j < ls[i].len() - 1
            implies ls[i][j] != NEWLINE by {
            if i > 0 {
                assert(ls[i] == rs[i - 1]);
            } else {
                assert(ls[0][j] == t[j]);
            }
        }
        assert forall|i: int| 0 <= i < ls.len() - 1 implies ls[i].last() == NEWLINE by {
            if i > 0 {
                assert(ls[i] == rs[i - 1]);
            } else {
                assert(ls[0].last() == t[k - 1]);
            }
        }
    }
}

/// No record of a file holds a `\n`.
pub proof fn lemma_records_hold_no_newline(t: Seq<u8>)
    ensures
        forall|i: int, j: int|
            0 <= i < lines_of(t).len() && 0 <= j < lines_of(t)[i].len()
                ==> lines_of(t)[i][j] != NEWLINE,
{
    lemma_lines_rejoin(t);
    let ls = raw_lines(t);
    assert forall|i: int, j: int| 0 <= i < lines_of(t).len() && 0 <= j < lines_of(t)[i].len()
        implies lines_of(t)[i][j] != NEWLINE by {
        let p = ls[i];
        assert(lines_of(t)[i] == strip_line_end(p));
        if p.last() == NEWLINE {
            assert(strip_line_end(p)[j] == p[j]);
        } else {
            assert(strip_line_end(p) == p);
            if j == p.len() - 1 {
                assert(p[j] == p.last());
            }
        }
    }
}

} // verus!
