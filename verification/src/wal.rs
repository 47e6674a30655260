//! The write-ahead log's format and its replay: every change, as a line of the wire protocol, in
//! the order the store was told to make it.

use vstd::prelude::*;

use crate::protocol::{
    law_request_round_trip, parse_request_spec, protocol_error_text, request_line,
    valid_request, ProtocolError, ProtocolErrorView, Request, RequestView,
};
use crate::server::{apply, apply_all_spec, apply_spec};
use crate::store::{Store, StoreView};
use crate::text::{byte_len, push_char, push_str};

verus! {

/// Whether a request changes the store, and so has to be written down before it is applied.
pub open spec fn is_change(r: RequestView) -> bool {
    !(r is Get)
}

/// The record a request is written down as: its request line and a line break.
pub open spec fn record_text(r: RequestView) -> Seq<char> {
    request_line(r).push('\n')
}

/// The lines a log holds after `rs` went through the store: one per change, in order, each
/// without its line break.
pub open spec fn log_lines(rs: Seq<RequestView>) -> Seq<Seq<char>>
    decreases rs.len(),
{
    if rs.len() == 0 {
        Seq::empty()
    } else if is_change(rs[0]) {
        seq![request_line(rs[0])] + log_lines(rs.drop_first())
    } else {
        log_lines(rs.drop_first())
    }
}

/// What replaying `lines`, in order, does to a store holding `s`: the store it ends with, or the
/// first line that is not a request, with the reason.
pub open spec fn replay_spec(lines: Seq<Seq<char>>, s: StoreView) -> Result<
    StoreView,
    (Seq<char>, ProtocolErrorView),
>
    decreases lines.len(),
{
    if lines.len() == 0 {
        Ok(s)
    } else {
        match parse_request_spec(lines[0]) {
            Err(e) => Err((lines[0], e)),
            Ok(r) => replay_spec(lines.drop_first(), apply_spec(r, s).0),
        }
    }
}

/// The record for a request: the line that goes into the log, break included.
pub fn record(request: &Request) -> (r: String)
    ensures
        r@ == record_text(request@),
{
    let mut r = request.to_string();
    push_char(&mut r, '\n');
    r
}

/// The record to write down before `request` is applied, if it needs one: changes do, reads do
/// not.
pub fn record_for(request: &Request) -> (r: Option<String>)
    ensures
        match r {
            Some(text) => is_change(request@) && text@ == record_text(request@),
            None => !is_change(request@),
        },
{
    match request {
        Request::Get { .. } => None,
        _ => Some(record(request)),
    }
}

/// Only changes are written down: a `GET`, whatever its bucket and key, leaves no line in the log,
/// and a `SET` or a `DEL` leaves its request line. So a batch made only of reads leaves nothing to
/// write and nothing to sync.
pub proof fn law_only_changes_are_logged(r: RequestView, rs: Seq<RequestView>)
    ensures
        is_change(r) <==> !(r is Get),
        log_lines(seq![r]) == if r is Get {
            Seq::<Seq<char>>::empty()
        } else {
            seq![request_line(r)]
        },
        (forall|i: int| 0 <= i < rs.len() ==> #[trigger] rs[i] is Get) ==> log_lines(rs)
            == Seq::<Seq<char>>::empty(),
    decreases rs.len(),
{
    assert(seq![r].drop_first() =~= Seq::<RequestView>::empty());
    assert(log_lines(Seq::<RequestView>::empty()) == Seq::<Seq<char>>::empty());
    assert(seq![r][0] == r);
    if !(r is Get) {
        assert(seq![request_line(r)] + Seq::<Seq<char>>::empty() =~= seq![request_line(r)]);
    }
    if rs.len() > 0 && (forall|i: int| 0 <= i < rs.len() ==> #[trigger] rs[i] is Get) {
        law_only_changes_are_logged(r, rs.drop_first());
        assert(rs[0] is Get);
        assert forall|i: int| 0 <= i < rs.drop_first().len() implies #[trigger] rs.drop_first()[i] is Get by {
            assert(rs.drop_first()[i] == rs[i + 1]);
        }
    }
}

/// Group commit changes nothing about what is written down: logging a run batch by batch leaves
/// the lines that logging it in one go would, in the same order.
pub proof fn law_batches_log_like_one_run(a: Seq<RequestView>, b: Seq<RequestView>)
    ensures
        log_lines(a + b) == log_lines(a) + log_lines(b),
    decreases a.len(),
{
    if a.len() == 0 {
        assert(a + b =~= b);
        assert(log_lines(a) + log_lines(b) =~= log_lines(b));
    } else {
        assert((a + b).drop_first() =~= a.drop_first() + b);
        law_batches_log_like_one_run(a.drop_first(), b);
        assert((a + b)[0] == a[0]);
        if is_change(a[0]) {
            assert(log_lines(a + b) =~= log_lines(a) + log_lines(b));
        }
    }
}

/// The records a batch of requests needs written down before any of them is applied: one per
/// change, in the order the changes were asked for. The batch needs a sync exactly when this is
/// not empty.
pub fn batch_records(batch: &Vec<&Request>) -> (records: Vec<String>)
    ensures
        records@.map_values(|s: String| s@) == log_lines(batch@.map_values(|r: &Request| r@)).map_values(
            |l: Seq<char>| l.push('\n'),
        ),
        records.len() == 0 <==> forall|i: int|
            0 <= i < batch.len() ==> !is_change(#[trigger] batch@[i]@),
{
    let ghost rs = batch@.map_values(|r: &Request| r@);
    let mut records: Vec<String> = Vec::new();
    let mut i: usize = 0;
    assert(rs.take(0) =~= Seq::<RequestView>::empty());
    while i < batch.len()
        invariant
            i <= batch.len(),
            rs == batch@.map_values(|r: &Request| r@),
            records@.map_values(|s: String| s@) == log_lines(rs.take(i as int)).map_values(
                |l: Seq<char>| l.push('\n'),
            ),
        decreases batch.len() - i,
    {
        let ghost before = records@.map_values(|s: String| s@);
        proof {
            assert(rs[i as int] == batch@[i as int]@);
            let one = seq![rs[i as int]];
            assert(one[0] == rs[i as int]);
            assert(one.drop_first() =~= Seq::<RequestView>::empty());
            assert(log_lines(Seq::<RequestView>::empty()) =~= Seq::<Seq<char>>::empty());
            assert(rs.take(i + 1) =~= rs.take(i as int) + seq![rs[i as int]]);
            law_batches_log_like_one_run(rs.take(i as int), seq![rs[i as int]]);
            assert(seq![rs[i as int]].drop_first() =~= Seq::<RequestView>::empty());
        }
        match record_for(batch[i]) {
            Some(text) => {
                records.push(text);
                proof {
                    assert(log_lines(seq![rs[i as int]]) =~= seq![request_line(rs[i as int])]);
                    assert(records@.map_values(|s: String| s@) =~= before.push(
                        request_line(rs[i as int]).push('\n'),
                    ));
                    assert(log_lines(rs.take(i + 1)).map_values(|l: Seq<char>| l.push('\n'))
                        =~= log_lines(rs.take(i as int)).map_values(|l: Seq<char>| l.push('\n')).push(
                        request_line(rs[i as int]).push('\n'),
                    ));
                }
            },
            None => {
                proof {
                    assert(log_lines(seq![rs[i as int]]) =~= Seq::<Seq<char>>::empty());
                    assert(log_lines(rs.take(i + 1)) =~= log_lines(rs.take(i as int)));
                }
            },
        }
        i += 1;
    }
    assert(rs.take(i as int) =~= rs);
    proof {
        lemma_log_lines_empty(rs);
        assert(records@.map_values(|s: String| s@).len() == records.len());
        assert(records.len() == log_lines(rs).len());
        if records.len() == 0 {
            assert forall|j: int| 0 <= j < batch.len() implies !is_change(#[trigger] batch@[j]@) by {
                assert(rs[j] == batch@[j]@);
            }
        } else {
            let j = choose|j: int| 0 <= j < rs.len() && is_change(#[trigger] rs[j]);
            assert(rs[j] == batch@[j]@);
        }
    }
    records
}

/// A run leaves no log lines exactly when it holds no change.
proof fn lemma_log_lines_empty(rs: Seq<RequestView>)
    ensures
        log_lines(rs).len() == 0 <==> forall|i: int| 0 <= i < rs.len() ==> !is_change(#[trigger] rs[i]),
    decreases rs.len(),
{
    if rs.len() > 0 {
        let rest = rs.drop_first();
        lemma_log_lines_empty(rest);
        if forall|i: int| 0 <= i < rest.len() ==> !is_change(#[trigger] rest[i]) {
            if !is_change(rs[0]) {
                assert forall|i: int| 0 <= i < rs.len() implies !is_change(#[trigger] rs[i]) by {
                    if i > 0 {
                        assert(rs[i] == rest[i - 1]);
                    }
                }
            }
        } else {
            let i = choose|i: int| 0 <= i < rest.len() && is_change(#[trigger] rest[i]);
            assert(rs[i + 1] == rest[i]);
        }
    }
}

/// What writing down a batch takes: its records, in order, and whether the batch then needs a
/// sync. A batch that changed something is synced once, after all its records are appended; a
/// batch of reads is not synced at all.
pub struct CommitPlan {
    pub records: Vec<String>,
    pub sync: bool,
}

/// Plans the writing down of a batch, before any of its requests is applied.
pub fn plan_commit(batch: &Vec<&Request>) -> (plan: CommitPlan)
    ensures
        plan.records@.map_values(|s: String| s@) == log_lines(batch@.map_values(|r: &Request| r@)).map_values(
            |l: Seq<char>| l.push('\n'),
        ),
        plan.sync <==> exists|i: int| 0 <= i < batch.len() && is_change(#[trigger] batch@[i]@),
        plan.sync <==> plan.records.len() > 0,
{
    let records = batch_records(batch);
    let sync = records.len() > 0;
    CommitPlan { records, sync }
}

/// A log line that is not a request, which stops a replay.
pub struct ReplayError {
    pub record: String,
    pub error: ProtocolError,
}

impl ReplayError {
    /// How the failure reads: the line, then why it is not a request.
    pub fn to_string(&self) -> (r: String)
        ensures
            r@ == self.record@ + ": "@ + protocol_error_text(self.error@),
    {
        let mut r = String::new();
        push_str(&mut r, self.record.as_str());
        push_str(&mut r, ": ");
        let reason = self.error.to_string();
        push_str(&mut r, reason.as_str());
        r
    }
}

/// Rebuilds a store by replaying every record in the log, in order, each given as a line without
/// its break. A line that is not a request stops the replay: starting up with half a database is
/// worse than not starting up.
pub fn replay_records(records: &Vec<String>) -> (r: Result<Store, ReplayError>)
    requires
        forall|i: int| 0 <= i < records.len() ==> byte_len(#[trigger] records@[i]@) <= usize::MAX,
    ensures
        match r {
            Ok(store) => replay_spec(records@.map_values(|s: String| s@), StoreView::empty())
                == Ok::<StoreView, (Seq<char>, ProtocolErrorView)>(store@),
            Err(e) => replay_spec(records@.map_values(|s: String| s@), StoreView::empty()) == Err::<
                StoreView,
                (Seq<char>, ProtocolErrorView),
            >((e.record@, e.error@)),
        },
{
    let ghost lines = records@.map_values(|s: String| s@);
    let mut store = Store::new();
    let mut i: usize = 0;
    assert(lines.skip(0) =~= lines);
    while i < records.len()
        invariant
            i <= records.len(),
            lines == records@.map_values(|s: String| s@),
            forall|j: int| 0 <= j < records.len() ==> byte_len(#[trigger] records@[j]@) <= usize::MAX,
            replay_spec(lines, StoreView::empty()) == replay_spec(lines.skip(i as int), store@),
        decreases records.len() - i,
    {
        let line = &records[i];
        proof {
            assert(lines.skip(i as int)[0] == line@);
            assert(lines.skip(i as int).drop_first() =~= lines.skip(i + 1));
        }
        match Request::parse(line.as_str()) {
            Ok(request) => {
                apply(request, &mut store);
            },
            Err(error) => {
                return Err(ReplayError { record: line.clone(), error });
            },
        }
        i += 1;
    }
    assert(lines.skip(i as int) =~= Seq::<Seq<char>>::empty());
    Ok(store)
}

/// A restart is invisible: replaying the log that a run of requests left behind rebuilds the
/// store that run ended with. Reads are not written down and change nothing; every change is
/// written as its request line, which parses back as the same request.
pub proof fn law_replay_restores_the_store(rs: Seq<RequestView>, s: StoreView)
    requires
        forall|i: int| 0 <= i < rs.len() ==> valid_request(#[trigger] rs[i]),
    ensures
        replay_spec(log_lines(rs), s) == Ok::<StoreView, (Seq<char>, ProtocolErrorView)>(
            apply_all_spec(rs, s).0,
        ),
    decreases rs.len(),
{
    if rs.len() > 0 {
        let rest = rs.drop_first();
        assert forall|i: int| 0 <= i < rest.len() implies valid_request(#[trigger] rest[i]) by {
            assert(rest[i] == rs[i + 1]);
        }
        let next = apply_spec(rs[0], s).0;
        law_replay_restores_the_store(rest, next);
        if is_change(rs[0]) {
            assert(valid_request(rs[0]));
            law_request_round_trip(rs[0]);
            let lines = log_lines(rs);
            assert(lines[0] == request_line(rs[0]));
            assert(lines.drop_first() =~= log_lines(rest));
        }
    }
}

} // verus!
