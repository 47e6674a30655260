//! What the task that owns the store decides about each request it is handed: a change is
//! written down before it is applied, and a change that could not be written down does not
//! happen.

use vstd::prelude::*;

use crate::protocol::{Request, Response, ResponseView};
use crate::protocol::RequestView;
use crate::server::{apply, apply_all_spec, apply_spec};
use crate::store::{Store, StoreView};
use crate::text::push_str;

verus! {

/// How many requests may be waiting to be applied.
pub const MAILBOX: usize = 32;

/// How many of them may be logged and applied as one batch.
pub const BATCH: usize = 32;

/// What a client is told when its request could not be written down: `not logged: ` and why.
pub open spec fn not_logged_text(detail: Seq<char>) -> Seq<char> {
    "not logged: "@ + detail
}

/// What settling `r` does to a store holding `s`: applied when its batch was written down
/// (`refusal` is `None`), refused with the reason and left undone when it was not.
pub open spec fn settle_spec(r: RequestView, s: StoreView, refusal: Option<Seq<char>>) -> (
    StoreView,
    ResponseView,
) {
    match refusal {
        None => apply_spec(r, s),
        Some(detail) => (s, ResponseView::Error(not_logged_text(detail))),
    }
}

/// What settling a whole batch, in order, does to a store holding `s`.
pub open spec fn settle_all_spec(rs: Seq<RequestView>, s: StoreView, refusal: Option<Seq<char>>) -> (
    StoreView,
    Seq<ResponseView>,
)
    decreases rs.len(),
{
    if rs.len() == 0 {
        (s, Seq::empty())
    } else {
        let (next, answer) = settle_spec(rs[0], s, refusal);
        let (last, answers) = settle_all_spec(rs.drop_first(), next, refusal);
        (last, seq![answer] + answers)
    }
}

/// A batch that was written down is applied in order, exactly as if each request had been
/// applied on its own.
pub proof fn law_logged_batch_is_applied(rs: Seq<RequestView>, s: StoreView)
    ensures
        settle_all_spec(rs, s, None) == apply_all_spec(rs, s),
    decreases rs.len(),
{
    if rs.len() > 0 {
        law_logged_batch_is_applied(rs.drop_first(), apply_spec(rs[0], s).0);
    }
}

/// A batch that could not be written down changes nothing, and every one of its requests is told
/// why.
pub proof fn law_unlogged_batch_changes_nothing(rs: Seq<RequestView>, s: StoreView, detail: Seq<char>)
    ensures
        settle_all_spec(rs, s, Some(detail)).0 == s,
        settle_all_spec(rs, s, Some(detail)).1.len() == rs.len(),
        forall|i: int|
            0 <= i < rs.len() ==> #[trigger] settle_all_spec(rs, s, Some(detail)).1[i]
                == ResponseView::Error(not_logged_text(detail)),
    decreases rs.len(),
{
    if rs.len() > 0 {
        law_unlogged_batch_changes_nothing(rs.drop_first(), s, detail);
        let tail = settle_all_spec(rs.drop_first(), s, Some(detail)).1;
        assert forall|i: int| 0 <= i < rs.len() implies #[trigger] settle_all_spec(
            rs,
            s,
            Some(detail),
        ).1[i] == ResponseView::Error(not_logged_text(detail)) by {
            if i > 0 {
                assert(settle_all_spec(rs, s, Some(detail)).1[i] == tail[i - 1]);
            }
        }
    }
}

/// Settles one request once the log has had its say: applied if its batch was written down,
/// refused and left undone if it was not, with `detail` saying why.
pub fn settle(store: &mut Store, request: Request, logged: &Result<(), String>) -> (answer: Response)
    ensures
        (final(store)@, answer@) == settle_spec(
            request@,
            old(store)@,
            match logged {
                Ok(_) => None,
                Err(detail) => Some(detail@),
            },
        ),
{
    match logged {
        Ok(()) => apply(request, store),
        Err(detail) => {
            let mut message = String::new();
            push_str(&mut message, "not logged: ");
            push_str(&mut message, detail.as_str());
            Response::Error(message)
        },
    }
}

} // verus!
