//! Completion capture of Steam API calls, and the epoch that wakes their consumer.
use crate::callback_dispatch::{
    ApiCallResultEvent, USER_STATS_RECEIVED, is_api_result_registered, kept_payload,
};
use crate::text::{decimal, decimal_of};
use std::collections::VecDeque;
use vstd::prelude::*;
use vstd::string::*;

verus! {

/// A request whose handle Steam has not returned yet. Completions that arrive
/// meanwhile are kept as candidates.
pub struct IssuingApiCall {
    pub session: u64,
    pub callback: i32,
    pub candidates: Vec<ApiCallResultEvent>,
}

/// The handles that one session waits for, and their completions.
pub struct ApiCallState {
    pub session: Option<u64>,
    pub api_calls: Vec<(u64, i32)>,
    pub completed: VecDeque<ApiCallResultEvent>,
    pub issuing: Option<IssuingApiCall>,
}

/// The values of a request that is being issued.
#[verifier::ext_equal]
pub struct IssuingView {
    pub session: u64,
    pub callback: i32,
    pub candidates: Seq<ApiCallResultEvent>,
}

/// The values of an API call state.
#[verifier::ext_equal]
pub struct ApiCallView {
    pub session: Option<u64>,
    pub api_calls: Seq<(u64, i32)>,
    pub completed: Seq<ApiCallResultEvent>,
    pub issuing: Option<IssuingView>,
}

impl View for IssuingApiCall {
    type V = IssuingView;

    open spec fn view(&self) -> IssuingView {
        IssuingView {
            session: self.session,
            callback: self.callback,
            candidates: self.candidates@,
        }
    }
}

impl View for ApiCallState {
    type V = ApiCallView;

    open spec fn view(&self) -> ApiCallView {
        ApiCallView {
            session: self.session,
            api_calls: self.api_calls@,
            completed: self.completed@,
            issuing: match self.issuing {
                Some(issuing) => Some(issuing@),
                None => None,
            },
        }
    }
}

/// How the issue of a request ended.
#[derive(Clone, Copy, Debug, PartialEq, Eq, Structural)]
pub enum IssueOutcome {
    Registered,
    Completed,
    Rejected,
}

/// Whether results of this callback are accepted.
pub open spec fn is_accepted(callback: i32) -> bool {
    callback == USER_STATS_RECEIVED
}

/// Whether a handle is registered.
pub open spec fn has_handle(calls: Seq<(u64, i32)>, api_call: u64) -> bool {
    exists|i: int| 0 <= i < calls.len() && (#[trigger] calls[i]).0 == api_call
}

/// The first candidate of a handle and callback, from `from` on.
pub open spec fn candidate_place(
    candidates: Seq<ApiCallResultEvent>,
    api_call: u64,
    callback: i32,
    from: int,
) -> Option<int>
    decreases candidates.len() - from,
{
    if from >= candidates.len() {
        None
    } else if candidates[from].api_call == api_call && candidates[from].callback == callback {
        Some(from)
    } else {
        candidate_place(candidates, api_call, callback, from + 1)
    }
}

/// Whether a candidate of this handle is kept already.
pub open spec fn has_candidate(candidates: Seq<ApiCallResultEvent>, api_call: u64) -> bool {
    exists|i: int| 0 <= i < candidates.len() && (#[trigger] candidates[i]).api_call == api_call
}

/// A row without the element at `index`, whose place the last one takes.
pub open spec fn swap_removed(calls: Seq<(u64, i32)>, index: int) -> Seq<(u64, i32)> {
    calls.update(index, calls.last()).drop_last()
}

/// The place of a registered handle, from `from` on.
pub open spec fn call_place(calls: Seq<(u64, i32)>, call: (u64, i32), from: int) -> Option<int>
    decreases calls.len() - from,
{
    if from >= calls.len() {
        None
    } else if calls[from] == call {
        Some(from)
    } else {
        call_place(calls, call, from + 1)
    }
}

impl ApiCallView {
    /// No session waits for anything.
    pub open spec fn idle(session: Option<u64>) -> ApiCallView {
        ApiCallView { session, api_calls: Seq::empty(), completed: Seq::empty(), issuing: None }
    }

    /// Handles are nonzero, accepted and registered once; a request that is being
    /// issued belongs to the session, and so does every handle. What was completed early
    /// is of the callback that the request waits for.
    pub open spec fn wf(self) -> bool {
        &&& forall|i: int|
            0 <= i < self.api_calls.len() ==> (#[trigger] self.api_calls[i]).0 != 0 && is_accepted(
                self.api_calls[i].1,
            )
        &&& forall|i: int, j: int|
            0 <= i < j < self.api_calls.len() ==> (#[trigger] self.api_calls[i]).0 != (
            #[trigger] self.api_calls[j]).0
        &&& self.issuing is Some ==> self.session == Some(self.issuing->0.session) && is_accepted(
            self.issuing->0.callback,
        )
        &&& self.issuing is Some ==> forall|i: int|
            0 <= i < self.issuing->0.candidates.len() ==> (
            #[trigger] self.issuing->0.candidates[i]).callback == self.issuing->0.callback
        &&& self.session is None ==> self.api_calls.len() == 0
    }

    /// The state once a handle is registered, and whether it was.
    pub open spec fn registered(self, session: u64, api_call: u64, callback: i32) -> (
        ApiCallView,
        bool,
    ) {
        if self.session != Some(session) || api_call == 0 || !is_accepted(callback) || has_handle(
            self.api_calls,
            api_call,
        ) {
            (self, false)
        } else {
            (ApiCallView { api_calls: self.api_calls.push((api_call, callback)), ..self }, true)
        }
    }

    /// The state once Steam has returned the handle of the request.
    pub open spec fn issue_finished(self, session: u64, api_call: u64, callback: i32) -> (
        ApiCallView,
        IssueOutcome,
    ) {
        let settled = ApiCallView { issuing: None, ..self };
        match self.issuing {
            None => (self, IssueOutcome::Rejected),
            Some(issuing) => if self.session != Some(session) || issuing.session != session
                || issuing.callback != callback || api_call == 0 {
                (settled, IssueOutcome::Rejected)
            } else {
                match candidate_place(issuing.candidates, api_call, callback, 0) {
                    Some(place) => (
                        ApiCallView {
                            completed: self.completed.push(issuing.candidates[place]),
                            ..settled
                        },
                        IssueOutcome::Completed,
                    ),
                    None => {
                        let (after, done) = settled.registered(session, api_call, callback);
                        (
                            after,
                            if done {
                                IssueOutcome::Registered
                            } else {
                                IssueOutcome::Rejected
                            },
                        )
                    },
                }
            },
        }
    }

    /// The session that a completion belongs to.
    pub open spec fn accepting(self, api_call: u64, callback: i32) -> Option<u64> {
        if self.session is Some && call_place(self.api_calls, (api_call, callback), 0) is Some {
            self.session
        } else if self.issuing is Some && self.issuing->0.callback == callback {
            Some(self.issuing->0.session)
        } else {
            None
        }
    }

    /// The state once a completion is published, and whether it completed a handle.
    pub open spec fn published(self, session: u64, event: ApiCallResultEvent) -> (
        ApiCallView,
        bool,
    ) {
        if self.session != Some(session) {
            (self, false)
        } else {
            match call_place(self.api_calls, (event.api_call, event.callback), 0) {
                Some(place) => (
                    ApiCallView {
                        api_calls: swap_removed(self.api_calls, place),
                        completed: self.completed.push(event),
                        ..self
                    },
                    true,
                ),
                None => if self.issuing is Some && self.issuing->0.session == session
                    && self.issuing->0.callback == event.callback && !has_candidate(
                    self.issuing->0.candidates,
                    event.api_call,
                ) {
                    (
                        ApiCallView {
                            issuing: Some(
                                IssuingView {
                                    candidates: self.issuing->0.candidates.push(event),
                                    ..self.issuing->0
                                },
                            ),
                            ..self
                        },
                        false,
                    )
                } else {
                    (self, false)
                },
            }
        }
    }
}

impl ApiCallState {
    pub open spec fn wf(self) -> bool {
        self@.wf()
    }

    pub fn new() -> (state: Self)
        ensures
            state.wf(),
            state@ == ApiCallView::idle(None),
    {
        let state = ApiCallState {
            session: None,
            api_calls: Vec::new(),
            completed: VecDeque::new(),
            issuing: None,
        };
        assert(state@ =~= ApiCallView::idle(None));
        state
    }

    fn reset(&mut self, session: Option<u64>)
        ensures
            final(self).wf(),
            final(self)@ == ApiCallView::idle(session),
    {
        self.api_calls = Vec::new();
        self.completed = VecDeque::new();
        self.issuing = None;
        self.session = session;
        assert(self@ =~= ApiCallView::idle(session));
    }

    /// Makes a session the current one; another one's handles are forgotten.
    pub fn activate(&mut self, session: u64)
        requires
            old(self).wf(),
        ensures
            final(self).wf(),
            final(self)@ == if old(self)@.session == Some(session) {
                old(self)@
            } else {
                ApiCallView::idle(Some(session))
            },
    {
        let same: bool = match self.session {
            Some(current) => current == session,
            None => false,
        };
        if !same {
            self.reset(Some(session));
        }
    }

    /// Ends a session, if it is the current one.
    pub fn clear(&mut self, session: u64)
        requires
            old(self).wf(),
        ensures
            final(self).wf(),
            final(self)@ == if old(self)@.session == Some(session) {
                ApiCallView::idle(None)
            } else {
                old(self)@
            },
    {
        let same: bool = match self.session {
            Some(current) => current == session,
            None => false,
        };
        if same {
            self.reset(None);
        }
    }

    /// Ends whatever session there is.
    pub fn clear_all(&mut self)
        ensures
            final(self).wf(),
            final(self)@ == ApiCallView::idle(None),
    {
        self.reset(None);
    }

    fn in_session(&self, session: u64) -> (current: bool)
        ensures
            current == (self@.session == Some(session)),
    {
        match self.session {
            Some(current) => current == session,
            None => false,
        }
    }

    /// Opens the window in which a request is issued. There is one at a time.
    pub fn begin_issue(&mut self, session: u64, callback: i32) -> (begun: bool)
        requires
            old(self).wf(),
        ensures
            final(self).wf(),
            begun == (old(self)@.session == Some(session) && old(self)@.issuing is None
                && is_accepted(callback)),
            final(self)@ == if begun {
                ApiCallView {
                    issuing: Some(IssuingView { session, callback, candidates: Seq::empty() }),
                    ..old(self)@
                }
            } else {
                old(self)@
            },
    {
        if !self.in_session(session) || self.issuing.is_some() || !is_api_result_registered(
            callback,
        ) {
            return false;
        }
        self.issuing = Some(IssuingApiCall { session, callback, candidates: Vec::new() });
        assert(self@ =~= ApiCallView {
            issuing: Some(IssuingView { session, callback, candidates: Seq::empty() }),
            ..old(self)@
        });
        true
    }

    /// Closes the window with the handle that Steam returned. A completion that came
    /// in the meantime is matched now; otherwise the handle is registered.
    pub fn finish_issue(&mut self, session: u64, api_call: u64, callback: i32) -> (outcome:
        IssueOutcome)
        requires
            old(self).wf(),
        ensures
            final(self).wf(),
            (final(self)@, outcome) == old(self)@.issue_finished(session, api_call, callback),
    {
        let mut issuing: IssuingApiCall = match self.issuing.take() {
            Some(issuing) => issuing,
            None => {
                assert(self@ =~= old(self)@);
                return IssueOutcome::Rejected;
            },
        };
        let ghost settled = ApiCallView { issuing: None, ..old(self)@ };
        assert(self@ =~= settled);
        if !self.in_session(session) || issuing.session != session || issuing.callback != callback
            || api_call == 0 {
            return IssueOutcome::Rejected;
        }
        let mut i: usize = 0;
        while i < issuing.candidates.len()
            invariant
                i <= issuing.candidates@.len(),
                self@ == settled,
                self.wf(),
                settled == (ApiCallView { issuing: None, ..old(self)@ }),
                old(self)@.issuing == Some(issuing@),
                old(self)@.session == Some(session),
                issuing.session == session,
                issuing.callback == callback,
                api_call != 0,
                candidate_place(issuing.candidates@, api_call, callback, 0) == candidate_place(
                    issuing.candidates@,
                    api_call,
                    callback,
                    i as int,
                ),
            decreases issuing.candidates@.len() - i,
        {
            if issuing.candidates[i].api_call == api_call && issuing.candidates[i].callback
                == callback {
                let event: ApiCallResultEvent = issuing.candidates.swap_remove(i);
                self.completed.push_back(event);
                assert(self@ =~= old(self)@.issue_finished(session, api_call, callback).0);
                return IssueOutcome::Completed;
            }
            i = i + 1;
        }
        if self.register(session, api_call, callback) {
            IssueOutcome::Registered
        } else {
            IssueOutcome::Rejected
        }
    }

    /// Closes the window of a request that was not issued.
    pub fn cancel_issue(&mut self, session: u64, callback: i32)
        requires
            old(self).wf(),
        ensures
            final(self).wf(),
            final(self)@ == if old(self)@.issuing is Some && old(self)@.issuing->0.session
                == session && old(self)@.issuing->0.callback == callback {
                ApiCallView { issuing: None, ..old(self)@ }
            } else {
                old(self)@
            },
    {
        let own: bool = match &self.issuing {
            Some(issuing) => issuing.session == session && issuing.callback == callback,
            None => false,
        };
        if own {
            self.issuing = None;
            assert(self@ =~= ApiCallView { issuing: None, ..old(self)@ });
        }
    }

    /// Registers a handle of the current session.
    pub fn register(&mut self, session: u64, api_call: u64, callback: i32) -> (registered: bool)
        requires
            old(self).wf(),
        ensures
            final(self).wf(),
            (final(self)@, registered) == old(self)@.registered(session, api_call, callback),
    {
        if !self.in_session(session) || api_call == 0 || !is_api_result_registered(callback) {
            return false;
        }
        let mut i: usize = 0;
        while i < self.api_calls.len()
            invariant
                i <= self.api_calls@.len(),
                *self == *old(self),
                self.wf(),
                forall|k: int| 0 <= k < i ==> (#[trigger] self.api_calls@[k]).0 != api_call,
            decreases self.api_calls@.len() - i,
        {
            if self.api_calls[i].0 == api_call {
                assert(self.api_calls@[i as int].0 == api_call);
                return false;
            }
            i = i + 1;
        }
        self.api_calls.push((api_call, callback));
        assert(self@ =~= old(self)@.registered(session, api_call, callback).0);
        true
    }

    fn place(&self, api_call: u64, callback: i32) -> (place: Option<usize>)
        ensures
            call_place(self.api_calls@, (api_call, callback), 0) == match place {
                Some(place) => Some(place as int),
                None => None,
            },
            place is Some ==> place->0 < self.api_calls@.len() && self.api_calls@[place->0 as int]
                == (api_call, callback),
    {
        let mut i: usize = 0;
        while i < self.api_calls.len()
            invariant
                i <= self.api_calls@.len(),
                call_place(self.api_calls@, (api_call, callback), 0) == call_place(
                    self.api_calls@,
                    (api_call, callback),
                    i as int,
                ),
            decreases self.api_calls@.len() - i,
        {
            if self.api_calls[i].0 == api_call && self.api_calls[i].1 == callback {
                return Some(i);
            }
            i = i + 1;
        }
        None
    }

    /// The session of a registered handle.
    pub fn registered_session(&self, api_call: u64, callback: i32) -> (session: Option<u64>)
        ensures
            session == if call_place(self@.api_calls, (api_call, callback), 0) is Some {
                self@.session
            } else {
                None
            },
    {
        match self.place(api_call, callback) {
            Some(_) => self.session,
            None => None,
        }
    }

    /// The session that a completion belongs to: that of the registered handle, or
    /// of the request whose handle is still to come.
    pub fn accepted_session(&self, api_call: u64, callback: i32) -> (session: Option<u64>)
        ensures
            session == self@.accepting(api_call, callback),
    {
        match self.registered_session(api_call, callback) {
            Some(session) => Some(session),
            None => match &self.issuing {
                Some(issuing) => if issuing.callback == callback {
                    Some(issuing.session)
                } else {
                    None
                },
                None => None,
            },
        }
    }

    /// Publishes a completion: it completes its handle, or becomes a candidate of the
    /// request that is being issued.
    pub fn publish(&mut self, session: u64, event: ApiCallResultEvent) -> (completed: bool)
        requires
            old(self).wf(),
        ensures
            final(self).wf(),
            (final(self)@, completed) == old(self)@.published(session, event),
    {
        if !self.in_session(session) {
            return false;
        }
        if let Some(index) = self.place(event.api_call, event.callback) {
            let ghost before = self.api_calls@;
            let _ = self.api_calls.swap_remove(index);
            proof {
                assert(self.api_calls@ =~= swap_removed(before, index as int));
                assert forall|i: int| 0 <= i < self.api_calls@.len() implies (
                #[trigger] self.api_calls@[i]) == before[if i == index {
                    before.len() - 1
                } else {
                    i
                }] by {}
            }
            self.completed.push_back(event);
            assert(self@ =~= old(self)@.published(session, event).0);
            return true;
        }
        let mut issuing: IssuingApiCall = match self.issuing.take() {
            Some(issuing) => issuing,
            None => {
                assert(self@ =~= old(self)@);
                return false;
            },
        };
        if issuing.session == session && issuing.callback == event.callback {
            let mut kept: bool = false;
            let mut i: usize = 0;
            while i < issuing.candidates.len()
                invariant
                    i <= issuing.candidates@.len(),
                    kept == exists|k: int|
                        0 <= k < i && (#[trigger] issuing.candidates@[k]).api_call
                            == event.api_call,
                decreases issuing.candidates@.len() - i,
            {
                if issuing.candidates[i].api_call == event.api_call {
                    assert(issuing.candidates@[i as int].api_call == event.api_call);
                    kept = true;
                }
                i = i + 1;
            }
            assert(kept == has_candidate(issuing.candidates@, event.api_call));
            if !kept {
                issuing.candidates.push(event);
            }
        }
        self.issuing = Some(issuing);
        assert(self@ =~= old(self)@.published(session, event).0);
        false
    }

    /// Takes the oldest completions, at most `limit` of them.
    pub fn take(&mut self, limit: usize) -> (events: Vec<ApiCallResultEvent>)
        requires
            old(self).wf(),
        ensures
            final(self).wf(),
            ({
                let count = if old(self)@.completed.len() < limit {
                    old(self)@.completed.len() as int
                } else {
                    limit as int
                };
                &&& events@ == old(self)@.completed.take(count)
                &&& final(self)@ == (ApiCallView {
                    completed: old(self)@.completed.skip(count),
                    ..old(self)@
                })
            }),
    {
        let mut events: Vec<ApiCallResultEvent> = Vec::new();
        let ghost before = self.completed@;
        assert(before.skip(0) =~= before);
        assert(before.take(0) =~= Seq::empty());
        while events.len() < limit && self.completed.len() > 0
            invariant
                events@.len() <= limit,
                events@.len() + self.completed@.len() == before.len(),
                events@ == before.take(events@.len() as int),
                self.completed@ == before.skip(events@.len() as int),
                before == old(self).completed@,
                self.session == old(self).session,
                self.api_calls == old(self).api_calls,
                self.issuing == old(self).issuing,
            decreases self.completed@.len(),
        {
            let ghost count = events@.len() as int;
            if let Some(event) = self.completed.pop_front() {
                events.push(event);
            }
            assert(before.take(count + 1) =~= before.take(count).push(before[count]));
            assert(self.completed@ =~= before.skip(count + 1));
        }
        let ghost count = if before.len() < limit {
            before.len() as int
        } else {
            limit as int
        };
        assert(self@ =~= ApiCallView { completed: before.skip(count), ..old(self)@ });
        events
    }
}

proof fn lemma_candidate_place_last(
    candidates: Seq<ApiCallResultEvent>,
    event: ApiCallResultEvent,
    from: int,
)
    requires
        0 <= from <= candidates.len(),
        !has_candidate(candidates, event.api_call),
    ensures
        candidate_place(candidates.push(event), event.api_call, event.callback, from) == Some(
            candidates.len() as int,
        ),
    decreases candidates.len() - from,
{
    if from < candidates.len() {
        assert(candidates.push(event)[from] == candidates[from]);
        lemma_candidate_place_last(candidates, event, from + 1);
    }
}

/// A completion that arrives before Steam has returned the handle is matched when the
/// handle comes: the request counts as completed and the completion waits to be taken.
pub proof fn law_early_completion_is_matched(
    state: ApiCallView,
    session: u64,
    event: ApiCallResultEvent,
)
    requires
        state.wf(),
        state.session == Some(session),
        state.issuing is Some,
        state.issuing->0.callback == event.callback,
        !has_candidate(state.issuing->0.candidates, event.api_call),
        event.api_call != 0,
        !has_handle(state.api_calls, event.api_call),
    ensures
        ({
            let (waiting, woken) = state.published(session, event);
            let (after, outcome) = waiting.issue_finished(session, event.api_call, event.callback);
            &&& !woken
            &&& state.accepting(event.api_call, event.callback) == Some(session)
            &&& outcome is Completed
            &&& after.completed == state.completed.push(event)
            &&& after.api_calls == state.api_calls
            &&& after.issuing is None
        }),
{
    lemma_no_handle_no_place(state.api_calls, event.api_call, event.callback, 0);
    lemma_candidate_place_last(state.issuing->0.candidates, event, 0);
}

proof fn lemma_no_handle_no_place(calls: Seq<(u64, i32)>, api_call: u64, callback: i32, from: int)
    requires
        0 <= from <= calls.len(),
        !has_handle(calls, api_call),
    ensures
        call_place(calls, (api_call, callback), from) is None,
    decreases calls.len() - from,
{
    if from < calls.len() {
        lemma_no_handle_no_place(calls, api_call, callback, from + 1);
    }
}

proof fn lemma_call_place(calls: Seq<(u64, i32)>, call: (u64, i32), from: int)
    requires
        0 <= from <= calls.len(),
    ensures
        match call_place(calls, call, from) {
            Some(place) => from <= place < calls.len() && calls[place] == call,
            None => forall|i: int| from <= i < calls.len() ==> calls[i] != call,
        },
    decreases calls.len() - from,
{
    if from < calls.len() && calls[from] != call {
        lemma_call_place(calls, call, from + 1);
    }
}

/// A handle completes once: after its completion it is registered no longer, so the
/// same completion once more completes nothing.
pub proof fn law_handles_complete_once(state: ApiCallView, session: u64, event: ApiCallResultEvent)
    requires
        state.wf(),
        state.published(session, event).1,
    ensures
        !has_handle(state.published(session, event).0.api_calls, event.api_call),
        !state.published(session, event).0.published(session, event).1,
{
    let calls = state.api_calls;
    lemma_call_place(calls, (event.api_call, event.callback), 0);
    let place = call_place(calls, (event.api_call, event.callback), 0)->0;
    let after = swap_removed(calls, place);
    assert forall|i: int| 0 <= i < after.len() implies (#[trigger] after[i]).0
        != event.api_call by {
        let from = if i == place {
            calls.len() - 1
        } else {
            i
        };
        assert(after[i] == calls[from]);
        assert(calls[from].0 != calls[place].0);
    }
    lemma_no_handle_no_place(after, event.api_call, event.callback, 0);
}

/// A completion of a registered handle completes it: it waits to be taken behind the earlier
/// ones, exactly as it came, and every other handle stays registered.
pub proof fn law_registered_handles_complete(
    state: ApiCallView,
    session: u64,
    event: ApiCallResultEvent,
)
    requires
        state.wf(),
        state.session == Some(session),
        state.api_calls.contains((event.api_call, event.callback)),
    ensures
        state.accepting(event.api_call, event.callback) == Some(session),
        ({
            let (after, completed) = state.published(session, event);
            &&& completed
            &&& after.completed == state.completed.push(event)
            &&& after.session == state.session
            &&& after.issuing == state.issuing
            &&& forall|call: (u64, i32)| #[trigger]
                after.api_calls.contains(call) <==> state.api_calls.contains(call) && call != (
                event.api_call,
                event.callback,
            )
        }),
{
    let call = (event.api_call, event.callback);
    lemma_call_place(state.api_calls, call, 0);
    let place = call_place(state.api_calls, call, 0)->0;
    let (after, completed) = state.published(session, event);
    assert forall|other: (u64, i32)| #[trigger]
        after.api_calls.contains(other) <==> state.api_calls.contains(other) && other != call by {
        let last = state.api_calls.len() - 1;
        if after.api_calls.contains(other) {
            let k = choose|k: int|
                0 <= k < after.api_calls.len() && after.api_calls[k] == other;
            if k == place {
                assert(state.api_calls[last] == other);
                assert(state.api_calls[place].0 != state.api_calls[last].0);
            } else {
                assert(state.api_calls[k] == other);
                assert(state.api_calls[k].0 != state.api_calls[place].0);
            }
        }
        if state.api_calls.contains(other) && other != call {
            let k = choose|k: int|
                0 <= k < state.api_calls.len() && state.api_calls[k] == other;
            if k == last {
                assert(after.api_calls[place] == other);
            } else {
                assert(after.api_calls[k] == other);
            }
        }
    }
}

/// A completion that nothing waits for changes nothing: one of another session, and one of a
/// handle that is neither registered nor could still be that of the request being issued.
pub proof fn law_strange_completions_are_ignored(
    state: ApiCallView,
    session: u64,
    event: ApiCallResultEvent,
)
    requires
        state.wf(),
        state.session != Some(session) || (!state.api_calls.contains(
            (event.api_call, event.callback),
        ) && (state.issuing is None || state.issuing->0.callback != event.callback)),
    ensures
        state.published(session, event) == (state, false),
        state.session == Some(session) ==> state.accepting(event.api_call, event.callback) is None,
{
    let call = (event.api_call, event.callback);
    lemma_call_place(state.api_calls, call, 0);
    if let Some(place) = call_place(state.api_calls, call, 0) {
        assert(state.api_calls.contains(state.api_calls[place]));
    }
}

/// A handle is registered exactly for the current session, where it is a handle at all, its
/// results are those of the stats callback, and it is not registered yet; it stands behind
/// the others then.
pub proof fn law_new_handles_are_registered(
    state: ApiCallView,
    session: u64,
    api_call: u64,
    callback: i32,
)
    ensures
        ({
            let (after, registered) = state.registered(session, api_call, callback);
            &&& registered <==> state.session == Some(session) && api_call != 0 && callback == 1101
                && forall|i: int|
                0 <= i < state.api_calls.len() ==> (#[trigger] state.api_calls[i]).0 != api_call
            &&& registered ==> after == (ApiCallView {
                api_calls: state.api_calls.push((api_call, callback)),
                ..state
            })
            &&& !registered ==> after == state
        }),
{
}

/// The window of a request closes with the handle that Steam returned. Where its completion
/// has come already it is completed by it, otherwise it is registered; a handle of nothing, or
/// of another session or callback, is refused. Either way the window is closed.
pub proof fn law_requests_end_with_their_handle(
    state: ApiCallView,
    session: u64,
    api_call: u64,
    callback: i32,
)
    requires
        state.wf(),
        state.issuing is Some,
    ensures
        ({
            let (after, outcome) = state.issue_finished(session, api_call, callback);
            let issuing = state.issuing->0;
            let fits = state.session == Some(session) && issuing.session == session
                && issuing.callback == callback && api_call != 0;
            let early = exists|i: int|
                0 <= i < issuing.candidates.len() && (#[trigger] issuing.candidates[i]).api_call
                    == api_call;
            &&& after.issuing is None
            &&& after.session == state.session
            &&& !fits ==> outcome is Rejected && after.api_calls == state.api_calls
                && after.completed == state.completed
            &&& fits && early ==> outcome is Completed && after.api_calls == state.api_calls
                && after.completed.len() == state.completed.len() + 1
                && after.completed.drop_last() == state.completed
                && after.completed.last().api_call == api_call
                && issuing.candidates.contains(after.completed.last())
            &&& fits && !early && !has_handle(state.api_calls, api_call)
                ==> outcome is Registered && after.api_calls == state.api_calls.push(
                (api_call, callback),
            ) && after.completed == state.completed
        }),
{
    let issuing = state.issuing->0;
    lemma_candidate_place(issuing.candidates, api_call, callback, 0);
    let (after, outcome) = state.issue_finished(session, api_call, callback);
    if outcome is Completed {
        assert(after.completed.drop_last() =~= state.completed);
    }
    if exists|i: int|
        0 <= i < issuing.candidates.len() && (#[trigger] issuing.candidates[i]).api_call
            == api_call {
        let i = choose|i: int|
            0 <= i < issuing.candidates.len() && (#[trigger] issuing.candidates[i]).api_call
                == api_call;
        assert(issuing.candidates[i].callback == issuing.callback);
    }
}

proof fn lemma_candidate_place(
    candidates: Seq<ApiCallResultEvent>,
    api_call: u64,
    callback: i32,
    from: int,
)
    requires
        0 <= from <= candidates.len(),
    ensures
        match candidate_place(candidates, api_call, callback, from) {
            Some(place) => from <= place < candidates.len() && candidates[place].api_call
                == api_call && candidates[place].callback == callback && candidates.contains(
                candidates[place],
            ),
            None => forall|i: int|
                from <= i < candidates.len() ==> !((#[trigger] candidates[i]).api_call == api_call
                    && candidates[i].callback == callback),
        },
    decreases candidates.len() - from,
{
    if from < candidates.len() && !(candidates[from].api_call == api_call
        && candidates[from].callback == callback) {
        lemma_candidate_place(candidates, api_call, callback, from + 1);
    }
}

/// A completion that is ready to be published.
pub struct PreparedApiResult {
    pub session: u64,
    pub event: ApiCallResultEvent,
}

/// The callback side of the process: calls under way, the wake epoch, and counters.
pub struct CallbackNotify {
    pub calls: ApiCallState,
    pub epoch: u32,
    pub hooks_ready: bool,
    pub api_results: u32,
    pub registered_api_results: u32,
    pub last_api_result_callback: u32,
}

/// The counters in one line.
pub open spec fn notify_line(
    api_results: nat,
    registered: nat,
    last: nat,
    calls: nat,
    pending: nat,
    issuing: bool,
    session: nat,
) -> Seq<char> {
    "api_results="@ + decimal_of(api_results) + " registered_api_results="@ + decimal_of(registered)
        + " last_api_result_id="@ + decimal_of(last) + " registered_calls="@ + decimal_of(calls)
        + " api_pending="@ + decimal_of(pending) + " issuing="@ + (if issuing {
        "true"@
    } else {
        "false"@
    }) + " session="@ + decimal_of(session)
}

impl CallbackNotify {
    pub open spec fn wf(self) -> bool {
        self.calls.wf()
    }

    pub fn new() -> (state: Self)
        ensures
            state.wf(),
            state.calls@ == ApiCallView::idle(None),
            state.epoch == 0,
            !state.hooks_ready,
            state.api_results == 0,
            state.registered_api_results == 0,
            state.last_api_result_callback == 0,
    {
        CallbackNotify {
            calls: ApiCallState::new(),
            epoch: 0,
            hooks_ready: false,
            api_results: 0,
            registered_api_results: 0,
            last_api_result_callback: 0,
        }
    }

    /// Advances the epoch, which wakes whoever waits for it.
    pub fn notify(&mut self)
        ensures
            final(self).epoch == old(self).epoch.wrapping_add(1),
            final(self).calls == old(self).calls,
            final(self).hooks_ready == old(self).hooks_ready,
            final(self).api_results == old(self).api_results,
            final(self).registered_api_results == old(self).registered_api_results,
            final(self).last_api_result_callback == old(self).last_api_result_callback,
    {
        self.epoch = self.epoch.wrapping_add(1);
    }

    /// Sets whether the callback hooks are in place; a change is notified.
    pub fn set_hooks_ready(&mut self, ready: bool)
        ensures
            final(self).hooks_ready == ready,
            final(self).epoch == if old(self).hooks_ready != ready {
                old(self).epoch.wrapping_add(1)
            } else {
                old(self).epoch
            },
            final(self).calls == old(self).calls,
            final(self).api_results == old(self).api_results,
            final(self).registered_api_results == old(self).registered_api_results,
            final(self).last_api_result_callback == old(self).last_api_result_callback,
    {
        let changed: bool = self.hooks_ready != ready;
        self.hooks_ready = ready;
        if changed {
            self.notify();
        }
    }

    /// Forgets everything of an account, and wakes the consumer.
    pub fn clear_account(&mut self)
        ensures
            final(self).wf(),
            final(self).calls@ == ApiCallView::idle(None),
            final(self).epoch == old(self).epoch.wrapping_add(1),
            final(self).hooks_ready == old(self).hooks_ready,
            final(self).api_results == old(self).api_results,
            final(self).registered_api_results == old(self).registered_api_results,
            final(self).last_api_result_callback == old(self).last_api_result_callback,
    {
        self.calls.clear_all();
        self.notify();
    }

    /// Closes the issue window; a request that completed at once wakes the consumer.
    pub fn finish_api_call(&mut self, session: u64, api_call: u64, callback: i32) -> (accepted: bool)
        requires
            old(self).wf(),
        ensures
            final(self).wf(),
            ({
                let (after, outcome) = old(self).calls@.issue_finished(
                    session,
                    api_call,
                    callback,
                );
                &&& final(self).calls@ == after
                &&& accepted == !(outcome is Rejected)
                &&& final(self).epoch == if outcome is Completed {
                    old(self).epoch.wrapping_add(1)
                } else {
                    old(self).epoch
                }
                &&& final(self).registered_api_results == if outcome is Completed {
                    old(self).registered_api_results.wrapping_add(1)
                } else {
                    old(self).registered_api_results
                }
            }),
            final(self).hooks_ready == old(self).hooks_ready,
            final(self).api_results == old(self).api_results,
            final(self).last_api_result_callback == old(self).last_api_result_callback,
    {
        match self.calls.finish_issue(session, api_call, callback) {
            IssueOutcome::Registered => true,
            IssueOutcome::Completed => {
                self.registered_api_results = self.registered_api_results.wrapping_add(1);
                self.notify();
                true
            },
            IssueOutcome::Rejected => false,
        }
    }

    /// Copies a completion that Steam is about to publish, if it is one that is
    /// waited for.
    pub fn prepare_registered_api_result(
        &mut self,
        api_call: u64,
        callback: i32,
        payload: Option<&[u8]>,
        payload_size: i32,
    ) -> (prepared: Option<PreparedApiResult>)
        requires
            old(self).wf(),
            payload is Some && payload_size >= 0 ==> payload->0@.len() == payload_size,
        ensures
            final(self).wf(),
            final(self).calls == old(self).calls,
            final(self).epoch == old(self).epoch,
            final(self).api_results == old(self).api_results.wrapping_add(1),
            final(self).last_api_result_callback == callback as u32,
            final(self).hooks_ready == old(self).hooks_ready,
            final(self).registered_api_results == old(self).registered_api_results,
            prepared is Some <==> api_call != 0 && is_accepted(callback) && old(
                self,
            ).calls@.accepting(api_call, callback) is Some,
            prepared is Some ==> {
                &&& Some(prepared->0.session) == old(self).calls@.accepting(api_call, callback)
                &&& prepared->0.event.api_call == api_call
                &&& prepared->0.event.callback == callback
                &&& prepared->0.event.payload_size == payload_size
                &&& prepared->0.event.payload@ == kept_payload(
                    payload_size,
                    match payload {
                        Some(bytes) => Some(bytes@),
                        None => None,
                    },
                )
            },
    {
        self.api_results = self.api_results.wrapping_add(1);
        self.last_api_result_callback = callback as u32;
        if api_call == 0 || !is_api_result_registered(callback) {
            return None;
        }
        match self.calls.accepted_session(api_call, callback) {
            Some(session) => Some(
                PreparedApiResult {
                    session,
                    event: ApiCallResultEvent::copy_from(
                        api_call,
                        callback,
                        payload_size,
                        payload,
                    ),
                },
            ),
            None => None,
        }
    }

    /// Publishes a prepared completion; one that completes a handle wakes the consumer.
    pub fn publish_registered_api_result(&mut self, prepared: Option<PreparedApiResult>)
        requires
            old(self).wf(),
        ensures
            final(self).wf(),
            prepared is None ==> *final(self) == *old(self),
            prepared matches Some(result) ==> {
                let (after, completed) = old(self).calls@.published(result.session, result.event);
                &&& final(self).calls@ == after
                &&& final(self).epoch == if completed {
                    old(self).epoch.wrapping_add(1)
                } else {
                    old(self).epoch
                }
                &&& final(self).registered_api_results == if completed {
                    old(self).registered_api_results.wrapping_add(1)
                } else {
                    old(self).registered_api_results
                }
            },
            final(self).hooks_ready == old(self).hooks_ready,
            final(self).api_results == old(self).api_results,
            final(self).last_api_result_callback == old(self).last_api_result_callback,
    {
        if let Some(result) = prepared {
            if self.calls.publish(result.session, result.event) {
                self.registered_api_results = self.registered_api_results.wrapping_add(1);
                self.notify();
            }
        }
    }

    /// The counters in one line.
    pub fn diagnostic_status(&self) -> (line: String)
        ensures
            line@ == notify_line(
                self.api_results as nat,
                self.registered_api_results as nat,
                self.last_api_result_callback as nat,
                self.calls@.api_calls.len(),
                self.calls@.completed.len(),
                self.calls@.issuing is Some,
                match self.calls@.session {
                    Some(session) => session as nat,
                    None => 0,
                },
            ),
    {
        let session: u64 = match self.calls.session {
            Some(session) => session,
            None => 0,
        };
        let mut line: String = "api_results=".to_owned();
        line.append(decimal(self.api_results as u64).as_str());
        line.append(" registered_api_results=");
        line.append(decimal(self.registered_api_results as u64).as_str());
        line.append(" last_api_result_id=");
        line.append(decimal(self.last_api_result_callback as u64).as_str());
        line.append(" registered_calls=");
        line.append(decimal(self.calls.api_calls.len() as u64).as_str());
        line.append(" api_pending=");
        line.append(decimal(self.calls.completed.len() as u64).as_str());
        line.append(" issuing=");
        if self.calls.issuing.is_some() {
            line.append("true");
        } else {
            line.append("false");
        }
        line.append(" session=");
        line.append(decimal(session).as_str());
        line
    }
}

/// The handle that a 32-bit process passes in two halves.
pub fn joined_handle(low: u32, high: u32) -> (api_call: u64)
    ensures
        api_call == low + high * 0x1_0000_0000,
{
    low as u64 + high as u64 * 0x1_0000_0000
}

/// The line tells each counter under its name, and whether a request is being issued.
pub proof fn law_status_lines_tell_the_counters(
    api_results: nat,
    registered: nat,
    last: nat,
    calls: nat,
    pending: nat,
    session: nat,
)
    ensures
        notify_line(api_results, registered, last, calls, pending, true, session) == "api_results="@
            + decimal_of(api_results) + " registered_api_results="@ + decimal_of(registered)
            + " last_api_result_id="@ + decimal_of(last) + " registered_calls="@ + decimal_of(calls)
            + " api_pending="@ + decimal_of(pending) + " issuing="@ + "true"@ + " session="@
            + decimal_of(session),
        notify_line(api_results, registered, last, calls, pending, false, session)
            == "api_results="@ + decimal_of(api_results) + " registered_api_results="@ + decimal_of(
            registered,
        ) + " last_api_result_id="@ + decimal_of(last) + " registered_calls="@ + decimal_of(calls)
            + " api_pending="@ + decimal_of(pending) + " issuing="@ + "false"@ + " session="@
            + decimal_of(session),
{
}

} // verus!
