//! The query loop's decisions: fetch a captcha, solve it, submit the answer,
//! and retry on captcha errors up to `max_retries` attempts.
//!
//! The network calls are made by the caller; this module is the state
//! machine that, from what happened, says what to do next.

use vstd::prelude::*;

use crate::captcha::{recognize, recognized};
use crate::client::{QueryResp, RawRecord, CAPTCHA_ERR_CODE, SUCCESS_CODE};
use crate::error::ApiError;
use crate::models::{QueryResponse, ReportRecord};
use crate::text::{i64_to_string, int_decimal, nat_decimal, u64_to_string};

verus! {

/// The record that the service returns for an upstream record.
pub open spec fn record_of(r: RawRecord) -> ReportRecord {
    ReportRecord {
        harm_type: r.harm_type_top_str,
        retrieval_code: r.retrieval_code,
        report_time: r.report_time_str_day,
        harm_url: r.harm_url,
        result: r.quick_reply,
    }
}

/// Renames the fields of an upstream record.
pub fn to_record(r: RawRecord) -> (o: ReportRecord)
    ensures
        o == record_of(r),
{
    ReportRecord {
        harm_type: r.harm_type_top_str,
        retrieval_code: r.retrieval_code,
        report_time: r.report_time_str_day,
        harm_url: r.harm_url,
        result: r.quick_reply,
    }
}

/// What an upstream answer means for the query.
#[derive(Debug)]
pub enum DispatchResult {
    /// The query succeeded with these records.
    Records(Vec<ReportRecord>),
    /// Upstream rejected the captcha answer.
    CaptchaError,
    /// Upstream answered with another code and message.
    BadCode(i64, String),
}

/// Sorts an upstream answer by its code: success gives its records, code
/// 3104 a captcha error, any other code a failure with the message.
pub fn dispatch(resp: QueryResp) -> (d: DispatchResult)
    ensures
        resp.code == SUCCESS_CODE ==> (d matches DispatchResult::Records(rs) && rs@
            == resp.data@.map_values(|r: RawRecord| record_of(r))),
        resp.code == CAPTCHA_ERR_CODE ==> d is CaptchaError,
        resp.code != SUCCESS_CODE && resp.code != CAPTCHA_ERR_CODE ==> (d matches DispatchResult::BadCode(
            c,
            m,
        ) && c == resp.code && m == resp.message),
{
    if resp.code == SUCCESS_CODE {
        let mut data = resp.data;
        let ghost all = data@;
        let mut records: Vec<ReportRecord> = Vec::new();
        while data.len() > 0
            invariant
                records@.len() + data@.len() == all.len(),
                data@ == all.skip(records@.len() as int),
                records@ == all.take(records@.len() as int).map_values(
                    |r: RawRecord| record_of(r),
                ),
            decreases data.len(),
        {
            let ghost k = records@.len() as int;
            let r = data.remove(0);
            records.push(to_record(r));
            assert(data@ =~= all.skip(k + 1));
            assert(records@ =~= all.take(k + 1).map_values(|r: RawRecord| record_of(r)));
        }
        assert(all.take(all.len() as int) =~= all);
        return DispatchResult::Records(records);
    }
    if resp.code == CAPTCHA_ERR_CODE {
        return DispatchResult::CaptchaError;
    }
    DispatchResult::BadCode(resp.code, resp.message)
}

// ---------------------------------------------------------------------------
// The retry state machine
// ---------------------------------------------------------------------------

/// What happened since the last action.
#[derive(Debug)]
pub enum QueryEvent {
    /// Fetching the captcha failed; carries the transport error's text.
    CaptchaFetchFailed(String),
    /// The captcha was fetched and the OCR model read it: its text, or `None`
    /// when it could not read it.
    CaptchaRead(Option<String>),
    /// Upstream answered the submitted query.
    SubmitAnswered(QueryResp),
    /// Upstream answered the submitted query with a body that is not JSON;
    /// carries the HTTP status.
    SubmitNonJson(u16),
    /// Submitting failed; carries the transport error's text.
    SubmitNetworkFailed(String),
}

/// What to do next.
#[derive(Debug)]
pub enum QueryAction {
    /// Fetch a fresh captcha, read it, and report `CaptchaRead` or
    /// `CaptchaFetchFailed`.
    FetchCaptcha,
    /// Submit the query with this captcha answer.
    Submit(String),
    /// The query is over, with this result.
    Finish(Result<QueryResponse, ApiError>),
}

/// Where a query stands: which events it waits for.
#[derive(Debug, Clone, Copy, PartialEq, Eq, Structural)]
pub enum QueryPhase {
    /// A captcha is being fetched and read: waits for `CaptchaFetchFailed`
    /// or `CaptchaRead`.
    Fetching,
    /// An answer is being submitted: waits for `SubmitAnswered`,
    /// `SubmitNonJson` or `SubmitNetworkFailed`.
    Submitting,
    /// The query is over: waits for nothing.
    Done,
}

/// The phase that follows an action.
pub open spec fn phase_of(a: QueryAction) -> QueryPhase {
    match a {
        QueryAction::FetchCaptcha => QueryPhase::Fetching,
        QueryAction::Submit(_) => QueryPhase::Submitting,
        QueryAction::Finish(_) => QueryPhase::Done,
    }
}

/// The event answers the action of the phase: a captcha event while fetching,
/// a submit event while submitting, nothing once done.
pub open spec fn accepts(phase: QueryPhase, ev: QueryEvent) -> bool {
    match phase {
        QueryPhase::Fetching => ev is CaptchaFetchFailed || ev is CaptchaRead,
        QueryPhase::Submitting => ev is SubmitAnswered || ev is SubmitNonJson
            || ev is SubmitNetworkFailed,
        QueryPhase::Done => false,
    }
}

fn phase_after(a: &QueryAction) -> (p: QueryPhase)
    ensures
        p == phase_of(*a),
{
    match a {
        QueryAction::FetchCaptcha => QueryPhase::Fetching,
        QueryAction::Submit(_) => QueryPhase::Submitting,
        QueryAction::Finish(_) => QueryPhase::Done,
    }
}

/// The progress of one query: the attempt in course (0 before the first)
/// out of `max_retries`, and the phase it is in.
pub struct QueryRun {
    attempt: u32,
    max_retries: u32,
    phase: QueryPhase,
}

/// The OCR result of a `CaptchaRead` event, as text.
pub open spec fn ocr_view(t: Option<String>) -> Option<Seq<char>> {
    match t {
        Some(s) => Some(s@),
        None => None,
    }
}

/// The event gives up the current attempt: the loop goes on to the next
/// attempt, if one is left.
pub open spec fn event_retries(attempt: int, max: int, ev: QueryEvent) -> bool {
    match ev {
        QueryEvent::CaptchaFetchFailed(_) => attempt < max,
        QueryEvent::CaptchaRead(t) => recognized(ocr_view(t)) is None,
        QueryEvent::SubmitAnswered(r) => r.code == CAPTCHA_ERR_CODE,
        QueryEvent::SubmitNonJson(_) => attempt < max,
        QueryEvent::SubmitNetworkFailed(_) => attempt < max,
    }
}

/// The attempt in course after the event.
pub open spec fn attempt_after(attempt: int, max: int, ev: QueryEvent) -> int {
    if event_retries(attempt, max, ev) && attempt < max {
        attempt + 1
    } else {
        attempt
    }
}

/// The response when every attempt was used up.
pub open spec fn exhausted_text(max: nat) -> Seq<char> {
    "captcha recognition failed after "@ + nat_decimal(max) + " attempts"@
}

/// The response when upstream answered with an unexpected code.
pub open spec fn bad_code_text(code: int, msg: Seq<char>) -> Seq<char> {
    "upstream returned code "@ + int_decimal(code) + ": "@ + msg
}

/// The error when upstream kept answering with something that is not JSON.
pub open spec fn non_json_text(max: nat, status: nat) -> Seq<char> {
    "upstream returned non-JSON after "@ + nat_decimal(max) + " attempts (last status="@
        + nat_decimal(status) + ")"@
}

/// `a` is the failed response with message `msg`.
pub open spec fn finishes_with_failure(a: QueryAction, msg: Seq<char>) -> bool {
    &&& a matches QueryAction::Finish(Ok(resp))
    &&& !resp.success
    &&& resp.total == 0
    &&& resp.records@.len() == 0
    &&& resp.error matches Some(m)
    &&& m@ == msg
}

impl QueryRun {
    /// The attempt in course (0 before the first).
    pub closed spec fn attempts(&self) -> nat {
        self.attempt as nat
    }

    /// The number of attempts allowed.
    pub closed spec fn max_attempts(&self) -> nat {
        self.max_retries as nat
    }

    /// The phase the query is in.
    pub closed spec fn phase(&self) -> QueryPhase {
        self.phase
    }

    /// Whether the query waits for `ev`.
    pub fn expects(&self, ev: &QueryEvent) -> (r: bool)
        ensures
            r == accepts(self.phase(), *ev),
    {
        match self.phase {
            QueryPhase::Fetching => match ev {
                QueryEvent::CaptchaFetchFailed(_) | QueryEvent::CaptchaRead(_) => true,
                _ => false,
            },
            QueryPhase::Submitting => match ev {
                QueryEvent::SubmitAnswered(_) | QueryEvent::SubmitNonJson(_)
                | QueryEvent::SubmitNetworkFailed(_) => true,
                _ => false,
            },
            QueryPhase::Done => false,
        }
    }

    /// The attempt in course (0 before the first).
    pub fn attempt(&self) -> (r: u32)
        ensures
            r == self.attempts(),
    {
        self.attempt
    }

    #[verifier::type_invariant]
    spec fn within_budget(&self) -> bool {
        self.attempt <= self.max_retries
    }

    /// Gives up the current attempt: starts the next one with a fresh
    /// captcha, or, when none is left, ends with the exhausted response.
    fn next_attempt(&mut self) -> (a: QueryAction)
        ensures
            final(self).max_attempts() == old(self).max_attempts(),
            final(self).phase() == old(self).phase(),
            old(self).attempts() < old(self).max_attempts() ==> final(self).attempts() == old(
                self,
            ).attempts() + 1 && a is FetchCaptcha,
            old(self).attempts() >= old(self).max_attempts() ==> final(self).attempts() == old(
                self,
            ).attempts() && finishes_with_failure(a, exhausted_text(old(self).max_attempts())),
    {
        if self.attempt < self.max_retries {
            self.attempt = self.attempt + 1;
            QueryAction::FetchCaptcha
        } else {
            let mut msg = String::from_str("captcha recognition failed after ");
            let n = u64_to_string(self.max_retries as u64);
            msg.append(n.as_str());
            msg.append(" attempts");
            QueryAction::Finish(Ok(QueryResponse::fail(msg)))
        }
    }

    /// A query allowed `max_retries` attempts, and its first action.
    pub fn start(max_retries: u32) -> (r: (QueryRun, QueryAction))
        ensures
            r.0.max_attempts() == max_retries,
            r.0.attempts() <= r.0.max_attempts(),
            r.0.phase() == phase_of(r.1),
            max_retries > 0 ==> r.0.attempts() == 1 && r.1 is FetchCaptcha,
            max_retries == 0 ==> r.0.attempts() == 0 && finishes_with_failure(
                r.1,
                exhausted_text(0),
            ),
    {
        let mut run = QueryRun { attempt: 0, max_retries, phase: QueryPhase::Fetching };
        let a = run.next_attempt();
        run.phase = phase_after(&a);
        (run, a)
    }

    /// The next action after `ev`, which must answer the last action.
    pub fn on_event(&mut self, ev: QueryEvent) -> (a: QueryAction)
        requires
            accepts(old(self).phase(), ev),
        ensures
            final(self).phase() == phase_of(a),
            final(self).max_attempts() == old(self).max_attempts(),
            final(self).attempts() <= final(self).max_attempts(),
            old(self).attempts() < old(self).max_attempts() && (ev is SubmitNonJson
                || ev is SubmitNetworkFailed || ev is CaptchaFetchFailed || ev == QueryEvent::CaptchaRead(None)
                || (ev matches QueryEvent::SubmitAnswered(r) && r.code == 3104)) ==> (a is FetchCaptcha
                && final(self).attempts() == old(self).attempts() + 1),
            final(self).attempts() == attempt_after(
                old(self).attempts() as int,
                old(self).max_attempts() as int,
                ev,
            ),
            (a is FetchCaptcha) == (event_retries(
                old(self).attempts() as int,
                old(self).max_attempts() as int,
                ev,
            ) && old(self).attempts() < old(self).max_attempts()),
            event_retries(old(self).attempts() as int, old(self).max_attempts() as int, ev) && old(
                self,
            ).attempts() >= old(self).max_attempts() ==> finishes_with_failure(
                a,
                exhausted_text(old(self).max_attempts()),
            ),
            match ev {
                QueryEvent::CaptchaFetchFailed(e) => old(self).attempts() >= old(
                    self,
                ).max_attempts() ==> (a matches QueryAction::Finish(Err(ApiError::Network(d)))
                    && d == e),
                QueryEvent::CaptchaRead(t) => recognized(ocr_view(t)) matches Some(v) ==> (a matches QueryAction::Submit(
                    code,
                ) && code@ == int_decimal(v)),
                QueryEvent::SubmitAnswered(r) => {
                    &&& r.code == SUCCESS_CODE ==> (a matches QueryAction::Finish(Ok(resp))
                        && resp.success && resp.total == r.data@.len() && resp.records@
                        == r.data@.map_values(|x: RawRecord| record_of(x)) && resp.error is None)
                    &&& r.code != SUCCESS_CODE && r.code != CAPTCHA_ERR_CODE
                        ==> finishes_with_failure(a, bad_code_text(r.code as int, r.message@))
                },
                QueryEvent::SubmitNonJson(status) => old(self).attempts() >= old(
                    self,
                ).max_attempts() ==> (a matches QueryAction::Finish(Err(ApiError::Internal(m)))
                    && m@ == non_json_text(old(self).max_attempts(), status as nat)),
                QueryEvent::SubmitNetworkFailed(e) => old(self).attempts() >= old(
                    self,
                ).max_attempts() ==> (a matches QueryAction::Finish(Err(ApiError::Network(d)))
                    && d == e),
            },
    {
        proof {
            use_type_invariant(&*self);
        }
        let a = self.decide(ev);
        self.phase = phase_after(&a);
        a
    }

    /// The decision behind `on_event`, without the change of phase.
    fn decide(&mut self, ev: QueryEvent) -> (a: QueryAction)
        requires
            old(self).attempts() <= old(self).max_attempts(),
        ensures
            final(self).phase() == old(self).phase(),
            final(self).max_attempts() == old(self).max_attempts(),
            final(self).attempts() <= final(self).max_attempts(),
            old(self).attempts() < old(self).max_attempts() && (ev is SubmitNonJson
                || ev is SubmitNetworkFailed || ev is CaptchaFetchFailed || ev == QueryEvent::CaptchaRead(None)
                || (ev matches QueryEvent::SubmitAnswered(r) && r.code == 3104)) ==> (a is FetchCaptcha
                && final(self).attempts() == old(self).attempts() + 1),
            final(self).attempts() == attempt_after(
                old(self).attempts() as int,
                old(self).max_attempts() as int,
                ev,
            ),
            (a is FetchCaptcha) == (event_retries(
                old(self).attempts() as int,
                old(self).max_attempts() as int,
                ev,
            ) && old(self).attempts() < old(self).max_attempts()),
            event_retries(old(self).attempts() as int, old(self).max_attempts() as int, ev) && old(
                self,
            ).attempts() >= old(self).max_attempts() ==> finishes_with_failure(
                a,
                exhausted_text(old(self).max_attempts()),
            ),
            match ev {
                QueryEvent::CaptchaFetchFailed(e) => old(self).attempts() >= old(
                    self,
                ).max_attempts() ==> (a matches QueryAction::Finish(Err(ApiError::Network(d)))
                    && d == e),
                QueryEvent::CaptchaRead(t) => recognized(ocr_view(t)) matches Some(v) ==> (a matches QueryAction::Submit(
                    code,
                ) && code@ == int_decimal(v)),
                QueryEvent::SubmitAnswered(r) => {
                    &&& r.code == SUCCESS_CODE ==> (a matches QueryAction::Finish(Ok(resp))
                        && resp.success && resp.total == r.data@.len() && resp.records@
                        == r.data@.map_values(|x: RawRecord| record_of(x)) && resp.error is None)
                    &&& r.code != SUCCESS_CODE && r.code != CAPTCHA_ERR_CODE
                        ==> finishes_with_failure(a, bad_code_text(r.code as int, r.message@))
                },
                QueryEvent::SubmitNonJson(status) => old(self).attempts() >= old(
                    self,
                ).max_attempts() ==> (a matches QueryAction::Finish(Err(ApiError::Internal(m)))
                    && m@ == non_json_text(old(self).max_attempts(), status as nat)),
                QueryEvent::SubmitNetworkFailed(e) => old(self).attempts() >= old(
                    self,
                ).max_attempts() ==> (a matches QueryAction::Finish(Err(ApiError::Network(d)))
                    && d == e),
            },
    {
        match ev {
            QueryEvent::CaptchaFetchFailed(e) => {
                if self.attempt < self.max_retries {
                    self.next_attempt()
                } else {
                    QueryAction::Finish(Err(ApiError::Network(e)))
                }
            },
            QueryEvent::CaptchaRead(t) => {
                let ghost tv = ocr_view(t);
                match recognize(t) {
                    Some(answer) => QueryAction::Submit(answer),
                    None => self.next_attempt(),
                }
            },
            QueryEvent::SubmitAnswered(r) => {
                let ghost data = r.data@;
                let ghost code = r.code;
                let ghost message = r.message@;
                match dispatch(r) {
                    DispatchResult::Records(rs) => {
                        let resp = QueryResponse::ok(rs);
                        QueryAction::Finish(Ok(resp))
                    },
                    DispatchResult::CaptchaError => self.next_attempt(),
                    DispatchResult::BadCode(code, msg) => {
                        let mut text = String::from_str("upstream returned code ");
                        let c = i64_to_string(code);
                        text.append(c.as_str());
                        text.append(": ");
                        text.append(msg.as_str());
                        QueryAction::Finish(Ok(QueryResponse::fail(text)))
                    },
                }
            },
            QueryEvent::SubmitNonJson(status) => {
                if self.attempt < self.max_retries {
                    self.next_attempt()
                } else {
                    let mut text = String::from_str("upstream returned non-JSON after ");
                    let n = u64_to_string(self.max_retries as u64);
                    text.append(n.as_str());
                    text.append(" attempts (last status=");
                    let st = u64_to_string(status as u64);
                    text.append(st.as_str());
                    text.append(")");
                    QueryAction::Finish(Err(ApiError::Internal(text)))
                }
            },
            QueryEvent::SubmitNetworkFailed(e) => {
                if self.attempt < self.max_retries {
                    self.next_attempt()
                } else {
                    QueryAction::Finish(Err(ApiError::Network(e)))
                }
            },
        }
    }
}

// ---------------------------------------------------------------------------
// Laws of the loop
// ---------------------------------------------------------------------------

/// The attempt in course after a sequence of events.
pub open spec fn attempt_after_all(attempt: int, max: int, evs: Seq<QueryEvent>) -> int
    decreases evs.len(),
{
    if evs.len() == 0 {
        attempt
    } else {
        attempt_after(attempt_after_all(attempt, max, evs.drop_last()), max, evs.last())
    }
}

/// The number of fresh captchas fetched in answer to a sequence of events.
pub open spec fn fetches_after_all(attempt: int, max: int, evs: Seq<QueryEvent>) -> int
    decreases evs.len(),
{
    if evs.len() == 0 {
        0
    } else {
        let before = attempt_after_all(attempt, max, evs.drop_last());
        fetches_after_all(attempt, max, evs.drop_last()) + if event_retries(
            before,
            max,
            evs.last(),
        ) && before < max {
            1int
        } else {
            0int
        }
    }
}

/// Retry budget: whatever happens after the start of a query allowed `max`
/// attempts, the captchas fetched (the first one included) are exactly the
/// attempts begun, and never more than `max`.
pub proof fn law_retry_budget(max: nat, evs: Seq<QueryEvent>)
    requires
        max > 0,
    ensures
        1 + fetches_after_all(1, max as int, evs) == attempt_after_all(1, max as int, evs),
        attempt_after_all(1, max as int, evs) <= max,
    decreases evs.len(),
{
    if evs.len() > 0 {
        law_retry_budget(max, evs.drop_last());
    }
}

/// A finished query takes no further event, and a submitted answer is
/// followed only by what upstream made of it: never a second captcha event.
pub proof fn law_phases_follow_actions(
    ev: QueryEvent,
    answer: String,
    result: Result<QueryResponse, ApiError>,
)
    ensures
        !accepts(phase_of(QueryAction::Finish(result)), ev),
        accepts(phase_of(QueryAction::Submit(answer)), ev) ==> !(ev is CaptchaRead
            || ev is CaptchaFetchFailed),
{
}

/// A rejected captcha answer never ends the query while attempts are left:
/// it fetches a fresh captcha.
pub proof fn law_captcha_rejection_retries(attempt: nat, max: nat, resp: QueryResp)
    requires
        attempt < max,
        resp.code == CAPTCHA_ERR_CODE,
    ensures
        event_retries(attempt as int, max as int, QueryEvent::SubmitAnswered(resp)),
        attempt_after(attempt as int, max as int, QueryEvent::SubmitAnswered(resp)) == attempt
            + 1,
{
}

} // verus!
