//! Sessions and the login protocol.
//!
//! A session is nothing but a set of cookie lines; it is built once —
//! from a login response or from a cache — and never mutated: a redone
//! authentication yields a fresh session value.
//!
//! The login form answers with a redirect whose target alone decides the
//! outcome: the authenticated landing page means success, the failed
//! welcome page means bad credentials, any other target is a session
//! conflict to be resumed with the hidden continuation token from the
//! response body, and a missing redirect means the server changed shape.
//! The caller drives the exchange through `session_step`, which owns
//! every decision; the transport only performs the actions it is handed.

use crate::scrape::select_first_attr;
use crate::scrape::selected_attr_of;
use crate::text::str_eq;
use vstd::prelude::*;

verus! {

/// An authenticated context: the cookie lines (`name=value`) attached to
/// the response that established it.
#[derive(Debug, Clone)]
pub struct Session {
    pub cookies: Vec<String>,
}

impl View for Session {
    type V = Seq<Seq<char>>;

    open spec fn view(&self) -> Seq<Seq<char>> {
        self.cookies@.map_values(|c: String| c@)
    }
}

/// One cookie as a `name=value` line.
pub open spec fn cookie_line(name: Seq<char>, value: Seq<char>) -> Seq<char> {
    name + "="@ + value
}

/// The cookie lines of a pair sequence, in order.
pub open spec fn cookie_lines(pairs: Seq<(String, String)>) -> Seq<Seq<char>> {
    pairs.map_values(|p: (String, String)| cookie_line(p.0@, p.1@))
}

/// The `name=value; name=value` cookie-header text of a line sequence.
pub open spec fn join_cookies(lines: Seq<Seq<char>>) -> Seq<char>
    decreases lines.len(),
{
    if lines.len() == 0 {
        seq![]
    } else if lines.len() == 1 {
        lines[0]
    } else {
        lines[0] + "; "@ + join_cookies(lines.skip(1))
    }
}

/// Appending a line extends the joined header by one separator and the
/// line.
proof fn lemma_join_cookies_push(a: Seq<Seq<char>>, x: Seq<char>)
    requires
        a.len() >= 1,
    ensures
        join_cookies(a.push(x)) == join_cookies(a) + "; "@ + x,
    decreases a.len(),
{
    if a.len() == 1 {
        assert(a.push(x).skip(1) =~~= seq![x]);
        assert(a.push(x)[0] == a[0]);
        assert(join_cookies(seq![x]) == x);
        assert(join_cookies(a.push(x)) =~= a[0] + "; "@ + x);
    } else {
        lemma_join_cookies_push(a.skip(1), x);
        assert(a.push(x).skip(1) =~~= a.skip(1).push(x));
        assert(join_cookies(a.push(x)) =~= join_cookies(a) + "; "@ + x);
    }
}

impl Session {
    /// A session made of the cookies of one response.
    pub fn from_pairs(pairs: &Vec<(String, String)>) -> (r: Session)
        ensures
            r@ == cookie_lines(pairs@),
    {
        let mut cookies: Vec<String> = Vec::new();
        let mut i: usize = 0;
        while i < pairs.len()
            invariant
                i <= pairs@.len(),
                cookies@.len() == i,
                forall|j: int| 0 <= j < i ==> cookies@[j]@ == cookie_lines(pairs@)[j],
            decreases pairs@.len() - i,
        {
            let p = &pairs[i];
            let line = p.0.clone().concat("=").concat(p.1.as_str());
            cookies.push(line);
            i = i + 1;
        }
        let r = Session { cookies };
        proof {
            assert(r@ =~~= cookie_lines(pairs@));
        }
        r
    }

    /// A session rebuilt from cached cookie lines.
    pub fn from_cookie_lines(lines: Vec<String>) -> (r: Session)
        ensures
            r@ == lines@.map_values(|c: String| c@),
    {
        Session { cookies: lines }
    }

    /// The `cookie` request-header text for this session.
    pub fn cookie_header(&self) -> (r: String)
        ensures
            r@ == join_cookies(self@),
    {
        if self.cookies.len() == 0 {
            let r = String::new();
            proof {
                assert(r@ =~= join_cookies(self@));
            }
            return r;
        }
        let mut acc = self.cookies[0].clone();
        let mut i: usize = 1;
        proof {
            assert(self@.take(1) =~~= seq![self@[0]]);
        }
        while i < self.cookies.len()
            invariant
                1 <= i <= self@.len(),
                self@.len() == self.cookies@.len(),
                acc@ == join_cookies(self@.take(i as int)),
            decreases self@.len() - i,
        {
            acc.append("; ");
            acc.append(self.cookies[i].as_str());
            proof {
                assert(self@.take(i as int).len() >= 1);
                lemma_join_cookies_push(self@.take(i as int), self@[i as int]);
                assert(self@.take(i + 1) =~~= self@.take(i as int).push(self@[i as int]));
            }
            i = i + 1;
        }
        proof {
            assert(self@.take(i as int) =~~= self@);
        }
        acc
    }
}

/// Why authentication failed.
#[derive(Debug, Clone, Copy, PartialEq, Eq, Structural)]
pub enum AuthError {
    /// The login redirect went to the failed welcome page.
    InvalidCredentials,
    /// The continuation after a session conflict was not accepted.
    SessionConflictUnresolved,
    /// The response lacked the redirect shape the protocol promises.
    UnexpectedResponseShape,
}

/// What one login response means.
#[derive(Debug, Clone)]
pub enum LoginOutcome {
    /// The landing redirect: a session, made of the response's cookies.
    Authenticated(Session),
    /// A terminal failure.
    Failed(AuthError),
    /// A session conflict: resume with this continuation token.
    Conflict(String),
}

/// The redirect status class: the protocol speaks through 3xx responses.
pub open spec fn is_redirect(status: u16) -> bool {
    300 <= status <= 399
}

/// The redirect target that marks a successful authentication.
pub open spec fn landing_path() -> Seq<char> {
    "/dana/home/index.cgi"@
}

/// The redirect target that marks rejected credentials.
pub open spec fn failed_path() -> Seq<char> {
    "/dana-na/auth/url_3/welcome.cgi?p=failed"@
}

/// The view of an optional location header.
pub open spec fn loc_view(o: Option<&str>) -> Option<Seq<char>> {
    match o {
        Some(l) => Some(l@),
        None => None,
    }
}

/// What `classify_login_response` must return: no redirect is a protocol
/// error; the landing target carries the new session's cookies; the
/// failed target is bad credentials; any other target is a conflict,
/// resumed with the hidden `DSIDFormDataStr` token if the body holds
/// one.
pub open spec fn login_outcome_spec(
    status: u16,
    loc: Option<Seq<char>>,
    cookies: Seq<(String, String)>,
    body: Seq<char>,
    r: LoginOutcome,
) -> bool {
    if !is_redirect(status) || loc is None {
        r == LoginOutcome::Failed(AuthError::UnexpectedResponseShape)
    } else {
        let l = loc->Some_0;
        if l == landing_path() {
            r matches LoginOutcome::Authenticated(s) && s@ == cookie_lines(cookies)
        } else if l == failed_path() {
            r == LoginOutcome::Failed(AuthError::InvalidCredentials)
        } else {
            match selected_attr_of(body, "#DSIDFormDataStr"@, "value"@) {
                Some(t) => r matches LoginOutcome::Conflict(tok) && tok@ == t,
                None => r == LoginOutcome::Failed(AuthError::UnexpectedResponseShape),
            }
        }
    }
}

/// Interprets a login response strictly by its redirect target.
pub fn classify_login_response(
    status: u16,
    location: Option<&str>,
    cookies: &Vec<(String, String)>,
    body: &str,
) -> (r: LoginOutcome)
    ensures
        login_outcome_spec(status, loc_view(location), cookies@, body@, r),
{
    if !(300 <= status && status <= 399) {
        return LoginOutcome::Failed(AuthError::UnexpectedResponseShape);
    }
    match location {
        None => LoginOutcome::Failed(AuthError::UnexpectedResponseShape),
        Some(l) => {
            if str_eq(l, "/dana/home/index.cgi") {
                LoginOutcome::Authenticated(Session::from_pairs(cookies))
            } else if str_eq(l, "/dana-na/auth/url_3/welcome.cgi?p=failed") {
                LoginOutcome::Failed(AuthError::InvalidCredentials)
            } else {
                match select_first_attr(body, "#DSIDFormDataStr", "value") {
                    Some(tok) => LoginOutcome::Conflict(tok),
                    None => LoginOutcome::Failed(AuthError::UnexpectedResponseShape),
                }
            }
        },
    }
}

/// What `classify_continuation_response` must return: only the landing
/// redirect is accepted; every other shape is the unresolved-conflict
/// failure.
pub open spec fn continuation_outcome_spec(
    status: u16,
    loc: Option<Seq<char>>,
    cookies: Seq<(String, String)>,
    r: Result<Session, AuthError>,
) -> bool {
    if is_redirect(status) && loc == Some(landing_path()) {
        r matches Ok(s) && s@ == cookie_lines(cookies)
    } else {
        r == Err::<Session, AuthError>(AuthError::SessionConflictUnresolved)
    }
}

/// Interprets the response to a continuation form.
pub fn classify_continuation_response(
    status: u16,
    location: Option<&str>,
    cookies: &Vec<(String, String)>,
) -> (r: Result<Session, AuthError>)
    ensures
        continuation_outcome_spec(status, loc_view(location), cookies@, r),
{
    if !(300 <= status && status <= 399) {
        return Err(AuthError::SessionConflictUnresolved);
    }
    match location {
        None => Err(AuthError::SessionConflictUnresolved),
        Some(l) => {
            if str_eq(l, "/dana/home/index.cgi") {
                Ok(Session::from_pairs(cookies))
            } else {
                Err(AuthError::SessionConflictUnresolved)
            }
        },
    }
}

/// Whether a probe of the authenticated landing page shows a live
/// session: the marker element must be present with a nonempty value.
pub fn probe_ok(body: &str) -> (r: bool)
    ensures
        r == (selected_attr_of(body@, "#xsauth_395"@, "value"@) matches Some(v) && v.len() > 0),
{
    match select_first_attr(body, "#xsauth_395", "value") {
        Some(v) => !v.as_str().is_empty(),
        None => false,
    }
}

/// The fixed fields of the login form.
pub fn login_form_fields(username: &str, password: &str) -> (r: Vec<(String, String)>)
    ensures
        r@.len() == 5,
        r@[0].0@ == "tz_offset"@ && r@[0].1@ == "540"@,
        r@[1].0@ == "username"@ && r@[1].1@ == username@,
        r@[2].0@ == "password"@ && r@[2].1@ == password@,
        r@[3].0@ == "realm"@ && r@[3].1@ == "Student-Realm"@,
        r@[4].0@ == "btnSubmit"@ && r@[4].1@ == "Sign+In"@,
{
    let mut r: Vec<(String, String)> = Vec::new();
    r.push((String::from_str("tz_offset"), String::from_str("540")));
    r.push((String::from_str("username"), username.to_owned()));
    r.push((String::from_str("password"), password.to_owned()));
    r.push((String::from_str("realm"), String::from_str("Student-Realm")));
    r.push((String::from_str("btnSubmit"), String::from_str("Sign+In")));
    r
}

/// The fixed fields of the continuation form.
pub fn continuation_form_fields(token: &str) -> (r: Vec<(String, String)>)
    ensures
        r@.len() == 2,
        r@[0].0@ == "btnContinue"@ && r@[0].1@ == "セッションを続行します"@,
        r@[1].0@ == "FormDataStr"@ && r@[1].1@ == token@,
{
    let mut r: Vec<(String, String)> = Vec::new();
    r.push((String::from_str("btnContinue"), String::from_str("セッションを続行します")));
    r.push((String::from_str("FormDataStr"), token.to_owned()));
    r
}

/// Where the session-establishment exchange stands.
pub enum SessionState {
    /// Nothing has happened yet.
    Idle,
    /// A cached session is being probed.
    Probing(Session),
    /// The login form has been requested.
    AwaitingLogin,
    /// A continuation form has been requested.
    AwaitingContinuation,
    /// A usable session.
    Established(Session),
    /// A terminal failure.
    Failed(AuthError),
}

/// What the transport reports back.
pub enum SessionEvent {
    /// Start, with the cached session if one was stored.
    Begin(Option<Session>),
    /// The probe of the cached session succeeded or failed; a transport
    /// failure counts as a failed probe.
    ProbeDone(bool),
    /// The classified login response.
    LoginDone(LoginOutcome),
    /// The classified continuation response.
    ContinuationDone(Result<Session, AuthError>),
}

/// What the transport must do next.
pub enum SessionAction {
    /// Fetch the landing page with the cached cookies.
    Probe,
    /// Submit the login form.
    SubmitLogin,
    /// Submit the continuation form with this token.
    SubmitContinuation(String),
    /// Nothing: the state is terminal or the event did not apply.
    Done,
}

/// The transition table of the exchange.
pub open spec fn spec_session_step(s: SessionState, e: SessionEvent) -> (SessionState, SessionAction) {
    match (s, e) {
        (SessionState::Idle, SessionEvent::Begin(Some(sess))) => (
            SessionState::Probing(sess),
            SessionAction::Probe,
        ),
        (SessionState::Idle, SessionEvent::Begin(None)) => (
            SessionState::AwaitingLogin,
            SessionAction::SubmitLogin,
        ),
        (SessionState::Probing(sess), SessionEvent::ProbeDone(true)) => (
            SessionState::Established(sess),
            SessionAction::Done,
        ),
        (SessionState::Probing(_), SessionEvent::ProbeDone(false)) => (
            SessionState::AwaitingLogin,
            SessionAction::SubmitLogin,
        ),
        (SessionState::AwaitingLogin, SessionEvent::LoginDone(LoginOutcome::Authenticated(sess))) => (
            SessionState::Established(sess),
            SessionAction::Done,
        ),
        (SessionState::AwaitingLogin, SessionEvent::LoginDone(LoginOutcome::Failed(err))) => (
            SessionState::Failed(err),
            SessionAction::Done,
        ),
        (SessionState::AwaitingLogin, SessionEvent::LoginDone(LoginOutcome::Conflict(tok))) => (
            SessionState::AwaitingContinuation,
            SessionAction::SubmitContinuation(tok),
        ),
        (SessionState::AwaitingContinuation, SessionEvent::ContinuationDone(Ok(sess))) => (
            SessionState::Established(sess),
            SessionAction::Done,
        ),
        (SessionState::AwaitingContinuation, SessionEvent::ContinuationDone(Err(err))) => (
            SessionState::Failed(err),
            SessionAction::Done,
        ),
        (other, _) => (other, SessionAction::Done),
    }
}

/// One step of the exchange: from the current state and the transport's
/// event to the next state and the action to perform.  An event that
/// does not fit the state changes nothing.
pub fn session_step(s: SessionState, e: SessionEvent) -> (r: (SessionState, SessionAction))
    ensures
        r == spec_session_step(s, e),
{
    match (s, e) {
        (SessionState::Idle, SessionEvent::Begin(Some(sess))) => (
            SessionState::Probing(sess),
            SessionAction::Probe,
        ),
        (SessionState::Idle, SessionEvent::Begin(None)) => (
            SessionState::AwaitingLogin,
            SessionAction::SubmitLogin,
        ),
        (SessionState::Probing(sess), SessionEvent::ProbeDone(true)) => (
            SessionState::Established(sess),
            SessionAction::Done,
        ),
        (SessionState::Probing(_), SessionEvent::ProbeDone(false)) => (
            SessionState::AwaitingLogin,
            SessionAction::SubmitLogin,
        ),
        (
            SessionState::AwaitingLogin,
            SessionEvent::LoginDone(LoginOutcome::Authenticated(sess)),
        ) => (SessionState::Established(sess), SessionAction::Done),
        (SessionState::AwaitingLogin, SessionEvent::LoginDone(LoginOutcome::Failed(err))) => (
            SessionState::Failed(err),
            SessionAction::Done,
        ),
        (SessionState::AwaitingLogin, SessionEvent::LoginDone(LoginOutcome::Conflict(tok))) => (
            SessionState::AwaitingContinuation,
            SessionAction::SubmitContinuation(tok),
        ),
        (SessionState::AwaitingContinuation, SessionEvent::ContinuationDone(Ok(sess))) => (
            SessionState::Established(sess),
            SessionAction::Done,
        ),
        (SessionState::AwaitingContinuation, SessionEvent::ContinuationDone(Err(err))) => (
            SessionState::Failed(err),
            SessionAction::Done,
        ),
        (other, _) => (other, SessionAction::Done),
    }
}

/// The actions an event sequence drives the exchange through.
pub open spec fn run_actions(s: SessionState, events: Seq<SessionEvent>) -> Seq<SessionAction>
    decreases events.len(),
{
    if events.len() == 0 {
        seq![]
    } else {
        let step = spec_session_step(s, events[0]);
        seq![step.1] + run_actions(step.0, events.skip(1))
    }
}

/// How many login submissions a run of actions contains.
pub open spec fn login_count(actions: Seq<SessionAction>) -> int
    decreases actions.len(),
{
    if actions.len() == 0 {
        0
    } else {
        (if actions[0] is SubmitLogin {
            1int
        } else {
            0int
        }) + login_count(actions.skip(1))
    }
}

/// How many login submissions can still happen from a state.
pub open spec fn login_potential(s: SessionState) -> int {
    match s {
        SessionState::Idle => 1,
        SessionState::Probing(_) => 1,
        _ => 0,
    }
}

/// A run never submits the login form more often than the starting
/// state's potential allows — in particular, never more than once.
pub proof fn lemma_login_count_bounded(s: SessionState, events: Seq<SessionEvent>)
    ensures
        0 <= login_count(run_actions(s, events)) <= login_potential(s),
        login_potential(s) <= 1,
    decreases events.len(),
{
    if events.len() == 0 {
    } else {
        let step = spec_session_step(s, events[0]);
        lemma_login_count_bounded(step.0, events.skip(1));
        assert(run_actions(s, events).skip(1) =~= run_actions(step.0, events.skip(1)));
    }
}

/// Restoring from a cached session whose probe fails performs exactly
/// one login attempt, never more, whatever happens afterwards.
pub proof fn lemma_failed_probe_single_login(sess: Session, rest: Seq<SessionEvent>)
    ensures
        ({
            let events = seq![
                SessionEvent::Begin(Some(sess)),
                SessionEvent::ProbeDone(false),
            ] + rest;
            login_count(run_actions(SessionState::Idle, events)) == 1
        }),
{
    let events = seq![SessionEvent::Begin(Some(sess)), SessionEvent::ProbeDone(false)] + rest;
    let s1 = SessionState::Probing(sess);
    let s2 = SessionState::AwaitingLogin;
    assert(events[0] == SessionEvent::Begin(Some(sess)));
    assert(events.skip(1)[0] == SessionEvent::ProbeDone(false));
    assert(events.skip(1).skip(1) =~= rest);
    let acts = run_actions(SessionState::Idle, events);
    assert(acts =~= seq![SessionAction::Probe] + run_actions(s1, events.skip(1)));
    assert(run_actions(s1, events.skip(1)) =~= seq![SessionAction::SubmitLogin] + run_actions(
        s2,
        rest,
    ));
    lemma_login_count_bounded(s2, rest);
    assert(acts.skip(1) =~= run_actions(s1, events.skip(1)));
    assert(run_actions(s1, events.skip(1)).skip(1) =~= run_actions(s2, rest));
    assert(acts[0] == SessionAction::Probe);
    assert(login_count(acts) == login_count(run_actions(s1, events.skip(1))));
    assert(run_actions(s1, events.skip(1))[0] == SessionAction::SubmitLogin);
    assert(login_count(run_actions(s1, events.skip(1))) == 1 + login_count(
        run_actions(s2, rest),
    ));
    assert(login_count(run_actions(s2, rest)) == 0);
}

/// The landing target and the failed-welcome target are different, so
/// the two outcomes below cannot be confused.
proof fn lemma_paths_differ()
    ensures
        landing_path() != failed_path(),
{
    reveal_strlit("/dana/home/index.cgi");
    reveal_strlit("/dana-na/auth/url_3/welcome.cgi?p=failed");
    assert(landing_path().len() != failed_path().len());
}

/// A login response redirected to the failed welcome page yields the
/// invalid-credentials failure and never a session.
pub proof fn lemma_failed_redirect_no_session(
    status: u16,
    cookies: Seq<(String, String)>,
    body: Seq<char>,
    r: LoginOutcome,
)
    requires
        login_outcome_spec(status, Some(failed_path()), cookies, body, r),
        is_redirect(status),
    ensures
        r == LoginOutcome::Failed(AuthError::InvalidCredentials),
        !(r is Authenticated),
{
    lemma_paths_differ();
}

/// A login response redirected to the landing page yields a session
/// whose cookie lines are exactly the cookies attached to the response.
pub proof fn lemma_landing_redirect_session(
    status: u16,
    cookies: Seq<(String, String)>,
    body: Seq<char>,
    r: LoginOutcome,
)
    requires
        login_outcome_spec(status, Some(landing_path()), cookies, body, r),
        is_redirect(status),
    ensures
        r matches LoginOutcome::Authenticated(s) && s@ == cookie_lines(cookies),
{
}

} // verus!
