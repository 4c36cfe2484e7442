use cvpn::AuthError;
use cvpn::LoginOutcome;
use cvpn::Session;
use cvpn::session::SessionAction;
use cvpn::session::SessionEvent;
use cvpn::session::SessionState;
use cvpn::session::classify_continuation_response;
use cvpn::session::classify_login_response;
use cvpn::session::continuation_form_fields;
use cvpn::session::login_form_fields;
use cvpn::session::probe_ok;
use cvpn::session::session_step;

fn pairs(v: &[(&str, &str)]) -> Vec<(String, String)> {
    let mut out = Vec::new();
    for (a, b) in v {
        out.push((a.to_string(), b.to_string()));
    }
    out
}

#[test]
fn failed_welcome_redirect_is_invalid_credentials() {
    let cookies = pairs(&[("DSID", "abc")]);
    let r = classify_login_response(
        302,
        Some("/dana-na/auth/url_3/welcome.cgi?p=failed"),
        &cookies,
        "",
    );
    assert!(matches!(r, LoginOutcome::Failed(AuthError::InvalidCredentials)));
}

#[test]
fn landing_redirect_yields_session_with_exactly_the_response_cookies() {
    let cookies = pairs(&[("DSID", "abc"), ("DSFirst", "1")]);
    let r = classify_login_response(302, Some("/dana/home/index.cgi"), &cookies, "");
    match r {
        LoginOutcome::Authenticated(s) => {
            assert_eq!(s.cookies, vec!["DSID=abc".to_string(), "DSFirst=1".to_string()]);
        }
        _ => panic!("expected a session"),
    }
}

#[test]
fn other_redirect_reads_continuation_token_from_body() {
    let cookies = pairs(&[]);
    let body = "<html><body><form><input id=\"DSIDFormDataStr\" value=\"tok123\"></form></body></html>";
    let r = classify_login_response(302, Some("/dana-na/auth/url_3/login.cgi?p=user-confirm"), &cookies, body);
    match r {
        LoginOutcome::Conflict(tok) => assert_eq!(tok, "tok123"),
        _ => panic!("expected a conflict"),
    }
}

#[test]
fn other_redirect_without_token_is_unexpected_shape() {
    let cookies = pairs(&[]);
    let r = classify_login_response(302, Some("/somewhere/else"), &cookies, "<html></html>");
    assert!(matches!(r, LoginOutcome::Failed(AuthError::UnexpectedResponseShape)));
}

#[test]
fn missing_redirect_is_unexpected_shape_not_a_login_failure() {
    let cookies = pairs(&[]);
    let r = classify_login_response(200, None, &cookies, "");
    assert!(matches!(r, LoginOutcome::Failed(AuthError::UnexpectedResponseShape)));
    let r = classify_login_response(302, None, &cookies, "");
    assert!(matches!(r, LoginOutcome::Failed(AuthError::UnexpectedResponseShape)));
}

#[test]
fn any_redirect_class_counts_as_a_redirect() {
    let cookies = pairs(&[("DSID", "abc")]);
    let r = classify_login_response(303, Some("/dana/home/index.cgi"), &cookies, "");
    match r {
        LoginOutcome::Authenticated(s) => assert_eq!(s.cookies, vec!["DSID=abc".to_string()]),
        _ => panic!("expected a session"),
    }
    let r = classify_login_response(
        307,
        Some("/dana-na/auth/url_3/welcome.cgi?p=failed"),
        &cookies,
        "",
    );
    assert!(matches!(r, LoginOutcome::Failed(AuthError::InvalidCredentials)));
    let ok = classify_continuation_response(307, Some("/dana/home/index.cgi"), &cookies);
    assert_eq!(ok.unwrap().cookies, vec!["DSID=abc".to_string()]);
}

#[test]
fn continuation_accepts_only_the_landing_redirect() {
    let cookies = pairs(&[("DSID", "zzz")]);
    let ok = classify_continuation_response(302, Some("/dana/home/index.cgi"), &cookies);
    assert_eq!(ok.unwrap().cookies, vec!["DSID=zzz".to_string()]);
    let other = classify_continuation_response(302, Some("/elsewhere"), &cookies);
    assert!(matches!(other, Err(AuthError::SessionConflictUnresolved)));
    let bad = classify_continuation_response(200, Some("/dana/home/index.cgi"), &cookies);
    assert!(matches!(bad, Err(AuthError::SessionConflictUnresolved)));
}

#[test]
fn probe_wants_marker_with_nonempty_value() {
    assert!(probe_ok("<input id=\"xsauth_395\" value=\"abc\">"));
    assert!(!probe_ok("<input id=\"xsauth_395\" value=\"\">"));
    assert!(!probe_ok("<input id=\"xsauth_395\">"));
    assert!(!probe_ok("<html><body>signed out</body></html>"));
}

#[test]
fn login_form_fields_are_the_fixed_five() {
    let f = login_form_fields("user", "pw");
    assert_eq!(f.len(), 5);
    assert_eq!(f[0], ("tz_offset".to_string(), "540".to_string()));
    assert_eq!(f[1], ("username".to_string(), "user".to_string()));
    assert_eq!(f[2], ("password".to_string(), "pw".to_string()));
    assert_eq!(f[3], ("realm".to_string(), "Student-Realm".to_string()));
    assert_eq!(f[4], ("btnSubmit".to_string(), "Sign+In".to_string()));
}

#[test]
fn continuation_form_fields_are_the_fixed_two() {
    let f = continuation_form_fields("tok");
    assert_eq!(f.len(), 2);
    assert_eq!(f[0].0, "btnContinue");
    assert_eq!(f[0].1, "セッションを続行します");
    assert_eq!(f[1], ("FormDataStr".to_string(), "tok".to_string()));
}

#[test]
fn cookie_header_joins_lines() {
    let s = Session::from_pairs(&pairs(&[("a", "1"), ("b", "2")]));
    assert_eq!(s.cookie_header(), "a=1; b=2");
    let empty = Session::from_pairs(&pairs(&[]));
    assert_eq!(empty.cookie_header(), "");
    let one = Session::from_pairs(&pairs(&[("a", "1")]));
    assert_eq!(one.cookie_header(), "a=1");
}

#[test]
fn failed_probe_leads_to_exactly_one_login() {
    let cached = Session { cookies: vec!["DSID=old".to_string()] };
    let fresh = Session { cookies: vec!["DSID=new".to_string()] };

    let mut logins = 0;
    let (st, act) = session_step(SessionState::Idle, SessionEvent::Begin(Some(cached)));
    assert!(matches!(act, SessionAction::Probe));
    let (st, act) = session_step(st, SessionEvent::ProbeDone(false));
    if matches!(act, SessionAction::SubmitLogin) {
        logins += 1;
    }
    let (st, act) = session_step(
        st,
        SessionEvent::LoginDone(LoginOutcome::Authenticated(fresh)),
    );
    assert!(matches!(act, SessionAction::Done));
    if matches!(act, SessionAction::SubmitLogin) {
        logins += 1;
    }
    match st {
        SessionState::Established(s) => assert_eq!(s.cookies, vec!["DSID=new".to_string()]),
        _ => panic!("expected an established session"),
    }
    assert_eq!(logins, 1);
}

#[test]
fn successful_probe_reuses_the_cached_session() {
    let cached = Session { cookies: vec!["DSID=old".to_string()] };
    let (st, _) = session_step(SessionState::Idle, SessionEvent::Begin(Some(cached)));
    let (st, act) = session_step(st, SessionEvent::ProbeDone(true));
    assert!(matches!(act, SessionAction::Done));
    match st {
        SessionState::Established(s) => assert_eq!(s.cookies, vec!["DSID=old".to_string()]),
        _ => panic!("expected the cached session"),
    }
}

#[test]
fn conflict_routes_through_continuation() {
    let (st, act) = session_step(SessionState::Idle, SessionEvent::Begin(None));
    assert!(matches!(act, SessionAction::SubmitLogin));
    let (st, act) = session_step(
        st,
        SessionEvent::LoginDone(LoginOutcome::Conflict("tok".to_string())),
    );
    match act {
        SessionAction::SubmitContinuation(tok) => assert_eq!(tok, "tok"),
        _ => panic!("expected a continuation"),
    }
    let (st, _) = session_step(st, SessionEvent::ContinuationDone(Err(AuthError::SessionConflictUnresolved)));
    assert!(matches!(st, SessionState::Failed(AuthError::SessionConflictUnresolved)));
}
