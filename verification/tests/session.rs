use ttsmagic::uuids::Uuid;
use ttsmagic::web::session::{
    from_cookie_header, session_of_value, Session, SessionError, SessionMiddleware,
};

fn key() -> [u8; 32] {
    let mut k = [0u8; 32];
    for (i, b) in k.iter_mut().enumerate() {
        *b = i as u8;
    }
    k
}

#[test]
fn test_cookie_sig_roundtrip() {
    let session = Session {
        session_id: Uuid::new_v4(),
        user: None,
    };
    let cookie = session.make_cookie(&key());
    let session_id =
        Session::verify_session_id_signature(&key(), cookie.value.as_bytes()).unwrap();
    assert_eq!(session.session_id, session_id);
}

#[test]
fn cookie_header_names_its_session() {
    let session = Session {
        session_id: Uuid::parse_str("d12cf21a-e09c-41d5-92bb-9a0cefbd04f4").unwrap(),
        user: None,
    };
    let cookie = session.make_cookie(&key());
    assert_eq!(cookie.name, "ttsmagic-session");
    assert_eq!(cookie.path, "/");
    assert!(cookie.http_only);
    assert_eq!(cookie.max_age_seconds, 7 * 24 * 60 * 60);
    assert!(cookie.value.starts_with("d12cf21a-e09c-41d5-92bb-9a0cefbd04f4:"));
    let header = format!("a=b; {}={}; c=d", cookie.name, cookie.value.replace(':', "%3A"));
    assert_eq!(
        from_cookie_header(&key(), &header),
        Ok(Some(session.session_id))
    );
    assert_eq!(from_cookie_header(&key(), "a=b; c=d"), Ok(None));
    assert_eq!(from_cookie_header(&key(), "ttsmagic-session="), Ok(None));
    assert_eq!(
        from_cookie_header(&key(), "ttsmagic-session"),
        Err(SessionError::BadCookie)
    );
    assert_eq!(
        from_cookie_header(&key(), "ttsmagic-session=%ff"),
        Err(SessionError::BadEncoding)
    );
    assert_eq!(
        session.redis_key(),
        "ttsmagic-sessions:d12cf21a-e09c-41d5-92bb-9a0cefbd04f4"
    );
}

#[test]
fn signature_is_the_hmac() {
    let session = Session {
        session_id: Uuid::parse_str("d12cf21a-e09c-41d5-92bb-9a0cefbd04f4").unwrap(),
        user: None,
    };
    let signed = session.signed_session_id(&key());
    let k = ring::hmac::Key::new(ring::hmac::HMAC_SHA256, &key());
    let tag = ring::hmac::sign(&k, b"d12cf21a-e09c-41d5-92bb-9a0cefbd04f4");
    assert_eq!(signed[37..], hex::encode(tag));
}

#[test]
fn bad_values_are_refused() {
    let session = Session {
        session_id: Uuid::new_v4(),
        user: None,
    };
    let good = session.signed_session_id(&key());
    let verify = |v: &str| Session::verify_session_id_signature(&key(), v.as_bytes());
    assert_eq!(verify("short"), Err(SessionError::BadLength(5)));
    let mut other = good.clone().into_bytes();
    other[0] = 0xff;
    assert_eq!(
        Session::verify_session_id_signature(&key(), &other),
        Err(SessionError::NotUtf8)
    );
    assert_eq!(
        verify(&good.replacen(&good[0..1], "z", 1)),
        Err(SessionError::BadSessionId)
    );
    assert_eq!(
        verify(&good.replacen(':', ";", 1)),
        Err(SessionError::BadSeparator(b';'))
    );
    assert_eq!(
        verify(&format!("{}x", &good[..100])),
        Err(SessionError::BadHex)
    );
    let last = if good.ends_with('0') { "1" } else { "0" };
    assert_eq!(
        verify(&format!("{}{}", &good[..100], last)),
        Err(SessionError::BadSignature)
    );
    assert_eq!(
        Session::verify_session_id_signature(&[7u8; 32], good.as_bytes()),
        Err(SessionError::BadSignature)
    );
    assert_eq!(session_of_value(&key(), ""), Ok(None));
}

#[test]
fn last_readable_header_decides() {
    let fresh = Uuid::new_v4();
    let known = Uuid::new_v4();
    let (s, new) = SessionMiddleware::choose_session(
        fresh,
        vec![
            Ok(None),
            Ok(Some(Session::anonymous(known))),
            Err(SessionError::BadCookie),
        ],
    );
    assert_eq!((s.session_id, new), (known, false));
    let (s, new) = SessionMiddleware::choose_session(
        fresh,
        vec![Ok(Some(Session::anonymous(known))), Ok(None)],
    );
    assert_eq!((s.session_id, new), (fresh, true));
}
