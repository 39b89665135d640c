use worker_mailer::email::Email as EmailModel;
use worker_mailer::mailer::{envelope_recipients, is_reply_complete, append_chunk, choose_mechanism};
use worker_mailer::email::{apply_dot_stuffing, get_mime_type, join_strings, safe_boundary};
use worker_mailer::{
    decode, encode, encode_header, encode_quoted_printable, is_valid_email, validate_emails,
    Attachment, AuthType, Capabilities, Credentials, EmailBuildError, EmailOptions, LogLevel,
    Logger, Phase, QueueProcessResult, Recipient, SmtpAction, SmtpError, SmtpSession,
    Transaction, TxPhase, User, WorkerMailerOptions,
};

fn options(from: &str, to: Vec<&str>) -> EmailOptions {
    EmailOptions {
        from: Recipient::Email(from.to_string()),
        to: to.into_iter().map(|s| Recipient::Email(s.to_string())).collect(),
        reply: None,
        cc: None,
        bcc: None,
        subject: "Hi".to_string(),
        text: Some("Hello".to_string()),
        html: None,
        headers: None,
        attachments: None,
        dsn_override: None,
    }
}

fn sent(a: &SmtpAction) -> String {
    match a {
        SmtpAction::Send(s) => s.clone(),
        other => panic!("expected a command, got {:?}", other),
    }
}

#[test]
fn test_is_valid_email() {
    assert!(is_valid_email("a@b.co"));
    assert!(!is_valid_email(""));
    assert!(!is_valid_email("invalid"));
}

#[test]
fn address_rules() {
    assert!(!is_valid_email("a@b.c"));
    let long_local = format!("{}@example.com", "a".repeat(65));
    assert!(!is_valid_email(&long_local));
    let max_local = format!("{}@example.com", "a".repeat(64));
    assert!(is_valid_email(&max_local));
    assert!(!is_valid_email("a@@b.co"));
    assert!(!is_valid_email("a@localhost"));
    assert!(is_valid_email("first.last+tag@mail.example.org"));
}

#[test]
fn validate_emails_keeps_order_of_invalid() {
    let list = vec!["a@b.co".to_string(), "bad".to_string(), "x@y.org".to_string(), "".to_string()];
    assert_eq!(validate_emails(&list), vec!["bad".to_string(), "".to_string()]);
}

#[test]
fn build_without_body_is_invalid_content() {
    let mut o = options("a@b.co", vec!["x@y.co"]);
    o.text = None;
    match EmailModel::new(o) {
        Err(EmailBuildError::InvalidContent(_)) => {}
        _ => panic!("expected InvalidContent"),
    }
}

#[test]
fn build_without_body_and_bad_address_is_still_invalid_content() {
    let mut o = options("bad", vec!["x@y.co"]);
    o.text = None;
    assert!(matches!(EmailModel::new(o), Err(EmailBuildError::InvalidContent(_))));
}

#[test]
fn build_with_html_only_succeeds() {
    let mut o = options("a@b.co", vec!["x@y.co"]);
    o.text = None;
    o.html = Some("<p>Hi</p>".to_string());
    let e = EmailModel::new(o).ok().unwrap();
    assert_eq!(e.from.email, "a@b.co");
    assert_eq!(e.to.len(), 1);
    assert!(e.headers.is_empty());
}

#[test]
fn build_lists_every_invalid_address() {
    let mut o = options("bad-from", vec!["x@y.co", "bad-to"]);
    o.reply = Some(Recipient::User(User::with_name("nope".to_string(), "N".to_string())));
    o.cc = Some(vec![Recipient::Email("c@d.e".to_string())]);
    o.bcc = Some(vec![Recipient::Email("ok@fine.org".to_string()), Recipient::Email("z".to_string())]);
    match EmailModel::new(o) {
        Err(EmailBuildError::InvalidEmail(e)) => {
            assert_eq!(
                e.invalid_emails,
                vec!["bad-from", "bad-to", "nope", "c@d.e", "z"]
                    .into_iter()
                    .map(String::from)
                    .collect::<Vec<_>>()
            );
            assert_eq!(e.message, "Invalid email address(es): bad-from, bad-to, nope, c@d.e, z");
        }
        _ => panic!("expected InvalidEmail"),
    }
}

#[test]
fn quoted_printable_exact() {
    assert_eq!(encode_quoted_printable("a=b \r\n\u{fc}", 76), "a=3Db=20\r\n=C3=BC");
    assert_eq!(encode_quoted_printable("x\ny\rz\t", 76), "x\r\ny=0Dz=09");
    assert_eq!(encode_quoted_printable("", 76), "");
}

#[test]
fn quoted_printable_wraps_lines() {
    let text = "a".repeat(100);
    let out = encode_quoted_printable(&text, 76);
    assert_eq!(out, format!("{}=\r\n{}", "a".repeat(73), "a".repeat(27)));
    for line in out.split("\r\n") {
        assert!(line.len() <= 76);
    }
    let escaped = "\u{e9}".repeat(40);
    for line in encode_quoted_printable(&escaped, 76).split("\r\n") {
        assert!(line.len() <= 76);
    }
}

#[test]
fn quoted_printable_round_trip_by_hand() {
    let text = "a=1 \r\n\u{1}caf\u{e9}\t";
    let out = encode_quoted_printable(text, 10);
    let mut bytes: Vec<u8> = Vec::new();
    let b = out.as_bytes();
    let mut i = 0;
    while i < b.len() {
        if b[i] == b'=' && b[i + 1] == b'\r' {
            i += 3;
        } else if b[i] == b'=' {
            let s = std::str::from_utf8(&b[i + 1..i + 3]).unwrap();
            bytes.push(u8::from_str_radix(s, 16).unwrap());
            i += 3;
        } else {
            bytes.push(b[i]);
            i += 1;
        }
    }
    assert_eq!(bytes, text.as_bytes());
}

#[test]
fn header_encoding() {
    assert_eq!(encode_header("Hello there"), "Hello there");
    assert_eq!(encode_header("caf\u{e9} ok?"), "=?UTF-8?Q?caf=C3=A9_ok=3F?=");
}

#[test]
fn bytes_and_text() {
    assert_eq!(encode("h\u{e9}"), vec![0x68, 0xc3, 0xa9]);
    assert_eq!(decode(&[0x68, 0xc3, 0xa9]).unwrap(), "h\u{e9}");
    assert!(decode(&[0xff, 0xfe]).is_err());
}

#[test]
fn dot_stuffing() {
    assert_eq!(apply_dot_stuffing("hello\r\nworld"), "hello\r\nworld");
    assert_eq!(apply_dot_stuffing("hello\r\n.world"), "hello\r\n..world");
    assert_eq!(apply_dot_stuffing(".start\r\n.x\r\n.."), "..start\r\n..x\r\n...");
    assert_eq!(apply_dot_stuffing("a.b\r\nc."), "a.b\r\nc.");
}

#[test]
fn boundaries() {
    let r = vec![0xab, 0x01, 0xff];
    assert_eq!(safe_boundary("mixed_", &r), "mixed_ab01ff");
    assert_eq!(safe_boundary("a b=", &r), "a_b_ab01ff");
    let m = safe_boundary("mixed_", &r);
    let rel = safe_boundary("related_", &r);
    let alt = safe_boundary("alternative_", &r);
    assert_ne!(m, rel);
    assert_ne!(m, alt);
    assert_ne!(rel, alt);
}

#[test]
fn mime_types() {
    assert_eq!(get_mime_type("photo.JPG"), "image/jpeg");
    assert_eq!(get_mime_type("a.b.pdf"), "application/pdf");
    assert_eq!(get_mime_type("notes"), "application/octet-stream");
    assert_eq!(get_mime_type("page.html"), "text/html");
    assert_eq!(get_mime_type("png"), "application/octet-stream");
}

#[test]
fn join_with_separator() {
    let parts = vec!["a".to_string(), "b".to_string(), "c".to_string()];
    assert_eq!(join_strings(&parts, ", "), "a, b, c");
    assert_eq!(join_strings(&Vec::new(), ", "), "");
}

#[test]
fn headers_are_resolved_once_in_order() {
    let mut o = options("Ann <x>", vec![]);
    o.from = Recipient::User(User::with_name("ann@b.co".to_string(), "J\u{f6}rg".to_string()));
    o.to = vec![Recipient::Email("x@y.co".to_string()), Recipient::User(User::with_name("z@y.co".to_string(), "Zed".to_string()))];
    o.cc = Some(vec![Recipient::Email("c@y.co".to_string())]);
    o.headers = Some(vec![("Subject".to_string(), "Kept".to_string())]);
    let mut e = EmailModel::new(o).ok().unwrap();
    e.resolve_headers("Mon, 1 Jan 2024 00:00:00 GMT", "id-1");
    let names: Vec<&str> = e.headers.iter().map(|(k, _)| k.as_str()).collect();
    assert_eq!(names, vec!["Subject", "From", "To", "Cc", "Date", "Message-ID"]);
    assert_eq!(e.headers[0].1, "Kept");
    assert_eq!(e.headers[1].1, "\"=?UTF-8?Q?J=C3=B6rg?=\" <ann@b.co>");
    assert_eq!(e.headers[2].1, "x@y.co, \"Zed\" <z@y.co>");
    assert_eq!(e.headers[5].1, "<id-1@b.co>");
    e.resolve_headers("other", "id-2");
    assert_eq!(e.headers.len(), 6);
    assert_eq!(e.headers[5].1, "<id-1@b.co>");
}

#[test]
fn empty_cc_and_bcc_add_no_header() {
    let mut o = options("a@b.co", vec!["x@y.co"]);
    o.cc = Some(vec![]);
    o.bcc = Some(vec![]);
    let mut e = EmailModel::new(o).ok().unwrap();
    e.resolve_headers("d", "u");
    let names: Vec<&str> = e.headers.iter().map(|(k, _)| k.as_str()).collect();
    assert_eq!(names, vec!["From", "To", "Subject", "Date", "Message-ID"]);
}

#[test]
fn failures_keep_the_server_reply() {
    let mut s = SmtpSession::new(&session_options());
    match s.on_reply("554 go away\r\n") {
        SmtpAction::Fail(SmtpError::Connection(e)) => assert_eq!(e.0, "Failed to connect: 554 go away\r\n"),
        other => panic!("{:?}", other),
    }
    let e = EmailModel::new(options("a@b.co", vec!["x@y.co"])).ok().unwrap();
    let mut t = Transaction::new(&e, "B".to_string());
    t.on_reply("250 ok\r\n");
    t.on_reply("250 ok\r\n");
    t.on_reply("354 go\r\n");
    match t.on_reply("552 too big\r\n") {
        SmtpAction::Fail(SmtpError::Command(c)) => assert_eq!(c.message, "Failed to send body: 552 too big\r\n"),
        other => panic!("{:?}", other),
    }
}

#[test]
fn message_id_without_at_uses_local() {
    let mut e = EmailModel::new(options("a@b.co", vec!["x@y.co"])).ok().unwrap();
    e.from.email = "nobody".to_string();
    e.resolve_headers("d", "u");
    assert_eq!(e.headers.last().unwrap().1, "<u@local>");
}

#[test]
fn render_plain_message() {
    let mut e = EmailModel::new(options("a@b.co", vec!["x@y.co"])).ok().unwrap();
    let out = e.render("Mon, 1 Jan 2024", "uuid-1", "mixed_x", "related_y", "alternative_z");
    let expected = "MIME-Version: 1.0\r\nFrom: a@b.co\r\nTo: x@y.co\r\nSubject: Hi\r\nDate: Mon, 1 Jan 2024\r\nMessage-ID: <uuid-1@b.co>\r\nContent-Type: multipart/mixed; boundary=\"mixed_x\"\r\n\r\n--mixed_x\r\nContent-Type: multipart/alternative; boundary=\"alternative_z\"\r\n\r\n--alternative_z\r\nContent-Type: text/plain; charset=\"UTF-8\"\r\nContent-Transfer-Encoding: quoted-printable\r\n\r\nHello\r\n\r\n--alternative_z--\r\n--mixed_x--\r\n\r\n.\r\n";
    assert_eq!(out, expected);
}

#[test]
fn render_with_attachments() {
    let mut o = options("a@b.co", vec!["x@y.co"]);
    o.text = Some(".dot line".to_string());
    o.html = Some("<b>x</b>".to_string());
    o.attachments = Some(vec![
        Attachment {
            filename: "report.PDF".to_string(),
            content: "A".repeat(80),
            mime_type: None,
            cid: None,
            inline: None,
        },
        Attachment {
            filename: "logo.png".to_string(),
            content: "QUJD".to_string(),
            mime_type: None,
            cid: Some("logo".to_string()),
            inline: Some(true),
        },
    ]);
    let mut e = EmailModel::new(o).ok().unwrap();
    let out = e.render("D", "U", "mixed_1", "related_2", "alternative_3");
    assert!(out.contains("Content-Type: multipart/related; boundary=\"related_2\"\r\n\r\n--related_2\r\n"));
    assert!(out.contains("\r\n\r\n..dot line\r\n\r\n"));
    assert!(out.contains("Content-Type: text/html; charset=\"UTF-8\"\r\n"));
    assert!(out.contains("--related_2\r\nContent-Type: image/png; name=\"logo.png\"\r\nContent-Transfer-Encoding: base64\r\nContent-ID: <logo>\r\nContent-Disposition: inline; filename=\"logo.png\"\r\n\r\nQUJD\r\n\r\n--related_2--\r\n"));
    let wrapped = format!("{}\r\n{}\r\n", "A".repeat(72), "A".repeat(8));
    assert!(out.contains(&format!("--mixed_1\r\nContent-Type: application/pdf; name=\"report.PDF\"\r\nContent-Description: report.PDF\r\nContent-Disposition: attachment; filename=\"report.PDF\";\r\n    creation-date=\"D\";\r\nContent-Transfer-Encoding: base64\r\n\r\n{}\r\n--mixed_1--\r\n", wrapped)));
    assert!(out.ends_with("--mixed_1--\r\n\r\n.\r\n"));
}

#[test]
fn reply_completeness() {
    assert!(!is_reply_complete(""));
    assert!(!is_reply_complete("250 OK"));
    assert!(is_reply_complete("250 OK\r\n"));
    assert!(!is_reply_complete("250-first\r\n"));
    assert!(is_reply_complete("250-first\r\n250 last\r\n"));
    assert!(is_reply_complete("250\r\n"));
}

#[test]
fn chunks_that_do_not_decode_add_nothing() {
    let mut r = "250".to_string();
    append_chunk(&mut r, &[0xff]);
    assert_eq!(r, "250");
    append_chunk(&mut r, b" OK\r\n");
    assert_eq!(r, "250 OK\r\n");
}

#[test]
fn ehlo_capabilities() {
    let mut c = Capabilities::none();
    c.parse_capabilities("250-AUTH PLAIN LOGIN\r\n250-STARTTLS\r\n250 DSN\r\n");
    assert!(c.allow_auth);
    assert_eq!(c.auth_type_supported, vec![AuthType::Plain, AuthType::Login]);
    assert!(c.supports_start_tls);
    assert!(c.supports_dsn);
    let mut d = Capabilities::none();
    d.parse_capabilities("250-mx.example\r\n250 size 1000\r\n");
    assert!(!d.allow_auth && !d.supports_start_tls && !d.supports_dsn);
    let mut l = Capabilities::none();
    l.parse_capabilities("250 auth cram-md5\r\n");
    assert_eq!(l.auth_type_supported, vec![AuthType::CramMd5]);
}

#[test]
fn mechanism_follows_preference() {
    let supported = vec![AuthType::Plain, AuthType::Login];
    assert_eq!(choose_mechanism(&vec![AuthType::Login, AuthType::Plain], &supported), Some(AuthType::Login));
    assert_eq!(choose_mechanism(&vec![AuthType::CramMd5], &supported), None);
}

fn session_options() -> WorkerMailerOptions {
    let mut o = WorkerMailerOptions::for_host("smtp.example.com".to_string());
    o.credentials = Some(Credentials { username: "me".to_string(), password: "secret".to_string() });
    o.auth_type = vec![AuthType::Plain, AuthType::Login];
    o
}

#[test]
fn session_handshake_with_starttls_and_plain() {
    let mut s = SmtpSession::new(&session_options());
    assert_eq!(sent(&s.on_reply("220 smtp.example.com ESMTP\r\n")), "EHLO 127.0.0.1");
    let a = s.on_reply("250-smtp.example.com\r\n250-AUTH PLAIN LOGIN\r\n250-STARTTLS\r\n250 DSN\r\n");
    assert!(s.capabilities.allow_auth);
    assert_eq!(s.capabilities.auth_type_supported, vec![AuthType::Plain, AuthType::Login]);
    assert!(s.capabilities.supports_start_tls);
    assert!(s.capabilities.supports_dsn);
    assert_eq!(sent(&a), "STARTTLS");
    match s.on_reply("220 go ahead\r\n") {
        SmtpAction::UpgradeAndSend(c) => assert_eq!(c, "EHLO 127.0.0.1"),
        other => panic!("{:?}", other),
    }
    assert!(s.tls_upgraded);
    assert!(!s.capabilities.allow_auth);
    assert_eq!(sent(&s.on_reply("250-AUTH PLAIN LOGIN\r\n250-STARTTLS\r\n250 OK\r\n")), "AUTH PLAIN AG1lAHNlY3JldA==");
    assert!(matches!(s.on_reply("235 2.7.0 ok\r\n"), SmtpAction::Done(_)));
    assert_eq!(s.phase, Phase::Ready);
}

#[test]
fn session_login_exchange() {
    let mut o = session_options();
    o.auth_type = vec![AuthType::Login];
    o.start_tls = false;
    let mut s = SmtpSession::new(&o);
    s.on_reply("220 hi\r\n");
    assert_eq!(sent(&s.on_reply("250-AUTH LOGIN PLAIN\r\n250-STARTTLS\r\n250 OK\r\n")), "AUTH LOGIN");
    assert_eq!(sent(&s.on_reply("334 VXNlcm5hbWU6\r\n")), "bWU=");
    assert_eq!(sent(&s.on_reply("334 UGFzc3dvcmQ6\r\n")), "c2VjcmV0");
    assert!(matches!(s.on_reply("235 ok\r\n"), SmtpAction::Done(_)));
    let mut f = SmtpSession::new(&o);
    f.on_reply("220 hi\r\n");
    f.on_reply("250 AUTH LOGIN\r\n");
    assert!(matches!(f.on_reply("535 no\r\n"), SmtpAction::Fail(SmtpError::Auth(_))));
    assert_eq!(f.phase, Phase::Closed);
}

#[test]
fn session_failures() {
    let mut s = SmtpSession::new(&session_options());
    assert!(matches!(s.on_reply("554 go away\r\n"), SmtpAction::Fail(SmtpError::Connection(_))));
    let mut t = SmtpSession::new(&session_options());
    t.on_reply("220 hi\r\n");
    assert!(matches!(t.on_reply("421 busy\r\n"), SmtpAction::Fail(SmtpError::Connection(_))));
    let mut h = SmtpSession::new(&session_options());
    h.on_reply("220 hi\r\n");
    assert_eq!(sent(&h.on_reply("502 no ehlo\r\n")), "HELO 127.0.0.1");
    assert!(matches!(h.on_reply("250 hello\r\n"), SmtpAction::Done(_)));
    let mut n = WorkerMailerOptions::for_host("h".to_string());
    n.auth_type = vec![AuthType::Plain];
    let mut u = SmtpSession::new(&n);
    u.on_reply("220 hi\r\n");
    assert!(matches!(u.on_reply("250 AUTH PLAIN\r\n"), SmtpAction::Fail(SmtpError::Auth(_))));
    let mut c = session_options();
    c.auth_type = vec![AuthType::CramMd5];
    let mut m = SmtpSession::new(&c);
    m.on_reply("220 hi\r\n");
    assert!(matches!(m.on_reply("250 AUTH PLAIN LOGIN\r\n"), SmtpAction::Fail(SmtpError::Auth(_))));
    let mut k = SmtpSession::new(&c);
    k.on_reply("220 hi\r\n");
    assert_eq!(sent(&k.on_reply("250 AUTH CRAM-MD5\r\n")), "AUTH CRAM-MD5");
    assert!(matches!(k.on_reply("334 PDEyMzQ+\r\n"), SmtpAction::Fail(SmtpError::Auth(_))));
}

#[test]
fn transaction_accepted_with_final_reply() {
    let e = EmailModel::new(options("a@b.co", vec!["x@y.co"])).ok().unwrap();
    let mut t = Transaction::new(&e, "BODY\r\n.\r\n".to_string());
    assert_eq!(t.mail_from(), "MAIL FROM:<a@b.co>");
    assert_eq!(sent(&t.on_reply("250 ok\r\n")), "RCPT TO:<x@y.co>");
    assert_eq!(sent(&t.on_reply("250 ok\r\n")), "DATA");
    match t.on_reply("354 go ahead\r\n") {
        SmtpAction::SendData(d) => assert_eq!(d, "BODY\r\n.\r\n"),
        other => panic!("{:?}", other),
    }
    match t.on_reply("250 2.0.0 queued as X\r\n") {
        SmtpAction::Done(r) => assert_eq!(r, "250 2.0.0 queued as X\r\n"),
        other => panic!("{:?}", other),
    }
    assert_eq!(t.phase, TxPhase::Done);
}

#[test]
fn transaction_rejected_recipient_stops_before_data() {
    let mut o = options("a@b.co", vec!["one@y.co"]);
    o.cc = Some(vec![Recipient::Email("two@y.co".to_string())]);
    o.bcc = Some(vec![Recipient::Email("three@y.co".to_string())]);
    let e = EmailModel::new(o).ok().unwrap();
    assert_eq!(envelope_recipients(&e), vec!["one@y.co", "two@y.co", "three@y.co"]);
    let mut t = Transaction::new(&e, "B".to_string());
    assert_eq!(sent(&t.on_reply("250 ok\r\n")), "RCPT TO:<one@y.co>");
    assert_eq!(sent(&t.on_reply("250 ok\r\n")), "RCPT TO:<two@y.co>");
    match t.on_reply("550 no such user\r\n") {
        SmtpAction::Fail(SmtpError::Recipient(r)) => {
            assert_eq!(r.recipient, "two@y.co");
            assert_eq!(r.message, "RCPT TO failed for two@y.co: 550 no such user\r\n");
        }
        other => panic!("{:?}", other),
    }
    assert_eq!(t.phase, TxPhase::Failed);
}

#[test]
fn transaction_other_failures() {
    let e = EmailModel::new(options("a@b.co", vec!["x@y.co"])).ok().unwrap();
    let mut t = Transaction::new(&e, "B".to_string());
    assert!(matches!(t.on_reply("550 sender refused\r\n"), SmtpAction::Fail(SmtpError::Command(_))));
    let mut d = Transaction::new(&e, "B".to_string());
    d.on_reply("250 ok\r\n");
    d.on_reply("250 ok\r\n");
    assert!(matches!(d.on_reply("554 no data\r\n"), SmtpAction::Fail(SmtpError::Command(_))));
}

#[test]
fn logger_levels() {
    let l = Logger::new(LogLevel::Warn, "[m]".to_string());
    assert!(!l.enabled(LogLevel::Info));
    assert!(l.enabled(LogLevel::Error));
    assert_eq!(l.line("x"), "[m]x");
    assert_eq!(LogLevel::default(), LogLevel::Info);
}

#[test]
fn queue_outcomes() {
    let r = QueueProcessResult::from_outcome(Err("boom".to_string()), options("a@b.co", vec![]));
    assert!(!r.acknowledged());
    assert_eq!(r.error, Some("boom".to_string()));
    let s = QueueProcessResult::from_outcome(Ok("250".to_string()), options("a@b.co", vec![]));
    assert!(s.success && s.error.is_none());
}

#[test]
fn capability_lines_are_read_by_keyword() {
    let mut c = Capabilities::none();
    c.parse_capabilities("250-dsn.example.com\r\n250-X-AUTHPLAIN\r\n250 SIZE 10\r\n");
    assert!(!c.allow_auth);
    assert!(c.auth_type_supported.is_empty());
    assert!(!c.supports_dsn);
    assert!(!c.supports_start_tls);
    let mut d = Capabilities::none();
    d.parse_capabilities("250-mail.example\r\n250-auth login\r\n250 starttls\r\n");
    assert!(d.allow_auth);
    assert_eq!(d.auth_type_supported, vec![AuthType::Login]);
    assert!(d.supports_start_tls);
}

#[test]
fn quoted_printable_lone_line_feed_comes_back_as_crlf() {
    assert_eq!(encode_quoted_printable("a\nb", 76), "a\r\nb");
    assert_eq!(encode_quoted_printable("a\r\nb", 76), "a\r\nb");
}
