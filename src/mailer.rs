//! The SMTP client session as a state machine: it reads one server reply at a
//! time and says what to do next. Running it over a socket is left to the
//! caller.
use vstd::prelude::*;
use base64::Engine;
use vstd::utf8::{decode_utf8, encode_utf8, valid_utf8};
use crate::email::{addresses, Email};
use crate::errors::{
    SmtpAuthError, SmtpConnectionError, SmtpRecipientError, WorkerMailerError,
};
use crate::logger::LogLevel;
use crate::utils::{chars_of, decode, encode, texts};

verus! {

/// Authentication mechanisms the client knows.
#[derive(Debug, Clone, Copy, PartialEq, Eq, Structural)]
pub enum AuthType {
    Plain,
    Login,
    CramMd5,
}

/// SMTP credentials.
#[derive(Debug, Clone)]
pub struct Credentials {
    pub username: String,
    pub password: String,
}

/// Delivery status notification defaults of a connection.
#[derive(Debug, Clone)]
pub struct DsnOptions {
    pub ret: Option<DsnRet>,
    pub notify: Option<DsnNotify>,
}

/// What a delivery status notification returns of the message.
#[derive(Debug, Clone)]
pub struct DsnRet {
    pub headers: Option<bool>,
    pub full: Option<bool>,
}

/// When a delivery status notification is asked for.
#[derive(Debug, Clone)]
pub struct DsnNotify {
    pub delay: Option<bool>,
    pub failure: Option<bool>,
    pub success: Option<bool>,
}

/// How to reach and talk to the server.
#[derive(Debug, Clone)]
pub struct WorkerMailerOptions {
    pub host: String,
    pub port: u16,
    pub secure: bool,
    pub start_tls: bool,
    pub credentials: Option<Credentials>,
    pub auth_type: Vec<AuthType>,
    pub log_level: LogLevel,
    pub dsn: Option<DsnOptions>,
    pub socket_timeout_ms: u64,
    pub response_timeout_ms: u64,
}

impl WorkerMailerOptions {
    /// Options for a host with the defaults: port 587, STARTTLS when offered,
    /// no credentials, 60 s socket and 30 s response timeouts.
    pub fn for_host(host: String) -> (r: Self)
        ensures
            r.host == host,
            r.port == 587,
            !r.secure,
            r.start_tls,
            r.credentials is None,
            r.auth_type@.len() == 0,
            r.log_level == LogLevel::Info,
            r.dsn is None,
            r.socket_timeout_ms == 60000,
            r.response_timeout_ms == 30000,
    {
        WorkerMailerOptions {
            host,
            port: 587,
            secure: false,
            start_tls: true,
            credentials: None,
            auth_type: Vec::new(),
            log_level: LogLevel::Info,
            dsn: None,
            socket_timeout_ms: 60000,
            response_timeout_ms: 30000,
        }
    }
}

impl Default for WorkerMailerOptions {
    fn default() -> (r: Self)
        ensures
            r.host@.len() == 0,
            r.port == 587,
            !r.secure,
            r.start_tls,
            r.credentials is None,
            r.auth_type@.len() == 0,
            r.log_level == LogLevel::Info,
            r.dsn is None,
            r.socket_timeout_ms == 60000,
            r.response_timeout_ms == 30000,
    {
        WorkerMailerOptions::for_host(String::new())
    }
}

// ---------------------------------------------------------------------------
// Trusted calls
// ---------------------------------------------------------------------------

/// The character of a six-bit value in the standard base64 alphabet.
pub open spec fn base64_digit(n: int) -> char {
    if n < 26 {
        (65 + n) as char
    } else if n < 52 {
        (71 + n) as char
    } else if n < 62 {
        (n - 4) as char
    } else if n == 62 {
        '+'
    } else {
        '/'
    }
}

/// Standard base64 (RFC 4648) with `=` padding: each three bytes become four
/// characters, and a last group of one or two bytes is padded.
pub open spec fn base64_of(b: Seq<u8>) -> Seq<char>
    decreases b.len(),
{
    if b.len() == 0 {
        seq![]
    } else if b.len() == 1 {
        let x = b[0] as int;
        seq![base64_digit(x / 4), base64_digit((x % 4) * 16), '=', '=']
    } else if b.len() == 2 {
        let x = b[0] as int;
        let y = b[1] as int;
        seq![base64_digit(x / 4), base64_digit((x % 4) * 16 + y / 16), base64_digit((y % 16) * 4), '=']
    } else {
        let x = b[0] as int;
        let y = b[1] as int;
        let z = b[2] as int;
        seq![
            base64_digit(x / 4),
            base64_digit((x % 4) * 16 + y / 16),
            base64_digit((y % 16) * 4 + z / 64),
            base64_digit(z % 64),
        ] + base64_of(b.skip(3))
    }
}

/// What `str::to_uppercase` gives for a text.
pub uninterp spec fn upper_of(s: Seq<char>) -> Seq<char>;

/// Relies on base64's `STANDARD.encode`: the standard alphabet with padding,
/// as RFC 4648 defines it. It panics when the encoded length overflows
/// `usize`, hence the bound.
#[verifier::external_body]
fn base64_encode(b: &[u8]) -> (r: String)
    requires
        b@.len() / 3 <= (usize::MAX - 4) / 4,
    ensures
        r@ == base64_of(b@),
{
    base64::engine::general_purpose::STANDARD.encode(b)
}

/// Relies on str::to_uppercase: the upper-case form depends on the characters
/// alone.
#[verifier::external_body]
fn uppercase(s: &str) -> (r: String)
    ensures
        r@ == upper_of(s@),
{
    s.to_uppercase()
}

// ---------------------------------------------------------------------------
// Replies
// ---------------------------------------------------------------------------

/// Whether a reply starts with the given text (a code, or its first digit).
pub open spec fn starts_with(s: Seq<char>, p: Seq<char>) -> bool {
    s.len() >= p.len() && s.take(p.len() as int) == p
}

fn text_starts_with(s: &str, p: &str) -> (r: bool)
    ensures
        r == starts_with(s@, p@),
{
    let a = chars_of(s);
    let b = chars_of(p);
    if a.len() < b.len() {
        return false;
    }
    let mut i: usize = 0;
    while i < b.len()
        invariant
            a@ == s@,
            b@ == p@,
            b@.len() <= a@.len(),
            i <= b@.len(),
            forall|j: int| 0 <= j < i ==> a@[j] == b@[j],
        decreases b@.len() - i,
    {
        if a[i] != b[i] {
            assert(s@.take(p@.len() as int)[i as int] != p@[i as int]);
            return false;
        }
        i = i + 1;
    }
    assert(s@.take(p@.len() as int) =~= p@);
    true
}

/// The last line of a reply that ends with LF, without that LF.
pub open spec fn last_line(s: Seq<char>) -> Seq<char> {
    let t = s.drop_last();
    t.skip(crate::utils::last_index(t, '\n') + 1)
}

/// Whether a reply is whole: it ends with LF and its last line is not a
/// continuation line (a `-` after the three-digit code).
pub open spec fn reply_complete(s: Seq<char>) -> bool {
    &&& s.len() > 0
    &&& s.last() == '\n'
    &&& !(last_line(s).len() >= 4 && last_line(s)[3] == '-')
}

/// Whether the reply read so far is a whole SMTP reply.
pub fn is_reply_complete(response: &str) -> (r: bool)
    ensures
        r == reply_complete(response@),
{
    let c = chars_of(response);
    let n = c.len();
    if n == 0 || c[n - 1] != '\n' {
        return false;
    }
    let mut k: usize = n - 1;
    while k > 0 && c[k - 1] != '\n'
        invariant
            c@ == response@,
            n == c@.len(),
            k <= n - 1,
            forall|j: int| k <= j < n - 1 ==> c@[j] != '\n',
        decreases k,
    {
        k = k - 1;
    }
    proof {
        let t = response@.drop_last();
        assert forall|j: int| k <= j < t.len() implies t[j] != '\n' by {
            assert(t[j] == c@[j]);
        }
        if k > 0 && c@[k - 1] == '\n' {
            crate::utils::lemma_last_index_of(t, '\n', k - 1);
        } else {
            crate::utils::lemma_last_index_of(t, '\n', -1);
        }
        assert(last_line(response@) =~= c@.subrange(k as int, n - 1));
    }
    !(n - 1 - k >= 4 && c[k + 3] == '-')
}

/// Adds one chunk read from the socket to the reply: its text when it is
/// valid UTF-8, nothing otherwise.
pub fn append_chunk(response: &mut String, chunk: &[u8])
    ensures
        final(response)@ == old(response)@ + if valid_utf8(chunk@) {
            decode_utf8(chunk@)
        } else {
            seq![]
        },
{
    match decode(chunk) {
        Ok(s) => response.append(s.as_str()),
        Err(_) => {
            assert(final(response)@ =~= old(response)@ + seq![]);
        },
    }
}

// ---------------------------------------------------------------------------
// Capabilities
// ---------------------------------------------------------------------------

/// What the server said it supports.
#[derive(Debug, Clone)]
pub struct Capabilities {
    pub allow_auth: bool,
    pub auth_type_supported: Vec<AuthType>,
    pub supports_start_tls: bool,
    pub supports_dsn: bool,
}

/// `s` cut at each `sep` (one piece more than there are separators).
pub open spec fn split_at_char(s: Seq<char>, sep: char) -> Seq<Seq<char>>
    decreases s.len(),
{
    if s.len() == 0 {
        seq![seq![]]
    } else {
        let rest = split_at_char(s.drop_last(), sep);
        if s.last() == sep {
            rest.push(seq![])
        } else {
            rest.update(rest.len() - 1, rest.last().push(s.last()))
        }
    }
}

/// The texts of a list of character vectors.
pub open spec fn char_views(v: Seq<Vec<char>>) -> Seq<Seq<char>> {
    v.map_values(|x: Vec<char>| x@)
}

/// The lines of a reply, cut at LF.
pub open spec fn reply_lines(reply: Seq<char>) -> Seq<Seq<char>> {
    split_at_char(reply, '\n')
}

/// The words of a reply line after its four-character code prefix (`250-`
/// or `250 `), a trailing CR dropped; none for a shorter line.
pub open spec fn line_words(line: Seq<char>) -> Seq<Seq<char>> {
    let l = if line.len() > 0 && line.last() == '\r' {
        line.drop_last()
    } else {
        line
    };
    if l.len() >= 4 {
        split_at_char(l.skip(4), ' ')
    } else {
        seq![]
    }
}

/// Whether the line's keyword (its first word) is `kw`.
pub open spec fn keyword_is(words: Seq<Seq<char>>, kw: Seq<char>) -> bool {
    words.len() > 0 && words[0] == kw
}

/// Whether some line has the keyword `kw`.
pub open spec fn has_keyword(lines: Seq<Seq<char>>, kw: Seq<char>) -> bool {
    exists|i: int| 0 <= i < lines.len() && keyword_is(#[trigger] line_words(lines[i]), kw)
}

/// Whether some AUTH line lists the mechanism `m`.
pub open spec fn offers(lines: Seq<Seq<char>>, m: Seq<char>) -> bool {
    exists|i: int|
        0 <= i < lines.len() && keyword_is(#[trigger] line_words(lines[i]), "AUTH"@)
            && line_words(lines[i]).drop_first().contains(m)
}

/// The mechanisms the AUTH lines list, in the order PLAIN, LOGIN, CRAM-MD5.
pub open spec fn advertised_mechanisms(lines: Seq<Seq<char>>) -> Seq<AuthType> {
    (if offers(lines, "PLAIN"@) {
        seq![AuthType::Plain]
    } else {
        seq![]
    }) + (if offers(lines, "LOGIN"@) {
        seq![AuthType::Login]
    } else {
        seq![]
    }) + (if offers(lines, "CRAM-MD5"@) {
        seq![AuthType::CramMd5]
    } else {
        seq![]
    })
}

/// The capabilities after an EHLO reply is read: each line's keyword,
/// compared without regard to case, turns a flag on (AUTH, STARTTLS, DSN);
/// the arguments of AUTH lines add mechanisms; other lines change nothing.
pub open spec fn parsed_caps(before: Capabilities, after: Capabilities, reply: Seq<char>) -> bool {
    let lines = reply_lines(upper_of(reply));
    &&& after.allow_auth == (before.allow_auth || has_keyword(lines, "AUTH"@))
    &&& after.auth_type_supported@ == before.auth_type_supported@ + advertised_mechanisms(lines)
    &&& after.supports_start_tls == (before.supports_start_tls || has_keyword(
        lines,
        "STARTTLS"@,
    ))
    &&& after.supports_dsn == (before.supports_dsn || has_keyword(lines, "DSN"@))
}

/// Cuts characters at each separator.
pub fn split_chars(s: &Vec<char>, sep: char) -> (r: Vec<Vec<char>>)
    ensures
        char_views(r@) == split_at_char(s@, sep),
{
    let mut done: Vec<Vec<char>> = Vec::new();
    let mut cur: Vec<char> = Vec::new();
    let mut i: usize = 0;
    assert(s@.take(0) =~= seq![]);
    assert(char_views(done@).push(cur@) =~= split_at_char(s@.take(0), sep));
    while i < s.len()
        invariant
            i <= s@.len(),
            char_views(done@).push(cur@) == split_at_char(s@.take(i as int), sep),
        decreases s@.len() - i,
    {
        let ghost before = split_at_char(s@.take(i as int), sep);
        assert(s@.take(i as int + 1).drop_last() =~= s@.take(i as int));
        assert(s@.take(i as int + 1).last() == s@[i as int]);
        if s[i] == sep {
            let ghost d = done@;
            let ghost c = cur@;
            done.push(cur);
            cur = Vec::new();
            assert(char_views(done@) =~= char_views(d).push(c));
            assert(char_views(done@).push(cur@) =~= before.push(seq![]));
        } else {
            let ghost c = cur@;
            cur.push(s[i]);
            assert(char_views(done@).push(cur@) =~= before.update(before.len() - 1, c.push(s@[i as int])));
        }
        i = i + 1;
    }
    assert(s@.take(s@.len() as int) =~= s@);
    done.push(cur);
    done
}

fn same_text(a: &Vec<char>, b: &str) -> (r: bool)
    ensures
        r == (a@ == b@),
{
    let c = chars_of(b);
    if a.len() != c.len() {
        return false;
    }
    let mut i: usize = 0;
    while i < a.len()
        invariant
            c@ == b@,
            a@.len() == c@.len(),
            i <= a@.len(),
            forall|j: int| 0 <= j < i ==> a@[j] == c@[j],
        decreases a@.len() - i,
    {
        if a[i] != c[i] {
            return false;
        }
        i = i + 1;
    }
    assert(a@ =~= c@);
    true
}

fn words_of(line: &Vec<char>) -> (r: Vec<Vec<char>>)
    ensures
        char_views(r@) == line_words(line@),
{
    let n = line.len();
    let end: usize = if n > 0 && line[n - 1] == '\r' { n - 1 } else { n };
    if end < 4 {
        let none: Vec<Vec<char>> = Vec::new();
        assert(char_views(none@) =~= seq![]);
        return none;
    }
    let mut rest: Vec<char> = Vec::new();
    let mut i: usize = 4;
    while i < end
        invariant
            4 <= i <= end <= n,
            n == line@.len(),
            rest@ == line@.subrange(4, i as int),
        decreases end - i,
    {
        rest.push(line[i]);
        assert(rest@ =~= line@.subrange(4, i + 1));
        i = i + 1;
    }
    proof {
        let l = if line@.len() > 0 && line@.last() == '\r' {
            line@.drop_last()
        } else {
            line@
        };
        assert(l.len() == end);
        assert(rest@ =~= l.skip(4));
    }
    split_chars(&rest, ' ')
}

fn any_keyword(lines: &Vec<Vec<char>>, kw: &str) -> (r: bool)
    ensures
        r == has_keyword(char_views(lines@), kw@),
{
    let ghost v = char_views(lines@);
    let mut i: usize = 0;
    while i < lines.len()
        invariant
            v == char_views(lines@),
            i <= lines@.len(),
            forall|j: int| 0 <= j < i ==> !keyword_is(#[trigger] line_words(v[j]), kw@),
        decreases lines@.len() - i,
    {
        let w = words_of(&lines[i]);
        assert(v[i as int] == lines@[i as int]@);
        if w.len() > 0 && same_text(&w[0], kw) {
            assert(keyword_is(line_words(v[i as int]), kw@));
            return true;
        }
        i = i + 1;
    }
    false
}

fn any_offer(lines: &Vec<Vec<char>>, m: &str) -> (r: bool)
    ensures
        r == offers(char_views(lines@), m@),
{
    let ghost v = char_views(lines@);
    let mut i: usize = 0;
    while i < lines.len()
        invariant
            v == char_views(lines@),
            i <= lines@.len(),
            forall|j: int|
                0 <= j < i ==> !(keyword_is(#[trigger] line_words(v[j]), "AUTH"@) && line_words(
                    v[j],
                ).drop_first().contains(m@)),
        decreases lines@.len() - i,
    {
        let w = words_of(&lines[i]);
        assert(v[i as int] == lines@[i as int]@);
        let ghost ws = char_views(w@);
        if w.len() > 0 && same_text(&w[0], "AUTH") {
            assert(ws[0] == w@[0]@);
            assert(keyword_is(ws, "AUTH"@));
            let mut k: usize = 1;
            while k < w.len()
                invariant
                    ws == char_views(w@),
                    v == char_views(lines@),
                    i < lines@.len(),
                    ws == line_words(v[i as int]),
                    keyword_is(ws, "AUTH"@),
                    1 <= k <= w@.len(),
                    forall|t: int| 1 <= t < k ==> ws[t] != m@,
                decreases w@.len() - k,
            {
                if same_text(&w[k], m) {
                    assert(ws.drop_first()[k - 1] == m@);
                    assert(ws == line_words(v[i as int]));
                    assert(keyword_is(line_words(v[i as int]), "AUTH"@));
                    assert(ws.drop_first().contains(m@));
                    return true;
                }
                k = k + 1;
            }
            assert forall|t: int| 0 <= t < ws.drop_first().len() implies ws.drop_first()[t] != m@ by {
                assert(ws.drop_first()[t] == ws[t + 1]);
            }
        }
        i = i + 1;
    }
    false
}

impl Capabilities {
    /// Nothing known yet.
    pub fn none() -> (r: Self)
        ensures
            !r.allow_auth,
            r.auth_type_supported@.len() == 0,
            !r.supports_start_tls,
            !r.supports_dsn,
    {
        Capabilities {
            allow_auth: false,
            auth_type_supported: Vec::new(),
            supports_start_tls: false,
            supports_dsn: false,
        }
    }

    /// Records what an EHLO reply advertises, line by line: a line's keyword
    /// (its first word after the code) turns on AUTH, STARTTLS or DSN, and an
    /// AUTH line's arguments add mechanisms. Case is ignored; other lines
    /// change nothing, and flags only turn on.
    pub fn parse_capabilities(&mut self, response: &str)
        ensures
            parsed_caps(*old(self), *final(self), response@),
    {
        let u = uppercase(response);
        let chars = chars_of(u.as_str());
        let lines = split_chars(&chars, '\n');
        let ghost before = self.auth_type_supported@;
        if any_keyword(&lines, "AUTH") {
            self.allow_auth = true;
        }
        if any_offer(&lines, "PLAIN") {
            self.auth_type_supported.push(AuthType::Plain);
        }
        if any_offer(&lines, "LOGIN") {
            self.auth_type_supported.push(AuthType::Login);
        }
        if any_offer(&lines, "CRAM-MD5") {
            self.auth_type_supported.push(AuthType::CramMd5);
        }
        assert(self.auth_type_supported@ =~= before + advertised_mechanisms(char_views(lines@)));
        if any_keyword(&lines, "STARTTLS") {
            self.supports_start_tls = true;
        }
        if any_keyword(&lines, "DSN") {
            self.supports_dsn = true;
        }
    }
}

/// The first mechanism of the caller's preference list that the server
/// advertises.
pub open spec fn chosen_mechanism(preferred: Seq<AuthType>, supported: Seq<AuthType>) -> Option<
    AuthType,
>
    decreases preferred.len(),
{
    if preferred.len() == 0 {
        None
    } else if supported.contains(preferred[0]) {
        Some(preferred[0])
    } else {
        chosen_mechanism(preferred.drop_first(), supported)
    }
}

fn includes(v: &Vec<AuthType>, a: AuthType) -> (r: bool)
    ensures
        r == v@.contains(a),
{
    let mut i: usize = 0;
    while i < v.len()
        invariant
            i <= v@.len(),
            forall|j: int| 0 <= j < i ==> v@[j] != a,
        decreases v@.len() - i,
    {
        if v[i] == a {
            return true;
        }
        i = i + 1;
    }
    false
}

/// Picks the mechanism to authenticate with.
pub fn choose_mechanism(preferred: &Vec<AuthType>, supported: &Vec<AuthType>) -> (r: Option<
    AuthType,
>)
    ensures
        r == chosen_mechanism(preferred@, supported@),
{
    let mut i: usize = 0;
    assert(preferred@.skip(0) =~= preferred@);
    while i < preferred.len()
        invariant
            i <= preferred@.len(),
            chosen_mechanism(preferred@.skip(i as int), supported@) == chosen_mechanism(
                preferred@,
                supported@,
            ),
        decreases preferred@.len() - i,
    {
        if includes(supported, preferred[i]) {
            return Some(preferred[i]);
        }
        assert(preferred@.skip(i as int).drop_first() =~= preferred@.skip(i + 1));
        i = i + 1;
    }
    None
}

// ---------------------------------------------------------------------------
// Session
// ---------------------------------------------------------------------------

/// Where the session stands: the reply it waits for, or its end.
#[derive(Debug, Clone, Copy, PartialEq, Eq, Structural)]
pub enum Phase {
    Greeting,
    Ehlo,
    Helo,
    StartTls,
    AuthPlain,
    AuthLogin,
    AuthLoginUser,
    AuthLoginPass,
    AuthCramMd5,
    Ready,
    Closed,
}

/// A failure that ends the session.
#[derive(Debug)]
pub enum SmtpError {
    Connection(SmtpConnectionError),
    Auth(SmtpAuthError),
    Recipient(SmtpRecipientError),
    Command(WorkerMailerError),
}

/// What the caller does next.
#[derive(Debug)]
pub enum SmtpAction {
    /// Write this line, followed by CRLF, and read the reply.
    Send(String),
    /// Upgrade the connection to TLS, then write this line and read the reply.
    UpgradeAndSend(String),
    /// Write this data as it is and read the reply.
    SendData(String),
    /// The session is ready, or the message was accepted with this reply.
    Done(String),
    /// Stop: the session is closed with this failure.
    Fail(SmtpError),
}

/// The identity the client gives in EHLO and HELO.
pub const CLIENT_IDENTITY: &'static str = "127.0.0.1";

/// The state of one connection's handshake and authentication.
pub struct SmtpSession {
    pub secure: bool,
    pub start_tls: bool,
    pub auth_type: Vec<AuthType>,
    pub credentials: Option<Credentials>,
    pub capabilities: Capabilities,
    pub tls_upgraded: bool,
    pub phase: Phase,
}

/// Whether a reply starts with the digit `d`.
pub open spec fn reply_class(reply: Seq<char>, d: char) -> bool {
    reply.len() > 0 && reply[0] == d
}

fn first_is(reply: &str, d: char) -> (r: bool)
    ensures
        r == reply_class(reply@, d),
{
    let n = reply.unicode_len();
    n > 0 && reply.get_char(0) == d
}

/// `prefix` and `message` as one text.
pub open spec fn with_reply(prefix: Seq<char>, reply: Seq<char>) -> Seq<char> {
    prefix + reply
}

fn message_with(prefix: &str, reply: &str) -> (r: String)
    ensures
        r@ == with_reply(prefix@, reply@),
{
    let mut s = String::from_str(prefix);
    s.append(reply);
    s
}

fn command_with(verb: &str, arg: &str) -> (r: String)
    ensures
        r@ == verb@ + arg@,
{
    let mut s = String::from_str(verb);
    s.append(arg);
    s
}

/// The AUTH PLAIN response: NUL, user name, NUL, password.
pub open spec fn plain_blob(c: Credentials) -> Seq<u8> {
    seq![0u8] + encode_utf8(c.username@) + seq![0u8] + encode_utf8(c.password@)
}

impl SmtpSession {
    /// A session waiting for the server's greeting.
    pub fn new(options: &WorkerMailerOptions) -> (r: Self)
        ensures
            r.secure == options.secure,
            r.start_tls == options.start_tls,
            r.auth_type@ == options.auth_type@,
            r.credentials is Some == options.credentials is Some,
            r.credentials matches Some(c) ==> c.username@ == options.credentials->Some_0.username@
                && c.password@ == options.credentials->Some_0.password@,
            !r.capabilities.allow_auth,
            r.capabilities.auth_type_supported@.len() == 0,
            !r.capabilities.supports_start_tls,
            !r.capabilities.supports_dsn,
            !r.tls_upgraded,
            r.phase == Phase::Greeting,
    {
        let mut auth_type: Vec<AuthType> = Vec::new();
        let mut i: usize = 0;
        while i < options.auth_type.len()
            invariant
                i <= options.auth_type@.len(),
                auth_type@ == options.auth_type@.take(i as int),
            decreases options.auth_type@.len() - i,
        {
            auth_type.push(options.auth_type[i]);
            assert(auth_type@ =~= options.auth_type@.take(i as int + 1));
            i = i + 1;
        }
        assert(options.auth_type@.take(i as int) =~= options.auth_type@);
        let credentials = match &options.credentials {
            Some(c) => Some(Credentials { username: c.username.clone(), password: c.password.clone() }),
            None => None,
        };
        SmtpSession {
            secure: options.secure,
            start_tls: options.start_tls,
            auth_type,
            credentials,
            capabilities: Capabilities::none(),
            tls_upgraded: false,
            phase: Phase::Greeting,
        }
    }

    /// After EHLO or HELO: upgrade to TLS when asked for, not yet secure, and
    /// offered; else authenticate.
    fn after_handshake(&mut self) -> (r: SmtpAction)
        ensures
            final(self).secure == old(self).secure,
            final(self).start_tls == old(self).start_tls,
            final(self).auth_type == old(self).auth_type,
            final(self).credentials == old(self).credentials,
            final(self).capabilities == old(self).capabilities,
            final(self).tls_upgraded == old(self).tls_upgraded,
            if old(self).start_tls && !old(self).secure && !old(self).tls_upgraded
                && old(self).capabilities.supports_start_tls {
                &&& (r matches SmtpAction::Send(c) && c@ == "STARTTLS"@)
                &&& final(self).phase == Phase::StartTls
            } else {
                auth_step(*old(self), r, final(self).phase)
            },
    {
        if self.start_tls && !self.secure && !self.tls_upgraded
            && self.capabilities.supports_start_tls {
            self.phase = Phase::StartTls;
            return SmtpAction::Send(String::from_str("STARTTLS"));
        }
        self.begin_auth()
    }

    /// Starts authentication, or ends the handshake when the server asks for
    /// none.
    fn begin_auth(&mut self) -> (r: SmtpAction)
        ensures
            final(self).secure == old(self).secure,
            final(self).start_tls == old(self).start_tls,
            final(self).auth_type == old(self).auth_type,
            final(self).credentials == old(self).credentials,
            final(self).capabilities == old(self).capabilities,
            final(self).tls_upgraded == old(self).tls_upgraded,
            auth_step(*old(self), r, final(self).phase),
    {
        if !self.capabilities.allow_auth {
            self.phase = Phase::Ready;
            return SmtpAction::Done(String::new());
        }
        let creds = match &self.credentials {
            Some(c) => c,
            None => {
                self.phase = Phase::Closed;
                return SmtpAction::Fail(
                    SmtpError::Auth(SmtpAuthError(String::from_str("Auth required but no credentials"))),
                );
            },
        };
        match choose_mechanism(&self.auth_type, &self.capabilities.auth_type_supported) {
            Some(AuthType::Plain) => {
                let mut blob: Vec<u8> = Vec::new();
                blob.push(0u8);
                let mut user = encode(creds.username.as_str());
                let mut pass = encode(creds.password.as_str());
                let ghost u = user@;
                let ghost p = pass@;
                blob.append(&mut user);
                blob.push(0u8);
                blob.append(&mut pass);
                assert(blob@ =~= plain_blob(*creds));
                if blob.len() / 3 > (usize::MAX - 4) / 4 {
                    self.phase = Phase::Closed;
                    return SmtpAction::Fail(
                        SmtpError::Auth(SmtpAuthError(String::from_str("Credentials too long"))),
                    );
                }
                let b64 = base64_encode(blob.as_slice());
                self.phase = Phase::AuthPlain;
                SmtpAction::Send(command_with("AUTH PLAIN ", b64.as_str()))
            },
            Some(AuthType::Login) => {
                self.phase = Phase::AuthLogin;
                SmtpAction::Send(String::from_str("AUTH LOGIN"))
            },
            Some(AuthType::CramMd5) => {
                self.phase = Phase::AuthCramMd5;
                SmtpAction::Send(String::from_str("AUTH CRAM-MD5"))
            },
            None => {
                self.phase = Phase::Closed;
                SmtpAction::Fail(SmtpError::Auth(SmtpAuthError(String::from_str("No supported auth method"))))
            },
        }
    }
}

/// What starting authentication does: nothing to do when the server asks for
/// none; a failure without credentials or without a shared mechanism; else
/// the first command of the chosen mechanism.
pub open spec fn auth_step(s: SmtpSession, r: SmtpAction, phase: Phase) -> bool {
    if !s.capabilities.allow_auth {
        (r matches SmtpAction::Done(_)) && phase == Phase::Ready
    } else if s.credentials is None {
        (r matches SmtpAction::Fail(SmtpError::Auth(_))) && phase == Phase::Closed
    } else {
        match chosen_mechanism(s.auth_type@, s.capabilities.auth_type_supported@) {
            Some(AuthType::Plain) => {
                if plain_blob(s.credentials->Some_0).len() / 3 > (usize::MAX - 4) / 4 {
                    (r matches SmtpAction::Fail(SmtpError::Auth(_))) && phase == Phase::Closed
                } else {
                    (r matches SmtpAction::Send(c) && c@ == "AUTH PLAIN "@ + base64_of(
                        plain_blob(s.credentials->Some_0),
                    )) && phase == Phase::AuthPlain
                }
            },
            Some(AuthType::Login) => (r matches SmtpAction::Send(c) && c@ == "AUTH LOGIN"@) && phase
                == Phase::AuthLogin,
            Some(AuthType::CramMd5) => (r matches SmtpAction::Send(c) && c@ == "AUTH CRAM-MD5"@)
                && phase == Phase::AuthCramMd5,
            None => (r matches SmtpAction::Fail(SmtpError::Auth(_))) && phase == Phase::Closed,
        }
    }
}

/// The EHLO command.
pub open spec fn ehlo_command() -> Seq<char> {
    "EHLO "@ + CLIENT_IDENTITY@
}

/// The HELO command.
pub open spec fn helo_command() -> Seq<char> {
    "HELO "@ + CLIENT_IDENTITY@
}

/// Whether base64 of these bytes can be made without overflow.
pub open spec fn encodable(b: Seq<u8>) -> bool {
    b.len() / 3 <= (usize::MAX - 4) / 4
}

/// The settings and capabilities of a session are as before.
pub open spec fn same_settings(a: SmtpSession, b: SmtpSession) -> bool {
    &&& a.secure == b.secure
    &&& a.start_tls == b.start_tls
    &&& a.auth_type == b.auth_type
    &&& a.credentials == b.credentials
}

/// A connection failure with this message, and the session closed.
pub open spec fn failed_connection(r: SmtpAction, phase: Phase, message: Seq<char>) -> bool {
    (r matches SmtpAction::Fail(SmtpError::Connection(e)) && e.0@ == message) && phase
        == Phase::Closed
}

/// An authentication failure with this message, and the session closed.
pub open spec fn refused_auth(r: SmtpAction, phase: Phase, message: Seq<char>) -> bool {
    (r matches SmtpAction::Fail(SmtpError::Auth(e)) && e.0@ == message) && phase == Phase::Closed
}

/// An authentication failure, and the session closed.
pub open spec fn failed_auth(r: SmtpAction, phase: Phase) -> bool {
    (r matches SmtpAction::Fail(SmtpError::Auth(_))) && phase == Phase::Closed
}

/// The step the LOGIN exchange takes for a reply of class `3`: the next
/// credential in base64, unless it is too long to encode.
pub open spec fn login_step(secret: Seq<char>, r: SmtpAction, phase: Phase, next: Phase) -> bool {
    if encodable(encode_utf8(secret)) {
        (r matches SmtpAction::Send(c) && c@ == base64_of(encode_utf8(secret))) && phase == next
    } else {
        failed_auth(r, phase)
    }
}

/// How the session answers one reply, by the phase it was in.
pub open spec fn session_step(s: SmtpSession, reply: Seq<char>, r: SmtpAction, t: SmtpSession) -> bool {
    match s.phase {
        Phase::Greeting => if starts_with(reply, "220"@) {
            (r matches SmtpAction::Send(c) && c@ == ehlo_command()) && t.phase == Phase::Ehlo
        } else {
            failed_connection(r, t.phase, with_reply("Failed to connect: "@, reply))
        },
        Phase::Ehlo => if starts_with(reply, "421"@) {
            failed_connection(r, t.phase, with_reply("EHLO failed: "@, reply)) && t.capabilities
                == s.capabilities
        } else if !reply_class(reply, '2') {
            (r matches SmtpAction::Send(c) && c@ == helo_command()) && t.phase == Phase::Helo
                && t.capabilities == s.capabilities
        } else {
            let caps = t.capabilities;
            &&& parsed_caps(s.capabilities, caps, reply)
            &&& handshake_step(s, caps, r, t.phase)
        },
        Phase::Helo => if !reply_class(reply, '2') {
            failed_connection(r, t.phase, with_reply("HELO failed: "@, reply))
        } else {
            t.capabilities == s.capabilities && handshake_step(s, s.capabilities, r, t.phase)
        },
        Phase::StartTls => if reply_class(reply, '2') {
            &&& (r matches SmtpAction::UpgradeAndSend(c) && c@ == ehlo_command())
            &&& t.phase == Phase::Ehlo
            &&& t.tls_upgraded
            &&& !t.capabilities.allow_auth
            &&& t.capabilities.auth_type_supported@.len() == 0
            &&& !t.capabilities.supports_start_tls
            &&& !t.capabilities.supports_dsn
        } else {
            failed_connection(r, t.phase, with_reply("STARTTLS failed: "@, reply))
        },
        Phase::AuthPlain | Phase::AuthLoginPass => if reply_class(reply, '2') {
            (r matches SmtpAction::Done(x) && x@ == reply) && t.phase == Phase::Ready
        } else {
            refused_auth(r, t.phase, with_reply("AUTH failed: "@, reply))
        },
        Phase::AuthLogin => if reply_class(reply, '3') {
            login_step(s.credentials->Some_0.username@, r, t.phase, Phase::AuthLoginUser)
        } else {
            refused_auth(r, t.phase, with_reply("AUTH LOGIN: "@, reply))
        },
        Phase::AuthLoginUser => if reply_class(reply, '3') {
            login_step(s.credentials->Some_0.password@, r, t.phase, Phase::AuthLoginPass)
        } else {
            refused_auth(r, t.phase, with_reply("AUTH LOGIN: "@, reply))
        },
        Phase::AuthCramMd5 => refused_auth(
            r,
            t.phase,
            "CRAM-MD5 is not supported; use PLAIN or LOGIN"@,
        ),
        Phase::Ready | Phase::Closed => (r matches SmtpAction::Fail(SmtpError::Command(_)))
            && t.phase == Phase::Closed,
    }
}

/// After a successful EHLO or HELO with capabilities `caps`: STARTTLS when it
/// is asked for, not yet in place, and offered; else authentication.
pub open spec fn handshake_step(s: SmtpSession, caps: Capabilities, r: SmtpAction, phase: Phase) -> bool {
    if s.start_tls && !s.secure && !s.tls_upgraded && caps.supports_start_tls {
        (r matches SmtpAction::Send(c) && c@ == "STARTTLS"@) && phase == Phase::StartTls
    } else {
        auth_step(SmtpSession { capabilities: caps, ..s }, r, phase)
    }
}

impl SmtpSession {
    fn close_with(&mut self, e: SmtpError) -> (r: SmtpAction)
        ensures
            final(self).phase == Phase::Closed,
            r == SmtpAction::Fail(e),
            same_settings(*old(self), *final(self)),
            final(self).capabilities == old(self).capabilities,
            final(self).tls_upgraded == old(self).tls_upgraded,
    {
        self.phase = Phase::Closed;
        SmtpAction::Fail(e)
    }

    fn send_login_secret(&mut self, secret: &str, next: Phase) -> (r: SmtpAction)
        ensures
            login_step(secret@, r, final(self).phase, next),
            same_settings(*old(self), *final(self)),
            final(self).capabilities == old(self).capabilities,
            final(self).tls_upgraded == old(self).tls_upgraded,
    {
        let bytes = encode(secret);
        if bytes.len() / 3 > (usize::MAX - 4) / 4 {
            return self.close_with(SmtpError::Auth(SmtpAuthError(String::from_str("Credentials too long"))));
        }
        self.phase = next;
        SmtpAction::Send(base64_encode(bytes.as_slice()))
    }

    /// Takes the server's next reply and says what to do: the handshake
    /// (greeting, EHLO or HELO, STARTTLS) and then authentication. A failure
    /// closes the session.
    pub fn on_reply(&mut self, reply: &str) -> (r: SmtpAction)
        requires
            old(self).phase == Phase::AuthLogin || old(self).phase == Phase::AuthLoginUser
                ==> old(self).credentials is Some,
        ensures
            session_step(*old(self), reply@, r, *final(self)),
            same_settings(*old(self), *final(self)),
            final(self).phase == Phase::AuthLogin || final(self).phase == Phase::AuthLoginUser
                ==> final(self).credentials is Some,
    {
        let ehlo = command_with("EHLO ", CLIENT_IDENTITY);
        match self.phase {
            Phase::Greeting => {
                if text_starts_with(reply, "220") {
                    self.phase = Phase::Ehlo;
                    SmtpAction::Send(ehlo)
                } else {
                    self.close_with(SmtpError::Connection(SmtpConnectionError(message_with("Failed to connect: ", reply))))
                }
            },
            Phase::Ehlo => {
                if text_starts_with(reply, "421") {
                    self.close_with(SmtpError::Connection(SmtpConnectionError(message_with("EHLO failed: ", reply))))
                } else if !first_is(reply, '2') {
                    self.phase = Phase::Helo;
                    SmtpAction::Send(command_with("HELO ", CLIENT_IDENTITY))
                } else {
                    self.capabilities.parse_capabilities(reply);
                    self.after_handshake()
                }
            },
            Phase::Helo => {
                if !first_is(reply, '2') {
                    self.close_with(SmtpError::Connection(SmtpConnectionError(message_with("HELO failed: ", reply))))
                } else {
                    self.after_handshake()
                }
            },
            Phase::StartTls => {
                if first_is(reply, '2') {
                    self.tls_upgraded = true;
                    self.capabilities = Capabilities::none();
                    self.phase = Phase::Ehlo;
                    SmtpAction::UpgradeAndSend(ehlo)
                } else {
                    self.close_with(SmtpError::Connection(SmtpConnectionError(message_with("STARTTLS failed: ", reply))))
                }
            },
            Phase::AuthPlain | Phase::AuthLoginPass => {
                if first_is(reply, '2') {
                    self.phase = Phase::Ready;
                    SmtpAction::Done(String::from_str(reply))
                } else {
                    self.close_with(SmtpError::Auth(SmtpAuthError(message_with("AUTH failed: ", reply))))
                }
            },
            Phase::AuthLogin | Phase::AuthLoginUser => {
                if !first_is(reply, '3') {
                    return self.close_with(SmtpError::Auth(SmtpAuthError(message_with("AUTH LOGIN: ", reply))));
                }
                let (secret, next) = match &self.credentials {
                    Some(c) => if self.phase == Phase::AuthLogin {
                        (c.username.clone(), Phase::AuthLoginUser)
                    } else {
                        (c.password.clone(), Phase::AuthLoginPass)
                    },
                    None => (String::new(), Phase::Closed),
                };
                self.send_login_secret(secret.as_str(), next)
            },
            Phase::AuthCramMd5 => {
                self.close_with(SmtpError::Auth(SmtpAuthError(String::from_str("CRAM-MD5 is not supported; use PLAIN or LOGIN"))))
            },
            Phase::Ready | Phase::Closed => {
                self.close_with(SmtpError::Command(WorkerMailerError {
                    message: String::from_str("No reply was expected"),
                    code: String::from_str("UNEXPECTED_REPLY"),
                }))
            },
        }
    }
}

// ---------------------------------------------------------------------------
// Mail transaction
// ---------------------------------------------------------------------------

/// Where a mail transaction stands.
#[derive(Debug, Clone, Copy, PartialEq, Eq, Structural)]
pub enum TxPhase {
    MailFrom,
    Rcpt,
    Data,
    Body,
    Done,
    Failed,
}

/// One message's envelope and rendered data, and the reply awaited.
pub struct Transaction {
    pub sender: String,
    pub recipients: Vec<String>,
    pub body: String,
    pub next: usize,
    pub phase: TxPhase,
}

/// The envelope recipients of a message: to, then cc, then bcc.
pub open spec fn envelope_of(e: Email) -> Seq<Seq<char>> {
    addresses(e.to@) + match e.cc {
        Some(v) => addresses(v@),
        None => seq![],
    } + match e.bcc {
        Some(v) => addresses(v@),
        None => seq![],
    }
}

/// The MAIL command for a sender.
pub open spec fn mail_command(sender: Seq<char>) -> Seq<char> {
    "MAIL FROM:<"@ + sender + ">"@
}

/// The RCPT command for a recipient.
pub open spec fn rcpt_command(recipient: Seq<char>) -> Seq<char> {
    "RCPT TO:<"@ + recipient + ">"@
}

/// The command after a recipient was accepted: the next RCPT, or DATA.
pub open spec fn after_recipient(t: Transaction, i: int, r: SmtpAction, u: Transaction) -> bool {
    if i < t.recipients@.len() {
        (r matches SmtpAction::Send(c) && c@ == rcpt_command(t.recipients@[i]@)) && u.phase
            == TxPhase::Rcpt && u.next == i
    } else {
        (r matches SmtpAction::Send(c) && c@ == "DATA"@) && u.phase == TxPhase::Data
    }
}

/// A command failure with this message, and the transaction over.
pub open spec fn failed_command(r: SmtpAction, u: Transaction, message: Seq<char>) -> bool {
    (r matches SmtpAction::Fail(SmtpError::Command(e)) && e.message@ == message) && u.phase
        == TxPhase::Failed
}

/// How a transaction answers one reply, by the phase it was in.
pub open spec fn transaction_step(t: Transaction, reply: Seq<char>, r: SmtpAction, u: Transaction) -> bool {
    match t.phase {
        TxPhase::MailFrom => if reply_class(reply, '2') {
            after_recipient(t, 0, r, u)
        } else {
            failed_command(r, u, with_reply("MAIL FROM failed: "@, reply))
        },
        TxPhase::Rcpt => if reply_class(reply, '2') {
            after_recipient(t, t.next + 1, r, u)
        } else {
            &&& r matches SmtpAction::Fail(SmtpError::Recipient(e))
            &&& e.recipient@ == t.recipients@[t.next as int]@
            &&& e.message@ == "RCPT TO failed for "@ + t.recipients@[t.next as int]@ + ": "@
                + reply
            &&& u.phase == TxPhase::Failed
        },
        TxPhase::Data => if reply_class(reply, '3') {
            (r matches SmtpAction::SendData(d) && d@ == t.body@) && u.phase == TxPhase::Body
        } else {
            failed_command(r, u, with_reply("DATA failed: "@, reply))
        },
        TxPhase::Body => if reply_class(reply, '2') {
            (r matches SmtpAction::Done(x) && x@ == reply) && u.phase == TxPhase::Done
        } else {
            failed_command(r, u, with_reply("Failed to send body: "@, reply))
        },
        TxPhase::Done | TxPhase::Failed => failed_command(
            r,
            u,
            with_reply("No reply was expected: "@, reply),
        ),
    }
}

fn push_addresses(out: &mut Vec<String>, us: &Vec<crate::email::User>)
    ensures
        texts(final(out)@) == texts(old(out)@) + addresses(us@),
{
    let mut i: usize = 0;
    while i < us.len()
        invariant
            i <= us@.len(),
            texts(out@) == texts(old(out)@) + addresses(us@.take(i as int)),
        decreases us@.len() - i,
    {
        let ghost before = out@;
        let a = us[i].email.clone();
        out.push(a);
        assert(texts(out@) =~= texts(before).push(a@));
        assert(addresses(us@.take(i as int + 1)) =~= addresses(us@.take(i as int)).push(
            us@[i as int].email@,
        ));
        assert(texts(out@) =~= texts(old(out)@) + addresses(us@.take(i as int + 1)));
        i = i + 1;
    }
    assert(us@.take(us@.len() as int) =~= us@);
}

/// The envelope recipients of a message, in the order RCPT gives them.
pub fn envelope_recipients(email: &Email) -> (r: Vec<String>)
    ensures
        texts(r@) == envelope_of(*email),
{
    let mut out: Vec<String> = Vec::new();
    assert(texts(out@) =~= seq![]);
    push_addresses(&mut out, &email.to);
    let ghost a = texts(out@);
    match &email.cc {
        Some(v) => push_addresses(&mut out, v),
        None => {},
    }
    let ghost b = texts(out@);
    assert(b =~= addresses(email.to@) + match email.cc {
        Some(v) => addresses(v@),
        None => seq![],
    });
    match &email.bcc {
        Some(v) => push_addresses(&mut out, v),
        None => {},
    }
    assert(texts(out@) =~= envelope_of(*email));
    out
}

fn angle_command(verb: &str, addr: &str) -> (r: String)
    ensures
        r@ == verb@ + addr@ + ">"@,
{
    let mut s = String::from_str(verb);
    s.append(addr);
    s.append(">");
    s
}

impl Transaction {
    /// A transaction for a built message and its rendered data.
    pub fn new(email: &Email, body: String) -> (r: Self)
        ensures
            r.sender@ == email.from.email@,
            texts(r.recipients@) == envelope_of(*email),
            r.body == body,
            r.phase == TxPhase::MailFrom,
            r.next == 0,
    {
        Transaction {
            sender: email.from.email.clone(),
            recipients: envelope_recipients(email),
            body,
            next: 0,
            phase: TxPhase::MailFrom,
        }
    }

    /// The command that opens the transaction.
    pub fn mail_from(&self) -> (r: String)
        ensures
            r@ == mail_command(self.sender@),
    {
        angle_command("MAIL FROM:<", self.sender.as_str())
    }

    fn after_accepted(&mut self, i: usize) -> (r: SmtpAction)
        ensures
            after_recipient(*old(self), i as int, r, *final(self)),
            final(self).recipients == old(self).recipients,
            final(self).sender == old(self).sender,
            final(self).body == old(self).body,
    {
        if i < self.recipients.len() {
            self.next = i;
            self.phase = TxPhase::Rcpt;
            SmtpAction::Send(angle_command("RCPT TO:<", self.recipients[i].as_str()))
        } else {
            self.phase = TxPhase::Data;
            SmtpAction::Send(String::from_str("DATA"))
        }
    }

    fn fail_command(&mut self, prefix: &str, reply: &str) -> (r: SmtpAction)
        ensures
            failed_command(r, *final(self), with_reply(prefix@, reply@)),
            final(self).recipients == old(self).recipients,
            final(self).sender == old(self).sender,
            final(self).body == old(self).body,
    {
        self.phase = TxPhase::Failed;
        SmtpAction::Fail(SmtpError::Command(WorkerMailerError {
            message: message_with(prefix, reply),
            code: String::from_str("COMMAND_FAILED"),
        }))
    }

    /// Takes the server's next reply and says what to do: each recipient in
    /// turn, then DATA, then the data; a refused recipient ends the
    /// transaction naming that recipient, before DATA.
    pub fn on_reply(&mut self, reply: &str) -> (r: SmtpAction)
        requires
            old(self).phase == TxPhase::Rcpt ==> old(self).next < old(self).recipients@.len(),
        ensures
            transaction_step(*old(self), reply@, r, *final(self)),
            final(self).recipients == old(self).recipients,
            final(self).sender == old(self).sender,
            final(self).body == old(self).body,
            final(self).phase == TxPhase::Rcpt ==> final(self).next < final(self).recipients@.len(),
    {
        match self.phase {
            TxPhase::MailFrom => {
                if first_is(reply, '2') {
                    self.after_accepted(0)
                } else {
                    self.fail_command("MAIL FROM failed: ", reply)
                }
            },
            TxPhase::Rcpt => {
                if first_is(reply, '2') {
                    let n = self.recipients.len();
                    assert(self.next < n);
                    let i = self.next + 1;
                    self.after_accepted(i)
                } else {
                    let who = self.recipients[self.next].clone();
                    let mut message = String::from_str("RCPT TO failed for ");
                    message.append(who.as_str());
                    message.append(": ");
                    message.append(reply);
                    self.phase = TxPhase::Failed;
                    SmtpAction::Fail(SmtpError::Recipient(SmtpRecipientError::new(message, who)))
                }
            },
            TxPhase::Data => {
                if first_is(reply, '3') {
                    self.phase = TxPhase::Body;
                    SmtpAction::SendData(self.body.clone())
                } else {
                    self.fail_command("DATA failed: ", reply)
                }
            },
            TxPhase::Body => {
                if first_is(reply, '2') {
                    self.phase = TxPhase::Done;
                    SmtpAction::Done(String::from_str(reply))
                } else {
                    self.fail_command("Failed to send body: ", reply)
                }
            },
            TxPhase::Done | TxPhase::Failed => self.fail_command("No reply was expected: ", reply),
        }
    }
}

} // verus!
