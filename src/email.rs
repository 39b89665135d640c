//! The message model, its validation, and its serialisation as one MIME document.
use vstd::prelude::*;
use vstd::utf8::encode_utf8;
use crate::errors::{InvalidContentError, InvalidEmailError};
use crate::utils::{
    encode_quoted_printable, quoted_printable, chars_of, email_valid, encode_header, find_char, find_last_char, first_index, header_encoded,
    is_valid_email, last_index, lemma_first_index_of, push_char, texts,
};

verus! {

/// A sender or recipient, with an optional display name.
#[derive(Debug, Clone)]
pub struct User {
    pub email: String,
    pub name: Option<String>,
}

impl User {
    pub fn new(email: String) -> (r: Self)
        ensures
            r.email == email,
            r.name is None,
    {
        User { email, name: None }
    }

    pub fn with_name(email: String, name: String) -> (r: Self)
        ensures
            r.email == email,
            r.name == Some(name),
    {
        User { email, name: Some(name) }
    }
}

/// A file carried by the message: its content is already base64 text. With a
/// `cid` it is shown inline, in the related part; without, it is attached.
#[derive(Debug, Clone)]
pub struct Attachment {
    pub filename: String,
    pub content: String,
    pub mime_type: Option<String>,
    pub cid: Option<String>,
    pub inline: Option<bool>,
}

/// Delivery status notification settings of one message. They are kept with
/// the message but not sent: the MAIL and RCPT commands carry no DSN
/// parameters.
#[derive(Debug, Clone)]
pub struct DsnOverride {
    pub envelope_id: Option<String>,
    pub ret: Option<DsnRet>,
    pub notify: Option<DsnNotify>,
}

/// What a delivery status notification returns of the message.
#[derive(Debug, Clone)]
pub struct DsnRet {
    pub headers: Option<bool>,
    pub full: Option<bool>,
}

/// When a delivery status notification is asked for.
#[derive(Debug, Clone)]
pub struct DsnNotify {
    pub delay: Option<bool>,
    pub failure: Option<bool>,
    pub success: Option<bool>,
}

/// A recipient as given: a bare address, or an address with a name.
#[derive(Debug, Clone)]
pub enum Recipient {
    Email(String),
    User(User),
}

/// What a message is built from. `headers` is an ordered list of header
/// names and values that take the place of the defaults; it is written as
/// given, so a name listed twice is sent twice. `dsn_override` is carried but
/// not sent: delivery status notifications are not supported on the wire.
#[derive(Debug, Clone)]
pub struct EmailOptions {
    pub from: Recipient,
    pub to: Vec<Recipient>,
    pub reply: Option<Recipient>,
    pub cc: Option<Vec<Recipient>>,
    pub bcc: Option<Vec<Recipient>>,
    pub subject: String,
    pub text: Option<String>,
    pub html: Option<String>,
    pub headers: Option<Vec<(String, String)>>,
    pub attachments: Option<Vec<Attachment>>,
    pub dsn_override: Option<DsnOverride>,
}

impl Default for EmailOptions {
    fn default() -> (r: Self)
        ensures
            r.from matches Recipient::Email(e) && e@.len() == 0,
            r.to@.len() == 0,
            r.reply is None,
            r.cc is None,
            r.bcc is None,
            r.subject@.len() == 0,
            r.text is None,
            r.html is None,
            r.headers is None,
            r.attachments is None,
            r.dsn_override is None,
    {
        EmailOptions {
            from: Recipient::Email(String::new()),
            to: Vec::new(),
            reply: None,
            cc: None,
            bcc: None,
            subject: String::new(),
            text: None,
            html: None,
            headers: None,
            attachments: None,
            dsn_override: None,
        }
    }
}

/// Why a message could not be built.
#[derive(Debug)]
pub enum EmailBuildError {
    InvalidContent(InvalidContentError),
    InvalidEmail(InvalidEmailError),
}

/// A validated message, every recipient in address form.
pub struct Email {
    pub from: User,
    pub to: Vec<User>,
    pub reply: Option<User>,
    pub cc: Option<Vec<User>>,
    pub bcc: Option<Vec<User>>,
    pub subject: String,
    pub text: Option<String>,
    pub html: Option<String>,
    pub attachments: Option<Vec<Attachment>>,
    pub dsn_override: Option<DsnOverride>,
    pub headers: Vec<(String, String)>,
}

// ---------------------------------------------------------------------------
// Normalisation and validation
// ---------------------------------------------------------------------------

/// A recipient in address form.
pub open spec fn user_of(r: Recipient) -> User {
    match r {
        Recipient::Email(e) => User { email: e, name: None },
        Recipient::User(u) => u,
    }
}

/// A list of recipients in address form.
pub open spec fn users_of(rs: Seq<Recipient>) -> Seq<User> {
    rs.map_values(|r: Recipient| user_of(r))
}

/// An optional list of recipients in address form.
pub open spec fn opt_users_of(rs: Option<Vec<Recipient>>) -> Option<Seq<User>> {
    match rs {
        Some(v) => Some(users_of(v@)),
        None => None,
    }
}

/// The users of an optional list.
pub open spec fn opt_seq(us: Option<Vec<User>>) -> Option<Seq<User>> {
    match us {
        Some(v) => Some(v@),
        None => None,
    }
}

/// The addresses of a list of users.
pub open spec fn addresses(us: Seq<User>) -> Seq<Seq<char>> {
    us.map_values(|u: User| u.email@)
}

/// The addresses of an optional list of recipients.
pub open spec fn opt_addresses(rs: Option<Vec<Recipient>>) -> Seq<Seq<char>> {
    match rs {
        Some(v) => addresses(users_of(v@)),
        None => seq![],
    }
}

/// Every address a message names: sender, to, reply-to, cc, bcc, in order.
pub open spec fn all_addresses(o: EmailOptions) -> Seq<Seq<char>> {
    seq![user_of(o.from).email@] + addresses(users_of(o.to@)) + match o.reply {
        Some(r) => seq![user_of(r).email@],
        None => seq![],
    } + opt_addresses(o.cc) + opt_addresses(o.bcc)
}

/// The addresses of a list that fail validation, in their order.
pub open spec fn invalid_among(s: Seq<Seq<char>>) -> Seq<Seq<char>>
    decreases s.len(),
{
    if s.len() == 0 {
        seq![]
    } else if email_valid(s.last()) {
        invalid_among(s.drop_last())
    } else {
        invalid_among(s.drop_last()).push(s.last())
    }
}

/// Whether a message has a body.
pub open spec fn has_body(o: EmailOptions) -> bool {
    o.text is Some || o.html is Some
}

/// `parts` joined with `sep` between each two.
pub open spec fn joined(parts: Seq<Seq<char>>, sep: Seq<char>) -> Seq<char>
    decreases parts.len(),
{
    if parts.len() == 0 {
        seq![]
    } else if parts.len() == 1 {
        parts[0]
    } else {
        joined(parts.drop_last(), sep) + sep + parts.last()
    }
}

/// The message of an `InvalidEmail` failure.
pub open spec fn invalid_message(invalid: Seq<Seq<char>>) -> Seq<char> {
    "Invalid email address(es): "@ + joined(invalid, ", "@)
}

/// Joins strings with a separator.
pub fn join_strings(parts: &Vec<String>, sep: &str) -> (r: String)
    ensures
        r@ == joined(texts(parts@), sep@),
{
    let mut out = String::new();
    let mut i: usize = 0;
    while i < parts.len()
        invariant
            i <= parts@.len(),
            out@ == joined(texts(parts@.take(i as int)), sep@),
        decreases parts@.len() - i,
    {
        let ghost before = texts(parts@.take(i as int));
        assert(texts(parts@.take(i as int + 1)) =~= before.push(parts@[i as int]@));
        assert(before.push(parts@[i as int]@).drop_last() =~= before);
        if i > 0 {
            out.append(sep);
        }
        out.append(parts[i].as_str());
        i = i + 1;
    }
    assert(parts@.take(parts@.len() as int) =~= parts@);
    out
}

fn user_from(r: Recipient) -> (u: User)
    ensures
        u == user_of(r),
{
    match r {
        Recipient::Email(e) => User { email: e, name: None },
        Recipient::User(u) => u,
    }
}

fn users_from(rs: Vec<Recipient>) -> (us: Vec<User>)
    ensures
        us@ == users_of(rs@),
{
    let mut out: Vec<User> = Vec::new();
    let ghost all = rs@;
    for r in it: rs
        invariant
            it.seq() == all,
            out@ == users_of(all.take(it.index() as int)),
    {
        let ghost before = out@;
        out.push(user_from(r));
        assert(out@ =~= users_of(all.take(it.index() as int + 1)));
    }
    assert(all.take(all.len() as int) =~= all);
    out
}

fn note_address(email: &String, invalid: &mut Vec<String>, seen: Ghost<Seq<Seq<char>>>)
    requires
        texts(old(invalid)@) == invalid_among(seen@),
    ensures
        texts(final(invalid)@) == invalid_among(seen@.push(email@)),
{
    assert(seen@.push(email@).drop_last() =~= seen@);
    if !is_valid_email(email.as_str()) {
        let ghost before = invalid@;
        let c = email.clone();
        invalid.push(c);
        assert(texts(final(invalid)@) =~= texts(before).push(email@));
    }
}

fn note_addresses(us: &Vec<User>, invalid: &mut Vec<String>, seen: Ghost<Seq<Seq<char>>>)
    requires
        texts(old(invalid)@) == invalid_among(seen@),
    ensures
        texts(final(invalid)@) == invalid_among(seen@ + addresses(us@)),
{
    let mut i: usize = 0;
    while i < us.len()
        invariant
            i <= us@.len(),
            texts(invalid@) == invalid_among(seen@ + addresses(us@.take(i as int))),
        decreases us@.len() - i,
    {
        let ghost s = seen@ + addresses(us@.take(i as int));
        note_address(&us[i].email, invalid, Ghost(s));
        assert(s.push(us@[i as int].email@) =~= seen@ + addresses(us@.take(i as int + 1)));
        i = i + 1;
    }
    assert(us@.take(us@.len() as int) =~= us@);
}

fn note_opt_addresses(us: &Option<Vec<User>>, invalid: &mut Vec<String>, seen: Ghost<Seq<Seq<char>>>)
    requires
        texts(old(invalid)@) == invalid_among(seen@),
    ensures
        texts(final(invalid)@) == invalid_among(
            seen@ + match us {
                Some(v) => addresses(v@),
                None => seq![],
            },
        ),
{
    match us {
        Some(v) => note_addresses(v, invalid, seen),
        None => {
            assert(seen@ + seq![] =~= seen@);
        },
    }
}

impl Email {
    /// Validates the options and builds the message: a body is required, and
    /// every address must be valid; all invalid addresses are reported at once.
    pub fn new(options: EmailOptions) -> (r: Result<Self, EmailBuildError>)
        ensures
            r matches Err(EmailBuildError::InvalidContent(_)) <==> !has_body(options),
            r matches Err(EmailBuildError::InvalidContent(e)) ==> e.0@
                == "At least one of text or html must be provided"@,
            r matches Err(EmailBuildError::InvalidEmail(_)) <==> has_body(options) && invalid_among(
                all_addresses(options),
            ).len() > 0,
            r matches Err(EmailBuildError::InvalidEmail(e)) ==> texts(e.invalid_emails@)
                == invalid_among(all_addresses(options)) && e.message@ == invalid_message(
                invalid_among(all_addresses(options)),
            ),
            r is Ok <==> has_body(options) && invalid_among(all_addresses(options)).len() == 0,
            r matches Ok(m) ==> {
                &&& m.from == user_of(options.from)
                &&& m.to@ == users_of(options.to@)
                &&& m.reply == match options.reply {
                    Some(x) => Some(user_of(x)),
                    None => None,
                }
                &&& opt_seq(m.cc) == opt_users_of(options.cc)
                &&& opt_seq(m.bcc) == opt_users_of(options.bcc)
                &&& m.subject == options.subject
                &&& m.text == options.text
                &&& m.html == options.html
                &&& m.attachments == options.attachments
                &&& m.dsn_override == options.dsn_override
                &&& m.headers@ == match options.headers {
                    Some(h) => h@,
                    None => seq![],
                }
            },
    {
        let ghost o = options;
        if options.text.is_none() && options.html.is_none() {
            let msg = String::from_str("At least one of text or html must be provided");
            return Err(EmailBuildError::InvalidContent(InvalidContentError(msg)));
        }
        let EmailOptions {
            from,
            to,
            reply,
            cc,
            bcc,
            subject,
            text,
            html,
            headers,
            attachments,
            dsn_override,
        } = options;
        let from = user_from(from);
        let to = users_from(to);
        let reply = match reply {
            Some(x) => Some(user_from(x)),
            None => None,
        };
        let cc = match cc {
            Some(v) => Some(users_from(v)),
            None => None,
        };
        let bcc = match bcc {
            Some(v) => Some(users_from(v)),
            None => None,
        };
        let mut invalid: Vec<String> = Vec::new();
        let ghost s0: Seq<Seq<char>> = seq![];
        assert(texts(invalid@) =~= invalid_among(s0));
        note_address(&from.email, &mut invalid, Ghost(s0));
        let ghost s1 = seq![from.email@];
        assert(s0.push(from.email@) =~= s1);
        note_addresses(&to, &mut invalid, Ghost(s1));
        let ghost s2 = s1 + addresses(to@);
        let ghost s3 = s2 + match reply {
            Some(ref u) => seq![u.email@],
            None => seq![],
        };
        match &reply {
            Some(u) => {
                note_address(&u.email, &mut invalid, Ghost(s2));
                assert(s2.push(u.email@) =~= s3);
            },
            None => {
                assert(s2 =~= s3);
            },
        }
        note_opt_addresses(&cc, &mut invalid, Ghost(s3));
        let ghost s4 = s3 + match cc {
            Some(ref v) => addresses(v@),
            None => seq![],
        };
        note_opt_addresses(&bcc, &mut invalid, Ghost(s4));
        assert(all_addresses(o) =~= s4 + match bcc {
            Some(ref v) => addresses(v@),
            None => seq![],
        });
        if invalid.len() > 0 {
            let mut message = String::from_str("Invalid email address(es): ");
            let list = join_strings(&invalid, ", ");
            message.append(list.as_str());
            proof {
                reveal_strlit("Invalid email address(es): ");
            }
            return Err(EmailBuildError::InvalidEmail(InvalidEmailError::new(message, invalid)));
        }
        let headers = match headers {
            Some(h) => h,
            None => Vec::new(),
        };
        Ok(Email {
            from,
            to,
            reply,
            cc,
            bcc,
            subject,
            text,
            html,
            attachments,
            dsn_override,
            headers,
        })
    }
}

// ---------------------------------------------------------------------------
// Dot-stuffing (SMTP transparency)
// ---------------------------------------------------------------------------

/// Whether `s` starts with a line break followed by a dot.
pub open spec fn starts_dot_line(s: Seq<char>) -> bool {
    s.len() >= 3 && s[0] == '\r' && s[1] == '\n' && s[2] == '.'
}

/// Every CRLF that a dot follows gets a second dot.
pub open spec fn stuff_dots(s: Seq<char>) -> Seq<char>
    decreases s.len(),
{
    if s.len() == 0 {
        seq![]
    } else if starts_dot_line(s) {
        seq!['\r', '\n', '.', '.'] + stuff_dots(s.skip(3))
    } else {
        seq![s[0]] + stuff_dots(s.skip(1))
    }
}

/// SMTP dot-stuffing of a document: every line that starts with a dot, the
/// first line included, gets one more dot.
pub open spec fn dot_stuffed(s: Seq<char>) -> Seq<char> {
    let r = stuff_dots(s);
    if r.len() > 0 && r[0] == '.' {
        seq!['.'] + r
    } else {
        r
    }
}

/// Removes the dot that stuffing added after each CRLF.
pub open spec fn unstuff_dots(t: Seq<char>) -> Seq<char>
    decreases t.len(),
{
    if t.len() == 0 {
        seq![]
    } else if t.len() >= 4 && starts_dot_line(t) && t[3] == '.' {
        seq!['\r', '\n', '.'] + unstuff_dots(t.skip(4))
    } else {
        seq![t[0]] + unstuff_dots(t.skip(1))
    }
}

/// Reading a dot-stuffed document back: one dot less on each line that
/// starts with two.
pub open spec fn dot_unstuffed(t: Seq<char>) -> Seq<char> {
    if t.len() >= 2 && t[0] == '.' && t[1] == '.' {
        unstuff_dots(t.skip(1))
    } else {
        unstuff_dots(t)
    }
}

/// Whether no line of `s` starts with a dot.
pub open spec fn no_dot_line(s: Seq<char>) -> bool {
    &&& (s.len() > 0 ==> s[0] != '.')
    &&& forall|i: int| 0 <= i < s.len() ==> !starts_dot_line(#[trigger] s.skip(i))
}

proof fn lemma_stuff_first(s: Seq<char>)
    requires
        s.len() > 0,
    ensures
        stuff_dots(s).len() > 0,
        stuff_dots(s)[0] == s[0],
{
}

proof fn lemma_unstuff_stuff(s: Seq<char>)
    ensures
        unstuff_dots(stuff_dots(s)) == s,
    decreases s.len(),
{
    if s.len() > 0 {
        if starts_dot_line(s) {
            let t = stuff_dots(s);
            lemma_unstuff_stuff(s.skip(3));
            assert(t.skip(4) =~= stuff_dots(s.skip(3)));
            assert(s =~= seq!['\r', '\n', '.'] + s.skip(3));
        } else {
            let rest = s.skip(1);
            let t = stuff_dots(s);
            lemma_unstuff_stuff(rest);
            assert(t.skip(1) =~= stuff_dots(rest));
            if t.len() >= 4 && starts_dot_line(t) && t[3] == '.' {
                lemma_stuff_first(rest);
                let rest2 = rest.skip(1);
                assert(stuff_dots(rest) =~= seq![rest[0]] + stuff_dots(rest2));
                lemma_stuff_first(rest2);
                assert(false);
            }
            assert(s =~= seq![s[0]] + rest);
        }
    }
}

proof fn lemma_stuff_identity(s: Seq<char>)
    requires
        forall|i: int| 0 <= i < s.len() ==> !starts_dot_line(#[trigger] s.skip(i)),
    ensures
        stuff_dots(s) == s,
    decreases s.len(),
{
    if s.len() > 0 {
        assert(s.skip(0) =~= s);
        let rest = s.skip(1);
        assert forall|i: int| 0 <= i < rest.len() implies !starts_dot_line(#[trigger] rest.skip(i)) by {
            assert(rest.skip(i) =~= s.skip(i + 1));
        }
        lemma_stuff_identity(rest);
        assert(s =~= seq![s[0]] + rest);
    }
}

/// Dot-stuffing leaves a document with no line starting with a dot as it is.
pub proof fn lemma_dot_stuffing_keeps_plain(s: Seq<char>)
    requires
        no_dot_line(s),
    ensures
        dot_stuffed(s) == s,
{
    lemma_stuff_identity(s);
}

/// Dot-stuffing adds exactly one dot to each line that starts with a dot:
/// taking one off each such line gives the document back.
pub proof fn lemma_dot_stuffing_round_trip(s: Seq<char>)
    ensures
        dot_unstuffed(dot_stuffed(s)) == s,
{
    lemma_unstuff_stuff(s);
    let r = stuff_dots(s);
    if r.len() > 0 && r[0] == '.' {
        assert((seq!['.'] + r).skip(1) =~= r);
    } else if r.len() >= 2 && r[0] == '.' {
    } else if s.len() > 0 {
        lemma_stuff_first(s);
    }
}

/// Applies SMTP dot-stuffing to a document.
pub fn apply_dot_stuffing(data: &str) -> (r: String)
    ensures
        r@ == dot_stuffed(data@),
{
    let c = chars_of(data);
    let n = c.len();
    let mut out = String::new();
    let mut i: usize = 0;
    assert(c@.skip(0) =~= c@);
    assert(out@ + stuff_dots(c@.skip(0)) =~= stuff_dots(c@));
    while i < n
        invariant
            n == c@.len(),
            c@ == data@,
            i <= n,
            out@ + stuff_dots(c@.skip(i as int)) == stuff_dots(c@),
        decreases n - i,
    {
        let ghost rest = c@.skip(i as int);
        if n - i > 2 && c[i] == '\r' && c[i + 1] == '\n' && c[i + 2] == '.' {
            assert(starts_dot_line(rest));
            assert(rest.skip(3) =~= c@.skip(i + 3));
            out.append("\r\n..");
            proof {
                reveal_strlit("\r\n..");
                assert(out@ + stuff_dots(c@.skip(i + 3)) =~= stuff_dots(c@));
            }
            i = i + 3;
        } else {
            assert(!starts_dot_line(rest));
            assert(rest.skip(1) =~= c@.skip(i + 1));
            push_char(&mut out, c[i]);
            assert(out@ + stuff_dots(c@.skip(i + 1)) =~= stuff_dots(c@));
            i = i + 1;
        }
    }
    assert(c@.skip(n as int) =~= seq![]);
    assert(out@ =~= stuff_dots(data@));
    if n > 0 && c[0] == '.' {
        let mut lead = String::new();
        push_char(&mut lead, '.');
        lead.append(out.as_str());
        proof {
            assert(c@.skip(0) =~= c@);
            lemma_stuff_first(c@);
        }
        return lead;
    }
    proof {
        if n > 0 {
            assert(c@.skip(0) =~= c@);
            lemma_stuff_first(c@);
        }
    }
    out
}

// ---------------------------------------------------------------------------
// Trusted calls made while rendering
// ---------------------------------------------------------------------------

/// What `str::to_lowercase` gives for a text.
pub uninterp spec fn lower_of(s: Seq<char>) -> Seq<char>;

/// Relies on str::to_lowercase: the lower-case form depends on the characters
/// alone.
#[verifier::external_body]
fn lowercase(s: &str) -> (r: String)
    ensures
        r@ == lower_of(s@),
{
    s.to_lowercase()
}

/// Relies on getrandom::getrandom: fills the buffer from the system's secure
/// random source, and reports whether it could; the length stays.
#[verifier::external_body]
fn fill_random(buf: &mut Vec<u8>) -> (ok: bool)
    ensures
        final(buf)@.len() == old(buf)@.len(),
{
    getrandom::getrandom(buf.as_mut_slice()).is_ok()
}

/// The text of the version-4 UUID that uuid builds from 16 random bytes.
pub uninterp spec fn uuid_text_of(random: Seq<u8>) -> Seq<char>;

/// Relies on uuid::Builder::from_random_bytes, Builder::into_uuid and the
/// `Display` of Uuid: the hyphenated text of the version-4 UUID made from the
/// 16 bytes. `copy_from_slice` needs exactly 16 bytes.
#[verifier::external_body]
fn uuid_text(random: &Vec<u8>) -> (r: String)
    requires
        random@.len() == 16,
    ensures
        r@ == uuid_text_of(random@),
{
    let mut bytes = [0u8; 16];
    bytes.copy_from_slice(random.as_slice());
    uuid::Builder::from_random_bytes(bytes).into_uuid().to_string()
}

/// Relies on worker::Date::now and its `Display`: the current time as text.
#[verifier::external_body]
fn now_text() -> (r: String) {
    worker::Date::now().to_string()
}

// ---------------------------------------------------------------------------
// Header resolution
// ---------------------------------------------------------------------------

/// A user as a header shows it: `"name" <address>` with the name encoded, or
/// the bare address.
pub open spec fn display_user(u: User) -> Seq<char> {
    match u.name {
        Some(n) => "\""@ + header_encoded(n@) + "\" <"@ + u.email@ + ">"@,
        None => u.email@,
    }
}

/// The header forms of a list of users.
pub open spec fn displays(us: Seq<User>) -> Seq<Seq<char>> {
    us.map_values(|u: User| display_user(u))
}

/// A list of users as one header value.
pub open spec fn display_list(us: Seq<User>) -> Seq<char> {
    joined(displays(us), ", "@)
}

/// The texts of a list of header names and values.
pub open spec fn pair_views(h: Seq<(String, String)>) -> Seq<(Seq<char>, Seq<char>)> {
    h.map_values(|p: (String, String)| (p.0@, p.1@))
}

/// Whether a header of that name is present.
pub open spec fn has_key(h: Seq<(Seq<char>, Seq<char>)>, k: Seq<char>) -> bool {
    exists|i: int| 0 <= i < h.len() && #[trigger] h[i].0 == k
}

/// The headers with `k: v` added at the end unless `k` is present.
pub open spec fn with_default(h: Seq<(Seq<char>, Seq<char>)>, k: Seq<char>, v: Seq<char>) -> Seq<
    (Seq<char>, Seq<char>),
> {
    if has_key(h, k) {
        h
    } else {
        h.push((k, v))
    }
}

/// The domain of the sender for a message identifier: the text after the
/// first `@` up to the next one, or `local` when there is no `@`.
pub open spec fn sender_domain(email: Seq<char>) -> Seq<char> {
    let k = first_index(email, '@');
    if k < email.len() {
        let rest = email.skip(k + 1);
        rest.take(first_index(rest, '@'))
    } else {
        "local"@
    }
}

/// The headers after defaults are filled in, in this order: From, To,
/// Subject, Reply-To, Cc, Bcc, Date, Message-ID; a name already present keeps
/// its value.
pub open spec fn resolved_headers(e: Email, date: Seq<char>, id: Seq<char>) -> Seq<
    (Seq<char>, Seq<char>),
> {
    let h1 = with_default(pair_views(e.headers@), "From"@, display_user(e.from));
    let h2 = with_default(h1, "To"@, display_list(e.to@));
    let h3 = with_default(h2, "Subject"@, header_encoded(e.subject@));
    let h4 = match e.reply {
        Some(r) => with_default(h3, "Reply-To"@, display_user(r)),
        None => h3,
    };
    let h5 = match e.cc {
        Some(v) => if v@.len() > 0 {
            with_default(h4, "Cc"@, display_list(v@))
        } else {
            h4
        },
        None => h4,
    };
    let h6 = match e.bcc {
        Some(v) => if v@.len() > 0 {
            with_default(h5, "Bcc"@, display_list(v@))
        } else {
            h5
        },
        None => h5,
    };
    let h7 = with_default(h6, "Date"@, date);
    with_default(h7, "Message-ID"@, "<"@ + id + "@"@ + sender_domain(e.from.email@) + ">"@)
}

fn display(u: &User) -> (r: String)
    ensures
        r@ == display_user(*u),
{
    match &u.name {
        Some(n) => {
            let mut out = String::from_str("\"");
            let enc = encode_header(n.as_str());
            out.append(enc.as_str());
            out.append("\" <");
            out.append(u.email.as_str());
            out.append(">");
            out
        },
        None => u.email.clone(),
    }
}

fn display_all(us: &Vec<User>) -> (r: String)
    ensures
        r@ == display_list(us@),
{
    let mut parts: Vec<String> = Vec::new();
    let mut i: usize = 0;
    while i < us.len()
        invariant
            i <= us@.len(),
            texts(parts@) == displays(us@.take(i as int)),
        decreases us@.len() - i,
    {
        let ghost before = parts@;
        let d = display(&us[i]);
        parts.push(d);
        assert(texts(parts@) =~= texts(before).push(d@));
        assert(displays(us@.take(i as int + 1)) =~= displays(us@.take(i as int)).push(
            display_user(us@[i as int]),
        ));
        i = i + 1;
    }
    assert(us@.take(us@.len() as int) =~= us@);
    join_strings(&parts, ", ")
}

fn has_header(h: &Vec<(String, String)>, key: &str) -> (r: bool)
    ensures
        r == has_key(pair_views(h@), key@),
{
    let k = String::from_str(key);
    let mut i: usize = 0;
    while i < h.len()
        invariant
            i <= h@.len(),
            k@ == key@,
            forall|j: int| 0 <= j < i ==> (#[trigger] h@[j]).0@ != key@,
        decreases h@.len() - i,
    {
        if h[i].0 == k {
            assert(pair_views(h@)[i as int].0 == key@);
            return true;
        }
        i = i + 1;
    }
    assert forall|j: int| 0 <= j < pair_views(h@).len() implies #[trigger] pair_views(h@)[j].0
        != key@ by {
        assert(pair_views(h@)[j].0 == h@[j].0@);
    }
    false
}

fn push_header(h: &mut Vec<(String, String)>, key: &str, value: String)
    ensures
        pair_views(final(h)@) == pair_views(old(h)@).push((key@, value@)),
{
    let k = String::from_str(key);
    h.push((k, value));
    assert(pair_views(final(h)@) =~= pair_views(old(h)@).push((key@, value@)));
}

fn message_id(from: &str, id: &str) -> (r: String)
    ensures
        r@ == "<"@ + id@ + "@"@ + sender_domain(from@) + ">"@,
{
    let mut out = String::from_str("<");
    out.append(id);
    out.append("@");
    let n = from.unicode_len();
    let k = find_char(from, '@', 0);
    proof {
        lemma_first_index_of(from@, '@', k as int);
    }
    if k < n {
        let rest = from.substring_char(k + 1, n);
        let m = find_char(rest, '@', 0);
        proof {
            lemma_first_index_of(rest@, '@', m as int);
        }
        let domain = rest.substring_char(0, m);
        assert(rest@ =~= from@.skip(k + 1));
        assert(domain@ =~= rest@.take(m as int));
        out.append(domain);
    } else {
        out.append("local");
    }
    out.append(">");
    out
}

impl Email {
    /// Fills in the default headers that the caller did not set, in the
    /// order From, To, Subject, Reply-To, Cc, Bcc, Date, Message-ID. The
    /// date and the identifier are given as text.
    pub fn resolve_headers(&mut self, date: &str, message_uuid: &str)
        ensures
            pair_views(final(self).headers@) == resolved_headers(*old(self), date@, message_uuid@),
            final(self).from == old(self).from,
            final(self).to == old(self).to,
            final(self).reply == old(self).reply,
            final(self).cc == old(self).cc,
            final(self).bcc == old(self).bcc,
            final(self).subject == old(self).subject,
            final(self).text == old(self).text,
            final(self).html == old(self).html,
            final(self).attachments == old(self).attachments,
            final(self).dsn_override == old(self).dsn_override,
    {
        if !has_header(&self.headers, "From") {
            let v = display(&self.from);
            push_header(&mut self.headers, "From", v);
        }
        if !has_header(&self.headers, "To") {
            let v = display_all(&self.to);
            push_header(&mut self.headers, "To", v);
        }
        if !has_header(&self.headers, "Subject") {
            let v = encode_header(self.subject.as_str());
            push_header(&mut self.headers, "Subject", v);
        }
        if let Some(r) = &self.reply {
            if !has_header(&self.headers, "Reply-To") {
                let v = display(r);
                push_header(&mut self.headers, "Reply-To", v);
            }
        }
        if let Some(cc) = &self.cc {
            if cc.len() > 0 && !has_header(&self.headers, "Cc") {
                let v = display_all(cc);
                push_header(&mut self.headers, "Cc", v);
            }
        }
        if let Some(bcc) = &self.bcc {
            if bcc.len() > 0 && !has_header(&self.headers, "Bcc") {
                let v = display_all(bcc);
                push_header(&mut self.headers, "Bcc", v);
            }
        }
        if !has_header(&self.headers, "Date") {
            push_header(&mut self.headers, "Date", String::from_str(date));
        }
        if !has_header(&self.headers, "Message-ID") {
            let v = message_id(self.from.email.as_str(), message_uuid);
            push_header(&mut self.headers, "Message-ID", v);
        }
    }
}

// ---------------------------------------------------------------------------
// Boundaries and content types
// ---------------------------------------------------------------------------

/// The lower-case hexadecimal digit of a nibble.
pub open spec fn hex_lower(n: u8) -> char {
    if n < 10 {
        (n + 48) as char
    } else {
        (n + 87) as char
    }
}

/// Bytes as lower-case hexadecimal, two digits each.
pub open spec fn hex_of(b: Seq<u8>) -> Seq<char>
    decreases b.len(),
{
    if b.len() == 0 {
        seq![]
    } else {
        hex_of(b.drop_last()) + seq![hex_lower(b.last() / 16), hex_lower(b.last() % 16)]
    }
}

/// A character as a boundary may hold it: those that MIME forbids there
/// become `_`.
pub open spec fn boundary_char(c: char) -> char {
    if c == '<' || c == '>' || c == '@' || c == ',' || c == ';' || c == ':' || c == '\\' || c
        == '/' || c == '[' || c == ']' || c == '?' || c == '=' || c == '"' || c == ' ' {
        '_'
    } else {
        c
    }
}

/// The boundary made of a part-kind prefix and random bytes.
pub open spec fn boundary_of(prefix: Seq<char>, random: Seq<u8>) -> Seq<char> {
    (prefix + hex_of(random)).map_values(|c: char| boundary_char(c))
}

fn hex_lower_of(n: u8) -> (c: char)
    requires
        n < 16,
    ensures
        c == hex_lower(n),
{
    if n < 10 {
        (n + 48) as char
    } else {
        (n + 87) as char
    }
}

/// The boundary for a part kind, from the given random bytes.
pub fn safe_boundary(prefix: &str, random: &Vec<u8>) -> (r: String)
    ensures
        r@ == boundary_of(prefix@, random@),
{
    let mut raw = String::from_str(prefix);
    let mut i: usize = 0;
    while i < random.len()
        invariant
            i <= random@.len(),
            raw@ == prefix@ + hex_of(random@.take(i as int)),
        decreases random@.len() - i,
    {
        let b = random[i];
        push_char(&mut raw, hex_lower_of(b / 16));
        push_char(&mut raw, hex_lower_of(b % 16));
        assert(random@.take(i as int + 1).drop_last() =~= random@.take(i as int));
        assert(raw@ =~= prefix@ + hex_of(random@.take(i as int + 1)));
        i = i + 1;
    }
    assert(random@.take(random@.len() as int) =~= random@);
    let c = chars_of(raw.as_str());
    let mut out = String::new();
    let mut j: usize = 0;
    while j < c.len()
        invariant
            j <= c@.len(),
            c@ == prefix@ + hex_of(random@),
            out@ == c@.take(j as int).map_values(|x: char| boundary_char(x)),
        decreases c@.len() - j,
    {
        let x = c[j];
        let y = if x == '<' || x == '>' || x == '@' || x == ',' || x == ';' || x == ':' || x
            == '\\' || x == '/' || x == '[' || x == ']' || x == '?' || x == '=' || x == '"' || x
            == ' ' {
            '_'
        } else {
            x
        };
        push_char(&mut out, y);
        assert(out@ =~= c@.take(j as int + 1).map_values(|x: char| boundary_char(x)));
        j = j + 1;
    }
    assert(c@.take(c@.len() as int) =~= c@);
    out
}

/// A fresh boundary for a part kind: the prefix and 28 random bytes.
fn generate_safe_boundary(prefix: &str) -> (r: String)
    ensures
        exists|b: Seq<u8>| b.len() == 28 && r@ == boundary_of(prefix@, b),
{
    let mut bytes: Vec<u8> = vec![0u8; 28];
    let _ = fill_random(&mut bytes);
    safe_boundary(prefix, &bytes)
}

/// The three boundaries of one document, for the mixed, related and
/// alternative parts, differ whatever the random bytes.
pub proof fn lemma_boundaries_distinct(m: Seq<u8>, r: Seq<u8>, a: Seq<u8>)
    ensures
        boundary_of("mixed_"@, m) != boundary_of("related_"@, r),
        boundary_of("mixed_"@, m) != boundary_of("alternative_"@, a),
        boundary_of("related_"@, r) != boundary_of("alternative_"@, a),
{
    reveal_strlit("mixed_");
    reveal_strlit("related_");
    reveal_strlit("alternative_");
    assert(boundary_of("mixed_"@, m)[0] == 'm');
    assert(boundary_of("related_"@, r)[0] == 'r');
    assert(boundary_of("alternative_"@, a)[0] == 'a');
}

/// The extension of a file name: what follows its last dot (empty when the
/// name has no dot).
pub open spec fn extension(f: Seq<char>) -> Seq<char> {
    if last_index(f, '.') >= 0 {
        f.skip(last_index(f, '.') + 1)
    } else {
        seq![]
    }
}

/// The content type inferred for a file name: from its lower-case extension,
/// or `application/octet-stream` when the name has no dot.
pub open spec fn mime_type_of(f: Seq<char>) -> Seq<char> {
    if last_index(f, '.') >= 0 {
        mime_for(lower_of(extension(f)))
    } else {
        "application/octet-stream"@
    }
}

/// The content type known for a lower-case extension.
pub open spec fn mime_for(ext: Seq<char>) -> Seq<char> {
    if ext == "txt"@ {
        "text/plain"@
    } else if ext == "html"@ {
        "text/html"@
    } else if ext == "csv"@ {
        "text/csv"@
    } else if ext == "pdf"@ {
        "application/pdf"@
    } else if ext == "png"@ {
        "image/png"@
    } else if ext == "jpg"@ || ext == "jpeg"@ {
        "image/jpeg"@
    } else if ext == "gif"@ {
        "image/gif"@
    } else if ext == "zip"@ {
        "application/zip"@
    } else {
        "application/octet-stream"@
    }
}

/// The content type inferred from a file name's extension.
pub fn get_mime_type(filename: &str) -> (r: &'static str)
    ensures
        r@ == mime_type_of(filename@),
{
    let n = filename.unicode_len();
    let ext = match find_last_char(filename, '.') {
        Some(j) => filename.substring_char(j + 1, n),
        None => return "application/octet-stream",
    };
    assert(ext@ =~= extension(filename@));
    let e = lowercase(ext);
    if e == String::from_str("txt") {
        "text/plain"
    } else if e == String::from_str("html") {
        "text/html"
    } else if e == String::from_str("csv") {
        "text/csv"
    } else if e == String::from_str("pdf") {
        "application/pdf"
    } else if e == String::from_str("png") {
        "image/png"
    } else if e == String::from_str("jpg") || e == String::from_str("jpeg") {
        "image/jpeg"
    } else if e == String::from_str("gif") {
        "image/gif"
    } else if e == String::from_str("zip") {
        "application/zip"
    } else {
        "application/octet-stream"
    }
}

// ---------------------------------------------------------------------------
// The MIME document
// ---------------------------------------------------------------------------

/// The header lines after the first, each led by CRLF.
pub open spec fn header_block(h: Seq<(Seq<char>, Seq<char>)>) -> Seq<char>
    decreases h.len(),
{
    if h.len() == 0 {
        seq![]
    } else {
        header_block(h.drop_last()) + "\r\n"@ + h.last().0 + ": "@ + h.last().1
    }
}

/// Text cut into lines of `w` characters, each ended by CRLF.
pub open spec fn wrapped(s: Seq<char>, w: int) -> Seq<char>
    decreases s.len(),
{
    if s.len() == 0 || w <= 0 {
        seq![]
    } else if s.len() <= w {
        s + "\r\n"@
    } else {
        s.take(w) + "\r\n"@ + wrapped(s.skip(w), w)
    }
}

/// The delimiter line that opens a part.
pub open spec fn open_part(b: Seq<char>) -> Seq<char> {
    "--"@ + b + "\r\n"@
}

/// The delimiter line that closes a multipart body.
pub open spec fn close_part(b: Seq<char>) -> Seq<char> {
    "--"@ + b + "--\r\n"@
}

/// The text/plain part of the alternative body, if there is a text.
pub open spec fn text_part(text: Option<String>, alt: Seq<char>) -> Seq<char> {
    match text {
        Some(t) => open_part(alt) + "Content-Type: text/plain; charset=\"UTF-8\"\r\n"@
            + "Content-Transfer-Encoding: quoted-printable\r\n\r\n"@ + quoted_printable(
            encode_utf8(t@),
            76,
        ) + "\r\n\r\n"@,
        None => seq![],
    }
}

/// The text/html part of the alternative body, if there is an HTML text.
pub open spec fn html_part(html: Option<String>, alt: Seq<char>) -> Seq<char> {
    match html {
        Some(t) => open_part(alt) + "Content-Type: text/html; charset=\"UTF-8\"\r\n"@
            + "Content-Transfer-Encoding: quoted-printable\r\n\r\n"@ + quoted_printable(
            encode_utf8(t@),
            76,
        ) + "\r\n\r\n"@,
        None => seq![],
    }
}

/// The content type of an attachment: the one given, else the inferred one.
pub open spec fn attachment_type(a: Attachment) -> Seq<char> {
    match a.mime_type {
        Some(m) => m@,
        None => mime_type_of(a.filename@),
    }
}

/// The content identifier of an inline attachment.
pub open spec fn cid_text(a: Attachment) -> Seq<char> {
    match a.cid {
        Some(c) => c@,
        None => seq![],
    }
}

/// An inline attachment as a part of the related body.
pub open spec fn inline_part(a: Attachment, related: Seq<char>) -> Seq<char> {
    open_part(related) + "Content-Type: "@ + attachment_type(a) + "; name=\""@ + a.filename@
        + "\"\r\n"@ + "Content-Transfer-Encoding: base64\r\n"@ + "Content-ID: <"@ + cid_text(a)
        + ">\r\n"@ + "Content-Disposition: inline; filename=\""@ + a.filename@ + "\"\r\n\r\n"@
        + wrapped(a.content@, 72) + "\r\n"@
}

/// A regular attachment as a part of the mixed body.
pub open spec fn regular_part(a: Attachment, mixed: Seq<char>, date: Seq<char>) -> Seq<char> {
    open_part(mixed) + "Content-Type: "@ + attachment_type(a) + "; name=\""@ + a.filename@
        + "\"\r\n"@ + "Content-Description: "@ + a.filename@ + "\r\n"@
        + "Content-Disposition: attachment; filename=\""@ + a.filename@ + "\";\r\n"@
        + "    creation-date=\""@ + date + "\";\r\n"@
        + "Content-Transfer-Encoding: base64\r\n\r\n"@ + wrapped(a.content@, 72) + "\r\n"@
}

/// The parts of the attachments that have a content identifier, in order.
pub open spec fn inline_parts(atts: Seq<Attachment>, related: Seq<char>) -> Seq<char>
    decreases atts.len(),
{
    if atts.len() == 0 {
        seq![]
    } else if atts.last().cid is Some {
        inline_parts(atts.drop_last(), related) + inline_part(atts.last(), related)
    } else {
        inline_parts(atts.drop_last(), related)
    }
}

/// The parts of the attachments that have no content identifier, in order.
pub open spec fn regular_parts(atts: Seq<Attachment>, mixed: Seq<char>, date: Seq<char>) -> Seq<
    char,
>
    decreases atts.len(),
{
    if atts.len() == 0 {
        seq![]
    } else if atts.last().cid is None {
        regular_parts(atts.drop_last(), mixed, date) + regular_part(atts.last(), mixed, date)
    } else {
        regular_parts(atts.drop_last(), mixed, date)
    }
}

/// Whether some attachment is inline.
pub open spec fn has_inline(atts: Seq<Attachment>) -> bool {
    exists|i: int| 0 <= i < atts.len() && (#[trigger] atts[i]).cid is Some
}

/// The attachments of a message.
pub open spec fn attachments_of(e: Email) -> Seq<Attachment> {
    match e.attachments {
        Some(v) => v@,
        None => seq![],
    }
}

/// The MIME document of a message whose headers are `h`, before dot-stuffing:
/// headers, then the mixed body holding the (related-wrapped) alternative
/// body, inline parts, and regular attachments.
pub open spec fn document(
    e: Email,
    h: Seq<(Seq<char>, Seq<char>)>,
    mixed: Seq<char>,
    related: Seq<char>,
    alt: Seq<char>,
    date: Seq<char>,
) -> Seq<char> {
    let atts = attachments_of(e);
    let inl = has_inline(atts);
    "MIME-Version: 1.0"@ + header_block(h) + "\r\nContent-Type: multipart/mixed; boundary=\""@
        + mixed + "\""@ + "\r\n\r\n"@ + open_part(mixed) + (if inl {
        "Content-Type: multipart/related; boundary=\""@ + related + "\"\r\n\r\n"@ + open_part(
            related,
        )
    } else {
        seq![]
    }) + "Content-Type: multipart/alternative; boundary=\""@ + alt + "\"\r\n\r\n"@ + text_part(
        e.text,
        alt,
    ) + html_part(e.html, alt) + close_part(alt) + inline_parts(atts, related) + (if inl {
        close_part(related)
    } else {
        seq![]
    }) + regular_parts(atts, mixed, date) + close_part(mixed)
}

/// What is sent after DATA: the document of the message with its headers
/// resolved, dot-stuffed, then the line holding only a dot.
pub open spec fn email_data(
    e: Email,
    date: Seq<char>,
    id: Seq<char>,
    mixed: Seq<char>,
    related: Seq<char>,
    alt: Seq<char>,
) -> Seq<char> {
    dot_stuffed(document(e, resolved_headers(e, date, id), mixed, related, alt, date))
        + "\r\n.\r\n"@
}

fn push_wrapped(out: &mut String, content: &str, width: usize)
    requires
        width > 0,
    ensures
        final(out)@ == old(out)@ + wrapped(content@, width as int),
{
    let c = chars_of(content);
    let n = c.len();
    let mut i: usize = 0;
    assert(c@.skip(0) =~= c@);
    while i < n
        invariant
            width > 0,
            n == c@.len(),
            c@ == content@,
            i <= n,
            out@ + wrapped(c@.skip(i as int), width as int) == old(out)@ + wrapped(
                content@,
                width as int,
            ),
        decreases n - i,
    {
        let ghost base = out@;
        let ghost rest = c@.skip(i as int);
        let end: usize = if n - i <= width { n } else { i + width };
        let mut j: usize = i;
        while j < end
            invariant
                i <= j <= end,
                end <= n,
                n == c@.len(),
                out@ == base + c@.subrange(i as int, j as int),
            decreases end - j,
        {
            push_char(out, c[j]);
            assert(out@ =~= base + c@.subrange(i as int, j + 1));
            j = j + 1;
        }
        out.append("\r\n");
        proof {
            if n - i <= width {
                assert(c@.subrange(i as int, end as int) =~= rest);
                assert(c@.skip(end as int) =~= seq![]);
                assert(out@ + wrapped(c@.skip(end as int), width as int) =~= base + wrapped(
                    rest,
                    width as int,
                ));
            } else {
                assert(c@.subrange(i as int, end as int) =~= rest.take(width as int));
                assert(c@.skip(end as int) =~= rest.skip(width as int));
                assert(out@ + wrapped(c@.skip(end as int), width as int) =~= base + wrapped(
                    rest,
                    width as int,
                ));
            }
        }
        i = end;
    }
    assert(c@.skip(n as int) =~= seq![]);
}

fn push_open(out: &mut String, b: &str)
    ensures
        final(out)@ == old(out)@ + open_part(b@),
{
    out.append("--");
    out.append(b);
    out.append("\r\n");
    assert(final(out)@ =~= old(out)@ + open_part(b@));
}

fn push_close(out: &mut String, b: &str)
    ensures
        final(out)@ == old(out)@ + close_part(b@),
{
    out.append("--");
    out.append(b);
    out.append("--\r\n");
    assert(final(out)@ =~= old(out)@ + close_part(b@));
}

fn push_text_part(out: &mut String, text: &Option<String>, html: bool, alt: &str)
    ensures
        final(out)@ == old(out)@ + if html {
            html_part(*text, alt@)
        } else {
            text_part(*text, alt@)
        },
{
    if let Some(t) = text {
        push_open(out, alt);
        if html {
            out.append("Content-Type: text/html; charset=\"UTF-8\"\r\n");
        } else {
            out.append("Content-Type: text/plain; charset=\"UTF-8\"\r\n");
        }
        out.append("Content-Transfer-Encoding: quoted-printable\r\n\r\n");
        let q = encode_quoted_printable(t.as_str(), 76);
        out.append(q.as_str());
        out.append("\r\n\r\n");
        assert(final(out)@ =~= old(out)@ + if html {
            html_part(*text, alt@)
        } else {
            text_part(*text, alt@)
        });
    } else {
        assert(final(out)@ =~= old(out)@ + seq![]);
    }
}

fn attachment_mime(a: &Attachment) -> (r: String)
    ensures
        r@ == attachment_type(*a),
{
    match &a.mime_type {
        Some(m) => m.clone(),
        None => String::from_str(get_mime_type(a.filename.as_str())),
    }
}

fn push_inline_part(out: &mut String, a: &Attachment, related: &str)
    ensures
        final(out)@ == old(out)@ + inline_part(*a, related@),
{
    let mime = attachment_mime(a);
    push_open(out, related);
    out.append("Content-Type: ");
    out.append(mime.as_str());
    out.append("; name=\"");
    out.append(a.filename.as_str());
    out.append("\"\r\n");
    out.append("Content-Transfer-Encoding: base64\r\n");
    out.append("Content-ID: <");
    match &a.cid {
        Some(c) => out.append(c.as_str()),
        None => {},
    }
    out.append(">\r\n");
    out.append("Content-Disposition: inline; filename=\"");
    out.append(a.filename.as_str());
    out.append("\"\r\n\r\n");
    push_wrapped(out, a.content.as_str(), 72);
    out.append("\r\n");
    assert(final(out)@ =~= old(out)@ + inline_part(*a, related@));
}

fn push_regular_part(out: &mut String, a: &Attachment, mixed: &str, date: &str)
    ensures
        final(out)@ == old(out)@ + regular_part(*a, mixed@, date@),
{
    let mime = attachment_mime(a);
    push_open(out, mixed);
    out.append("Content-Type: ");
    out.append(mime.as_str());
    out.append("; name=\"");
    out.append(a.filename.as_str());
    out.append("\"\r\n");
    out.append("Content-Description: ");
    out.append(a.filename.as_str());
    out.append("\r\n");
    out.append("Content-Disposition: attachment; filename=\"");
    out.append(a.filename.as_str());
    out.append("\";\r\n");
    out.append("    creation-date=\"");
    out.append(date);
    out.append("\";\r\n");
    out.append("Content-Transfer-Encoding: base64\r\n\r\n");
    push_wrapped(out, a.content.as_str(), 72);
    out.append("\r\n");
    assert(final(out)@ =~= old(out)@ + regular_part(*a, mixed@, date@));
}

fn push_attachment_parts(
    out: &mut String,
    atts: &Vec<Attachment>,
    inline: bool,
    boundary: &str,
    date: &str,
)
    ensures
        final(out)@ == old(out)@ + if inline {
            inline_parts(atts@, boundary@)
        } else {
            regular_parts(atts@, boundary@, date@)
        },
{
    let mut i: usize = 0;
    while i < atts.len()
        invariant
            i <= atts@.len(),
            out@ == old(out)@ + if inline {
                inline_parts(atts@.take(i as int), boundary@)
            } else {
                regular_parts(atts@.take(i as int), boundary@, date@)
            },
        decreases atts@.len() - i,
    {
        let ghost before = out@;
        let a = &atts[i];
        assert(atts@.take(i as int + 1).drop_last() =~= atts@.take(i as int));
        assert(atts@.take(i as int + 1).last() == atts@[i as int]);
        if inline && a.cid.is_some() {
            push_inline_part(out, a, boundary);
            assert(out@ =~= old(out)@ + inline_parts(atts@.take(i as int + 1), boundary@));
        } else if !inline && a.cid.is_none() {
            push_regular_part(out, a, boundary, date);
            assert(out@ =~= old(out)@ + regular_parts(atts@.take(i as int + 1), boundary@, date@));
        }
        i = i + 1;
    }
    assert(atts@.take(atts@.len() as int) =~= atts@);
}

fn any_inline(atts: &Vec<Attachment>) -> (r: bool)
    ensures
        r == has_inline(atts@),
{
    let mut i: usize = 0;
    while i < atts.len()
        invariant
            i <= atts@.len(),
            forall|j: int| 0 <= j < i ==> (#[trigger] atts@[j]).cid is None,
        decreases atts@.len() - i,
    {
        if atts[i].cid.is_some() {
            return true;
        }
        i = i + 1;
    }
    false
}

fn push_header_block(out: &mut String, h: &Vec<(String, String)>)
    ensures
        final(out)@ == old(out)@ + header_block(pair_views(h@)),
{
    let mut i: usize = 0;
    while i < h.len()
        invariant
            i <= h@.len(),
            out@ == old(out)@ + header_block(pair_views(h@.take(i as int))),
        decreases h@.len() - i,
    {
        out.append("\r\n");
        out.append(h[i].0.as_str());
        out.append(": ");
        out.append(h[i].1.as_str());
        assert(pair_views(h@.take(i as int + 1)) =~= pair_views(h@.take(i as int)).push(
            (h@[i as int].0@, h@[i as int].1@),
        ));
        assert(pair_views(h@.take(i as int + 1)).drop_last() =~= pair_views(h@.take(i as int)));
        assert(out@ =~= old(out)@ + header_block(pair_views(h@.take(i as int + 1))));
        i = i + 1;
    }
    assert(h@.take(h@.len() as int) =~= h@);
}

impl Email {
    /// The MIME document of the message as it stands, before dot-stuffing,
    /// with the given boundaries and attachment date.
    pub fn mime_document(&self, mixed: &str, related: &str, alt: &str, date: &str) -> (r: String)
        ensures
            r@ == document(*self, pair_views(self.headers@), mixed@, related@, alt@, date@),
    {
        let empty: Vec<Attachment> = Vec::new();
        let atts = match &self.attachments {
            Some(v) => v,
            None => &empty,
        };
        assert(atts@ == attachments_of(*self));
        let inl = any_inline(atts);
        let mut out = String::from_str("MIME-Version: 1.0");
        push_header_block(&mut out, &self.headers);
        out.append("\r\nContent-Type: multipart/mixed; boundary=\"");
        out.append(mixed);
        out.append("\"");
        out.append("\r\n\r\n");
        push_open(&mut out, mixed);
        let ghost p1 = out@;
        if inl {
            out.append("Content-Type: multipart/related; boundary=\"");
            out.append(related);
            out.append("\"\r\n\r\n");
            push_open(&mut out, related);
        }
        let ghost p2 = out@;
        out.append("Content-Type: multipart/alternative; boundary=\"");
        out.append(alt);
        out.append("\"\r\n\r\n");
        push_text_part(&mut out, &self.text, false, alt);
        push_text_part(&mut out, &self.html, true, alt);
        push_close(&mut out, alt);
        let ghost p3 = out@;
        push_attachment_parts(&mut out, atts, true, related, date);
        if inl {
            push_close(&mut out, related);
        }
        let ghost p4 = out@;
        push_attachment_parts(&mut out, atts, false, mixed, date);
        push_close(&mut out, mixed);
        assert(out@ =~= document(*self, pair_views(self.headers@), mixed@, related@, alt@, date@));
        out
    }

    /// Resolves the headers, then renders the message for DATA with the given
    /// date, message identifier and boundaries: the dot-stuffed document and
    /// the end-of-data line.
    pub fn render(
        &mut self,
        date: &str,
        message_uuid: &str,
        mixed: &str,
        related: &str,
        alt: &str,
    ) -> (r: String)
        ensures
            r@ == email_data(*old(self), date@, message_uuid@, mixed@, related@, alt@),
            pair_views(final(self).headers@) == resolved_headers(*old(self), date@, message_uuid@),
    {
        self.resolve_headers(date, message_uuid);
        let doc = self.mime_document(mixed, related, alt, date);
        let mut out = apply_dot_stuffing(doc.as_str());
        out.append("\r\n.\r\n");
        assert(attachments_of(*self) == attachments_of(*old(self)));
        assert(document(*self, pair_views(self.headers@), mixed@, related@, alt@, date@) == document(
            *old(self),
            resolved_headers(*old(self), date@, message_uuid@),
            mixed@,
            related@,
            alt@,
            date@,
        ));
        out
    }

    /// Builds the raw message for DATA: resolves the headers with the current
    /// date and a fresh identifier, draws three boundaries, and renders.
    pub fn get_email_data(&mut self) -> (r: String)
        ensures
            exists|date: Seq<char>, u: Seq<u8>, m: Seq<u8>, rl: Seq<u8>, a: Seq<u8>|
                {
                    &&& u.len() == 16
                    &&& m.len() == 28
                    &&& rl.len() == 28
                    &&& a.len() == 28
                    &&& r@ == email_data(
                        *old(self),
                        date,
                        uuid_text_of(u),
                        boundary_of("mixed_"@, m),
                        boundary_of("related_"@, rl),
                        boundary_of("alternative_"@, a),
                    )
                    &&& pair_views(final(self).headers@) == resolved_headers(
                        *old(self),
                        date,
                        uuid_text_of(u),
                    )
                },
    {
        let date = now_text();
        let mut random: Vec<u8> = vec![0u8; 16];
        let _ = fill_random(&mut random);
        let id = uuid_text(&random);
        let mixed = generate_safe_boundary("mixed_");
        let related = generate_safe_boundary("related_");
        let alt = generate_safe_boundary("alternative_");
        self.render(date.as_str(), id.as_str(), mixed.as_str(), related.as_str(), alt.as_str())
    }
}

} // verus!
