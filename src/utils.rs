//! Address validation, byte/text conversion and the two RFC 2045/2047 text encodings.
use vstd::prelude::*;
use vstd::utf8::*;

verus! {

// ---------------------------------------------------------------------------
// Trusted calls
// ---------------------------------------------------------------------------

/// What compiling `pattern` and searching `text` with it gives: `None` when the
/// pattern does not compile, else whether it matches.
pub uninterp spec fn regex_search(pattern: Seq<char>, text: Seq<char>) -> Option<bool>;

/// Relies on regex::Regex::new (compiles the pattern, or reports an error) and
/// regex::Regex::is_match (whether the compiled pattern matches `text`).
#[verifier::external_body]
fn regex_is_match(pattern: &str, text: &str) -> (r: Option<bool>)
    ensures
        r == regex_search(pattern@, text@),
{
    match regex::Regex::new(pattern) {
        Ok(re) => Some(re.is_match(text)),
        Err(_) => None,
    }
}

#[verifier::external_type_specification]
#[verifier::external_body]
pub struct ExFromUtf8Error(std::string::FromUtf8Error);

/// Relies on String::from_utf8: `Ok` exactly when the bytes are valid UTF-8,
/// holding the text they encode.
#[verifier::external_body]
fn string_from_utf8(bytes: Vec<u8>) -> (r: Result<String, std::string::FromUtf8Error>)
    ensures
        r is Ok <==> valid_utf8(bytes@),
        r matches Ok(s) ==> s@ == decode_utf8(bytes@),
{
    String::from_utf8(bytes)
}

/// Relies on String::push: appends one character.
#[verifier::external_body]
pub(crate) fn push_char(s: &mut String, c: char)
    ensures
        final(s)@ == old(s)@.push(c),
{
    s.push(c)
}

/// The characters of a string, in order.
pub fn chars_of(s: &str) -> (r: Vec<char>)
    ensures
        r@ == s@,
{
    broadcast use vstd::string::axiom_spec_iter;
    let mut out: Vec<char> = Vec::new();
    for c in it: s.chars()
        invariant
            it.seq() == s@,
            out@ == it.seq().take(it.index() as int),
    {
        out.push(c);
    }
    out
}

// ---------------------------------------------------------------------------
// Address validation
// ---------------------------------------------------------------------------

/// The address grammar the regular expression accepts (RFC 5322, simplified).
pub const EMAIL_PATTERN: &'static str = "^[a-zA-Z0-9.!#$%&'*+/=?^_`{|}~-]+@[a-zA-Z0-9](?:[a-zA-Z0-9-]{0,61}[a-zA-Z0-9])?(?:\\.[a-zA-Z0-9](?:[a-zA-Z0-9-]{0,61}[a-zA-Z0-9])?)*$";

/// Position of the first `c` in `s`, or `s.len()` when there is none.
pub open spec fn first_index(s: Seq<char>, c: char) -> int
    decreases s.len(),
{
    if s.len() == 0 {
        0
    } else if s[0] == c {
        0
    } else {
        1 + first_index(s.drop_first(), c)
    }
}

/// Position of the last `c` in `s`, or `-1` when there is none.
pub open spec fn last_index(s: Seq<char>, c: char) -> int
    decreases s.len(),
{
    if s.len() == 0 {
        -1
    } else if s.last() == c {
        s.len() - 1
    } else {
        last_index(s.drop_last(), c)
    }
}

/// The part of an address before its `@`.
pub open spec fn local_part(s: Seq<char>) -> Seq<char> {
    s.take(first_index(s, '@'))
}

/// The part of an address after its `@`.
pub open spec fn domain_part(s: Seq<char>) -> Seq<char> {
    s.skip(first_index(s, '@') + 1)
}

/// The last dot-separated label of a domain.
pub open spec fn top_level_label(d: Seq<char>) -> Seq<char> {
    d.skip(last_index(d, '.') + 1)
}

/// The length checks made after the grammar: exactly one `@`, a local part of
/// at most 64 bytes, a domain of at most 255 bytes that holds a dot, and a last
/// label of at least two bytes.
pub open spec fn address_shape_ok(s: Seq<char>) -> bool {
    let k = first_index(s, '@');
    let d = domain_part(s);
    &&& k < s.len()
    &&& first_index(d, '@') == d.len()
    &&& encode_utf8(local_part(s)).len() <= 64
    &&& encode_utf8(d).len() <= 255
    &&& last_index(d, '.') >= 0
    &&& encode_utf8(top_level_label(d)).len() >= 2
}

/// Whether `s` is accepted as an email address.
pub open spec fn email_valid(s: Seq<char>) -> bool {
    &&& s.len() > 0
    &&& regex_search(EMAIL_PATTERN@, s) == Some(true)
    &&& address_shape_ok(s)
}

pub(crate) proof fn lemma_first_index_of(s: Seq<char>, c: char, k: int)
    requires
        0 <= k <= s.len(),
        k < s.len() ==> s[k] == c,
        forall|j: int| 0 <= j < k ==> s[j] != c,
    ensures
        first_index(s, c) == k,
    decreases s.len(),
{
    if s.len() > 0 && k > 0 {
        lemma_first_index_of(s.drop_first(), c, k - 1);
    }
}

pub(crate) proof fn lemma_last_index_of(s: Seq<char>, c: char, k: int)
    requires
        -1 <= k < s.len(),
        k >= 0 ==> s[k] == c,
        forall|j: int| k < j < s.len() ==> s[j] != c,
    ensures
        last_index(s, c) == k,
    decreases s.len(),
{
    if s.len() > 0 && k < s.len() - 1 {
        assert forall|j: int| k < j < s.drop_last().len() implies s.drop_last()[j] != c by {
            assert(s.drop_last()[j] == s[j]);
        }
        lemma_last_index_of(s.drop_last(), c, k);
    }
}

/// Position of the first `c` in `s` from `from` on, or `s@.len()`.
pub(crate) fn find_char(s: &str, c: char, from: usize) -> (r: usize)
    requires
        from <= s@.len(),
    ensures
        from <= r <= s@.len(),
        r < s@.len() ==> s@[r as int] == c,
        forall|j: int| from <= j < r ==> s@[j] != c,
{
    let n = s.unicode_len();
    let mut i = from;
    while i < n
        invariant
            n == s@.len(),
            from <= i <= n,
            forall|j: int| from <= j < i ==> s@[j] != c,
        decreases n - i,
    {
        if s.get_char(i) == c {
            return i;
        }
        i = i + 1;
    }
    i
}

/// Position of the last `c` in `s`, or `-1`.
pub(crate) fn find_last_char(s: &str, c: char) -> (r: Option<usize>)
    ensures
        last_index(s@, c) == match r { Some(k) => k as int, None => -1 },
        r matches Some(k) ==> k < s@.len(),
{
    let n = s.unicode_len();
    let mut i = n;
    while i > 0
        invariant
            n == s@.len(),
            i <= n,
            forall|j: int| i <= j < n ==> s@[j] != c,
        decreases i,
    {
        if s.get_char(i - 1) == c {
            proof {
                lemma_last_index_of(s@, c, i - 1);
            }
            return Some(i - 1);
        }
        i = i - 1;
    }
    proof {
        lemma_last_index_of(s@, c, -1);
    }
    None
}

/// Validates an address: the simplified RFC 5322 grammar, then the length
/// limits of its parts.
pub fn is_valid_email(email: &str) -> (r: bool)
    ensures
        r == email_valid(email@),
{
    let n = email.unicode_len();
    if n == 0 {
        return false;
    }
    match regex_is_match(EMAIL_PATTERN, email) {
        Some(true) => {},
        _ => return false,
    }
    let k = find_char(email, '@', 0);
    proof {
        lemma_first_index_of(email@, '@', k as int);
    }
    if k >= n {
        return false;
    }
    let local = email.substring_char(0, k);
    let domain = email.substring_char(k + 1, n);
    assert(local@ =~= local_part(email@));
    assert(domain@ =~= domain_part(email@));
    let second = find_char(domain, '@', 0);
    proof {
        lemma_first_index_of(domain@, '@', second as int);
    }
    if second < domain.unicode_len() {
        return false;
    }
    if local.as_bytes().len() > 64 {
        return false;
    }
    if domain.as_bytes().len() > 255 {
        return false;
    }
    match find_last_char(domain, '.') {
        None => false,
        Some(j) => {
            let tld = domain.substring_char(j + 1, domain.unicode_len());
            assert(tld@ =~= top_level_label(domain@));
            assert(domain@ == domain_part(email@));
            tld.as_bytes().len() >= 2
        },
    }
}

/// The texts of a list of strings.
pub open spec fn texts(s: Seq<String>) -> Seq<Seq<char>> {
    s.map_values(|x: String| x@)
}

/// The addresses of a list that are not valid, in their order.
pub open spec fn invalid_of(emails: Seq<String>) -> Seq<String>
    decreases emails.len(),
{
    if emails.len() == 0 {
        seq![]
    } else if email_valid(emails.last()@) {
        invalid_of(emails.drop_last())
    } else {
        invalid_of(emails.drop_last()).push(emails.last())
    }
}

/// Returns the invalid addresses of a list.
pub fn validate_emails(emails: &[String]) -> (r: Vec<String>)
    ensures
        texts(r@) == texts(invalid_of(emails@)),
{
    let mut out: Vec<String> = Vec::new();
    let mut i: usize = 0;
    while i < emails.len()
        invariant
            i <= emails@.len(),
            texts(out@) == texts(invalid_of(emails@.take(i as int))),
        decreases emails@.len() - i,
    {
        let ghost before = out@;
        assert(emails@.take(i as int + 1).drop_last() =~= emails@.take(i as int));
        assert(emails@.take(i as int + 1).last() == emails@[i as int]);
        if !is_valid_email(emails[i].as_str()) {
            let c = emails[i].clone();
            out.push(c);
            assert(out@ =~= before.push(c));
            assert(invalid_of(emails@.take(i as int + 1)) == invalid_of(emails@.take(i as int)).push(
                emails@[i as int],
            ));
            let ghost inv = invalid_of(emails@.take(i as int));
            assert(texts(before.push(c)) =~= texts(before).push(c@));
            assert(texts(inv.push(emails@[i as int])) =~= texts(inv).push(emails@[i as int]@));
        }
        i = i + 1;
    }
    assert(emails@.take(emails@.len() as int) =~= emails@);
    out
}

// ---------------------------------------------------------------------------
// Bytes and text
// ---------------------------------------------------------------------------

/// The UTF-8 bytes of a string.
pub fn encode(s: &str) -> (r: Vec<u8>)
    ensures
        r@ == encode_utf8(s@),
{
    s.as_bytes_vec()
}

/// The string that UTF-8 bytes encode, or the decoding error.
pub fn decode(bytes: &[u8]) -> (r: Result<String, std::string::FromUtf8Error>)
    ensures
        r is Ok <==> valid_utf8(bytes@),
        r matches Ok(s) ==> s@ == decode_utf8(bytes@),
{
    string_from_utf8(vstd::slice::slice_to_vec(bytes))
}

// ---------------------------------------------------------------------------
// Quoted-printable (RFC 2045) and encoded words (RFC 2047)
// ---------------------------------------------------------------------------

/// The upper-case hexadecimal digit of a nibble.
pub open spec fn hex_digit(n: u8) -> char {
    if n < 10 {
        (n + 48) as char
    } else {
        (n + 55) as char
    }
}

/// `=XY`: a byte written as two upper-case hexadecimal digits.
pub open spec fn escaped(b: u8) -> Seq<char> {
    seq!['=', hex_digit(b / 16), hex_digit(b % 16)]
}

/// Whether the byte at `i` cannot stand for itself in quoted-printable text:
/// a control byte, a byte above 126, `=`, or a blank just before a line break
/// or at the end.
pub open spec fn qp_must_escape(b: Seq<u8>, i: int) -> bool {
    let byte = b[i];
    let blank = byte == 32 || byte == 9;
    let before_break = i + 1 >= b.len() || b[i + 1] == 10 || b[i + 1] == 13;
    (byte < 32 && byte != 9) || byte > 126 || byte == 61 || (blank && before_break)
}

/// The encoded form of the byte at `i`, which starts no line break.
pub open spec fn qp_token(b: Seq<u8>, i: int) -> Seq<char> {
    if qp_must_escape(b, i) {
        escaped(b[i])
    } else {
        seq![b[i] as char]
    }
}

/// The room a line has for content before its soft break.
pub open spec fn qp_room(line_length: int) -> int {
    if line_length >= 3 {
        line_length - 3
    } else {
        0
    }
}

/// Whether a line break (`\n`, or `\r\n`) starts at `i`; its length then.
pub open spec fn qp_break_len(b: Seq<u8>, i: int) -> int {
    if b[i] == 10 {
        1
    } else if b[i] == 13 && i + 1 < b.len() && b[i + 1] == 10 {
        2
    } else {
        0
    }
}

/// Quoted-printable text of `b` from byte `i` on, `col` characters into the
/// current line.
pub open spec fn qp_from(b: Seq<u8>, i: int, col: int, line_length: int) -> Seq<char>
    decreases b.len() - i,
{
    if i < 0 || i >= b.len() {
        seq![]
    } else if qp_break_len(b, i) > 0 {
        seq!['\r', '\n'] + qp_from(b, i + qp_break_len(b, i), 0, line_length)
    } else {
        let t = qp_token(b, i);
        if col + t.len() > qp_room(line_length) {
            seq!['=', '\r', '\n'] + t + qp_from(b, i + 1, t.len() as int, line_length)
        } else {
            t + qp_from(b, i + 1, col + t.len(), line_length)
        }
    }
}

/// Quoted-printable text of `b`: line breaks become CRLF, and a soft break
/// (`=` CRLF) is inserted before a token that would pass `line_length - 3`.
pub open spec fn quoted_printable(b: Seq<u8>, line_length: int) -> Seq<char> {
    qp_from(b, 0, 0, line_length)
}

fn hex_digit_of(n: u8) -> (c: char)
    requires
        n < 16,
    ensures
        c == hex_digit(n),
{
    if n < 10 {
        (n + 48) as char
    } else {
        (n + 55) as char
    }
}

fn push_escaped(s: &mut String, b: u8)
    ensures
        final(s)@ == old(s)@ + escaped(b),
{
    push_char(s, '=');
    push_char(s, hex_digit_of(b / 16));
    push_char(s, hex_digit_of(b % 16));
    assert(final(s)@ =~= old(s)@ + escaped(b));
}

proof fn lemma_qp_unfold(b: Seq<u8>, i: int, col: int, line_length: int)
    requires
        0 <= i < b.len(),
    ensures
        qp_break_len(b, i) > 0 ==> qp_from(b, i, col, line_length) == seq!['\r', '\n'] + qp_from(
            b,
            i + qp_break_len(b, i),
            0,
            line_length,
        ),
        qp_break_len(b, i) == 0 && col + qp_token(b, i).len() > qp_room(line_length) ==> qp_from(
            b,
            i,
            col,
            line_length,
        ) == seq!['=', '\r', '\n'] + qp_token(b, i) + qp_from(
            b,
            i + 1,
            qp_token(b, i).len() as int,
            line_length,
        ),
        qp_break_len(b, i) == 0 && col + qp_token(b, i).len() <= qp_room(line_length) ==> qp_from(
            b,
            i,
            col,
            line_length,
        ) == qp_token(b, i) + qp_from(b, i + 1, col + qp_token(b, i).len(), line_length),
{
}

fn qp_escape_at(bytes: &Vec<u8>, i: usize) -> (r: bool)
    requires
        i < bytes@.len(),
    ensures
        r == qp_must_escape(bytes@, i as int),
{
    let byte = bytes[i];
    let blank = byte == 32 || byte == 9;
    let before_break = i >= bytes.len() - 1 || bytes[i + 1] == 10 || bytes[i + 1] == 13;
    (byte < 32 && byte != 9) || byte > 126 || byte == 61 || (blank && before_break)
}

fn push_qp_token(s: &mut String, bytes: &Vec<u8>, i: usize, escape: bool)
    requires
        i < bytes@.len(),
        escape == qp_must_escape(bytes@, i as int),
    ensures
        final(s)@ == old(s)@ + qp_token(bytes@, i as int),
{
    if escape {
        push_escaped(s, bytes[i]);
    } else {
        push_char(s, bytes[i] as char);
        assert(final(s)@ =~= old(s)@ + qp_token(bytes@, i as int));
    }
}

/// Quoted-printable encoding (RFC 2045) of the UTF-8 bytes of `text`.
pub fn encode_quoted_printable(text: &str, line_length: usize) -> (r: String)
    ensures
        r@ == quoted_printable(encode_utf8(text@), line_length as int),
{
    let bytes = encode(text);
    let ghost b = bytes@;
    let ghost ll = line_length as int;
    let n = bytes.len();
    let room: usize = if line_length >= 3 { line_length - 3 } else { 0 };
    let mut result = String::new();
    let mut col: usize = 0;
    let mut i: usize = 0;
    while i < n
        invariant
            b == bytes@,
            n == b.len(),
            i <= n,
            ll == line_length as int,
            room as int == qp_room(ll),
            col <= room || col <= 3,
            result@ + qp_from(b, i as int, col as int, ll) == quoted_printable(b, ll),
        decreases n - i,
    {
        let ghost prev = result@;
        proof {
            lemma_qp_unfold(b, i as int, col as int, ll);
        }
        let byte = bytes[i];
        if byte == 10 || (byte == 13 && i + 1 < n && bytes[i + 1] == 10) {
            let step: usize = if byte == 10 { 1 } else { 2 };
            assert(qp_break_len(b, i as int) == step);
            result.append("\r\n");
            proof {
                reveal_strlit("\r\n");
                let rest = qp_from(b, i + step, 0, ll);
                assert(result@ + rest =~= prev + (seq!['\r', '\n'] + rest));
            }
            col = 0;
            i = i + step;
        } else {
            assert(qp_break_len(b, i as int) == 0);
            let escape = qp_escape_at(&bytes, i);
            let len: usize = if escape { 3 } else { 1 };
            let ghost t = qp_token(b, i as int);
            assert(t.len() == len);
            let soft = col + len > room;
            if soft {
                result.append("=\r\n");
                proof {
                    reveal_strlit("=\r\n");
                }
            }
            let ghost mid = result@;
            push_qp_token(&mut result, &bytes, i, escape);
            proof {
                if soft {
                    let rest = qp_from(b, i + 1, len as int, ll);
                    assert(result@ + rest =~= prev + (seq!['=', '\r', '\n'] + t + rest));
                } else {
                    let rest = qp_from(b, i + 1, col + len, ll);
                    assert(result@ + rest =~= prev + (t + rest));
                }
            }
            col = if soft { len } else { col + len };
            i = i + 1;
        }
    }
    assert(result@ =~= result@ + qp_from(b, i as int, col as int, ll));
    result
}

/// Whether every line of `s` (the text between CR or LF characters) holds at
/// most `width` characters, the first line starting `col` characters in.
pub open spec fn lines_within(s: Seq<char>, col: int, width: int) -> bool
    decreases s.len(),
{
    if s.len() == 0 {
        true
    } else if s[0] == '\r' || s[0] == '\n' {
        lines_within(s.drop_first(), 0, width)
    } else {
        col + 1 <= width && lines_within(s.drop_first(), col + 1, width)
    }
}

proof fn lemma_within_prefix(x: Seq<char>, rest: Seq<char>, col: int, width: int)
    requires
        forall|j: int| 0 <= j < x.len() ==> x[j] != '\r' && x[j] != '\n',
        col + x.len() <= width,
        lines_within(rest, col + x.len(), width),
    ensures
        lines_within(x + rest, col, width),
    decreases x.len(),
{
    if x.len() > 0 {
        assert((x + rest).drop_first() =~= x.drop_first() + rest);
        lemma_within_prefix(x.drop_first(), rest, col + 1, width);
    }
}

proof fn lemma_within_break(rest: Seq<char>, col: int, width: int)
    requires
        lines_within(rest, 0, width),
    ensures
        lines_within(seq!['\r', '\n'] + rest, col, width),
{
    let s = seq!['\r', '\n'] + rest;
    assert(s[0] == '\r');
    assert(s.drop_first() =~= seq!['\n'] + rest);
    assert(s.drop_first()[0] == '\n');
    assert(s.drop_first().drop_first() =~= rest);
    assert(lines_within(s.drop_first(), 0, width));
}

proof fn lemma_qp_within(b: Seq<u8>, i: int, col: int, ll: int)
    requires
        ll >= 4,
        0 <= col,
        col <= qp_room(ll) || col <= 3,
    ensures
        lines_within(qp_from(b, i, col, ll), col, ll),
    decreases b.len() - i,
{
    if 0 <= i < b.len() {
        lemma_qp_unfold(b, i, col, ll);
        if qp_break_len(b, i) > 0 {
            lemma_qp_within(b, i + qp_break_len(b, i), 0, ll);
            lemma_within_break(qp_from(b, i + qp_break_len(b, i), 0, ll), col, ll);
        } else {
            let t = qp_token(b, i);
            if col + t.len() > qp_room(ll) {
                let rest = qp_from(b, i + 1, t.len() as int, ll);
                lemma_qp_within(b, i + 1, t.len() as int, ll);
                lemma_within_prefix(t, rest, 0, ll);
                lemma_within_break(t + rest, col + 1, ll);
                lemma_within_prefix(seq!['='], seq!['\r', '\n'] + (t + rest), col, ll);
                assert(seq!['='] + (seq!['\r', '\n'] + (t + rest)) =~= seq!['=', '\r', '\n'] + t
                    + rest);
            } else {
                let rest = qp_from(b, i + 1, col + t.len(), ll);
                lemma_qp_within(b, i + 1, col + t.len(), ll);
                lemma_within_prefix(t, rest, col, ll);
            }
        }
    }
}

/// No line of quoted-printable text is longer than the wrap width, soft-break
/// `=` included, for any width of at least four.
pub proof fn lemma_quoted_printable_lines_within(b: Seq<u8>, line_length: int)
    requires
        line_length >= 4,
    ensures
        lines_within(quoted_printable(b, line_length), 0, line_length),
{
    lemma_qp_within(b, 0, 0, line_length);
}

/// The value of an upper-case hexadecimal digit.
pub open spec fn hex_value(c: char) -> int {
    if c <= '9' {
        c as int - 48
    } else {
        c as int - 55
    }
}

/// Decoding of quoted-printable text: soft breaks vanish, `=XY` gives the byte
/// XY, and every other character gives its own code.
pub open spec fn qp_decode(s: Seq<char>) -> Seq<u8>
    decreases s.len(),
{
    if s.len() == 0 {
        seq![]
    } else if s[0] == '=' && s.len() >= 3 {
        if s[1] == '\r' && s[2] == '\n' {
            qp_decode(s.skip(3))
        } else {
            seq![(16 * hex_value(s[1]) + hex_value(s[2])) as u8] + qp_decode(s.skip(3))
        }
    } else {
        seq![(s[0] as u32) as u8] + qp_decode(s.skip(1))
    }
}

/// Whether every LF byte of `b` follows a CR byte.
pub open spec fn crlf_line_ends(b: Seq<u8>) -> bool {
    forall|j: int| 0 <= j < b.len() && #[trigger] b[j] == 10 ==> j > 0 && b[j - 1] == 13
}

proof fn lemma_decode_token(b: Seq<u8>, i: int, rest: Seq<char>)
    requires
        0 <= i < b.len(),
        qp_break_len(b, i) == 0,
    ensures
        qp_decode(qp_token(b, i) + rest) == seq![b[i]] + qp_decode(rest),
{
    let t = qp_token(b, i);
    let s = t + rest;
    if qp_must_escape(b, i) {
        assert(s.skip(3) =~= rest);
        assert(s[1] == hex_digit(b[i] / 16));
    } else {
        assert(s.skip(1) =~= rest);
    }
}

proof fn lemma_decode_break(rest: Seq<char>)
    ensures
        qp_decode(seq!['\r', '\n'] + rest) == seq![13u8, 10u8] + qp_decode(rest),
{
    let s = seq!['\r', '\n'] + rest;
    assert(s[0] == '\r');
    assert(('\r' as u32) as u8 == 13u8);
    assert(('\n' as u32) as u8 == 10u8);
    assert(s.skip(1) =~= seq!['\n'] + rest);
    assert(s.skip(1)[0] == '\n');
    assert(s.skip(1).skip(1) =~= rest);
    assert(qp_decode(s.skip(1)) == seq![10u8] + qp_decode(rest));
    assert(seq![13u8] + (seq![10u8] + qp_decode(rest)) =~= seq![13u8, 10u8] + qp_decode(rest));
}

proof fn lemma_qp_decode_from(b: Seq<u8>, i: int, col: int, ll: int)
    requires
        0 <= i <= b.len(),
        crlf_line_ends(b),
        i < b.len() ==> b[i] != 10,
    ensures
        qp_decode(qp_from(b, i, col, ll)) == b.skip(i),
    decreases b.len() - i,
{
    if i < b.len() {
        lemma_qp_unfold(b, i, col, ll);
        if qp_break_len(b, i) > 0 {
            assert(i + 2 < b.len() ==> b[i + 2] != 10);
            lemma_qp_decode_from(b, i + 2, 0, ll);
            lemma_decode_break(qp_from(b, i + 2, 0, ll));
            assert(b.skip(i) =~= seq![13u8, 10u8] + b.skip(i + 2));
        } else {
            let t = qp_token(b, i);
            let next = if col + t.len() > qp_room(ll) { t.len() as int } else { col + t.len() };
            let rest = qp_from(b, i + 1, next, ll);
            assert(i + 1 < b.len() ==> b[i + 1] != 10);
            lemma_qp_decode_from(b, i + 1, next, ll);
            lemma_decode_token(b, i, rest);
            if col + t.len() > qp_room(ll) {
                let s = seq!['=', '\r', '\n'] + t + rest;
                assert(s.skip(3) =~= t + rest);
            }
            assert(b.skip(i) =~= seq![b[i]] + b.skip(i + 1));
        }
    } else {
        assert(b.skip(i) =~= seq![]);
    }
}

/// Bytes with every line break written as CRLF: a CR LF pair stays, and an
/// LF on its own becomes CR LF.
pub open spec fn crlf_normalized(b: Seq<u8>) -> Seq<u8>
    decreases b.len(),
{
    if b.len() == 0 {
        seq![]
    } else if b[0] == 13 && b.len() >= 2 && b[1] == 10 {
        seq![13u8, 10u8] + crlf_normalized(b.skip(2))
    } else if b[0] == 10 {
        seq![13u8, 10u8] + crlf_normalized(b.skip(1))
    } else {
        seq![b[0]] + crlf_normalized(b.skip(1))
    }
}

proof fn lemma_qp_decode_any(b: Seq<u8>, i: int, col: int, ll: int)
    requires
        0 <= i <= b.len(),
    ensures
        qp_decode(qp_from(b, i, col, ll)) == crlf_normalized(b.skip(i)),
    decreases b.len() - i,
{
    let s = b.skip(i);
    if i < b.len() {
        lemma_qp_unfold(b, i, col, ll);
        assert(s[0] == b[i]);
        let k = qp_break_len(b, i);
        if k > 0 {
            lemma_qp_decode_any(b, i + k, 0, ll);
            lemma_decode_break(qp_from(b, i + k, 0, ll));
            assert(s.skip(k) =~= b.skip(i + k));
            if k == 2 {
                assert(s[1] == b[i + 1]);
            }
        } else {
            let t = qp_token(b, i);
            let next = if col + t.len() > qp_room(ll) { t.len() as int } else { col + t.len() };
            let rest = qp_from(b, i + 1, next, ll);
            lemma_qp_decode_any(b, i + 1, next, ll);
            lemma_decode_token(b, i, rest);
            if col + t.len() > qp_room(ll) {
                let w = seq!['=', '\r', '\n'] + t + rest;
                assert(w.skip(3) =~= t + rest);
            }
            if s.len() >= 2 {
                assert(s[1] == b[i + 1]);
            }
            assert(s.skip(1) =~= b.skip(i + 1));
        }
    } else {
        assert(s =~= seq![]);
    }
}

/// Decoding the quoted-printable text of any bytes gives them back with each
/// line break as CRLF: soft breaks vanish, escapes give their bytes, and a
/// lone LF comes back as CR LF.
pub proof fn lemma_quoted_printable_decodes_to_crlf(b: Seq<u8>, line_length: int)
    ensures
        qp_decode(quoted_printable(b, line_length)) == crlf_normalized(b),
{
    lemma_qp_decode_any(b, 0, 0, line_length);
    assert(b.skip(0) =~= b);
}

/// Decoding the quoted-printable text of bytes whose line breaks are CRLF
/// gives those bytes back.
pub proof fn lemma_quoted_printable_round_trip(b: Seq<u8>, line_length: int)
    requires
        crlf_line_ends(b),
    ensures
        qp_decode(quoted_printable(b, line_length)) == b,
{
    lemma_qp_decode_from(b, 0, 0, line_length);
    assert(b.skip(0) =~= b);
}

/// The encoded-word form of one byte: itself when printable and not one of
/// `?`, `=`, `_`; `_` for a space; else `=XY`.
pub open spec fn q_token(b: u8) -> Seq<char> {
    if 33 <= b <= 126 && b != 63 && b != 61 && b != 95 {
        seq![b as char]
    } else if b == 32 {
        seq!['_']
    } else {
        escaped(b)
    }
}

/// The Q encoding of a byte sequence.
pub open spec fn q_encode(b: Seq<u8>) -> Seq<char>
    decreases b.len(),
{
    if b.len() == 0 {
        seq![]
    } else {
        q_encode(b.drop_last()) + q_token(b.last())
    }
}

/// A header value as written: unchanged when all ASCII, else one RFC 2047
/// encoded word `=?UTF-8?Q?...?=` over its UTF-8 bytes.
pub open spec fn header_encoded(s: Seq<char>) -> Seq<char> {
    if is_ascii_chars(s) {
        s
    } else {
        seq!['=', '?', 'U', 'T', 'F', '-', '8', '?', 'Q', '?'] + q_encode(encode_utf8(s)) + seq![
            '?',
            '=',
        ]
    }
}

/// RFC 2047 header encoding (UTF-8, Q encoding) of a value that holds a
/// non-ASCII character.
pub fn encode_header(text: &str) -> (r: String)
    ensures
        r@ == header_encoded(text@),
{
    if text.is_ascii() {
        return text.to_owned();
    }
    let bytes = encode(text);
    let mut out = String::new();
    out.append("=?UTF-8?Q?");
    proof {
        reveal_strlit("=?UTF-8?Q?");
    }
    let ghost head = out@;
    let mut i: usize = 0;
    while i < bytes.len()
        invariant
            i <= bytes@.len(),
            out@ == head + q_encode(bytes@.take(i as int)),
        decreases bytes@.len() - i,
    {
        let byte = bytes[i];
        let ghost prev = out@;
        if 33 <= byte && byte <= 126 && byte != 63 && byte != 61 && byte != 95 {
            push_char(&mut out, byte as char);
        } else if byte == 32 {
            push_char(&mut out, '_');
        } else {
            push_escaped(&mut out, byte);
        }
        assert(bytes@.take(i as int + 1).drop_last() =~= bytes@.take(i as int));
        assert(out@ =~= head + q_encode(bytes@.take(i as int + 1)));
        i = i + 1;
    }
    out.append("?=");
    proof {
        reveal_strlit("?=");
        assert(bytes@.take(bytes@.len() as int) =~= bytes@);
    }
    assert(out@ =~= header_encoded(text@));
    out
}

} // verus!
