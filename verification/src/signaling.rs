//! Signaling: invite codes, addresses, and the line protocol that carries offer, answer and
//! ICE candidates between host and viewer.
use vstd::prelude::*;
use vstd::utf8::{decode_utf8, encode_utf8, valid_utf8};

use crate::text::{
    chars_of, decimal, decimal_is_digits, decimal_reads_back, decimal_text, is_space,
    matches_at, occurs_at, parse_int, read_int, text_between, trim, trim_end, trim_start, trimmed,
    IntError,
};

verus! {

/// Messages exchanged over the signaling channel.
#[derive(Debug, Clone)]
pub enum SignalMessage {
    /// Host to viewer: WebRTC SDP offer.
    Offer { sdp: String },
    /// Viewer to host: WebRTC SDP answer.
    Answer { sdp: String },
    /// Both directions: ICE candidates.
    IceCandidate { candidate: String, sdp_mid: String, sdp_mline_index: u32 },
    /// Host to viewer: session accepted, streaming about to start.
    SessionReady,
    /// Either direction: graceful hangup.
    Bye,
}

// ---- Tokens ----

/// The letters and digits of a token: those that are not mistaken for one another.
pub open spec fn token_alphabet() -> Seq<char> {
    "ABCDEFGHJKLMNPQRSTUVWXYZ23456789"@
}

/// Every character of `s` is a token character.
pub open spec fn is_token(s: Seq<char>) -> bool {
    forall|i: int| 0 <= i < s.len() ==> token_alphabet().contains(#[trigger] s[i])
}

/// How many characters the token of an invite has.
pub const TOKEN_LEN: usize = 8;

/// `rand::Rng::gen_range` on `rand::thread_rng()`, for the range `0..bound`: some number below
/// `bound`. Which one is left to chance.
#[verifier::external_body]
fn random_below(bound: usize) -> (r: usize)
    requires
        0 < bound,
    ensures
        r < bound,
{
    rand::Rng::gen_range(&mut rand::thread_rng(), 0..bound)
}

/// The token whose characters stand at `picks` in the alphabet.
pub fn token_from_picks(picks: &Vec<usize>) -> (s: String)
    requires
        forall|i: int| 0 <= i < picks@.len() ==> #[trigger] picks@[i] < token_alphabet().len(),
    ensures
        s@ == Seq::new(picks@.len(), |i: int| token_alphabet()[picks@[i] as int]),
{
    let alphabet = chars_of("ABCDEFGHJKLMNPQRSTUVWXYZ23456789");
    let mut s = String::new();
    let mut i: usize = 0;
    while i < picks.len()
        invariant
            i <= picks@.len(),
            alphabet@ == token_alphabet(),
            forall|j: int| 0 <= j < picks@.len() ==> #[trigger] picks@[j] < alphabet@.len(),
            s@ == Seq::new(i as nat, |j: int| alphabet@[picks@[j] as int]),
        decreases picks@.len() - i,
    {
        assert(picks@[i as int] < alphabet@.len());
        s.push(alphabet[picks[i]]);
        i += 1;
        assert(s@ =~= Seq::new(i as nat, |j: int| alphabet@[picks@[j] as int]));
    }
    s
}

/// A random token of `len` unambiguous letters and digits.
pub fn generate_token(len: usize) -> (s: String)
    ensures
        s@.len() == len,
        is_token(s@),
{
    proof {
        reveal_strlit("ABCDEFGHJKLMNPQRSTUVWXYZ23456789");
    }
    let mut picks: Vec<usize> = Vec::new();
    let mut i: usize = 0;
    while i < len
        invariant
            i <= len,
            picks@.len() == i,
            token_alphabet().len() == 32,
            forall|j: int| 0 <= j < i ==> #[trigger] picks@[j] < token_alphabet().len(),
        decreases len - i,
    {
        picks.push(random_below(32));
        i += 1;
    }
    let s = token_from_picks(&picks);
    assert forall|j: int| 0 <= j < s@.len() implies token_alphabet().contains(#[trigger] s@[j]) by {
        assert(s@[j] == token_alphabet()[picks@[j] as int]);
    }
    s
}

/// The alphabet has 32 different characters, and none of those that look like another one:
/// `0` and `O`, `1` and `I`.
pub proof fn token_alphabet_is_unambiguous()
    ensures
        token_alphabet().len() == 32,
        token_alphabet().no_duplicates(),
        !token_alphabet().contains('0'),
        !token_alphabet().contains('O'),
        !token_alphabet().contains('1'),
        !token_alphabet().contains('I'),
{
    reveal_strlit("ABCDEFGHJKLMNPQRSTUVWXYZ23456789");
    let a = token_alphabet();
    assert(forall|i: int| 0 <= i < 23 ==> a[i] < #[trigger] a[i + 1]);
    assert(forall|i: int, j: int| 0 <= i < j < 32 ==> a[i] != a[j]);
}

/// The alphabet is the capital letters and the digits from 2 on, save for the ones that look like
/// another.
pub proof fn token_characters_are_capitals_and_digits(c: char)
    ensures
        token_alphabet().contains(c) <==> ('A' <= c <= 'Z' && c != 'I' && c != 'O') || '2' <= c
            <= '9',
{
    reveal_strlit("ABCDEFGHJKLMNPQRSTUVWXYZ23456789");
    let a = token_alphabet();
    assert(forall|i: int| 0 <= i < a.len() ==> ('A' <= #[trigger] a[i] <= 'Z' && a[i] != 'I' && a[i]
        != 'O') || '2' <= a[i] <= '9');
    let k = c as int;
    if 65 <= k && k <= 72 {
        assert(a[k - 65] == c);
    } else if 74 <= k && k <= 78 {
        assert(a[k - 66] == c);
    } else if 80 <= k && k <= 90 {
        assert(a[k - 67] == c);
    } else if 50 <= k && k <= 57 {
        assert(a[k - 26] == c);
    }
}

// ---- Invite codes ----

/// Why an invite code is refused.
#[derive(Debug, Clone)]
pub enum InviteError {
    /// It is no URL-safe base64; the decoder's own words.
    Base64(String),
    /// It does not decode to text; the decoder's own words.
    Utf8(String),
    /// The text has fewer than three parts.
    Format,
    /// The middle part is no port number.
    Port(IntError),
}

/// What an [`InviteError`] says, with its text as characters.
pub enum InviteFault {
    Base64(Seq<char>),
    Utf8(Seq<char>),
    Format,
    Port(IntError),
}

impl View for InviteError {
    type V = InviteFault;

    open spec fn view(&self) -> InviteFault {
        match self {
            InviteError::Base64(e) => InviteFault::Base64(e@),
            InviteError::Utf8(e) => InviteFault::Utf8(e@),
            InviteError::Format => InviteFault::Format,
            InviteError::Port(e) => InviteFault::Port(*e),
        }
    }
}

impl InviteFault {
    /// The sentence that a user reads.
    pub open spec fn text(self) -> Seq<char> {
        match self {
            InviteFault::Base64(e) => "Invalid invite (base64): "@ + e,
            InviteFault::Utf8(e) => "Invalid invite (utf8): "@ + e,
            InviteFault::Format => "Invalid invite format"@,
            InviteFault::Port(e) => "Invalid port: "@ + e.text(),
        }
    }
}

impl InviteError {
    /// The sentence that a user reads.
    pub fn to_string(&self) -> (s: String)
        ensures
            s@ == self@.text(),
    {
        match self {
            InviteError::Base64(e) => "Invalid invite (base64): ".to_string().concat(e.as_str()),
            InviteError::Utf8(e) => "Invalid invite (utf8): ".to_string().concat(e.as_str()),
            InviteError::Format => "Invalid invite format".to_string(),
            InviteError::Port(e) => "Invalid port: ".to_string().concat(e.to_string().as_str()),
        }
    }
}

/// What the base64 encoder of the URL-safe alphabet, without padding, makes of some bytes.
pub uninterp spec fn base64url_encoded(bytes: Seq<u8>) -> Seq<char>;

/// What the decoder of the same alphabet makes of a text: the bytes, or its error as a sentence.
pub uninterp spec fn base64url_decoded(text: Seq<char>) -> Result<Seq<u8>, Seq<char>>;

/// What `std` says of bytes that are no UTF-8.
pub uninterp spec fn utf8_error_text(bytes: Seq<u8>) -> Seq<char>;

/// Bytes or a sentence, as sequences.
pub open spec fn decoded_view(r: Result<Vec<u8>, String>) -> Result<Seq<u8>, Seq<char>> {
    match r {
        Ok(v) => Ok(v@),
        Err(e) => Err(e@),
    }
}

/// The answer of a decoder that gives `bytes`.
pub open spec fn bytes_decoded(bytes: Seq<u8>) -> Result<Seq<u8>, Seq<char>> {
    Ok(bytes)
}

/// The text that bytes encode in UTF-8, or, where they are no UTF-8, the words about it.
pub open spec fn utf8_decoded(bytes: Seq<u8>) -> Result<Seq<char>, Seq<char>> {
    if valid_utf8(bytes) {
        Ok(decode_utf8(bytes))
    } else {
        Err(utf8_error_text(bytes))
    }
}

/// Text or a sentence, as sequences.
pub open spec fn text_view(r: Result<String, String>) -> Result<Seq<char>, Seq<char>> {
    match r {
        Ok(s) => Ok(s@),
        Err(e) => Err(e@),
    }
}

/// A letter, a digit, `-` or `_`: what needs no escaping in a URL.
pub open spec fn is_url_safe(c: char) -> bool {
    ||| 'A' <= c <= 'Z'
    ||| 'a' <= c <= 'z'
    ||| '0' <= c <= '9'
    ||| c == '-'
    ||| c == '_'
}

/// `base64::Engine::encode` of the engine `URL_SAFE_NO_PAD`: a text of the URL-safe alphabet,
/// which the decoder of the same engine turns back into the same bytes.
#[verifier::external_body]
fn base64url_encode(bytes: &[u8]) -> (s: String)
    ensures
        s@ == base64url_encoded(bytes@),
        base64url_decoded(s@) == bytes_decoded(bytes@),
        forall|i: int| 0 <= i < s@.len() ==> is_url_safe(#[trigger] s@[i]),
{
    base64::Engine::encode(&base64::engine::general_purpose::URL_SAFE_NO_PAD, bytes)
}

/// `base64::Engine::decode` of the engine `URL_SAFE_NO_PAD`: the bytes, or the decoder's error
/// in its own words. What it accepts is not said here.
#[verifier::external_body]
fn base64url_decode(text: &str) -> (r: Result<Vec<u8>, String>)
    ensures
        decoded_view(r) == base64url_decoded(text@),
{
    base64::Engine::decode(&base64::engine::general_purpose::URL_SAFE_NO_PAD, text).map_err(
        |e| e.to_string(),
    )
}

/// `String::from_utf8` of the standard library: the text that the bytes encode, or, where they
/// are no UTF-8, the error in its own words.
#[verifier::external_body]
fn text_from_utf8(bytes: Vec<u8>) -> (r: Result<String, String>)
    ensures
        text_view(r) == (if valid_utf8(bytes@) {
            Ok(decode_utf8(bytes@))
        } else {
            Err(utf8_error_text(bytes@))
        }),
{
    String::from_utf8(bytes).map_err(|e| e.to_string())
}

/// The text inside an invite code: host, port and token with `:` between them.
pub open spec fn invite_text(host_ip: Seq<char>, port: u16, token: Seq<char>) -> Seq<char> {
    host_ip + seq![':'] + decimal(port as nat) + seq![':'] + token
}

/// The invite code for host, port and token.
pub open spec fn invite_code(host_ip: Seq<char>, port: u16, token: Seq<char>) -> Seq<char> {
    base64url_encoded(encode_utf8(invite_text(host_ip, port, token)))
}

/// Encodes host IP, port and token into a shareable invite code.
pub fn encode_invite(host_ip: &str, port: u16, token: &str) -> (invite: String)
    ensures
        invite@ == invite_code(host_ip@, port, token@),
        forall|i: int| 0 <= i < invite@.len() ==> is_url_safe(#[trigger] invite@[i]),
        read_invite_code(invite@) == read_invite_text(invite_text(host_ip@, port, token@)),
        !host_ip@.contains(':') ==> read_invite_code(invite@) == Ok::<_, InviteFault>(
            (host_ip@, port, token@),
        ),
{
    let mut s = host_ip.to_string();
    s.push(':');
    s.append(decimal_text(port as u64).as_str());
    s.push(':');
    s.append(token);
    assert(s@ =~= invite_text(host_ip@, port, token@));
    proof {
        if !host_ip@.contains(':') {
            invite_text_reads_back(host_ip@, port, token@);
        }
        vstd::utf8::encode_utf8_valid_utf8(s@);
        vstd::utf8::encode_utf8_decode_utf8(s@);
    }
    base64url_encode(s.as_str().as_bytes())
}

/// The first position of `:` in `s` from `from` on; the length of `s` where there is none.
pub open spec fn next_colon(s: Seq<char>, from: int) -> int
    decreases s.len() - from,
{
    if from < 0 || from >= s.len() || s[from] == ':' {
        from
    } else {
        next_colon(s, from + 1)
    }
}

/// What the text of an invite says: everything up to the first `:` is the host, everything up
/// to the second one the port, and all the rest the token.
pub open spec fn read_invite_text(s: Seq<char>) -> Result<
    (Seq<char>, u16, Seq<char>),
    InviteFault,
> {
    let a = next_colon(s, 0);
    let b = next_colon(s, a + 1);
    if a >= s.len() || b >= s.len() {
        Err(InviteFault::Format)
    } else {
        match read_int(s.subrange(a + 1, b), 0, u16::MAX as int) {
            Ok(port) => Ok((s.subrange(0, a), port as u16, s.subrange(b + 1, s.len() as int))),
            Err(e) => Err(InviteFault::Port(e)),
        }
    }
}

/// What an invite says once the base64 decoder has answered.
pub open spec fn read_invite_bytes(decoded: Result<Seq<u8>, Seq<char>>) -> Result<
    (Seq<char>, u16, Seq<char>),
    InviteFault,
> {
    match decoded {
        Err(e) => Err(InviteFault::Base64(e)),
        Ok(bytes) => match utf8_decoded(bytes) {
            Err(e) => Err(InviteFault::Utf8(e)),
            Ok(text) => read_invite_text(text),
        },
    }
}

/// What an invite code says.
pub open spec fn read_invite_code(code: Seq<char>) -> Result<
    (Seq<char>, u16, Seq<char>),
    InviteFault,
> {
    read_invite_bytes(base64url_decoded(code))
}

proof fn lemma_next_colon_skips(s: Seq<char>, from: int, to: int)
    requires
        0 <= from <= to < s.len(),
        forall|i: int| from <= i < to ==> s[i] != ':',
        s[to] == ':',
    ensures
        next_colon(s, from) == to,
    decreases to - from,
{
    if from < to {
        lemma_next_colon_skips(s, from + 1, to);
    }
}

/// Reading an invite gives back what was written into it, for every host without a `:`, every
/// port and every token.
pub proof fn invite_text_reads_back(host_ip: Seq<char>, port: u16, token: Seq<char>)
    requires
        !host_ip.contains(':'),
    ensures
        read_invite_text(invite_text(host_ip, port, token)) == Ok::<_, InviteFault>(
            (host_ip, port, token),
        ),
{
    let s = invite_text(host_ip, port, token);
    let digits = decimal(port as nat);
    let a = host_ip.len() as int;
    let b = a + 1 + digits.len();
    decimal_is_digits(port as nat);
    decimal_reads_back(port as int, 0, u16::MAX as int);
    assert forall|i: int| 0 <= i < a implies s[i] != ':' by {
        assert(s[i] == host_ip[i]);
    }
    lemma_next_colon_skips(s, 0, a);
    assert forall|i: int| a + 1 <= i < b implies s[i] != ':' by {
        assert(s[i] == digits[i - a - 1]);
    }
    lemma_next_colon_skips(s, a + 1, b);
    assert(s.subrange(0, a) =~= host_ip);
    assert(s.subrange(a + 1, b) =~= digits);
    assert(s.subrange(b + 1, s.len() as int) =~= token);
}

/// An invite says host, port and token in this order, with a `:` after the host and one after the
/// port, and the port in decimal.
pub proof fn an_invite_says_host_port_and_token(host_ip: Seq<char>, port: u16, token: Seq<char>)
    ensures
        ({
            let s = invite_text(host_ip, port, token);
            let digits = decimal(port as nat);
            let a = host_ip.len() as int;
            let b = a + 1 + digits.len();
            &&& s.len() == a + 1 + digits.len() + 1 + token.len()
            &&& s.take(a) == host_ip
            &&& s[a] == ':'
            &&& s.subrange(a + 1, b) == digits
            &&& s[b] == ':'
            &&& s.skip(b + 1) == token
        }),
{
    let s = invite_text(host_ip, port, token);
    let digits = decimal(port as nat);
    let a = host_ip.len() as int;
    let b = a + 1 + digits.len();
    assert(s.take(a) =~= host_ip);
    assert(s.subrange(a + 1, b) =~= digits);
    assert(s.skip(b + 1) =~= token);
}

proof fn lemma_no_next_colon(s: Seq<char>, from: int)
    requires
        0 <= from <= s.len(),
        forall|i: int| from <= i < s.len() ==> s[i] != ':',
    ensures
        next_colon(s, from) == s.len(),
    decreases s.len() - from,
{
    if from < s.len() {
        lemma_no_next_colon(s, from + 1);
    }
}

/// Any text with two `:` in it is read at the first two: what stands before the first is the host,
/// what stands between them must be the port, and all the rest is the token, whatever it holds. A
/// text with fewer of them is no invite.
pub proof fn invites_are_read_at_two_colons(
    host_ip: Seq<char>,
    number: Seq<char>,
    token: Seq<char>,
    s: Seq<char>,
)
    requires
        !host_ip.contains(':'),
        !number.contains(':'),
    ensures
        s == host_ip + seq![':'] + number + seq![':'] + token ==> match read_int(
            number,
            0,
            u16::MAX as int,
        ) {
            Ok(n) => read_invite_text(s) matches Ok((host, port, rest)) && host == host_ip && port
                == n && rest == token,
            Err(e) => read_invite_text(s) == Err::<(Seq<char>, u16, Seq<char>), _>(
                InviteFault::Port(e),
            ),
        },
        s == host_ip + seq![':'] + number ==> read_invite_text(s) == Err::<
            (Seq<char>, u16, Seq<char>),
            _,
        >(InviteFault::Format),
        s == host_ip ==> read_invite_text(s) == Err::<(Seq<char>, u16, Seq<char>), _>(
            InviteFault::Format,
        ),
{
    let a = host_ip.len() as int;
    let b = a + 1 + number.len();
    crate::text::read_int_in_range(number, 0, u16::MAX as int);
    if s == host_ip + seq![':'] + number + seq![':'] + token || s == host_ip + seq![':'] + number {
        assert forall|i: int| 0 <= i < a implies s[i] != ':' by {
            assert(s[i] == host_ip[i]);
        }
        assert(s[a] == ':');
        lemma_next_colon_skips(s, 0, a);
        assert forall|i: int| a + 1 <= i < b implies s[i] != ':' by {
            assert(s[i] == number[i - a - 1]);
        }
    }
    if s == host_ip + seq![':'] + number + seq![':'] + token {
        assert(s[b] == ':');
        lemma_next_colon_skips(s, a + 1, b);
        assert(s.subrange(0, a) =~= host_ip);
        assert(s.subrange(a + 1, b) =~= number);
        assert(s.subrange(b + 1, s.len() as int) =~= token);
    }
    if s == host_ip + seq![':'] + number {
        lemma_no_next_colon(s, a + 1);
    }
    if s == host_ip {
        assert forall|i: int| 0 <= i < s.len() implies s[i] != ':' by {
            assert(s.contains(s[i]));
        }
        lemma_no_next_colon(s, 0);
    }
}

/// What stops an invite from being read is told as it is: the words of the base64 decoder, or
/// those about bytes that are no text.
pub proof fn refusals_are_told_in_their_words(words: Seq<char>, bytes: Seq<u8>)
    ensures
        read_invite_bytes(Err(words)) == Err::<(Seq<char>, u16, Seq<char>), _>(
            InviteFault::Base64(words),
        ),
        !valid_utf8(bytes) ==> read_invite_bytes(Ok(bytes)) == Err::<
            (Seq<char>, u16, Seq<char>),
            _,
        >(InviteFault::Utf8(utf8_error_text(bytes))),
        valid_utf8(bytes) ==> read_invite_bytes(Ok(bytes)) == read_invite_text(decode_utf8(bytes)),
{
}

/// Host, port and token, or the fault, as sequences.
pub open spec fn invite_view(r: Result<(String, u16, String), InviteError>) -> Result<
    (Seq<char>, u16, Seq<char>),
    InviteFault,
> {
    match r {
        Ok((host, port, token)) => Ok((host@, port, token@)),
        Err(e) => Err(e@),
    }
}

/// The first position of `:` in `v` from `from` on; the length of `v` where there is none.
fn find_colon(v: &Vec<char>, from: usize) -> (i: usize)
    requires
        from <= v@.len(),
    ensures
        from <= i <= v@.len(),
        i == next_colon(v@, from as int),
        i < v@.len() ==> v@[i as int] == ':',
{
    let mut i: usize = from;
    while i < v.len() && v[i] != ':'
        invariant
            from <= i <= v@.len(),
            next_colon(v@, from as int) == next_colon(v@, i as int),
        decreases v@.len() - i,
    {
        i += 1;
    }
    i
}

/// Splits the text of an invite into host, port and token.
pub fn parse_invite(s: &str) -> (r: Result<(String, u16, String), InviteError>)
    ensures
        invite_view(r) == read_invite_text(s@),
{
    let v = chars_of(s);
    let a = find_colon(&v, 0);
    if a == v.len() {
        return Err(InviteError::Format);
    }
    let b = find_colon(&v, a + 1);
    if b == v.len() {
        return Err(InviteError::Format);
    }
    match parse_int(&v, a + 1, b, 0, u16::MAX as i128) {
        Err(e) => Err(InviteError::Port(e)),
        Ok(port) => {
            proof {
                crate::text::read_int_in_range(v@.subrange(a + 1, b as int), 0, u16::MAX as int);
            }
            Ok((text_between(&v, 0, a), port as u16, text_between(&v, b + 1, v.len())))
        },
    }
}

/// Reads an invite from the base64 decoder's answer.
pub fn decode_invite_bytes(decoded: Result<Vec<u8>, String>) -> (r: Result<
    (String, u16, String),
    InviteError,
>)
    ensures
        invite_view(r) == read_invite_bytes(decoded_view(decoded)),
{
    match decoded {
        Err(e) => Err(InviteError::Base64(e)),
        Ok(bytes) => match text_from_utf8(bytes) {
            Err(e) => Err(InviteError::Utf8(e)),
            Ok(s) => parse_invite(s.as_str()),
        },
    }
}

/// Decodes an invite code back to host IP, port and token.
pub fn decode_invite(invite: &str) -> (r: Result<(String, u16, String), InviteError>)
    ensures
        invite_view(r) == read_invite_code(invite@),
{
    decode_invite_bytes(base64url_decode(invite))
}

// ---- Addresses ----

/// The port on which a host waits for its viewers.
pub const SIGNALING_PORT: u16 = 9001;

/// The address that a host listens on.
pub fn listen_address(port: u16) -> (s: String)
    ensures
        s@ == "0.0.0.0:"@ + decimal(port as nat),
{
    "0.0.0.0:".to_string().concat(decimal_text(port as u64).as_str())
}

/// The URL at which a viewer finds the host.
pub open spec fn signaling_url(host_ip: Seq<char>, port: u16) -> Seq<char> {
    "ws://"@ + host_ip + seq![':'] + decimal(port as nat) + seq!['/']
}

/// The URL at which a viewer finds the host.
pub fn viewer_url(host_ip: &str, port: u16) -> (s: String)
    ensures
        s@ == signaling_url(host_ip@, port),
{
    let mut s = "ws://".to_string();
    s.append(host_ip);
    s.push(':');
    s.append(decimal_text(port as u64).as_str());
    s.push('/');
    s
}

/// `s` without any `ws://` at its start, however often it stands there.
pub open spec fn without_scheme(s: Seq<char>) -> Seq<char>
    decreases s.len(),
{
    if s.len() >= 5 && s.subrange(0, 5) == seq!['w', 's', ':', '/', '/'] {
        without_scheme(s.skip(5))
    } else {
        s
    }
}

/// `s` without any `/` at its end.
pub open spec fn without_slashes(s: Seq<char>) -> Seq<char>
    decreases s.len(),
{
    if s.len() > 0 && s.last() == '/' {
        without_slashes(s.drop_last())
    } else {
        s
    }
}

/// The address that a signaling URL names.
pub fn peer_address(url: &str) -> (s: String)
    ensures
        s@ == without_slashes(without_scheme(url@)),
{
    let v = chars_of(url);
    let scheme: Vec<char> = vec!['w', 's', ':', '/', '/'];
    assert(scheme@ =~= seq!['w', 's', ':', '/', '/']);
    let len: usize = v.len();
    let mut lo: usize = 0;
    assert(v@.skip(0) =~= v@);
    while matches_at(&v, &scheme, lo)
        invariant
            lo <= len == v@.len(),
            scheme@ == seq!['w', 's', ':', '/', '/'],
            without_scheme(v@) == without_scheme(v@.skip(lo as int)),
        decreases v@.len() - lo,
    {
        assert(v@.skip(lo as int).subrange(0, 5) =~= v@.subrange(lo as int, lo + 5));
        assert(v@.skip(lo as int).skip(5) =~= v@.skip(lo + 5));
        lo += 5;
    }
    let ghost rest = v@.skip(lo as int);
    proof {
        if rest.len() >= 5 {
            assert(rest.subrange(0, 5) =~= v@.subrange(lo as int, lo + 5));
            assert(!occurs_at(v@, scheme@, lo as int));
        }
        assert(without_scheme(v@) == rest);
        assert(rest =~= v@.subrange(lo as int, v@.len() as int));
    }
    let mut hi: usize = len;
    while lo < hi && v[hi - 1] == '/'
        invariant
            lo <= hi <= v@.len(),
            without_slashes(rest) == without_slashes(v@.subrange(lo as int, hi as int)),
        decreases hi,
    {
        assert(v@.subrange(lo as int, hi as int).drop_last() =~= v@.subrange(lo as int, hi - 1));
        hi -= 1;
    }
    text_between(&v, lo, hi)
}

/// The address in the URL of a host is that host and that port, for every host that does not
/// itself start with the scheme.
pub proof fn url_names_the_host(host_ip: Seq<char>, port: u16)
    requires
        !(host_ip.len() >= 5 && host_ip.subrange(0, 5) == seq!['w', 's', ':', '/', '/']),
    ensures
        without_slashes(without_scheme(signaling_url(host_ip, port))) == host_ip + seq![':']
            + decimal(port as nat),
{
    reveal_strlit("ws://");
    let scheme = seq!['w', 's', ':', '/', '/'];
    let url = signaling_url(host_ip, port);
    let rest = host_ip + seq![':'] + decimal(port as nat) + seq!['/'];
    let address = host_ip + seq![':'] + decimal(port as nat);
    decimal_is_digits(port as nat);
    assert("ws://"@ =~= scheme);
    assert(url.subrange(0, 5) =~= scheme);
    assert(url.skip(5) =~= rest);
    assert(without_scheme(url) == without_scheme(rest));
    if rest.len() >= 5 && rest.subrange(0, 5) == scheme {
        let n = host_ip.len() as int;
        assert forall|i: int| 0 <= i < 5 implies rest[i] == #[trigger] scheme[i] by {
            assert(rest.subrange(0, 5)[i] == rest[i]);
        }
        if n >= 5 {
            assert(host_ip.subrange(0, 5) =~= scheme);
        } else {
            assert(rest[n] == ':');
            assert(rest[n] == scheme[n]);
            assert(n == 2);
            assert(rest[3] == decimal(port as nat)[0]);
            assert(rest[3] == scheme[3]);
        }
        assert(false);
    }
    assert(rest.last() == '/');
    assert(rest.drop_last() =~= address);
    assert(address.last() == decimal(port as nat).last());
    reveal_with_fuel(without_slashes, 2);
}

/// An address is what a URL says without its scheme and without slashes at its end: a scheme more
/// or a slash more changes nothing, and a text that has neither is the address itself.
pub proof fn addresses_stand_without_scheme_and_slashes(s: Seq<char>)
    ensures
        without_scheme(seq!['w', 's', ':', '/', '/'] + s) == without_scheme(s),
        without_slashes(s + seq!['/']) == without_slashes(s),
        !seq!['w', 's', ':', '/', '/'].is_prefix_of(s) ==> without_scheme(s) == s,
        s.len() == 0 || s.last() != '/' ==> without_slashes(s) == s,
{
    let scheme = seq!['w', 's', ':', '/', '/'];
    assert((scheme + s).subrange(0, 5) =~= scheme);
    assert((scheme + s).skip(5) =~= s);
    assert((s + seq!['/']).drop_last() =~= s);
    if s.len() >= 5 && s.subrange(0, 5) == scheme {
        assert(s.subrange(0, scheme.len() as int) == scheme);
        assert(scheme.is_prefix_of(s));
    }
}

// ---- The line protocol ----

/// What the reader of a signaling connection has just seen.
pub enum ReaderEvent {
    /// The other side has closed the connection.
    Eof,
    /// A line has come, with its line end.
    Line(String),
    /// Reading has failed.
    ReadFailed,
    /// The line was a message.
    Parsed(SignalMessage),
    /// The line was no message.
    ParseFailed,
    /// The message was handed to the session.
    Delivered,
    /// The session no longer takes messages.
    ReceiverGone,
}

/// What the reader of a signaling connection does next.
pub enum ReaderAction {
    /// Read one more line.
    ReadLine,
    /// Parse this text as a message.
    Parse(String),
    /// Hand the message to the session.
    Deliver(SignalMessage),
    /// End.
    Stop,
}

/// What the reader does after `event`: blank lines and lines that are no message are passed over,
/// the others are delivered one by one, and the reader ends when either side is gone.
pub open spec fn reader_goes(event: ReaderEvent, action: ReaderAction) -> bool {
    match event {
        ReaderEvent::Eof | ReaderEvent::ReadFailed | ReaderEvent::ReceiverGone => action is Stop,
        ReaderEvent::Line(line) => if trimmed(line@).len() == 0 {
            action is ReadLine
        } else {
            action matches ReaderAction::Parse(text) && text@ == trimmed(line@)
        },
        ReaderEvent::Parsed(message) => action == ReaderAction::Deliver(message),
        ReaderEvent::ParseFailed | ReaderEvent::Delivered => action is ReadLine,
    }
}

/// One step of the reader.
pub fn reader_step(event: ReaderEvent) -> (action: ReaderAction)
    ensures
        reader_goes(event, action),
{
    match event {
        ReaderEvent::Eof | ReaderEvent::ReadFailed | ReaderEvent::ReceiverGone => {
            ReaderAction::Stop
        },
        ReaderEvent::Line(line) => {
            let text = trim(line.as_str());
            if text.as_str().is_empty() {
                ReaderAction::ReadLine
            } else {
                ReaderAction::Parse(text)
            }
        },
        ReaderEvent::Parsed(message) => ReaderAction::Deliver(message),
        ReaderEvent::ParseFailed | ReaderEvent::Delivered => ReaderAction::ReadLine,
    }
}

/// What the writer of a signaling connection has just seen.
pub enum WriterEvent {
    /// The session has ended and sends no more.
    QueueClosed,
    /// A message, as text.
    Serialized(String),
    /// The message could not be made text.
    SerializeFailed,
    /// The line has been sent.
    Written,
    /// Sending has failed.
    WriteFailed,
}

/// What the writer of a signaling connection does next.
pub enum WriterAction {
    /// Wait for the next message.
    NextMessage,
    /// Send this line.
    Write(String),
    /// End.
    Stop,
}

/// What the writer does after `event`: each message goes out as one line of its own.
pub open spec fn writer_goes(event: WriterEvent, action: WriterAction) -> bool {
    match event {
        WriterEvent::QueueClosed | WriterEvent::WriteFailed => action is Stop,
        WriterEvent::Serialized(text) => action matches WriterAction::Write(line) && line@
            == text@.push('\n'),
        WriterEvent::SerializeFailed | WriterEvent::Written => action is NextMessage,
    }
}

/// One step of the writer.
pub fn writer_step(event: WriterEvent) -> (action: WriterAction)
    ensures
        writer_goes(event, action),
{
    match event {
        WriterEvent::QueueClosed | WriterEvent::WriteFailed => WriterAction::Stop,
        WriterEvent::Serialized(text) => {
            let mut line = text;
            line.push('\n');
            WriterAction::Write(line)
        },
        WriterEvent::SerializeFailed | WriterEvent::Written => WriterAction::NextMessage,
    }
}

/// A text that fits on a line: it is not blank, white space stands neither at its start nor at
/// its end, and no line ends inside it. The JSON of a message is such a text.
pub open spec fn is_line_text(text: Seq<char>) -> bool {
    &&& text.len() > 0
    &&& !is_space(text[0])
    &&& !is_space(text.last())
    &&& !text.contains('\n')
}

/// The text of a message survives its way over the line: what the writer sends for it, the
/// reader hands to the parser. It must not be blank or start or end with white space.
pub proof fn line_carries_the_text(text: Seq<char>)
    requires
        text.len() > 0,
        !is_space(text[0]),
        !is_space(text.last()),
    ensures
        trimmed(text.push('\n')) == text,
{
    let line = text.push('\n');
    assert(trim_start(line) == line);
    assert(line.drop_last() =~= text);
    reveal_with_fuel(trim_end, 2);
}

/// How long the first line of a stream is, with its line end; all of the stream where no line
/// ends in it.
pub open spec fn first_line_len(stream: Seq<char>) -> nat
    decreases stream.len(),
{
    if stream.len() == 0 {
        0
    } else if stream[0] == '\n' {
        1
    } else {
        1 + first_line_len(stream.drop_first())
    }
}

/// The first line is a part of the stream, and of a stream that is not empty it is not empty.
pub proof fn the_first_line_is_there(stream: Seq<char>)
    ensures
        first_line_len(stream) <= stream.len(),
        stream.len() > 0 ==> first_line_len(stream) > 0,
    decreases stream.len(),
{
    if stream.len() > 0 {
        the_first_line_is_there(stream.drop_first());
    }
}

/// The lines of a stream, each with its line end, as they are read one after the other.
pub open spec fn lines_of(stream: Seq<char>) -> Seq<Seq<char>>
    decreases stream.len(),
{
    if stream.len() == 0 {
        seq![]
    } else {
        proof {
            the_first_line_is_there(stream);
        }
        let n = first_line_len(stream) as int;
        seq![stream.take(n)] + lines_of(stream.skip(n))
    }
}

/// Texts, each on a line of its own.
pub open spec fn written(texts: Seq<Seq<char>>) -> Seq<char>
    decreases texts.len(),
{
    if texts.len() == 0 {
        seq![]
    } else {
        texts[0].push('\n') + written(texts.drop_first())
    }
}

/// What is left of lines for the parser: the trimmed text of each that is not blank.
pub open spec fn texts_in(lines: Seq<Seq<char>>) -> Seq<Seq<char>>
    decreases lines.len(),
{
    if lines.len() == 0 {
        seq![]
    } else if trimmed(lines.last()).len() == 0 {
        texts_in(lines.drop_last())
    } else {
        texts_in(lines.drop_last()).push(trimmed(lines.last()))
    }
}

proof fn lemma_first_line(text: Seq<char>, rest: Seq<char>)
    requires
        !text.contains('\n'),
    ensures
        first_line_len(text.push('\n') + rest) == text.len() + 1,
    decreases text.len(),
{
    let stream = text.push('\n') + rest;
    if text.len() > 0 {
        let tail = text.drop_first();
        assert(text.contains(text[0]));
        assert(!tail.contains('\n')) by {
            if tail.contains('\n') {
                let i = choose|i: int| 0 <= i < tail.len() && tail[i] == '\n';
                assert(text[i + 1] == '\n');
            }
        }
        lemma_first_line(tail, rest);
        assert(stream.drop_first() =~= tail.push('\n') + rest);
    }
}

/// The lines of what was written are the texts, each with a line end.
proof fn lemma_lines_of_written(texts: Seq<Seq<char>>)
    requires
        forall|i: int| 0 <= i < texts.len() ==> is_line_text(#[trigger] texts[i]),
    ensures
        lines_of(written(texts)) == texts.map_values(|t: Seq<char>| t.push('\n')),
    decreases texts.len(),
{
    let lines = texts.map_values(|t: Seq<char>| t.push('\n'));
    if texts.len() > 0 {
        let tail = texts.drop_first();
        assert forall|i: int| 0 <= i < tail.len() implies is_line_text(#[trigger] tail[i]) by {
            assert(tail[i] == texts[i + 1]);
        }
        lemma_lines_of_written(tail);
        let rest = written(tail);
        let stream = written(texts);
        let n = texts[0].len() + 1;
        assert(is_line_text(texts[0]));
        lemma_first_line(texts[0], rest);
        assert(stream.take(n as int) =~= texts[0].push('\n'));
        assert(stream.skip(n as int) =~= rest);
        assert(lines =~= seq![texts[0].push('\n')] + tail.map_values(
            |t: Seq<char>| t.push('\n'),
        ));
    } else {
        assert(lines =~= seq![]);
    }
}

proof fn lemma_texts_of_lines(texts: Seq<Seq<char>>)
    requires
        forall|i: int| 0 <= i < texts.len() ==> is_line_text(#[trigger] texts[i]),
    ensures
        texts_in(texts.map_values(|t: Seq<char>| t.push('\n'))) == texts,
    decreases texts.len(),
{
    let lines = texts.map_values(|t: Seq<char>| t.push('\n'));
    if texts.len() > 0 {
        let front = texts.drop_last();
        assert forall|i: int| 0 <= i < front.len() implies is_line_text(#[trigger] front[i]) by {
            assert(front[i] == texts[i]);
        }
        lemma_texts_of_lines(front);
        assert(lines.drop_last() =~= front.map_values(|t: Seq<char>| t.push('\n')));
        assert(is_line_text(texts[texts.len() - 1]));
        line_carries_the_text(texts.last());
        assert(front.push(texts.last()) =~= texts);
    } else {
        assert(texts_in(lines) =~= texts);
    }
}

/// A run of texts survives its way over the line: written one after the other and read line by
/// line, the same texts come out, in the same order, none lost, doubled or split.
pub proof fn lines_carry_a_run_of_texts(texts: Seq<Seq<char>>)
    requires
        forall|i: int| 0 <= i < texts.len() ==> is_line_text(#[trigger] texts[i]),
    ensures
        texts_in(lines_of(written(texts))) == texts,
{
    lemma_lines_of_written(texts);
    lemma_texts_of_lines(texts);
}

/// The texts that the writer was given, in order.
pub open spec fn texts_given(events: Seq<WriterEvent>) -> Seq<Seq<char>>
    decreases events.len(),
{
    if events.len() == 0 {
        seq![]
    } else {
        match events[0] {
            WriterEvent::Serialized(text) => seq![text@] + texts_given(events.drop_first()),
            _ => texts_given(events.drop_first()),
        }
    }
}

/// What the writer has sent.
pub open spec fn sent_by(actions: Seq<WriterAction>) -> Seq<char>
    decreases actions.len(),
{
    if actions.len() == 0 {
        seq![]
    } else {
        match actions[0] {
            WriterAction::Write(line) => line@ + sent_by(actions.drop_first()),
            _ => sent_by(actions.drop_first()),
        }
    }
}

/// The writer sends what it is given: each text on a line of its own, in order, and nothing else.
pub proof fn the_writer_sends_every_text(events: Seq<WriterEvent>, actions: Seq<WriterAction>)
    requires
        events.len() == actions.len(),
        forall|i: int|
            #![trigger events[i]]
            0 <= i < events.len() ==> writer_goes(events[i], actions[i]),
    ensures
        sent_by(actions) == written(texts_given(events)),
    decreases events.len(),
{
    if events.len() > 0 {
        let e = events.drop_first();
        let a = actions.drop_first();
        assert forall|i: int| #![trigger e[i]] 0 <= i < e.len() implies writer_goes(e[i], a[i]) by {
            assert(e[i] == events[i + 1]);
        }
        the_writer_sends_every_text(e, a);
        assert(writer_goes(events[0], actions[0]));
        match events[0] {
            WriterEvent::Serialized(text) => {
                assert((seq![text@] + texts_given(e)).drop_first() =~= texts_given(e));
            },
            _ => {},
        }
    }
}

/// The lines that the reader has read, in order.
pub open spec fn lines_read(events: Seq<ReaderEvent>) -> Seq<Seq<char>>
    decreases events.len(),
{
    if events.len() == 0 {
        seq![]
    } else {
        match events.last() {
            ReaderEvent::Line(line) => lines_read(events.drop_last()).push(line@),
            _ => lines_read(events.drop_last()),
        }
    }
}

/// The messages that the reader has handed on, in order.
pub open spec fn delivered(actions: Seq<ReaderAction>) -> Seq<SignalMessage>
    decreases actions.len(),
{
    if actions.len() == 0 {
        seq![]
    } else {
        match actions.last() {
            ReaderAction::Deliver(message) => delivered(actions.drop_last()).push(message),
            _ => delivered(actions.drop_last()),
        }
    }
}

/// `event` tells what became of the reader's `action`, where the parser makes `parse` of a text:
/// a message, or nothing where the text is none.
pub open spec fn reader_follows(
    action: ReaderAction,
    event: ReaderEvent,
    parse: spec_fn(Seq<char>) -> Option<SignalMessage>,
) -> bool {
    match action {
        ReaderAction::ReadLine => event is Line || event is Eof || event is ReadFailed,
        ReaderAction::Parse(text) => event == match parse(text@) {
            Some(message) => ReaderEvent::Parsed(message),
            None => ReaderEvent::ParseFailed,
        },
        ReaderAction::Deliver(_) => event is Delivered || event is ReceiverGone,
        ReaderAction::Stop => false,
    }
}

/// `events` and `actions` are a run of the reader: it begins with reading a line, and each event
/// tells what became of the action before it.
pub open spec fn is_reader_run(
    events: Seq<ReaderEvent>,
    actions: Seq<ReaderAction>,
    parse: spec_fn(Seq<char>) -> Option<SignalMessage>,
) -> bool {
    &&& events.len() == actions.len()
    &&& events.len() > 0 ==> reader_follows(ReaderAction::ReadLine, events[0], parse)
    &&& forall|i: int|
        #![trigger events[i]]
        0 <= i < events.len() ==> reader_goes(events[i], actions[i])
    &&& forall|i: int|
        #![trigger actions[i]]
        0 <= i < events.len() - 1 ==> reader_follows(actions[i], events[i + 1], parse)
}

/// The messages of those texts that are messages, in order.
pub open spec fn messages_in(
    texts: Seq<Seq<char>>,
    parse: spec_fn(Seq<char>) -> Option<SignalMessage>,
) -> Seq<SignalMessage>
    decreases texts.len(),
{
    if texts.len() == 0 {
        seq![]
    } else {
        match parse(texts.last()) {
            Some(message) => messages_in(texts.drop_last(), parse).push(message),
            None => messages_in(texts.drop_last(), parse),
        }
    }
}

/// The message that the parser is still to give, where the run ends before it.
pub open spec fn pending(
    actions: Seq<ReaderAction>,
    parse: spec_fn(Seq<char>) -> Option<SignalMessage>,
) -> Seq<SignalMessage> {
    if actions.len() == 0 {
        seq![]
    } else {
        match actions.last() {
            ReaderAction::Parse(text) => messages_in(seq![text@], parse),
            _ => seq![],
        }
    }
}

/// The reader hands on what it reads: at every point of a run, the messages of all lines so far,
/// one by one and in order. Blank lines and lines that are no message are passed over, wherever
/// they stand, and change nothing about the others.
pub proof fn the_reader_hands_on_every_message(
    events: Seq<ReaderEvent>,
    actions: Seq<ReaderAction>,
    parse: spec_fn(Seq<char>) -> Option<SignalMessage>,
)
    requires
        is_reader_run(events, actions, parse),
    ensures
        delivered(actions) + pending(actions, parse) == messages_in(
            texts_in(lines_read(events)),
            parse,
        ),
        actions.len() > 0 && actions.last() !is Parse ==> delivered(actions) == messages_in(
            texts_in(lines_read(events)),
            parse,
        ),
    decreases events.len(),
{
    let texts = texts_in(lines_read(events));
    let all = messages_in(texts, parse);
    if events.len() == 0 {
        assert(delivered(actions) + pending(actions, parse) =~= all);
    } else {
        let n = events.len() - 1;
        let e = events.drop_last();
        let a = actions.drop_last();
        assert forall|i: int| #![trigger e[i]] 0 <= i < e.len() implies reader_goes(e[i], a[i]) by {
            assert(e[i] == events[i]);
        }
        assert forall|i: int| #![trigger a[i]] 0 <= i < e.len() - 1 implies reader_follows(
            a[i],
            e[i + 1],
            parse,
        ) by {
            assert(a[i] == actions[i]);
            assert(e[i + 1] == events[i + 1]);
        }
        if e.len() > 0 {
            assert(e[0] == events[0]);
        }
        the_reader_hands_on_every_message(e, a, parse);
        let before = texts_in(lines_read(e));
        assert(reader_goes(events[n], actions[n]));
        if n > 0 {
            assert(a.last() == actions[n - 1]);
            assert(reader_follows(actions[n - 1], events[n], parse));
        }
        match events[n] {
            ReaderEvent::Line(line) => {
                assert(pending(a, parse) =~= seq![]);
                assert(delivered(a) =~= messages_in(before, parse));
                assert(lines_read(events).drop_last() =~= lines_read(e));
                assert(lines_read(events).last() == line@);
                if trimmed(line@).len() > 0 {
                    let text = trimmed(line@);
                    assert(texts == before.push(text));
                    assert(texts.drop_last() =~= before);
                    lemma_one_text(text, parse);
                    assert(all =~= messages_in(before, parse) + messages_in(seq![text], parse));
                }
                assert(delivered(actions) + pending(actions, parse) =~= all);
            },
            ReaderEvent::Parsed(message) => {
                let text = actions[n - 1]->Parse_0@;
                lemma_one_text(text, parse);
                assert(pending(a, parse) =~= seq![message]);
                assert(delivered(actions) =~= delivered(a) + seq![message]);
                assert(delivered(actions) + pending(actions, parse) =~= all);
            },
            ReaderEvent::ParseFailed => {
                let text = actions[n - 1]->Parse_0@;
                lemma_one_text(text, parse);
                assert(pending(a, parse) =~= seq![]);
                assert(delivered(actions) + pending(actions, parse) =~= all);
            },
            _ => {
                assert(pending(a, parse) =~= seq![]);
                assert(delivered(actions) + pending(actions, parse) =~= all);
            },
        }
        if actions.last() !is Parse {
            assert(delivered(actions) + pending(actions, parse) =~= delivered(actions));
        }
    }
}

/// The messages of a single text.
proof fn lemma_one_text(text: Seq<char>, parse: spec_fn(Seq<char>) -> Option<SignalMessage>)
    ensures
        messages_in(seq![text], parse) == match parse(text) {
            Some(message) => seq![message],
            None => seq![],
        },
{
    assert(seq![text].drop_last() =~= seq![]);
    assert(messages_in(seq![text].drop_last(), parse) =~= seq![]);
    assert(seq![text].last() == text);
    if let Some(message) = parse(text) {
        assert(messages_in(seq![text], parse) =~= seq![message]);
    }
}

/// A text that is no message can be left out.
pub proof fn a_text_that_is_no_message_changes_nothing(
    before: Seq<Seq<char>>,
    text: Seq<char>,
    after: Seq<Seq<char>>,
    parse: spec_fn(Seq<char>) -> Option<SignalMessage>,
)
    requires
        parse(text) is None,
    ensures
        messages_in(before.push(text) + after, parse) == messages_in(before + after, parse),
    decreases after.len(),
{
    if after.len() == 0 {
        assert(before.push(text) + after =~= before.push(text));
        assert(before.push(text).drop_last() =~= before);
        assert(before + after =~= before);
    } else {
        a_text_that_is_no_message_changes_nothing(before, text, after.drop_last(), parse);
        assert((before.push(text) + after).drop_last() =~= before.push(text) + after.drop_last());
        assert((before + after).drop_last() =~= before + after.drop_last());
    }
}

/// The messages of the texts of messages are the messages.
proof fn lemma_messages_of_their_texts(
    messages: Seq<SignalMessage>,
    print: spec_fn(SignalMessage) -> Seq<char>,
    parse: spec_fn(Seq<char>) -> Option<SignalMessage>,
)
    requires
        forall|i: int|
            0 <= i < messages.len() ==> parse(print(#[trigger] messages[i])) == Some(messages[i]),
    ensures
        messages_in(messages.map_values(print), parse) == messages,
    decreases messages.len(),
{
    let texts = messages.map_values(print);
    if messages.len() == 0 {
        assert(messages_in(texts, parse) =~= messages);
    } else {
        let front = messages.drop_last();
        assert forall|i: int| 0 <= i < front.len() implies parse(print(#[trigger] front[i]))
            == Some(front[i]) by {
            assert(front[i] == messages[i]);
        }
        lemma_messages_of_their_texts(front, print, parse);
        assert(texts.drop_last() =~= front.map_values(print));
        assert(texts.last() == print(messages[messages.len() - 1]));
        assert(front.push(messages.last()) =~= messages);
    }
}

/// Messages arrive as they were sent: where a connection does not fail, the messages that the
/// writer at one end was given come out of the reader at the other end, the same ones, in the
/// same order, none lost, doubled or split. `print` is the text of a message and `parse` what the
/// parser makes of a text; a message that is sent survives the two.
pub proof fn messages_arrive_as_they_were_sent(
    messages: Seq<SignalMessage>,
    print: spec_fn(SignalMessage) -> Seq<char>,
    parse: spec_fn(Seq<char>) -> Option<SignalMessage>,
    w_events: Seq<WriterEvent>,
    w_actions: Seq<WriterAction>,
    r_events: Seq<ReaderEvent>,
    r_actions: Seq<ReaderAction>,
)
    requires
        forall|i: int|
            0 <= i < messages.len() ==> is_line_text(print(#[trigger] messages[i])) && parse(
                print(messages[i]),
            ) == Some(messages[i]),
        w_events.len() == w_actions.len(),
        forall|i: int|
            #![trigger w_events[i]]
            0 <= i < w_events.len() ==> writer_goes(w_events[i], w_actions[i]),
        texts_given(w_events) == messages.map_values(print),
        is_reader_run(r_events, r_actions, parse),
        lines_read(r_events) == lines_of(sent_by(w_actions)),
        r_events.len() > 0,
        r_actions.last() is Stop,
    ensures
        sent_by(w_actions) == written(messages.map_values(print)),
        delivered(r_actions) == messages,
{
    let texts = messages.map_values(print);
    the_writer_sends_every_text(w_events, w_actions);
    assert forall|i: int| 0 <= i < texts.len() implies is_line_text(#[trigger] texts[i]) by {
        assert(texts[i] == print(messages[i]));
    }
    lines_carry_a_run_of_texts(texts);
    the_reader_hands_on_every_message(r_events, r_actions, parse);
    lemma_messages_of_their_texts(messages, print, parse);
}

/// The reader ends when the connection or the session is gone, and never otherwise: a line that is
/// blank or no message does not end it.
pub proof fn the_reader_ends_only_with_a_side(event: ReaderEvent, action: ReaderAction)
    requires
        reader_goes(event, action),
    ensures
        action is Stop <==> event is Eof || event is ReadFailed || event is ReceiverGone,
        event is ParseFailed || event is Delivered ==> action is ReadLine,
        action is Parse ==> event is Line,
        match event {
            ReaderEvent::Parsed(message) => action == ReaderAction::Deliver(message),
            _ => action !is Deliver,
        },
{
}

/// The writer ends when the connection or the session is gone, and never otherwise: a message that
/// cannot be made text is left out, and every other one is written as it is, with a line end.
pub proof fn the_writer_ends_only_with_a_side(event: WriterEvent, action: WriterAction)
    requires
        writer_goes(event, action),
    ensures
        action is Stop <==> event is QueueClosed || event is WriteFailed,
        match event {
            WriterEvent::Serialized(text) => action matches WriterAction::Write(line)
                && line@.drop_last() == text@ && line@.last() == '\n',
            _ => action !is Write,
        },
        event is Written || event is SerializeFailed ==> action is NextMessage,
{
    match event {
        WriterEvent::Serialized(text) => {
            assert(text@.push('\n').drop_last() =~= text@);
        },
        _ => {},
    }
}

} // verus!
