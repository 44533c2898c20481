//! The one-shot hello exchange that opens every connection attempt: the
//! client sends a JSON `ClientHello` as a single message and awaits a single
//! JSON `ServerHello` reply.
//!
//! The encoder emits the compact object form with `"` and `\` escaped and
//! control bytes written as `\u00XX`. The decoder accepts the compact forms
//! the relay emits — a bare string for the failure variants, the nested
//! `Success` object otherwise — with the short escapes `\" \\ \/ \b \f \n
//! \r \t` and `\u00XX` escapes of seven-bit values (the form the relay
//! writes control characters in) in the sub-domain; anything else is a
//! malformed reply.

use vstd::prelude::*;
use vstd::utf8::decode_utf8;
use vstd::utf8::encode_utf8;
use vstd::utf8::valid_utf8;

verus! {

/// What the client offers the relay: its identity (empty on a first
/// connect), the authentication proof derived from the shared secret and
/// the attempt's nonce, and the requested sub-domain, if any. Built fresh
/// for every attempt.
pub struct ClientHello {
    pub id: String,
    pub key: String,
    pub sub_domain: Option<String>,
}

/// The relay's terminal reply to exactly one `ClientHello`.
pub enum ServerHello {
    Success { sub_domain: String },
    AuthFailed,
    InvalidSubDomain,
    SubDomainInUse,
}

/// Model of a reply: the assigned sub-domain as a character sequence.
pub enum ServerHelloView {
    Success(Seq<char>),
    AuthFailed,
    InvalidSubDomain,
    SubDomainInUse,
}

impl View for ServerHello {
    type V = ServerHelloView;

    open spec fn view(&self) -> ServerHelloView {
        match self {
            ServerHello::Success { sub_domain } => ServerHelloView::Success(sub_domain@),
            ServerHello::AuthFailed => ServerHelloView::AuthFailed,
            ServerHello::InvalidSubDomain => ServerHelloView::InvalidSubDomain,
            ServerHello::SubDomainInUse => ServerHelloView::SubDomainInUse,
        }
    }
}

/// Every way one handshake attempt can fail, and on whose account.
#[derive(Clone, Copy, PartialEq, Eq, Structural, Debug)]
pub enum HandshakeError {
    /// The relay denied the authentication proof; the configuration is wrong.
    AuthFailed,
    /// The relay rejected the requested sub-domain as invalid.
    InvalidSubDomain,
    /// The requested sub-domain is already taken.
    SubDomainInUse,
    /// The reply was no `ServerHello`.
    MalformedReply,
    /// The relay closed without replying at all.
    EmptyReply,
    /// The transport broke while sending the hello or awaiting the reply.
    TransportFailed,
}

/// The ASCII code of one hex digit.
pub open spec fn spec_hex_digit(d: u8) -> u8
    recommends
        d < 16,
{
    if d < 10 {
        (48 + d) as u8
    } else {
        (87 + d) as u8
    }
}

/// How one byte of string content appears inside a JSON string.
pub open spec fn escaped_byte(b: u8) -> Seq<u8> {
    if b == 34 {
        seq![92u8, 34u8]
    } else if b == 92 {
        seq![92u8, 92u8]
    } else if b < 32 {
        seq![92u8, 117u8, 48u8, 48u8, spec_hex_digit(b / 16), spec_hex_digit(b % 16)]
    } else {
        seq![b]
    }
}

/// The escaped content of a JSON string, byte for byte.
pub open spec fn escape_bytes(s: Seq<u8>) -> Seq<u8>
    decreases s.len(),
{
    if s.len() == 0 {
        Seq::empty()
    } else {
        escape_bytes(s.drop_last()) + escaped_byte(s.last())
    }
}

/// A quoted, escaped JSON string.
pub open spec fn json_string(s: Seq<u8>) -> Seq<u8> {
    seq![34u8] + escape_bytes(s) + seq![34u8]
}

/// The view of an optional string field.
pub open spec fn opt_str_view(o: Option<String>) -> Option<Seq<char>> {
    match o {
        Some(s) => Some(s@),
        None => None,
    }
}

/// The exact bytes a `ClientHello` is sent as.
pub open spec fn client_hello_bytes(id: Seq<char>, key: Seq<char>, sub: Option<Seq<char>>) -> Seq<
    u8,
> {
    seq![123u8, 34u8, 105u8, 100u8, 34u8, 58u8] + json_string(encode_utf8(id)) + seq![
        44u8,
        34u8,
        107u8,
        101u8,
        121u8,
        34u8,
        58u8,
    ] + json_string(encode_utf8(key)) + seq![
        44u8,
        34u8,
        115u8,
        117u8,
        98u8,
        95u8,
        100u8,
        111u8,
        109u8,
        97u8,
        105u8,
        110u8,
        34u8,
        58u8,
    ] + (match sub {
        Some(s) => json_string(encode_utf8(s)),
        None => seq![110u8, 117u8, 108u8, 108u8],
    }) + seq![125u8]
}

fn hex_digit(d: u8) -> (r: u8)
    requires
        d < 16,
    ensures
        r == spec_hex_digit(d),
{
    if d < 10 {
        48 + d
    } else {
        87 + d
    }
}

fn push_json_string(out: &mut Vec<u8>, s: &String)
    ensures
        final(out)@ == old(out)@ + json_string(encode_utf8(s@)),
{
    out.push(34);
    let bytes: &[u8] = s.as_str().as_bytes();
    let mut i: usize = 0;
    while i < bytes.len()
        invariant
            i <= bytes@.len(),
            bytes@ == encode_utf8(s@),
            out@ == old(out)@ + seq![34u8] + escape_bytes(bytes@.take(i as int)),
        decreases bytes@.len() - i,
    {
        let b = bytes[i];
        if b == 34 {
            out.push(92);
            out.push(34);
        } else if b == 92 {
            out.push(92);
            out.push(92);
        } else if b < 32 {
            out.push(92);
            out.push(117);
            out.push(48);
            out.push(48);
            out.push(hex_digit(b / 16));
            out.push(hex_digit(b % 16));
        } else {
            out.push(b);
        }
        i = i + 1;
        proof {
            let t = bytes@.take(i as int);
            assert(t.drop_last() =~= bytes@.take(i - 1));
            assert(t.last() == bytes@[i - 1]);
            assert(out@ =~= old(out)@ + seq![34u8] + escape_bytes(t));
        }
    }
    out.push(34);
    proof {
        assert(bytes@.take(bytes@.len() as int) =~= bytes@);
        assert(out@ =~= old(out)@ + json_string(encode_utf8(s@)));
    }
}

/// The lower-case character of one hex digit.
pub open spec fn hex_char(d: u8) -> char {
    if d == 0 {
        '0'
    } else if d == 1 {
        '1'
    } else if d == 2 {
        '2'
    } else if d == 3 {
        '3'
    } else if d == 4 {
        '4'
    } else if d == 5 {
        '5'
    } else if d == 6 {
        '6'
    } else if d == 7 {
        '7'
    } else if d == 8 {
        '8'
    } else if d == 9 {
        '9'
    } else if d == 10 {
        'a'
    } else if d == 11 {
        'b'
    } else if d == 12 {
        'c'
    } else if d == 13 {
        'd'
    } else if d == 14 {
        'e'
    } else {
        'f'
    }
}

/// The `i`-th nibble of the nonce, highest first.
pub open spec fn nibble(nonce: u64, i: int) -> u8 {
    ((nonce >> (((15 - i) * 4) as u64)) & 0xf) as u8
}

/// The authentication proof of one attempt: the shared secret, a colon, and
/// the attempt's nonce as sixteen fixed-width hex digits. The nonce part
/// makes the proof fresh per attempt ([`lemma_fresh_proof`]).
pub open spec fn proof_chars(secret: Seq<char>, nonce: u64) -> Seq<char> {
    secret + seq![':'] + Seq::new(16, |i: int| hex_char(nibble(nonce, i)))
}

proof fn lemma_nibble_masks(x: u64)
    ensures
        (x >> 60) & 0xf < 16,
        (x >> 56) & 0xf < 16,
        (x >> 52) & 0xf < 16,
        (x >> 48) & 0xf < 16,
        (x >> 44) & 0xf < 16,
        (x >> 40) & 0xf < 16,
        (x >> 36) & 0xf < 16,
        (x >> 32) & 0xf < 16,
        (x >> 28) & 0xf < 16,
        (x >> 24) & 0xf < 16,
        (x >> 20) & 0xf < 16,
        (x >> 16) & 0xf < 16,
        (x >> 12) & 0xf < 16,
        (x >> 8) & 0xf < 16,
        (x >> 4) & 0xf < 16,
        x & 0xf < 16,
{
    assert((x >> 60) & 0xf < 16 && (x >> 56) & 0xf < 16 && (x >> 52) & 0xf < 16 && (x >> 48) & 0xf
        < 16 && (x >> 44) & 0xf < 16 && (x >> 40) & 0xf < 16 && (x >> 36) & 0xf < 16 && (x >> 32)
        & 0xf < 16 && (x >> 28) & 0xf < 16 && (x >> 24) & 0xf < 16 && (x >> 20) & 0xf < 16 && (x
        >> 16) & 0xf < 16 && (x >> 12) & 0xf < 16 && (x >> 8) & 0xf < 16 && (x >> 4) & 0xf < 16
        && x & 0xf < 16) by (bit_vector);
}


/// A fresh nonce gives a fresh proof: two attempts under the same secret
/// but different nonces never send the same authentication proof, so a
/// captured hello does not replay as a later attempt.
#[verifier::rlimit(100)]
pub proof fn lemma_fresh_proof(secret: Seq<char>, n1: u64, n2: u64)
    requires
        n1 != n2,
    ensures
        proof_chars(secret, n1) != proof_chars(secret, n2),
{
    if proof_chars(secret, n1) == proof_chars(secret, n2) {
        let p1 = proof_chars(secret, n1);
        let p2 = proof_chars(secret, n2);
        let base = secret.len() as int;
        lemma_nibble_masks(n1);
        lemma_nibble_masks(n2);
        assert forall|a: u8, b: u8| a < 16 && b < 16 && hex_char(a) == hex_char(b) implies a
            == b by {}
        assert(p1[base + 1 + 0] == hex_char(nibble(n1, 0)) && p2[base + 1 + 0] == hex_char(
            nibble(n2, 0),
        ));
        assert((n1 >> 60) & 0xf == (n2 >> 60) & 0xf);
        assert(p1[base + 1 + 1] == hex_char(nibble(n1, 1)) && p2[base + 1 + 1] == hex_char(
            nibble(n2, 1),
        ));
        assert((n1 >> 56) & 0xf == (n2 >> 56) & 0xf);
        assert(p1[base + 1 + 2] == hex_char(nibble(n1, 2)) && p2[base + 1 + 2] == hex_char(
            nibble(n2, 2),
        ));
        assert((n1 >> 52) & 0xf == (n2 >> 52) & 0xf);
        assert(p1[base + 1 + 3] == hex_char(nibble(n1, 3)) && p2[base + 1 + 3] == hex_char(
            nibble(n2, 3),
        ));
        assert((n1 >> 48) & 0xf == (n2 >> 48) & 0xf);
        assert(p1[base + 1 + 4] == hex_char(nibble(n1, 4)) && p2[base + 1 + 4] == hex_char(
            nibble(n2, 4),
        ));
        assert((n1 >> 44) & 0xf == (n2 >> 44) & 0xf);
        assert(p1[base + 1 + 5] == hex_char(nibble(n1, 5)) && p2[base + 1 + 5] == hex_char(
            nibble(n2, 5),
        ));
        assert((n1 >> 40) & 0xf == (n2 >> 40) & 0xf);
        assert(p1[base + 1 + 6] == hex_char(nibble(n1, 6)) && p2[base + 1 + 6] == hex_char(
            nibble(n2, 6),
        ));
        assert((n1 >> 36) & 0xf == (n2 >> 36) & 0xf);
        assert(p1[base + 1 + 7] == hex_char(nibble(n1, 7)) && p2[base + 1 + 7] == hex_char(
            nibble(n2, 7),
        ));
        assert((n1 >> 32) & 0xf == (n2 >> 32) & 0xf);
        assert(p1[base + 1 + 8] == hex_char(nibble(n1, 8)) && p2[base + 1 + 8] == hex_char(
            nibble(n2, 8),
        ));
        assert((n1 >> 28) & 0xf == (n2 >> 28) & 0xf);
        assert(p1[base + 1 + 9] == hex_char(nibble(n1, 9)) && p2[base + 1 + 9] == hex_char(
            nibble(n2, 9),
        ));
        assert((n1 >> 24) & 0xf == (n2 >> 24) & 0xf);
        assert(p1[base + 1 + 10] == hex_char(nibble(n1, 10)) && p2[base + 1 + 10] == hex_char(
            nibble(n2, 10),
        ));
        assert((n1 >> 20) & 0xf == (n2 >> 20) & 0xf);
        assert(p1[base + 1 + 11] == hex_char(nibble(n1, 11)) && p2[base + 1 + 11] == hex_char(
            nibble(n2, 11),
        ));
        assert((n1 >> 16) & 0xf == (n2 >> 16) & 0xf);
        assert(p1[base + 1 + 12] == hex_char(nibble(n1, 12)) && p2[base + 1 + 12] == hex_char(
            nibble(n2, 12),
        ));
        assert((n1 >> 12) & 0xf == (n2 >> 12) & 0xf);
        assert(p1[base + 1 + 13] == hex_char(nibble(n1, 13)) && p2[base + 1 + 13] == hex_char(
            nibble(n2, 13),
        ));
        assert((n1 >> 8) & 0xf == (n2 >> 8) & 0xf);
        assert(p1[base + 1 + 14] == hex_char(nibble(n1, 14)) && p2[base + 1 + 14] == hex_char(
            nibble(n2, 14),
        ));
        assert((n1 >> 4) & 0xf == (n2 >> 4) & 0xf);
        assert(p1[base + 1 + 15] == hex_char(nibble(n1, 15)) && p2[base + 1 + 15] == hex_char(
            nibble(n2, 15),
        ));
        assert((n1 >> 0) & 0xf < 16 && (n2 >> 0) & 0xf < 16) by (bit_vector);
        assert((n1 >> 0) & 0xf == (n2 >> 0) & 0xf);
        assert(n1 == n2) by (bit_vector)
            requires
                (n1 >> 60) & 0xf == (n2 >> 60) & 0xf,
                (n1 >> 56) & 0xf == (n2 >> 56) & 0xf,
                (n1 >> 52) & 0xf == (n2 >> 52) & 0xf,
                (n1 >> 48) & 0xf == (n2 >> 48) & 0xf,
                (n1 >> 44) & 0xf == (n2 >> 44) & 0xf,
                (n1 >> 40) & 0xf == (n2 >> 40) & 0xf,
                (n1 >> 36) & 0xf == (n2 >> 36) & 0xf,
                (n1 >> 32) & 0xf == (n2 >> 32) & 0xf,
                (n1 >> 28) & 0xf == (n2 >> 28) & 0xf,
                (n1 >> 24) & 0xf == (n2 >> 24) & 0xf,
                (n1 >> 20) & 0xf == (n2 >> 20) & 0xf,
                (n1 >> 16) & 0xf == (n2 >> 16) & 0xf,
                (n1 >> 12) & 0xf == (n2 >> 12) & 0xf,
                (n1 >> 8) & 0xf == (n2 >> 8) & 0xf,
                (n1 >> 4) & 0xf == (n2 >> 4) & 0xf,
                (n1 >> 0) & 0xf == (n2 >> 0) & 0xf,
        ;
        assert(false);
    }
}

fn hex_char_of(d: u8) -> (r: char)
    requires
        d < 16,
    ensures
        r == hex_char(d),
{
    if d == 0 {
        '0'
    } else if d == 1 {
        '1'
    } else if d == 2 {
        '2'
    } else if d == 3 {
        '3'
    } else if d == 4 {
        '4'
    } else if d == 5 {
        '5'
    } else if d == 6 {
        '6'
    } else if d == 7 {
        '7'
    } else if d == 8 {
        '8'
    } else if d == 9 {
        '9'
    } else if d == 10 {
        'a'
    } else if d == 11 {
        'b'
    } else if d == 12 {
        'c'
    } else if d == 13 {
        'd'
    } else if d == 14 {
        'e'
    } else {
        'f'
    }
}

/// Relies on `String::push`: appends exactly the one given character.
#[verifier::external_body]
fn push_char(s: &mut String, c: char)
    ensures
        final(s)@ == old(s)@.push(c),
{
    s.push(c);
}

impl ClientHello {
    /// A fresh hello for one connection attempt: the configured identity (or
    /// the empty one on a first connect), the authentication proof freshly
    /// derived from the shared secret and this attempt's nonce, and the
    /// requested sub-domain. Also returns the identity the attempt runs
    /// under. The negotiator keeps no state: every attempt draws a new nonce
    /// and so sends a new proof.
    #[verifier::rlimit(100)]
    pub fn generate(
        client_id: Option<String>,
        secret_key: &String,
        sub_domain: Option<String>,
        nonce: u64,
    ) -> (r: (ClientHello, String))
        ensures
            (match client_id {
                Some(id) => r.0.id@ == id@,
                None => r.0.id@ == Seq::<char>::empty(),
            }),
            r.0.key@ == proof_chars(secret_key@, nonce),
            opt_str_view(r.0.sub_domain) == opt_str_view(sub_domain),
            r.1@ == r.0.id@,
    {
        let id = match client_id {
            Some(s) => s,
            None => String::new(),
        };
        let shown = id.clone();
        let mut key = secret_key.clone();
        push_char(&mut key, ':');
        proof {
            assert(key@ =~= secret_key@ + seq![':'] + Seq::new(0nat, |i: int| hex_char(
                nibble(nonce, i),
            )));
        }
        let mut j: usize = 0;
        while j < 16
            invariant
                j <= 16,
                key@ == secret_key@ + seq![':'] + Seq::new(j as nat, |i: int| hex_char(
                    nibble(nonce, i),
                )),
            decreases 16 - j,
        {
            let shift: u64 = ((15 - j) * 4) as u64;
            let d: u8 = ((nonce >> shift) & 0xf) as u8;
            proof {
                assert((nonce >> shift) & 0xf < 16) by (bit_vector);
                assert(d == nibble(nonce, j as int));
            }
            push_char(&mut key, hex_char_of(d));
            j = j + 1;
            proof {
                assert(key@ =~= secret_key@ + seq![':'] + Seq::new(j as nat, |i: int| hex_char(
                    nibble(nonce, i),
                )));
            }
        }
        proof {
            assert(key@ =~= proof_chars(secret_key@, nonce));
        }
        (ClientHello { id, key, sub_domain }, shown)
    }

    /// Encodes this hello as the single JSON message the relay is sent.
    #[verifier::rlimit(30)]
    pub fn encode(&self) -> (r: Vec<u8>)
        ensures
            r@ == client_hello_bytes(self.id@, self.key@, opt_str_view(self.sub_domain)),
    {
        let mut out: Vec<u8> = Vec::new();
        out.push(123u8);
        out.push(34u8);
        out.push(105u8);
        out.push(100u8);
        out.push(34u8);
        out.push(58u8);
        push_json_string(&mut out, &self.id);
        out.push(44u8);
        out.push(34u8);
        out.push(107u8);
        out.push(101u8);
        out.push(121u8);
        out.push(34u8);
        out.push(58u8);
        push_json_string(&mut out, &self.key);
        out.push(44u8);
        out.push(34u8);
        out.push(115u8);
        out.push(117u8);
        out.push(98u8);
        out.push(95u8);
        out.push(100u8);
        out.push(111u8);
        out.push(109u8);
        out.push(97u8);
        out.push(105u8);
        out.push(110u8);
        out.push(34u8);
        out.push(58u8);
        match &self.sub_domain {
            Some(s) => {
                push_json_string(&mut out, s);
            },
            None => {
                out.push(110u8);
                out.push(117u8);
                out.push(108u8);
                out.push(108u8);
            },
        }
        out.push(125u8);
        proof {
            assert(out@ =~= client_hello_bytes(
                self.id@,
                self.key@,
                opt_str_view(self.sub_domain),
            ));
        }
        out
    }
}

/// The byte a short escape stands for, if the escape exists.
pub open spec fn short_escape(b: u8) -> Option<u8> {
    if b == 34 {
        Some(34u8)
    } else if b == 92 {
        Some(92u8)
    } else if b == 47 {
        Some(47u8)
    } else if b == 98 {
        Some(8u8)
    } else if b == 102 {
        Some(12u8)
    } else if b == 110 {
        Some(10u8)
    } else if b == 114 {
        Some(13u8)
    } else if b == 116 {
        Some(9u8)
    } else {
        None
    }
}

/// The value of one hex digit, either case.
pub open spec fn hex_val(b: u8) -> Option<u8> {
    if 48 <= b && b <= 57 {
        Some((b - 48) as u8)
    } else if 97 <= b && b <= 102 {
        Some((b - 87) as u8)
    } else if 65 <= b && b <= 70 {
        Some((b - 55) as u8)
    } else {
        None
    }
}

/// Whether six bytes spell a `\u00XX` escape for a seven-bit value.
pub open spec fn is_u_escape(s: Seq<u8>) -> bool {
    &&& s.len() >= 6
    &&& s[1] == 117
    &&& s[2] == 48
    &&& s[3] == 48
    &&& hex_val(s[4]) is Some
    &&& hex_val(s[5]) is Some
    &&& hex_val(s[4])->0 * 16 + hex_val(s[5])->0 < 128
}

/// The byte a `\u00XX` escape stands for.
pub open spec fn u_escape_byte(s: Seq<u8>) -> u8 {
    (hex_val(s[4])->0 * 16 + hex_val(s[5])->0) as u8
}

/// Undoes JSON string escaping: `None` where the content is no legal string
/// body — a bare quote, a bare control byte, or an escape this decoder does
/// not accept.
pub open spec fn unescape(s: Seq<u8>) -> Option<Seq<u8>>
    decreases s.len(),
{
    if s.len() == 0 {
        Some(Seq::empty())
    } else if s[0] == 92 {
        if s.len() >= 2 && s[1] == 117 {
            if is_u_escape(s) {
                match unescape(s.skip(6)) {
                    Some(rest) => Some(seq![u_escape_byte(s)] + rest),
                    None => None,
                }
            } else {
                None
            }
        } else if s.len() >= 2 && short_escape(s[1]) is Some {
            match unescape(s.skip(2)) {
                Some(rest) => Some(seq![short_escape(s[1])->0] + rest),
                None => None,
            }
        } else {
            None
        }
    } else if s[0] == 34 || s[0] < 32 {
        None
    } else {
        match unescape(s.skip(1)) {
            Some(rest) => Some(seq![s[0]] + rest),
            None => None,
        }
    }
}

fn hex_val_of(b: u8) -> (r: Option<u8>)
    ensures
        r == hex_val(b),
        (r matches Some(v) ==> v < 16),
{
    if 48 <= b && b <= 57 {
        Some(b - 48)
    } else if 97 <= b && b <= 102 {
        Some(b - 87)
    } else if 65 <= b && b <= 70 {
        Some(b - 55)
    } else {
        None
    }
}

/// The reply bytes naming `AuthFailed`.
pub open spec fn auth_failed_lit() -> Seq<u8> {
    seq![34u8, 65u8, 117u8, 116u8, 104u8, 70u8, 97u8, 105u8, 108u8, 101u8, 100u8, 34u8]
}

/// The reply bytes naming `InvalidSubDomain`.
pub open spec fn invalid_sub_domain_lit() -> Seq<u8> {
    seq![
        34u8,
        73u8,
        110u8,
        118u8,
        97u8,
        108u8,
        105u8,
        100u8,
        83u8,
        117u8,
        98u8,
        68u8,
        111u8,
        109u8,
        97u8,
        105u8,
        110u8,
        34u8,
    ]
}

/// The reply bytes naming `SubDomainInUse`.
pub open spec fn sub_domain_in_use_lit() -> Seq<u8> {
    seq![
        34u8,
        83u8,
        117u8,
        98u8,
        68u8,
        111u8,
        109u8,
        97u8,
        105u8,
        110u8,
        73u8,
        110u8,
        85u8,
        115u8,
        101u8,
        34u8,
    ]
}

/// What a `Success` reply opens with, up to the sub-domain's first byte.
pub open spec fn success_prefix() -> Seq<u8> {
    seq![
        123u8,
        34u8,
        83u8,
        117u8,
        99u8,
        99u8,
        101u8,
        115u8,
        115u8,
        34u8,
        58u8,
        123u8,
        34u8,
        115u8,
        117u8,
        98u8,
        95u8,
        100u8,
        111u8,
        109u8,
        97u8,
        105u8,
        110u8,
        34u8,
        58u8,
        34u8,
    ]
}

/// What a `Success` reply closes with.
pub open spec fn success_suffix() -> Seq<u8> {
    seq![34u8, 125u8, 125u8]
}

/// Total parse of one reply message: exactly one `ServerHello`, or nothing.
pub open spec fn spec_parse_server_hello(s: Seq<u8>) -> Option<ServerHelloView> {
    if s == auth_failed_lit() {
        Some(ServerHelloView::AuthFailed)
    } else if s == invalid_sub_domain_lit() {
        Some(ServerHelloView::InvalidSubDomain)
    } else if s == sub_domain_in_use_lit() {
        Some(ServerHelloView::SubDomainInUse)
    } else if s.len() >= 29 && s.take(26) == success_prefix() && s.skip(s.len() - 3)
        == success_suffix() {
        match unescape(s.subrange(26, s.len() - 3)) {
            Some(content) => if valid_utf8(content) {
                Some(ServerHelloView::Success(decode_utf8(content)))
            } else {
                None
            },
            None => None,
        }
    } else {
        None
    }
}

/// Relies on `String::from_utf8`: it succeeds exactly on valid UTF-8, and
/// the returned string holds those very bytes.
#[verifier::external_body]
fn bytes_to_string(v: Vec<u8>) -> (r: Option<String>)
    ensures
        r is Some <==> valid_utf8(v@),
        (r matches Some(s) ==> s@ == decode_utf8(v@)),
{
    String::from_utf8(v).ok()
}

/// Whether two byte vectors hold the same bytes.
fn bytes_eq(a: &Vec<u8>, b: &Vec<u8>) -> (r: bool)
    ensures
        r == (a@ == b@),
{
    if a.len() != b.len() {
        return false;
    }
    let mut i: usize = 0;
    while i < a.len()
        invariant
            i <= a@.len(),
            a@.len() == b@.len(),
            forall|k: int| 0 <= k < i ==> a@[k] == b@[k],
        decreases a@.len() - i,
    {
        if a[i] != b[i] {
            return false;
        }
        i = i + 1;
    }
    proof {
        assert(a@ =~= b@);
    }
    true
}

fn auth_failed_vec() -> (r: Vec<u8>)
    ensures
        r@ == auth_failed_lit(),
{
    let mut v: Vec<u8> = Vec::new();
    v.push(34u8);
    v.push(65u8);
    v.push(117u8);
    v.push(116u8);
    v.push(104u8);
    v.push(70u8);
    v.push(97u8);
    v.push(105u8);
    v.push(108u8);
    v.push(101u8);
    v.push(100u8);
    v.push(34u8);
    proof {
        assert(v@ =~= auth_failed_lit());
    }
    v
}

fn invalid_sub_domain_vec() -> (r: Vec<u8>)
    ensures
        r@ == invalid_sub_domain_lit(),
{
    let mut v: Vec<u8> = Vec::new();
    v.push(34u8);
    v.push(73u8);
    v.push(110u8);
    v.push(118u8);
    v.push(97u8);
    v.push(108u8);
    v.push(105u8);
    v.push(100u8);
    v.push(83u8);
    v.push(117u8);
    v.push(98u8);
    v.push(68u8);
    v.push(111u8);
    v.push(109u8);
    v.push(97u8);
    v.push(105u8);
    v.push(110u8);
    v.push(34u8);
    proof {
        assert(v@ =~= invalid_sub_domain_lit());
    }
    v
}

fn sub_domain_in_use_vec() -> (r: Vec<u8>)
    ensures
        r@ == sub_domain_in_use_lit(),
{
    let mut v: Vec<u8> = Vec::new();
    v.push(34u8);
    v.push(83u8);
    v.push(117u8);
    v.push(98u8);
    v.push(68u8);
    v.push(111u8);
    v.push(109u8);
    v.push(97u8);
    v.push(105u8);
    v.push(110u8);
    v.push(73u8);
    v.push(110u8);
    v.push(85u8);
    v.push(115u8);
    v.push(101u8);
    v.push(34u8);
    proof {
        assert(v@ =~= sub_domain_in_use_lit());
    }
    v
}

fn success_prefix_vec() -> (r: Vec<u8>)
    ensures
        r@ == success_prefix(),
{
    let mut v: Vec<u8> = Vec::new();
    v.push(123u8);
    v.push(34u8);
    v.push(83u8);
    v.push(117u8);
    v.push(99u8);
    v.push(99u8);
    v.push(101u8);
    v.push(115u8);
    v.push(115u8);
    v.push(34u8);
    v.push(58u8);
    v.push(123u8);
    v.push(34u8);
    v.push(115u8);
    v.push(117u8);
    v.push(98u8);
    v.push(95u8);
    v.push(100u8);
    v.push(111u8);
    v.push(109u8);
    v.push(97u8);
    v.push(105u8);
    v.push(110u8);
    v.push(34u8);
    v.push(58u8);
    v.push(34u8);
    proof {
        assert(v@ =~= success_prefix());
    }
    v
}

fn unescape_from(data: &Vec<u8>, i: usize, end: usize) -> (r: Option<Vec<u8>>)
    requires
        i <= end <= data@.len(),
    ensures
        (r matches Some(v) ==> unescape(data@.subrange(i as int, end as int)) == Some(v@)),
        r is None ==> unescape(data@.subrange(i as int, end as int)) is None,
    decreases end - i,
{
    let ghost s = data@.subrange(i as int, end as int);
    if i == end {
        proof {
            assert(s =~= Seq::<u8>::empty());
        }
        return Some(Vec::new());
    }
    let b = data[i];
    proof {
        assert(s[0] == b);
    }
    if b == 92 {
        if i + 1 >= end {
            return None;
        }
        let e = data[i + 1];
        proof {
            assert(s[1] == e);
        }
        if e == 117 {
            if end - i < 6 {
                return None;
            }
            if data[i + 2] != 48 || data[i + 3] != 48 {
                return None;
            }
            proof {
                assert(s[2] == data@[i + 2] && s[3] == data@[i + 3] && s[4] == data@[i + 4] && s[5]
                    == data@[i + 5]);
            }
            let hi = match hex_val_of(data[i + 4]) {
                Some(v) => v,
                None => {
                    return None;
                },
            };
            let lo = match hex_val_of(data[i + 5]) {
                Some(v) => v,
                None => {
                    return None;
                },
            };
            let value: u8 = hi * 16 + lo;
            if value >= 128 {
                return None;
            }
            proof {
                assert(is_u_escape(s));
                assert(u_escape_byte(s) == value);
                assert(s.skip(6) =~= data@.subrange(i + 6, end as int));
            }
            return match unescape_from(data, i + 6, end) {
                Some(mut rest) => {
                    rest.insert(0, value);
                    proof {
                        assert(rest@ =~= seq![value] + rest@.skip(1));
                        assert(unescape(s) == Some(rest@));
                    }
                    Some(rest)
                },
                None => None,
            };
        }
        let raw: u8 = if e == 34 {
            34
        } else if e == 92 {
            92
        } else if e == 47 {
            47
        } else if e == 98 {
            8
        } else if e == 102 {
            12
        } else if e == 110 {
            10
        } else if e == 114 {
            13
        } else if e == 116 {
            9
        } else {
            return None;
        };
        proof {
            assert(short_escape(e) == Some(raw));
            assert(s.skip(2) =~= data@.subrange(i + 2, end as int));
        }
        match unescape_from(data, i + 2, end) {
            Some(mut rest) => {
                rest.insert(0, raw);
                proof {
                    assert(rest@ =~= seq![raw] + rest@.skip(1));
                    assert(unescape(s) == Some(rest@));
                }
                Some(rest)
            },
            None => None,
        }
    } else if b == 34 || b < 32 {
        None
    } else {
        proof {
            assert(s.skip(1) =~= data@.subrange(i + 1, end as int));
        }
        match unescape_from(data, i + 1, end) {
            Some(mut rest) => {
                rest.insert(0, b);
                proof {
                    assert(rest@ =~= seq![b] + rest@.skip(1));
                    assert(unescape(s) == Some(rest@));
                }
                Some(rest)
            },
            None => None,
        }
    }
}

/// Decodes the single reply message into a `ServerHello`, rejecting
/// everything the relay could not have meant as one.
pub fn decode_server_hello(data: &Vec<u8>) -> (r: Result<ServerHello, HandshakeError>)
    ensures
        (r matches Ok(sh) ==> spec_parse_server_hello(data@) == Some(sh@)),
        r is Err ==> spec_parse_server_hello(data@) is None,
        (r matches Err(e) ==> e == HandshakeError::MalformedReply),
{
    if bytes_eq(data, &auth_failed_vec()) {
        return Ok(ServerHello::AuthFailed);
    }
    if bytes_eq(data, &invalid_sub_domain_vec()) {
        return Ok(ServerHello::InvalidSubDomain);
    }
    if bytes_eq(data, &sub_domain_in_use_vec()) {
        return Ok(ServerHello::SubDomainInUse);
    }
    if data.len() < 29 {
        return Err(HandshakeError::MalformedReply);
    }
    let prefix = success_prefix_vec();
    let mut j: usize = 0;
    while j < 26
        invariant
            j <= 26,
            prefix@ == success_prefix(),
            data@.len() >= 29,
            forall|k: int| 0 <= k < j ==> data@[k] == success_prefix()[k],
        decreases 26 - j,
    {
        if data[j] != prefix[j] {
            proof {
                assert(data@.take(26) != success_prefix());
            }
            return Err(HandshakeError::MalformedReply);
        }
        j = j + 1;
    }
    proof {
        assert(data@.take(26) =~= success_prefix());
    }
    let n = data.len();
    if data[n - 3] != 34u8 || data[n - 2] != 125u8 || data[n - 1] != 125u8 {
        proof {
            let tail = data@.skip(n - 3);
            assert(tail[0] == data@[n - 3] && tail[1] == data@[n - 2] && tail[2] == data@[n - 1]);
            assert(data@.skip(n - 3) != success_suffix());
        }
        return Err(HandshakeError::MalformedReply);
    }
    proof {
        assert(data@.skip(n - 3) =~= success_suffix());
    }
    match unescape_from(data, 26, n - 3) {
        None => Err(HandshakeError::MalformedReply),
        Some(content) => {
            match bytes_to_string(content) {
                None => Err(HandshakeError::MalformedReply),
                Some(sub_domain) => Ok(ServerHello::Success { sub_domain }),
            }
        },
    }
}

/// Classifies one decoded reply: `Success` yields the assigned sub-domain
/// and the connection proceeds; every failure variant is fatal for the
/// attempt, exactly as named.
pub fn interpret_server_hello(reply: ServerHello) -> (r: Result<String, HandshakeError>)
    ensures
        (reply@ matches ServerHelloView::Success(sd) ==> (r matches Ok(s) && s@ == sd)),
        reply@ is AuthFailed ==> r == Err::<String, HandshakeError>(HandshakeError::AuthFailed),
        reply@ is InvalidSubDomain ==> r == Err::<String, HandshakeError>(
            HandshakeError::InvalidSubDomain,
        ),
        reply@ is SubDomainInUse ==> r == Err::<String, HandshakeError>(
            HandshakeError::SubDomainInUse,
        ),
{
    match reply {
        ServerHello::Success { sub_domain } => Ok(sub_domain),
        ServerHello::AuthFailed => Err(HandshakeError::AuthFailed),
        ServerHello::InvalidSubDomain => Err(HandshakeError::InvalidSubDomain),
        ServerHello::SubDomainInUse => Err(HandshakeError::SubDomainInUse),
    }
}

/// One awaited reply, as the handshake sees it: decoded, then classified.
pub fn handshake_reply(data: &Vec<u8>) -> (r: Result<String, HandshakeError>)
    ensures
        spec_parse_server_hello(data@) is None ==> r == Err::<String, HandshakeError>(
            HandshakeError::MalformedReply,
        ),
        (spec_parse_server_hello(data@) matches Some(v) ==> {
            &&& (v matches ServerHelloView::Success(sd) ==> (r matches Ok(s) && s@ == sd))
            &&& (v is AuthFailed ==> r == Err::<String, HandshakeError>(HandshakeError::AuthFailed))
            &&& (v is InvalidSubDomain ==> r == Err::<String, HandshakeError>(
                HandshakeError::InvalidSubDomain,
            ))
            &&& (v is SubDomainInUse ==> r == Err::<String, HandshakeError>(
                HandshakeError::SubDomainInUse,
            ))
        }),
{
    match decode_server_hello(data) {
        Ok(reply) => interpret_server_hello(reply),
        Err(e) => Err(e),
    }
}

/// Whether a handshake failure must terminate the process rather than be
/// retried: a denied proof or a rejected sub-domain is a configuration
/// matter an identical retry cannot mend, and a malformed or missing reply
/// means the peer is no relay; a broken transport is transient, and a
/// sub-domain merely in use is contention that a later attempt may win, so
/// both of those restart the attempt instead.
pub open spec fn spec_terminates_process(e: HandshakeError) -> bool {
    !(e is TransportFailed || e is SubDomainInUse)
}

/// Exec twin of [`spec_terminates_process`].
pub fn terminates_process(e: &HandshakeError) -> (r: bool)
    ensures
        r == spec_terminates_process(*e),
{
    match e {
        HandshakeError::TransportFailed => false,
        HandshakeError::SubDomainInUse => false,
        _ => true,
    }
}

} // verus!
