//! Fresh key pairs in their encoded forms, and the alphabet of the encoding.
use vstd::prelude::*;
use vstd::string::StrSliceExecFns;

verus! {

/// The 32 symbols of the bech32 data alphabet.
pub const VALID_CHARS: &'static str = "023456789acdefghjklmnpqrstuvwxyz";

/// Human-readable part of an encoded public key.
pub const NPUB_HRP: &'static str = "npub";

/// Human-readable part of an encoded secret key.
pub const NSEC_HRP: &'static str = "nsec";

pub open spec fn in_alphabet(c: char) -> bool {
    VALID_CHARS@.contains(c)
}

pub open spec fn all_in_alphabet(s: Seq<char>) -> bool {
    forall|i: int| 0 <= i < s.len() ==> in_alphabet(#[trigger] s[i])
}

/// Whether every character of `pattern` belongs to the encoding alphabet.
pub fn validate_bech32_chars(pattern: &str) -> (r: bool)
    ensures
        r == all_in_alphabet(pattern@),
{
    proof {
        reveal_strlit("023456789acdefghjklmnpqrstuvwxyz");
    }
    let n = pattern.unicode_len();
    let m = VALID_CHARS.unicode_len();
    let mut i: usize = 0;
    while i < n
        invariant
            n == pattern@.len(),
            m == VALID_CHARS@.len(),
            i <= n,
            forall|k: int| 0 <= k < i ==> in_alphabet(#[trigger] pattern@[k]),
        decreases n - i,
    {
        let c = pattern.get_char(i);
        let mut j: usize = 0;
        let mut found = false;
        while j < m
            invariant
                m == VALID_CHARS@.len(),
                j <= m,
                found == exists|k: int| 0 <= k < j && VALID_CHARS@[k] == c,
            decreases m - j,
        {
            if VALID_CHARS.get_char(j) == c {
                found = true;
            }
            j = j + 1;
        }
        if !found {
            proof {
                assert(!in_alphabet(pattern@[i as int])) by {
                    if VALID_CHARS@.contains(c) {
                        let k = choose|k: int| 0 <= k < VALID_CHARS@.len() && VALID_CHARS@[k] == c;
                        assert(exists|k: int| 0 <= k < j && VALID_CHARS@[k] == c);
                    }
                }
            }
            return false;
        }
        i = i + 1;
    }
    true
}

/// The lowercase hexadecimal digit of a value below 16.
pub open spec fn hex_digit(n: u8) -> char {
    if n < 10 {
        ((48 + n) as u8) as char
    } else {
        ((87 + n) as u8) as char
    }
}

/// Lowercase hexadecimal text of a byte string, two digits per byte.
pub open spec fn hex_of(b: Seq<u8>) -> Seq<char>
    decreases b.len(),
{
    if b.len() == 0 {
        Seq::empty()
    } else {
        seq![hex_digit(b[0] / 16), hex_digit(b[0] % 16)] + hex_of(b.drop_first())
    }
}

/// The 32-byte x coordinate of the public key of a secret key, or `None` where
/// the bytes are no valid secret key.
pub uninterp spec fn public_key_of(secret: Seq<u8>) -> Option<Seq<u8>>;

/// The bech32 text of `data` under the human-readable part `hrp`, or `None`
/// where the encoder refuses them.
pub uninterp spec fn bech32_of(hrp: Seq<char>, data: Seq<u8>) -> Option<Seq<char>>;

/// Relies on `secp256k1::SecretKey::new` drawing from the thread-local random
/// generator until the bytes form a valid secret key; nothing else is known
/// of them.
#[verifier::external_body]
fn fresh_secret() -> (r: [u8; 32])
    ensures
        public_key_of(r@) is Some,
{
    secp256k1::SecretKey::new(&mut secp256k1::rand::rng()).to_secret_bytes()
}

/// Relies on `secp256k1::PublicKey::from_secret_key`: the compressed public key,
/// without its parity byte, of the secret key that the bytes hold.
#[verifier::external_body]
fn x_only_public_key(secret: &[u8; 32]) -> (r: Option<[u8; 32]>)
    ensures
        match public_key_of(secret@) {
            Some(pk) => r matches Some(x) && x@ == pk,
            None => r is None,
        },
{
    let sk = secp256k1::SecretKey::from_secret_bytes(*secret).ok()?;
    let full = secp256k1::PublicKey::from_secret_key(&sk).serialize();
    let mut out = [0u8; 32];
    out.copy_from_slice(&full[1..]);
    Some(out)
}

/// The text that bech32 gives to 32 bytes under a four-letter lowercase
/// human-readable part: that part, the separator `1`, then 52 data and 6
/// checksum symbols of the alphabet.
pub open spec fn bech32_shaped(hrp: Seq<char>, s: Seq<char>) -> bool {
    &&& s.len() == 63
    &&& s.take(5) == hrp.push('1')
    &&& forall|i: int| 5 <= i < 63 ==> in_alphabet(#[trigger] s[i])
}

/// Relies on `bech32::encode::<Bech32>`, after `bech32::Hrp::parse` of the
/// human-readable part. The parse accepts `npub` and `nsec`; the encoder fails
/// only past 1023 characters of output, far above what 32 bytes make.
#[verifier::external_body]
fn bech32_encode(hrp: &str, data: &[u8; 32]) -> (r: Option<String>)
    ensures
        r is Some <==> bech32_of(hrp@, data@) is Some,
        r matches Some(s) ==> Some(s@) == bech32_of(hrp@, data@),
        r matches Some(s) ==> ((hrp@ == NPUB_HRP@ || hrp@ == NSEC_HRP@) ==> bech32_shaped(hrp@, s@)),
        (hrp@ == NPUB_HRP@ || hrp@ == NSEC_HRP@) ==> r is Some,
{
    let hrp = bech32::Hrp::parse(hrp).ok()?;
    bech32::encode::<bech32::Bech32>(hrp, data).ok()
}

/// Relies on `hex::encode`: two lowercase digits per byte.
#[verifier::external_body]
fn hex_encode(data: &[u8; 32]) -> (r: String)
    ensures
        r@ == hex_of(data@),
{
    hex::encode(data)
}

/// The encoding step refused a key.
#[derive(Debug, Clone, Copy, PartialEq, Eq, Structural)]
pub struct GenerationError;

#[derive(Debug, Clone)]
pub struct NostrKeyPair {
    pub npub: String,
    pub nsec: String,
    pub hex_pubkey: String,
}

/// The encoded public key, encoded secret key and public key hex of the key
/// pair with the given secret, or `None` where one step refuses it.
pub open spec fn keypair_of(secret: Seq<u8>) -> Option<(Seq<char>, Seq<char>, Seq<char>)> {
    match public_key_of(secret) {
        None => None,
        Some(pk) => match (bech32_of(NPUB_HRP@, pk), bech32_of(NSEC_HRP@, secret)) {
            (Some(npub), Some(nsec)) => Some((npub, nsec, hex_of(pk))),
            _ => None,
        },
    }
}

/// Lowercase hexadecimal text is two digits per byte.
pub proof fn lemma_hex_len(b: Seq<u8>)
    ensures
        hex_of(b).len() == 2 * b.len(),
    decreases b.len(),
{
    if b.len() > 0 {
        lemma_hex_len(b.drop_first());
    }
}

impl NostrKeyPair {
    pub open spec fn parts(&self) -> (Seq<char>, Seq<char>, Seq<char>) {
        (self.npub@, self.nsec@, self.hex_pubkey@)
    }

    /// Both keys in bech32 under their human-readable parts, and 64 hex digits
    /// of the public key.
    pub open spec fn well_encoded(&self) -> bool {
        &&& bech32_shaped(NPUB_HRP@, self.npub@)
        &&& bech32_shaped(NSEC_HRP@, self.nsec@)
        &&& self.hex_pubkey@.len() == 64
    }

    /// The key pair of a given secret key.
    pub fn from_secret(secret: &[u8; 32]) -> (r: Result<Self, GenerationError>)
        ensures
            match keypair_of(secret@) {
                Some(t) => r matches Ok(kp) && kp.parts() == t,
                None => r is Err,
            },
            public_key_of(secret@) is Some ==> r is Ok,
            r matches Ok(kp) ==> kp.well_encoded(),
    {
        proof {
            reveal_strlit("npub");
            reveal_strlit("nsec");
        }
        let pk = match x_only_public_key(secret) {
            Some(pk) => pk,
            None => return Err(GenerationError),
        };
        let npub = match bech32_encode(NPUB_HRP, &pk) {
            Some(s) => s,
            None => return Err(GenerationError),
        };
        let nsec = match bech32_encode(NSEC_HRP, secret) {
            Some(s) => s,
            None => return Err(GenerationError),
        };
        let hex_pubkey = hex_encode(&pk);
        proof {
            lemma_hex_len(pk@);
        }
        Ok(NostrKeyPair { npub, nsec, hex_pubkey })
    }

    /// A key pair from a freshly drawn secret key.
    pub fn generate() -> (r: Result<Self, GenerationError>)
        ensures
            r matches Ok(kp) && kp.well_encoded() && exists|s: Seq<u8>|
                s.len() == 32 && #[trigger] keypair_of(s) == Some(kp.parts()),
    {
        let secret = fresh_secret();
        let r = Self::from_secret(&secret);
        proof {
            if r is Ok {
                assert(keypair_of(secret@) == Some(r->Ok_0.parts()));
            }
        }
        r
    }
}

} // verus!
