use vstd::prelude::*;

verus! {

/// The signature schemes keys can be generated for.
#[derive(Clone, Copy, Debug, PartialEq, Eq, Structural)]
pub enum Scheme {
    /// A staking key and a state key
    All,
    /// A staking (BLS) key
    Bls,
    /// A state (Schnorr) key
    Schnorr,
}

impl Default for Scheme {
    fn default() -> (r: Self)
        ensures
            r == Scheme::All,
    {
        Scheme::All
    }
}

impl Scheme {
    /// The scheme's name on the command line.
    pub fn name(&self) -> (r: String)
        ensures
            r@ == match self {
                Scheme::All => "all"@,
                Scheme::Bls => "bls"@,
                Scheme::Schnorr => "schnorr"@,
            },
    {
        match self {
            Scheme::All => String::from_str("all"),
            Scheme::Bls => String::from_str("bls"),
            Scheme::Schnorr => String::from_str("schnorr"),
        }
    }

    /// Whether the scheme generates a staking key.
    pub fn makes_staking_key(&self) -> (r: bool)
        ensures
            r <==> *self != Scheme::Schnorr,
    {
        match self {
            Scheme::Schnorr => false,
            _ => true,
        }
    }

    /// Whether the scheme generates a state key.
    pub fn makes_state_key(&self) -> (r: bool)
        ensures
            r <==> *self != Scheme::Bls,
    {
        match self {
            Scheme::Bls => false,
            _ => true,
        }
    }
}

/// `prefix` followed by `value`.
fn env_line(prefix: &str, value: &str) -> (r: String)
    ensures
        r@ == prefix@ + value@,
{
    let mut line = prefix.to_string();
    line.append(value);
    line
}

/// The lines of a generated key set in `.env` form: the staking key pair's lines, when
/// `staking` holds a (public, private) pair, then the state key pair's.
pub fn key_env_lines(staking: Option<(&str, &str)>, state: Option<(&str, &str)>) -> (r: Vec<String>)
    ensures
        r@.map_values(|l: String| l@) == match staking {
            Some((p, s)) => seq![
                "ESPRESSO_SEQUENCER_PUBLIC_STAKING_KEY="@ + p@,
                "ESPRESSO_SEQUENCER_PRIVATE_STAKING_KEY="@ + s@,
            ],
            None => Seq::empty(),
        } + match state {
            Some((p, s)) => seq![
                "ESPRESSO_SEQUENCER_PUBLIC_STATE_KEY="@ + p@,
                "ESPRESSO_SEQUENCER_PRIVATE_STATE_KEY="@ + s@,
            ],
            None => Seq::empty(),
        },
{
    let mut r: Vec<String> = Vec::new();
    let ghost mut expected: Seq<Seq<char>> = Seq::empty();
    if let Some((p, s)) = staking {
        r.push(env_line("ESPRESSO_SEQUENCER_PUBLIC_STAKING_KEY=", p));
        r.push(env_line("ESPRESSO_SEQUENCER_PRIVATE_STAKING_KEY=", s));
        proof {
            expected = seq![
                "ESPRESSO_SEQUENCER_PUBLIC_STAKING_KEY="@ + p@,
                "ESPRESSO_SEQUENCER_PRIVATE_STAKING_KEY="@ + s@,
            ];
            assert(r@.map_values(|l: String| l@) =~= expected);
        }
    }
    let ghost mid = r@;
    if let Some((p, s)) = state {
        r.push(env_line("ESPRESSO_SEQUENCER_PUBLIC_STATE_KEY=", p));
        r.push(env_line("ESPRESSO_SEQUENCER_PRIVATE_STATE_KEY=", s));
        proof {
            let st: Seq<Seq<char>> = seq![
                "ESPRESSO_SEQUENCER_PUBLIC_STATE_KEY="@ + p@,
                "ESPRESSO_SEQUENCER_PRIVATE_STATE_KEY="@ + s@,
            ];
            assert(r@.map_values(|l: String| l@) =~= expected + st);
        }
    }
    proof {
        assert(r@.map_values(|l: String| l@) =~= expected + match state {
            Some((p, s)) => seq![
                "ESPRESSO_SEQUENCER_PUBLIC_STATE_KEY="@ + p@,
                "ESPRESSO_SEQUENCER_PRIVATE_STATE_KEY="@ + s@,
            ],
            None => Seq::<Seq<char>>::empty(),
        });
    }
    r
}

/// A seed given on the command line decoded to a length other than 32 bytes.
#[derive(Clone, Copy, Debug, PartialEq, Eq, Structural)]
pub struct InvalidSeedLength {
    pub len: usize,
}

/// The 32-byte seed that decoded `bytes` make, if they are exactly 32.
pub fn seed_from_bytes(bytes: &[u8]) -> (r: Result<[u8; 32], InvalidSeedLength>)
    ensures
        bytes@.len() == 32 <==> r is Ok,
        r matches Ok(seed) ==> seed@ == bytes@,
        bytes@.len() != 32 ==> r == Err::<[u8; 32], InvalidSeedLength>(
            InvalidSeedLength { len: bytes@.len() as usize },
        ),
{
    if bytes.len() != 32 {
        return Err(InvalidSeedLength { len: bytes.len() });
    }
    let mut seed = [0u8; 32];
    let mut i: usize = 0;
    while i < 32
        invariant
            i <= 32,
            bytes@.len() == 32,
            seed@.len() == 32,
            forall|k: int| 0 <= k < i ==> #[trigger] seed@[k] == bytes@[k],
        decreases 32 - i,
    {
        seed[i] = bytes[i];
        i = i + 1;
    }
    proof {
        assert(seed@ =~= bytes@);
    }
    Ok(seed)
}

/// The name of what `const_hex::decode` makes of a text: its bytes, or the text of its
/// error.
pub uninterp spec fn hex_decoded(s: Seq<char>) -> Result<Seq<u8>, Seq<char>>;

/// Whether `c` is a hex digit, in either case.
pub open spec fn is_hex_digit(c: char) -> bool {
    ('0' <= c && c <= '9') || ('a' <= c && c <= 'f') || ('A' <= c && c <= 'F')
}

/// The value of a hex digit.
pub open spec fn hex_value(c: char) -> int {
    if '0' <= c && c <= '9' {
        c as int - '0' as int
    } else if 'a' <= c && c <= 'f' {
        c as int - 'a' as int + 10
    } else {
        c as int - 'A' as int + 10
    }
}

/// The digits of a hex text: what follows a `0x` (or `0X`) prefix, if there is one.
pub open spec fn hex_digits(s: Seq<char>) -> Seq<char> {
    if s.len() >= 2 && s[0] == '0' && (s[1] == 'x' || s[1] == 'X') {
        s.subrange(2, s.len() as int)
    } else {
        s
    }
}

/// An ASCII text that decodes: an even number of characters, all digits after the
/// prefix.
pub open spec fn hex_valid(s: Seq<char>) -> bool {
    &&& s.len() % 2 == 0
    &&& forall|i: int| 0 <= i < hex_digits(s).len() ==> is_hex_digit(#[trigger] hex_digits(s)[i])
}

/// The bytes that pairs of hex digits stand for, high digit first.
pub open spec fn hex_bytes(d: Seq<char>) -> Seq<u8> {
    Seq::new(d.len() / 2, |i: int| (hex_value(d[2 * i]) * 16 + hex_value(d[2 * i + 1])) as u8)
}

/// `const_hex::decode` of `s` (an optional `0x` prefix, then pairs of hex digits), with
/// the error rendered by `to_string`.
///
/// Trusted: the outcome is named by `hex_decoded` of the text; for ASCII text the
/// source's rule is stated as well: an even length (counted before the prefix is
/// stripped) and only hex digits after the prefix give the bytes of the digit pairs,
/// an odd length gives "odd number of digits". The text of the other error (it names
/// the first bad character) is left to the name.
#[verifier::external_body]
fn hex_decode(s: &str) -> (r: Result<Vec<u8>, String>)
    ensures
        match r {
            Ok(b) => hex_decoded(s@) == Ok::<Seq<u8>, Seq<char>>(b@),
            Err(m) => hex_decoded(s@) == Err::<Seq<u8>, Seq<char>>(m@),
        },
        r is Ok && vstd::string::is_ascii(s) ==> hex_valid(s@),
        r is Err && vstd::string::is_ascii(s) ==> !hex_valid(s@),
        r matches Ok(b) ==> (vstd::string::is_ascii(s) ==> b@ == hex_bytes(hex_digits(s@))),
        r matches Err(m) ==> (vstd::string::is_ascii(s) && s@.len() % 2 == 1 ==> m@
            == "odd number of digits"@),
{
    match const_hex::decode(s) {
        Ok(b) => Ok(b),
        Err(e) => Err(e.to_string()),
    }
}

/// Why a seed given on the command line is refused.
#[derive(Clone, Debug, PartialEq, Eq)]
pub enum SeedError {
    /// The text is not hex; the decoder's message
    InvalidHex(String),
    /// The text decodes to this many bytes, not 32
    InvalidLength(InvalidSeedLength),
}

/// Read a key-generation seed from the command line: hex text of exactly 32 bytes.
pub fn parse_seed(s: &str) -> (r: Result<[u8; 32], SeedError>)
    ensures
        vstd::string::is_ascii(s) ==> (r is Ok <==> hex_valid(s@) && hex_digits(s@).len()
            == 64),
        vstd::string::is_ascii(s) ==> (r matches Ok(seed) ==> seed@ == hex_bytes(
            hex_digits(s@),
        )),
        match hex_decoded(s@) {
            Err(m) => r matches Err(SeedError::InvalidHex(x)) && x@ == m,
            Ok(b) => if b.len() == 32 {
                r matches Ok(seed) && seed@ == b
            } else {
                r == Err::<[u8; 32], SeedError>(
                    SeedError::InvalidLength(InvalidSeedLength { len: b.len() as usize }),
                )
            },
        },
{
    match hex_decode(s) {
        Err(m) => Err(SeedError::InvalidHex(m)),
        Ok(b) => match seed_from_bytes(b.as_slice()) {
            Ok(seed) => Ok(seed),
            Err(e) => Err(SeedError::InvalidLength(e)),
        },
    }
}

} // verus!
