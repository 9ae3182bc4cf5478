//! Session-scoped random identifiers.
//!
//! A `RandomId` is an 8-character alphanumeric name for a state cell, a
//! closure, or a reactive markup node. Ids are drawn from an `IdSource`, a
//! seeded deterministic generator: re-running a handler with the same seed
//! reproduces the same id sequence, which is how the live connection
//! reconstructs the ids minted during the initial render.

use vstd::prelude::*;

verus! {

/// Number of characters in a `RandomId`.
pub const RANDOM_ID_LENGTH: usize = 8;

#[verifier::external_type_specification]
#[verifier::external_body]
pub struct ExStdRng(rand::rngs::StdRng);

/// The alphanumeric byte that a source seeded with `seed` yields at position
/// `idx` of its sample stream. Names the result of sampling rand's
/// `Alphanumeric` distribution from a `StdRng`, which is a deterministic
/// function of the seed and the position.
pub uninterp spec fn seeded_byte(seed: u64, idx: nat) -> u8;

/// True when `b` is an ASCII digit or letter.
pub open spec fn is_id_byte(b: u8) -> bool {
    (48 <= b <= 57) || (65 <= b <= 90) || (97 <= b <= 122)
}

/// A seeded source of random identifiers. One lives in each session; the seed
/// is shared between the initial render and the live connection so the
/// identities match.
pub struct IdSource {
    rng: rand::rngs::StdRng,
    seed: u64,
    drawn: Ghost<nat>,
}

impl IdSource {
    /// The seed this source was created from.
    pub closed spec fn seed(&self) -> u64 {
        self.seed
    }

    /// How many bytes have been drawn from this source.
    pub closed spec fn drawn(&self) -> nat {
        self.drawn@
    }

    /// Creates a source seeded with `seed`.
    pub fn from_seed(seed: u64) -> (r: IdSource)
        ensures
            r.seed() == seed,
            r.drawn() == 0,
    {
        IdSource { rng: new_std_rng(seed), seed, drawn: Ghost(0) }
    }
}

/// Relies on rand::rngs::StdRng::seed_from_u64: builds the deterministic
/// generator whose sample stream `seeded_byte` describes.
#[verifier::external_body]
fn new_std_rng(seed: u64) -> rand::rngs::StdRng {
    rand::SeedableRng::seed_from_u64(seed)
}

/// Relies on rand's `Alphanumeric` distribution sampled from a `StdRng`: each
/// sample is an ASCII digit or letter, and the stream is a deterministic
/// function of the seed alone. The tie to `src.seed()` and `src.drawn()`
/// holds because an `IdSource` is only ever created by `from_seed` and only
/// ever advanced here.
#[verifier::external_body]
fn draw_id_byte(src: &mut IdSource) -> (b: u8)
    ensures
        b == seeded_byte(old(src).seed(), old(src).drawn()),
        is_id_byte(b),
        final(src).seed() == old(src).seed(),
        final(src).drawn() == old(src).drawn() + 1,
{
    rand::Rng::sample(&mut src.rng, rand::distributions::Alphanumeric)
}

/// Relies on String::from_utf8: for ASCII bytes it returns the string whose
/// characters are exactly those bytes.
#[verifier::external_body]
fn ascii_to_string(v: Vec<u8>) -> (r: String)
    requires
        forall|i: int| 0 <= i < v@.len() ==> v@[i] < 128,
    ensures
        r@.len() == v@.len(),
        forall|i: int| 0 <= i < v@.len() ==> r@[i] == v@[i] as char,
{
    match String::from_utf8(v) {
        Ok(s) => s,
        Err(_) => String::new(),
    }
}

/// The 8 identifier characters a source seeded with `seed` yields starting at
/// stream position `start`.
pub open spec fn seeded_id_chars(seed: u64, start: nat) -> Seq<char> {
    Seq::new(RANDOM_ID_LENGTH as nat, |i: int| seeded_byte(seed, (start + i) as nat) as char)
}

/// An 8-character alphanumeric identifier. The public name for state cells,
/// closures, and reactive markup nodes, scoped to one session.
#[derive(Debug)]
pub struct RandomId {
    chars: String,
}

impl View for RandomId {
    type V = Seq<char>;

    closed spec fn view(&self) -> Seq<char> {
        self.chars@
    }
}

impl RandomId {
    /// A well-formed id holds exactly `RANDOM_ID_LENGTH` characters.
    pub open spec fn wf(&self) -> bool {
        self@.len() == RANDOM_ID_LENGTH
    }

    /// Draws a fresh id: the next 8 characters of the source's stream, each
    /// an ASCII digit or letter.
    pub fn from_rng(src: &mut IdSource) -> (r: RandomId)
        ensures
            r.wf(),
            r@ == seeded_id_chars(old(src).seed(), old(src).drawn()),
            forall|i: int|
                0 <= i < RANDOM_ID_LENGTH ==> is_id_byte(
                    #[trigger] seeded_byte(old(src).seed(), (old(src).drawn() + i) as nat),
                ),
            final(src).seed() == old(src).seed(),
            final(src).drawn() == old(src).drawn() + RANDOM_ID_LENGTH,
    {
        let ghost seed = src.seed();
        let ghost start = src.drawn();
        let mut bytes: Vec<u8> = Vec::new();
        for k in 0..RANDOM_ID_LENGTH
            invariant
                src.seed() == seed,
                src.drawn() == start + k,
                bytes@.len() == k,
                forall|i: int| 0 <= i < k ==> bytes@[i] == seeded_byte(seed, (start + i) as nat),
                forall|i: int| 0 <= i < k ==> is_id_byte(#[trigger] bytes@[i]),
        {
            let b = draw_id_byte(src);
            bytes.push(b);
        }
        proof {
            assert forall|i: int| 0 <= i < RANDOM_ID_LENGTH implies is_id_byte(
                #[trigger] seeded_byte(seed, (start + i) as nat),
            ) by {
                assert(bytes@[i] == seeded_byte(seed, (start + i) as nat));
                assert(is_id_byte(bytes@[i]));
            }
        }
        let s = ascii_to_string(bytes);
        let r = RandomId { chars: s };
        proof {
            assert(r@ =~= seeded_id_chars(seed, start));
        }
        r
    }

    /// Reads an id from the first 8 characters of `string`; `Err` exactly
    /// when the string is shorter than that.
    pub fn try_from_str(string: &str) -> (r: Result<RandomId, IdLengthError>)
        ensures
            r is Ok <==> string@.len() >= RANDOM_ID_LENGTH,
            r matches Ok(id) ==> id.wf() && id@ == string@.take(RANDOM_ID_LENGTH as int),
    {
        if string.unicode_len() < RANDOM_ID_LENGTH {
            Err(IdLengthError)
        } else {
            let prefix = string.substring_char(0, RANDOM_ID_LENGTH);
            Ok(RandomId { chars: String::from_str(prefix) })
        }
    }

    /// Reads an id from the first 8 characters of `string`, which must be at
    /// least that long.
    pub fn from_str(string: &str) -> (r: RandomId)
        requires
            string@.len() >= RANDOM_ID_LENGTH,
        ensures
            r.wf(),
            r@ == string@.take(RANDOM_ID_LENGTH as int),
    {
        match Self::try_from_str(string) {
            Ok(id) => id,
            Err(_) => RandomId { chars: String::new() },
        }
    }

    /// Appends the id's characters to `output`.
    pub fn fmt(&self, output: &mut String)
        ensures
            final(output)@ == old(output)@ + self@,
    {
        output.append(self.chars.as_str());
    }

    /// The id's characters as a fresh string.
    pub fn to_text(&self) -> (r: String)
        ensures
            r@ == self@,
    {
        let mut out = String::new();
        self.fmt(&mut out);
        out
    }
}

impl Clone for RandomId {
    fn clone(&self) -> (r: Self)
        ensures
            r@ == self@,
    {
        RandomId { chars: self.chars.clone() }
    }
}

impl PartialEq for RandomId {
    fn eq(&self, other: &Self) -> bool {
        self.chars == other.chars
    }
}

impl vstd::std_specs::cmp::PartialEqSpecImpl for RandomId {
    open spec fn obeys_eq_spec() -> bool {
        true
    }

    open spec fn eq_spec(&self, other: &Self) -> bool {
        self@ == other@
    }
}

/// The error of reading an id from a string with fewer than 8 characters.
#[derive(Debug, PartialEq)]
pub struct IdLengthError;


/// The ghost mirror of an optional borrowed id.
pub open spec fn opt_id_view(o: Option<&RandomId>) -> Option<Seq<char>> {
    match o {
        Option::Some(id) => Option::Some(id@),
        Option::None => Option::None,
    }
}

} // verus!
