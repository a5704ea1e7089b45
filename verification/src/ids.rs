//! Stable identifiers shared between the library and projects.
//!
//! Every identifier is a UUID held as its 128-bit value. New identifiers
//! are random (version 4); the text form is the hyphenated UUID.

use vstd::prelude::*;

verus! {

/// `16` to the power `n`.
pub open spec fn pow16(n: nat) -> int
    decreases n,
{
    if n == 0 {
        1
    } else {
        16 * pow16((n - 1) as nat)
    }
}

/// Lower-case hexadecimal digit for `n` in `0..16`.
pub open spec fn hex_digit(n: int) -> char {
    if n < 10 {
        (48 + n) as char
    } else {
        (87 + n) as char
    }
}

/// The 32 lower-case hex digits of `v`, most significant first.
pub open spec fn uuid_hex(v: u128) -> Seq<char> {
    Seq::new(32, |i: int| hex_digit((v as int / pow16((31 - i) as nat)) % 16))
}

/// The hyphenated text of the UUID with value `v`: its hex digits in
/// groups of 8, 4, 4, 4 and 12, joined by hyphens (what the `uuid` crate's
/// `Hyphenated` formatter writes).
pub open spec fn uuid_hyphenated(v: u128) -> Seq<char> {
    let h = uuid_hex(v);
    h.subrange(0, 8) + seq!['-'] + h.subrange(8, 12) + seq!['-'] + h.subrange(12, 16) + seq!['-'] + h.subrange(
        16,
        20,
    ) + seq!['-'] + h.subrange(20, 32)
}

/// What the `uuid` crate's `Uuid::parse_str` makes of `s`: the UUID's value,
/// or `None` when `s` is not a UUID in one of the accepted shapes.
pub uninterp spec fn uuid_parsed(s: Seq<char>) -> Option<u128>;

/// Whether `v` is a random (version 4) UUID of the RFC 4122 variant: the
/// version field (bits 76 to 79) holds 4 and the variant field (bits 62
/// and 63) holds binary 10.
pub open spec fn is_random_uuid(v: u128) -> bool {
    (v >> 76u128) & 0xfu128 == 4 && (v >> 62u128) & 3u128 == 2
}

/// A fresh random (version 4) UUID value.
///
/// Trusted: calls `uuid::Uuid::new_v4`, which masks random bits and sets
/// the version and variant fields; only those fields are stated, the
/// other bits are random.
#[verifier::external_body]
fn random_uuid() -> (v: u128)
    ensures
        is_random_uuid(v),
{
    uuid::Uuid::new_v4().as_u128()
}

/// The hyphenated text of a UUID value.
///
/// Trusted: calls `uuid::Uuid::hyphenated` and formats it; the crate's
/// formatter writes the 32 lower-case hex digits of the value, most
/// significant first, in groups of 8-4-4-4-12 joined by hyphens
/// (`uuid_hyphenated`), 36 characters in all.
#[verifier::external_body]
fn hyphenated_text(v: u128) -> (s: String)
    ensures
        s@ == uuid_hyphenated(v),
        s@.len() == 36,
{
    uuid::Uuid::from_u128(v).hyphenated().to_string()
}

/// Parses a UUID.
///
/// Trusted: calls `uuid::Uuid::parse_str`. The result is named
/// `uuid_parsed(s@)`; the documentation states that the hyphenated form is
/// accepted, so the text of any UUID parses back to that UUID.
#[verifier::external_body]
fn parse_uuid(s: &str) -> (r: Option<u128>)
    ensures
        r == uuid_parsed(s@),
        forall|v: u128| s@ == uuid_hyphenated(v) ==> r == Some(v),
{
    match uuid::Uuid::parse_str(s) {
        Ok(u) => Some(u.as_u128()),
        Err(_) => None,
    }
}

/// Identity of a media item in the library. Projects reference media by
/// this id; it never changes even if the file moves.
#[derive(Copy, Clone, Debug, PartialEq, Eq, Hash, PartialOrd, Ord, Structural)]
pub struct MediaId(pub u128);

impl MediaId {
    /// Placeholder for clips that show no media (title cards): the nil UUID.
    pub fn none() -> (id: MediaId)
        ensures
            id.0 == 0,
    {
        MediaId(0)
    }

    /// A fresh random id: a version 4 UUID.
    pub fn new() -> (id: MediaId)
        ensures
            is_random_uuid(id.0),
    {
        MediaId(random_uuid())
    }

    pub fn from_u128(v: u128) -> (id: MediaId)
        ensures
            id.0 == v,
    {
        MediaId(v)
    }

    pub fn as_u128(&self) -> (v: u128)
        ensures
            v == self.0,
    {
        self.0
    }

    /// The hyphenated UUID text.
    pub fn to_text(&self) -> (s: String)
        ensures
            s@ == uuid_hyphenated(self.0),
            s@.len() == 36,
    {
        hyphenated_text(self.0)
    }

    /// Parses the text form; `None` if it is not a UUID.
    pub fn parse(s: &str) -> (r: Option<MediaId>)
        ensures
            r == (match uuid_parsed(s@) {
                Some(v) => Some(MediaId(v)),
                None => None::<MediaId>,
            }),
    {
        match parse_uuid(s) {
            Some(v) => Some(MediaId(v)),
            None => None,
        }
    }
}

/// Identity of a clip on the timeline. Survives reordering and undo.
#[derive(Copy, Clone, Debug, PartialEq, Eq, Hash, PartialOrd, Ord, Structural)]
pub struct ClipId(pub u128);

impl ClipId {
    /// A fresh random id: a version 4 UUID.
    pub fn new() -> (id: ClipId)
        ensures
            is_random_uuid(id.0),
    {
        ClipId(random_uuid())
    }

    /// The hyphenated UUID text.
    pub fn to_text(&self) -> (s: String)
        ensures
            s@ == uuid_hyphenated(self.0),
    {
        hyphenated_text(self.0)
    }

    /// Parses the text form; `None` if it is not a UUID.
    pub fn parse(s: &str) -> (r: Option<ClipId>)
        ensures
            r == (match uuid_parsed(s@) {
                Some(v) => Some(ClipId(v)),
                None => None::<ClipId>,
            }),
    {
        match parse_uuid(s) {
            Some(v) => Some(ClipId(v)),
            None => None,
        }
    }
}

/// Identity of a song in the playlist. Survives reordering and undo.
#[derive(Copy, Clone, Debug, PartialEq, Eq, Hash, PartialOrd, Ord, Structural)]
pub struct SongId(pub u128);

impl SongId {
    /// A fresh random id: a version 4 UUID.
    pub fn new() -> (id: SongId)
        ensures
            is_random_uuid(id.0),
    {
        SongId(random_uuid())
    }

    /// The hyphenated UUID text.
    pub fn to_text(&self) -> (s: String)
        ensures
            s@ == uuid_hyphenated(self.0),
    {
        hyphenated_text(self.0)
    }
}

/// Identity of a text item. Survives moves and undo.
#[derive(Copy, Clone, Debug, PartialEq, Eq, Hash, PartialOrd, Ord, Structural)]
pub struct TextId(pub u128);

impl TextId {
    /// A fresh random id: a version 4 UUID.
    pub fn new() -> (id: TextId)
        ensures
            is_random_uuid(id.0),
    {
        TextId(random_uuid())
    }

    /// The hyphenated UUID text.
    pub fn to_text(&self) -> (s: String)
        ensures
            s@ == uuid_hyphenated(self.0),
    {
        hyphenated_text(self.0)
    }
}

} // verus!
