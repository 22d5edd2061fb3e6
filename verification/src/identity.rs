//! Upload identities: one per source path, for as long as the cache lives.
//!
//! An identity is a version 7 UUID, held as its 128-bit number. Its upper 48
//! bits are the file's creation time in milliseconds, so identities sort by
//! the second in which their files were created.

use uuid::{NoContext, Timestamp, Uuid};
use vstd::arithmetic::power::pow;
use vstd::hash_map::StringHashMap;
use vstd::prelude::*;

verus! {

/// The stable name of an uploaded file.
#[derive(Clone, Copy, Debug, PartialEq, Eq, Structural)]
pub struct UploadIdentity {
    pub value: u128,
}

/// What is below the 48-bit time field of an identity: 2^80.
pub const BELOW_TIME: u128 = 0x1_0000_0000_0000_0000_0000;

/// What is below the version field of an identity: 2^76.
pub const BELOW_VERSION: u128 = 0x1000_0000_0000_0000_0000;

/// What is below the variant field of an identity: 2^62.
pub const BELOW_VARIANT: u128 = 0x4000_0000_0000_0000;

/// The number of values of the time field: 2^48.
pub const TIME_SPAN: u64 = 0x1_0000_0000_0000;

/// The time field for a creation time in seconds: the milliseconds, held at
/// the largest `u64` where they pass it, of which the field keeps the lower
/// 48 bits.
pub open spec fn time_field(seconds: u64) -> int {
    let millis = if seconds * 1000 <= u64::MAX {
        seconds * 1000
    } else {
        u64::MAX as int
    };
    millis % (TIME_SPAN as int)
}

/// `value` is a version 7 UUID of the RFC 4122 variant made for a file
/// created at `seconds`.
pub open spec fn is_v7_for(value: u128, seconds: u64) -> bool {
    &&& value / BELOW_TIME == time_field(seconds)
    &&& (value / BELOW_VERSION) % 16 == 7
    &&& (value / BELOW_VARIANT) % 4 == 2
}

/// The digit of `n` in lower-case hexadecimal.
pub open spec fn hex_digit(n: int) -> char {
    "0123456789abcdef"@[n]
}

/// The `k`th of the 32 hexadecimal digits of `value`, the highest first.
pub open spec fn hex_at(value: u128, k: int) -> char {
    hex_digit((value as int / pow(16, (31 - k) as nat)) % 16)
}

/// The number of hyphens before index `i` of the text of an identity.
pub open spec fn hyphens_before(i: int) -> int {
    if i < 8 {
        0
    } else if i < 13 {
        1
    } else if i < 18 {
        2
    } else if i < 23 {
        3
    } else {
        4
    }
}

/// The text of an identity: its 32 hexadecimal digits in lower case, in
/// groups of 8, 4, 4, 4 and 12 with a hyphen between them.
pub open spec fn hyphenated(value: u128) -> Seq<char> {
    Seq::new(
        36,
        |i: int|
            if i == 8 || i == 13 || i == 18 || i == 23 {
                '-'
            } else {
                hex_at(value, i - hyphens_before(i))
            },
    )
}

/// What one request for the identity of `path` does: a path that the cache
/// holds keeps its identity and the cache stays as it is; any other path gets
/// a new identity for its creation time, and the cache holds it from then on.
pub open spec fn identity_step(
    before: Map<Seq<char>, UploadIdentity>,
    path: Seq<char>,
    creation_time: u64,
    after: Map<Seq<char>, UploadIdentity>,
    identity: UploadIdentity,
) -> bool {
    if before.contains_key(path) {
        identity == before[path] && after == before
    } else {
        is_v7_for(identity.value, creation_time) && after == before.insert(path, identity)
    }
}

/// Calls `uuid::Uuid::new_v7` on the timestamp that `uuid::Timestamp::from_unix`
/// makes of `seconds`, zero nanoseconds and no counter, and hands out the
/// UUID as its number. The lower bits are random, so the contract states only
/// the fields that the crate sets: the time, version 7 and the variant. The
/// call panics where the system gives no random bytes.
#[verifier::external_body]
fn new_v7(seconds: u64) -> (value: u128)
    ensures
        is_v7_for(value, seconds),
{
    Uuid::new_v7(Timestamp::from_unix(NoContext, seconds, 0)).as_u128()
}

/// Calls the `Display` of `uuid::Uuid` on the UUID with the number `value`:
/// the hyphenated form in lower case.
#[verifier::external_body]
fn uuid_text(value: u128) -> (text: String)
    ensures
        text@ == hyphenated(value),
{
    Uuid::from_u128(value).to_string()
}

impl UploadIdentity {
    /// The creation time field: milliseconds, the lower 48 bits.
    pub fn time_millis(&self) -> (millis: u64)
        ensures
            millis == self.value / BELOW_TIME,
    {
        (self.value / BELOW_TIME) as u64
    }

    /// The identity as text.
    pub fn to_text(&self) -> (text: String)
        ensures
            text@ == hyphenated(self.value),
    {
        uuid_text(self.value)
    }
}

/// The identities given out so far, by source path.
pub struct IdentityCache {
    known: StringHashMap<UploadIdentity>,
}

impl View for IdentityCache {
    type V = Map<Seq<char>, UploadIdentity>;

    closed spec fn view(&self) -> Map<Seq<char>, UploadIdentity> {
        self.known@
    }
}

impl IdentityCache {
    /// A cache that knows no path.
    pub fn new() -> (cache: IdentityCache)
        ensures
            cache@ == Map::<Seq<char>, UploadIdentity>::empty(),
    {
        IdentityCache { known: StringHashMap::new() }
    }

    /// The identity of `path`, if it has one.
    pub fn get(&self, path: &str) -> (identity: Option<UploadIdentity>)
        ensures
            identity == if self@.contains_key(path@) {
                Some(self@[path@])
            } else {
                None
            },
    {
        match self.known.get(path) {
            Some(identity) => Some(*identity),
            None => None,
        }
    }

    /// Gives `path` the identity `fresh` unless it has one, and returns the
    /// identity that it has from now on.
    pub fn assign(&mut self, path: &str, fresh: UploadIdentity) -> (identity: UploadIdentity)
        ensures
            identity == if old(self)@.contains_key(path@) {
                old(self)@[path@]
            } else {
                fresh
            },
            final(self)@ == old(self)@.insert(path@, identity),
            old(self)@.contains_key(path@) ==> final(self)@ == old(self)@,
    {
        match self.get(path) {
            Some(identity) => {
                assert(self@.insert(path@, identity) == self@);
                identity
            },
            None => {
                self.known.insert(path.to_owned(), fresh);
                fresh
            },
        }
    }

    /// The identity of `path`: the one it has, whatever `creation_time` is,
    /// or else a new one made for `creation_time`, which it keeps.
    pub fn identity_for(&mut self, path: &str, creation_time: u64) -> (identity: UploadIdentity)
        ensures
            identity_step(old(self)@, path@, creation_time, final(self)@, identity),
    {
        match self.get(path) {
            Some(identity) => identity,
            None => self.assign(path, UploadIdentity { value: new_v7(creation_time) }),
        }
    }
}

/// Asking twice for the identity of one path gives the same identity both
/// times, whatever the creation times given, and the second request leaves
/// the cache as it was.
pub proof fn lemma_identity_is_stable(
    start: Map<Seq<char>, UploadIdentity>,
    path: Seq<char>,
    first_time: u64,
    middle: Map<Seq<char>, UploadIdentity>,
    first: UploadIdentity,
    second_time: u64,
    end: Map<Seq<char>, UploadIdentity>,
    second: UploadIdentity,
)
    requires
        identity_step(start, path, first_time, middle, first),
        identity_step(middle, path, second_time, end, second),
    ensures
        first == second,
        end == middle,
{
}

/// A request never changes the identity of a path that had one, whichever
/// path it asks for, and the path it asks for has the returned identity
/// afterwards.
pub proof fn lemma_identities_are_kept(
    before: Map<Seq<char>, UploadIdentity>,
    path: Seq<char>,
    creation_time: u64,
    after: Map<Seq<char>, UploadIdentity>,
    identity: UploadIdentity,
)
    requires
        identity_step(before, path, creation_time, after, identity),
    ensures
        after.contains_key(path) && after[path] == identity,
        forall|other: Seq<char>| #[trigger]
            before.contains_key(other) ==> after.contains_key(other) && after[other]
                == before[other],
{
}

/// Identities made for different seconds are ordered as the seconds are, as
/// long as the later time fits the 48-bit field.
pub proof fn lemma_identities_order_by_time(
    earlier: u128,
    earlier_time: u64,
    later: u128,
    later_time: u64,
)
    requires
        is_v7_for(earlier, earlier_time),
        is_v7_for(later, later_time),
        earlier_time < later_time,
        later_time * 1000 < TIME_SPAN,
    ensures
        earlier < later,
{
}

} // verus!
