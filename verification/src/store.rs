//! The registry of artifacts that the server holds, keyed by UUID, and the
//! resolution of the references that requests carry.

use vstd::prelude::*;
use std::collections::HashMap;
use vstd::std_specs::iter::IteratorSpec;
use vstd::arithmetic::power2::{lemma2_to64, lemma2_to64_rest, lemma_pow2_adds, lemma_pow2_pos, pow2};
use vstd::arithmetic::div_mod::{lemma_div_denominator, lemma_fundamental_div_mod};
use crate::artifact::Artifact;
use crate::sized_objects::SizedObjectsBytes;

verus! {

broadcast use vstd::std_specs::hash::group_hash_axioms;

/// The value of the hexadecimal digit `c`, in either case.
pub open spec fn hex_value(c: char) -> Option<int> {
    if '0' <= c && c <= '9' {
        Some(c as int - 48)
    } else if 'a' <= c && c <= 'f' {
        Some(c as int - 87)
    } else if 'A' <= c && c <= 'F' {
        Some(c as int - 55)
    } else {
        None
    }
}

/// The number that `digits` write in base 16, most significant first, if every
/// one of them is a hexadecimal digit.
pub open spec fn hex_number(digits: Seq<char>) -> Option<int>
    decreases digits.len(),
{
    if digits.len() == 0 {
        Some(0)
    } else {
        match (hex_number(digits.drop_last()), hex_value(digits.last())) {
            (Some(high), Some(low)) => Some(high * 16 + low),
            _ => None,
        }
    }
}

/// The 32 digits of a hyphenated UUID text (groups of 8, 4, 4, 4 and 12 digits
/// separated by `-`), if `s` has that shape.
pub open spec fn hyphenated_digits(s: Seq<char>) -> Option<Seq<char>> {
    if s.len() == 36 && s[8] == '-' && s[13] == '-' && s[18] == '-' && s[23] == '-' {
        Some(
            s.subrange(0, 8) + s.subrange(9, 13) + s.subrange(14, 18) + s.subrange(19, 23)
                + s.subrange(24, 36),
        )
    } else {
        None
    }
}

/// `c` with an ASCII upper-case letter turned into lower case.
pub open spec fn ascii_lower(c: char) -> char {
    if 'A' <= c && c <= 'Z' {
        (c as int + 32) as char
    } else {
        c
    }
}

/// `s` is `urn:uuid:` in any mix of ASCII cases.
pub open spec fn is_urn_prefix(s: Seq<char>) -> bool {
    let p = seq!['u', 'r', 'n', ':', 'u', 'u', 'i', 'd', ':'];
    s.len() == 9 && forall|i: int| 0 <= i < 9 ==> #[trigger] ascii_lower(s[i]) == p[i]
}

/// The 32 digits of a UUID text in one of the accepted layouts: 32 digits,
/// hyphenated, hyphenated in braces, or hyphenated behind `urn:uuid:`.
pub open spec fn uuid_digits(text: Seq<char>) -> Option<Seq<char>> {
    if text.len() == 32 {
        Some(text)
    } else if text.len() == 36 {
        hyphenated_digits(text)
    } else if text.len() == 38 && text[0] == '{' && text[37] == '}' {
        hyphenated_digits(text.subrange(1, 37))
    } else if text.len() == 45 && is_urn_prefix(text.subrange(0, 9)) {
        hyphenated_digits(text.subrange(9, 45))
    } else {
        None
    }
}

/// The UUID that `text` denotes, if `text` is a UUID in one of the accepted
/// layouts, with hexadecimal digits in either case.
pub open spec fn uuid_from_text(text: Seq<char>) -> Option<u128> {
    match uuid_digits(text) {
        Some(digits) => match hex_number(digits) {
            Some(v) => Some(v as u128),
            None => None,
        },
        None => None,
    }
}

/// The lower-case hexadecimal digit of `d`, for `0 <= d < 16`.
pub open spec fn hex_digit(d: int) -> char {
    if d < 10 {
        (48 + d) as char
    } else {
        (87 + d) as char
    }
}

/// Digit `k` of `id` in base 16, counting from the most significant (`0 <= k < 32`).
pub open spec fn hex_digit_of(id: u128, k: int) -> int {
    (id as int / pow2((4 * (31 - k)) as nat) as int) % 16
}

/// The hyphenated lower-case text of the UUID `id`: its 32 hexadecimal digits,
/// most significant first, in groups of 8, 4, 4, 4 and 12 separated by `-`.
pub open spec fn uuid_text(id: u128) -> Seq<char> {
    Seq::new(
        36,
        |i: int|
            if i == 8 || i == 13 || i == 18 || i == 23 {
                '-'
            } else {
                let k = if i < 8 {
                    i
                } else if i < 13 {
                    i - 1
                } else if i < 18 {
                    i - 2
                } else if i < 23 {
                    i - 3
                } else {
                    i - 4
                };
                hex_digit(hex_digit_of(id, k))
            },
    )
}

/// The 32 hexadecimal digits of `id`, most significant first.
pub open spec fn hex_digits_of(id: u128) -> Seq<char> {
    Seq::new(32, |k: int| hex_digit(hex_digit_of(id, k)))
}

/// Reading back the first `n` digits of `id` gives `id` without its last
/// `32 - n` digits.
proof fn lemma_hex_number_prefix(id: u128, n: int)
    requires
        0 <= n <= 32,
    ensures
        hex_number(hex_digits_of(id).take(n)) == Some(id as int / pow2((4 * (32 - n)) as nat) as int),
    decreases n,
{
    let d = hex_digits_of(id);
    if n == 0 {
        assert(d.take(0) =~= Seq::<char>::empty());
        lemma_pow2_pos((4 * 32) as nat);
        lemma2_to64_rest();
        lemma_pow2_adds(64, 64);
        assert(pow2(128) == 0x1_0000_0000_0000_0000_0000_0000_0000_0000);
        let big = pow2(128) as int;
        assert(id as int / big == 0) by (nonlinear_arith)
            requires
                big == 0x1_0000_0000_0000_0000_0000_0000_0000_0000,
                0 <= id as int <= u128::MAX,
        ;
    } else {
        lemma_hex_number_prefix(id, n - 1);
        assert(d.take(n).drop_last() =~= d.take(n - 1));
        let e = (4 * (31 - (n - 1))) as nat;
        let e_low = (4 * (32 - n)) as nat;
        let e_high = (4 * (32 - (n - 1))) as nat;
        assert(e_high == e_low + 4);
        lemma_pow2_adds(e_low, 4);
        lemma2_to64();
        lemma_pow2_pos(e_low);
        let q = id as int / pow2(e_low) as int;
        lemma_div_denominator(id as int, pow2(e_low) as int, 16);
        assert(id as int / pow2(e_high) as int == q / 16);
        let digit = hex_digit_of(id, n - 1);
        assert(e == e_low);
        assert(digit == q % 16);
        assert(0 <= digit < 16);
        assert(hex_value(hex_digit(digit)) == Some(digit));
        assert(d.take(n).last() == hex_digit(digit));
        lemma_fundamental_div_mod(q, 16);
        assert((q / 16) * 16 + q % 16 == q);
    }
}

/// The text of a UUID reads back as that UUID.
pub proof fn lemma_uuid_text_round_trip(id: u128)
    ensures
        uuid_from_text(uuid_text(id)) == Some(id),
{
    let t = uuid_text(id);
    let d = hex_digits_of(id);
    assert(hyphenated_digits(t) == Some(d)) by {
        assert(t.subrange(0, 8) + t.subrange(9, 13) + t.subrange(14, 18) + t.subrange(19, 23)
            + t.subrange(24, 36) =~= d);
    }
    assert(t.len() == 36);
    assert(uuid_digits(t) == Some(d));
    lemma_hex_number_prefix(id, 32);
    assert(d.take(32) =~= d);
    lemma2_to64();
    assert(pow2(0) == 1);
    assert(id as int / 1 == id as int);
    assert(hex_number(d) == Some(id as int));
}

/// Mask of the version bits and of the two top variant bits of a UUID.
pub const UUID_V4_MASK: u128 = 0x0000_0000_0000_F000_C000_0000_0000_0000u128;

/// Those bits in a random (version 4, RFC 4122 variant) UUID.
pub const UUID_V4_BITS: u128 = 0x0000_0000_0000_4000_8000_0000_0000_0000u128;

/// `id` carries the version and variant bits of a random UUID.
pub open spec fn is_random_uuid(id: u128) -> bool {
    id & UUID_V4_MASK == UUID_V4_BITS
}

/// Calls `uuid::Uuid::parse_str` and takes the 128-bit value of the result.
/// Trusted claim: `parse_str` accepts exactly the layouts of `uuid_from_text`
/// (it reads the UTF-8 bytes, and every accepted byte is ASCII), reads the digits
/// most significant first, and reports an error on any other text.
#[verifier::external_body]
fn parse_uuid(text: &str) -> (id: Option<u128>)
    ensures
        id == uuid_from_text(text@),
{
    match uuid::Uuid::parse_str(text) {
        Ok(u) => Some(u.as_u128()),
        Err(_) => None,
    }
}

/// Formats `uuid::Uuid::from_u128(id)` with its `Display` impl. Trusted claim:
/// the text is the hyphenated lower-case form `uuid_text(id)`.
#[verifier::external_body]
fn format_uuid(id: u128) -> (text: String)
    ensures
        text@ == uuid_text(id),
{
    format!("{}", uuid::Uuid::from_u128(id))
}

/// Calls `uuid::Uuid::new_v4` and takes its 128-bit value. The value is random;
/// trusted claim: `new_v4` masks the random bits so that the version is 4 and the
/// variant is RFC 4122, whatever was drawn. Nothing else is stated of the value.
#[verifier::external_body]
fn random_uuid() -> (id: u128)
    ensures
        is_random_uuid(id),
{
    uuid::Uuid::new_v4().as_u128()
}

/// The low 62 bits of a UUID, below its variant bits.
pub const UUID_LOW_BITS: u128 = 0x3FFF_FFFF_FFFF_FFFFu128;

/// The `i`-th spare random-form UUID: `i` spread over bits that the version and
/// variant bits leave free (its low 62 bits at the bottom, the rest from bit 80).
pub open spec fn spare_uuid(i: u128) -> u128 {
    UUID_V4_BITS | (i & UUID_LOW_BITS) | ((i >> 62u128) << 80u128)
}

/// Spare UUIDs carry the random-form bits, and different indexes below 2^100
/// give different UUIDs.
proof fn lemma_spare_uuid(i: u128, j: u128)
    requires
        i < 0x10_0000_0000_0000_0000_0000_0000u128,
        j < 0x10_0000_0000_0000_0000_0000_0000u128,
    ensures
        is_random_uuid(spare_uuid(i)),
        i != j ==> spare_uuid(i) != spare_uuid(j),
{
    assert((0x0000_0000_0000_4000_8000_0000_0000_0000u128 | (i & 0x3FFF_FFFF_FFFF_FFFFu128) | ((i >> 62u128) << 80u128))
        & 0x0000_0000_0000_F000_C000_0000_0000_0000u128 == 0x0000_0000_0000_4000_8000_0000_0000_0000u128)
        by (bit_vector);
    assert(i < 0x10_0000_0000_0000_0000_0000_0000u128 && j < 0x10_0000_0000_0000_0000_0000_0000u128 && i != j
        ==> (0x0000_0000_0000_4000_8000_0000_0000_0000u128 | (i & 0x3FFF_FFFF_FFFF_FFFFu128) | ((i >> 62u128) << 80u128))
        != (0x0000_0000_0000_4000_8000_0000_0000_0000u128 | (j & 0x3FFF_FFFF_FFFF_FFFFu128) | ((j >> 62u128) << 80u128)))
        by (bit_vector);
}

/// A finite set of `n` elements misses one of the `n + 1` spare UUIDs `0..=n`.
proof fn lemma_spare_uuid_free(dom: Set<u128>, n: nat)
    requires
        dom.finite(),
        dom.len() == n,
        n < 0x1_0000_0000_0000_0000,
    ensures
        exists|j: u128| j <= n && !dom.contains(#[trigger] spare_uuid(j)),
{
    if forall|j: u128| j <= n ==> #[trigger] dom.contains(spare_uuid(j)) {
        let s = Seq::new(n + 1, |j: int| spare_uuid(j as u128));
        assert forall|a: int, b: int| 0 <= a < s.len() && 0 <= b < s.len() && a != b implies s[a] != s[b] by {
            lemma_spare_uuid(a as u128, b as u128);
        }
        assert(s.no_duplicates());
        s.unique_seq_to_set();
        assert forall|x: u128| s.to_set().contains(x) implies dom.contains(x) by {
            let k = choose|k: int| 0 <= k < s.len() && s[k] == x;
            assert(dom.contains(spare_uuid(k as u128)));
        }
        vstd::set_lib::lemma_len_subset(s.to_set(), dom);
    }
}

/// How a request on the registry can fail.
#[derive(PartialEq, Eq, Structural, Debug, Clone, Copy)]
pub enum RequestError {
    /// The request carries no reference where one is needed.
    MissingReference,
    /// The reference is not the text of a UUID.
    InvalidReference,
    /// No artifact is registered under the reference.
    NotFound,
}

/// What the server answers about a registered artifact.
pub struct Reference {
    pub identifier: String,
    pub description: String,
}

/// `r` is the reference that names the artifact `a` registered under `id`.
pub open spec fn names<T>(r: Reference, id: u128, a: Artifact<T>) -> bool {
    &&& r.identifier@ == uuid_text(id)
    &&& uuid_from_text(r.identifier@) == Some(id)
    &&& r.description@ == a.description@
}

/// What a lookup of the reference `text` in the registry `m` answers.
pub open spec fn spec_lookup<T>(m: Map<u128, Artifact<T>>, text: Seq<char>) -> Result<Artifact<T>, RequestError> {
    match uuid_from_text(text) {
        None => Err(RequestError::InvalidReference),
        Some(id) => if m.contains_key(id) {
            Ok(m[id])
        } else {
            Err(RequestError::NotFound)
        },
    }
}

/// A lookup by the reference under which an artifact was just registered
/// finds that artifact; lookups of other identifiers answer as before.
pub proof fn lemma_lookup_after_register<T>(
    m: Map<u128, Artifact<T>>,
    id: u128,
    a: Artifact<T>,
    text: Seq<char>,
    other: Seq<char>,
)
    requires
        uuid_from_text(text) == Some(id),
        uuid_from_text(other) != Some(id),
    ensures
        spec_lookup(m.insert(id, a), text) == Ok::<Artifact<T>, RequestError>(a),
        spec_lookup(m.insert(id, a), other) == spec_lookup(m, other),
{
}

/// After a reference is deleted, looking it up finds nothing; lookups of
/// other identifiers answer as before.
pub proof fn lemma_lookup_after_delete<T>(
    m: Map<u128, Artifact<T>>,
    id: u128,
    text: Seq<char>,
    other: Seq<char>,
)
    requires
        uuid_from_text(text) == Some(id),
        uuid_from_text(other) != Some(id),
    ensures
        spec_lookup(m.remove(id), text) == Err::<Artifact<T>, RequestError>(RequestError::NotFound),
        spec_lookup(m.remove(id), other) == spec_lookup(m, other),
{
}

/// `r` names some entry of `m`.
pub open spec fn names_an_entry<T>(r: Reference, m: Map<u128, Artifact<T>>) -> bool {
    exists|id: u128| m.contains_key(id) && #[trigger] names(r, id, m[id])
}

/// Some reference of `refs` names the artifact `a` registered under `id`.
pub open spec fn named_in<T>(refs: Seq<Reference>, id: u128, a: Artifact<T>) -> bool {
    exists|i: int| 0 <= i < refs.len() && #[trigger] names(refs[i], id, a)
}

/// References listed in the order of a walk over the entries of a map name
/// every entry of the map, and only those.
proof fn lemma_listing_covers<T>(
    refs: Seq<Reference>,
    items: Seq<(&u128, &Artifact<T>)>,
    m: Map<u128, Artifact<T>>,
)
    requires
        refs.len() == items.len(),
        forall|j: int| #![trigger refs[j]] 0 <= j < refs.len() ==> names(refs[j], *items[j].0, *items[j].1),
        forall|i: int| #![trigger items[i]] 0 <= i < items.len() ==> m.contains_key(*items[i].0) && m[*items[i].0] == *items[i].1,
        forall|k: u128| #[trigger] m.contains_key(k) ==> items.contains((&k, &m[k])),
        items.no_duplicates(),
    ensures
        forall|i: int| 0 <= i < refs.len() ==> #[trigger] names_an_entry(refs[i], m),
        forall|id: u128| #[trigger] m.contains_key(id) ==> named_in(refs, id, m[id]),
        forall|i: int, j: int|
            0 <= i < j < refs.len() ==> #[trigger] refs[i].identifier@ != #[trigger] refs[j].identifier@,
{
    assert forall|i: int, j: int|
        0 <= i < j < refs.len() implies #[trigger] refs[i].identifier@ != #[trigger] refs[j].identifier@ by {
        if refs[i].identifier@ == refs[j].identifier@ {
            assert(names(refs[i], *items[i].0, *items[i].1));
            assert(names(refs[j], *items[j].0, *items[j].1));
            assert(*items[i].0 == *items[j].0);
            assert(items[i] == items[j]);
        }
    }
    assert forall|i: int| 0 <= i < refs.len() implies #[trigger] names_an_entry(refs[i], m) by {
        let _ = items[i];
        let id = *items[i].0;
        assert(names(refs[i], id, m[id]));
    }
    assert forall|id: u128| #[trigger] m.contains_key(id) implies named_in(refs, id, m[id]) by {
        assert(items.contains((&id, &m[id])));
        let i = choose|i: int| 0 <= i < items.len() && items[i] == (&id, &m[id]);
        let _ = refs[i];
        assert(names(refs[i], id, m[id]));
    }
}

/// Artifacts registered under UUIDs.
pub struct ArtifactStore<T> {
    entries: HashMap<u128, Artifact<T>>,
}

impl<T> View for ArtifactStore<T> {
    type V = Map<u128, Artifact<T>>;

    closed spec fn view(&self) -> Map<u128, Artifact<T>> {
        self.entries@
    }
}

/// The identifier, as a UUID, that a request's optional reference denotes.
pub open spec fn spec_reference_id(reference: Option<Seq<char>>) -> Result<u128, RequestError> {
    match reference {
        None => Err(RequestError::MissingReference),
        Some(text) => match uuid_from_text(text) {
            Some(id) => Ok(id),
            None => Err(RequestError::InvalidReference),
        },
    }
}

/// The identifier that an optional reference denotes: `MissingReference` when
/// there is none, `InvalidReference` when it is not the text of a UUID.
pub fn reference_id(reference: Option<&str>) -> (r: Result<u128, RequestError>)
    ensures
        r == spec_reference_id(match reference {
            Some(text) => Some(text@),
            None => None,
        }),
        reference is None ==> r == Err::<u128, RequestError>(RequestError::MissingReference),
        forall|text: &str| #![trigger uuid_from_text(text@)]
            reference == Some(text) ==> match uuid_from_text(text@) {
                Some(id) => r == Ok::<u128, RequestError>(id),
                None => r == Err::<u128, RequestError>(RequestError::InvalidReference),
            },
{
    match reference {
        None => Err(RequestError::MissingReference),
        Some(text) => match parse_uuid(text) {
            Some(id) => Ok(id),
            None => Err(RequestError::InvalidReference),
        },
    }
}

/// The reference text that registration answers for `id` resolves to `id`
/// itself, all 128 bits of it; and any text of a UUID resolves to that UUID.
pub proof fn lemma_reference_id_of_registered(id: u128, text: Seq<char>)
    ensures
        spec_reference_id(Some(uuid_text(id))) == Ok::<u128, RequestError>(id),
        uuid_from_text(text) == Some(id) ==> spec_reference_id(Some(text)) == Ok::<u128, RequestError>(id),
        uuid_from_text(text) is None ==> spec_reference_id(Some(text)) == Err::<u128, RequestError>(
            RequestError::InvalidReference,
        ),
{
    lemma_uuid_text_round_trip(id);
}

/// Registering under an identifier that is not yet registered adds exactly one
/// artifact, keeps every earlier one, and leaves every earlier successful lookup
/// answering as before.
pub proof fn lemma_fresh_registration<T>(m: Map<u128, Artifact<T>>, id: u128, a: Artifact<T>, text: Seq<char>)
    requires
        m.dom().finite(),
        !m.contains_key(id),
    ensures
        m.insert(id, a).dom().len() == m.dom().len() + 1,
        forall|k: u128| #[trigger] m.contains_key(k) ==> m.insert(id, a).contains_key(k) && m.insert(id, a)[k] == m[k],
        spec_lookup(m, text) is Ok ==> spec_lookup(m.insert(id, a), text) == spec_lookup(m, text),
{
}

impl<T> ArtifactStore<T> {
    /// An empty registry.
    pub fn new() -> (s: Self)
        ensures
            s@ == Map::<u128, Artifact<T>>::empty(),
    {
        ArtifactStore { entries: HashMap::new() }
    }

    /// Registers `artifact` under `id`, replacing what was registered there,
    /// and returns the reference that names it.
    pub fn register_as(&mut self, id: u128, artifact: Artifact<T>) -> (r: Reference)
        ensures
            final(self)@ == old(self)@.insert(id, artifact),
            r.identifier@ == uuid_text(id),
            uuid_from_text(r.identifier@) == Some(id),
            r.description@ == artifact.description@,
    {
        proof {
            lemma_uuid_text_round_trip(id);
        }
        let description = artifact.description.clone();
        self.entries.insert(id, artifact);
        Reference { identifier: format_uuid(id), description }
    }

    /// A random-form UUID under which nothing is registered: the first free
    /// one of the spare UUIDs.
    fn spare_free_uuid(&self) -> (id: u128)
        ensures
            is_random_uuid(id),
            !self@.contains_key(id),
    {
        let n = self.entries.len();
        proof {
            lemma_spare_uuid_free(self@.dom(), n as nat);
        }
        let mut i: u128 = 0;
        while i <= n as u128
            invariant
                n == self@.dom().len(),
                n < 0x1_0000_0000_0000_0000,
                i <= n + 1,
                forall|j: u128| j < i ==> self@.contains_key(#[trigger] spare_uuid(j)),
                exists|j: u128| j <= n && !self@.dom().contains(#[trigger] spare_uuid(j)),
            decreases n + 1 - i,
        {
            let candidate = UUID_V4_BITS | (i & UUID_LOW_BITS) | ((i >> 62u128) << 80u128);
            assert(candidate == spare_uuid(i));
            if !self.entries.contains_key(&candidate) {
                proof {
                    lemma_spare_uuid(i, i);
                }
                return candidate;
            }
            i = i + 1;
        }
        assert(false);
        UUID_V4_BITS
    }

    /// Registers `artifact` under a fresh random UUID and returns the reference
    /// that names it. Should the random draw hit an identifier that is already
    /// registered, the first free spare random-form UUID is used instead, so
    /// that no registered artifact is replaced.
    pub fn register(&mut self, artifact: Artifact<T>) -> (r: Reference)
        ensures
            exists|id: u128|
                #![trigger old(self)@.insert(id, artifact)]
                {
                    &&& is_random_uuid(id)
                    &&& !old(self)@.contains_key(id)
                    &&& final(self)@ == old(self)@.insert(id, artifact)
                    &&& r.identifier@ == uuid_text(id)
                    &&& uuid_from_text(r.identifier@) == Some(id)
                },
            final(self)@.dom().len() == old(self)@.dom().len() + 1,
            forall|k: u128| #[trigger] old(self)@.contains_key(k) ==> final(self)@.contains_key(k)
                && final(self)@[k] == old(self)@[k],
            r.description@ == artifact.description@,
    {
        let drawn = random_uuid();
        let id = if self.entries.contains_key(&drawn) {
            self.spare_free_uuid()
        } else {
            drawn
        };
        self.register_as(id, artifact)
    }

    /// Rebuilds the payload of an uploaded artifact with `from_bytes` and, only
    /// when that succeeds, registers the result under a fresh random UUID; the
    /// error of `from_bytes`, and no change, when it fails.
    pub fn register_deserialized<E, F>(
        &mut self,
        upload: Artifact<SizedObjectsBytes>,
        from_bytes: F,
    ) -> (r: Result<Reference, E>) where F: FnOnce(SizedObjectsBytes) -> Result<T, E>
        requires
            from_bytes.requires((upload.data,)),
        ensures
            match r {
                Err(e) => {
                    &&& from_bytes.ensures((upload.data,), Err::<T, E>(e))
                    &&& final(self)@ == old(self)@
                },
                Ok(reference) => exists|id: u128, a: Artifact<T>|
                    #![trigger old(self)@.insert(id, a)]
                    {
                        &&& is_random_uuid(id)
                        &&& !old(self)@.contains_key(id)
                        &&& from_bytes.ensures((upload.data,), Ok::<T, E>(a.data))
                        &&& a.description@ == upload.description@
                        &&& a.secret@ == upload.secret@
                        &&& final(self)@ == old(self)@.insert(id, a)
                        &&& names(reference, id, a)
                    },
            },
    {
        match upload.deserialize(from_bytes) {
            Ok(a) => {
                let reference = self.register(a);
                Ok(reference)
            },
            Err(e) => Err(e),
        }
    }

    /// The artifact registered under `id`, if any.
    pub fn get(&self, id: u128) -> (r: Option<&Artifact<T>>)
        ensures
            match r {
                Some(a) => self@.contains_key(id) && *a == self@[id],
                None => !self@.contains_key(id),
            },
    {
        self.entries.get(&id)
    }

    /// The artifact that the reference `identifier` names: `InvalidReference`
    /// when it is not the text of a UUID, `NotFound` when nothing is registered
    /// under it.
    pub fn lookup(&self, identifier: &str) -> (r: Result<&Artifact<T>, RequestError>)
        ensures
            match r {
                Ok(a) => spec_lookup(self@, identifier@) == Ok::<Artifact<T>, RequestError>(*a),
                Err(e) => spec_lookup(self@, identifier@) == Err::<Artifact<T>, RequestError>(e),
            },
    {
        match parse_uuid(identifier) {
            None => Err(RequestError::InvalidReference),
            Some(id) => match self.get(id) {
                Some(a) => Ok(a),
                None => Err(RequestError::NotFound),
            },
        }
    }

    /// One reference per registered artifact, in no stated order.
    pub fn references(&self) -> (refs: Vec<Reference>)
        ensures
            refs@.len() == self@.dom().len(),
            forall|i: int| 0 <= i < refs@.len() ==> #[trigger] names_an_entry(refs@[i], self@),
            forall|id: u128| #[trigger] self@.contains_key(id) ==> named_in(refs@, id, self@[id]),
            forall|i: int, j: int|
                0 <= i < j < refs@.len() ==> #[trigger] refs@[i].identifier@ != #[trigger] refs@[j].identifier@,
    {
        let mut refs: Vec<Reference> = Vec::new();
        let entries = self.entries.iter();
        let ghost items = entries.remaining();
        assert(items.no_duplicates());
        for entry in it: entries
            invariant
                items == it.seq(),
                refs@.len() == it.index(),
                forall|j: int|
                    #![trigger refs@[j]]
                    0 <= j < it.index() ==> names(refs@[j], *it.seq()[j].0, *it.seq()[j].1),
        {
            let (id, artifact) = entry;
            let ghost k = it.index();
            assert(entry == it.seq()[k]);
            proof {
                lemma_uuid_text_round_trip(*id);
            }
            let r = Reference { identifier: format_uuid(*id), description: artifact.description.clone() };
            assert(names(r, *id, *artifact));
            refs.push(r);
        }
        proof {
            lemma_listing_covers(refs@, items, self@);
        }
        refs
    }

    /// Unregisters what is registered under `id`, if anything.
    pub fn remove(&mut self, id: u128)
        ensures
            final(self)@ == old(self)@.remove(id),
    {
        self.entries.remove(&id);
    }

    /// Unregisters what the reference `identifier` names; `InvalidReference`
    /// (and no change) when it is not the text of a UUID. Nothing registered
    /// under it is no error.
    pub fn delete(&mut self, identifier: &str) -> (r: Result<(), RequestError>)
        ensures
            match uuid_from_text(identifier@) {
                None => r == Err::<(), RequestError>(RequestError::InvalidReference)
                    && final(self)@ == old(self)@,
                Some(id) => r is Ok && final(self)@ == old(self)@.remove(id),
            },
    {
        match parse_uuid(identifier) {
            None => Err(RequestError::InvalidReference),
            Some(id) => {
                self.remove(id);
                Ok(())
            },
        }
    }
}

/// The pair of artifacts that a training or testing request names, given what
/// its dataset and model references denote: the first failing reference
/// (dataset first), else `NotFound` for a dataset, then a model, that is not
/// registered.
pub fn resolve_pair<'a, D, M>(
    datasets: &'a ArtifactStore<D>,
    modules: &'a ArtifactStore<M>,
    dataset: Result<u128, RequestError>,
    model: Result<u128, RequestError>,
) -> (r: Result<(&'a Artifact<D>, &'a Artifact<M>), RequestError>)
    ensures
        match (dataset, model) {
            (Err(e), _) => r == Err::<(&'a Artifact<D>, &'a Artifact<M>), RequestError>(e),
            (Ok(_), Err(e)) => r == Err::<(&'a Artifact<D>, &'a Artifact<M>), RequestError>(e),
            (Ok(d), Ok(m)) => if !datasets@.contains_key(d) || !modules@.contains_key(m) {
                r == Err::<(&'a Artifact<D>, &'a Artifact<M>), RequestError>(RequestError::NotFound)
            } else {
                r matches Ok((a, b)) && *a == datasets@[d] && *b == modules@[m]
            },
        },
{
    let d = match dataset {
        Ok(d) => d,
        Err(e) => return Err(e),
    };
    let m = match model {
        Ok(m) => m,
        Err(e) => return Err(e),
    };
    let a = match datasets.get(d) {
        Some(a) => a,
        None => return Err(RequestError::NotFound),
    };
    let b = match modules.get(m) {
        Some(b) => b,
        None => return Err(RequestError::NotFound),
    };
    Ok((a, b))
}

} // verus!
