//! Image identifiers and their canonical keys
//! (`bevy://index/<decimal>` and `bevy://uuid/<uuid text>`).

use vstd::prelude::*;

use crate::decimal::{decimal, lemma_decimal_reads_back, parse_u64, parse_u64_spec, write_decimal};

verus! {

/// Identifier of an image owned by the asset system: a slot index with its
/// generation, or a 128-bit UUID.
#[derive(Clone, Copy, Debug, PartialEq, Eq, Structural)]
pub enum ImageId {
    Index { index: u32, generation: u32 },
    Uuid { uuid: u128 },
}

/// Why a key was not accepted.
#[derive(Clone, Copy, Debug, PartialEq, Eq, Structural)]
pub enum LoadError {
    /// The key does not belong to this loader, or its payload does not parse.
    NotSupported,
}

/// Canonical text of a UUID.
pub uninterp spec fn uuid_text(v: u128) -> Seq<char>;

/// The UUID read from a text, if it is one.
pub uninterp spec fn uuid_parsed(s: Seq<char>) -> Option<u128>;

/// Relies on `Display` for `uuid::Uuid` (hyphenated lower-case hex) to give
/// the text of the UUID built by `uuid::Uuid::from_u128`.
#[verifier::external_body]
fn format_uuid(v: u128) -> (r: String)
    ensures
        r@ == uuid_text(v),
{
    uuid::Uuid::from_u128(v).to_string()
}

/// Relies on `uuid::Uuid::parse_str`, read through `as_u128`: the result
/// depends on the text alone, and the text that `Display` writes for a UUID
/// reads back as that UUID.
#[verifier::external_body]
fn parse_uuid(s: &str) -> (r: Option<u128>)
    ensures
        r == uuid_parsed(s@),
        forall|v: u128| s@ == uuid_text(v) ==> r == Some(v),
{
    match uuid::Uuid::parse_str(s) {
        Ok(u) => Some(u.as_u128()),
        Err(_) => None,
    }
}

pub open spec fn scheme() -> Seq<char> {
    seq!['b', 'e', 'v', 'y', ':', '/', '/']
}

pub open spec fn uuid_kind() -> Seq<char> {
    seq!['u', 'u', 'i', 'd', '/']
}

pub open spec fn index_kind() -> Seq<char> {
    seq!['i', 'n', 'd', 'e', 'x', '/']
}

pub open spec fn has_prefix(s: Seq<char>, p: Seq<char>) -> bool {
    p.len() <= s.len() && s.subrange(0, p.len() as int) == p
}

/// Generation in the high 32 bits, index in the low 32 bits.
pub open spec fn packed(generation: u32, index: u32) -> nat {
    generation as nat * 0x1_0000_0000 + index as nat
}

/// The canonical key of an image.
pub open spec fn image_key(id: ImageId) -> Seq<char> {
    match id {
        ImageId::Index { index, generation } => scheme() + index_kind() + decimal(
            packed(generation, index),
        ),
        ImageId::Uuid { uuid } => scheme() + uuid_kind() + uuid_text(uuid),
    }
}

/// The image a key names, or why it names none.
pub open spec fn image_of_key(k: Seq<char>) -> Result<ImageId, LoadError> {
    if !has_prefix(k, scheme()) {
        Err(LoadError::NotSupported)
    } else {
        let rest = k.skip(7);
        if has_prefix(rest, uuid_kind()) {
            match uuid_parsed(rest.skip(5)) {
                Some(v) => Ok(ImageId::Uuid { uuid: v }),
                None => Err(LoadError::NotSupported),
            }
        } else if has_prefix(rest, index_kind()) {
            match parse_u64_spec(rest.skip(6)) {
                Some(n) => Ok(
                    ImageId::Index {
                        index: (n % 0x1_0000_0000) as u32,
                        generation: (n / 0x1_0000_0000) as u32,
                    },
                ),
                None => Err(LoadError::NotSupported),
            }
        } else {
            Err(LoadError::NotSupported)
        }
    }
}

proof fn lemma_key_parts(id: ImageId)
    ensures
        has_prefix(image_key(id), scheme()),
        match id {
            ImageId::Index { index, generation } => {
                &&& !has_prefix(image_key(id).skip(7), uuid_kind())
                &&& has_prefix(image_key(id).skip(7), index_kind())
                &&& image_key(id).skip(7).skip(6) == decimal(packed(generation, index))
            },
            ImageId::Uuid { uuid } => {
                &&& has_prefix(image_key(id).skip(7), uuid_kind())
                &&& image_key(id).skip(7).skip(5) == uuid_text(uuid)
            },
        },
{
    let k = image_key(id);
    match id {
        ImageId::Index { index, generation } => {
            let d = decimal(packed(generation, index));
            lemma_decimal_reads_back(packed(generation, index));
            assert(k.subrange(0, 7) =~= scheme());
            assert(k.skip(7) =~= index_kind() + d);
            assert(k.skip(7).subrange(0, 6) =~= index_kind());
            assert(k.skip(7).skip(6) =~= d);
            assert(k.skip(7).subrange(0, 5)[0] == 'i');
        },
        ImageId::Uuid { uuid } => {
            let t = uuid_text(uuid);
            assert(k.subrange(0, 7) =~= scheme());
            assert(k.skip(7) =~= uuid_kind() + t);
            assert(k.skip(7).subrange(0, 5) =~= uuid_kind());
            assert(k.skip(7).skip(5) =~= t);
        },
    }
}

/// A key that starts with `bevy://index/` and holds the decimal form of the
/// packed pair names that pair again.
pub proof fn lemma_index_key_round_trip(index: u32, generation: u32)
    ensures
        image_of_key(image_key(ImageId::Index { index, generation })) == Ok::<ImageId, LoadError>(
            ImageId::Index { index, generation },
        ),
{
    let id = ImageId::Index { index, generation };
    let p = packed(generation, index);
    lemma_key_parts(id);
    lemma_decimal_reads_back(p);
    assert(p <= u64::MAX);
    assert(parse_u64_spec(decimal(p)) == Some(p as u64));
    assert(p / 0x1_0000_0000 == generation as nat && p % 0x1_0000_0000 == index as nat)
        by (nonlinear_arith)
        requires
            p == generation as nat * 0x1_0000_0000 + index as nat,
            index < 0x1_0000_0000,
    ;
}

/// The rest of `s` after `p`, when `s` starts with `p`.
pub(crate) fn strip_prefix<'a>(s: &'a str, p: &str) -> (r: Option<&'a str>)
    ensures
        r is Some <==> has_prefix(s@, p@),
        r matches Some(t) ==> t@ == s@.skip(p@.len() as int),
{
    let n = s.unicode_len();
    let m = p.unicode_len();
    if m > n {
        return None;
    }
    let mut i: usize = 0;
    while i < m
        invariant
            m <= n,
            n == s@.len(),
            m == p@.len(),
            i <= m,
            forall|j: int| 0 <= j < i ==> s@[j] == p@[j],
        decreases m - i,
    {
        if s.get_char(i) != p.get_char(i) {
            assert(s@.subrange(0, m as int)[i as int] != p@[i as int]);
            return None;
        }
        i = i + 1;
    }
    assert(s@.subrange(0, m as int) =~= p@);
    let t = s.substring_char(m, n);
    assert(t@ =~= s@.skip(m as int));
    Some(t)
}

/// Whether two texts are the same.
pub(crate) fn same_text(a: &str, b: &str) -> (r: bool)
    ensures
        r == (a@ == b@),
{
    if a.unicode_len() != b.unicode_len() {
        return false;
    }
    assert(a@.subrange(0, b@.len() as int) =~= a@);
    strip_prefix(a, b).is_some()
}

impl ImageId {
    /// The canonical key of this image.
    pub fn into_uri(&self) -> (r: String)
        ensures
            r@ == image_key(*self),
    {
        let mut s = String::from_str("bevy://");
        proof {
            reveal_strlit("bevy://");
            reveal_strlit("index/");
            reveal_strlit("uuid/");
        }
        match self {
            ImageId::Index { index, generation } => {
                s.append("index/");
                let g = *generation as u64;
                let i = *index as u64;
                let combined: u64 = (g << 32) | i;
                assert(combined / 0x1_0000_0000 == g && combined % 0x1_0000_0000 == i)
                    by (bit_vector)
                    requires
                        g < 0x1_0000_0000,
                        i < 0x1_0000_0000,
                        combined == (g << 32) | i,
                ;
                assert(combined == (combined / 0x1_0000_0000) * 0x1_0000_0000 + combined
                    % 0x1_0000_0000) by (nonlinear_arith);
                write_decimal(combined, &mut s);
                assert(s@ =~= image_key(*self));
            },
            ImageId::Uuid { uuid } => {
                s.append("uuid/");
                let t = format_uuid(*uuid);
                s.append(t.as_str());
                assert(s@ =~= image_key(*self));
            },
        }
        s
    }

    /// The image named by `key`: `NotSupported` unless the key has this
    /// loader's scheme and a payload that parses.
    pub fn from_key(key: &str) -> (r: Result<ImageId, LoadError>)
        ensures
            r == image_of_key(key@),
            forall|id: ImageId| key@ == image_key(id) ==> r == Ok::<ImageId, LoadError>(id),
    {
        proof {
            reveal_strlit("bevy://");
            reveal_strlit("index/");
            reveal_strlit("uuid/");
            assert("bevy://"@ =~= scheme());
            assert("uuid/"@ =~= uuid_kind());
            assert("index/"@ =~= index_kind());
        }
        let rest = match strip_prefix(key, "bevy://") {
            Some(rest) => rest,
            None => {
                proof {
                    assert forall|id: ImageId| key@ != image_key(id) by {
                        lemma_key_parts(id);
                    }
                }
                return Err(LoadError::NotSupported);
            },
        };
        if let Some(text) = strip_prefix(rest, "uuid/") {
            let r = match parse_uuid(text) {
                Some(v) => Ok(ImageId::Uuid { uuid: v }),
                None => Err(LoadError::NotSupported),
            };
            proof {
                assert forall|id: ImageId| key@ == image_key(id) implies r == Ok::<
                    ImageId,
                    LoadError,
                >(id) by {
                    lemma_key_parts(id);
                }
            }
            r
        } else if let Some(digits) = strip_prefix(rest, "index/") {
            match parse_u64(digits) {
                Some(n) => {
                    let generation = (n >> 32) as u32;
                    let index = (n & 0xFFFF_FFFF) as u32;
                    assert(n >> 32 == n / 0x1_0000_0000) by (bit_vector);
                    assert(n & 0xFFFF_FFFF == n % 0x1_0000_0000) by (bit_vector);
                    let r = Ok(ImageId::Index { index, generation });
                    proof {
                        assert forall|id: ImageId| key@ == image_key(id) implies r == Ok::<
                            ImageId,
                            LoadError,
                        >(id) by {
                            lemma_key_parts(id);
                            if let ImageId::Index { index: i0, generation: g0 } = id {
                                lemma_index_key_round_trip(i0, g0);
                            }
                        }
                    }
                    r
                },
                None => {
                    proof {
                        assert forall|id: ImageId| key@ != image_key(id) by {
                            lemma_key_parts(id);
                            if let ImageId::Index { index: i0, generation: g0 } = id {
                                lemma_index_key_round_trip(i0, g0);
                            }
                        }
                    }
                    Err(LoadError::NotSupported)
                },
            }
        } else {
            proof {
                assert forall|id: ImageId| key@ != image_key(id) by {
                    lemma_key_parts(id);
                }
            }
            Err(LoadError::NotSupported)
        }
    }
}

} // verus!
