//! Which serialized accounts the decoder of accounts comes to a result on.
//!
//! The decoder builds sparse trees out of an account's assets and of its storage maps. It has no
//! result where it meets a leaf with too many keys, where two keys of a map are the same in its
//! tree, nor for code of a single procedure. An account is walked part by part to tell these
//! before it is decoded.

use std::collections::{BTreeMap, HashMap};

use miden_protocol::account::StorageMapKey;
use miden_protocol::utils::serde::{ByteReader, Deserializable, Serializable, SliceReader};
use vstd::prelude::*;
use vstd::slice::slice_subrange;
use vstd::std_specs::hash::group_hash_axioms;

use crate::account;
use crate::bytes;
use crate::submitter;
use crate::word;

verus! {

/// Most keys that a leaf of a sparse tree holds.
pub const LEAF_ENTRIES: usize = 1024;

/// The tree key of the asset that the bytes start with, and the bytes that the asset takes; nothing
/// where there is none at the start.
pub uninterp spec fn asset_head(b: Seq<u8>) -> Option<(Seq<u64>, nat)>;

/// Bytes left behind a vault; nothing where there is none at the start.
pub uninterp spec fn vault_rest(b: Seq<u8>) -> Option<nat>;

/// The keys of the storage map that the bytes start with, and the bytes left behind it; nothing
/// where there is none at the start.
pub uninterp spec fn map_parts(b: Seq<u8>) -> Option<(Seq<Seq<u64>>, nat)>;

/// The tree key of a key of a storage map.
pub uninterp spec fn map_digest(key: Seq<u64>) -> Seq<u64>;

/// Bytes left behind the storage of an account; nothing where there is none at the start.
pub uninterp spec fn storage_rest(b: Seq<u8>) -> Option<nat>;

/// Bytes left behind a forest of procedures; nothing where there is none at the start.
pub uninterp spec fn forest_rest(b: Seq<u8>) -> Option<nat>;

/// Nothing where the bytes are those of an account, or what `DeserializationError` says.
pub uninterp spec fn account_decoded(b: Seq<u8>) -> Result<(), Seq<char>>;

/// The last `n` bytes.
pub open spec fn last(b: Seq<u8>, n: nat) -> Seq<u8> {
    b.subrange(b.len() - n, b.len() as int)
}

/// The bytes start with a word.
pub open spec fn starts_with_word(b: Seq<u8>) -> bool {
    b.len() >= 32 && word::canonical(word::bytes_word(b))
}

/// How many of the first `n` keys fall into this leaf, which is their last element.
pub open spec fn in_leaf(keys: Seq<Seq<u64>>, n: nat, leaf: u64) -> nat
    decreases n,
{
    if n == 0 {
        0
    } else {
        in_leaf(keys, (n - 1) as nat, leaf) + if keys[n - 1][3] == leaf {
            1nat
        } else {
            0nat
        }
    }
}

/// More keys fall into this leaf than it holds.
pub open spec fn is_crowded(keys: Seq<Seq<u64>>, leaf: u64) -> bool {
    in_leaf(keys, keys.len(), leaf) > LEAF_ENTRIES
}

/// Some key occurs twice in a leaf up to this one.
pub open spec fn repeats(keys: Seq<Seq<u64>>, leaf: u64) -> bool {
    exists|i: int, j: int|
        0 <= i < j < keys.len() && #[trigger] keys[i] == #[trigger] keys[j] && keys[i][3] <= leaf
}

/// The builder of a tree comes to a result on the keys. It goes from leaf to leaf, and ends at one
/// in which a key occurs twice; it has no result where it meets a crowded leaf before.
pub open spec fn buildable(keys: Seq<Seq<u64>>) -> bool {
    forall|leaf: u64| #[trigger] is_crowded(keys, leaf) ==> repeats(keys, leaf)
}

/// A tree can be built of the keys.
pub open spec fn makes_a_tree(keys: Seq<Seq<u64>>) -> bool {
    buildable(keys) && !repeats(keys, u64::MAX)
}

/// The tree keys of the keys of a storage map.
pub open spec fn digests(keys: Seq<Seq<u64>>) -> Seq<Seq<u64>> {
    Seq::new(keys.len(), |i: int| map_digest(keys[i]))
}

/// The bytes of an account identifier at the start: eight big-endian ones of the prefix and seven
/// of the suffix, without its last byte.
pub open spec fn starts_with_id(b: Seq<u8>) -> bool {
    b.len() >= 15 && account::valid_id(
        bytes::be_value(b.subrange(0, 8)),
        bytes::be_value(b.subrange(8, 15)) * 256,
    )
}

/// Zero bits below the lowest one bit of a byte.
pub open spec fn low_zeros(v: int) -> nat
    decreases v,
{
    if v <= 0 {
        8
    } else if v % 2 == 1 {
        0
    } else {
        1 + low_zeros(v / 2)
    }
}

/// The bytes that the number takes which starts with this one: one more than it has low zero bits.
pub open spec fn count_size(first: u8) -> nat {
    1 + low_zeros(first as int)
}

/// The number that the bytes start with; nothing where they end before it does, or it is no
/// `usize`. It is above the zero bits and the one bit in the first byte, or, where that is zero, in
/// the eight bytes that follow.
pub open spec fn count(b: Seq<u8>) -> Option<nat> {
    if b.len() == 0 || b.len() < count_size(b[0]) {
        None
    } else {
        let size = count_size(b[0]);
        let n = if size == 9 {
            bytes::le_value(b.subrange(1, 9))
        } else {
            bytes::le_value(b.subrange(0, size as int)) / vstd::arithmetic::power2::pow2(size)
        };
        if n <= usize::MAX {
            Some(n)
        } else {
            None
        }
    }
}

/// The tree keys of `n` assets at the start of the bytes; nothing where there are fewer.
pub open spec fn asset_keys(b: Seq<u8>, n: nat) -> Option<Seq<Seq<u64>>>
    decreases n,
{
    if n == 0 {
        Some(Seq::empty())
    } else {
        match asset_head(b) {
            None => None,
            Some((key, size)) => match asset_keys(b.skip(size as int), (n - 1) as nat) {
                None => None,
                Some(rest) => Some(seq![key] + rest),
            },
        }
    }
}

/// The tree keys of the assets that the bytes of a vault start with; nothing where they start with
/// no list of assets.
pub open spec fn vault_keys(b: Seq<u8>) -> Option<Seq<Seq<u64>>> {
    match count(b) {
        None => None,
        Some(n) => asset_keys(b.skip(count_size(b[0]) as int), n),
    }
}

/// A part of the name of a storage slot: letters, digits and underscores, of which it does not
/// start with one.
pub open spec fn is_name_part(p: Seq<u8>) -> bool {
    &&& p.len() > 0
    &&& p[0] != 0x5f
    &&& forall|i: int|
        0 <= i < p.len() ==> 0x30 <= #[trigger] p[i] <= 0x39 || 0x41 <= p[i] <= 0x5a || 0x61
            <= p[i] <= 0x7a || p[i] == 0x5f
}

/// The parts of a name with two colons between them.
pub open spec fn joined(parts: Seq<Seq<u8>>) -> Seq<u8>
    decreases parts.len(),
{
    if parts.len() == 0 {
        Seq::empty()
    } else if parts.len() == 1 {
        parts[0]
    } else {
        joined(parts.drop_last()) + seq![0x3au8, 0x3au8] + parts.last()
    }
}

/// The name of a storage slot: two parts or more.
pub open spec fn is_name(b: Seq<u8>) -> bool {
    exists|parts: Seq<Seq<u8>>|
        parts.len() >= 2 && #[trigger] joined(parts) == b && forall|i: int|
            0 <= i < parts.len() ==> is_name_part(#[trigger] parts[i])
}

/// The bytes start with the name of a storage slot behind its length.
pub open spec fn starts_with_name(b: Seq<u8>) -> bool {
    b.len() > 0 && b.len() >= 1 + b[0] && is_name(b.subrange(1, 1 + b[0]))
}

/// The decoder comes to a result on `n` storage slots at the start of the bytes: it refuses one,
/// or the trees of their maps can be built.
pub open spec fn slots_readable(b: Seq<u8>, n: nat) -> bool
    decreases n,
{
    if n == 0 {
        true
    } else {
        let content = b.skip(1 + b[0]);
        if !starts_with_name(b) || content.len() == 0 {
            true
        } else if content[0] == 0 {
            starts_with_word(content.skip(1)) ==> slots_readable(
                content.skip(33),
                (n - 1) as nat,
            )
        } else if content[0] == 1 {
            match map_parts(content.skip(1)) {
                None => true,
                Some((keys, left)) => makes_a_tree(digests(keys)) && slots_readable(
                    last(content.skip(1), left),
                    (n - 1) as nat,
                ),
            }
        } else {
            true
        }
    }
}

/// The decoder comes to a result on the storage at the start of the bytes.
pub open spec fn storage_readable(b: Seq<u8>) -> bool {
    b.len() > 0 ==> slots_readable(b.skip(1), b[0] as nat)
}

/// The bytes declare a single procedure, and start with it.
pub open spec fn single_procedure(b: Seq<u8>) -> bool {
    b.len() > 0 && b[0] == 0 && starts_with_word(b.skip(1))
}

/// The decoder comes to a result on the code at the start of the bytes.
pub open spec fn code_readable(b: Seq<u8>) -> bool {
    match forest_rest(b) {
        None => true,
        Some(left) => !single_procedure(last(b, left)),
    }
}

/// The decoder comes to a result on the storage at the start of the bytes and the code behind it.
pub open spec fn storage_and_code_readable(b: Seq<u8>) -> bool {
    storage_readable(b) && match storage_rest(b) {
        None => true,
        Some(left) => code_readable(last(b, left)),
    }
}

/// The decoder comes to a result on the vault at the start of the bytes.
pub open spec fn vault_readable(b: Seq<u8>) -> bool {
    match vault_keys(b) {
        None => true,
        Some(keys) => buildable(keys),
    }
}

/// The decoder of accounts comes to a result on the bytes.
pub open spec fn account_readable(b: Seq<u8>) -> bool {
    let vault = b.skip(15);
    starts_with_id(b) ==> vault_readable(vault) && match vault_rest(vault) {
        None => true,
        Some(left) => storage_and_code_readable(last(vault, left)),
    }
}

/// The elements of keys.
pub open spec fn elements(keys: Seq<[u64; 4]>) -> Seq<Seq<u64>> {
    Seq::new(keys.len(), |i: int| keys[i]@)
}

/// `AccountId::read_from` of miden-protocol: whether it succeeds.
#[verifier::external_body]
fn read_id(b: &[u8]) -> (r: bool)
    ensures
        r == starts_with_id(b@),
{
    miden_protocol::account::AccountId::read_from(&mut SliceReader::new(b)).is_ok()
}

/// `ByteReader::read_usize` of miden-protocol.
#[verifier::external_body]
fn read_count(b: &[u8]) -> (r: Option<usize>)
    ensures
        match r {
            Some(n) => count(b@) == Some(n as nat),
            None => count(b@) is None,
        },
{
    SliceReader::new(b).read_usize().ok()
}

/// `Asset::read_from` of miden-protocol, with `Asset::to_key_word`, the key by which a vault holds
/// the asset, and the length of its `Asset::to_bytes`, which are the bytes read.
#[verifier::external_body]
fn read_asset(b: &[u8]) -> (r: Option<([u64; 4], usize)>)
    ensures
        match r {
            Some((key, size)) => 0 < size <= b@.len() && asset_head(b@) == Some(
                (key@, size as nat),
            ),
            None => asset_head(b@) is None,
        },
{
    let asset = miden_protocol::asset::Asset::read_from(&mut SliceReader::new(b)).ok()?;
    let key = asset.to_key_word().into_elements().map(|f| f.as_canonical_u64());
    Some((key, asset.to_bytes().len()))
}

/// `AssetVault::read_from` of miden-protocol: the bytes left, where it succeeds. It panics where
/// its tree cannot be built and no asset is found to be repeated before.
#[verifier::external_body]
fn read_vault(b: &[u8]) -> (r: Option<usize>)
    requires
        vault_readable(b@),
    ensures
        match r {
            Some(left) => left <= b@.len() && vault_rest(b@) == Some(left as nat),
            None => vault_rest(b@) is None,
        },
{
    let mut src = SliceReader::new(b);
    miden_protocol::asset::AssetVault::read_from(&mut src).ok()?;
    Some(std::iter::from_fn(|| src.read_u8().ok()).count())
}

/// `StorageSlotName::read_from` of miden-protocol: whether it succeeds.
#[verifier::external_body]
fn read_name(b: &[u8]) -> (r: bool)
    ensures
        r == starts_with_name(b@),
{
    miden_protocol::account::StorageSlotName::read_from(&mut SliceReader::new(b)).is_ok()
}

/// `BTreeMap::read_from` of miden-protocol, by which the decoder of storage maps reads its
/// entries: the keys, and the bytes left.
#[verifier::external_body]
fn read_map(b: &[u8]) -> (r: Option<(Vec<[u64; 4]>, usize)>)
    ensures
        match r {
            Some((keys, left)) => left <= b@.len() && map_parts(b@) == Some(
                (elements(keys@), left as nat),
            ) && forall|i: int| 0 <= i < keys@.len() ==> word::canonical(#[trigger] keys@[i]@),
            None => map_parts(b@) is None,
        },
{
    let mut src = SliceReader::new(b);
    let map = BTreeMap::<StorageMapKey, miden_protocol::Word>::read_from(&mut src).ok()?;
    let words = map.into_keys().map(|k| miden_protocol::Word::from(k).into_elements());
    let keys = words.map(|e| e.map(|f| f.as_canonical_u64())).collect();
    Some((keys, std::iter::from_fn(|| src.read_u8().ok()).count()))
}

/// `StorageMapKey::hash` of miden-protocol, by which a storage map builds its tree.
#[verifier::external_body]
fn hash_map_key(key: [u64; 4]) -> (r: [u64; 4])
    requires
        word::canonical(key@),
    ensures
        r@ == map_digest(key@),
{
    let key = StorageMapKey::new(miden_protocol::Word::new(key.map(miden_protocol::Felt::new)));
    key.hash().as_word().into_elements().map(|f| f.as_canonical_u64())
}

/// `AccountStorage::read_from` of miden-protocol: the bytes left, where it succeeds. It panics
/// where the tree of a map cannot be built.
#[verifier::external_body]
fn read_storage(b: &[u8]) -> (r: Option<usize>)
    requires
        storage_readable(b@),
    ensures
        match r {
            Some(left) => left <= b@.len() && storage_rest(b@) == Some(left as nat),
            None => storage_rest(b@) is None,
        },
{
    let mut src = SliceReader::new(b);
    miden_protocol::account::AccountStorage::read_from(&mut src).ok()?;
    Some(std::iter::from_fn(|| src.read_u8().ok()).count())
}

/// `MastForest::read_from` of miden-protocol: the bytes left, where it succeeds.
#[verifier::external_body]
fn read_forest(b: &[u8]) -> (r: Option<usize>)
    ensures
        match r {
            Some(left) => left <= b@.len() && forest_rest(b@) == Some(left as nat),
            None => forest_rest(b@) is None,
        },
{
    let mut src = SliceReader::new(b);
    miden_protocol::MastForest::read_from(&mut src).ok()?;
    Some(std::iter::from_fn(|| src.read_u8().ok()).count())
}

/// `Account::read_from_bytes` of miden-protocol. It panics where the tree of its vault or of a
/// storage map cannot be built, and on code of a single procedure.
#[verifier::external_body]
pub(crate) fn read_account(b: &[u8]) -> (r: Result<(), String>)
    requires
        account_readable(b@),
    ensures
        r is Ok <==> account_decoded(b@) is Ok,
        r is Err ==> r->Err_0@ == account_decoded(b@)->Err_0,
{
    match miden_protocol::account::Account::read_from_bytes(b) {
        Ok(_) => Ok(()),
        Err(e) => Err(e.to_string()),
    }
}

fn last_bytes(b: &[u8], n: usize) -> (r: &[u8])
    requires
        n <= b@.len(),
    ensures
        r@ == last(b@, n as nat),
{
    slice_subrange(b, b.len() - n, b.len())
}

fn is_word(b: &[u8]) -> (r: bool)
    ensures
        r == starts_with_word(b@),
{
    if b.len() < 32 {
        return false;
    }
    let w = [
        bytes::read_le_u64(b, 0),
        bytes::read_le_u64(b, 8),
        bytes::read_le_u64(b, 16),
        bytes::read_le_u64(b, 24),
    ];
    let ghost found = word::bytes_word(b@);
    assert(w@ =~= found);
    let r = w[0] < word::FELT_ORDER && w[1] < word::FELT_ORDER && w[2] < word::FELT_ORDER && w[3]
        < word::FELT_ORDER;
    proof {
        assert(found[0] == w[0] && found[1] == w[1] && found[2] == w[2] && found[3] == w[3]);
    }
    r
}

fn same_key(a: &[u64; 4], b: &[u64; 4]) -> (r: bool)
    ensures
        r == (a@ == b@),
{
    let r = a[0] == b[0] && a[1] == b[1] && a[2] == b[2] && a[3] == b[3];
    proof {
        if r {
            assert(a@ =~= b@);
        }
    }
    r
}

/// Whether `key` is among the keys at these indices.
fn is_among(keys: &Vec<[u64; 4]>, indices: &Vec<usize>, key: &[u64; 4]) -> (r: bool)
    requires
        forall|k: int| 0 <= k < indices@.len() ==> #[trigger] indices@[k] < keys@.len(),
    ensures
        r == exists|k: int|
            0 <= k < indices@.len() && keys@[#[trigger] indices@[k] as int]@ == key@,
{
    let mut k: usize = 0;
    while k < indices.len()
        invariant
            k <= indices@.len(),
            forall|j: int| 0 <= j < indices@.len() ==> #[trigger] indices@[j] < keys@.len(),
            forall|j: int| 0 <= j < k ==> keys@[#[trigger] indices@[j] as int]@ != key@,
        decreases indices@.len() - k,
    {
        if same_key(&keys[indices[k]], key) {
            return true;
        }
        k = k + 1;
    }
    false
}

/// The indices of the first `n` keys, by their leaf.
spec fn indexed(keys: Seq<Seq<u64>>, n: nat, m: Map<u64, Vec<usize>>) -> bool {
    &&& forall|leaf: u64|
        #![trigger in_leaf(keys, n, leaf)]
        in_leaf(keys, n, leaf) == if m.contains_key(leaf) {
            m[leaf]@.len()
        } else {
            0
        }
    &&& forall|leaf: u64, k: int|
        m.contains_key(leaf) && 0 <= k < m[leaf]@.len() ==> (#[trigger] m[leaf]@[k]) < n
    &&& forall|j: int|
        0 <= j < n ==> m.contains_key(#[trigger] keys[j][3]) && m[keys[j][3]]@.contains(j as usize)
}

/// The lowest leaf that is crowded by the first `n` keys.
spec fn crowded_first(keys: Seq<Seq<u64>>, n: nat, leaf: Option<u64>) -> bool {
    match leaf {
        Some(c) => in_leaf(keys, n, c) > LEAF_ENTRIES && forall|l: u64|
            #[trigger] in_leaf(keys, n, l) > LEAF_ENTRIES ==> c <= l,
        None => forall|l: u64| #[trigger] in_leaf(keys, n, l) <= LEAF_ENTRIES,
    }
}

/// The lowest leaf in which one of the first `n` keys occurs twice.
spec fn repeated_first(keys: Seq<Seq<u64>>, n: int, leaf: Option<u64>) -> bool {
    match leaf {
        Some(r) => (exists|i: int, j: int|
            0 <= i < j < n && #[trigger] keys[i] == #[trigger] keys[j] && keys[i][3] == r) && (
        forall|i: int, j: int|
            0 <= i < j < n && #[trigger] keys[i] == #[trigger] keys[j] ==> r <= keys[i][3]),
        None => forall|i: int, j: int| 0 <= i < j < n ==> #[trigger] keys[i] != #[trigger] keys[j],
    }
}

fn lower(a: Option<u64>, b: u64) -> (r: u64)
    ensures
        r == match a {
            Some(v) => if v <= b {
                v
            } else {
                b
            },
            None => b,
        },
{
    match a {
        Some(v) => if v <= b {
            v
        } else {
            b
        },
        None => b,
    }
}

/// The lowest leaf that is crowded, and the lowest in which a key occurs twice.
fn survey(keys: &Vec<[u64; 4]>) -> (r: (Option<u64>, Option<u64>))
    ensures
        crowded_first(elements(keys@), keys@.len(), r.0),
        repeated_first(elements(keys@), keys@.len() as int, r.1),
{
    broadcast use group_hash_axioms;

    let ghost all = elements(keys@);
    let mut indices: HashMap<u64, Vec<usize>> = HashMap::new();
    let mut crowd: Option<u64> = None;
    let mut twice: Option<u64> = None;
    let mut i: usize = 0;
    while i < keys.len()
        invariant
            i <= keys@.len(),
            all == elements(keys@),
            indexed(all, i as nat, indices@),
            crowded_first(all, i as nat, crowd),
            repeated_first(all, i as int, twice),
        decreases keys@.len() - i,
    {
        let leaf: u64 = keys[i][3];
        let ghost before = indices@;
        let ghost crowd_before = crowd;
        let ghost twice_before = twice;
        assert(all[i as int][3] == leaf);
        assert(in_leaf(all, i as nat, leaf) == if before.contains_key(leaf) {
            before[leaf]@.len()
        } else {
            0
        });
        let mut list: Vec<usize> = match indices.remove(&leaf) {
            Some(list) => list,
            None => Vec::new(),
        };
        let ghost listed = list@;
        assert forall|k: int| 0 <= k < listed.len() implies #[trigger] listed[k] < i by {
            assert(before[leaf]@[k] < i);
        }
        let found = is_among(keys, &list, &keys[i]);
        if found {
            twice = Some(lower(twice, leaf));
        }
        proof {
            if found {
                let k = choose|k: int|
                    0 <= k < listed.len() && keys@[#[trigger] listed[k] as int]@
                        == keys@[i as int]@;
                assert(all[listed[k] as int] == all[i as int]);
            }
            assert forall|a: int|
                0 <= a < i && #[trigger] all[a] == all[i as int] implies found by {
                assert(all[a][3] == leaf);
                let k = choose|k: int|
                    0 <= k < before[leaf]@.len() && before[leaf]@[k] == a as usize;
                assert(before[leaf]@.contains(a as usize));
                assert(keys@[listed[k] as int]@ == keys@[i as int]@);
            }
            lemma_repeated_step(all, i as int, twice_before, found, twice);
        }
        list.push(i);
        if list.len() > LEAF_ENTRIES {
            crowd = Some(lower(crowd, leaf));
        }
        indices.insert(leaf, list);
        proof {
            let after = indices@;
            assert(after[leaf]@ == listed.push(i));
            assert forall|l: u64|
                #[trigger] in_leaf(all, (i + 1) as nat, l) == if after.contains_key(l) {
                    after[l]@.len()
                } else {
                    0
                } by {
                assert(in_leaf(all, i as nat, l) == if before.contains_key(l) {
                    before[l]@.len()
                } else {
                    0
                });
            }
            assert forall|l: u64, k: int|
                after.contains_key(l) && 0 <= k < after[l]@.len() implies (#[trigger] after[l]@[k])
                < i + 1 by {
                if l == leaf {
                    if k < listed.len() {
                        assert(before[leaf]@[k] < i);
                    }
                } else {
                    assert(before[l]@[k] < i);
                }
            }
            assert forall|j: int| 0 <= j < i + 1 implies after.contains_key(
                #[trigger] all[j][3],
            ) && after[all[j][3]]@.contains(j as usize) by {
                if j < i {
                    let l = all[j][3];
                    let k = choose|k: int|
                        0 <= k < before[l]@.len() && before[l]@[k] == j as usize;
                    assert(before[l]@.contains(j as usize));
                    if l == leaf {
                        assert(after[l]@[k] == j as usize);
                    }
                } else {
                    assert(after[leaf]@[listed.len() as int] == i);
                }
            }
            assert(in_leaf(all, (i + 1) as nat, leaf) == listed.len() + 1);
            assert forall|l: u64| #[trigger]
                in_leaf(all, (i + 1) as nat, l) == in_leaf(all, i as nat, l) + if l == leaf {
                    1nat
                } else {
                    0nat
                } by {}
            match crowd {
                Some(c) => {
                    assert forall|l: u64| #[trigger]
                        in_leaf(all, (i + 1) as nat, l) > LEAF_ENTRIES implies c <= l by {
                        if l != leaf {
                            assert(in_leaf(all, i as nat, l) > LEAF_ENTRIES);
                        }
                    }
                    if c != leaf {
                        assert(crowd_before == Some(c));
                        assert(in_leaf(all, i as nat, c) > LEAF_ENTRIES);
                    }
                },
                None => {
                    assert forall|l: u64| #[trigger]
                        in_leaf(all, (i + 1) as nat, l) <= LEAF_ENTRIES by {
                        assert(in_leaf(all, i as nat, l) <= LEAF_ENTRIES);
                    }
                },
            }
        }
        i = i + 1;
    }
    (crowd, twice)
}

proof fn lemma_repeated_step(
    keys: Seq<Seq<u64>>,
    n: int,
    before: Option<u64>,
    found: bool,
    after: Option<u64>,
)
    requires
        0 <= n < keys.len(),
        repeated_first(keys, n, before),
        found ==> exists|a: int| 0 <= a < n && #[trigger] keys[a] == keys[n],
        forall|a: int| 0 <= a < n && #[trigger] keys[a] == keys[n] ==> found,
        after == (if !found {
            before
        } else {
            match before {
                Some(v) => if v <= keys[n][3] {
                    Some(v)
                } else {
                    Some(keys[n][3])
                },
                None => Some(keys[n][3]),
            }
        }),
    ensures
        repeated_first(keys, n + 1, after),
{
    if found {
        let a = choose|a: int| 0 <= a < n && #[trigger] keys[a] == keys[n];
        assert(keys[a] == keys[n] && a < n);
        let r = after->0;
        assert forall|i: int, j: int|
            0 <= i < j < n + 1 && #[trigger] keys[i] == #[trigger] keys[j] implies r
            <= keys[i][3] by {
            if j < n {
                assert(before is Some);
            }
        }
        if before is Some && before->0 <= keys[n][3] {
            let (i, j) = choose|i: int, j: int|
                0 <= i < j < n && #[trigger] keys[i] == #[trigger] keys[j] && keys[i][3]
                    == before->0;
            assert(0 <= i < j < n + 1 && keys[i] == keys[j] && keys[i][3] == r);
        }
    } else if before is Some {
        let (i, j) = choose|i: int, j: int|
            0 <= i < j < n && #[trigger] keys[i] == #[trigger] keys[j] && keys[i][3] == before->0;
        assert(0 <= i < j < n + 1 && keys[i] == keys[j] && keys[i][3] == after->0);
    }
}

/// Whether the builder of a tree comes to a result on the keys.
fn is_buildable(keys: &Vec<[u64; 4]>) -> (r: bool)
    ensures
        r == buildable(elements(keys@)),
{
    let ghost all = elements(keys@);
    let (crowd, twice) = survey(keys);
    match (crowd, twice) {
        (None, _) => {
            assert forall|l: u64| #[trigger] is_crowded(all, l) implies repeats(all, l) by {
                assert(in_leaf(all, all.len(), l) <= LEAF_ENTRIES);
            }
            true
        },
        (Some(c), None) => {
            assert(is_crowded(all, c) && !repeats(all, c));
            false
        },
        (Some(c), Some(t)) => {
            proof {
                if t <= c {
                    let (i, j) = choose|i: int, j: int|
                        0 <= i < j < all.len() && #[trigger] all[i] == #[trigger] all[j]
                            && all[i][3] == t;
                    assert forall|l: u64| #[trigger] is_crowded(all, l) implies repeats(all, l) by {
                        assert(in_leaf(all, all.len(), l) > LEAF_ENTRIES);
                        assert(0 <= i < j < all.len() && all[i] == all[j] && all[i][3] <= l);
                    }
                } else {
                    assert(is_crowded(all, c) && !repeats(all, c));
                }
            }
            t <= c
        },
    }
}

/// Whether a tree can be built of the keys.
fn is_tree(keys: &Vec<[u64; 4]>) -> (r: bool)
    ensures
        r == makes_a_tree(elements(keys@)),
{
    let ghost all = elements(keys@);
    let (crowd, twice) = survey(keys);
    match (crowd, twice) {
        (None, None) => {
            assert forall|l: u64| #[trigger] is_crowded(all, l) implies repeats(all, l) by {
                assert(in_leaf(all, all.len(), l) <= LEAF_ENTRIES);
            }
            true
        },
        (Some(c), None) => {
            assert(is_crowded(all, c) && !repeats(all, c));
            false
        },
        (_, Some(t)) => {
            proof {
                let (i, j) = choose|i: int, j: int|
                    0 <= i < j < all.len() && #[trigger] all[i] == #[trigger] all[j] && all[i][3]
                        == t;
                assert(0 <= i < j < all.len() && all[i] == all[j] && all[i][3] <= u64::MAX);
                assert(repeats(all, u64::MAX));
            }
            false
        },
    }
}

fn rest_of(b: &[u8], n: usize) -> (r: &[u8])
    requires
        n <= b@.len(),
    ensures
        r@ == b@.skip(n as int),
{
    let r = slice_subrange(b, n, b.len());
    assert(r@ =~= b@.skip(n as int));
    r
}

fn low_zeros_of(v: u8) -> (r: usize)
    ensures
        r == low_zeros(v as int),
        r <= 8,
    decreases v,
{
    if v == 0 {
        8
    } else if v % 2 == 1 {
        0
    } else {
        proof {
            vstd::arithmetic::power2::lemma2_to64();
            lemma_low_zeros((v / 2) as int, 7);
        }
        1 + low_zeros_of(v / 2)
    }
}

proof fn lemma_low_zeros(v: int, n: nat)
    requires
        0 < v < vstd::arithmetic::power2::pow2(n),
    ensures
        low_zeros(v) < n,
    decreases n,
{
    vstd::arithmetic::power2::lemma2_to64();
    if n > 0 && v % 2 == 0 {
        vstd::arithmetic::power2::lemma_pow2_unfold(n);
        lemma_low_zeros(v / 2, (n - 1) as nat);
    }
}

/// The tree keys of the assets that the bytes of a vault start with.
fn read_vault_keys(b: &[u8]) -> (r: Option<Vec<[u64; 4]>>)
    ensures
        match r {
            Some(keys) => vault_keys(b@) == Some(elements(keys@)),
            None => vault_keys(b@) is None,
        },
{
    let n: usize = match read_count(b) {
        Some(n) => n,
        None => {
            return None;
        },
    };
    let mut rest = rest_of(b, 1 + low_zeros_of(b[0]));
    let ghost start = rest@;
    let mut keys: Vec<[u64; 4]> = Vec::new();
    let mut i: usize = 0;
    assert(elements(keys@) =~= Seq::<Seq<u64>>::empty());
    proof {
        match asset_keys(start, n as nat) {
            Some(tail) => {
                assert(elements(keys@) + tail =~= tail);
            },
            None => {},
        }
    }
    while i < n
        invariant
            i <= n,
            vault_keys(b@) == asset_keys(start, n as nat),
            match asset_keys(rest@, (n - i) as nat) {
                Some(tail) => asset_keys(start, n as nat) == Some(elements(keys@) + tail),
                None => asset_keys(start, n as nat) is None,
            },
        decreases n - i,
    {
        match read_asset(rest) {
            Some((key, size)) => {
                let ghost before = elements(keys@);
                let ghost tail = asset_keys(rest@.skip(size as int), (n - i - 1) as nat);
                rest = rest_of(rest, size);
                keys.push(key);
                proof {
                    assert(elements(keys@) =~= before.push(key@));
                    match tail {
                        Some(t) => {
                            assert(before + (seq![key@] + t) =~= before.push(key@) + t);
                        },
                        None => {},
                    }
                }
            },
            None => {
                return None;
            },
        }
        i = i + 1;
    }
    assert(elements(keys@) + Seq::<Seq<u64>>::empty() =~= elements(keys@));
    Some(keys)
}

/// The tree keys of the keys of a storage map.
fn hash_map_keys(keys: &Vec<[u64; 4]>) -> (r: Vec<[u64; 4]>)
    requires
        forall|i: int| 0 <= i < keys@.len() ==> word::canonical(#[trigger] keys@[i]@),
    ensures
        elements(r@) == digests(elements(keys@)),
{
    let mut r: Vec<[u64; 4]> = Vec::new();
    let mut i: usize = 0;
    while i < keys.len()
        invariant
            i <= keys@.len(),
            r@.len() == i,
            forall|j: int| 0 <= j < keys@.len() ==> word::canonical(#[trigger] keys@[j]@),
            forall|j: int| 0 <= j < i ==> #[trigger] r@[j]@ == map_digest(keys@[j]@),
        decreases keys@.len() - i,
    {
        r.push(hash_map_key(keys[i]));
        i = i + 1;
    }
    assert(elements(r@) =~= digests(elements(keys@)));
    r
}

fn are_slots_readable(b: &[u8], n: u8) -> (r: bool)
    ensures
        r == slots_readable(b@, n as nat),
    decreases n,
{
    if n == 0 || !read_name(b) {
        return true;
    }
    let content = rest_of(b, 1 + b[0] as usize);
    if content.len() == 0 {
        return true;
    }
    let body = rest_of(content, 1);
    if content[0] == 0 {
        !is_word(body) || are_slots_readable(rest_of(content, 33), n - 1)
    } else if content[0] == 1 {
        match read_map(body) {
            Some((keys, left)) => is_tree(&hash_map_keys(&keys)) && are_slots_readable(
                last_bytes(body, left),
                n - 1,
            ),
            None => true,
        }
    } else {
        true
    }
}

fn is_storage_readable(b: &[u8]) -> (r: bool)
    ensures
        r == storage_readable(b@),
{
    b.len() == 0 || are_slots_readable(rest_of(b, 1), b[0])
}

fn is_code_readable(b: &[u8]) -> (r: bool)
    ensures
        r == code_readable(b@),
{
    let procedures = match read_forest(b) {
        Some(left) => last_bytes(b, left),
        None => {
            return true;
        },
    };
    procedures.len() == 0 || procedures[0] != 0 || !is_word(rest_of(procedures, 1))
}

/// Whether the decoder of accounts comes to a result on the bytes.
pub fn is_account_readable(b: &[u8]) -> (r: bool)
    ensures
        r == account_readable(b@),
{
    if !read_id(b) {
        return true;
    }
    let vault = rest_of(b, 15);
    match read_vault_keys(vault) {
        Some(keys) => if !is_buildable(&keys) {
            return false;
        },
        None => {},
    }
    let storage = match read_vault(vault) {
        Some(left) => last_bytes(vault, left),
        None => {
            return true;
        },
    };
    if !is_storage_readable(storage) {
        return false;
    }
    match read_storage(storage) {
        Some(left) => is_code_readable(last_bytes(storage, left)),
        None => true,
    }
}

/// Bytes start with a word where they hold four little-endian elements of the field.
pub proof fn law_starts_with_word(b: Seq<u8>)
    ensures
        starts_with_word(b) <==> b.len() >= 32 && forall|i: int|
            0 <= i < 4 ==> #[trigger] bytes::be_value(b.subrange(8 * i, 8 * i + 8).reverse())
                < 0xffff_ffff_0000_0001,
{
    if b.len() >= 32 {
        assert forall|i: int| 0 <= i < 4 implies #[trigger] bytes::be_value(
            b.subrange(8 * i, 8 * i + 8).reverse(),
        ) == word::bytes_word(b)[i] by {
            let c = b.subrange(8 * i, 8 * i + 8);
            bytes::law_le_value_is_be_value_turned_round(c);
            bytes::lemma_pow256_8();
            bytes::lemma_le_value_bound(c);
        }
        if starts_with_word(b) {
            assert forall|i: int| 0 <= i < 4 implies #[trigger] bytes::be_value(
                b.subrange(8 * i, 8 * i + 8).reverse(),
            ) < 0xffff_ffff_0000_0001 by {
                assert(word::bytes_word(b)[i] < word::FELT_ORDER);
            }
        } else {
            let w = word::bytes_word(b);
            let i = choose|i: int| 0 <= i < 4 && !(#[trigger] w[i] < word::FELT_ORDER);
            assert(!(bytes::be_value(b.subrange(8 * i, 8 * i + 8).reverse())
                < 0xffff_ffff_0000_0001));
        }
    }
}

/// Code is held back only where it declares a single procedure and that can be read: code that
/// declares two procedures or more, and code that ends or fails before, is not.
pub proof fn law_code_readable(b: Seq<u8>, left: nat)
    requires
        forest_rest(b) == Some(left),
        left <= b.len(),
    ensures
        ({
            let at = b.len() - left;
            &&& left == 0 ==> code_readable(b)
            &&& left > 0 && b[at] >= 1 ==> code_readable(b)
            &&& left < 33 ==> code_readable(b)
            &&& left >= 33 && b[at] == 0 ==> (code_readable(b) <==> !starts_with_word(
                b.skip(at + 1),
            ))
        }),
{
    let p = last(b, left);
    if left > 0 {
        assert(p[0] == b[b.len() - left]);
        assert(p.skip(1) =~= b.skip(b.len() - left + 1));
    }
}

/// Code without a forest that can be read is not held back: the decoder refuses it.
pub proof fn law_code_without_a_forest(b: Seq<u8>)
    requires
        forest_rest(b) is None,
    ensures
        code_readable(b),
{
}

/// An account is begun with where its vault and its storage can be decoded and its code declares
/// two procedures or more, and wherever the decoder refuses a part before.
pub proof fn law_account_readable(b: Seq<u8>)
    ensures
        ({
            let vault = b.skip(15);
            let storage = vault.skip(vault.len() - vault_rest(vault)->0);
            let code = storage.skip(storage.len() - storage_rest(storage)->0);
            let procedures = code.skip(code.len() - forest_rest(code)->0);
            let order = submitter::Order::AddAccountBytes { bytes: b };
            let fits = vault_rest(vault)->0 <= vault.len() && storage_rest(storage)->0
                <= storage.len() && forest_rest(code)->0 <= code.len();
            &&& submitter::account_readable(order) == account_readable(b)
            &&& !starts_with_id(b) ==> account_readable(b)
            &&& starts_with_id(b) && !vault_readable(vault) ==> !account_readable(b)
            &&& vault_readable(vault) && vault_rest(vault) is None ==> account_readable(b)
            &&& vault_readable(vault) && vault_rest(vault) is Some && fits ==> {
                &&& starts_with_id(b) && !storage_readable(storage) ==> !account_readable(b)
                &&& storage_readable(storage) && storage_rest(storage) is None ==> account_readable(
                    b,
                )
                &&& storage_readable(storage) && storage_rest(storage) is Some && forest_rest(
                    code,
                ) is None ==> account_readable(b)
                &&& storage_readable(storage) && storage_rest(storage) is Some && forest_rest(
                    code,
                ) is Some && procedures.len() > 0 && procedures[0] != 0 ==> account_readable(b)
            }
        }),
{
    let vault = b.skip(15);
    if vault_rest(vault) is Some && vault_rest(vault)->0 <= vault.len() {
        let storage = last(vault, vault_rest(vault)->0);
        assert(storage =~= vault.skip(vault.len() - vault_rest(vault)->0));
        if storage_rest(storage) is Some && storage_rest(storage)->0 <= storage.len() {
            let code = last(storage, storage_rest(storage)->0);
            assert(code =~= storage.skip(storage.len() - storage_rest(storage)->0));
            if forest_rest(code) is Some && forest_rest(code)->0 <= code.len() {
                let procedures = last(code, forest_rest(code)->0);
                assert(procedures =~= code.skip(code.len() - forest_rest(code)->0));
            }
        }
    }
}

/// The keys that have this last element.
pub open spec fn with_leaf(keys: Seq<Seq<u64>>, leaf: u64) -> Seq<Seq<u64>> {
    keys.filter(|k: Seq<u64>| k[3] == leaf)
}

proof fn lemma_in_leaf_of_prefix(keys: Seq<Seq<u64>>, n: nat, leaf: u64)
    requires
        n <= keys.len(),
    ensures
        in_leaf(keys, n, leaf) == in_leaf(keys.take(n as int), n, leaf),
    decreases n,
{
    if n > 0 {
        lemma_in_leaf_of_prefix(keys, (n - 1) as nat, leaf);
        lemma_in_leaf_of_prefix(keys.take(n as int), (n - 1) as nat, leaf);
        assert(keys.take(n as int).take(n - 1) =~= keys.take(n - 1));
    }
}

/// As many keys fall into a leaf as have it as their last element.
pub proof fn law_in_leaf(keys: Seq<Seq<u64>>, leaf: u64)
    ensures
        in_leaf(keys, keys.len(), leaf) == with_leaf(keys, leaf).len(),
        in_leaf(keys, keys.len(), leaf) <= keys.len(),
    decreases keys.len(),
{
    reveal(Seq::filter);
    if keys.len() > 0 {
        let head = keys.drop_last();
        law_in_leaf(head, leaf);
        lemma_in_leaf_of_prefix(keys, head.len(), leaf);
        assert(keys.take(head.len() as int) =~= head);
    }
}

/// A tree is given up only at a leaf with more than 1024 keys before any key is seen twice: in
/// order of the leaves, none up to that one holds a key twice.
pub proof fn law_buildable(keys: Seq<Seq<u64>>)
    ensures
        !buildable(keys) <==> exists|leaf: u64|
            #![trigger with_leaf(keys, leaf)]
            with_leaf(keys, leaf).len() > 1024 && forall|i: int, j: int|
                0 <= i < j < keys.len() && #[trigger] keys[i] == #[trigger] keys[j] ==> keys[i][3]
                    > leaf,
        keys.len() <= 1024 ==> buildable(keys),
{
    assert forall|leaf: u64| #[trigger] is_crowded(keys, leaf) <==> with_leaf(keys, leaf).len()
        > 1024 by {
        law_in_leaf(keys, leaf);
    }
    if !buildable(keys) {
        let leaf = choose|leaf: u64| #[trigger] is_crowded(keys, leaf) && !repeats(keys, leaf);
        law_in_leaf(keys, leaf);
        assert(with_leaf(keys, leaf).len() > 1024);
        assert forall|i: int, j: int|
            0 <= i < j < keys.len() && #[trigger] keys[i] == #[trigger] keys[j] implies keys[i][3]
            > leaf by {
            if keys[i][3] <= leaf {
                assert(repeats(keys, leaf));
            }
        }
    }
    if exists|leaf: u64|
        #![trigger with_leaf(keys, leaf)]
        with_leaf(keys, leaf).len() > 1024 && forall|i: int, j: int|
            0 <= i < j < keys.len() && #[trigger] keys[i] == #[trigger] keys[j] ==> keys[i][3]
                > leaf {
        let leaf = choose|leaf: u64|
            #![trigger with_leaf(keys, leaf)]
            with_leaf(keys, leaf).len() > 1024 && forall|i: int, j: int|
                0 <= i < j < keys.len() && #[trigger] keys[i] == #[trigger] keys[j] ==> keys[i][3]
                    > leaf;
        assert(is_crowded(keys, leaf));
        assert(!repeats(keys, leaf));
    }
}

/// Keys make a tree where they are all different and no leaf gets more than 1024 of them.
pub proof fn law_makes_a_tree(keys: Seq<Seq<u64>>)
    ensures
        makes_a_tree(keys) <==> (forall|i: int, j: int|
            0 <= i < j < keys.len() ==> #[trigger] keys[i] != #[trigger] keys[j]) && forall|
            leaf: u64,
        | (#[trigger] with_leaf(keys, leaf)).len() <= 1024,
{
    assert forall|leaf: u64| #[trigger] is_crowded(keys, leaf) <==> with_leaf(keys, leaf).len()
        > 1024 by {
        law_in_leaf(keys, leaf);
    }
    if makes_a_tree(keys) {
        assert forall|i: int, j: int| 0 <= i < j < keys.len() implies #[trigger] keys[i]
            != #[trigger] keys[j] by {
            if keys[i] == keys[j] {
                assert(keys[i][3] <= u64::MAX);
                assert(repeats(keys, u64::MAX));
            }
        }
        assert forall|leaf: u64| (#[trigger] with_leaf(keys, leaf)).len() <= 1024 by {
            law_in_leaf(keys, leaf);
            if is_crowded(keys, leaf) {
                let (i, j) = choose|i: int, j: int|
                    0 <= i < j < keys.len() && #[trigger] keys[i] == #[trigger] keys[j]
                        && keys[i][3] <= leaf;
                assert(keys[i] != keys[j]);
            }
        }
    }
    if (forall|i: int, j: int| 0 <= i < j < keys.len() ==> #[trigger] keys[i] != #[trigger] keys[j])
        && forall|leaf: u64| (#[trigger] with_leaf(keys, leaf)).len() <= 1024 {
        assert forall|leaf: u64| #[trigger] is_crowded(keys, leaf) implies repeats(keys, leaf) by {
            assert(with_leaf(keys, leaf).len() <= 1024);
        }
    }
}

/// Storage without slots, and storage whose bytes end before its first slot, can be decoded; a slot
/// that holds a value does not stop the decoder, nor one that holds a map whose keys make a tree.
pub proof fn law_slots_readable(
    name: Seq<u8>,
    body: Seq<u8>,
    rest: Seq<u8>,
    n: nat,
    b: Seq<u8>,
)
    requires
        is_name(name),
        name.len() < 256,
    ensures
        slots_readable(b, 0),
        !starts_with_name(b) ==> slots_readable(b, n),
        b.len() == 0 ==> storage_readable(b),
        b.len() > 0 && b[0] == 0 ==> storage_readable(b),
        b.len() > 0 ==> storage_readable(b) == slots_readable(b.skip(1), b[0] as nat),
        starts_with_word(body) && body.len() == 32 ==> slots_readable(
            seq![name.len() as u8] + name + seq![0u8] + body + rest,
            n + 1,
        ) == slots_readable(rest, n),
        map_parts(body + rest) matches Some((keys, left)) ==> left <= (body + rest).len() ==> (
        slots_readable(seq![name.len() as u8] + name + seq![1u8] + body + rest, n + 1) <==> (
        forall|i: int, j: int|
            0 <= i < j < keys.len() ==> map_digest(#[trigger] keys[i]) != map_digest(
                #[trigger] keys[j],
            )) && (forall|leaf: u64| (#[trigger] with_leaf(digests(keys), leaf)).len() <= 1024)
            && slots_readable((body + rest).skip((body + rest).len() - left), n)),
{
    let head = seq![name.len() as u8] + name;
    let v = head + seq![0u8] + body + rest;
    assert(v.subrange(1, 1 + v[0]) =~= name);
    assert(v.skip(1 + v[0])[0] == 0);
    if starts_with_word(body) && body.len() == 32 {
        assert(v.skip(1 + v[0]).skip(33) =~= rest);
        let t = v.skip(1 + v[0]).skip(1);
        assert(word::bytes_word(t) =~= word::bytes_word(body)) by {
            assert forall|i: int| 0 <= i < 4 implies word::bytes_word(t)[i] == word::bytes_word(
                body,
            )[i] by {
                assert(t.subrange(8 * i, 8 * i + 8) =~= body.subrange(8 * i, 8 * i + 8));
            }
        }
    }
    let m = head + seq![1u8] + body + rest;
    assert(m.subrange(1, 1 + m[0]) =~= name);
    assert(m.skip(1 + m[0])[0] == 1);
    assert(m.skip(1 + m[0]).skip(1) =~= body + rest);
    match map_parts(body + rest) {
        Some((keys, left)) => {
            if left <= (body + rest).len() {
                assert(last(body + rest, left) =~= (body + rest).skip((body + rest).len() - left));
                let d = digests(keys);
                law_makes_a_tree(d);
                if forall|i: int, j: int|
                    0 <= i < j < keys.len() ==> map_digest(#[trigger] keys[i]) != map_digest(
                        #[trigger] keys[j],
                    ) {
                    assert forall|i: int, j: int| 0 <= i < j < d.len() implies #[trigger] d[i]
                        != #[trigger] d[j] by {
                        assert(map_digest(keys[i]) != map_digest(keys[j]));
                    }
                }
                if makes_a_tree(d) {
                    assert forall|i: int, j: int| 0 <= i < j < keys.len() implies map_digest(
                        #[trigger] keys[i],
                    ) != map_digest(#[trigger] keys[j]) by {
                        assert(d[i] != d[j]);
                    }
                }
            }
        },
        None => {},
    }
}

/// A number is found again in the bytes that it is written in: below 128 in one byte, above a one
/// bit; behind a zero byte, in eight.
pub proof fn law_count(n: u8, b: Seq<u8>, rest: Seq<u8>)
    requires
        n < 128,
        b.len() == 8,
        bytes::be_value(b.reverse()) <= usize::MAX,
    ensures
        count(seq![(2 * n + 1) as u8] + rest) == Some(n as nat),
        count_size((2 * n + 1) as u8) == 1,
        count(seq![0u8] + b + rest) == Some(bytes::be_value(b.reverse())),
        count_size(0) == 9,
        count(Seq::empty()) is None,
        forall|first: u8| 1 <= #[trigger] count_size(first) <= 9,
{
    let s = seq![(2 * n + 1) as u8] + rest;
    vstd::arithmetic::power2::lemma2_to64();
    assert(s.subrange(0, 1) =~= seq![(2 * n + 1) as u8]);
    assert(s.subrange(0, 1).skip(1) =~= Seq::<u8>::empty());
    assert(bytes::le_value(s.subrange(0, 1).skip(1)) == 0);
    assert(bytes::le_value(s.subrange(0, 1)) == 2 * n + 1);
    let t = seq![0u8] + b + rest;
    assert(t.subrange(1, 9) =~= b);
    bytes::law_le_value_is_be_value_turned_round(b);
    assert forall|first: u8| 1 <= #[trigger] count_size(first) <= 9 by {
        if first > 0 {
            lemma_low_zeros(first as int, 8);
        }
    }
}

/// A list of assets has a tree key for each, in order, and each asset is read behind the one before
/// it.
pub proof fn law_asset_keys(b: Seq<u8>, n: nat)
    requires
        n > 0,
    ensures
        asset_keys(b, 0) == Some(Seq::<Seq<u64>>::empty()),
        asset_head(b) is None ==> asset_keys(b, n) is None,
        asset_head(b) matches Some((key, size)) ==> {
            let rest = asset_keys(b.skip(size as int), (n - 1) as nat);
            &&& asset_keys(b, n) is Some <==> rest is Some
            &&& rest is Some ==> {
                let keys = asset_keys(b, n)->0;
                &&& keys.len() == rest->0.len() + 1
                &&& keys[0] == key
                &&& keys.skip(1) == rest->0
            }
        },
        count(b) == Some(n) && b.len() > 0 ==> vault_keys(b) == asset_keys(
            b.skip(count_size(b[0]) as int),
            n,
        ),
        vault_readable(b) <==> (vault_keys(b) matches Some(keys) ==> buildable(keys)),
{
    match asset_head(b) {
        Some((key, size)) => {
            let rest = asset_keys(b.skip(size as int), (n - 1) as nat);
            if rest is Some {
                assert((seq![key] + rest->0).skip(1) =~= rest->0);
            }
        },
        None => {},
    }
}

/// An identifier is in fifteen bytes: eight big-endian ones of the prefix and seven of the suffix.
pub proof fn law_starts_with_id(prefix: nat, suffix: nat, rest: Seq<u8>)
    requires
        account::valid_id(prefix, suffix),
    ensures
        starts_with_id(bytes::be_bytes(prefix, 8) + bytes::be_bytes(suffix / 256, 7) + rest),
        forall|b: Seq<u8>| #[trigger] starts_with_id(b) ==> b.len() >= 15,
{
    let b = bytes::be_bytes(prefix, 8) + bytes::be_bytes(suffix / 256, 7) + rest;
    assert(bytes::pow256(8) == 0x1_0000_0000_0000_0000 && bytes::pow256(7) == 0x100_0000_0000_0000)
        by {
        reveal_with_fuel(bytes::pow256, 9);
    }
    bytes::lemma_be_round_trip(prefix, 8);
    bytes::lemma_be_round_trip(suffix / 256, 7);
    assert(b.subrange(0, 8) =~= bytes::be_bytes(prefix, 8));
    assert(b.subrange(8, 15) =~= bytes::be_bytes(suffix / 256, 7));
}

/// An account is held back where the decoder gets to its code and that is held back; no command but
/// the one for an account is.
pub proof fn law_account_held_back(b: Seq<u8>, order: submitter::Order)
    ensures
        ({
            let vault = b.skip(15);
            let storage = vault.skip(vault.len() - vault_rest(vault)->0);
            let code = storage.skip(storage.len() - storage_rest(storage)->0);
            starts_with_id(b) && vault_rest(vault) is Some && vault_rest(vault)->0 <= vault.len()
                && storage_rest(storage) is Some && storage_rest(storage)->0 <= storage.len()
                && !code_readable(code) ==> !account_readable(b)
        }),
        !(order is AddAccountBytes) ==> submitter::account_readable(order),
        forall|keys: Seq<[u64; 4]>, i: int|
            0 <= i < keys.len() ==> #[trigger] elements(keys)[i] == keys[i]@,
        forall|keys: Seq<[u64; 4]>| #[trigger] elements(keys).len() == keys.len(),
{
    let vault = b.skip(15);
    if vault_rest(vault) is Some && vault_rest(vault)->0 <= vault.len() {
        let storage = last(vault, vault_rest(vault)->0);
        assert(storage =~= vault.skip(vault.len() - vault_rest(vault)->0));
        if storage_rest(storage) is Some && storage_rest(storage)->0 <= storage.len() {
            let code = last(storage, storage_rest(storage)->0);
            assert(code =~= storage.skip(storage.len() - storage_rest(storage)->0));
        }
    }
}

/// The zero bits below the lowest one bit of its first byte say how many bytes a number takes, and
/// the number is what is above them and the one bit.
pub proof fn law_count_size(first: u8, b: Seq<u8>)
    ensures
        first as int % 2 == 1 ==> count_size(first) == 1,
        first as int % 4 == 2 ==> count_size(first) == 2,
        first as int % 8 == 4 ==> count_size(first) == 3,
        first as int % 16 == 8 ==> count_size(first) == 4,
        first as int % 32 == 16 ==> count_size(first) == 5,
        first as int % 64 == 32 ==> count_size(first) == 6,
        first as int % 128 == 64 ==> count_size(first) == 7,
        first == 128 ==> count_size(first) == 8,
        first == 0 ==> count_size(first) == 9,
        b.len() > 0 && count_size(b[0]) <= 8 && count_size(b[0]) <= b.len() ==> {
            let n = count_size(b[0]);
            let all = bytes::be_value(b.subrange(0, n as int).reverse());
            all / vstd::arithmetic::power2::pow2(n) <= usize::MAX ==> count(b) == Some(
                all / vstd::arithmetic::power2::pow2(n),
            )
        },
        b.len() > 0 && b.len() < count_size(b[0]) ==> count(b) is None,
{
    reveal_with_fuel(low_zeros, 9);
    if b.len() > 0 && count_size(b[0]) <= b.len() {
        bytes::law_le_value_is_be_value_turned_round(b.subrange(0, count_size(b[0]) as int));
    }
}

} // verus!
