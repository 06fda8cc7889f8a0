use vstd::prelude::*;
use anchor_lang::prelude::Pubkey;
use crate::key::Key;

verus! {

/// The address that the host derives from a list of seeds and a program id,
/// or `None` where the seeds are not accepted or the hash is a curve point.
pub uninterp spec fn program_address(seeds: Seq<Seq<u8>>, program_id: Seq<u8>) -> Option<Seq<u8>>;

/// The seeds of a list of byte vectors, as sequences.
pub open spec fn seeds_view(seeds: Seq<Vec<u8>>) -> Seq<Seq<u8>> {
    seeds.map_values(|s: Vec<u8>| s@)
}

/// Relies on `Pubkey::create_program_address`: the address derived from
/// the seeds and the program id, `None` where it reports an error.
#[verifier::external_body]
fn create_program_address(seeds: &Vec<Vec<u8>>, program_id: &Key) -> (r: Option<Key>)
    ensures
        r matches Some(k) ==> program_address(seeds_view(seeds@), program_id.bytes@) == Some(
            k.bytes@,
        ),
        r is None ==> program_address(seeds_view(seeds@), program_id.bytes@) is None,
{
    let parts: Vec<&[u8]> = seeds.iter().map(|s| s.as_slice()).collect();
    Pubkey::create_program_address(&parts, &Pubkey::new_from_array(program_id.bytes))
        .ok()
        .map(|k| Key { bytes: k.to_bytes() })
}

/// Relies on `Pubkey::try_find_program_address`: it tries the bump seeds
/// from 255 downward, appended as a last one-byte seed, and returns the first
/// address that `create_program_address` accepts, with its bump; `None`
/// where it accepts none of them.
#[verifier::external_body]
fn try_find_program_address(seeds: &Vec<Vec<u8>>, program_id: &Key) -> (r: Option<(Key, u8)>)
    ensures
        r is None ==> forall|c: u8|
            1 <= c ==> (#[trigger] program_address(
                seeds_view(seeds@).push(seq![c]),
                program_id.bytes@,
            )) is None,
        r matches Some((k, b)) ==> {
            &&& 1 <= b
            &&& program_address(seeds_view(seeds@).push(seq![b]), program_id.bytes@) == Some(
                k.bytes@,
            )
            &&& forall|c: u8|
                b < c ==> (#[trigger] program_address(
                    seeds_view(seeds@).push(seq![c]),
                    program_id.bytes@,
                )) is None
        },
{
    let parts: Vec<&[u8]> = seeds.iter().map(|s| s.as_slice()).collect();
    Pubkey::try_find_program_address(&parts, &Pubkey::new_from_array(program_id.bytes))
        .map(|(k, b)| (Key { bytes: k.to_bytes() }, b))
}

/// The tag that opens the seeds of every offer record: the bytes of "offer".
pub open spec fn offer_tag() -> Seq<u8> {
    seq![111u8, 102u8, 102u8, 101u8, 114u8]
}

/// The `n` low bytes of `x`, least significant first.
pub open spec fn le_bytes(x: nat, n: nat) -> Seq<u8>
    decreases n,
{
    if n == 0 {
        seq![]
    } else {
        seq![(x % 256) as u8] + le_bytes(x / 256, (n - 1) as nat)
    }
}

/// The seeds of the record of offer `id` of `maker`: the tag, the maker's
/// key and the id in eight little-endian bytes.
pub open spec fn offer_seeds(maker: Key, id: u64) -> Seq<Seq<u8>> {
    seq![offer_tag(), maker.bytes@, le_bytes(id as nat, 8)]
}

/// The address of the record of offer `id` of `maker` under bump `bump`.
pub open spec fn offer_address(program_id: Key, maker: Key, id: u64, bump: u8) -> Option<Seq<u8>> {
    program_address(offer_seeds(maker, id).push(seq![bump]), program_id.bytes@)
}

/// The eight little-endian bytes of `x`.
pub fn u64_le_bytes(x: u64) -> (r: Vec<u8>)
    ensures
        r@ == le_bytes(x as nat, 8),
{
    let mut out: Vec<u8> = Vec::new();
    let mut v: u64 = x;
    let mut i: usize = 0;
    while i < 8
        invariant
            i <= 8,
            out@ + le_bytes(v as nat, (8 - i) as nat) == le_bytes(x as nat, 8),
        decreases 8 - i,
    {
        let ghost before = out@;
        out.push((v % 256) as u8);
        assert(le_bytes(v as nat, (8 - i) as nat) == seq![(v % 256) as u8] + le_bytes(
            (v / 256) as nat,
            (8 - i - 1) as nat,
        ));
        assert(out@ + le_bytes((v / 256) as nat, (8 - i - 1) as nat) =~= before + le_bytes(
            v as nat,
            (8 - i) as nat,
        ));
        v = v / 256;
        i = i + 1;
    }
    assert(out@ =~= out@ + le_bytes(v as nat, 0));
    out
}

fn key_bytes(k: &Key) -> (r: Vec<u8>)
    ensures
        r@ == k.bytes@,
{
    let mut out: Vec<u8> = Vec::new();
    let mut i: usize = 0;
    while i < 32
        invariant
            i <= 32,
            out@ == k.bytes@.subrange(0, i as int),
        decreases 32 - i,
    {
        out.push(k.bytes[i]);
        i = i + 1;
        assert(out@ =~= k.bytes@.subrange(0, i as int));
    }
    assert(out@ =~= k.bytes@);
    out
}

fn offer_seed_list(maker: &Key, id: u64) -> (r: Vec<Vec<u8>>)
    ensures
        r@.len() == 3,
        seeds_view(r@) == offer_seeds(*maker, id),
{
    let mut seeds: Vec<Vec<u8>> = Vec::new();
    let mut tag: Vec<u8> = Vec::new();
    tag.push(111u8);
    tag.push(102u8);
    tag.push(102u8);
    tag.push(101u8);
    tag.push(114u8);
    assert(tag@ =~= offer_tag());
    seeds.push(tag);
    seeds.push(key_bytes(maker));
    seeds.push(u64_le_bytes(id));
    assert(seeds_view(seeds@) =~= offer_seeds(*maker, id));
    seeds
}

/// The seeds under which the record of offer `id` of `maker` signs for its
/// vault: the offer's seeds followed by the one-byte bump.
pub fn offer_signer_seeds(maker: &Key, id: u64, bump: u8) -> (r: Vec<Vec<u8>>)
    ensures
        seeds_view(r@) == offer_seeds(*maker, id).push(seq![bump]),
{
    let mut seeds = offer_seed_list(maker, id);
    let ghost base = seeds@;
    let mut last: Vec<u8> = Vec::new();
    last.push(bump);
    assert(last@ =~= seq![bump]);
    seeds.push(last);
    assert(seeds_view(seeds@)[3] == seq![bump]);
    assert(forall|i: int| 0 <= i < 3 ==> seeds_view(seeds@)[i] == seeds_view(base)[i]);
    assert(seeds_view(seeds@) =~= offer_seeds(*maker, id).push(seq![bump]));
    seeds
}

/// Re-derives the authority of an offer record from its seed material:
/// the maker, the id and the stored bump.
pub fn derive_authority(program_id: &Key, maker: &Key, id: u64, bump: u8) -> (r: Option<Key>)
    ensures
        r matches Some(k) ==> offer_address(*program_id, *maker, id, bump) == Some(k.bytes@),
        r is None ==> offer_address(*program_id, *maker, id, bump) is None,
{
    let seeds = offer_signer_seeds(maker, id, bump);
    create_program_address(&seeds, program_id)
}

/// Finds the address of the record of offer `id` of `maker` and the highest
/// bump from 255 down that yields one.
pub fn find_offer_address(program_id: &Key, maker: &Key, id: u64) -> (r: Option<(Key, u8)>)
    ensures
        r is None ==> forall|c: u8|
            1 <= c ==> (#[trigger] offer_address(*program_id, *maker, id, c)) is None,
        r matches Some((k, b)) ==> {
            &&& 1 <= b
            &&& offer_address(*program_id, *maker, id, b) == Some(k.bytes@)
            &&& forall|c: u8| b < c ==> (#[trigger] offer_address(*program_id, *maker, id, c)) is None
        },
{
    let seeds = offer_seed_list(maker, id);
    try_find_program_address(&seeds, program_id)
}

} // verus!
