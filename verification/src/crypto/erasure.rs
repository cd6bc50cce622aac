//! Reed-Solomon erasure coding over GF(2^8), through `reed_solomon_erasure`.
use vstd::prelude::*;

use reed_solomon_erasure::galois_8::ReedSolomon;

verus! {

/// The byte strings held by a vector of shards.
pub open spec fn rows(v: Seq<Vec<u8>>) -> Seq<Seq<u8>> {
    Seq::new(v.len(), |i: int| v[i]@)
}

/// The byte strings held by a vector of shards that may be missing.
pub open spec fn optional_rows(v: Seq<Option<Vec<u8>>>) -> Seq<Option<Seq<u8>>> {
    Seq::new(
        v.len(),
        |i: int|
            match v[i] {
                Some(s) => Some(s@),
                None => None,
            },
    )
}

/// Every shard has `len` bytes.
pub open spec fn all_of_len(shards: Seq<Seq<u8>>, len: nat) -> bool {
    forall|i: int| 0 <= i < shards.len() ==> #[trigger] shards[i].len() == len
}

/// The counts a codec accepts: some data and some parity shards, at most 256 in all.
pub open spec fn valid_counts(data_shards: nat, parity_shards: nat) -> bool {
    0 < data_shards && 0 < parity_shards && data_shards + parity_shards <= 256
}

/// The parity shards that encoding computes from the data shards.
pub uninterp spec fn rs_parity(data_shards: nat, parity_shards: nat, data: Seq<Seq<u8>>) -> Seq<
    Seq<u8>,
>;

/// Data shards followed by the parity that encoding computes from them.
pub open spec fn with_parity(data_shards: nat, parity_shards: nat, data: Seq<Seq<u8>>) -> Seq<
    Seq<u8>,
> {
    Seq::new(
        data_shards + parity_shards,
        |i: int|
            if i < data_shards {
                data[i]
            } else {
                rs_parity(data_shards, parity_shards, data)[i - data_shards]
            },
    )
}

/// All shards as reconstruction leaves them.
pub uninterp spec fn rs_rebuilt(data_shards: nat, parity_shards: nat, shards: Seq<Option<Seq<u8>>>) -> Seq<
    Seq<u8>,
>;

/// A full set of shards as encoding makes it: data shards of one nonzero length,
/// followed by their parity.
pub open spec fn is_codeword(data_shards: nat, parity_shards: nat, shards: Seq<Seq<u8>>) -> bool {
    &&& shards.len() == data_shards + parity_shards
    &&& data_shards > 0
    &&& shards[0].len() > 0
    &&& all_of_len(shards.subrange(0, data_shards as int), shards[0].len())
    &&& shards == with_parity(data_shards, parity_shards, shards.subrange(0, data_shards as int))
}

/// The present shards agree with `full` where they are present.
pub open spec fn agrees_with(present: Seq<Option<Seq<u8>>>, full: Seq<Seq<u8>>) -> bool {
    &&& present.len() == full.len()
    &&& forall|i: int| 0 <= i < present.len() ==> (#[trigger] present[i] matches Some(s) ==> s == full[i])
}

/// How many shards are present.
pub open spec fn present_count(shards: Seq<Option<Seq<u8>>>) -> nat
    decreases shards.len(),
{
    if shards.len() == 0 {
        0
    } else {
        present_count(shards.drop_last()) + if shards.last() is Some {
            1nat
        } else {
            0nat
        }
    }
}

/// Filling an empty slot adds one to the count of present shards.
pub proof fn lemma_present_count_fill(s: Seq<Option<Seq<u8>>>, i: int, x: Seq<u8>)
    requires
        0 <= i < s.len(),
        s[i] is None,
    ensures
        present_count(s.update(i, Some(x))) == present_count(s) + 1,
    decreases s.len(),
{
    let t = s.update(i, Some(x));
    if i == s.len() - 1 {
        assert(t.drop_last() == s.drop_last());
    } else {
        assert(t.drop_last() == s.drop_last().update(i, Some(x)));
        lemma_present_count_fill(s.drop_last(), i, x);
    }
}

/// A sequence of empty slots has no present shard.
pub proof fn lemma_present_count_none(n: nat)
    ensures
        present_count(Seq::new(n, |i: int| None::<Seq<u8>>)) == 0,
    decreases n,
{
    if n > 0 {
        assert(Seq::new(n, |i: int| None::<Seq<u8>>).drop_last() == Seq::new(
            (n - 1) as nat,
            |i: int| None::<Seq<u8>>,
        ));
        lemma_present_count_none((n - 1) as nat);
    }
}

/// The present shards are nonempty and share one length.
pub open spec fn present_uniform(shards: Seq<Option<Seq<u8>>>) -> bool {
    forall|i: int, j: int|
        0 <= i < shards.len() && 0 <= j < shards.len() ==> (#[trigger] shards[i] matches Some(a)
            ==> (#[trigger] shards[j] matches Some(b) ==> a.len() > 0 && a.len() == b.len()))
}

/// Calls `ReedSolomon::new`. Claimed, for counts whose sum fits in `usize` (the crate
/// adds them unchecked): it succeeds exactly on counts with some data and some
/// parity shards and at most 256 in all (the GF(2^8) order). The error is the
/// `Display` text of the crate's error.
#[verifier::external_body]
pub(crate) fn codec_check(data_shards: usize, parity_shards: usize) -> (r: Result<(), String>)
    requires
        data_shards + parity_shards <= usize::MAX,
    ensures
        r is Ok <==> valid_counts(data_shards as nat, parity_shards as nat),
{
    ReedSolomon::new(data_shards, parity_shards).map(|_| ()).map_err(|e| e.to_string())
}

/// Calls `ReedSolomon::new(data_shards, parity_shards)` and `encode`. Claimed: encoding
/// succeeds exactly when there is one shard per data and parity slot and the shards
/// are nonempty and of one length; then the data shards are kept and the parity
/// slots hold `rs_parity` of them. On an error the shards are not touched.
#[verifier::external_body]
pub(crate) fn encode_parity(shards: &mut Vec<Vec<u8>>, data_shards: usize, parity_shards: usize) -> (r: Result<
    (),
    String,
>)
    requires
        valid_counts(data_shards as nat, parity_shards as nat),
    ensures
        r is Ok <==> ({
            &&& old(shards)@.len() == data_shards + parity_shards
            &&& old(shards)@[0]@.len() > 0
            &&& all_of_len(rows(old(shards)@), old(shards)@[0]@.len())
        }),
        r is Ok ==> rows(final(shards)@) == with_parity(
            data_shards as nat,
            parity_shards as nat,
            rows(old(shards)@).subrange(0, data_shards as int),
        ),
        r is Ok ==> rows(final(shards)@).subrange(data_shards as int, old(shards)@.len() as int)
            == rs_parity(
            data_shards as nat,
            parity_shards as nat,
            rows(old(shards)@).subrange(0, data_shards as int),
        ),
        r is Ok ==> final(shards)@.len() == old(shards)@.len(),
        r is Ok ==> all_of_len(rows(final(shards)@), old(shards)@[0]@.len()),
        r is Err ==> final(shards)@ == old(shards)@,
{
    match ReedSolomon::new(data_shards, parity_shards) {
        Ok(codec) => codec.encode(&mut *shards).map_err(|e| e.to_string()),
        Err(e) => Err(e.to_string()),
    }
}

/// Calls `ReedSolomon::new(data_shards, parity_shards)` and `reconstruct`. Claimed:
/// it succeeds exactly when there is one slot per data and parity shard, the present
/// shards are nonempty and of one length, and at least `data_shards` are present;
/// then every slot holds a shard, as `rs_rebuilt` gives them, the present ones
/// unchanged. When the present shards agree with a full set that encoding made, the
/// result is that set (any `data_shards` shards of a codeword determine it: the code
/// is an erasure code). On an error the slots are not touched.
#[verifier::external_body]
pub(crate) fn reconstruct_shards(shards: &mut Vec<Option<Vec<u8>>>, data_shards: usize, parity_shards: usize) -> (r: Result<
    (),
    String,
>)
    requires
        valid_counts(data_shards as nat, parity_shards as nat),
    ensures
        r is Ok <==> ({
            &&& old(shards)@.len() == data_shards + parity_shards
            &&& present_uniform(optional_rows(old(shards)@))
            &&& present_count(optional_rows(old(shards)@)) >= data_shards
        }),
        r is Ok ==> rs_rebuilt(data_shards as nat, parity_shards as nat, optional_rows(old(shards)@)).len()
            == final(shards)@.len(),
        r is Ok ==> final(shards)@.len() == old(shards)@.len() && forall|i: int|
            0 <= i < final(shards)@.len() ==> ((#[trigger] final(shards)@[i]) is Some
                && final(shards)@[i]->Some_0@ == rs_rebuilt(
                data_shards as nat,
                parity_shards as nat,
                optional_rows(old(shards)@),
            )[i]),
        r is Ok ==> forall|i: int|
            0 <= i < old(shards)@.len() && (#[trigger] old(shards)@[i]) is Some ==> rs_rebuilt(
                data_shards as nat,
                parity_shards as nat,
                optional_rows(old(shards)@),
            )[i] == old(shards)@[i]->Some_0@ && final(shards)@[i] is Some,
        r is Ok ==> forall|full: Seq<Seq<u8>>|
            #![trigger is_codeword(data_shards as nat, parity_shards as nat, full)]
            is_codeword(data_shards as nat, parity_shards as nat, full) && agrees_with(
                optional_rows(old(shards)@),
                full,
            ) ==> rs_rebuilt(data_shards as nat, parity_shards as nat, optional_rows(old(shards)@))
                == full,
        r is Err ==> final(shards)@ == old(shards)@,
{
    match ReedSolomon::new(data_shards, parity_shards) {
        Ok(codec) => codec.reconstruct(&mut shards[..]).map_err(|e| e.to_string()),
        Err(e) => Err(e.to_string()),
    }
}

} // verus!
