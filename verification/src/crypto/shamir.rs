//! Splitting a secret into hexadecimal Shamir shares, and recovering it.
use vstd::prelude::*;

use crate::crypto::erasure::rows;
use crate::crypto::sharing::{
    selection_of, share_check, sharks_deal, sharks_recover, sharks_recovered,
};
use crate::utils::hexcode::{
    decode_hex, encode_hex, hex_decoded, hex_lower, lemma_hex_lower_len, lemma_hex_roundtrip,
};
use crate::utils::text::{concat_str, decimal, has_prefix, lemma_concat_prefix, u64_decimal};

verus! {

/// The texts of a sequence of strings.
pub open spec fn texts(v: Seq<String>) -> Seq<Seq<char>> {
    Seq::new(v.len(), |i: int| v[i]@)
}

/// Any `threshold` or more distinct members of `dealt` recover `secret`.
pub open spec fn is_sharing(dealt: Seq<Seq<u8>>, secret: Seq<u8>, threshold: u8) -> bool {
    forall|chosen: Seq<Seq<u8>>|
        #![trigger sharks_recovered(threshold, chosen)]
        selection_of(chosen, dealt) && chosen.len() >= threshold ==> sharks_recovered(
            threshold,
            chosen,
        ) == Some(secret)
}

/// `shares` are `total` shares of `secret` in hexadecimal: share i has x coordinate
/// i + 1 and one y byte per secret byte, and any `threshold` of them recover the secret.
pub open spec fn shares_of(shares: Seq<Seq<char>>, secret: Seq<u8>, threshold: u8, total: u8) -> bool {
    exists|dealt: Seq<Seq<u8>>|
        {
            &&& dealt.len() == total
            &&& shares.len() == total
            &&& forall|i: int|
                0 <= i < total ==> {
                    &&& (#[trigger] dealt[i]).len() == secret.len() + 1
                    &&& dealt[i][0] == i + 1
                    &&& shares[i] == hex_lower(dealt[i])
                }
            &&& is_sharing(dealt, secret, threshold)
        }
}

/// A dealing witnesses that its hexadecimal texts are shares of the secret.
proof fn lemma_shares_of_intro(
    shares: Seq<Seq<char>>,
    secret: Seq<u8>,
    threshold: u8,
    total: u8,
    dealt: Seq<Seq<u8>>,
)
    requires
        dealt.len() == total,
        shares.len() == total,
        forall|i: int|
            0 <= i < total ==> {
                &&& (#[trigger] dealt[i]).len() == secret.len() + 1
                &&& dealt[i][0] == i + 1
                &&& shares[i] == hex_lower(dealt[i])
            },
        is_sharing(dealt, secret, threshold),
    ensures
        shares_of(shares, secret, threshold, total),
{
}

/// The message with which splitting refuses its counts, if it does.
pub open spec fn split_refusal(threshold: u8, total_shares: u8) -> Option<Seq<char>> {
    if threshold == 0 || total_shares == 0 {
        Some("El umbral (threshold) y las partes totales deben ser mayores a 0"@)
    } else if threshold > total_shares {
        Some("El umbral (threshold) no puede ser mayor que las partes totales"@)
    } else {
        None
    }
}

/// Splits a secret into `total_shares` parts of which any `threshold` rebuild it.
/// Each part is returned as hexadecimal text.
pub fn split_secret(secret: &[u8], threshold: u8, total_shares: u8) -> (res: Result<
    Vec<String>,
    String,
>)
    ensures
        match split_refusal(threshold, total_shares) {
            Some(m) => res is Err && res->Err_0@ == m,
            None => res is Ok && shares_of(texts(res->Ok_0@), secret@, threshold, total_shares),
        },
{
    if threshold == 0 || total_shares == 0 {
        return Err("El umbral (threshold) y las partes totales deben ser mayores a 0".to_owned());
    }
    if threshold > total_shares {
        return Err("El umbral (threshold) no puede ser mayor que las partes totales".to_owned());
    }
    let dealt = sharks_deal(secret, threshold, total_shares);
    let ghost d = rows(dealt@);
    let mut shares: Vec<String> = Vec::new();
    let mut i: usize = 0;
    while i < dealt.len()
        invariant
            i <= dealt@.len(),
            d == rows(dealt@),
            texts(shares@) == Seq::new(i as nat, |k: int| hex_lower(d[k])),
        decreases dealt@.len() - i,
    {
        let text = encode_hex(dealt[i].as_slice());
        let ghost prev = texts(shares@);
        shares.push(text);
        assert(texts(shares@) == prev.push(hex_lower(d[i as int])));
        i = i + 1;
        assert(texts(shares@) == Seq::new(i as nat, |k: int| hex_lower(d[k])));
    }
    assert(is_sharing(d, secret@, threshold));
    assert forall|k: int| 0 <= k < total_shares implies {
        &&& (#[trigger] d[k]).len() == secret@.len() + 1
        &&& d[k][0] == k + 1
        &&& texts(shares@)[k] == hex_lower(d[k])
    } by {
        assert(d[k] == dealt@[k]@);
    }
    proof {
        lemma_shares_of_intro(texts(shares@), secret@, threshold, total_shares, d);
    }
    Ok(shares)
}

/// A share text that decodes to two bytes or more.
pub open spec fn share_usable(s: Seq<char>) -> bool {
    hex_decoded(s) matches Some(b) && b.len() >= 2
}

/// The bytes of decodable share texts.
pub open spec fn decoded_shares(t: Seq<Seq<char>>) -> Seq<Seq<u8>> {
    Seq::new(t.len(), |i: int| hex_decoded(t[i])->Some_0)
}

/// What recovery yields from share texts: nothing for fewer than `threshold`
/// shares or an unusable one, else what `sharks` recovers from their bytes.
pub open spec fn recovered(t: Seq<Seq<char>>, threshold: u8) -> Option<Seq<u8>> {
    if t.len() < threshold {
        None
    } else if exists|i: int| 0 <= i < t.len() && !share_usable(#[trigger] t[i]) {
        None
    } else {
        sharks_recovered(threshold, decoded_shares(t))
    }
}

/// The message for fewer shares than the threshold.
pub open spec fn too_few_shares_message(given: nat, threshold: nat) -> Seq<char> {
    "Se proporcionaron "@ + decimal(given) + " partes, pero se requiere un umbral de "@ + decimal(
        threshold,
    ) + " partes para la reconstrucción"@
}

/// The message for the first unusable share `s`.
pub open spec fn bad_share_message_prefix(s: Seq<char>) -> Seq<char> {
    if hex_decoded(s) is None {
        "Error al decodificar parte hex '"@ + s + "': "@
    } else {
        "Formato de parte inválido para '"@ + s + "': "@ + "A Share must be at least 2 bytes long"@
    }
}

/// Rebuilds the original secret from hexadecimal shares.
pub fn recover_secret(shares_hex: &[String], threshold: u8) -> (res: Result<Vec<u8>, String>)
    ensures
        recovered(texts(shares_hex@), threshold) matches Some(s) ==> res is Ok && res->Ok_0@ == s,
        recovered(texts(shares_hex@), threshold) is None ==> res is Err,
        shares_hex@.len() < threshold ==> res is Err && res->Err_0@ == too_few_shares_message(
            shares_hex@.len() as nat,
            threshold as nat,
        ),
        forall|i: int|
            #![trigger shares_hex@[i]]
            0 <= i < shares_hex@.len() && shares_hex@.len() >= threshold && !share_usable(
                shares_hex@[i]@,
            ) && (forall|j: int| 0 <= j < i ==> share_usable(#[trigger] shares_hex@[j]@))
                ==> res is Err && has_prefix(res->Err_0@, bad_share_message_prefix(shares_hex@[i]@)),
        shares_hex@.len() >= threshold && (forall|i: int|
            0 <= i < shares_hex@.len() ==> share_usable(#[trigger] shares_hex@[i]@)) && sharks_recovered(
            threshold,
            decoded_shares(texts(shares_hex@)),
        ) is None ==> res is Err && has_prefix(
            res->Err_0@,
            "Error al reconstruir el secreto (las partes pueden estar corruptas o incompletas): "@,
        ),
{
    let ghost t = texts(shares_hex@);
    if shares_hex.len() < threshold as usize {
        let m = concat_str("Se proporcionaron ", u64_decimal(shares_hex.len() as u64).as_str());
        let m = concat_str(m.as_str(), " partes, pero se requiere un umbral de ");
        let m = concat_str(m.as_str(), u64_decimal(threshold as u64).as_str());
        let m = concat_str(m.as_str(), " partes para la reconstrucción");
        return Err(m);
    }
    let mut shares: Vec<Vec<u8>> = Vec::new();
    let mut i: usize = 0;
    while i < shares_hex.len()
        invariant
            i <= shares_hex@.len(),
            t == texts(shares_hex@),
            forall|j: int| 0 <= j < i ==> share_usable(#[trigger] shares_hex@[j]@),
            shares_hex@.len() >= threshold,
            rows(shares@) == decoded_shares(t.subrange(0, i as int)),
            forall|j: int| 0 <= j < shares@.len() ==> (#[trigger] shares@[j])@.len() >= 2,
        decreases shares_hex@.len() - i,
    {
        let text = &shares_hex[i];
        let bytes = match decode_hex(text.as_str()) {
            Ok(b) => b,
            Err(e) => {
                let m = concat_str("Error al decodificar parte hex '", text.as_str());
                let m = concat_str(m.as_str(), "': ");
                let m2 = concat_str(m.as_str(), e.as_str());
                proof {
                    lemma_concat_prefix(m@, e@);
                    assert(shares_hex@[i as int]@ == text@);
                    assert(!share_usable(shares_hex@[i as int]@));
                }
                return Err(m2);
            },
        };
        if let Err(e) = share_check(bytes.as_slice()) {
            let m = concat_str("Formato de parte inválido para '", text.as_str());
            let m = concat_str(m.as_str(), "': ");
            let m = concat_str(m.as_str(), e.as_str());
            proof {
                lemma_concat_prefix(m@, Seq::empty());
                assert(m@ + Seq::<char>::empty() == m@);
                assert(shares_hex@[i as int]@ == text@);
                assert(!share_usable(shares_hex@[i as int]@));
            }
            return Err(m);
        }
        assert(shares_hex@[i as int]@ == t[i as int]);
        let ghost prev = rows(shares@);
        shares.push(bytes);
        assert(rows(shares@) == prev.push(hex_decoded(t[i as int])->Some_0));
        i = i + 1;
        assert(decoded_shares(t.subrange(0, i as int)) == decoded_shares(
            t.subrange(0, i - 1),
        ).push(hex_decoded(t[i - 1])->Some_0));
    }
    assert(t.subrange(0, shares_hex@.len() as int) == t);
    assert forall|j: int| 0 <= j < t.len() implies share_usable(#[trigger] t[j]) by {
        assert(t[j] == shares_hex@[j]@);
    }
    match sharks_recover(threshold, &shares) {
        Ok(secret) => Ok(secret),
        Err(e) => {
            let m = concat_str(
                "Error al reconstruir el secreto (las partes pueden estar corruptas o incompletas): ",
                e.as_str(),
            );
            proof {
                lemma_concat_prefix(
                    "Error al reconstruir el secreto (las partes pueden estar corruptas o incompletas): "@,
                    e@,
                );
            }
            Err(m)
        },
    }
}

/// Any `threshold` or more distinct shares of a split recover the secret (a
/// nonempty one: shares of an empty secret are a single byte, which recovery refuses).
pub proof fn law_threshold_shares_recover(
    secret: Seq<u8>,
    threshold: u8,
    total: u8,
    shares: Seq<Seq<char>>,
    chosen: Seq<Seq<char>>,
)
    requires
        secret.len() > 0,
        shares_of(shares, secret, threshold, total),
        chosen.no_duplicates(),
        chosen.len() >= threshold,
        forall|k: int| 0 <= k < chosen.len() ==> shares.contains(#[trigger] chosen[k]),
    ensures
        recovered(chosen, threshold) == Some(secret),
{
    let dealt = choose|dealt: Seq<Seq<u8>>|
        {
            &&& dealt.len() == total
            &&& shares.len() == total
            &&& forall|i: int|
                0 <= i < total ==> {
                    &&& (#[trigger] dealt[i]).len() == secret.len() + 1
                    &&& dealt[i][0] == i + 1
                    &&& shares[i] == hex_lower(dealt[i])
                }
            &&& is_sharing(dealt, secret, threshold)
        };
    let bytes = decoded_shares(chosen);
    assert forall|k: int| 0 <= k < chosen.len() implies share_usable(#[trigger] chosen[k]) && dealt.contains(
        bytes[k],
    ) && hex_lower(bytes[k]) == chosen[k] by {
        let j = choose|j: int| 0 <= j < shares.len() && shares[j] == chosen[k];
        lemma_hex_roundtrip(dealt[j]);
        assert(bytes[k] == dealt[j]);
    }
    assert(!(exists|i: int| 0 <= i < chosen.len() && !share_usable(#[trigger] chosen[i])));
    assert forall|k: int, l: int| 0 <= k < bytes.len() && 0 <= l < bytes.len() && k != l implies bytes[k]
        != bytes[l] by {
        if bytes[k] == bytes[l] {
            assert(chosen[k] == hex_lower(bytes[k]));
            assert(chosen[l] == hex_lower(bytes[l]));
        }
    }
    assert(bytes.no_duplicates());
    assert(selection_of(bytes, dealt));
    assert(sharks_recovered(threshold, bytes) == Some(secret));
}

} // verus!
