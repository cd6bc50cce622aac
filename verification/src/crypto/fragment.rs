//! Reed-Solomon fragmentation of a byte stream into self-describing part files,
//! and its reconstruction from any sufficient subset of the parts.
use vstd::prelude::*;

use vstd::bytes::{
    lemma_auto_spec_u64_to_from_le_bytes, spec_u64_from_le_bytes, spec_u64_to_le_bytes,
    u64_from_le_bytes, u64_to_le_bytes,
};

use crate::crypto::erasure::{
    agrees_with, all_of_len, codec_check, encode_parity, is_codeword, lemma_present_count_fill, lemma_present_count_none,
    optional_rows, present_count, present_uniform, reconstruct_shards, rows, rs_rebuilt, valid_counts,
    with_parity,
};
use crate::utils::bytes::{append_bytes, copy_range};
use crate::utils::text::{concat_str, decimal, has_prefix, lemma_concat_prefix, u64_decimal};

verus! {

/// The header that opens each part: its index, the shard counts and the size of
/// the stream that was fragmented.
#[derive(Debug, Clone, PartialEq, Eq, Structural)]
pub struct PartHeader {
    pub index: u8,
    pub total_parts: u8,
    pub data_shards: u8,
    pub parity_shards: u8,
    pub original_size: u64,
}

/// The eight bytes `QARQPART` that open every part.
pub open spec fn part_magic() -> Seq<u8> {
    seq![0x51u8, 0x41u8, 0x52u8, 0x51u8, 0x50u8, 0x41u8, 0x52u8, 0x54u8]
}

/// The bytes of one shard: `size` bytes of the stream from shard `i` on, zero-filled past its end.
pub open spec fn data_shard(data: Seq<u8>, size: nat, i: int) -> Seq<u8> {
    Seq::new(size, |j: int| if i * size + j < data.len() { data[i * size + j] } else { 0u8 })
}

/// The size of each shard: the stream length divided by the data shard count, rounded up.
pub open spec fn shard_size(len: nat, data_shards: nat) -> nat {
    ((len + data_shards - 1) as nat) / data_shards
}

/// The data shards of a stream.
pub open spec fn data_shards_of(data: Seq<u8>, data_shards: nat) -> Seq<Seq<u8>> {
    Seq::new(data_shards, |i: int| data_shard(data, shard_size(data.len(), data_shards), i))
}

/// The data shards followed by their Reed-Solomon parity.
pub open spec fn encoded_shards(data: Seq<u8>, data_shards: nat, parity_shards: nat) -> Seq<
    Seq<u8>,
> {
    with_parity(data_shards, parity_shards, data_shards_of(data, data_shards))
}

/// A part file: magic, index, part count, data and parity counts, the stream size
/// (eight bytes, little-endian) and the shard.
pub open spec fn part_bytes(header: PartHeader, shard: Seq<u8>) -> Seq<u8> {
    part_magic() + seq![header.index, header.total_parts, header.data_shards, header.parity_shards]
        + spec_u64_to_le_bytes(header.original_size) + shard
}

/// The header of part `i` of a fragmentation.
pub open spec fn header_of(i: int, len: nat, data_shards: nat, parity_shards: nat) -> PartHeader {
    PartHeader {
        index: i as u8,
        total_parts: (data_shards + parity_shards) as u8,
        data_shards: data_shards as u8,
        parity_shards: parity_shards as u8,
        original_size: len as u64,
    }
}

/// The parts into which a stream is fragmented.
pub open spec fn fragments(data: Seq<u8>, data_shards: nat, parity_shards: nat) -> Seq<Seq<u8>> {
    Seq::new(
        data_shards + parity_shards,
        |i: int|
            part_bytes(
                header_of(i, data.len(), data_shards, parity_shards),
                encoded_shards(data, data_shards, parity_shards)[i],
            ),
    )
}

/// The counts and stream that fragmentation takes.
pub open spec fn fragmentable(len: nat, data_shards: nat, parity_shards: nat) -> bool {
    0 < data_shards && 0 < parity_shards && data_shards + parity_shards <= 255 && len > 0
}

/// The message with which fragmentation refuses its arguments, if it does.
pub open spec fn fragment_refusal(len: nat, data_shards: nat, parity_shards: nat) -> Option<
    Seq<char>,
> {
    if data_shards == 0 || parity_shards == 0 {
        Some("Los fragmentos de datos y paridad deben ser mayores que 0"@)
    } else if data_shards + parity_shards > 255 {
        Some("El total de fragmentos (datos + paridad) no puede exceder 255"@)
    } else if len == 0 {
        Some("Los datos a fragmentar están vacíos o el tamaño de fragmento es 0"@)
    } else {
        None
    }
}

/// The size of the shards is positive and `data_shards` of them cover the stream.
proof fn lemma_shard_size(len: nat, d: nat)
    requires
        len > 0,
        d > 0,
    ensures
        shard_size(len, d) > 0,
        len <= shard_size(len, d) * d,
        shard_size(len, d) * d <= len + d - 1,
{
    let s = shard_size(len, d);
    assert((len + d - 1) as nat == s * d + ((len + d - 1) as nat) % d) by (nonlinear_arith)
        requires
            s == ((len + d - 1) as nat) / d,
            d > 0,
    ;
    assert(((len + d - 1) as nat) % d < d) by (nonlinear_arith)
        requires
            d > 0,
    ;
    assert(s > 0) by (nonlinear_arith)
        requires
            d > 0,
            s * d + ((len + d - 1) as nat) % d == len + d - 1,
            ((len + d - 1) as nat) % d < d,
            len > 0,
    ;
}

/// Builds data shard `i`.
fn build_data_shard(data: &[u8], size: usize, i: usize) -> (r: Vec<u8>)
    requires
        i * size + size <= usize::MAX,
    ensures
        r@ == data_shard(data@, size as nat, i as int),
{
    let start = i * size;
    let mut r: Vec<u8> = Vec::new();
    let mut j: usize = 0;
    while j < size
        invariant
            start == i * size,
            start + size <= usize::MAX,
            j <= size,
            r@ == data_shard(data@, size as nat, i as int).subrange(0, j as int),
        decreases size - j,
    {
        if start + j < data.len() {
            r.push(data[start + j]);
        } else {
            r.push(0);
        }
        j = j + 1;
        assert(r@ == data_shard(data@, size as nat, i as int).subrange(0, j as int));
    }
    assert(r@ == data_shard(data@, size as nat, i as int));
    r
}

/// Builds one part file from its header and shard.
fn pack_part(header: &PartHeader, shard: &[u8]) -> (r: Vec<u8>)
    ensures
        r@ == part_bytes(*header, shard@),
        r@.len() == 20 + shard@.len(),
{
    let mut r: Vec<u8> = Vec::new();
    r.push(0x51);
    r.push(0x41);
    r.push(0x52);
    r.push(0x51);
    r.push(0x50);
    r.push(0x41);
    r.push(0x52);
    r.push(0x54);
    r.push(header.index);
    r.push(header.total_parts);
    r.push(header.data_shards);
    r.push(header.parity_shards);
    let size = u64_to_le_bytes(header.original_size);
    append_bytes(&mut r, size.as_slice());
    append_bytes(&mut r, shard);
    assert(r@ == part_bytes(*header, shard@));
    r
}

/// Splits a byte stream into data and parity fragments with Reed-Solomon coding.
/// Each fragment carries a self-contained header that makes reconstruction possible.
pub fn fragment_data(data: &[u8], data_shards: usize, parity_shards: usize) -> (res: Result<
    Vec<Vec<u8>>,
    String,
>)
    requires
        data_shards + parity_shards <= usize::MAX,
        data@.len() + data_shards <= usize::MAX,
    ensures
        match fragment_refusal(data@.len(), data_shards as nat, parity_shards as nat) {
            Some(m) => res matches Err(e) && e@ == m,
            None => res matches Ok(parts) && rows(parts@) == fragments(
                data@,
                data_shards as nat,
                parity_shards as nat,
            ) && all_of_len(rows(parts@), 20 + shard_size(data@.len(), data_shards as nat)),
        },
{
    if data_shards == 0 || parity_shards == 0 {
        return Err("Los fragmentos de datos y paridad deben ser mayores que 0".to_owned());
    }
    let total_shards = data_shards + parity_shards;
    if total_shards > 255 {
        return Err("El total de fragmentos (datos + paridad) no puede exceder 255".to_owned());
    }
    let len = data.len();
    let size = (len + data_shards - 1) / data_shards;
    if size == 0 {
        assert(len == 0) by {
            if len > 0 {
                lemma_shard_size(len as nat, data_shards as nat);
            }
        }
        return Err(
            "Los datos a fragmentar están vacíos o el tamaño de fragmento es 0".to_owned(),
        );
    }
    assert(len > 0) by {
        if len == 0 {
            assert((data_shards - 1) as nat / (data_shards as nat) == 0) by (nonlinear_arith)
                requires
                    data_shards > 0,
            ;
        }
    }
    proof {
        lemma_shard_size(len as nat, data_shards as nat);
    }
    let ghost ds = data_shards_of(data@, data_shards as nat);
    let mut shards: Vec<Vec<u8>> = Vec::new();
    let mut i: usize = 0;
    while i < data_shards
        invariant
            i <= data_shards,
            size as nat == shard_size(len as nat, data_shards as nat),
            size * data_shards <= len + data_shards - 1,
            len + data_shards <= usize::MAX,
            len == data@.len(),
            ds == data_shards_of(data@, data_shards as nat),
            rows(shards@) == ds.subrange(0, i as int),
        decreases data_shards - i,
    {
        assert(i * size + size <= size * data_shards) by (nonlinear_arith)
            requires
                i < data_shards,
        ;
        let shard = build_data_shard(data, size, i);
        assert(ds[i as int] == shard@);
        let ghost prev = rows(shards@);
        shards.push(shard);
        assert(rows(shards@) == prev.push(ds[i as int]));
        i = i + 1;
        assert(rows(shards@) == ds.subrange(0, i as int));
    }
    assert(ds.subrange(0, data_shards as int) == ds);
    assert(forall|t: int| 0 <= t < data_shards ==> #[trigger] ds[t].len() == size);
    assert(all_of_len(rows(shards@), size as nat)) by {
        assert forall|t: int| 0 <= t < rows(shards@).len() implies #[trigger] rows(shards@)[t].len()
            == size by {
            assert(rows(shards@)[t] == ds[t]);
        }
    }
    let mut k: usize = 0;
    while k < parity_shards
        invariant
            k <= parity_shards,
            shards@.len() == data_shards + k,
            rows(shards@).subrange(0, data_shards as int) == ds,
            all_of_len(rows(shards@), size as nat),
            size > 0,
            ds.len() == data_shards,
            forall|t: int| 0 <= t < data_shards ==> #[trigger] ds[t].len() == size,
        decreases parity_shards - k,
    {
        let zeros: Vec<u8> = vec![0u8; size];
        assert(zeros@.len() == size);
        let ghost prev = rows(shards@);
        shards.push(zeros);
        k = k + 1;
        assert(rows(shards@) == prev.push(zeros@));
        assert(rows(shards@).subrange(0, data_shards as int) == ds);
    }
    assert(rows(shards@)[0].len() == size);
    assert(shards@[0]@.len() == size);
    let ghost full_before = rows(shards@);
    match encode_parity(&mut shards, data_shards, parity_shards) {
        Ok(()) => {},
        Err(e) => {
            assert(false);
            return Err(e);
        },
    }
    let ghost enc = encoded_shards(data@, data_shards as nat, parity_shards as nat);
    assert(rows(shards@).subrange(0, data_shards as int) == ds);
    assert(rows(shards@) == enc);
    let original_size = len as u64;
    let mut packed: Vec<Vec<u8>> = Vec::new();
    let mut index: usize = 0;
    while index < total_shards
        invariant
            total_shards == data_shards + parity_shards,
            total_shards <= 255,
            index <= total_shards,
            rows(shards@) == enc,
            enc == encoded_shards(data@, data_shards as nat, parity_shards as nat),
            shards@.len() == total_shards,
            original_size == len as u64,
            len == data@.len(),
            rows(packed@) == fragments(data@, data_shards as nat, parity_shards as nat).subrange(
                0,
                index as int,
            ),
            all_of_len(rows(shards@), size as nat),
            all_of_len(rows(packed@), (20 + size) as nat),
        decreases total_shards - index,
    {
        let header = PartHeader {
            index: index as u8,
            total_parts: total_shards as u8,
            data_shards: data_shards as u8,
            parity_shards: parity_shards as u8,
            original_size,
        };
        let part = pack_part(&header, shards[index].as_slice());
        assert(header == header_of(index as int, len as nat, data_shards as nat, parity_shards as nat));
        assert(shards@[index as int]@ == enc[index as int]);
        assert(part@ == part_bytes(header, shards@[index as int]@));
        assert(part@ == part_bytes(
            header_of(index as int, len as nat, data_shards as nat, parity_shards as nat),
            enc[index as int],
        ));
        assert(fragments(data@, data_shards as nat, parity_shards as nat)[index as int]
            == part_bytes(
            header_of(index as int, data@.len(), data_shards as nat, parity_shards as nat),
            encoded_shards(data@, data_shards as nat, parity_shards as nat)[index as int],
        ));
        assert(part@ == fragments(data@, data_shards as nat, parity_shards as nat)[index as int]);
        let ghost prev = rows(packed@);
        assert(rows(shards@)[index as int].len() == size);
        packed.push(part);
        assert(rows(packed@) == prev.push(part@));
        index = index + 1;
        assert(rows(packed@) == fragments(data@, data_shards as nat, parity_shards as nat).subrange(
            0,
            index as int,
        ));
    }
    assert(fragments(data@, data_shards as nat, parity_shards as nat).subrange(
        0,
        total_shards as int,
    ) == fragments(data@, data_shards as nat, parity_shards as nat));
    Ok(packed)
}

/// The header and shard that a part file holds, if it is one: at least twenty bytes
/// opening with the magic.
pub open spec fn parsed_part(part: Seq<u8>) -> Result<(PartHeader, Seq<u8>), Seq<char>> {
    if part.len() < 20 {
        Err("Tamaño de fragmento inválido (demasiado pequeño)"@)
    } else if part.subrange(0, 8) != part_magic() {
        Err("Cabecera de fragmento inválida o no coincide"@)
    } else {
        Ok(
            (
                PartHeader {
                    index: part[8],
                    total_parts: part[9],
                    data_shards: part[10],
                    parity_shards: part[11],
                    original_size: spec_u64_from_le_bytes(part.subrange(12, 20)),
                },
                part.subrange(20, part.len() as int),
            ),
        )
    }
}

/// Parses a part file into its header and the raw bytes of its shard.
pub fn parse_part_data(part_bytes: &[u8]) -> (res: Result<(PartHeader, Vec<u8>), String>)
    ensures
        match parsed_part(part_bytes@) {
            Ok((h, s)) => res matches Ok((rh, rs)) && rh == h && rs@ == s,
            Err(m) => res matches Err(e) && e@ == m,
        },
{
    if part_bytes.len() < 20 {
        return Err("Tamaño de fragmento inválido (demasiado pequeño)".to_owned());
    }
    let head = copy_range(part_bytes, 0, 8);
    if !(head[0] == 0x51 && head[1] == 0x41 && head[2] == 0x52 && head[3] == 0x51 && head[4]
        == 0x50 && head[5] == 0x41 && head[6] == 0x52 && head[7] == 0x54) {
        assert(part_bytes@.subrange(0, 8) != part_magic()) by {
            if part_bytes@.subrange(0, 8) == part_magic() {
                assert(head@ == part_magic());
                assert(head@[0] == 0x51u8 && head@[1] == 0x41u8 && head@[2] == 0x52u8 && head@[3]
                    == 0x51u8 && head@[4] == 0x50u8 && head@[5] == 0x41u8 && head@[6] == 0x52u8
                    && head@[7] == 0x54u8);
            }
        }
        return Err("Cabecera de fragmento inválida o no coincide".to_owned());
    }
    assert(head@ == part_magic());
    let size_bytes = copy_range(part_bytes, 12, 20);
    let original_size = u64_from_le_bytes(size_bytes.as_slice());
    let shard = copy_range(part_bytes, 20, part_bytes.len());
    Ok(
        (
            PartHeader {
                index: part_bytes[8],
                total_parts: part_bytes[9],
                data_shards: part_bytes[10],
                parity_shards: part_bytes[11],
                original_size,
            },
            shard,
        ),
    )
}

/// The slots that the sibling parts fill, in the order given: a part that parses
/// fills the slot of its index when that slot lies below `total` and is still empty.
pub open spec fn collected(candidates: Seq<Seq<u8>>, total: nat) -> Seq<Option<Seq<u8>>>
    decreases candidates.len(),
{
    if candidates.len() == 0 {
        Seq::new(total, |i: int| None::<Seq<u8>>)
    } else {
        let prev = collected(candidates.drop_last(), total);
        match parsed_part(candidates.last()) {
            Ok((h, shard)) => if (h.index as nat) < total && prev[h.index as int] is None {
                prev.update(h.index as int, Some(shard))
            } else {
                prev
            },
            Err(_) => prev,
        }
    }
}

/// The concatenation of shards.
pub open spec fn joined(shards: Seq<Seq<u8>>) -> Seq<u8>
    decreases shards.len(),
{
    if shards.len() == 0 {
        Seq::empty()
    } else {
        joined(shards.drop_last()) + shards.last()
    }
}

/// The message for too few parts.
pub open spec fn insufficient_parts_message(found: nat, needed: nat) -> Seq<char> {
    "Fragmentos insuficientes para la reconstrucción. Se encontraron "@ + decimal(found)
        + " fragmentos de los "@ + decimal(needed) + " necesarios."@
}

/// What reconstruction yields from a selected part and its siblings, when it reaches
/// the reassembly: the data shards joined, cut to the size in the selected header.
pub open spec fn reassembled(header: PartHeader, candidates: Seq<Seq<u8>>) -> Option<Seq<u8>> {
    let slots = collected(candidates, header.total_parts as nat);
    let whole = joined(
        rs_rebuilt(header.data_shards as nat, header.parity_shards as nat, slots).subrange(
            0,
            header.data_shards as int,
        ),
    );
    if whole.len() < header.original_size {
        None
    } else {
        Some(whole.subrange(0, header.original_size as int))
    }
}

/// Rebuilds a fragmented stream from the part that was selected and the sibling
/// parts found beside it (their bytes, in the order they were found). Parts that do
/// not parse are passed over; of several parts with one index the first counts.
pub fn reconstruct_from_parts(selected_part: &[u8], siblings: &Vec<Vec<u8>>) -> (res: Result<
    Vec<u8>,
    String,
>)
    ensures
        match parsed_part(selected_part@) {
            Err(m) => res is Err && res->Err_0@ == m,
            Ok((h, _)) => {
                let slots = collected(rows(siblings@), h.total_parts as nat);
                let d = h.data_shards as nat;
                let p = h.parity_shards as nat;
                if present_count(slots) < d {
                    res is Err && res->Err_0@ == insufficient_parts_message(present_count(slots), d)
                } else if !valid_counts(d, p) {
                    res is Err && has_prefix(res->Err_0@, "Error al inicializar ReedSolomon: "@)
                } else if !(slots.len() == d + p && present_uniform(slots)) {
                    res is Err && has_prefix(
                        res->Err_0@,
                        "Error durante la reconstrucción Reed-Solomon: "@,
                    )
                } else {
                    match reassembled(h, rows(siblings@)) {
                        Some(data) => res is Ok && res->Ok_0@ == data,
                        None => res is Err && res->Err_0@
                            == "Los datos reconstruidos son más pequeños que el tamaño original especificado en cabecera"@,
                    }
                }
            },
        },
        forall|data: Seq<u8>, d: nat, p: nat|
            #[trigger] genuine_siblings(data, d, p, selected_part@, rows(siblings@)) ==> res is Ok
                && res->Ok_0@ == data,
{
    let header = match parse_part_data(selected_part) {
        Ok((h, _)) => h,
        Err(e) => {
            proof {
                assert forall|data: Seq<u8>, d: nat, p: nat|
                    #[trigger] genuine_siblings(data, d, p, selected_part@, rows(siblings@))
                    implies false by {
                    lemma_genuine_reassembly(data, d, p, selected_part@, rows(siblings@));
                }
            }
            return Err(e);
        },
    };
    let total_parts = header.total_parts as usize;
    let data_shards = header.data_shards as usize;
    let parity_shards = header.parity_shards as usize;
    let original_size = header.original_size;
    let ghost cands = rows(siblings@);

    let mut recovery: Vec<Option<Vec<u8>>> = Vec::new();
    let mut t: usize = 0;
    while t < total_parts
        invariant
            t <= total_parts,
            optional_rows(recovery@) == Seq::new(t as nat, |i: int| None::<Seq<u8>>),
        decreases total_parts - t,
    {
        let ghost prev = optional_rows(recovery@);
        recovery.push(None);
        assert(optional_rows(recovery@) == prev.push(None));
        t = t + 1;
        assert(optional_rows(recovery@) == Seq::new(t as nat, |i: int| None::<Seq<u8>>));
    }
    proof {
        lemma_present_count_none(total_parts as nat);
        assert(cands.subrange(0, 0) == Seq::<Seq<u8>>::empty());
    }
    let mut found: usize = 0;
    let mut k: usize = 0;
    while k < siblings.len()
        invariant
            k <= siblings@.len(),
            cands == rows(siblings@),
            recovery@.len() == total_parts,
            optional_rows(recovery@) == collected(cands.subrange(0, k as int), total_parts as nat),
            found == present_count(optional_rows(recovery@)),
            found <= k,
        decreases siblings@.len() - k,
    {
        let ghost before = optional_rows(recovery@);
        assert(cands.subrange(0, k + 1).drop_last() == cands.subrange(0, k as int));
        assert(cands.subrange(0, k + 1).last() == siblings@[k as int]@);
        match parse_part_data(siblings[k].as_slice()) {
            Ok((part_header, part_data)) => {
                let idx = part_header.index as usize;
                if idx < total_parts && recovery[idx].is_none() {
                    let ghost shard = part_data@;
                    recovery.set(idx, Some(part_data));
                    proof {
                        lemma_present_count_fill(before, idx as int, shard);
                        assert(optional_rows(recovery@) == before.update(idx as int, Some(shard)));
                    }
                    found = found + 1;
                }
            },
            Err(_) => {},
        }
        k = k + 1;
    }
    assert(cands.subrange(0, siblings@.len() as int) == cands);
    let ghost slots = optional_rows(recovery@);

    if found < data_shards {
        let msg = concat_str(
            "Fragmentos insuficientes para la reconstrucción. Se encontraron ",
            u64_decimal(found as u64).as_str(),
        );
        let msg = concat_str(msg.as_str(), " fragmentos de los ");
        let msg = concat_str(msg.as_str(), u64_decimal(data_shards as u64).as_str());
        let msg = concat_str(msg.as_str(), " necesarios.");
        proof {
            assert forall|data: Seq<u8>, d: nat, p: nat|
                #[trigger] genuine_siblings(data, d, p, selected_part@, rows(siblings@))
                implies false by {
                lemma_genuine_reassembly(data, d, p, selected_part@, rows(siblings@));
            }
        }
        return Err(msg);
    }
    if let Err(e) = codec_check(data_shards, parity_shards) {
        let m = concat_str("Error al inicializar ReedSolomon: ", e.as_str());
        proof {
            lemma_concat_prefix("Error al inicializar ReedSolomon: "@, e@);
            assert forall|data: Seq<u8>, d: nat, p: nat|
                #[trigger] genuine_siblings(data, d, p, selected_part@, rows(siblings@))
                implies false by {
                lemma_genuine_reassembly(data, d, p, selected_part@, rows(siblings@));
            }
        }
        return Err(m);
    }
    if let Err(e) = reconstruct_shards(&mut recovery, data_shards, parity_shards) {
        let m = concat_str("Error durante la reconstrucción Reed-Solomon: ", e.as_str());
        proof {
            lemma_concat_prefix("Error durante la reconstrucción Reed-Solomon: "@, e@);
            assert forall|data: Seq<u8>, d: nat, p: nat|
                #[trigger] genuine_siblings(data, d, p, selected_part@, rows(siblings@))
                implies false by {
                lemma_genuine_reassembly(data, d, p, selected_part@, rows(siblings@));
            }
        }
        return Err(m);
    }
    let ghost rebuilt = rs_rebuilt(data_shards as nat, parity_shards as nat, slots);
    let mut reconstructed: Vec<u8> = Vec::new();
    let mut i: usize = 0;
    while i < data_shards
        invariant
            i <= data_shards,
            data_shards <= recovery@.len(),
            rebuilt.len() == recovery@.len(),
            forall|j: int|
                0 <= j < recovery@.len() ==> ((#[trigger] recovery@[j]) is Some && recovery@[j]->Some_0@
                    == rebuilt[j]),
            reconstructed@ == joined(rebuilt.subrange(0, i as int)),
        decreases data_shards - i,
    {
        match &recovery[i] {
            Some(shard) => {
                append_bytes(&mut reconstructed, shard.as_slice());
            },
            None => {
                assert(false);
                return Err(
                    "Reconstrucción fallida: fragmento de datos ausente después de proceso".to_owned(),
                );
            },
        }
        assert(rebuilt.subrange(0, i + 1).drop_last() == rebuilt.subrange(0, i as int));
        i = i + 1;
    }
    assert(rebuilt.subrange(0, data_shards as int) == rebuilt.subrange(0, i as int));
    proof {
        assert forall|data: Seq<u8>, d: nat, p: nat|
            #[trigger] genuine_siblings(data, d, p, selected_part@, rows(siblings@))
            implies reconstructed@ == joined(encoded_shards(data, d, p).subrange(0, d as int))
            && header.original_size == data.len() by {
            lemma_genuine_reassembly(data, d, p, selected_part@, rows(siblings@));
            assert(is_codeword(data_shards as nat, parity_shards as nat, encoded_shards(data, d, p)));
        }
    }
    if (reconstructed.len() as u64) < original_size {
        proof {
            assert forall|data: Seq<u8>, d: nat, p: nat|
                #[trigger] genuine_siblings(data, d, p, selected_part@, rows(siblings@))
                implies false by {
                lemma_genuine_reassembly(data, d, p, selected_part@, rows(siblings@));
            }
        }
        return Err(
            "Los datos reconstruidos son más pequeños que el tamaño original especificado en cabecera".to_owned(),
        );
    }
    let ghost whole = reconstructed@;
    reconstructed.truncate(original_size as usize);
    proof {
        assert forall|data: Seq<u8>, d: nat, p: nat|
            #[trigger] genuine_siblings(data, d, p, selected_part@, rows(siblings@))
            implies reconstructed@ == data by {
            lemma_genuine_reassembly(data, d, p, selected_part@, rows(siblings@));
            assert(whole == joined(encoded_shards(data, d, p).subrange(0, d as int)));
        }
    }
    Ok(reconstructed)
}

// ─────────────────────── reconstruction from genuine parts ───────────────────────

/// The indices of the present slots.
pub open spec fn present_indices(s: Seq<Option<Seq<u8>>>) -> Set<int> {
    Set::new(|i: int| 0 <= i < s.len() && s[i] is Some)
}

/// The count of present slots is the size of their index set.
pub proof fn lemma_present_count_card(s: Seq<Option<Seq<u8>>>)
    ensures
        present_indices(s).finite(),
        present_indices(s).len() == present_count(s),
    decreases s.len(),
{
    if s.len() == 0 {
        assert(present_indices(s) =~= Set::empty());
    } else {
        let t = s.drop_last();
        lemma_present_count_card(t);
        if s.last() is Some {
            assert(present_indices(s) =~= present_indices(t).insert(s.len() - 1));
        } else {
            assert(present_indices(s) =~= present_indices(t));
        }
    }
}

/// The indices of a fragmentation whose parts appear among the siblings.
pub open spec fn indices_among(parts: Seq<Seq<u8>>, siblings: Seq<Seq<u8>>) -> Set<int> {
    Set::new(|i: int| 0 <= i < parts.len() && siblings.contains(parts[i]))
}

/// Siblings that reconstruction must turn back into `data`: the selected part and
/// every sibling are parts of one fragmentation of `data` (as `fragment_data` writes
/// them, shards of one length), and the siblings hold at least `data_shards`
/// different ones of them.
pub open spec fn genuine_siblings(
    data: Seq<u8>,
    data_shards: nat,
    parity_shards: nat,
    selected: Seq<u8>,
    siblings: Seq<Seq<u8>>,
) -> bool {
    let parts = fragments(data, data_shards, parity_shards);
    &&& fragmentable(data.len(), data_shards, parity_shards)
    &&& data.len() <= u64::MAX
    &&& all_of_len(parts, 20 + shard_size(data.len(), data_shards))
    &&& parts.contains(selected)
    &&& forall|c: int| 0 <= c < siblings.len() ==> parts.contains(#[trigger] siblings[c])
    &&& indices_among(parts, siblings).len() >= data_shards
}

/// Parts of one fragmentation differ in their index byte.
proof fn lemma_fragment_index(data: Seq<u8>, d: nat, p: nat, i: int)
    requires
        fragmentable(data.len(), d, p),
        0 <= i < d + p,
    ensures
        fragments(data, d, p)[i][8] == i as u8,
        fragments(data, d, p)[i].len() >= 20,
{
    lemma_auto_spec_u64_to_from_le_bytes();
    let h = header_of(i, data.len(), d, p);
    let b = part_bytes(h, encoded_shards(data, d, p)[i]);
    assert(b[8] == h.index);
}

/// The slots that genuine siblings fill: a slot holds the shard of its index exactly
/// when the part of that index is among the siblings.
proof fn lemma_collected_genuine(data: Seq<u8>, d: nat, p: nat, c: Seq<Seq<u8>>)
    requires
        fragmentable(data.len(), d, p),
        data.len() <= u64::MAX,
        forall|k: int| 0 <= k < c.len() ==> fragments(data, d, p).contains(#[trigger] c[k]),
    ensures
        collected(c, d + p) == Seq::new(
            d + p,
            |i: int|
                if c.contains(fragments(data, d, p)[i]) {
                    Some(encoded_shards(data, d, p)[i])
                } else {
                    None
                },
        ),
    decreases c.len(),
{
    let parts = fragments(data, d, p);
    let enc = encoded_shards(data, d, p);
    let target = Seq::new(
        d + p,
        |i: int|
            if c.contains(parts[i]) {
                Some(enc[i])
            } else {
                None
            },
    );
    if c.len() == 0 {
        assert(collected(c, d + p) =~= target);
    } else {
        let pre = c.drop_last();
        assert forall|k: int| 0 <= k < pre.len() implies parts.contains(#[trigger] pre[k]) by {
            assert(pre[k] == c[k]);
        }
        lemma_collected_genuine(data, d, p, pre);
        let x = c.last();
        assert(parts.contains(c[c.len() - 1]));
        let j = choose|j: int| 0 <= j < parts.len() && parts[j] == x;
        lemma_parse_fragment(data, d, p, j);
        lemma_fragment_index(data, d, p, j);
        assert((j as u8) as int == j);
        let prev = collected(pre, d + p);
        assert forall|i: int| 0 <= i < d + p implies (#[trigger] c.contains(parts[i])) == (
        pre.contains(parts[i]) || i == j) by {
            if c.contains(parts[i]) && !pre.contains(parts[i]) {
                let k = choose|k: int| 0 <= k < c.len() && c[k] == parts[i];
                if k < pre.len() {
                    assert(pre[k] == c[k]);
                }
                assert(parts[i] == x);
                lemma_fragment_index(data, d, p, i);
            }
            if pre.contains(parts[i]) {
                let k = choose|k: int| 0 <= k < pre.len() && pre[k] == parts[i];
                assert(c[k] == pre[k]);
            }
            if i == j {
                assert(c[c.len() - 1] == parts[i]);
            }
        }
        assert(collected(c, d + p) =~= target);
    }
}

/// The data shards of a stream, joined, begin with the stream and are no shorter.
proof fn lemma_joined_data_shards(data: Seq<u8>, d: nat, n: nat)
    requires
        data.len() > 0,
        d > 0,
        n <= d,
    ensures
        joined(data_shards_of(data, d).subrange(0, n as int)) == Seq::new(
            n * shard_size(data.len(), d),
            |k: int| if k < data.len() { data[k] } else { 0u8 },
        ),
    decreases n,
{
    let size = shard_size(data.len(), d);
    let ds = data_shards_of(data, d);
    let target = Seq::new(n * size, |k: int| if k < data.len() { data[k] } else { 0u8 });
    if n == 0 {
        assert(ds.subrange(0, 0).len() == 0);
        assert(n * size == 0) by (nonlinear_arith)
            requires
                n == 0,
        ;
        assert(joined(ds.subrange(0, 0)) =~= target);
    } else {
        lemma_joined_data_shards(data, d, (n - 1) as nat);
        assert(ds.subrange(0, n as int).drop_last() == ds.subrange(0, n - 1));
        let prev = joined(ds.subrange(0, n - 1));
        let last = ds[n - 1];
        assert((n - 1) * size + size == n * size) by (nonlinear_arith);
        assert forall|k: int| 0 <= k < n * size implies #[trigger] (prev + last)[k] == target[k] by {
            if k >= (n - 1) * size {
                assert(last[k - (n - 1) * size] == (if (n - 1) * size + (k - (n - 1) * size)
                    < data.len() {
                    data[(n - 1) * size + (k - (n - 1) * size)]
                } else {
                    0u8
                }));
            }
        }
        assert(prev + last =~= target);
    }
}

/// Genuine siblings pass every check of the reconstruction, and the shards they stand
/// for, joined and cut to the stream size, are the stream.
proof fn lemma_genuine_reassembly(
    data: Seq<u8>,
    d: nat,
    p: nat,
    selected: Seq<u8>,
    siblings: Seq<Seq<u8>>,
)
    requires
        genuine_siblings(data, d, p, selected, siblings),
    ensures
        parsed_part(selected) is Ok,
        parsed_part(selected)->Ok_0.0.total_parts == d + p,
        parsed_part(selected)->Ok_0.0.data_shards == d,
        parsed_part(selected)->Ok_0.0.parity_shards == p,
        parsed_part(selected)->Ok_0.0.original_size == data.len(),
        present_count(collected(siblings, d + p)) >= d,
        valid_counts(d, p),
        collected(siblings, d + p).len() == d + p,
        present_uniform(collected(siblings, d + p)),
        is_codeword(d, p, encoded_shards(data, d, p)),
        agrees_with(collected(siblings, d + p), encoded_shards(data, d, p)),
        joined(encoded_shards(data, d, p).subrange(0, d as int)).len() >= data.len(),
        joined(encoded_shards(data, d, p).subrange(0, d as int)).subrange(0, data.len() as int)
            == data,
{
    let parts = fragments(data, d, p);
    let enc = encoded_shards(data, d, p);
    let size = shard_size(data.len(), d);
    let ds = data_shards_of(data, d);
    lemma_shard_size(data.len(), d);
    lemma_auto_spec_u64_to_from_le_bytes();
    // the selected part
    let k = choose|k: int| 0 <= k < parts.len() && parts[k] == selected;
    lemma_parse_fragment(data, d, p, k);
    // every shard has the shard size
    assert forall|i: int| 0 <= i < d + p implies #[trigger] enc[i].len() == size by {
        assert(parts[i].len() == 20 + size);
        assert(parts[i] == part_bytes(header_of(i, data.len(), d, p), enc[i]));
    }
    // the slots
    assert forall|c: int| 0 <= c < siblings.len() implies parts.contains(#[trigger] siblings[c]) by {
    }
    lemma_collected_genuine(data, d, p, siblings);
    let slots = collected(siblings, d + p);
    lemma_present_count_card(slots);
    assert(present_indices(slots) =~= indices_among(parts, siblings));
    assert(enc.subrange(0, d as int) =~= ds);
    assert(enc =~= with_parity(d, p, enc.subrange(0, d as int)));
    assert(all_of_len(enc.subrange(0, d as int), enc[0].len()));
    // the stream
    lemma_joined_data_shards(data, d, d);
    assert(ds.subrange(0, d as int) =~= ds);
    assert(d * size == size * d) by (nonlinear_arith);
    assert(joined(enc.subrange(0, d as int)).subrange(0, data.len() as int) =~= data);
}

/// Parsing a part that fragmentation wrote gives back its header and shard.
pub proof fn lemma_parse_fragment(data: Seq<u8>, data_shards: nat, parity_shards: nat, i: int)
    requires
        fragmentable(data.len(), data_shards, parity_shards),
        data.len() <= u64::MAX,
        0 <= i < data_shards + parity_shards,
    ensures
        parsed_part(fragments(data, data_shards, parity_shards)[i]) == Ok::<
            (PartHeader, Seq<u8>),
            Seq<char>,
        >((header_of(i, data.len(), data_shards, parity_shards), encoded_shards(data, data_shards, parity_shards)[i])),
{
    let h = header_of(i, data.len(), data_shards, parity_shards);
    let shard = encoded_shards(data, data_shards, parity_shards)[i];
    let b = part_bytes(h, shard);
    lemma_auto_spec_u64_to_from_le_bytes();
    assert(b.subrange(0, 8) == part_magic());
    assert(b.subrange(12, 20) == spec_u64_to_le_bytes(h.original_size));
    assert(b.subrange(20, b.len() as int) == shard);
}

} // verus!
