//! The names of the files the encryption writes and the decryption reads: the
//! encrypted file, its fragments, and the numbered name of a restored file whose
//! name is taken.
use vstd::prelude::*;
use vstd::string::StringSliceAdditionalSpecFns;

use crate::crypto::primitives::random_bytes;
use crate::utils::hexcode::{encode_hex, hex_lower};
use crate::utils::text::{
    concat_str, decimal, has_byte_prefix, last_index_of, last_occurrence, occurs_at,
    starts_with_bytes, u64_decimal,
};

verus! {

/// ".part" as bytes: the marker of a fragment's file name.
pub open spec fn part_marker() -> Seq<u8> {
    seq![0x2eu8, 0x70, 0x61, 0x72, 0x74]
}

fn part_marker_bytes() -> (r: [u8; 5])
    ensures
        r@ == part_marker(),
{
    let r: [u8; 5] = [0x2e, 0x70, 0x61, 0x72, 0x74];
    assert(r@ =~= part_marker());
    r
}

/// The name of the encrypted file: sixteen random bytes in hexadecimal when the name
/// is to be hidden, else the original name, each followed by ".qarq".
pub fn encrypted_file_name(filename: &str, obfuscate: bool) -> (r: String)
    ensures
        obfuscate ==> exists|b: Seq<u8>| b.len() == 16 && r@ == hex_lower(b) + ".qarq"@,
        !obfuscate ==> r@ == filename@ + ".qarq"@,
{
    if obfuscate {
        let rand = random_bytes(16);
        let hidden = encode_hex(rand.as_slice());
        let r = concat_str(hidden.as_str(), ".qarq");
        assert(rand@.len() == 16 && r@ == hex_lower(rand@) + ".qarq"@);
        r
    } else {
        concat_str(filename, ".qarq")
    }
}

/// The file name of the fragment at `index` (counted from zero; names count from one).
pub fn part_file_name(output_name: &str, index: u64) -> (r: String)
    requires
        index < u64::MAX,
    ensures
        r@ == output_name@ + ".part"@ + decimal((index + 1) as nat),
{
    let marked = concat_str(output_name, ".part");
    let number = u64_decimal(index + 1);
    concat_str(marked.as_str(), number.as_str())
}

/// The path reported for a fragmented output: its first fragment and the split.
pub fn fragment_summary(output_path: &str, data_shards: u64, parity_shards: u64) -> (r: String)
    ensures
        r@ == output_path@ + ".part1 (fragmentado: "@ + decimal(data_shards as nat) + " datos, "@
            + decimal(parity_shards as nat) + " paridad)"@,
{
    let a = concat_str(output_path, ".part1 (fragmentado: ");
    let d = u64_decimal(data_shards);
    let b = concat_str(a.as_str(), d.as_str());
    let c = concat_str(b.as_str(), " datos, ");
    let p = u64_decimal(parity_shards);
    let e = concat_str(c.as_str(), p.as_str());
    concat_str(e.as_str(), " paridad)")
}

/// Whether a file name names a fragment: ".part" occurs in it.
pub fn names_fragment(name: &str) -> (r: bool)
    ensures
        r == exists|j: int| occurs_at(name.spec_bytes(), part_marker(), j),
{
    let marker = part_marker_bytes();
    let found = last_occurrence(name.as_bytes(), marker.as_slice());
    found.is_some()
}

/// The series name of a fragment: its file name up to the last ".part".
pub open spec fn series_base(name: Seq<u8>) -> Seq<u8> {
    match last_index_of(name, part_marker()) {
        Some(i) => name.subrange(0, i),
        None => name,
    }
}

/// Whether a file found beside the selected fragment belongs to its series: its
/// name opens with the series name and holds ".part".
pub fn same_fragment_series(selected_name: &str, name: &str) -> (r: bool)
    ensures
        r == (has_byte_prefix(name.spec_bytes(), series_base(selected_name.spec_bytes()))
            && exists|j: int| occurs_at(name.spec_bytes(), part_marker(), j)),
{
    let marker = part_marker_bytes();
    let selected = selected_name.as_bytes();
    let base_len: usize = match last_occurrence(selected, marker.as_slice()) {
        Some(i) => i,
        None => selected.len(),
    };
    let base = crate::utils::bytes::copy_range(selected, 0, base_len);
    assert(base@ == series_base(selected_name.spec_bytes())) by {
        if base_len == selected@.len() {
            assert(selected@.subrange(0, base_len as int) =~= selected@);
        }
    }
    let candidate = name.as_bytes();
    starts_with_bytes(candidate, base.as_slice()) && last_occurrence(candidate, marker.as_slice()).is_some()
}

/// The name under which a restored file is written when its own name is taken:
/// the stem, "_(", the counter, ")", then the extension after a dot when there is one.
pub fn numbered_file_name(stem: &str, extension: &str, counter: u64) -> (r: String)
    ensures
        r@ == stem@ + "_("@ + decimal(counter as nat) + ")"@ + (if extension@.len() == 0 {
            Seq::<char>::empty()
        } else {
            "."@ + extension@
        }),
{
    let a = concat_str(stem, "_(");
    let n = u64_decimal(counter);
    let b = concat_str(a.as_str(), n.as_str());
    let c = concat_str(b.as_str(), ")");
    if extension.is_empty() {
        assert(c@ + Seq::<char>::empty() =~= c@);
        c
    } else {
        let d = concat_str(c.as_str(), ".");
        let r = concat_str(d.as_str(), extension);
        assert(r@ =~= c@ + ("."@ + extension@));
        r
    }
}

} // verus!
