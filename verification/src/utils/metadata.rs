//! Removal of identifying metadata from JPEG and PNG images held in memory.
use vstd::prelude::*;

use crate::utils::bytes::{append_bytes, copy_range};
use crate::utils::text::{ends_with, has_suffix, is_utf8, lowercase, to_lowercase};

verus! {

/// Why a metadata scan stops early.
#[derive(PartialEq, Eq, Structural, Clone, Copy, Debug)]
pub enum ScanFault {
    /// The image does not start with its format signature.
    BadSignature,
    /// A JPEG segment header is cut short, or a PNG chunk type is not UTF-8.
    Corrupt,
    /// A kept JPEG segment or PNG chunk claims more bytes than the image holds,
    /// or a JPEG marker byte lies past the end: the scan would read out of bounds.
    Overrun,
}

/// Prepends `p` to a successful scan result; faults pass through.
pub open spec fn prefixed(p: Seq<u8>, r: Result<Seq<u8>, ScanFault>) -> Result<Seq<u8>, ScanFault> {
    match r {
        Ok(s) => Ok(p + s),
        Err(e) => Err(e),
    }
}

/// Prefixing twice is prefixing with the concatenation.
pub proof fn lemma_prefixed_twice(a: Seq<u8>, b: Seq<u8>, r: Result<Seq<u8>, ScanFault>)
    ensures
        prefixed(a, prefixed(b, r)) == prefixed(a + b, r),
{
    if let Ok(s) = r {
        assert(a + (b + s) == (a + b) + s);
    }
}

/// Prefixing to an empty success gives the prefix itself.
pub proof fn lemma_prefixed_empty(a: Seq<u8>)
    ensures
        prefixed(a, Ok(Seq::empty())) == Ok::<Seq<u8>, ScanFault>(a),
{
    assert(a + Seq::<u8>::empty() == a);
}

/// The scan's progress measure: the bytes left after `cursor`.
pub open spec fn remaining(data: Seq<u8>, cursor: int) -> int {
    if cursor < data.len() {
        data.len() - cursor
    } else {
        0
    }
}

// ──────────────────────────────── JPEG ────────────────────────────────

/// APP1 (EXIF, GPS, XMP), APP13 (Photoshop IPTC) and COM (comments) are dropped.
pub open spec fn is_jpeg_metadata_marker(m: u8) -> bool {
    m == 0xE1 || m == 0xED || m == 0xFE
}

/// Markers that stand alone, without a length field (TEM and RST0..RST7).
pub open spec fn is_standalone_jpeg_marker(m: u8) -> bool {
    m == 0x01 || (0xD0 <= m && m <= 0xD7)
}

/// The kept part of a JPEG stream from `cursor` on, segment by segment.
pub open spec fn jpeg_segments(data: Seq<u8>, cursor: int) -> Result<Seq<u8>, ScanFault>
    decreases remaining(data, cursor),
{
    if cursor < 0 || cursor >= data.len() {
        Ok(Seq::empty())
    } else if data[cursor] != 0xFF {
        // entropy-coded data: kept as it is
        Ok(data.subrange(cursor, data.len() as int))
    } else if cursor + 1 >= data.len() {
        Err(ScanFault::Overrun)
    } else {
        let marker = data[cursor + 1];
        if marker == 0xD9 {
            // end of image
            Ok(seq![0xFFu8, 0xD9u8])
        } else if marker == 0xDA {
            // start of scan: the rest is image data
            Ok(data.subrange(cursor, data.len() as int))
        } else if is_standalone_jpeg_marker(marker) {
            prefixed(seq![0xFFu8, marker], jpeg_segments(data, cursor + 2))
        } else if cursor + 3 >= data.len() {
            Err(ScanFault::Corrupt)
        } else {
            let next = cursor + 2 + (data[cursor + 2] as int) * 256 + (data[cursor + 3] as int);
            if is_jpeg_metadata_marker(marker) {
                jpeg_segments(data, next)
            } else if next > data.len() {
                Err(ScanFault::Overrun)
            } else {
                prefixed(data.subrange(cursor, next), jpeg_segments(data, next))
            }
        }
    }
}

/// A JPEG image without its metadata segments. Inputs under four bytes are kept as they are.
pub open spec fn jpeg_without_metadata(data: Seq<u8>) -> Result<Seq<u8>, ScanFault> {
    if data.len() < 4 {
        Ok(data)
    } else if data[0] != 0xFF || data[1] != 0xD8 {
        Err(ScanFault::BadSignature)
    } else {
        prefixed(seq![0xFFu8, 0xD8u8], jpeg_segments(data, 2))
    }
}

/// Walks a JPEG stream and drops its metadata segments, reporting every fault,
/// the out-of-bounds one included.
pub fn scan_jpeg(data: &[u8]) -> (res: Result<Vec<u8>, ScanFault>)
    requires
        data@.len() + 0x1_0002 <= usize::MAX,
    ensures
        match jpeg_without_metadata(data@) {
            Ok(s) => res matches Ok(v) && v@ == s,
            Err(f) => res == Err::<Vec<u8>, ScanFault>(f),
        },
{
    let len = data.len();
    if len < 4 {
        return Ok(copy_range(data, 0, len));
    }
    if data[0] != 0xFF || data[1] != 0xD8 {
        return Err(ScanFault::BadSignature);
    }
    let mut stripped: Vec<u8> = Vec::new();
    stripped.push(0xFF);
    stripped.push(0xD8);
    let mut cursor: usize = 2;
    assert(stripped@ == seq![0xFFu8, 0xD8u8]);
    while cursor < len
        invariant
            len == data@.len(),
            len + 0x1_0002 <= usize::MAX,
            2 <= cursor <= len,
            jpeg_without_metadata(data@) == prefixed(stripped@, jpeg_segments(data@, cursor as int)),
        decreases len - cursor,
    {
        let ghost before = stripped@;
        if data[cursor] != 0xFF {
            let rest = copy_range(data, cursor, len);
            append_bytes(&mut stripped, rest.as_slice());
            proof {
                lemma_prefixed_empty(stripped@);
                lemma_prefixed_twice(before, rest@, Ok(Seq::empty()));
            }
            return Ok(stripped);
        }
        if cursor + 1 >= len {
            return Err(ScanFault::Overrun);
        }
        let marker = data[cursor + 1];
        if marker == 0xD9 {
            stripped.push(0xFF);
            stripped.push(0xD9);
            assert(stripped@ == before + seq![0xFFu8, 0xD9u8]);
            proof {
                lemma_prefixed_empty(stripped@);
                lemma_prefixed_twice(before, seq![0xFFu8, 0xD9u8], Ok(Seq::empty()));
            }
            return Ok(stripped);
        }
        if marker == 0xDA {
            let rest = copy_range(data, cursor, len);
            append_bytes(&mut stripped, rest.as_slice());
            proof {
                lemma_prefixed_empty(stripped@);
                lemma_prefixed_twice(before, rest@, Ok(Seq::empty()));
            }
            return Ok(stripped);
        }
        if marker == 0x01 || (marker >= 0xD0 && marker <= 0xD7) {
            stripped.push(0xFF);
            stripped.push(marker);
            assert(stripped@ == before + seq![0xFFu8, marker]);
            proof {
                lemma_prefixed_twice(before, seq![0xFFu8, marker], jpeg_segments(data@, cursor + 2));
            }
            cursor = cursor + 2;
            continue;
        }
        if cursor + 3 >= len {
            return Err(ScanFault::Corrupt);
        }
        let segment_len: usize = (data[cursor + 2] as usize) * 256 + (data[cursor + 3] as usize);
        let next: usize = cursor + 2 + segment_len;
        assert(next == cursor + 2 + (data@[cursor + 2] as int) * 256 + (data@[cursor + 3] as int));
        if marker == 0xE1 || marker == 0xED || marker == 0xFE {
            if next >= len {
                proof {
                    lemma_prefixed_empty(stripped@);
                }
                return Ok(stripped);
            }
            cursor = next;
        } else {
            if next > len {
                return Err(ScanFault::Overrun);
            }
            let segment = copy_range(data, cursor, next);
            append_bytes(&mut stripped, segment.as_slice());
            proof {
                lemma_prefixed_twice(before, segment@, jpeg_segments(data@, next as int));
            }
            cursor = next;
        }
    }
    proof {
        lemma_prefixed_empty(stripped@);
    }
    Ok(stripped)
}

/// Removes the APP1 (EXIF), APP13 (Photoshop) and COM (comment) segments of a JPEG image.
pub fn strip_jpeg_metadata(data: &[u8]) -> (res: Result<Vec<u8>, String>)
    requires
        data@.len() + 0x1_0002 <= usize::MAX,
        jpeg_without_metadata(data@) != Err::<Seq<u8>, ScanFault>(ScanFault::Overrun),
    ensures
        match jpeg_without_metadata(data@) {
            Ok(s) => res matches Ok(v) && v@ == s,
            Err(f) => res matches Err(m) && m@ == jpeg_fault_message(f),
        },
{
    match scan_jpeg(data) {
        Ok(v) => Ok(v),
        Err(ScanFault::BadSignature) => Err("Fichero JPEG inválido (sin SOI)".to_owned()),
        Err(_) => Err("Estructura de metadatos JPEG corrupta".to_owned()),
    }
}

/// The message with which a JPEG scan is refused.
pub open spec fn jpeg_fault_message(f: ScanFault) -> Seq<char> {
    if f == ScanFault::BadSignature {
        "Fichero JPEG inválido (sin SOI)"@
    } else {
        "Estructura de metadatos JPEG corrupta"@
    }
}

// ──────────────────────────────── PNG ─────────────────────────────────

/// The eight bytes that open every PNG file.
pub open spec fn png_signature() -> Seq<u8> {
    seq![137u8, 80u8, 78u8, 71u8, 13u8, 10u8, 26u8, 10u8]
}

/// The big-endian 32-bit number at `at`.
pub open spec fn be32(data: Seq<u8>, at: int) -> int {
    (data[at] as int) * 0x100_0000 + (data[at + 1] as int) * 0x1_0000 + (data[at + 2] as int)
        * 0x100 + (data[at + 3] as int)
}

/// eXIf, tEXt, zTXt, iTXt and tIME chunks are dropped.
pub open spec fn is_png_metadata_chunk(t: Seq<u8>) -> bool {
    ||| t == seq![0x65u8, 0x58u8, 0x49u8, 0x66u8]
    ||| t == seq![0x74u8, 0x45u8, 0x58u8, 0x74u8]
    ||| t == seq![0x7Au8, 0x54u8, 0x58u8, 0x74u8]
    ||| t == seq![0x69u8, 0x54u8, 0x58u8, 0x74u8]
    ||| t == seq![0x74u8, 0x49u8, 0x4Du8, 0x45u8]
}

/// The kept chunks of a PNG stream from `cursor` on. Trailing bytes too few to
/// hold a chunk (length, type and CRC: twelve bytes) are dropped.
pub open spec fn png_chunks(data: Seq<u8>, cursor: int) -> Result<Seq<u8>, ScanFault>
    decreases remaining(data, cursor),
{
    if cursor < 0 || cursor + 12 > data.len() {
        Ok(Seq::empty())
    } else if !vstd::utf8::valid_utf8(data.subrange(cursor + 4, cursor + 8)) {
        Err(ScanFault::Corrupt)
    } else {
        let next = cursor + 12 + be32(data, cursor);
        if is_png_metadata_chunk(data.subrange(cursor + 4, cursor + 8)) {
            png_chunks(data, next)
        } else if next > data.len() {
            Err(ScanFault::Overrun)
        } else {
            prefixed(data.subrange(cursor, next), png_chunks(data, next))
        }
    }
}

/// A PNG image without its metadata chunks. Inputs under eight bytes are kept as they are.
pub open spec fn png_without_metadata(data: Seq<u8>) -> Result<Seq<u8>, ScanFault> {
    if data.len() < 8 {
        Ok(data)
    } else if data.subrange(0, 8) != png_signature() {
        Err(ScanFault::BadSignature)
    } else {
        prefixed(png_signature(), png_chunks(data, 8))
    }
}

fn is_png_metadata_type(t: &[u8]) -> (r: bool)
    requires
        t@.len() == 4,
    ensures
        r == is_png_metadata_chunk(t@),
{
    let a = t[0];
    let b = t[1];
    let c = t[2];
    let d = t[3];
    let r = (a == 0x65 && b == 0x58 && c == 0x49 && d == 0x66) || (a == 0x74 && b == 0x45 && c
        == 0x58 && d == 0x74) || (a == 0x7A && b == 0x54 && c == 0x58 && d == 0x74) || (a == 0x69
        && b == 0x54 && c == 0x58 && d == 0x74) || (a == 0x74 && b == 0x49 && c == 0x4D && d
        == 0x45);
    assert(t@ == seq![a, b, c, d]);
    r
}

/// Walks a PNG stream and drops its metadata chunks, reporting every fault,
/// the out-of-bounds one included.
pub fn scan_png(data: &[u8]) -> (res: Result<Vec<u8>, ScanFault>)
    ensures
        match png_without_metadata(data@) {
            Ok(s) => res matches Ok(v) && v@ == s,
            Err(f) => res == Err::<Vec<u8>, ScanFault>(f),
        },
{
    let len = data.len();
    if len < 8 {
        return Ok(copy_range(data, 0, len));
    }
    let head = copy_range(data, 0, 8);
    if !(head[0] == 137 && head[1] == 80 && head[2] == 78 && head[3] == 71 && head[4] == 13
        && head[5] == 10 && head[6] == 26 && head[7] == 10) {
        assert(head@ != png_signature()) by {
            if head@ == png_signature() {
                assert(head@[0] == 137u8 && head@[1] == 80u8 && head@[2] == 78u8 && head@[3]
                    == 71u8 && head@[4] == 13u8 && head@[5] == 10u8 && head@[6] == 26u8
                    && head@[7] == 10u8);
            }
        }
        return Err(ScanFault::BadSignature);
    }
    assert(head@ == png_signature());
    let mut stripped = head;
    let mut cursor: usize = 8;
    while len - cursor >= 12
        invariant
            len == data@.len(),
            8 <= cursor <= len,
            png_without_metadata(data@) == prefixed(stripped@, png_chunks(data@, cursor as int)),
        decreases len - cursor,
    {
        let ghost before = stripped@;
        let chunk_len: u128 = (data[cursor] as u128) * 0x100_0000 + (data[cursor + 1] as u128)
            * 0x1_0000 + (data[cursor + 2] as u128) * 0x100 + (data[cursor + 3] as u128);
        let chunk_type = copy_range(data, cursor + 4, cursor + 8);
        if !is_utf8(chunk_type.as_slice()) {
            return Err(ScanFault::Corrupt);
        }
        let next: u128 = cursor as u128 + 12 + chunk_len;
        assert(next == cursor + 12 + be32(data@, cursor as int));
        if is_png_metadata_type(chunk_type.as_slice()) {
            if next > len as u128 {
                proof {
                    lemma_prefixed_empty(stripped@);
                }
                return Ok(stripped);
            }
            cursor = next as usize;
        } else {
            if next > len as u128 {
                return Err(ScanFault::Overrun);
            }
            let chunk = copy_range(data, cursor, next as usize);
            append_bytes(&mut stripped, chunk.as_slice());
            proof {
                lemma_prefixed_twice(before, chunk@, png_chunks(data@, next as int));
            }
            cursor = next as usize;
        }
    }
    proof {
        lemma_prefixed_empty(stripped@);
    }
    Ok(stripped)
}

/// Removes the tEXt, zTXt, iTXt, eXIf and tIME chunks of a PNG image.
pub fn strip_png_metadata(data: &[u8]) -> (res: Result<Vec<u8>, String>)
    requires
        png_without_metadata(data@) != Err::<Seq<u8>, ScanFault>(ScanFault::Overrun),
    ensures
        match png_without_metadata(data@) {
            Ok(s) => res matches Ok(v) && v@ == s,
            Err(f) => res matches Err(m) && m@ == png_fault_message(f),
        },
{
    match scan_png(data) {
        Ok(v) => Ok(v),
        Err(ScanFault::BadSignature) => Err("Fichero PNG inválido (firma errónea)".to_owned()),
        Err(_) => Err("Chunk PNG inválido".to_owned()),
    }
}

/// The message with which a PNG scan is refused.
pub open spec fn png_fault_message(f: ScanFault) -> Seq<char> {
    if f == ScanFault::BadSignature {
        "Fichero PNG inválido (firma errónea)"@
    } else {
        "Chunk PNG inválido"@
    }
}

// ──────────────────────────── by file name ────────────────────────────

/// A name whose lowercase form ends in `.jpg` or `.jpeg`.
pub open spec fn is_jpeg_name(filename: Seq<char>) -> bool {
    has_suffix(lowercase(filename), ".jpg"@) || has_suffix(lowercase(filename), ".jpeg"@)
}

/// A name whose lowercase form ends in `.png` (and is no JPEG name).
pub open spec fn is_png_name(filename: Seq<char>) -> bool {
    !is_jpeg_name(filename) && has_suffix(lowercase(filename), ".png"@)
}

/// What cleaning does to the bytes of a file with the given name: JPEG and PNG
/// images lose their metadata, anything else is kept as it is.
pub open spec fn scrubbed(data: Seq<u8>, filename: Seq<char>) -> Result<Seq<u8>, ScanFault> {
    if is_jpeg_name(filename) {
        jpeg_without_metadata(data)
    } else if is_png_name(filename) {
        png_without_metadata(data)
    } else {
        Ok(data)
    }
}

/// The message with which cleaning is refused.
pub open spec fn scrub_fault_message(filename: Seq<char>, f: ScanFault) -> Seq<char> {
    if is_jpeg_name(filename) {
        jpeg_fault_message(f)
    } else {
        png_fault_message(f)
    }
}

/// The size limit that keeps the JPEG walk's arithmetic in range.
pub open spec fn scannable(data: Seq<u8>) -> bool {
    data.len() + 0x1_0002 <= usize::MAX
}

/// Whether cleaning these bytes under this name would read past their end.
/// The cleaning functions require that it would not.
pub fn metadata_scan_overruns(data: &[u8], filename: &str) -> (r: bool)
    requires
        scannable(data@),
    ensures
        r == (scrubbed(data@, filename@) == Err::<Seq<u8>, ScanFault>(ScanFault::Overrun)),
{
    let lower = to_lowercase(filename);
    if ends_with(lower.as_str(), ".jpg") || ends_with(lower.as_str(), ".jpeg") {
        match scan_jpeg(data) {
            Err(ScanFault::Overrun) => true,
            _ => false,
        }
    } else if ends_with(lower.as_str(), ".png") {
        match scan_png(data) {
            Err(ScanFault::Overrun) => true,
            _ => false,
        }
    } else {
        false
    }
}

/// Cleans the metadata of an in-memory file by its type (JPEG, PNG), as its name tells.
/// Other files are left untouched; on an error the bytes are left untouched too.
pub fn clean_file_metadata_in_memory(data: &mut Vec<u8>, filename: &str) -> (res: Result<(), String>)
    requires
        scannable(old(data)@),
        scrubbed(old(data)@, filename@) != Err::<Seq<u8>, ScanFault>(ScanFault::Overrun),
    ensures
        match scrubbed(old(data)@, filename@) {
            Ok(s) => res is Ok && final(data)@ == s,
            Err(f) => {
                &&& res matches Err(m) && m@ == scrub_fault_message(filename@, f)
                &&& final(data)@ == old(data)@
            },
        },
{
    let lower = to_lowercase(filename);
    if ends_with(lower.as_str(), ".jpg") || ends_with(lower.as_str(), ".jpeg") {
        let stripped = strip_jpeg_metadata(data.as_slice())?;
        *data = stripped;
    } else if ends_with(lower.as_str(), ".png") {
        let stripped = strip_png_metadata(data.as_slice())?;
        *data = stripped;
    }
    Ok(())
}


// ──────────────────────────── idempotence ────────────────────────────

/// The JPEG walk reads only forward: walking from `k + j` is walking the bytes from
/// `k` on from `j`.
proof fn lemma_jpeg_shift(x: Seq<u8>, k: int, j: int)
    requires
        0 <= k <= x.len(),
        0 <= j,
    ensures
        jpeg_segments(x, k + j) == jpeg_segments(x.subrange(k, x.len() as int), j),
    decreases remaining(x, k + j),
{
    let y = x.subrange(k, x.len() as int);
    let c = k + j;
    if c < x.len() && x[c] == 0xFF && c + 1 < x.len() {
        let marker = x[c + 1];
        assert(y[j] == x[c] && y[j + 1] == marker);
        if marker == 0xD9 || marker == 0xDA {
            assert(y.subrange(j, y.len() as int) =~= x.subrange(c, x.len() as int));
        } else if is_standalone_jpeg_marker(marker) {
            lemma_jpeg_shift(x, k, j + 2);
        } else if c + 3 < x.len() {
            assert(y[j + 2] == x[c + 2] && y[j + 3] == x[c + 3]);
            let len: int = (x[c + 2] as int) * 256 + (x[c + 3] as int);
            lemma_jpeg_shift(x, k, j + 2 + len);
            if c + 2 + len <= x.len() {
                assert(y.subrange(j, j + 2 + len) =~= x.subrange(c, c + 2 + len));
            }
        }
    } else if c < x.len() && x[c] != 0xFF {
        assert(y[j] == x[c]);
        assert(y.subrange(j, y.len() as int) =~= x.subrange(c, x.len() as int));
    } else if c < x.len() {
        assert(y[j] == x[c]);
    }
}

/// What the JPEG walk keeps, walked again, is kept whole.
proof fn lemma_jpeg_segments_stable(data: Seq<u8>, c: int)
    requires
        0 <= c,
        jpeg_segments(data, c) is Ok,
    ensures
        jpeg_segments(jpeg_segments(data, c)->Ok_0, 0) == jpeg_segments(data, c),
        jpeg_segments(data, c)->Ok_0.len() <= remaining(data, c),
    decreases remaining(data, c),
{
    let t = jpeg_segments(data, c)->Ok_0;
    if c >= data.len() {
    } else if data[c] != 0xFF {
        lemma_jpeg_shift(data, c, 0);
        assert(data.subrange(c, data.len() as int).subrange(0, (data.len() - c) as int)
            =~= data.subrange(c, data.len() as int));
    } else {
        let marker = data[c + 1];
        if marker == 0xD9 {
            assert(t =~= seq![0xFFu8, 0xD9u8]);
        } else if marker == 0xDA {
            lemma_jpeg_shift(data, c, 0);
        } else if is_standalone_jpeg_marker(marker) {
            let t2 = jpeg_segments(data, c + 2)->Ok_0;
            lemma_jpeg_segments_stable(data, c + 2);
            assert(t =~= seq![0xFFu8, marker] + t2);
            lemma_jpeg_shift(t, 2, 0);
            assert(t.subrange(2, t.len() as int) =~= t2);
        } else {
            let len: int = (data[c + 2] as int) * 256 + (data[c + 3] as int);
            let next = c + 2 + len;
            lemma_jpeg_segments_stable(data, next);
            if !is_jpeg_metadata_marker(marker) {
                let t2 = jpeg_segments(data, next)->Ok_0;
                let piece = data.subrange(c, next);
                assert(t == piece + t2);
                if len >= 2 {
                    assert(t[0] == 0xFF && t[1] == marker && t[2] == data[c + 2] && t[3] == data[c + 3]);
                    lemma_jpeg_shift(t, next - c, 0);
                    assert(t.subrange(next - c, t.len() as int) =~= t2);
                    assert(t.subrange(0, next - c) =~= piece);
                } else {
                    assert(data[c + 2] == 0);
                    if len == 0 {
                        assert(t2 =~= data.subrange(next, data.len() as int));
                    } else {
                        assert(data[c + 3] == 1);
                        assert(t2 =~= data.subrange(next, data.len() as int));
                    }
                    assert(t =~= data.subrange(c, data.len() as int));
                    lemma_jpeg_shift(data, c, 0);
                }
            }
        }
    }
}

/// The PNG walk reads only forward.
proof fn lemma_png_shift(x: Seq<u8>, k: int, j: int)
    requires
        0 <= k <= x.len(),
        0 <= j,
    ensures
        png_chunks(x, k + j) == png_chunks(x.subrange(k, x.len() as int), j),
    decreases remaining(x, k + j),
{
    let y = x.subrange(k, x.len() as int);
    let c = k + j;
    if c + 12 <= x.len() {
        assert(y.subrange(j + 4, j + 8) =~= x.subrange(c + 4, c + 8));
        assert(be32(y, j) == be32(x, c));
        let next = c + 12 + be32(x, c);
        lemma_png_shift(x, k, j + 12 + be32(x, c));
        if next <= x.len() {
            assert(y.subrange(j, next - k) =~= x.subrange(c, next));
        }
    }
}

/// What the PNG walk keeps, walked again, is kept whole.
proof fn lemma_png_chunks_stable(data: Seq<u8>, c: int)
    requires
        0 <= c,
        png_chunks(data, c) is Ok,
    ensures
        png_chunks(png_chunks(data, c)->Ok_0, 0) == png_chunks(data, c),
        png_chunks(data, c)->Ok_0.len() <= remaining(data, c),
    decreases remaining(data, c),
{
    if c + 12 <= data.len() {
        let t = png_chunks(data, c)->Ok_0;
        let next = c + 12 + be32(data, c);
        lemma_png_chunks_stable(data, next);
        if !is_png_metadata_chunk(data.subrange(c + 4, c + 8)) {
            let t2 = png_chunks(data, next)->Ok_0;
            let piece = data.subrange(c, next);
            assert(t == piece + t2);
            assert(t.subrange(4, 8) =~= data.subrange(c + 4, c + 8));
            assert(be32(t, 0) == be32(data, c));
            lemma_png_shift(t, next - c, 0);
            assert(t.subrange(next - c, t.len() as int) =~= t2);
            assert(t.subrange(0, next - c) =~= piece);
        }
    }
}

/// Stripping a JPEG's metadata is idempotent and never lengthens the image: what
/// it keeps, stripped again, comes back unchanged.
pub proof fn law_jpeg_scrubbing_idempotent(data: Seq<u8>)
    requires
        jpeg_without_metadata(data) is Ok,
    ensures
        jpeg_without_metadata(jpeg_without_metadata(data)->Ok_0) == jpeg_without_metadata(data),
        jpeg_without_metadata(data)->Ok_0.len() <= data.len(),
{
    let s = jpeg_without_metadata(data)->Ok_0;
    if data.len() >= 4 {
        let t = jpeg_segments(data, 2)->Ok_0;
        lemma_jpeg_segments_stable(data, 2);
        assert(s == seq![0xFFu8, 0xD8u8] + t);
        if s.len() >= 4 {
            lemma_jpeg_shift(s, 2, 0);
            assert(s.subrange(2, s.len() as int) =~= t);
        }
    }
}

/// Stripping a PNG's metadata is idempotent and never lengthens the image.
pub proof fn law_png_scrubbing_idempotent(data: Seq<u8>)
    requires
        png_without_metadata(data) is Ok,
    ensures
        png_without_metadata(png_without_metadata(data)->Ok_0) == png_without_metadata(data),
        png_without_metadata(data)->Ok_0.len() <= data.len(),
{
    let s = png_without_metadata(data)->Ok_0;
    if data.len() >= 8 {
        let t = png_chunks(data, 8)->Ok_0;
        lemma_png_chunks_stable(data, 8);
        assert(s == png_signature() + t);
        assert(s.subrange(0, 8) =~= png_signature());
        lemma_png_shift(s, 8, 0);
        assert(s.subrange(8, s.len() as int) =~= t);
    }
}

/// Scrubbing is idempotent: what cleaning keeps of a file, cleaned again under the
/// same name, comes back unchanged.
pub proof fn law_scrubbing_idempotent(data: Seq<u8>, filename: Seq<char>)
    requires
        scrubbed(data, filename) is Ok,
    ensures
        scrubbed(scrubbed(data, filename)->Ok_0, filename) == scrubbed(data, filename),
{
    if is_jpeg_name(filename) {
        law_jpeg_scrubbing_idempotent(data);
    } else if is_png_name(filename) {
        law_png_scrubbing_idempotent(data);
    }
}


// ──────────────────────────── what is dropped ────────────────────────────

/// A JPEG segment: marker, two-byte big-endian length (which counts itself), payload.
pub open spec fn jpeg_segment(marker: u8, payload: Seq<u8>) -> Seq<u8> {
    let len = payload.len() + 2;
    seq![0xFFu8, marker, (len / 256) as u8, (len % 256) as u8] + payload
}

proof fn lemma_jpeg_first_segment(marker: u8, payload: Seq<u8>, rest: Seq<u8>)
    requires
        payload.len() + 2 <= 0xFFFF,
    ensures
        ({
            let seg = jpeg_segment(marker, payload);
            let data = seq![0xFFu8, 0xD8u8] + seg + rest;
            &&& data.len() >= 4
            &&& data[0] == 0xFF && data[1] == 0xD8 && data[2] == 0xFF && data[3] == marker
            &&& 2 + 3 < data.len()
            &&& 2 + 2 + (data[4] as int) * 256 + (data[5] as int) == 2int + seg.len()
            &&& data.subrange(2int + seg.len(), data.len() as int) == rest
            &&& data.subrange(2, 2int + seg.len()) == seg
        }),
{
    let len = payload.len() + 2;
    let seg = jpeg_segment(marker, payload);
    let data = seq![0xFFu8, 0xD8u8] + seg + rest;
    assert(data[4] == (len / 256) as u8 && data[5] == (len % 256) as u8);
    assert(((len / 256) as u8) as int == len / 256);
    assert(((len % 256) as u8) as int == len % 256);
    assert(data.subrange(2int + seg.len(), data.len() as int) =~= rest);
    assert(data.subrange(2, 2int + seg.len()) =~= seg);
}

/// APP1 (0xE1: EXIF, GPS, XMP), APP13 (0xED: Photoshop IPTC) and COM (0xFE) segments
/// leave no trace: a JPEG with such a segment right after its start marker is
/// stripped exactly as the JPEG without it.
pub proof fn law_jpeg_metadata_segment_dropped(marker: u8, payload: Seq<u8>, rest: Seq<u8>)
    requires
        marker == 0xE1 || marker == 0xED || marker == 0xFE,
        payload.len() + 2 <= 0xFFFF,
        rest.len() >= 2,
    ensures
        jpeg_without_metadata(seq![0xFFu8, 0xD8u8] + jpeg_segment(marker, payload) + rest)
            == jpeg_without_metadata(seq![0xFFu8, 0xD8u8] + rest),
{
    let seg = jpeg_segment(marker, payload);
    let data = seq![0xFFu8, 0xD8u8] + seg + rest;
    let short = seq![0xFFu8, 0xD8u8] + rest;
    lemma_jpeg_first_segment(marker, payload, rest);
    lemma_jpeg_shift(data, 2int + seg.len(), 0);
    lemma_jpeg_shift(short, 2, 0);
    assert(short.subrange(2, short.len() as int) =~= rest);
}

/// Any other segment with a length (not a standalone marker, SOS or EOI) is kept
/// byte for byte in front of what the rest of the image gives.
pub proof fn law_jpeg_other_segment_kept(marker: u8, payload: Seq<u8>, rest: Seq<u8>)
    requires
        marker != 0xE1 && marker != 0xED && marker != 0xFE,
        marker != 0xD9 && marker != 0xDA && marker != 0x01 && !(0xD0 <= marker <= 0xD7),
        payload.len() + 2 <= 0xFFFF,
        rest.len() >= 2,
    ensures
        match jpeg_without_metadata(seq![0xFFu8, 0xD8u8] + rest) {
            Ok(s) => jpeg_without_metadata(seq![0xFFu8, 0xD8u8] + jpeg_segment(marker, payload) + rest)
                == Ok::<Seq<u8>, ScanFault>(
                seq![0xFFu8, 0xD8u8] + jpeg_segment(marker, payload) + s.subrange(2, s.len() as int),
            ),
            Err(e) => jpeg_without_metadata(seq![0xFFu8, 0xD8u8] + jpeg_segment(marker, payload) + rest)
                == Err::<Seq<u8>, ScanFault>(e),
        },
{
    let seg = jpeg_segment(marker, payload);
    let data = seq![0xFFu8, 0xD8u8] + seg + rest;
    let short = seq![0xFFu8, 0xD8u8] + rest;
    lemma_jpeg_first_segment(marker, payload, rest);
    lemma_jpeg_shift(data, 2int + seg.len(), 0);
    lemma_jpeg_shift(short, 2, 0);
    assert(short.subrange(2, short.len() as int) =~= rest);
    if let Ok(t) = jpeg_segments(rest, 0) {
        let s = seq![0xFFu8, 0xD8u8] + t;
        assert(s.subrange(2, s.len() as int) =~= t);
        assert(seq![0xFFu8, 0xD8u8] + (seg + t) =~= seq![0xFFu8, 0xD8u8] + seg + t);
    }
}

/// A PNG chunk: four length bytes (big-endian), four type bytes, data, four CRC bytes.
pub open spec fn png_chunk(length: Seq<u8>, kind: Seq<u8>, data: Seq<u8>, crc: Seq<u8>) -> Seq<u8> {
    length + kind + data + crc
}

/// The chunk types that scrubbing drops: eXIf, tEXt, zTXt, iTXt and tIME.
pub open spec fn is_dropped_png_type(kind: Seq<u8>) -> bool {
    ||| kind == seq![0x65u8, 0x58u8, 0x49u8, 0x66u8]
    ||| kind == seq![0x74u8, 0x45u8, 0x58u8, 0x74u8]
    ||| kind == seq![0x7Au8, 0x54u8, 0x58u8, 0x74u8]
    ||| kind == seq![0x69u8, 0x54u8, 0x58u8, 0x74u8]
    ||| kind == seq![0x74u8, 0x49u8, 0x4Du8, 0x45u8]
}

proof fn lemma_png_first_chunk(length: Seq<u8>, kind: Seq<u8>, data: Seq<u8>, crc: Seq<u8>, rest: Seq<u8>)
    requires
        length.len() == 4,
        kind.len() == 4,
        crc.len() == 4,
        data.len() == (length[0] as int) * 0x100_0000 + (length[1] as int) * 0x1_0000
            + (length[2] as int) * 0x100 + (length[3] as int),
    ensures
        ({
            let sig = seq![137u8, 80u8, 78u8, 71u8, 13u8, 10u8, 26u8, 10u8];
            let chunk = png_chunk(length, kind, data, crc);
            let file = sig + chunk + rest;
            &&& file.len() >= 8 && file.subrange(0, 8) == png_signature()
            &&& 8 + 12 <= file.len()
            &&& file.subrange(12, 16) == kind
            &&& 8 + 12 + be32(file, 8) == 8int + chunk.len()
            &&& file.subrange(8int + chunk.len(), file.len() as int) == rest
            &&& file.subrange(8, 8int + chunk.len()) == chunk
        }),
{
    let sig = seq![137u8, 80u8, 78u8, 71u8, 13u8, 10u8, 26u8, 10u8];
    let chunk = png_chunk(length, kind, data, crc);
    let file = sig + chunk + rest;
    assert(file.subrange(0, 8) =~= png_signature());
    assert(file.subrange(12, 16) =~= kind);
    assert(file[8] == length[0] && file[9] == length[1] && file[10] == length[2] && file[11] == length[3]);
    assert(file.subrange(8int + chunk.len(), file.len() as int) =~= rest);
    assert(file.subrange(8, 8int + chunk.len()) =~= chunk);
}

/// eXIf, tEXt, zTXt, iTXt and tIME chunks leave no trace: a PNG with such a chunk
/// right after its signature is stripped exactly as the PNG without it.
pub proof fn law_png_metadata_chunk_dropped(
    length: Seq<u8>,
    kind: Seq<u8>,
    data: Seq<u8>,
    crc: Seq<u8>,
    rest: Seq<u8>,
)
    requires
        is_dropped_png_type(kind),
        length.len() == 4,
        crc.len() == 4,
        data.len() == (length[0] as int) * 0x100_0000 + (length[1] as int) * 0x1_0000
            + (length[2] as int) * 0x100 + (length[3] as int),
    ensures
        png_without_metadata(
            seq![137u8, 80u8, 78u8, 71u8, 13u8, 10u8, 26u8, 10u8] + png_chunk(length, kind, data, crc)
                + rest,
        ) == png_without_metadata(seq![137u8, 80u8, 78u8, 71u8, 13u8, 10u8, 26u8, 10u8] + rest),
{
    let sig = seq![137u8, 80u8, 78u8, 71u8, 13u8, 10u8, 26u8, 10u8];
    let chunk = png_chunk(length, kind, data, crc);
    let file = sig + chunk + rest;
    let short = sig + rest;
    lemma_png_first_chunk(length, kind, data, crc, rest);
    assert(vstd::utf8::valid_utf8(kind)) by {
        lemma_dropped_types_utf8(kind);
    }
    lemma_png_shift(file, 8int + chunk.len(), 0);
    lemma_png_shift(short, 8, 0);
    assert(short.subrange(8, short.len() as int) =~= rest);
    assert(short.subrange(0, 8) =~= png_signature());
}

proof fn lemma_dropped_types_utf8(kind: Seq<u8>)
    requires
        is_dropped_png_type(kind),
    ensures
        vstd::utf8::valid_utf8(kind),
{
    lemma_ascii_utf8(kind);
}

/// Bytes under 0x80 are valid UTF-8.
proof fn lemma_ascii_utf8(b: Seq<u8>)
    requires
        forall|i: int| 0 <= i < b.len() ==> #[trigger] b[i] < 0x80,
    ensures
        vstd::utf8::valid_utf8(b),
    decreases b.len(),
{
    if b.len() > 0 {
        let rest = b.subrange(1, b.len() as int);
        assert(vstd::utf8::pop_first_scalar(b) =~= rest);
        lemma_ascii_utf8(rest);
    }
}

/// Any other chunk whose type is valid UTF-8 is kept byte for byte in front of what
/// the rest of the image gives.
pub proof fn law_png_other_chunk_kept(
    length: Seq<u8>,
    kind: Seq<u8>,
    data: Seq<u8>,
    crc: Seq<u8>,
    rest: Seq<u8>,
)
    requires
        !is_dropped_png_type(kind),
        kind.len() == 4,
        vstd::utf8::valid_utf8(kind),
        length.len() == 4,
        crc.len() == 4,
        data.len() == (length[0] as int) * 0x100_0000 + (length[1] as int) * 0x1_0000
            + (length[2] as int) * 0x100 + (length[3] as int),
    ensures
        ({
            let sig = seq![137u8, 80u8, 78u8, 71u8, 13u8, 10u8, 26u8, 10u8];
            match png_without_metadata(sig + rest) {
                Ok(s) => png_without_metadata(sig + png_chunk(length, kind, data, crc) + rest)
                    == Ok::<Seq<u8>, ScanFault>(
                    sig + png_chunk(length, kind, data, crc) + s.subrange(8, s.len() as int),
                ),
                Err(e) => png_without_metadata(sig + png_chunk(length, kind, data, crc) + rest)
                    == Err::<Seq<u8>, ScanFault>(e),
            }
        }),
{
    let sig = seq![137u8, 80u8, 78u8, 71u8, 13u8, 10u8, 26u8, 10u8];
    let chunk = png_chunk(length, kind, data, crc);
    let file = sig + chunk + rest;
    let short = sig + rest;
    lemma_png_first_chunk(length, kind, data, crc, rest);
    assert(!is_png_metadata_chunk(file.subrange(12, 16)));
    lemma_png_shift(file, 8int + chunk.len(), 0);
    lemma_png_shift(short, 8, 0);
    assert(short.subrange(8, short.len() as int) =~= rest);
    assert(short.subrange(0, 8) =~= png_signature());
    if let Ok(t) = png_chunks(rest, 0) {
        let s = sig + t;
        assert(s.subrange(8, s.len() as int) =~= t);
        assert(png_signature() + (chunk + t) =~= sig + chunk + t);
    }
}


/// The end-of-image marker (FF D9) ends the image: what follows is dropped. The
/// start-of-scan marker (FF DA) starts the compressed image data, kept whole to the end.
pub proof fn law_jpeg_end_and_scan(rest: Seq<u8>)
    ensures
        jpeg_without_metadata(seq![0xFFu8, 0xD8u8, 0xFFu8, 0xD9u8] + rest) == Ok::<Seq<u8>, ScanFault>(
            seq![0xFFu8, 0xD8u8, 0xFFu8, 0xD9u8],
        ),
        jpeg_without_metadata(seq![0xFFu8, 0xD8u8, 0xFFu8, 0xDAu8] + rest) == Ok::<Seq<u8>, ScanFault>(
            seq![0xFFu8, 0xD8u8, 0xFFu8, 0xDAu8] + rest,
        ),
{
    let e = seq![0xFFu8, 0xD8u8, 0xFFu8, 0xD9u8] + rest;
    let d = seq![0xFFu8, 0xD8u8, 0xFFu8, 0xDAu8] + rest;
    assert(e[2] == 0xFF && e[3] == 0xD9);
    assert(d[2] == 0xFF && d[3] == 0xDA);
    assert(d.subrange(2, d.len() as int) =~= seq![0xFFu8, 0xDAu8] + rest);
    assert(seq![0xFFu8, 0xD8u8] + seq![0xFFu8, 0xD9u8] =~= seq![0xFFu8, 0xD8u8, 0xFFu8, 0xD9u8]);
    assert(seq![0xFFu8, 0xD8u8] + (seq![0xFFu8, 0xDAu8] + rest) =~= d);
}

/// A JPEG that does not start with FF D8 (and has four bytes or more) is refused, and
/// so is a PNG of eight bytes or more without the PNG signature.
pub proof fn law_bad_signatures(data: Seq<u8>)
    ensures
        data.len() >= 4 && !(data[0] == 0xFF && data[1] == 0xD8) ==> jpeg_without_metadata(data)
            == Err::<Seq<u8>, ScanFault>(ScanFault::BadSignature),
        data.len() >= 8 && data.subrange(0, 8) != seq![137u8, 80u8, 78u8, 71u8, 13u8, 10u8, 26u8, 10u8]
            ==> png_without_metadata(data) == Err::<Seq<u8>, ScanFault>(ScanFault::BadSignature),
        data.len() < 4 ==> jpeg_without_metadata(data) == Ok::<Seq<u8>, ScanFault>(data),
        data.len() < 8 ==> png_without_metadata(data) == Ok::<Seq<u8>, ScanFault>(data),
{
}

} // verus!
