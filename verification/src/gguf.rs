use crate::bytes;
use crate::bytes::{copy_range, read_le32, read_le64};
use crate::text;
use crate::text::str_contains;
use crate::text_wrappers;
use crate::text_wrappers::string_from_utf8_lossy;
use vstd::prelude::*;

verus! {

/// Bytes of the fixed GGUF header: magic, version, tensor count, KV count.
pub const GGUF_HEADER_LEN: usize = 24;

/// How many key-value pairs the validator reads.
pub const GGUF_KVS_READ: u64 = 10;

/// The longest key that the validator accepts.
pub const GGUF_MAX_KEY_LEN: u64 = 1024;

/// The longest string value that the validator accepts.
pub const GGUF_MAX_STRING_LEN: u64 = 1000000;

/// Why a file failed validation.
#[derive(Debug, Clone, Copy, PartialEq, Eq, Structural)]
pub enum GgufError {
    /// The file is empty.
    Empty,
    /// The file ends before a field that had to be read.
    Truncated,
    /// The file does not start with `GGUF`.
    BadMagic,
    /// The version is not 1, 2 or 3.
    UnsupportedVersion(u32),
    /// The header announces no tensors.
    ZeroTensors,
    /// The header announces no key-value pairs.
    ZeroKvs,
    /// A key is longer than the validator accepts.
    KeyTooLong(u64),
    /// A string value is longer than the validator accepts.
    ValueTooLarge(u64),
    /// A value type that the validator does not know.
    UnknownType(u32),
}

/// Whether the first bytes spell `GGUF`.
pub open spec fn has_gguf_magic(d: Seq<u8>) -> bool {
    d.len() >= 4 && d[0] == 0x47 && d[1] == 0x47 && d[2] == 0x55 && d[3] == 0x46
}

/// Bytes that a fixed-size value of type `t` takes, for the types that the
/// validator skips by size.
pub open spec fn fixed_value_len(t: u32) -> Option<nat> {
    if t == 0 || t == 1 || t == 6 {
        Some(1)
    } else if t == 2 || t == 3 {
        Some(4)
    } else if t == 4 || t == 5 {
        Some(8)
    } else {
        None
    }
}

/// Keys whose string value the validator shows.
pub open spec fn key_is_shown(key: Seq<char>) -> bool {
    text::contains_seq(key, "name"@) || text::contains_seq(key, "type"@) || text::contains_seq(
        key,
        "architecture"@,
    )
}

/// One key-value pair as the validator reports it: the key, the value type,
/// and the string value where it is shown.
pub struct GgufEntry {
    pub key: String,
    pub value_type: u32,
    pub shown_value: Option<String>,
}

/// A reported pair, taken by its characters.
pub open spec fn entry_view(e: GgufEntry) -> (Seq<char>, u32, Option<Seq<char>>) {
    (
        e.key@,
        e.value_type,
        match e.shown_value {
            Some(v) => Some(v@),
            None => None,
        },
    )
}

/// Reads `n` key-value pairs from `pos` on.
pub open spec fn kv_walk(d: Seq<u8>, pos: nat, n: nat) -> Result<
    Seq<(Seq<char>, u32, Option<Seq<char>>)>,
    GgufError,
>
    decreases n,
{
    if n == 0 {
        Ok(Seq::empty())
    } else if pos + 8 > d.len() {
        Err(GgufError::Truncated)
    } else {
        let klen = bytes::le64_at(d, pos as int);
        if klen > GGUF_MAX_KEY_LEN {
            Err(GgufError::KeyTooLong(klen))
        } else if pos + 8 + klen + 4 > d.len() {
            Err(GgufError::Truncated)
        } else {
            let key = text_wrappers::utf8_lossy(d.subrange((pos + 8) as int, (pos + 8 + klen) as int));
            let vt = bytes::le32_at(d, pos + 8 + klen);
            let at: nat = (pos + 12 + klen) as nat;
            let step: Result<(nat, Option<Seq<char>>), GgufError> = match fixed_value_len(vt) {
                Some(size) => if at + size > d.len() {
                    Err(GgufError::Truncated)
                } else {
                    Ok(((at + size) as nat, None))
                },
                None => if vt == 7 || vt == 8 {
                    if at + 8 > d.len() {
                        Err(GgufError::Truncated)
                    } else {
                        let vlen = bytes::le64_at(d, at as int);
                        if vlen > GGUF_MAX_STRING_LEN {
                            Err(GgufError::ValueTooLarge(vlen))
                        } else if at + 8 + vlen > d.len() {
                            Err(GgufError::Truncated)
                        } else {
                            let shown = if key_is_shown(key) {
                                Some(text_wrappers::utf8_lossy(d.subrange((at + 8) as int, (at + 8 + vlen) as int)))
                            } else {
                                None
                            };
                            Ok(((at + 8 + vlen) as nat, shown))
                        }
                    }
                } else {
                    Err(GgufError::UnknownType(vt))
                },
            };
            match step {
                Err(e) => Err(e),
                Ok((next, shown)) => match kv_walk(d, next, (n - 1) as nat) {
                    Err(e) => Err(e),
                    Ok(rest) => Ok(seq![(key, vt, shown)] + rest),
                },
            }
        }
    }
}

/// The string value of a pair is shown exactly when its key mentions
/// `name`, `type` or `architecture`: when the walk from `pos` succeeds and
/// the first pair there holds a string (value type 7 or 8), its reported
/// entry carries the key, the type and, for such a key, the value's text
/// (for any other key, no value).
pub proof fn lemma_string_value_shown(d: Seq<u8>, pos: nat, n: nat)
    requires
        n >= 1,
        kv_walk(d, pos, n) is Ok,
        ({
            let klen = bytes::le64_at(d, pos as int);
            let vt = bytes::le32_at(d, pos + 8 + klen);
            vt == 7 || vt == 8
        }),
    ensures
        ({
            let klen = bytes::le64_at(d, pos as int);
            let key = text_wrappers::utf8_lossy(d.subrange((pos + 8) as int, (pos + 8 + klen) as int));
            let vt = bytes::le32_at(d, pos + 8 + klen);
            let at = pos + 12 + klen;
            let vlen = bytes::le64_at(d, at);
            let es = kv_walk(d, pos, n)->Ok_0;
            &&& es.len() >= 1
            &&& es[0].0 == key
            &&& es[0].1 == vt
            &&& (text::contains_seq(key, "name"@) || text::contains_seq(key, "type"@)
                || text::contains_seq(key, "architecture"@)) ==> es[0].2 == Some(
                text_wrappers::utf8_lossy(d.subrange(at + 8, at + 8 + vlen)),
            )
            &&& !(text::contains_seq(key, "name"@) || text::contains_seq(key, "type"@)
                || text::contains_seq(key, "architecture"@)) ==> es[0].2 is None
        }),
{
    let klen = bytes::le64_at(d, pos as int);
    let vt = bytes::le32_at(d, pos + 8 + klen);
    assert(fixed_value_len(vt) is None);
    let at: nat = (pos + 12 + klen) as nat;
    let vlen = bytes::le64_at(d, at as int);
    let key = text_wrappers::utf8_lossy(d.subrange((pos + 8) as int, (pos + 8 + klen) as int));
    let shown = if key_is_shown(key) {
        Some(text_wrappers::utf8_lossy(d.subrange((at + 8) as int, (at + 8 + vlen) as int)))
    } else {
        None
    };
    let rest = kv_walk(d, (at + 8 + vlen) as nat, (n - 1) as nat);
    assert(rest is Ok);
    assert(kv_walk(d, pos, n) == Ok::<Seq<(Seq<char>, u32, Option<Seq<char>>)>, GgufError>(
        seq![(key, vt, shown)] + rest->Ok_0,
    ));
    assert((seq![(key, vt, shown)] + rest->Ok_0)[0] == (key, vt, shown));
}

/// What the validator reports of a well-formed file.
pub struct GgufSummary {
    pub version: u32,
    pub tensor_count: u64,
    pub kv_count: u64,
    /// The version is one of 1, 2 and 3; other versions are reported with a
    /// warning but not refused.
    pub usual_version: bool,
    /// The first pairs, up to `GGUF_KVS_READ` of them.
    pub entries: Vec<GgufEntry>,
    /// Pairs that were not read.
    pub more_kvs: u64,
}

/// The pairs that the validator reads, fewer when the file has fewer.
pub open spec fn kvs_read(kv_count: u64) -> nat {
    if kv_count < GGUF_KVS_READ {
        kv_count as nat
    } else {
        GGUF_KVS_READ as nat
    }
}

/// The validator's verdict on the bytes of a GGUF file: the header checks,
/// then the first pairs read one by one.
pub open spec fn gguf_file_spec(d: Seq<u8>) -> Result<
    (u32, u64, u64, Seq<(Seq<char>, u32, Option<Seq<char>>)>),
    GgufError,
> {
    if d.len() < 4 {
        Err(GgufError::Truncated)
    } else if !has_gguf_magic(d) {
        Err(GgufError::BadMagic)
    } else if d.len() < GGUF_HEADER_LEN {
        Err(GgufError::Truncated)
    } else {
        let version = bytes::le32_at(d, 4);
        let tensors = bytes::le64_at(d, 8);
        let kvs = bytes::le64_at(d, 16);
        if tensors == 0 {
            Err(GgufError::ZeroTensors)
        } else if kvs == 0 {
            Err(GgufError::ZeroKvs)
        } else {
            match kv_walk(d, GGUF_HEADER_LEN as nat, kvs_read(kvs)) {
                Err(e) => Err(e),
                Ok(es) => Ok((version, tensors, kvs, es)),
            }
        }
    }
}

fn magic_ok(d: &[u8]) -> (r: bool)
    requires
        d@.len() >= 4,
    ensures
        r == has_gguf_magic(d@),
{
    d[0] == 0x47 && d[1] == 0x47 && d[2] == 0x55 && d[3] == 0x46
}

fn key_is_shown_exec(key: &str) -> (r: bool)
    ensures
        r == key_is_shown(key@),
{
    str_contains(key, "name") || str_contains(key, "type") || str_contains(key, "architecture")
}

/// Reads one key-value pair at `pos`: the pair and the position after it.
fn read_kv(d: &[u8], pos: usize) -> (r: Result<(GgufEntry, usize), GgufError>)
    requires
        pos <= d@.len(),
    ensures
        match r {
            Ok((e, next)) => next <= d@.len() && forall|m: nat|
                #![trigger kv_walk(d@, pos as nat, m + 1)]
                kv_walk(d@, pos as nat, m + 1) == match kv_walk(d@, next as nat, m) {
                    Err(e2) => Err(e2),
                    Ok(rest) => Ok(seq![entry_view(e)] + rest),
                },
            Err(err) => forall|m: nat| #[trigger]
                kv_walk(d@, pos as nat, m + 1) == Err::<
                    Seq<(Seq<char>, u32, Option<Seq<char>>)>,
                    GgufError,
                >(err),
        },
{
    let n = d.len();
    if n - pos < 8 {
        return Err(GgufError::Truncated);
    }
    let klen = read_le64(d, pos);
    if klen > GGUF_MAX_KEY_LEN {
        return Err(GgufError::KeyTooLong(klen));
    }
    let kl = klen as usize;
    if n - pos - 8 < kl + 4 {
        return Err(GgufError::Truncated);
    }
    let key_bytes = copy_range(d, pos + 8, pos + 8 + kl);
    let key = string_from_utf8_lossy(key_bytes.as_slice());
    let vt = read_le32(d, pos + 8 + kl);
    let at = pos + 12 + kl;
    let size: usize = if vt == 0 || vt == 1 || vt == 6 {
        1
    } else if vt == 2 || vt == 3 {
        4
    } else if vt == 4 || vt == 5 {
        8
    } else {
        0
    };
    if size > 0 {
        if n - at < size {
            return Err(GgufError::Truncated);
        }
        return Ok((GgufEntry { key, value_type: vt, shown_value: None }, at + size));
    }
    if vt == 7 || vt == 8 {
        if n - at < 8 {
            return Err(GgufError::Truncated);
        }
        let vlen = read_le64(d, at);
        if vlen > GGUF_MAX_STRING_LEN {
            return Err(GgufError::ValueTooLarge(vlen));
        }
        let vl = vlen as usize;
        if n - at - 8 < vl {
            return Err(GgufError::Truncated);
        }
        let shown = if key_is_shown_exec(key.as_str()) {
            let value_bytes = copy_range(d, at + 8, at + 8 + vl);
            Some(string_from_utf8_lossy(value_bytes.as_slice()))
        } else {
            None
        };
        return Ok((GgufEntry { key, value_type: vt, shown_value: shown }, at + 8 + vl));
    }
    Err(GgufError::UnknownType(vt))
}

/// Validates the bytes of a GGUF model file: the magic, non-zero tensor and
/// key-value counts, and the first key-value pairs, whose keys and value
/// sizes must be within bounds and whose value types must be known. The
/// bytes may stop after what the validator reads.
pub fn validate_gguf_file(d: &[u8]) -> (r: Result<GgufSummary, GgufError>)
    ensures
        match r {
            Ok(s) => gguf_file_spec(d@) == Ok::<
                (u32, u64, u64, Seq<(Seq<char>, u32, Option<Seq<char>>)>),
                GgufError,
            >((s.version, s.tensor_count, s.kv_count, s.entries@.map_values(|e| entry_view(e))))
                && s.usual_version == (1 <= s.version <= 3) && s.more_kvs == s.kv_count - kvs_read(
                s.kv_count,
            ),
            Err(e) => gguf_file_spec(d@) == Err::<
                (u32, u64, u64, Seq<(Seq<char>, u32, Option<Seq<char>>)>),
                GgufError,
            >(e),
        },
{
    let n = d.len();
    if n < 4 {
        return Err(GgufError::Truncated);
    }
    if !magic_ok(d) {
        return Err(GgufError::BadMagic);
    }
    if n < GGUF_HEADER_LEN {
        return Err(GgufError::Truncated);
    }
    let version = read_le32(d, 4);
    let tensor_count = read_le64(d, 8);
    let kv_count = read_le64(d, 16);
    if tensor_count == 0 {
        return Err(GgufError::ZeroTensors);
    }
    if kv_count == 0 {
        return Err(GgufError::ZeroKvs);
    }
    let to_read: u64 = if kv_count < GGUF_KVS_READ {
        kv_count
    } else {
        GGUF_KVS_READ
    };
    let mut entries: Vec<GgufEntry> = Vec::new();
    let mut pos: usize = GGUF_HEADER_LEN;
    let mut i: u64 = 0;
    while i < to_read
        invariant
            n == d@.len(),
            pos <= n,
            i <= to_read,
            to_read == kvs_read(kv_count),
            n >= GGUF_HEADER_LEN,
            has_gguf_magic(d@),
            tensor_count == bytes::le64_at(d@, 8),
            kv_count == bytes::le64_at(d@, 16),
            tensor_count != 0,
            kv_count != 0,
            kv_walk(d@, GGUF_HEADER_LEN as nat, to_read as nat) == match kv_walk(
                d@,
                pos as nat,
                (to_read - i) as nat,
            ) {
                Err(e) => Err(e),
                Ok(rest) => Ok(entries@.map_values(|e| entry_view(e)) + rest),
            },
        decreases to_read - i,
    {
        let ghost m: nat = (to_read - i - 1) as nat;
        match read_kv(d, pos) {
            Err(e) => {
                assert(kv_walk(d@, pos as nat, m + 1) == Err::<
                    Seq<(Seq<char>, u32, Option<Seq<char>>)>,
                    GgufError,
                >(e));
                assert((to_read - i) as nat == m + 1);
                return Err(e);
            },
            Ok((entry, next)) => {
                assert(kv_walk(d@, pos as nat, m + 1) == match kv_walk(d@, next as nat, m) {
                    Err(e2) => Err(e2),
                    Ok(rest) => Ok(seq![entry_view(entry)] + rest),
                });
                let ghost before = entries@;
                entries.push(entry);
                assert(entries@.map_values(|e| entry_view(e)) =~= before.map_values(
                    |e| entry_view(e),
                ).push(entry_view(entry)));
                proof {
                    match kv_walk(d@, next as nat, m) {
                        Err(e2) => {},
                        Ok(rest) => {
                            assert(before.map_values(|e| entry_view(e)) + (seq![entry_view(entry)]
                                + rest) =~= entries@.map_values(|e| entry_view(e)) + rest);
                        },
                    }
                }
                pos = next;
                i = i + 1;
            },
        }
    }
    assert(entries@.map_values(|e| entry_view(e)) + Seq::empty() =~= entries@.map_values(
        |e| entry_view(e),
    ));
    Ok(
        GgufSummary {
            version,
            tensor_count,
            kv_count,
            usual_version: 1 <= version && version <= 3,
            entries,
            more_kvs: kv_count - to_read,
        },
    )
}

/// The stricter header check that runs after a download: magic, a version
/// from 1 to 3, and non-zero tensor and key-value counts, each checked as
/// soon as it is read. The version and counts on success.
pub open spec fn gguf_format_spec(d: Seq<u8>) -> Result<(u32, u64, u64), GgufError> {
    if d.len() < 4 {
        Err(GgufError::Truncated)
    } else if !has_gguf_magic(d) {
        Err(GgufError::BadMagic)
    } else if d.len() < 8 {
        Err(GgufError::Truncated)
    } else if bytes::le32_at(d, 4) < 1 || bytes::le32_at(d, 4) > 3 {
        Err(GgufError::UnsupportedVersion(bytes::le32_at(d, 4)))
    } else if d.len() < 16 {
        Err(GgufError::Truncated)
    } else if bytes::le64_at(d, 8) == 0 {
        Err(GgufError::ZeroTensors)
    } else if d.len() < 24 {
        Err(GgufError::Truncated)
    } else if bytes::le64_at(d, 16) == 0 {
        Err(GgufError::ZeroKvs)
    } else {
        Ok((bytes::le32_at(d, 4), bytes::le64_at(d, 8), bytes::le64_at(d, 16)))
    }
}

/// Checks the header of a downloaded GGUF file.
pub fn validate_gguf_format(d: &[u8]) -> (r: Result<(u32, u64, u64), GgufError>)
    ensures
        r == gguf_format_spec(d@),
{
    let n = d.len();
    if n < 4 {
        return Err(GgufError::Truncated);
    }
    if !magic_ok(d) {
        return Err(GgufError::BadMagic);
    }
    if n < 8 {
        return Err(GgufError::Truncated);
    }
    let version = read_le32(d, 4);
    if version < 1 || version > 3 {
        return Err(GgufError::UnsupportedVersion(version));
    }
    if n < 16 {
        return Err(GgufError::Truncated);
    }
    let tensor_count = read_le64(d, 8);
    if tensor_count == 0 {
        return Err(GgufError::ZeroTensors);
    }
    if n < 24 {
        return Err(GgufError::Truncated);
    }
    let kv_count = read_le64(d, 16);
    if kv_count == 0 {
        return Err(GgufError::ZeroKvs);
    }
    Ok((version, tensor_count, kv_count))
}

/// What the first bytes of a downloaded file say it is.
#[derive(Debug, Clone, Copy, PartialEq, Eq, Structural)]
pub enum FileFormat {
    /// A GGUF model whose header passed the check.
    Gguf(u32, u64, u64),
    /// A ZIP archive, as safetensors bundles are.
    Zip,
    /// A PNG image.
    Png,
    /// An HTML or XML page.
    Html,
    /// A PDF document.
    Pdf,
    /// Anything else, with its first four bytes.
    Unknown(u8, u8, u8, u8),
}

/// Whether `d` starts with the bytes of `p`.
pub open spec fn starts_with(d: Seq<u8>, p: Seq<u8>) -> bool {
    p.len() <= d.len() && d.take(p.len() as int) == p
}

/// The kind of file that the first eight bytes show, for all but GGUF.
pub open spec fn sniff_spec(h: Seq<u8>) -> FileFormat {
    if starts_with(h, seq![0x50u8, 0x4b]) {
        FileFormat::Zip
    } else if starts_with(h, seq![0x89u8, 0x50, 0x4e, 0x47]) {
        FileFormat::Png
    } else if starts_with(h, seq![0x3cu8, 0x3f, 0x78, 0x6d, 0x6c]) || starts_with(
        h,
        seq![0x3cu8, 0x68, 0x74, 0x6d, 0x6c],
    ) {
        FileFormat::Html
    } else if starts_with(h, seq![0x25u8, 0x50, 0x44, 0x46]) {
        FileFormat::Pdf
    } else {
        FileFormat::Unknown(h[0], h[1], h[2], h[3])
    }
}

/// The verdict on a downloaded file: empty, too short for its eight-byte
/// header, a GGUF model whose header is then checked, or another kind.
pub open spec fn file_format_spec(d: Seq<u8>) -> Result<FileFormat, GgufError> {
    if d.len() == 0 {
        Err(GgufError::Empty)
    } else if d.len() < 8 {
        Err(GgufError::Truncated)
    } else if has_gguf_magic(d) {
        match gguf_format_spec(d) {
            Ok((v, t, k)) => Ok(FileFormat::Gguf(v, t, k)),
            Err(e) => Err(e),
        }
    } else {
        Ok(sniff_spec(d.take(8)))
    }
}

fn prefix_is(d: &[u8], p: &[u8]) -> (r: bool)
    requires
        p@.len() <= d@.len(),
    ensures
        r == (d@.take(p@.len() as int) == p@),
{
    let mut i: usize = 0;
    while i < p.len()
        invariant
            p@.len() <= d@.len(),
            i <= p@.len(),
            forall|j: int| 0 <= j < i ==> d@[j] == p@[j],
        decreases p@.len() - i,
    {
        if d[i] != p[i] {
            assert(d@.take(p@.len() as int)[i as int] != p@[i as int]);
            return false;
        }
        i = i + 1;
    }
    assert(d@.take(p@.len() as int) =~= p@);
    true
}

/// Tells what kind of file a download produced, and checks the header when
/// it is a GGUF model.
pub fn validate_file_format(d: &[u8]) -> (r: Result<FileFormat, GgufError>)
    ensures
        r == file_format_spec(d@),
{
    let n = d.len();
    if n == 0 {
        return Err(GgufError::Empty);
    }
    if n < 8 {
        return Err(GgufError::Truncated);
    }
    if magic_ok(d) {
        return match validate_gguf_format(d) {
            Ok((v, t, k)) => Ok(FileFormat::Gguf(v, t, k)),
            Err(e) => Err(e),
        };
    }
    let h = copy_range(d, 0, 8);
    let ghost hv = h@;
    assert(hv =~= d@.take(8));
    let zip: [u8; 2] = [0x50, 0x4b];
    let png: [u8; 4] = [0x89, 0x50, 0x4e, 0x47];
    let xml: [u8; 5] = [0x3c, 0x3f, 0x78, 0x6d, 0x6c];
    let html: [u8; 5] = [0x3c, 0x68, 0x74, 0x6d, 0x6c];
    let pdf: [u8; 4] = [0x25, 0x50, 0x44, 0x46];
    assert(zip@ =~= seq![0x50u8, 0x4b]);
    assert(png@ =~= seq![0x89u8, 0x50, 0x4e, 0x47]);
    assert(xml@ =~= seq![0x3cu8, 0x3f, 0x78, 0x6d, 0x6c]);
    assert(html@ =~= seq![0x3cu8, 0x68, 0x74, 0x6d, 0x6c]);
    assert(pdf@ =~= seq![0x25u8, 0x50, 0x44, 0x46]);
    if prefix_is(h.as_slice(), zip.as_slice()) {
        Ok(FileFormat::Zip)
    } else if prefix_is(h.as_slice(), png.as_slice()) {
        Ok(FileFormat::Png)
    } else if prefix_is(h.as_slice(), xml.as_slice()) || prefix_is(h.as_slice(), html.as_slice()) {
        Ok(FileFormat::Html)
    } else if prefix_is(h.as_slice(), pdf.as_slice()) {
        Ok(FileFormat::Pdf)
    } else {
        Ok(FileFormat::Unknown(h[0], h[1], h[2], h[3]))
    }
}

/// A downloaded file of at least eight bytes that is not GGUF is named by
/// its first bytes: `PK` a zip archive, `\x89PNG` a PNG image, `<?xml` or
/// `<html` an HTML page, `%PDF` a PDF; anything else is unknown and
/// reported with its first four bytes.
pub proof fn lemma_sniffed_formats(d: Seq<u8>)
    requires
        d.len() >= 8,
        !has_gguf_magic(d),
    ensures
        d[0] == 0x50 && d[1] == 0x4b ==> file_format_spec(d) == Ok::<FileFormat, GgufError>(
            FileFormat::Zip,
        ),
        !(d[0] == 0x50 && d[1] == 0x4b) && d[0] == 0x89 && d[1] == 0x50 && d[2] == 0x4e && d[3] == 0x47
            ==> file_format_spec(d) == Ok::<FileFormat, GgufError>(FileFormat::Png),
        d[0] == 0x3c && ((d[1] == 0x3f && d[2] == 0x78 && d[3] == 0x6d && d[4] == 0x6c) || (d[1]
            == 0x68 && d[2] == 0x74 && d[3] == 0x6d && d[4] == 0x6c)) ==> file_format_spec(d)
            == Ok::<FileFormat, GgufError>(FileFormat::Html),
        d[0] == 0x25 && d[1] == 0x50 && d[2] == 0x44 && d[3] == 0x46 ==> file_format_spec(d)
            == Ok::<FileFormat, GgufError>(FileFormat::Pdf),
        !(d[0] == 0x50 && d[1] == 0x4b) && !(d[0] == 0x89 && d[1] == 0x50 && d[2] == 0x4e && d[3]
            == 0x47) && !(d[0] == 0x3c && ((d[1] == 0x3f && d[2] == 0x78 && d[3] == 0x6d && d[4]
            == 0x6c) || (d[1] == 0x68 && d[2] == 0x74 && d[3] == 0x6d && d[4] == 0x6c))) && !(d[0]
            == 0x25 && d[1] == 0x50 && d[2] == 0x44 && d[3] == 0x46) ==> file_format_spec(d)
            == Ok::<FileFormat, GgufError>(FileFormat::Unknown(d[0], d[1], d[2], d[3])),
{
    let h = d.take(8);
    assert(h.take(2) =~= seq![h[0], h[1]]);
    assert(h.take(4) =~= seq![h[0], h[1], h[2], h[3]]);
    assert(h.take(5) =~= seq![h[0], h[1], h[2], h[3], h[4]]);
}

} // verus!
