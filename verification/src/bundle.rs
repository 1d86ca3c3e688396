//! The offline bundle: its compression, the choice between the downloaded and the
//! embedded bundle, the checks of an update, and the assembly of a new bundle from what
//! the collection of specs found.
//!
//! The bundle's bytes are its postcard encoding compressed with zstd; the encoding itself
//! is left to the caller.

use vstd::prelude::*;
use crate::gateway::{decimal, decimal_chars, digit_char};
use crate::json::{jobject, members_view, lemma_object_members, Json, JsonNumber, JsonNumberV, JsonV};
use crate::text::{chars_of, string_from_chars};
use crate::types::{BundleMetadata, CURRENT_SCHEMA_VERSION};
use std::collections::hash_map::DefaultHasher;
use std::hash::Hasher;
use vstd::std_specs::hash::DefaultHasherAdditionalSpecFns;

verus! {

// ---------------------------------------------------------------------------
// Compression
// ---------------------------------------------------------------------------

/// Named result of `zstd::encode_all` on `data` at `level` (`None` when it fails).
pub uninterp spec fn zstd_encoded(data: Seq<u8>, level: i32) -> Option<Seq<u8>>;

/// Named result of `zstd::decode_all` on `data` (`None` when it fails).
pub uninterp spec fn zstd_decoded(data: Seq<u8>) -> Option<Seq<u8>>;

/// Trusted: `zstd::encode_all` compresses `data` at `level`, or fails; either way a
/// function of `data` and `level`. What it produces, `zstd::decode_all` gives `data` back
/// from (zstd is lossless).
#[verifier::external_body]
fn zstd_encode(data: &[u8], level: i32) -> (r: Option<Vec<u8>>)
    ensures
        match r {
            Some(c) => zstd_encoded(data@, level) == Some(c@),
            None => zstd_encoded(data@, level) is None,
        },
        r matches Some(c) ==> zstd_decoded(c@) == Some(data@),
{
    zstd::encode_all(data, level).ok()
}

/// Trusted: `zstd::decode_all` decompresses all frames of `data`, or fails; either way a
/// function of `data`.
#[verifier::external_body]
fn zstd_decode(data: &[u8]) -> (r: Option<Vec<u8>>)
    ensures
        match r {
            Some(d) => zstd_decoded(data@) == Some(d@),
            None => zstd_decoded(data@) is None,
        },
{
    zstd::decode_all(data).ok()
}

/// Why bundle bytes could not be produced or read.
#[derive(Debug, Clone, Copy, PartialEq, Eq, Structural)]
pub enum BundleError {
    /// zstd could not compress the encoding.
    Compression,
    /// The bytes are not zstd data.
    Decompression,
}

/// Compress a bundle's encoding at `level`; decompressing the result gives the encoding
/// back. An error exactly when zstd cannot compress it.
pub fn compress_bundle_bytes(encoded: &[u8], level: i32) -> (r: Result<Vec<u8>, BundleError>)
    ensures
        match zstd_encoded(encoded@, level) {
            Some(c) => r matches Ok(v) && v@ == c && zstd_decoded(c) == Some(encoded@),
            None => r == Err::<Vec<u8>, BundleError>(BundleError::Compression),
        },
{
    match zstd_encode(encoded, level) {
        Some(c) => Ok(c),
        None => Err(BundleError::Compression),
    }
}

/// Decompress bundle bytes into the bundle's encoding.
pub fn decompress_bundle_bytes(compressed: &[u8]) -> (r: Result<Vec<u8>, BundleError>)
    ensures
        match zstd_decoded(compressed@) {
            Some(d) => r matches Ok(v) && v@ == d,
            None => r == Err::<Vec<u8>, BundleError>(BundleError::Decompression),
        },
{
    match zstd_decode(compressed) {
        Some(d) => Ok(d),
        None => Err(BundleError::Decompression),
    }
}

// ---------------------------------------------------------------------------
// Checksum
// ---------------------------------------------------------------------------

/// Named result of `Hash::hash` of a text into a `DefaultHasher`: the writes the hasher
/// holds after it, from those it held before (`writes`) and the text `s`.
pub uninterp spec fn str_hash_writes(writes: Seq<Seq<u8>>, s: Seq<char>) -> Seq<Seq<u8>>;

/// Trusted: `std::hash::Hash::hash` of the `str` `input` into `state` (std's `impl Hash for
/// str`). It only feeds `state` bytes made from the text, so what `state` holds after it is a
/// function of what it held before and of the text; which bytes those are is left unsaid.
#[verifier::external_body]
fn hash_text(input: &str, state: &mut DefaultHasher)
    ensures
        final(state)@ == str_hash_writes(old(state)@, input@),
{
    std::hash::Hash::hash(input, state);
}

/// What `md5_hash` gives for the text `s`: `finish` of a new `DefaultHasher` into which
/// the text was hashed.
pub open spec fn text_hash(s: Seq<char>) -> u64 {
    DefaultHasher::spec_finish(str_hash_writes(Seq::<Seq<u8>>::empty(), s))
}

/// A simple hash of a text (not cryptographic; it tells bundle versions apart): the text
/// hashed into a new `DefaultHasher`, then `finish`.
fn md5_hash(input: &str) -> (r: u64)
    ensures
        r == text_hash(input@),
{
    let mut hasher = DefaultHasher::new();
    hash_text(input, &mut hasher);
    hasher.finish()
}

pub open spec fn hex_digit_char(d: nat) -> char {
    if d < 10 {
        digit_char(d)
    } else if d == 10 {
        'a'
    } else if d == 11 {
        'b'
    } else if d == 12 {
        'c'
    } else if d == 13 {
        'd'
    } else if d == 14 {
        'e'
    } else {
        'f'
    }
}

/// The lowercase hexadecimal digits of `n` (`{:x}`).
pub open spec fn hex(n: nat) -> Seq<char>
    decreases n,
{
    if n < 16 {
        seq![hex_digit_char(n)]
    } else {
        hex(n / 16).push(hex_digit_char(n % 16))
    }
}

fn hex_digit(d: u64) -> (r: char)
    requires
        d < 16,
    ensures
        r == hex_digit_char(d as nat),
{
    if d < 10 {
        let v = decimal_chars(d);
        v[0]
    } else if d == 10 {
        'a'
    } else if d == 11 {
        'b'
    } else if d == 12 {
        'c'
    } else if d == 13 {
        'd'
    } else if d == 14 {
        'e'
    } else {
        'f'
    }
}

fn hex_chars(n: u64) -> (r: Vec<char>)
    ensures
        r@ == hex(n as nat),
    decreases n,
{
    if n < 16 {
        vec![hex_digit(n)]
    } else {
        let mut v = hex_chars(n / 16);
        v.push(hex_digit(n % 16));
        v
    }
}

/// What the checksum hashes: the number of catalog entries and of specs, joined by `-`.
pub open spec fn checksum_input(api_count: nat, spec_count: nat) -> Seq<char> {
    decimal(api_count) + "-"@ + decimal(spec_count)
}

/// The bundle's checksum (for telling versions apart, not for security): the hash of
/// `<api_count>-<spec_count>` in lowercase hexadecimal.
pub fn bundle_checksum(api_count: usize, spec_count: usize) -> (r: String)
    ensures
        r@ == hex(text_hash(checksum_input(api_count as nat, spec_count as nat)) as nat),
{
    let mut input = decimal_chars(api_count as u64);
    input.append(&mut chars_of("-"));
    input.append(&mut decimal_chars(spec_count as u64));
    let text = string_from_chars(input.as_slice());
    proof {
        reveal_strlit("-");
        assert(text@ =~= checksum_input(api_count as nat, spec_count as nat));
    }
    let h = md5_hash(text.as_str());
    string_from_chars(hex_chars(h).as_slice())
}

// ---------------------------------------------------------------------------
// Which bundle to use
// ---------------------------------------------------------------------------

/// Where the bundle in use comes from.
#[derive(Debug, Clone, Copy, PartialEq, Eq, Structural)]
pub enum BundleSource {
    /// The downloaded bundle in the configuration directory.
    Override,
    /// The bundle built into the program.
    Embedded,
}

/// The lines that explain why a downloaded bundle was not used.
pub open spec fn fallback_notice(decoded: bool) -> Seq<Seq<char>> {
    seq![
        if decoded {
            "외부 번들의 스키마 버전이 다릅니다. 내장 번들을 사용합니다."@
        } else {
            "외부 번들이 현재 버전과 호환되지 않습니다. 내장 번들을 사용합니다."@
        },
        "최신 번들을 받으려면: korea-cli update"@,
    ]
}

/// Choose the bundle: `downloaded` is `None` without a downloaded bundle, `Some(None)` when
/// it could not be read, and `Some(Some(v))` when it was read with schema version `v`. A
/// downloaded bundle of the current schema wins; otherwise the embedded bundle is used,
/// with a notice when a downloaded one was set aside.
pub fn choose_bundle(downloaded: Option<Option<u32>>) -> (r: (BundleSource, Vec<String>))
    ensures
        match downloaded {
            Some(Some(v)) => if v == CURRENT_SCHEMA_VERSION {
                r.0 == BundleSource::Override && r.1@.len() == 0
            } else {
                r.0 == BundleSource::Embedded && crate::text::string_views(r.1@) == fallback_notice(true)
            },
            Some(None) => r.0 == BundleSource::Embedded && crate::text::string_views(r.1@) == fallback_notice(false),
            None => r.0 == BundleSource::Embedded && r.1@.len() == 0,
        },
{
    let hint = "최신 번들을 받으려면: korea-cli update".to_owned();
    match downloaded {
        Some(Some(v)) => {
            if v == CURRENT_SCHEMA_VERSION {
                (BundleSource::Override, Vec::new())
            } else {
                let lines = vec!["외부 번들의 스키마 버전이 다릅니다. 내장 번들을 사용합니다.".to_owned(), hint];
                assert(crate::text::string_views(lines@) =~= fallback_notice(true));
                (BundleSource::Embedded, lines)
            }
        },
        Some(None) => {
            let lines = vec!["외부 번들이 현재 버전과 호환되지 않습니다. 내장 번들을 사용합니다.".to_owned(), hint];
            assert(crate::text::string_views(lines@) =~= fallback_notice(false));
            (BundleSource::Embedded, lines)
        },
        None => (BundleSource::Embedded, Vec::new()),
    }
}

// ---------------------------------------------------------------------------
// Update
// ---------------------------------------------------------------------------

fn concat_all(parts: Vec<Vec<char>>) -> (r: String)
    ensures
        r@ == parts@.map_values(|p: Vec<char>| p@).fold_left(Seq::<char>::empty(), |acc: Seq<char>, x: Seq<char>| acc + x),
{
    let ghost pv = parts@.map_values(|p: Vec<char>| p@);
    let mut out: Vec<char> = Vec::new();
    let mut i: usize = 0;
    assert(pv.take(0) =~= Seq::<Seq<char>>::empty());
    while i < parts.len()
        invariant
            i <= parts@.len(),
            pv == parts@.map_values(|p: Vec<char>| p@),
            out@ == pv.take(i as int).fold_left(Seq::<char>::empty(), |acc: Seq<char>, x: Seq<char>| acc + x),
        decreases parts@.len() - i,
    {
        let mut p = parts[i].clone();
        assert(pv.take(i + 1).drop_last() =~= pv.take(i as int));
        out.append(&mut p);
        i = i + 1;
    }
    assert(pv.take(parts@.len() as int) =~= pv);
    string_from_chars(out.as_slice())
}

/// The explanation of a schema mismatch: a newer bundle needs a newer program; an older
/// one means no newer release exists yet.
pub open spec fn mismatch_message(remote: u32) -> Seq<char> {
    if remote > CURRENT_SCHEMA_VERSION {
        "새 번들(v"@ + decimal(remote as nat) + ")은 최신 CLI가 필요합니다. `cargo install korea-cli`로 업데이트하세요 (현재 CLI: v"@
            + decimal(CURRENT_SCHEMA_VERSION as nat) + ")"@
    } else {
        "구버전 번들(v"@ + decimal(remote as nat) + ")입니다. 최신 Release가 아직 생성되지 않았습니다 (현재 CLI: v"@ + decimal(
            CURRENT_SCHEMA_VERSION as nat,
        ) + ")"@
    }
}

/// The report of a downloaded bundle of another schema version.
pub open spec fn mismatch_value(remote: u32) -> JsonV {
    JsonV::Object(
        seq![
            ("success"@, JsonV::Bool(false)),
            ("error"@, JsonV::Str("SCHEMA_MISMATCH"@)),
            ("message"@, JsonV::Str(mismatch_message(remote))),
            ("remote_schema_version"@, JsonV::Number(JsonNumberV::Unsigned(remote as u64))),
            ("local_schema_version"@, JsonV::Number(JsonNumberV::Unsigned(CURRENT_SCHEMA_VERSION as u64))),
        ],
    )
}

fn text_of(s: &str) -> (r: Vec<char>)
    ensures
        r@ == s@,
{
    chars_of(s)
}

/// Check a downloaded bundle's schema version: `None` when it is the current one, else the
/// report to print (and the bundle is not installed).
pub fn check_schema(remote: u32) -> (r: Option<Json>)
    ensures
        remote == CURRENT_SCHEMA_VERSION ==> r is None,
        remote != CURRENT_SCHEMA_VERSION ==> (r matches Some(j) && j@ == mismatch_value(remote)),
{
    if remote == CURRENT_SCHEMA_VERSION {
        return None;
    }
    let parts = if remote > CURRENT_SCHEMA_VERSION {
        vec![
            text_of("새 번들(v"),
            decimal_chars(remote as u64),
            text_of(")은 최신 CLI가 필요합니다. `cargo install korea-cli`로 업데이트하세요 (현재 CLI: v"),
            decimal_chars(CURRENT_SCHEMA_VERSION as u64),
            text_of(")"),
        ]
    } else {
        vec![
            text_of("구버전 번들(v"),
            decimal_chars(remote as u64),
            text_of(")입니다. 최신 Release가 아직 생성되지 않았습니다 (현재 CLI: v"),
            decimal_chars(CURRENT_SCHEMA_VERSION as u64),
            text_of(")"),
        ]
    };
    let ghost pv = parts@.map_values(|p: Vec<char>| p@);
    let message = concat_all(parts);
    proof {
        reveal_with_fuel(Seq::fold_left, 6);
        assert(pv.len() == 5);
        assert(message@ == (((pv[0] + pv[1]) + pv[2]) + pv[3]) + pv[4]) by {
            assert(pv.drop_last().drop_last().drop_last().drop_last().drop_last() =~= Seq::<Seq<char>>::empty());
        }
        assert(message@ =~= mismatch_message(remote));
    }
    let m = vec![
        ("success".to_owned(), Json::Bool(false)),
        ("error".to_owned(), Json::Str("SCHEMA_MISMATCH".to_owned())),
        ("message".to_owned(), Json::Str(message)),
        ("remote_schema_version".to_owned(), Json::Number(JsonNumber::Unsigned(remote as u64))),
        ("local_schema_version".to_owned(), Json::Number(JsonNumber::Unsigned(CURRENT_SCHEMA_VERSION as u64))),
    ];
    let ghost mv = members_view(m@);
    proof {
        lemma_object_members(m);
    }
    let r = Json::Object(m);
    assert(mv =~= jobject(mismatch_value(remote)).unwrap());
    Some(r)
}

/// The report of an installed bundle: its version, schema, counts, size and where it was
/// saved.
pub open spec fn installed_value(meta: BundleMetadata, size_bytes: usize, saved_to: Seq<char>) -> JsonV {
    JsonV::Object(
        seq![
            ("success"@, JsonV::Bool(true)),
            ("version"@, JsonV::Str(meta.version@)),
            ("schema_version"@, JsonV::Number(JsonNumberV::Unsigned(meta.schema_version as u64))),
            ("api_count"@, JsonV::Number(JsonNumberV::Unsigned(meta.api_count as u64))),
            ("spec_count"@, JsonV::Number(JsonNumberV::Unsigned(meta.spec_count as u64))),
            ("size_bytes"@, JsonV::Number(JsonNumberV::Unsigned(size_bytes as u64))),
            ("saved_to"@, JsonV::Str(saved_to)),
            (
                "message"@,
                JsonV::Str(
                    "번들 업데이트 완료: v"@ + meta.version@ + " ("@ + decimal(meta.api_count as nat) + " APIs, "@
                        + decimal(meta.spec_count as nat) + " specs)"@,
                ),
            ),
        ],
    )
}

/// Report an installed bundle.
pub fn installed_report(meta: &BundleMetadata, size_bytes: usize, saved_to: &str) -> (r: Json)
    ensures
        r@ == installed_value(*meta, size_bytes, saved_to@),
{
    let parts = vec![
        text_of("번들 업데이트 완료: v"),
        chars_of(meta.version.as_str()),
        text_of(" ("),
        decimal_chars(meta.api_count as u64),
        text_of(" APIs, "),
        decimal_chars(meta.spec_count as u64),
        text_of(" specs)"),
    ];
    let ghost pv = parts@.map_values(|p: Vec<char>| p@);
    let message = concat_all(parts);
    proof {
        reveal_with_fuel(Seq::fold_left, 8);
        assert(pv.len() == 7);
        assert(message@ == (((((pv[0] + pv[1]) + pv[2]) + pv[3]) + pv[4]) + pv[5]) + pv[6]) by {
            assert(pv.drop_last().drop_last().drop_last().drop_last().drop_last().drop_last().drop_last()
                =~= Seq::<Seq<char>>::empty());
        }
    }
    let m = vec![
        ("success".to_owned(), Json::Bool(true)),
        ("version".to_owned(), Json::Str(meta.version.clone())),
        ("schema_version".to_owned(), Json::Number(JsonNumber::Unsigned(meta.schema_version as u64))),
        ("api_count".to_owned(), Json::Number(JsonNumber::Unsigned(meta.api_count as u64))),
        ("spec_count".to_owned(), Json::Number(JsonNumber::Unsigned(meta.spec_count as u64))),
        ("size_bytes".to_owned(), Json::Number(JsonNumber::Unsigned(size_bytes as u64))),
        ("saved_to".to_owned(), Json::Str(saved_to.to_owned())),
        ("message".to_owned(), Json::Str(message)),
    ];
    let ghost mv = members_view(m@);
    proof {
        lemma_object_members(m);
    }
    let r = Json::Object(m);
    assert(mv =~= jobject(installed_value(*meta, size_bytes, saved_to@)).unwrap());
    r
}

} // verus!
