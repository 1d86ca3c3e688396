//! The answers of the command-line commands that are not shared with the MCP server, and
//! the options of the collection tools.

use vstd::prelude::*;
use crate::caller::{find_operation, operation_index};
use crate::json::{elems_view, jobject, lemma_array_elems, lemma_object_members, members_view, Json, JsonV};
use crate::mcp::{status_name, spec_status_name};
use crate::types::{ApiSpec, Operation, SpecStatus};
use crate::text::string_views;

verus! {

/// The answer of `search` on an empty catalog.
pub open spec fn catalog_empty_value() -> JsonV {
    JsonV::Object(
        seq![
            ("success"@, JsonV::Bool(false)),
            ("error"@, JsonV::Str("CATALOG_EMPTY"@)),
            ("message"@, JsonV::Str("카탈로그가 비어있습니다."@)),
            ("action"@, JsonV::Str("korea-cli update 를 먼저 실행하세요."@)),
        ],
    )
}

pub fn catalog_empty_output() -> (r: Json)
    ensures
        r@ == catalog_empty_value(),
{
    let m = vec![
        ("success".to_owned(), Json::Bool(false)),
        ("error".to_owned(), Json::Str("CATALOG_EMPTY".to_owned())),
        ("message".to_owned(), Json::Str("카탈로그가 비어있습니다.".to_owned())),
        ("action".to_owned(), Json::Str("korea-cli update 를 먼저 실행하세요.".to_owned())),
    ];
    let ghost mv = members_view(m@);
    proof {
        lemma_object_members(m);
    }
    let r = Json::Object(m);
    assert(mv =~= jobject(catalog_empty_value()).unwrap());
    r
}

/// The answer of `call` when no API key is configured.
pub open spec fn call_without_key_value() -> JsonV {
    JsonV::Object(
        seq![
            ("success"@, JsonV::Bool(false)),
            ("error"@, JsonV::Str("NO_API_KEY"@)),
            ("message"@, JsonV::Str("API 키가 설정되지 않았습니다."@)),
            ("action"@, JsonV::Str("korea-cli config set api-key YOUR_KEY 또는 환경변수 DATA_GO_KR_API_KEY 설정"@)),
        ],
    )
}

pub fn call_without_key_output() -> (r: Json)
    ensures
        r@ == call_without_key_value(),
{
    let m = vec![
        ("success".to_owned(), Json::Bool(false)),
        ("error".to_owned(), Json::Str("NO_API_KEY".to_owned())),
        ("message".to_owned(), Json::Str("API 키가 설정되지 않았습니다.".to_owned())),
        (
            "action".to_owned(),
            Json::Str("korea-cli config set api-key YOUR_KEY 또는 환경변수 DATA_GO_KR_API_KEY 설정".to_owned()),
        ),
    ];
    let ghost mv = members_view(m@);
    proof {
        lemma_object_members(m);
    }
    let r = Json::Object(m);
    assert(mv =~= jobject(call_without_key_value()).unwrap());
    r
}

/// The note of `call` for an operation that a partial stub lacks.
pub const PARTIAL_NOTE: &'static str = "이 API는 일부 operation만 수집됨 — `korea-cli update`로 최신 번들을 받으면 추가 operation이 포함될 수 있습니다";

/// The answer of `call` when the spec is a partial stub without the requested operation:
/// the operations it has.
pub open spec fn missing_operation_value(list_id: Seq<char>, ops: Seq<Operation>) -> JsonV {
    JsonV::Object(
        seq![
            ("success"@, JsonV::Bool(false)),
            ("list_id"@, JsonV::Str(list_id)),
            ("spec_status"@, JsonV::Str(status_name(SpecStatus::PartialStub))),
            ("message"@, JsonV::Str(PARTIAL_NOTE@)),
            ("available_operations"@, JsonV::Array(ops.map_values(|o: Operation| JsonV::Str(o.path@)))),
        ],
    )
}

/// Check a `call` before it is made: when the catalog lists the service as a partial stub
/// (`status`) and its spec has no operation with that path or summary, the answer that
/// lists the operations there are; otherwise nothing.
pub fn partial_operation_notice(list_id: &str, spec: &ApiSpec, operation: &str, status: Option<SpecStatus>) -> (r: Option<Json>)
    ensures
        (status == Some(SpecStatus::PartialStub) && operation_index(spec.operations@, operation@) is None) ==> (r matches Some(
            j,
        ) && j@ == missing_operation_value(list_id@, spec.operations@)),
        !(status == Some(SpecStatus::PartialStub) && operation_index(spec.operations@, operation@) is None) ==> r is None,
{
    let partial = match status {
        Some(s) => s == SpecStatus::PartialStub,
        None => false,
    };
    if !partial || find_operation(spec, operation).is_some() {
        return None;
    }
    let mut paths: Vec<Json> = Vec::new();
    let mut i: usize = 0;
    while i < spec.operations.len()
        invariant
            i <= spec.operations@.len(),
            elems_view(paths@) == spec.operations@.take(i as int).map_values(|o: Operation| JsonV::Str(o.path@)),
        decreases spec.operations@.len() - i,
    {
        let ghost before = elems_view(paths@);
        paths.push(Json::Str(spec.operations[i].path.clone()));
        assert(elems_view(paths@) =~= before.push(JsonV::Str(spec.operations@[i as int].path@)));
        assert(spec.operations@.take(i + 1).map_values(|o: Operation| JsonV::Str(o.path@)) =~= spec.operations@.take(
            i as int,
        ).map_values(|o: Operation| JsonV::Str(o.path@)).push(JsonV::Str(spec.operations@[i as int].path@)));
        i = i + 1;
    }
    assert(spec.operations@.take(spec.operations@.len() as int) =~= spec.operations@);
    let ghost pv = elems_view(paths@);
    proof {
        lemma_array_elems(paths);
    }
    let m = vec![
        ("success".to_owned(), Json::Bool(false)),
        ("list_id".to_owned(), Json::Str(list_id.to_owned())),
        ("spec_status".to_owned(), Json::Str(spec_status_name(SpecStatus::PartialStub).to_owned())),
        ("message".to_owned(), Json::Str(PARTIAL_NOTE.to_owned())),
        ("available_operations".to_owned(), Json::Array(paths)),
    ];
    let ghost mv = members_view(m@);
    proof {
        lemma_object_members(m);
    }
    let r = Json::Object(m);
    assert(mv =~= jobject(missing_operation_value(list_id@, spec.operations@)).unwrap());
    Some(r)
}

// ---------------------------------------------------------------------------
// Options of the collection tools
// ---------------------------------------------------------------------------

pub open spec fn is_digit(c: char) -> bool {
    '0' <= c && c <= '9'
}

/// The value of a string of decimal digits.
pub open spec fn digits_value(s: Seq<char>) -> int
    decreases s.len(),
{
    if s.len() == 0 {
        0
    } else {
        digits_value(s.drop_last()) * 10 + (s.last() as int - '0' as int)
    }
}

/// The number that `str::parse` reads for an unsigned integer type: an optional `+`, then
/// one or more decimal digits; `None` for any other text.
pub open spec fn unsigned_text(s: Seq<char>) -> Option<int> {
    let d = unsigned_digits(s);
    if d.len() > 0 && all_digits(d) {
        Some(digits_value(d))
    } else {
        None
    }
}

/// The text after an optional leading `+`.
pub open spec fn unsigned_digits(s: Seq<char>) -> Seq<char> {
    if s.len() > 0 && s[0] == '+' {
        s.drop_first()
    } else {
        s
    }
}

pub open spec fn all_digits(d: Seq<char>) -> bool {
    forall|i: int| 0 <= i < d.len() ==> is_digit(#[trigger] d[i])
}

/// `str::parse::<u64>`: the number, when the text is one and it fits.
pub open spec fn parsed_u64(s: Seq<char>) -> Option<u64> {
    match unsigned_text(s) {
        Some(v) => if v <= u64::MAX {
            Some(v as u64)
        } else {
            None
        },
        None => None,
    }
}

proof fn lemma_digits_nonneg(s: Seq<char>)
    requires
        forall|i: int| 0 <= i < s.len() ==> is_digit(#[trigger] s[i]),
    ensures
        digits_value(s) >= 0,
    decreases s.len(),
{
    if s.len() > 0 {
        lemma_digits_nonneg(s.drop_last());
    }
}

proof fn lemma_digits_grow(s: Seq<char>, i: int)
    requires
        0 <= i <= s.len(),
        forall|k: int| 0 <= k < s.len() ==> is_digit(#[trigger] s[k]),
    ensures
        digits_value(s.take(i)) <= digits_value(s),
    decreases s.len() - i,
{
    if i < s.len() {
        lemma_digits_grow(s, i + 1);
        assert(s.take(i + 1).drop_last() =~= s.take(i));
        lemma_digits_nonneg(s.take(i));
    } else {
        assert(s.take(i) =~= s);
    }
}

/// Read an unsigned integer as `str::parse::<u64>` does.
pub fn parse_u64(s: &str) -> (r: Option<u64>)
    ensures
        r == parsed_u64(s@),
{
    let c = crate::text::chars_of(s);
    let start: usize = if c.len() > 0 && c[0] == '+' { 1 } else { 0 };
    let ghost d = unsigned_digits(c@);
    assert(d =~= c@.subrange(start as int, c@.len() as int));
    if start == c.len() {
        return None;
    }
    let mut v: u64 = 0;
    let mut i = start;
    assert(d.take(0) =~= Seq::<char>::empty());
    while i < c.len()
        invariant
            start <= i <= c@.len(),
            start < c@.len(),
            c@ == s@,
            d == unsigned_digits(c@),
            d =~= c@.subrange(start as int, c@.len() as int),
            forall|k: int| 0 <= k < i - start ==> is_digit(#[trigger] d[k]),
            v == digits_value(d.take(i - start)),
        decreases c@.len() - i,
    {
        let ch = c[i];
        assert(d[i - start] == ch);
        if !('0' <= ch && ch <= '9') {
            assert(!is_digit(d[i - start]));
            assert(!all_digits(d));
            return None;
        }
        let digit = (ch as u32 - '0' as u32) as u64;
        assert(d.take(i - start + 1).drop_last() =~= d.take(i - start));
        assert(d.take(i - start + 1).last() == ch);
        if v > (u64::MAX - digit) / 10 {
            proof {
                assert forall|k: int| 0 <= k < i - start + 1 implies is_digit(#[trigger] d[k]) by {}
                assert(digits_value(d.take(i - start + 1)) > u64::MAX) by (nonlinear_arith)
                    requires
                        v > (u64::MAX - digit) / 10,
                        digits_value(d.take(i - start + 1)) == v * 10 + digit,
                        digit <= 9,
                {
                }
            }
            // the rest only grows the value: it does not fit, or it is not a number
            let mut j = i + 1;
            while j < c.len()
                invariant
                    start <= i < j <= c@.len(),
                    c@ == s@,
                    d == unsigned_digits(c@),
                    digits_value(d.take(i - start + 1)) > u64::MAX,
                    forall|k: int| 0 <= k < j - start ==> is_digit(#[trigger] d[k]),
                    d =~= c@.subrange(start as int, c@.len() as int),
                decreases c@.len() - j,
            {
                assert(d[j - start] == c@[j as int]);
                if !('0' <= c[j] && c[j] <= '9') {
                    assert(!is_digit(d[j - start]));
                    assert(!all_digits(d));
                    return None;
                }
                j = j + 1;
            }
            proof {
                assert(d.take(d.len() as int) =~= d);
                lemma_digits_grow(d, i - start + 1);
            }
            return None;
        }
        proof {
            assert(v * 10 + digit <= u64::MAX) by (nonlinear_arith)
                requires
                    v <= (u64::MAX - digit) / 10,
                    digit <= 9,
            {
            }
        }
        v = v * 10 + digit;
        i = i + 1;
    }
    assert(d.take(d.len() as int) =~= d);
    Some(v)
}

/// The options of the bundle builder.
#[derive(Debug, Clone)]
pub struct BuildOptions {
    pub api_key: String,
    pub output: String,
    pub concurrency: usize,
    pub delay_ms: u64,
    pub ajax_concurrency: usize,
    pub ajax_delay_ms: u64,
}

/// A numeric option: the value after `flag` when it reads as a number that fits in a
/// `usize`, else `default`.
pub open spec fn count_option(args: Seq<Seq<char>>, flag: Seq<char>, default: usize) -> usize {
    match crate::survey::flag_value(args, flag) {
        Some(t) => match parsed_u64(t) {
            Some(v) => if v <= usize::MAX {
                v as usize
            } else {
                default
            },
            None => default,
        },
        None => default,
    }
}

/// A numeric option in milliseconds.
pub open spec fn millis_option(args: Seq<Seq<char>>, flag: Seq<char>, default: u64) -> u64 {
    match crate::survey::flag_value(args, flag) {
        Some(t) => match parsed_u64(t) {
            Some(v) => v,
            None => default,
        },
        None => default,
    }
}

fn count_arg(args: &[String], flag: &str, default: usize) -> (r: usize)
    ensures
        r == count_option(string_views(args@), flag@, default),
{
    match crate::survey::get_arg(args, flag) {
        Some(t) => match parse_u64(t.as_str()) {
            Some(v) => if v as u128 <= usize::MAX as u128 {
                v as usize
            } else {
                default
            },
            None => default,
        },
        None => default,
    }
}

fn millis_arg(args: &[String], flag: &str, default: u64) -> (r: u64)
    ensures
        r == millis_option(string_views(args@), flag@, default),
{
    match crate::survey::get_arg(args, flag) {
        Some(t) => match parse_u64(t.as_str()) {
            Some(v) => v,
            None => default,
        },
        None => default,
    }
}

/// The message when no API key is given.
pub const API_KEY_REQUIRED: &'static str = "--api-key 또는 DATA_GO_KR_API_KEY 환경변수 필요";

/// The API key of a collection tool: `--api-key`, else the environment's (`env_key`).
pub open spec fn key_option(args: Seq<Seq<char>>, env_key: Option<Seq<char>>) -> Option<Seq<char>> {
    match crate::survey::flag_value(args, "--api-key"@) {
        Some(k) => Some(k),
        None => env_key,
    }
}

fn key_arg(args: &[String], env_key: Option<String>) -> (r: Result<String, String>)
    ensures
        match key_option(string_views(args@), crate::catalog::opt_string_view(env_key)) {
            Some(k) => r matches Ok(v) && v@ == k,
            None => r matches Err(e) && e@ == API_KEY_REQUIRED@,
        },
{
    match crate::survey::get_arg(args, "--api-key") {
        Some(k) => Ok(k),
        None => match env_key {
            Some(k) => Ok(k),
            None => Err(API_KEY_REQUIRED.to_owned()),
        },
    }
}

/// Read the bundle builder's options (`args` as given to the program, `env_key` the
/// environment's API key): `--api-key` (required, else the environment's), `--output`
/// (`data/bundle.zstd`), `--concurrency` (5), `--delay` (100 ms), `--ajax-concurrency` (10)
/// and `--ajax-delay` (50 ms); a number that does not read keeps its default.
pub fn build_options(args: &[String], env_key: Option<String>) -> (r: Result<BuildOptions, String>)
    ensures
        ({
            let a = string_views(args@);
            match key_option(a, crate::catalog::opt_string_view(env_key)) {
                Some(k) => r matches Ok(o) && {
                    &&& o.api_key@ == k
                    &&& o.output@ == match crate::survey::flag_value(a, "--output"@) {
                        Some(p) => p,
                        None => "data/bundle.zstd"@,
                    }
                    &&& o.concurrency == count_option(a, "--concurrency"@, 5)
                    &&& o.delay_ms == millis_option(a, "--delay"@, 100)
                    &&& o.ajax_concurrency == count_option(a, "--ajax-concurrency"@, 10)
                    &&& o.ajax_delay_ms == millis_option(a, "--ajax-delay"@, 50)
                },
                None => r matches Err(e) && e@ == API_KEY_REQUIRED@,
            }
        }),
{
    let api_key = match key_arg(args, env_key) {
        Ok(k) => k,
        Err(e) => {
            return Err(e);
        },
    };
    let output = match crate::survey::get_arg(args, "--output") {
        Some(p) => p,
        None => "data/bundle.zstd".to_owned(),
    };
    Ok(
        BuildOptions {
            api_key,
            output,
            concurrency: count_arg(args, "--concurrency", 5),
            delay_ms: millis_arg(args, "--delay", 100),
            ajax_concurrency: count_arg(args, "--ajax-concurrency", 10),
            ajax_delay_ms: millis_arg(args, "--ajax-delay", 50),
        },
    )
}

/// The options of the page crawler.
#[derive(Debug, Clone)]
pub struct CrawlOptions {
    pub api_key: String,
    pub concurrency: usize,
    pub delay_ms: u64,
    pub resume: bool,
    pub out_dir: String,
}

fn has_flag(args: &[String], flag: &str) -> (r: bool)
    ensures
        r == string_views(args@).contains(flag@),
{
    let f = flag.to_owned();
    let mut i: usize = 0;
    while i < args.len()
        invariant
            i <= args@.len(),
            f@ == flag@,
            forall|k: int| 0 <= k < i ==> #[trigger] args@[k]@ != flag@,
        decreases args@.len() - i,
    {
        if args[i] == f {
            assert(string_views(args@)[i as int] == flag@);
            return true;
        }
        i = i + 1;
    }
    assert forall|k: int| 0 <= k < string_views(args@).len() implies string_views(args@)[k] != flag@ by {
        assert(string_views(args@)[k] == args@[k]@);
    }
    false
}

/// Read the crawler's options: `--api-key` (required, else the environment's),
/// `--concurrency` (5), `--delay` (100 ms), `--resume`, and `--out-dir` (`data/pages`).
pub fn crawl_options(args: &[String], env_key: Option<String>) -> (r: Result<CrawlOptions, String>)
    ensures
        ({
            let a = string_views(args@);
            match key_option(a, crate::catalog::opt_string_view(env_key)) {
                Some(k) => r matches Ok(o) && {
                    &&& o.api_key@ == k
                    &&& o.concurrency == count_option(a, "--concurrency"@, 5)
                    &&& o.delay_ms == millis_option(a, "--delay"@, 100)
                    &&& o.resume == a.contains("--resume"@)
                    &&& o.out_dir@ == match crate::survey::flag_value(a, "--out-dir"@) {
                        Some(p) => p,
                        None => "data/pages"@,
                    }
                },
                None => r matches Err(e) && e@ == API_KEY_REQUIRED@,
            }
        }),
{
    let api_key = match key_arg(args, env_key) {
        Ok(k) => k,
        Err(e) => {
            return Err(e);
        },
    };
    let out_dir = match crate::survey::get_arg(args, "--out-dir") {
        Some(p) => p,
        None => "data/pages".to_owned(),
    };
    Ok(
        CrawlOptions {
            api_key,
            concurrency: count_arg(args, "--concurrency", 5),
            delay_ms: millis_arg(args, "--delay", 100),
            resume: has_flag(args, "--resume"),
            out_dir,
        },
    )
}

/// The options of the page survey.
#[derive(Debug, Clone)]
pub struct SurveyOptions {
    pub api_key: String,
    pub output: String,
    pub concurrency: usize,
    pub delay_ms: u64,
    pub resume: bool,
    pub phase1_only: bool,
}

/// Read the survey's options: `--api-key` (required, else the environment's), `--output`
/// (`data/html_survey.json`), `--concurrency` (5), `--delay` (100 ms), `--resume` and
/// `--phase1-only`.
pub fn survey_options(args: &[String], env_key: Option<String>) -> (r: Result<SurveyOptions, String>)
    ensures
        ({
            let a = string_views(args@);
            match key_option(a, crate::catalog::opt_string_view(env_key)) {
                Some(k) => r matches Ok(o) && {
                    &&& o.api_key@ == k
                    &&& o.output@ == match crate::survey::flag_value(a, "--output"@) {
                        Some(p) => p,
                        None => "data/html_survey.json"@,
                    }
                    &&& o.concurrency == count_option(a, "--concurrency"@, 5)
                    &&& o.delay_ms == millis_option(a, "--delay"@, 100)
                    &&& o.resume == a.contains("--resume"@)
                    &&& o.phase1_only == a.contains("--phase1-only"@)
                },
                None => r matches Err(e) && e@ == API_KEY_REQUIRED@,
            }
        }),
{
    let api_key = match key_arg(args, env_key) {
        Ok(k) => k,
        Err(e) => {
            return Err(e);
        },
    };
    let output = match crate::survey::get_arg(args, "--output") {
        Some(p) => p,
        None => "data/html_survey.json".to_owned(),
    };
    Ok(
        SurveyOptions {
            api_key,
            output,
            concurrency: count_arg(args, "--concurrency", 5),
            delay_ms: millis_arg(args, "--delay", 100),
            resume: has_flag(args, "--resume"),
            phase1_only: has_flag(args, "--phase1-only"),
        },
    )
}

} // verus!
