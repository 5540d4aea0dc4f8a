//! What the proxy counts and how it logs.
use vstd::arithmetic::power2::*;
use vstd::prelude::*;

use crate::text;

verus! {

/// Who is at the other end of a connection.
#[derive(Clone, Copy, Debug, PartialEq, Eq, Hash)]
pub enum ConnectionRole {
    Server,
    Client,
}

/// How a request for an asset ended.
#[derive(Clone, Copy, Debug, PartialEq, Eq, Hash)]
pub enum AssetRequestResult {
    Success,
    Malformed,
    AllocationNotFound,
    AssetNotFound,
    Error,
}

/// A change of what the proxy counts.
#[derive(Clone, Copy, Debug, PartialEq, Eq)]
pub enum MetricsUpdate {
    /// One more connection was made.
    IncConnections(ConnectionRole),
    /// So many connections are open.
    SetCurrentConnections(ConnectionRole, usize),
    /// One more request for an asset ended.
    IncAssetRequests(AssetRequestResult),
    /// The assets held have so many bytes.
    SetCurrentAssetsSizeBytes(usize),
    /// A response with an asset had so many bytes.
    ObserveAssetResponseSizeBytes(usize),
}

/// The value of a gauge for a count. A count that is too large for a gauge leaves it as it was.
pub fn gauge_value(count: usize) -> (res: Option<i64>)
    ensures
        match res {
            Some(value) => value == count,
            None => count > i64::MAX,
        },
{
    if count as u64 <= i64::MAX as u64 {
        Some(count as i64)
    } else {
        None
    }
}

/// The number of bounds between the sizes of responses that are counted together.
pub const SIZE_BUCKETS: usize = 21;

/// The bounds between the sizes of responses that are counted together: the powers of two from one
/// kibibyte to one gibibyte.
pub fn asset_response_size_buckets() -> (res: Vec<u64>)
    ensures
        res@.len() == SIZE_BUCKETS,
        forall|i: int| 0 <= i < SIZE_BUCKETS ==> #[trigger] res@[i] == pow2((10 + i) as nat),
        forall|i: int, j: int| 0 <= i < j < SIZE_BUCKETS ==> res@[i] < res@[j],
{
    let mut bounds: Vec<u64> = Vec::new();
    let mut bound: u64 = 1024;
    proof {
        lemma2_to64();
    }
    while bounds.len() < SIZE_BUCKETS
        invariant
            bounds@.len() <= SIZE_BUCKETS,
            bound == pow2((10 + bounds@.len()) as nat),
            forall|i: int| 0 <= i < bounds@.len() ==> #[trigger] bounds@[i] == pow2((10 + i) as nat),
            forall|i: int, j: int| 0 <= i < j < bounds@.len() ==> bounds@[i] < bounds@[j],
            forall|i: int| 0 <= i < bounds@.len() ==> bounds@[i] < bound,
        decreases SIZE_BUCKETS - bounds@.len(),
    {
        proof {
            lemma_pow2_unfold((11 + bounds@.len()) as nat);
            lemma_pow2_pos((10 + bounds@.len()) as nat);
            lemma2_to64();
            if bounds@.len() < 20 {
                lemma_pow2_strictly_increases((10 + bounds@.len()) as nat, 30);
            }
        }
        bounds.push(bound);
        bound = bound * 2;
    }
    bounds
}

/// How log records are written.
#[derive(Clone, Copy, Debug, PartialEq, Eq)]
pub enum LogFormat {
    /// For the `bunyan` tool.
    Bunyan,
    /// For the logging service of Google Cloud.
    Stackdriver,
    /// For people.
    Text,
}

/// What `std` makes of a text in lower case.
pub uninterp spec fn lowercase(text: Seq<char>) -> Seq<char>;

/// Every character is an ASCII character.
pub open spec fn is_ascii_text(text: Seq<char>) -> bool {
    forall|i: int| 0 <= i < text.len() ==> (#[trigger] text[i] as nat) < 128
}

/// `str::to_lowercase`: the text in lower case, which depends on the text alone. Of ASCII characters
/// it changes the letters from A to Z, one by one.
#[verifier::external_body]
fn to_lowercase(text: &str) -> (res: String)
    ensures
        res@ == lowercase(text@),
        is_ascii_text(text@) ==> res@ == text@.map_values(|c: char| crate::ids::lower(c)),
{
    text.to_lowercase()
}

/// The format with a name. A name that no format has stands for text.
pub open spec fn format_with_name(name: Seq<char>) -> LogFormat {
    if name == "bunyan"@ {
        LogFormat::Bunyan
    } else if name == "stackdriver"@ {
        LogFormat::Stackdriver
    } else {
        LogFormat::Text
    }
}

/// The format with a name in lower case.
pub fn named_log_format(name: &str) -> (res: LogFormat)
    ensures
        res == format_with_name(name@),
{
    if text::same(name, "bunyan") {
        LogFormat::Bunyan
    } else if text::same(name, "stackdriver") {
        LogFormat::Stackdriver
    } else {
        LogFormat::Text
    }
}

/// The format that was asked for, whatever the case of its name. It is the one for Google Cloud
/// where none was asked for.
pub fn log_format(requested: Option<&str>) -> (res: LogFormat)
    ensures
        match requested {
            Some(name) => res == format_with_name(lowercase(name@)),
            None => res == LogFormat::Stackdriver,
        },
        requested matches Some(name) ==> is_ascii_text(name@) ==> res == format_with_name(
            name@.map_values(|c: char| crate::ids::lower(c)),
        ),
{
    match requested {
        Some(name) => named_log_format(to_lowercase(name).as_str()),
        None => LogFormat::Stackdriver,
    }
}

/// The bounds double from one kibibyte up to one gibibyte.
pub proof fn law_bounds_double(bounds: Vec<u64>)
    requires
        call_ensures(asset_response_size_buckets, (), bounds),
    ensures
        bounds@.len() == 21,
        bounds@[0] == 1024,
        forall|i: int| 1 <= i < 21 ==> #[trigger] bounds@[i] == 2 * bounds@[i - 1],
        bounds@[20] == 1_073_741_824,
{
    lemma2_to64();
    assert forall|i: int| 1 <= i < 21 implies #[trigger] bounds@[i] == 2 * bounds@[i - 1] by {
        lemma_pow2_unfold((10 + i) as nat);
        assert(bounds@[i - 1] == pow2((10 + (i - 1)) as nat));
    }
}

/// A gauge shows every count up to the largest number that it can show.
pub proof fn law_gauge_shows_count(count: usize, res: Option<i64>)
    requires
        call_ensures(gauge_value, (count,), res),
    ensures
        match res {
            Some(value) => value == count,
            None => count > 0x7fff_ffff_ffff_ffff,
        },
{
}

/// The texts are the same but for the case of ASCII letters.
pub open spec fn same_but_for_case(left: Seq<char>, right: Seq<char>) -> bool {
    &&& left.len() == right.len()
    &&& forall|i: int|
        0 <= i < left.len() ==> {
            ||| #[trigger] left[i] == right[i]
            ||| 65 <= left[i] as int <= 90 && left[i] as int + 32 == right[i] as int
            ||| 65 <= right[i] as int <= 90 && right[i] as int + 32 == left[i] as int
        }
}

/// A format is found by its name, whatever the case of its letters; any other name of ASCII
/// characters stands for text. Where no name was given, the format is the one for Google Cloud.
pub proof fn law_format_is_found_by_name(name: &str, named: LogFormat, usual: LogFormat)
    requires
        is_ascii_text(name@),
        call_ensures(log_format, (Some(name),), named),
        call_ensures(log_format, (None::<&str>,), usual),
    ensures
        named == if same_but_for_case(name@, "bunyan"@) {
            LogFormat::Bunyan
        } else if same_but_for_case(name@, "stackdriver"@) {
            LogFormat::Stackdriver
        } else {
            LogFormat::Text
        },
        usual == LogFormat::Stackdriver,
{
    reveal_strlit("bunyan");
    reveal_strlit("stackdriver");
    lemma_lowered(name@, "bunyan"@);
    lemma_lowered(name@, "stackdriver"@);
    assert("bunyan"@.len() == 6);
    assert("stackdriver"@.len() == 11);
}

/// A text in lower case is what a text becomes if they are the same but for case.
proof fn lemma_lowered(text: Seq<char>, lowered: Seq<char>)
    requires
        forall|i: int| 0 <= i < lowered.len() ==> 97 <= #[trigger] lowered[i] as int <= 122,
    ensures
        same_but_for_case(text, lowered) <==> text.map_values(|c: char| crate::ids::lower(c))
            == lowered,
{
    let lower = text.map_values(|c: char| crate::ids::lower(c));
    if same_but_for_case(text, lowered) {
        assert forall|i: int| 0 <= i < text.len() implies #[trigger] lower[i] == lowered[i] by {
            assert(text[i] == text[i]);
            assert(97 <= lowered[i] as int <= 122);
        }
        assert(lower =~= lowered);
    }
    if lower == lowered {
        assert forall|i: int| 0 <= i < text.len() implies {
            ||| #[trigger] text[i] == lowered[i]
            ||| 65 <= text[i] as int <= 90 && text[i] as int + 32 == lowered[i] as int
            ||| 65 <= lowered[i] as int <= 90 && lowered[i] as int + 32 == text[i] as int
        } by {
            assert(lower[i] == lowered[i]);
        }
    }
}

} // verus!
