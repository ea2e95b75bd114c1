//! Name of the file that a flushed burst is written to.
use vstd::prelude::*;

verus! {

/// The character for a decimal digit `d < 10`.
pub open spec fn digit_char(d: nat) -> char {
    seq!['0', '1', '2', '3', '4', '5', '6', '7', '8', '9'][d as int]
}

/// Decimal digits of `n`, most significant first, with no leading zero.
pub open spec fn decimal(n: nat) -> Seq<char>
    decreases n,
{
    if n < 10 {
        seq![digit_char(n)]
    } else {
        decimal(n / 10).push(digit_char(n % 10))
    }
}

/// `s` with every `':'` replaced by `'_'`.
pub open spec fn colons_to_underscores(s: Seq<char>) -> Seq<char> {
    s.map_values(|c: char| if c == ':' {
        '_'
    } else {
        c
    })
}

/// `snipper_<timestamp>_<frequency>_<rate>.cu8`, with the colons of the
/// timestamp replaced by underscores.
pub open spec fn output_name_spec(timestamp: Seq<char>, freq: nat, rate: nat) -> Seq<char> {
    "snipper_"@ + colons_to_underscores(timestamp) + "_"@ + decimal(freq) + "_"@ + decimal(rate)
        + ".cu8"@
}

/// Relies on u32's `to_string` (its `Display`): the decimal digits, with no
/// sign and no leading zero.
#[verifier::external_body]
fn decimal_string(n: u32) -> (r: String)
    ensures
        r@ == decimal(n as nat),
{
    n.to_string()
}

/// Relies on str::replace: every `':'` becomes `"_"`, the rest is kept.
#[verifier::external_body]
fn replace_colons(s: &str) -> (r: String)
    ensures
        r@ == colons_to_underscores(s@),
{
    s.replace(':', "_")
}

/// Name of the capture file for a burst flushed at `timestamp` (RFC 3339),
/// recorded at `capture_freq` Hz and `capture_rate` samples per second.
pub fn output_file_name(timestamp: &str, capture_freq: u32, capture_rate: u32) -> (r: String)
    ensures
        r@ == output_name_spec(timestamp@, capture_freq as nat, capture_rate as nat),
{
    let stamp = replace_colons(timestamp);
    let freq = decimal_string(capture_freq);
    let rate = decimal_string(capture_rate);
    let mut name = "snipper_".to_owned();
    name.append(stamp.as_str());
    name.append("_");
    name.append(freq.as_str());
    name.append("_");
    name.append(rate.as_str());
    name.append(".cu8");
    name
}

} // verus!
