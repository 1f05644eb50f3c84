//! The consumer-facing version token: a fixed build identifier combined
//! with the data version, detectable as changed by plain string
//! comparison.

use vstd::prelude::*;
use vstd::string::StringExecFns;

verus! {

/// The decimal digit character for `d`.
pub open spec fn dec_digit(d: int) -> char {
    if d == 0 {
        '0'
    } else if d == 1 {
        '1'
    } else if d == 2 {
        '2'
    } else if d == 3 {
        '3'
    } else if d == 4 {
        '4'
    } else if d == 5 {
        '5'
    } else if d == 6 {
        '6'
    } else if d == 7 {
        '7'
    } else if d == 8 {
        '8'
    } else {
        '9'
    }
}

/// The decimal digits of `n`, most significant first.
pub open spec fn dec_str(n: int) -> Seq<char>
    decreases n when n >= 0
{
    if n < 10 {
        seq![dec_digit(n)]
    } else {
        dec_str(n / 10).push(dec_digit(n % 10))
    }
}

/// Relies on `u64`'s `Display` implementation, through `format!`: it
/// writes exactly the decimal digits of the value.
#[verifier::external_body]
fn u64_to_string(v: u64) -> (r: String)
    ensures
        r@ == dec_str(v as int),
{
    format!("{}", v)
}

/// The version token for a build identifier and a data version.
pub open spec fn version_token_spec(build: Seq<char>, v: u64) -> Seq<char> {
    "build_"@ + build + "__data_"@ + dec_str(v as int)
}

/// Format the token that callers compare to detect "nothing changed since
/// I last fetched, including no redeploy".
pub fn format_version(build_id: &str, data_version: u64) -> (r: String)
    ensures
        r@ == version_token_spec(build_id@, data_version),
{
    let mut out = "build_".to_owned();
    out.append(build_id);
    out.append("__data_");
    let digits = u64_to_string(data_version);
    out.append(digits.as_str());
    proof {
        assert(out@ =~= version_token_spec(build_id@, data_version));
    }
    out
}

} // verus!
