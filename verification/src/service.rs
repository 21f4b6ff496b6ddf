//! The node service: the payload of its remote calls, and the rows of its CPU report.
use vstd::prelude::*;
use vstd::string::StringExecFns;

verus! {

/// The payload of a remote call: a serialized value.
#[derive(Debug)]
pub struct Bit {
    pub base: String,
}

/// The decimal digits of `n`, most significant first, with no leading zeros.
pub open spec fn decimal(n: nat) -> Seq<char>
    decreases n,
{
    if n < 10 {
        seq![digit(n)]
    } else {
        decimal(n / 10).push(digit(n % 10))
    }
}

/// The decimal digit for `d < 10`.
pub open spec fn digit(d: nat) -> char {
    if d == 0 { '0' } else if d == 1 { '1' } else if d == 2 { '2' } else if d == 3 { '3' }
    else if d == 4 { '4' } else if d == 5 { '5' } else if d == 6 { '6' } else if d == 7 { '7' }
    else if d == 8 { '8' } else { '9' }
}

/// `ToString` on a `u64` writes it in decimal (through its `Display`).
#[verifier::external_body]
fn u64_to_decimal(n: u64) -> (r: String)
    ensures
        r@ == decimal(n as nat),
{
    n.to_string()
}

/// A row of the CPU report: the CPU's label `CPU<k>`, the sampling round `To[<t>]Refresh`
/// and the usage as the caller wrote it.
pub fn cpu_row(cpu: u64, round: u64, usage: String) -> (r: Vec<String>)
    ensures
        r@.len() == 3,
        r@[0]@ == "CPU"@ + decimal(cpu as nat),
        r@[1]@ == "To["@ + decimal(round as nat) + "]Refresh"@,
        r@[2]@ == usage@,
{
    let label = "CPU".to_owned().concat(u64_to_decimal(cpu).as_str());
    let refresh = "To[".to_owned().concat(u64_to_decimal(round).as_str()).concat("]Refresh");
    let mut r: Vec<String> = Vec::new();
    r.push(label);
    r.push(refresh);
    r.push(usage);
    r
}

/// A report asked for `n` refreshes stops after round `t` when `t` exceeds `n`.
pub open spec fn round_done(t: int, n: int) -> bool {
    t > n
}

/// Whether the CPU report has sampled enough after round `round` of a report asked for
/// `n` refreshes.
pub fn sampling_done(round: i32, n: i32) -> (r: bool)
    ensures
        r == round_done(round as int, n as int),
{
    round > n
}

/// The number of sampling rounds of a report asked for `n` refreshes, counting from
/// round 1 and stopping after the first round that exceeds `n`.
pub open spec fn sampling_rounds(n: int) -> int {
    if n < 1 { 1 } else { n + 1 }
}

/// Counting rounds from 1 and stopping after the first round for which `sampling_done`
/// holds samples exactly `sampling_rounds(n)` times.
pub proof fn law_sampling_rounds(n: int)
    ensures
        sampling_rounds(n) >= 1,
        forall|t: int| 1 <= t < sampling_rounds(n) ==> !#[trigger] round_done(t, n),
        round_done(sampling_rounds(n), n),
{
}

} // verus!
