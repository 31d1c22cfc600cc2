//! Counters owned by one traversal, and the human-readable summary derived
//! from them once the traversal is over.
use vstd::prelude::*;
use vstd::string::StringExecFns;

verus! {

/// The two counters a traversal accumulates: entries visited, matches found.
#[derive(Clone, Copy, Debug, PartialEq, Eq, Structural)]
pub struct SearchStats {
    pub entries: u64,
    pub hits: u64,
}

/// Relies on String::push: appends one character at the end of the string.
#[verifier::external_body]
fn push_char(s: &mut String, c: char)
    ensures
        final(s)@ == old(s)@.push(c),
{
    s.push(c)
}

/// The character of one decimal digit.
pub open spec fn spec_digit(d: int) -> char {
    ((48 + d) as u8) as char
}

/// The decimal rendering of a number, most significant digit first, no
/// leading zeros (a single zero for zero).
pub open spec fn spec_decimal(n: nat) -> Seq<char>
    decreases n,
{
    if n < 10 {
        seq![spec_digit(n as int)]
    } else {
        spec_decimal(n / 10).push(spec_digit((n % 10) as int))
    }
}

/// Render a number in decimal.
pub fn u64_to_decimal(n: u64) -> (r: String)
    ensures
        r@ == spec_decimal(n as nat),
    decreases n,
{
    let d: u8 = (n % 10) as u8;
    let c: char = (48 + d) as char;
    if n < 10 {
        let mut s = String::new();
        push_char(&mut s, c);
        proof {
            assert(s@ =~= spec_decimal(n as nat));
        }
        s
    } else {
        let mut s = u64_to_decimal(n / 10);
        push_char(&mut s, c);
        s
    }
}

/// The closing tally of one search: the number of matches, with the singular
/// exactly when there was one.
pub open spec fn spec_tally(hits: nat) -> Seq<char> {
    "found "@ + spec_decimal(hits) + if hits == 1 {
        " match"@
    } else {
        " matches"@
    }
}

/// Render the tally line.
pub fn tally_line(hits: u64) -> (r: String)
    ensures
        r@ == spec_tally(hits as nat),
{
    let mut s: String = String::from_str("found ");
    let d: String = u64_to_decimal(hits);
    s.append(d.as_str());
    if hits == 1 {
        s.append(" match");
    } else {
        s.append(" matches");
    }
    s
}

/// The whole summary: entries visited, the tally, and the elapsed wall-clock
/// time in milliseconds, one line each.
pub open spec fn spec_summary(entries: nat, hits: nat, elapsed_ms: nat) -> Seq<char> {
    spec_decimal(entries) + " entries searched\n"@ + spec_tally(hits) + "\n"@ + spec_decimal(
        elapsed_ms,
    ) + " ms"@
}

impl SearchStats {
    /// Render the final summary from the counters and the elapsed time the
    /// caller measured.
    pub fn summary(&self, elapsed_ms: u64) -> (r: String)
        ensures
            r@ == spec_summary(self.entries as nat, self.hits as nat, elapsed_ms as nat),
    {
        let mut s: String = u64_to_decimal(self.entries);
        s.append(" entries searched\n");
        let t: String = tally_line(self.hits);
        s.append(t.as_str());
        s.append("\n");
        let e: String = u64_to_decimal(elapsed_ms);
        s.append(e.as_str());
        s.append(" ms");
        s
    }
}

} // verus!
