//! Polling bounds, list limits and error text.

use vstd::prelude::*;
use vstd::string::StringExecFns;

verus! {

/// The value `value` raised to at least `minimum`, then capped at
/// `max(maximum, minimum)`.
pub open spec fn clamp_spec(value: int, minimum: int, maximum: int) -> int {
    let upper = if maximum >= minimum { maximum } else { minimum };
    let raised = if value >= minimum { value } else { minimum };
    if raised <= upper { raised } else { upper }
}

/// Clamps a polling interval into `[minimum, max(maximum, minimum)]`; when the
/// bounds are inverted the minimum wins.
pub fn clamp_poll_interval_secs(value: u64, minimum: u64, maximum: u64) -> (r: u64)
    ensures
        r == clamp_spec(value as int, minimum as int, maximum as int),
        minimum <= r,
        r <= maximum || r == minimum,
{
    let upper = if maximum >= minimum { maximum } else { minimum };
    let raised = if value >= minimum { value } else { minimum };
    if raised <= upper { raised } else { upper }
}

/// Keeps at most `max_items` leading items; with no limit the list is kept whole.
pub fn truncate_to_limit<T>(items: &mut Vec<T>, max_items: Option<usize>)
    ensures
        match max_items {
            Some(m) => if m <= old(items)@.len() {
                final(items)@ == old(items)@.subrange(0, m as int)
            } else {
                final(items)@ == old(items)@
            },
            None => final(items)@ == old(items)@,
        },
{
    if let Some(max_items) = max_items {
        items.truncate(max_items);
    }
}

/// A `String` holding the text of `s`.
pub fn owned(s: &str) -> (r: String)
    ensures
        r@ == s@,
{
    String::from_str(s)
}

/// The concatenation of `a` and `b`.
pub fn join2(a: &str, b: &str) -> (r: String)
    ensures
        r@ == a@ + b@,
{
    let mut r = String::from_str(a);
    r.append(b);
    r
}

/// The concatenation of `a`, `b` and `c`.
pub fn join3(a: &str, b: &str, c: &str) -> (r: String)
    ensures
        r@ == a@ + b@ + c@,
{
    let mut r = String::from_str(a);
    r.append(b);
    r.append(c);
    r
}

/// The concatenation of `a`, `b`, `c`, `d` and `e`.
pub fn join5(a: &str, b: &str, c: &str, d: &str, e: &str) -> (r: String)
    ensures
        r@ == a@ + b@ + c@ + d@ + e@,
{
    let mut r = String::from_str(a);
    r.append(b);
    r.append(c);
    r.append(d);
    r.append(e);
    r
}

} // verus!
