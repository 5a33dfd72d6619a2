//! The invocation rule and the exact text of every user-facing line.
//!
//! The program takes exactly one positional argument, the domain; any
//! other argument count shows the usage line and stops cleanly. Each
//! empty-result outcome produces one specific message, and a successful
//! lookup prints a fixed column header followed by the shaped reply.

use vstd::prelude::*;

use crate::ip::{ip_chars, IpAddress};

verus! {

/// What an invocation is to do, decided from the argument count alone.
pub enum InvocationPlan {
    /// Wrong number of arguments: show the usage line and stop cleanly.
    ShowUsage,
    /// Exactly one domain argument: run the lookup.
    Lookup,
}

/// Decides what an invocation does: a lookup exactly when the argument
/// count is two — the program name and one domain.
pub fn plan_invocation(arg_count: usize) -> (plan: InvocationPlan)
    ensures
        (plan is Lookup) <==> arg_count == 2,
{
    if arg_count == 2 {
        InvocationPlan::Lookup
    } else {
        InvocationPlan::ShowUsage
    }
}

/// The usage line shown for any argument count other than one domain.
pub fn usage_line(program: &str) -> (r: String)
    ensures
        r@ == "Usage: "@ + program@ + " <domain>"@,
{
    let mut s = String::from_str("Usage: ");
    s.append(program);
    s.append(" <domain>");
    s
}

/// The message shown when resolution yields no address for the domain.
pub fn unresolved_line(domain: &str) -> (r: String)
    ensures
        r@ == "Could not resolve the domain: "@ + domain@,
{
    let mut s = String::from_str("Could not resolve the domain: ");
    s.append(domain);
    s
}

/// The message shown when the shaped WHOIS reply holds no data for the
/// address.
pub fn no_data_line(ip: &IpAddress) -> (r: String)
    ensures
        r@ == "Could not retrieve ASN information for IP: "@ + ip_chars(*ip),
{
    let mut s = String::from_str("Could not retrieve ASN information for IP: ");
    let text = ip.text();
    s.append(text.as_str());
    s
}

/// The fixed column header printed above a successful lookup's data.
pub fn result_header() -> (r: String)
    ensures
        r@ == "AS      | IP               | BGP Prefix          | CC | Registry | Allocated  | AS Name"@,
{
    String::from_str(
        "AS      | IP               | BGP Prefix          | CC | Registry | Allocated  | AS Name",
    )
}

/// What a finished lookup prints: either the no-data message, or the
/// fixed column header followed by the shaped reply.
pub enum Presentation {
    /// The shaped reply was empty: one message line, no header.
    NoData { line: String },
    /// The shaped reply held data: the fixed header, then the reply bytes.
    Table { header: String, body: Vec<u8> },
}

/// Presents a completed lookup: an empty shaped reply becomes the no-data
/// message for the queried address, a nonempty one becomes the fixed
/// header with the reply as its body. No path prints a header followed by
/// missing data.
pub fn present(ip: &IpAddress, shaped: Vec<u8>) -> (r: Presentation)
    ensures
        shaped@.len() == 0 ==> (r matches Presentation::NoData { line } && line@
            == "Could not retrieve ASN information for IP: "@ + ip_chars(*ip)),
        shaped@.len() > 0 ==> (r matches Presentation::Table { header, body } && header@
            == "AS      | IP               | BGP Prefix          | CC | Registry | Allocated  | AS Name"@
            && body@ == shaped@),
{
    if shaped.len() == 0 {
        Presentation::NoData { line: no_data_line(ip) }
    } else {
        Presentation::Table { header: result_header(), body: shaped }
    }
}

} // verus!
