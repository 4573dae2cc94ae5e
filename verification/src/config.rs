use vstd::prelude::*;

use crate::text::{chars_of, contains, contains_exec, owned, starts_with, starts_with_exec};

verus! {

broadcast use vstd::string::group_string_axioms;

/// The storage endpoint as the service uses it: a scheme-less endpoint is
/// taken to be plain HTTP.
pub open spec fn normalized_endpoint(endpoint: Seq<char>) -> Seq<char> {
    if starts_with(endpoint, "http"@) {
        endpoint
    } else {
        "http://"@ + endpoint
    }
}

/// Whether the object store is addressed in virtual-host style: exactly the
/// hosted AWS and Google endpoints are.
pub open spec fn virtual_host_style(endpoint: Seq<char>) -> bool {
    contains(endpoint, "amazonaws.com"@) || contains(endpoint, "googleapis.com"@)
}

/// Prefixes `http://` to an endpoint that does not begin with `http`.
pub fn normalize_endpoint(endpoint: &str) -> (res: String)
    ensures
        res@ == normalized_endpoint(endpoint@),
{
    let cs = chars_of(endpoint);
    let http = chars_of("http");
    if starts_with_exec(&cs, &http) {
        owned(endpoint)
    } else {
        owned("http://").concat(endpoint)
    }
}

/// Whether the endpoint needs virtual-host-style addressing.
pub fn uses_virtual_host_style(endpoint: &str) -> (res: bool)
    ensures
        res == virtual_host_style(endpoint@),
{
    let cs = chars_of(endpoint);
    let aws = chars_of("amazonaws.com");
    let google = chars_of("googleapis.com");
    contains_exec(&cs, &aws) || contains_exec(&cs, &google)
}

/// The configured region, or `us-east-1` when none is configured.
pub fn region_or_default(region: Option<String>) -> (res: String)
    ensures
        match region {
            Some(r) => res@ == r@,
            None => res@ == "us-east-1"@,
        },
{
    match region {
        Some(r) => r,
        None => owned("us-east-1"),
    }
}

/// How many renderings may run at once: the machine's parallelism when it is
/// known, else 4.
pub fn concurrency_or_default(parallelism: Option<usize>) -> (res: usize)
    ensures
        res == match parallelism {
            Some(n) => n,
            None => 4,
        },
{
    match parallelism {
        Some(n) => n,
        None => 4,
    }
}

/// A normalized endpoint names its scheme: it begins with `http`.
pub proof fn law_normalized_endpoint_has_scheme(endpoint: Seq<char>)
    ensures
        starts_with(normalized_endpoint(endpoint), "http"@),
{
    reveal_strlit("http");
    reveal_strlit("http://");
    if !starts_with(endpoint, "http"@) {
        let n = normalized_endpoint(endpoint);
        assert(n.subrange(0, 4) =~= "http"@);
    }
}

/// Normalizing an endpoint twice gives what normalizing it once gives.
pub proof fn law_normalize_endpoint_idempotent(endpoint: Seq<char>)
    ensures
        normalized_endpoint(normalized_endpoint(endpoint)) == normalized_endpoint(endpoint),
{
    law_normalized_endpoint_has_scheme(endpoint);
}

/// An endpoint that begins with `http` is kept as it is; any other gets
/// exactly `http://` in front, for plain HTTP.
pub proof fn law_endpoint_without_scheme_gets_http(endpoint: Seq<char>)
    ensures
        starts_with(endpoint, seq!['h', 't', 't', 'p']) ==> normalized_endpoint(endpoint) == endpoint,
        !starts_with(endpoint, seq!['h', 't', 't', 'p']) ==> normalized_endpoint(endpoint) == seq![
            'h',
            't',
            't',
            'p',
            ':',
            '/',
            '/',
        ] + endpoint,
{
    reveal_strlit("http");
    reveal_strlit("http://");
    assert("http"@ =~= seq!['h', 't', 't', 'p']);
    assert("http://"@ =~= seq!['h', 't', 't', 'p', ':', '/', '/']);
}

} // verus!
