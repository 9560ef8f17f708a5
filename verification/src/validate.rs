//! The target validator: the gateway's SSRF guard.
//!
//! A candidate proxy target is accepted only when it parses as an absolute
//! URL, its scheme is `http` or `https`, and its host equals one entry of the
//! allow-list exactly — no subdomain matching, no wildcards. Validation runs
//! before any network call is made with caller-influenced input.

use vstd::prelude::*;

use vstd::string::StringExecFns;

use crate::strutil::str_eq;

verus! {

/// What parsing a candidate target as an absolute URL yields: `None` when
/// the string is not an absolute URL, otherwise the scheme together with the
/// host, when the URL has one. The outcome is a function of the string alone.
pub uninterp spec fn url_parts(target: Seq<char>) -> Option<(Seq<char>, Option<Seq<char>>)>;

/// Why a candidate proxy target was rejected.
#[derive(PartialEq, Eq, Structural, Clone, Copy, Debug)]
pub enum RejectReason {
    /// The string does not parse as an absolute URL.
    InvalidUrl,
    /// The URL's scheme is neither `http` nor `https`.
    UnsupportedScheme,
    /// The URL's host is absent or not on the allow-list.
    HostNotAllowed,
}

/// The fixed set of hostnames the gateway may proxy to; read-only after
/// construction.
pub struct AllowList {
    pub hosts: Vec<String>,
}

impl AllowList {
    /// The hostnames, at the character level.
    pub open spec fn view_hosts(self) -> Seq<Seq<char>> {
        self.hosts@.map_values(|h: String| h@)
    }

    /// Builds an allow-list from explicit hostnames.
    pub fn new(hosts: Vec<String>) -> (r: AllowList)
        ensures
            r.view_hosts() == hosts@.map_values(|h: String| h@),
    {
        AllowList { hosts }
    }

    /// The allow-list the demo gateway runs with.
    pub fn standard() -> (r: AllowList)
        ensures
            r.view_hosts() == seq!["jsonplaceholder.typicode.com"@, "api.github.com"@],
    {
        let mut hosts: Vec<String> = Vec::new();
        hosts.push(String::from_str("jsonplaceholder.typicode.com"));
        hosts.push(String::from_str("api.github.com"));
        let r = AllowList { hosts };
        proof {
            assert(r.view_hosts() =~= seq!["jsonplaceholder.typicode.com"@, "api.github.com"@]);
        }
        r
    }

    /// True when `host` equals one entry exactly.
    pub open spec fn allows(self, host: Seq<char>) -> bool {
        self.view_hosts().contains(host)
    }

    /// Decides membership of `host` in the allow-list.
    pub fn contains_host(&self, host: &str) -> (r: bool)
        ensures
            r == self.allows(host@),
    {
        let n = self.hosts.len();
        let mut i: usize = 0;
        while i < n
            invariant
                n == self.hosts@.len(),
                i <= n,
                forall|j: int| 0 <= j < i ==> self.view_hosts()[j] != host@,
            decreases n - i,
        {
            if str_eq(self.hosts[i].as_str(), host) {
                proof {
                    assert(self.view_hosts()[i as int] == host@);
                }
                return true;
            }
            i += 1;
        }
        false
    }
}

/// A proxy target that passed validation (or is the build-time constant of
/// the fixed proxy route), ready to be fetched.
#[derive(Debug)]
pub struct ValidatedUrl {
    pub target: String,
}

/// The validator's verdict as a function of the target string and the
/// allow-list: the sole decision the SSRF guard makes.
pub open spec fn validate_decision(target: Seq<char>, allow: AllowList) -> Result<
    (),
    RejectReason,
> {
    match url_parts(target) {
        Option::None => Result::Err(RejectReason::InvalidUrl),
        Option::Some(parts) => if parts.0 != "http"@ && parts.0 != "https"@ {
            Result::Err(RejectReason::UnsupportedScheme)
        } else {
            match parts.1 {
                Option::None => Result::Err(RejectReason::HostNotAllowed),
                Option::Some(host) => if allow.allows(host) {
                    Result::Ok(())
                } else {
                    Result::Err(RejectReason::HostNotAllowed)
                },
            }
        },
    }
}

/// Relies on `reqwest::Url::parse` (a re-export of `url::Url::parse`), and on
/// the accessors `Url::scheme` and `Url::host_str`, to split a candidate
/// target into its scheme and host. Parsing either fails or yields a URL
/// whose scheme and host are functions of the input string alone.
#[verifier::external_body]
fn parse_target(target: &str) -> (r: Option<(String, Option<String>)>)
    ensures
        r is Some <==> url_parts(target@) is Some,
        r matches Some(p) ==> {
            &&& url_parts(target@) matches Some(q)
            &&& p.0@ == q.0
            &&& p.1 is Some <==> q.1 is Some
            &&& p.1 matches Some(h) ==> q.1 matches Some(hq) && h@ == hq
        },
{
    match reqwest::Url::parse(target) {
        Ok(u) => Some((u.scheme().to_string(), u.host_str().map(|h| h.to_string()))),
        Err(_) => None,
    }
}

/// Validates a candidate proxy target against the allow-list. Returns the
/// target, ready to fetch, exactly when [`validate_decision`] accepts it,
/// and the reason of [`validate_decision`] otherwise.
pub fn validate(allow: &AllowList, target: &str) -> (r: Result<ValidatedUrl, RejectReason>)
    ensures
        r matches Ok(v) ==> validate_decision(target@, *allow) is Ok && v.target@ == target@,
        r matches Err(e) ==> validate_decision(target@, *allow) == Result::<(), RejectReason>::Err(
            e,
        ),
{
    let parsed = match parse_target(target) {
        Option::None => {
            return Result::Err(RejectReason::InvalidUrl);
        },
        Option::Some(p) => p,
    };
    if !(str_eq(parsed.0.as_str(), "http") || str_eq(parsed.0.as_str(), "https")) {
        return Result::Err(RejectReason::UnsupportedScheme);
    }
    let host = match parsed.1 {
        Option::None => {
            return Result::Err(RejectReason::HostNotAllowed);
        },
        Option::Some(h) => h,
    };
    if !allow.contains_host(host.as_str()) {
        return Result::Err(RejectReason::HostNotAllowed);
    }
    Result::Ok(ValidatedUrl { target: String::from_str(target) })
}

} // verus!
