//! The client-facing pieces: endpoint normalization, the client's
//! configured values, and the persisted configuration defaults.

use vstd::prelude::*;

verus! {

/// The path of the status document on every supported printer.
pub open spec fn status_path() -> Seq<char> {
    "/DevMgmt/ProductUsageDyn.xml"@
}

pub open spec fn http_prefix() -> Seq<char> {
    "http://"@
}

pub open spec fn https_prefix() -> Seq<char> {
    "https://"@
}

pub open spec fn contains_at(s: Seq<char>, i: int, pat: Seq<char>) -> bool {
    0 <= i && i + pat.len() <= s.len() && s.subrange(i, i + pat.len() as int) == pat
}

pub open spec fn contains_seq(s: Seq<char>, pat: Seq<char>) -> bool {
    exists|i: int| contains_at(s, i, pat)
}

pub open spec fn starts_with(s: Seq<char>, pat: Seq<char>) -> bool {
    pat.len() <= s.len() && s.subrange(0, pat.len() as int) == pat
}

/// Length of `s` once every trailing `/` is removed.
pub open spec fn trim_len(s: Seq<char>) -> int
    decreases s.len(),
{
    if s.len() > 0 && s[s.len() - 1] == '/' {
        trim_len(s.drop_last())
    } else {
        s.len() as int
    }
}

/// The canonical status-document URL for a user-supplied endpoint: an
/// input already naming the status path is kept; an input with an
/// explicit scheme keeps the scheme, loses trailing slashes and gains
/// the path; anything else is taken as a bare host on plain HTTP.
pub open spec fn normalize_spec(s: Seq<char>) -> Seq<char> {
    if contains_seq(s, status_path()) {
        s
    } else if starts_with(s, http_prefix()) || starts_with(s, https_prefix()) {
        s.subrange(0, trim_len(s)) + status_path()
    } else {
        http_prefix() + s + status_path()
    }
}

/// Normalizing is idempotent: a normalized endpoint always contains
/// the status path, so a second pass returns it unchanged.
pub proof fn lemma_normalize_idempotent(u: Seq<char>)
    ensures
        normalize_spec(normalize_spec(u)) == normalize_spec(u),
{
    let p = status_path();
    let r = normalize_spec(u);
    if !contains_seq(u, p) {
        let x = if starts_with(u, http_prefix()) || starts_with(u, https_prefix()) {
            u.subrange(0, trim_len(u))
        } else {
            http_prefix() + u
        };
        assert(r == x + p);
        assert(r.subrange(x.len() as int, x.len() + p.len() as int) =~= p);
        assert(contains_at(r, x.len() as int, p));
    }
}

fn str_chars(s: &str) -> (v: Vec<char>)
    ensures
        v@ == s@,
{
    let n = s.unicode_len();
    let mut v: Vec<char> = Vec::new();
    let mut k: usize = 0;
    while k < n
        invariant
            k <= n,
            n == s@.len(),
            v@ == s@.subrange(0, k as int),
        decreases n - k,
    {
        let c = s.get_char(k);
        v.push(c);
        proof {
            assert(v@ =~= s@.subrange(0, k + 1));
        }
        k += 1;
    }
    proof {
        assert(v@ =~= s@);
    }
    v
}

fn chars_match_at(s: &Vec<char>, i: usize, pat: &Vec<char>) -> (r: bool)
    requires
        i <= s@.len(),
    ensures
        r == contains_at(s@, i as int, pat@),
{
    if pat.len() > s.len() - i {
        return false;
    }
    let n = s.len();
    let mut k: usize = 0;
    while k < pat.len()
        invariant
            n == s@.len(),
            i + pat@.len() <= s@.len(),
            k <= pat@.len(),
            forall|m: int| 0 <= m < k ==> s@[i + m] == pat@[m],
        decreases pat@.len() - k,
    {
        if s[i + k] != pat[k] {
            proof {
                assert(s@.subrange(i as int, i + pat@.len() as int)[k as int] == s@[i + k]);
            }
            return false;
        }
        k += 1;
    }
    proof {
        assert(s@.subrange(i as int, i + pat@.len() as int) =~= pat@);
    }
    true
}

fn contains_chars(s: &Vec<char>, pat: &Vec<char>) -> (r: bool)
    ensures
        r == contains_seq(s@, pat@),
{
    let mut a: usize = 0;
    loop
        invariant
            a <= s@.len(),
            forall|i: int| 0 <= i < a ==> !contains_at(s@, i, pat@),
        decreases s@.len() - a,
    {
        if chars_match_at(s, a, pat) {
            return true;
        }
        if a == s.len() {
            proof {
                assert(forall|i: int| contains_at(s@, i, pat@) ==> 0 <= i <= s@.len());
            }
            return false;
        }
        a += 1;
    }
}

fn starts_with_chars(s: &Vec<char>, pat: &Vec<char>) -> (r: bool)
    ensures
        r == starts_with(s@, pat@),
{
    chars_match_at(s, 0, pat)
}

/// Persisted configuration: the default endpoint, the default request
/// timeout in seconds, and the moment of the last successful reading.
#[derive(Clone, Debug)]
pub struct Config {
    pub printer_url: String,
    pub timeout_seconds: u64,
    pub last_updated: Option<i64>,
}

impl Default for Config {
    /// The values an absent configuration file stands for.
    fn default() -> (c: Self)
        ensures
            c.printer_url@ == Seq::<char>::empty(),
            c.timeout_seconds == 30,
            c.last_updated is None,
    {
        Config { printer_url: String::new(), timeout_seconds: 30, last_updated: None }
    }
}

/// A configured printer endpoint together with the request timeout the
/// fetch must honour.  The network call itself happens outside the
/// library; the client only fixes the values the call uses.
pub struct HPPrinterClient {
    pub printer_url: String,
    pub timeout_seconds: u64,
}

impl HPPrinterClient {
    pub fn new(printer_url: String, timeout_seconds: u64) -> (c: Self)
        ensures
            c.printer_url@ == printer_url@,
            c.timeout_seconds == timeout_seconds,
    {
        Self { printer_url, timeout_seconds }
    }

    /// Canonical status-document URL for a user-supplied host, URL or
    /// URL fragment.
    pub fn normalize_printer_url(input: &str) -> (r: String)
        ensures
            r@ == normalize_spec(input@),
    {
        let chars = str_chars(input);
        let path = str_chars("/DevMgmt/ProductUsageDyn.xml");
        if contains_chars(&chars, &path) {
            return input.to_owned();
        }
        let http = str_chars("http://");
        let https = str_chars("https://");
        if starts_with_chars(&chars, &http) || starts_with_chars(&chars, &https) {
            let mut k = chars.len();
            proof {
                assert(chars@.subrange(0, k as int) =~= chars@);
            }
            while k > 0 && chars[k - 1] == '/'
                invariant
                    k <= chars@.len(),
                    trim_len(input@) == trim_len(chars@.subrange(0, k as int)),
                decreases k,
            {
                proof {
                    assert(chars@.subrange(0, k as int).drop_last() =~= chars@.subrange(
                        0,
                        k - 1,
                    ));
                }
                k -= 1;
            }
            proof {
                assert(trim_len(chars@.subrange(0, k as int)) == k);
            }
            let base = input.substring_char(0, k);
            let mut out = base.to_owned();
            out.append("/DevMgmt/ProductUsageDyn.xml");
            return out;
        }
        let mut out = String::from_str("http://");
        out.append(input);
        out.append("/DevMgmt/ProductUsageDyn.xml");
        out
    }
}

} // verus!
