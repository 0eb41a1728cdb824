//! Download options as the user gives them, each optional, and the settings
//! they stand for once every missing option takes its default.
use std::collections::HashMap;
use vstd::prelude::*;
use vstd::string::StringExecFns;

verus! {

/// Worker threads when the option is missing.
pub const DEFAULT_THREADS: usize = 32;
/// Smallest chunk size in bytes when the option is missing.
pub const DEFAULT_MIN_CHUNK_SIZE: u64 = 500 * 1024;
/// Write buffer size in bytes when the option is missing.
pub const DEFAULT_WRITE_BUFFER_SIZE: usize = 16 * 1024 * 1024;
/// Write queue capacity when the option is missing.
pub const DEFAULT_WRITE_QUEUE_CAP: usize = 10240;
/// Milliseconds between retries when the option is missing.
pub const DEFAULT_RETRY_GAP_MS: u64 = 500;
/// Pull timeout in milliseconds when the option is missing.
pub const DEFAULT_PULL_TIMEOUT_MS: u64 = 5000;
/// Retries when the option is missing.
pub const DEFAULT_RETRY_TIMES: usize = 3;
/// Speculative workers when the option is missing.
pub const DEFAULT_MAX_SPECULATIVE: usize = 3;
/// Chunk window in bytes when the option is missing.
pub const DEFAULT_CHUNK_WINDOW: u64 = 8 * 1024;

/// The options of a download; a missing option takes its default.
pub struct Config {
    pub threads: Option<usize>,
    pub proxy: Option<String>,
    pub headers: Option<HashMap<String, String>>,
    pub min_chunk_size: Option<u64>,
    pub write_buffer_size: Option<usize>,
    pub write_queue_cap: Option<usize>,
    pub retry_gap_ms: Option<u64>,
    pub pull_timeout_ms: Option<u64>,
    pub accept_invalid_certs: Option<bool>,
    pub accept_invalid_hostnames: Option<bool>,
    pub write_method: Option<String>,
    pub retry_times: Option<usize>,
    pub local_address: Option<Vec<String>>,
    pub max_speculative: Option<usize>,
    pub downloaded_chunk: Option<Vec<(u64, u64)>>,
    pub chunk_window: Option<u64>,
}

/// Which proxy the downloader goes through.
pub enum ProxySetting {
    /// No proxy at all.
    No,
    /// The proxy that the system names.
    System,
    /// The proxy at this address.
    Custom(String),
}

/// How the downloaded bytes reach the file.
pub enum WriteMethod {
    Mmap,
    Std,
}

/// The settings of a download, every option decided.
pub struct Settings {
    pub threads: usize,
    pub proxy: ProxySetting,
    pub headers: HashMap<String, String>,
    pub min_chunk_size: u64,
    pub write_buffer_size: usize,
    pub write_queue_cap: usize,
    pub retry_gap_ms: u64,
    pub pull_timeout_ms: u64,
    pub accept_invalid_certs: bool,
    pub accept_invalid_hostnames: bool,
    pub write_method: WriteMethod,
    pub retry_times: usize,
    /// The addresses to send from: the given texts that are IP addresses.
    pub local_address: Vec<core::net::IpAddr>,
    pub max_speculative: usize,
    /// The `(start, end)` byte ranges that are already downloaded.
    pub downloaded_chunk: Vec<(u64, u64)>,
    pub chunk_window: u64,
}

/// `p` is the proxy that an option names: `"no"` turns the proxy off,
/// `"system"` or no option takes the system's, anything else is a proxy
/// address.
pub open spec fn proxy_named(p: ProxySetting, option: Option<Seq<char>>) -> bool {
    match option {
        None => p is System,
        Some(t) => if t == "no"@ {
            p is No
        } else if t == "system"@ {
            p is System
        } else {
            p matches ProxySetting::Custom(a) && a@ == t
        },
    }
}

/// The write method that an option names: `"std"` writes through the file,
/// anything else, or no option, maps the file into memory.
pub open spec fn write_method_of(w: Option<Seq<char>>) -> WriteMethod {
    match w {
        Some(t) => if t == "std"@ {
            WriteMethod::Std
        } else {
            WriteMethod::Mmap
        },
        None => WriteMethod::Mmap,
    }
}

/// The text of an optional string.
pub open spec fn opt_view(v: Option<String>) -> Option<Seq<char>> {
    match v {
        Some(t) => Some(t@),
        None => None,
    }
}

/// The texts of a vector of strings.
pub open spec fn texts(v: Seq<String>) -> Seq<Seq<char>> {
    v.map_values(|s: String| s@)
}

/// An IP address.
#[verifier::external_type_specification]
#[verifier::external_body]
pub struct ExIpAddr(core::net::IpAddr);

/// What core's IP address parser makes of a text: the address, or `None`
/// when the text is no IPv4 or IPv6 address.
pub uninterp spec fn ip_address_of(s: Seq<char>) -> Option<core::net::IpAddr>;

/// Wraps `<core::net::IpAddr as core::str::FromStr>::from_str`, keeping the
/// address and dropping the error. The result depends on the text alone.
#[verifier::external_body]
fn parse_ip_address(s: &str) -> (r: Option<core::net::IpAddr>)
    ensures
        r == ip_address_of(s@),
{
    s.parse::<core::net::IpAddr>().ok()
}

/// The addresses of the texts that are IP addresses, in order; the other
/// texts are skipped.
pub open spec fn ip_addresses(ts: Seq<Seq<char>>) -> Seq<core::net::IpAddr>
    decreases ts.len(),
{
    if ts.len() == 0 {
        Seq::empty()
    } else {
        let rest = ip_addresses(ts.drop_last());
        match ip_address_of(ts.last()) {
            Some(a) => rest.push(a),
            None => rest,
        }
    }
}

/// Parses the texts that are IP addresses, in order, and skips the others.
fn parse_ip_addresses(v: &Vec<String>) -> (r: Vec<core::net::IpAddr>)
    ensures
        r@ == ip_addresses(texts(v@)),
{
    let mut r: Vec<core::net::IpAddr> = Vec::new();
    let mut i: usize = 0;
    while i < v.len()
        invariant
            i <= v@.len(),
            r@ == ip_addresses(texts(v@.take(i as int))),
        decreases v@.len() - i,
    {
        let parsed = parse_ip_address(v[i].as_str());
        proof {
            assert(texts(v@.take(i + 1)).drop_last() =~= texts(v@.take(i as int)));
            assert(texts(v@.take(i + 1)).last() == v@[i as int]@);
        }
        match parsed {
            Some(a) => r.push(a),
            None => {},
        }
        i = i + 1;
    }
    proof {
        assert(v@.take(i as int) =~= v@);
    }
    r
}

/// Copies a vector of byte ranges.
fn copy_ranges(v: &Vec<(u64, u64)>) -> (r: Vec<(u64, u64)>)
    ensures
        r@ == v@,
{
    let mut r: Vec<(u64, u64)> = Vec::new();
    let mut i: usize = 0;
    while i < v.len()
        invariant
            i <= v@.len(),
            r@ == v@.take(i as int),
        decreases v@.len() - i,
    {
        let p = v[i];
        r.push((p.0, p.1));
        i = i + 1;
        proof {
            assert(r@ =~= v@.take(i as int));
        }
    }
    proof {
        assert(v@.take(i as int) =~= v@);
    }
    r
}

impl Config {
    /// Options with exactly the given values.
    pub fn new(
        threads: Option<usize>,
        proxy: Option<String>,
        headers: Option<HashMap<String, String>>,
        min_chunk_size: Option<u64>,
        write_buffer_size: Option<usize>,
        write_queue_cap: Option<usize>,
        retry_gap_ms: Option<u64>,
        pull_timeout_ms: Option<u64>,
        accept_invalid_certs: Option<bool>,
        accept_invalid_hostnames: Option<bool>,
        write_method: Option<String>,
        retry_times: Option<usize>,
        local_address: Option<Vec<String>>,
        max_speculative: Option<usize>,
        downloaded_chunk: Option<Vec<(u64, u64)>>,
        chunk_window: Option<u64>,
    ) -> (c: Self)
        ensures
            c == (Config {
                threads,
                proxy,
                headers,
                min_chunk_size,
                write_buffer_size,
                write_queue_cap,
                retry_gap_ms,
                pull_timeout_ms,
                accept_invalid_certs,
                accept_invalid_hostnames,
                write_method,
                retry_times,
                local_address,
                max_speculative,
                downloaded_chunk,
                chunk_window,
            }),
    {
        Config {
            threads,
            proxy,
            headers,
            min_chunk_size,
            write_buffer_size,
            write_queue_cap,
            retry_gap_ms,
            pull_timeout_ms,
            accept_invalid_certs,
            accept_invalid_hostnames,
            write_method,
            retry_times,
            local_address,
            max_speculative,
            downloaded_chunk,
            chunk_window,
        }
    }

    /// The settings these options stand for. Missing options take their
    /// defaults: 32 threads, the system's proxy, no extra headers, chunks of at
    /// least 500 KiB, a 16 MiB write buffer, a write queue of 10240 pieces,
    /// 500 ms between retries, a 5000 ms pull timeout, certificates and host
    /// names checked, writing through a memory map, 3 retries, no local
    /// address, 3 speculative workers, nothing downloaded yet, and an 8 KiB
    /// chunk window. Of the given local addresses, the texts that are IP
    /// addresses are kept, in order, and the others are skipped.
    pub fn to_settings(&self) -> (s: Settings)
        ensures
            s.threads == self.threads.unwrap_or(DEFAULT_THREADS),
            proxy_named(s.proxy, opt_view(self.proxy)),
            match self.proxy {
                Some(p) => if p@ == "no"@ {
                    s.proxy is No
                } else if p@ == "system"@ {
                    s.proxy is System
                } else {
                    s.proxy matches ProxySetting::Custom(a) && a@ == p@
                },
                None => s.proxy is System,
            },
            s.proxy is System <==> (opt_view(self.proxy) is None || opt_view(self.proxy) == Some(
                "system"@,
            )),
            s.headers@ == match self.headers {
                Some(h) => h@,
                None => Map::<String, String>::empty(),
            },
            s.min_chunk_size == self.min_chunk_size.unwrap_or(DEFAULT_MIN_CHUNK_SIZE),
            s.write_buffer_size == self.write_buffer_size.unwrap_or(DEFAULT_WRITE_BUFFER_SIZE),
            s.write_queue_cap == self.write_queue_cap.unwrap_or(DEFAULT_WRITE_QUEUE_CAP),
            s.retry_gap_ms == self.retry_gap_ms.unwrap_or(DEFAULT_RETRY_GAP_MS),
            s.pull_timeout_ms == self.pull_timeout_ms.unwrap_or(DEFAULT_PULL_TIMEOUT_MS),
            s.accept_invalid_certs == self.accept_invalid_certs.unwrap_or(false),
            s.accept_invalid_hostnames == self.accept_invalid_hostnames.unwrap_or(false),
            s.write_method == write_method_of(opt_view(self.write_method)),
            s.write_method is Std <==> opt_view(self.write_method) == Some("std"@),
            s.retry_times == self.retry_times.unwrap_or(DEFAULT_RETRY_TIMES),
            s.local_address@ == match self.local_address {
                Some(v) => ip_addresses(texts(v@)),
                None => Seq::<core::net::IpAddr>::empty(),
            },
            s.max_speculative == self.max_speculative.unwrap_or(DEFAULT_MAX_SPECULATIVE),
            s.downloaded_chunk@ == match self.downloaded_chunk {
                Some(v) => v@,
                None => Seq::<(u64, u64)>::empty(),
            },
            s.chunk_window == self.chunk_window.unwrap_or(DEFAULT_CHUNK_WINDOW),
    {
        proof {
            reveal_strlit("no");
            reveal_strlit("system");
            assert("no"@.len() == 2);
            assert("system"@.len() == 6);
        }
        let proxy = match &self.proxy {
            None => ProxySetting::System,
            Some(p) => {
                if *p == String::from_str("no") {
                    ProxySetting::No
                } else if *p == String::from_str("system") {
                    ProxySetting::System
                } else {
                    ProxySetting::Custom(p.clone())
                }
            },
        };
        let headers = match &self.headers {
            Some(h) => h.clone(),
            None => HashMap::new(),
        };
        let write_method = match &self.write_method {
            Some(w) => {
                if *w == String::from_str("std") {
                    WriteMethod::Std
                } else {
                    WriteMethod::Mmap
                }
            },
            None => WriteMethod::Mmap,
        };
        let local_address = match &self.local_address {
            Some(v) => parse_ip_addresses(v),
            None => Vec::new(),
        };
        let downloaded_chunk = match &self.downloaded_chunk {
            Some(v) => copy_ranges(v),
            None => Vec::new(),
        };
        proof {
            assert(local_address@ =~= match self.local_address {
                Some(v) => ip_addresses(texts(v@)),
                None => Seq::<core::net::IpAddr>::empty(),
            });
        }
        Settings {
            threads: self.threads.unwrap_or(DEFAULT_THREADS),
            proxy,
            headers,
            min_chunk_size: self.min_chunk_size.unwrap_or(DEFAULT_MIN_CHUNK_SIZE),
            write_buffer_size: self.write_buffer_size.unwrap_or(DEFAULT_WRITE_BUFFER_SIZE),
            write_queue_cap: self.write_queue_cap.unwrap_or(DEFAULT_WRITE_QUEUE_CAP),
            retry_gap_ms: self.retry_gap_ms.unwrap_or(DEFAULT_RETRY_GAP_MS),
            pull_timeout_ms: self.pull_timeout_ms.unwrap_or(DEFAULT_PULL_TIMEOUT_MS),
            accept_invalid_certs: self.accept_invalid_certs.unwrap_or(false),
            accept_invalid_hostnames: self.accept_invalid_hostnames.unwrap_or(false),
            write_method,
            retry_times: self.retry_times.unwrap_or(DEFAULT_RETRY_TIMES),
            local_address,
            max_speculative: self.max_speculative.unwrap_or(DEFAULT_MAX_SPECULATIVE),
            downloaded_chunk,
            chunk_window: self.chunk_window.unwrap_or(DEFAULT_CHUNK_WINDOW),
        }
    }
}

impl Default for Config {
    /// Options that are all missing.
    fn default() -> (c: Self)
        ensures
            c == (Config {
                threads: None,
                proxy: None,
                headers: None,
                min_chunk_size: None,
                write_buffer_size: None,
                write_queue_cap: None,
                retry_gap_ms: None,
                pull_timeout_ms: None,
                accept_invalid_certs: None,
                accept_invalid_hostnames: None,
                write_method: None,
                retry_times: None,
                local_address: None,
                max_speculative: None,
                downloaded_chunk: None,
                chunk_window: None,
            }),
    {
        Config {
            threads: None,
            proxy: None,
            headers: None,
            min_chunk_size: None,
            write_buffer_size: None,
            write_queue_cap: None,
            retry_gap_ms: None,
            pull_timeout_ms: None,
            accept_invalid_certs: None,
            accept_invalid_hostnames: None,
            write_method: None,
            retry_times: None,
            local_address: None,
            max_speculative: None,
            downloaded_chunk: None,
            chunk_window: None,
        }
    }
}

/// Law: every proxy text other than exactly `no` and `system` names a proxy
/// at that very text; `no` turns the proxy off; only `system` or no option
/// takes the system's proxy.
pub proof fn law_proxy_words(p: ProxySetting, t: Option<Seq<char>>)
    requires
        proxy_named(p, t),
    ensures
        match t {
            Some(x) => (x != "no"@ && x != "system"@) ==> (p matches ProxySetting::Custom(a) && a@ == x),
            None => true,
        },
        t == Some("no"@) ==> p is No,
        p is System <==> (t is None || t == Some("system"@)),
{
    reveal_strlit("no");
    reveal_strlit("system");
    assert("no"@.len() == 2);
    assert("system"@.len() == 6);
}

/// Law: the addresses kept from a list of texts are those kept from its first
/// part followed by those kept from the rest: every text is judged on its
/// own, in order.
pub proof fn law_ip_addresses_concat(a: Seq<Seq<char>>, b: Seq<Seq<char>>)
    ensures
        ip_addresses(a + b) == ip_addresses(a) + ip_addresses(b),
    decreases b.len(),
{
    if b.len() == 0 {
        assert(a + b =~= a);
        assert(ip_addresses(a) + ip_addresses(b) =~= ip_addresses(a));
    } else {
        law_ip_addresses_concat(a, b.drop_last());
        assert((a + b).drop_last() =~= a + b.drop_last());
        assert((a + b).last() == b.last());
        match ip_address_of(b.last()) {
            Some(x) => {
                assert(ip_addresses(a) + ip_addresses(b) =~= (ip_addresses(a) + ip_addresses(
                    b.drop_last(),
                )).push(x));
            },
            None => {},
        }
    }
}

/// Law: one text gives its address when it is an IP address, and nothing
/// otherwise.
pub proof fn law_ip_addresses_single(t: Seq<char>)
    ensures
        ip_addresses(seq![t]) == match ip_address_of(t) {
            Some(x) => seq![x],
            None => Seq::<core::net::IpAddr>::empty(),
        },
{
    assert(seq![t].drop_last() =~= Seq::<Seq<char>>::empty());
    assert(ip_addresses(Seq::<Seq<char>>::empty()) =~= Seq::<core::net::IpAddr>::empty());
    match ip_address_of(t) {
        Some(x) => {
            assert(Seq::<core::net::IpAddr>::empty().push(x) =~= seq![x]);
        },
        None => {},
    }
}

/// Law: as many addresses are kept as there are texts that are IP
/// addresses.
pub proof fn law_ip_addresses_count(ts: Seq<Seq<char>>)
    ensures
        ip_addresses(ts).len() == ts.filter(|t: Seq<char>| ip_address_of(t) is Some).len(),
    decreases ts.len(),
{
    reveal_with_fuel(Seq::filter, 1);
    if ts.len() > 0 {
        law_ip_addresses_count(ts.drop_last());
    }
}

} // verus!
