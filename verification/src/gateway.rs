use crate::auth::CreateAccessKeyRequest;
use crate::engine::StorageConfig;
use crate::text::{
    chars_of, decimal, decimal_exec, extend_chars, lemma_split_first_piece, lemma_split_nonempty, one_char, push_str_chars, split,
    split_exec, string_of, string_views, views,
};
use vstd::prelude::*;

verus! {

/// TLS settings of the server.
#[derive(Debug)]
pub struct TlsConfig {
    pub cert_path: String,
    pub key_path: String,
    pub https_port: Option<u16>,
    pub redirect_http_to_https: bool,
}

/// Settings of the server.
#[derive(Debug)]
pub struct ServerConfig {
    pub bind_address: String,
    pub port: u16,
    pub database_url: String,
    pub data_dir: String,
    pub temp_dir: String,
    pub log_level: String,
    pub tls: Option<TlsConfig>,
}

impl Default for ServerConfig {
    /// Listens on 127.0.0.1:3000 without TLS, with the catalog in
    /// `sqlite:./ghostbay.db`, objects in `./data`, temporary files in `./tmp`,
    /// logging at `info`.
    fn default() -> (c: Self)
        ensures
            c.bind_address@ == "127.0.0.1"@,
            c.port == 3000,
            c.database_url@ == "sqlite:./ghostbay.db"@,
            c.data_dir@ == "./data"@,
            c.temp_dir@ == "./tmp"@,
            c.log_level@ == "info"@,
            c.tls is None,
    {
        ServerConfig {
            bind_address: String::from_str("127.0.0.1"),
            port: 3000,
            database_url: String::from_str("sqlite:./ghostbay.db"),
            data_dir: String::from_str("./data"),
            temp_dir: String::from_str("./tmp"),
            log_level: String::from_str("info"),
            tls: None,
        }
    }
}

/// `address:port`.
pub open spec fn socket_address(address: Seq<char>, port: u16) -> Seq<char> {
    address + seq![':'] + decimal(port as nat)
}

fn socket_address_exec(address: &String, port: u16) -> (s: String)
    ensures
        s@ == socket_address(address@, port),
{
    let mut v = chars_of(address.as_str());
    v.push(':');
    let d = decimal_exec(port as u64);
    extend_chars(&mut v, d.as_slice());
    string_of(v.as_slice())
}

/// The S3 server.
#[derive(Debug)]
pub struct GhostBayServer {
    pub config: ServerConfig,
}

impl GhostBayServer {
    /// A server with the given settings.
    pub fn new(config: ServerConfig) -> (s: Self)
        ensures
            s.config == config,
    {
        GhostBayServer { config }
    }

    /// The address of the plain HTTP listener: `bind_address:port`.
    pub fn http_address(&self) -> (a: String)
        ensures
            a@ == socket_address(self.config.bind_address@, self.config.port),
    {
        socket_address_exec(&self.config.bind_address, self.config.port)
    }

    /// The address of the HTTPS listener: `bind_address:https_port`, port 443 when
    /// none is set.
    pub fn https_address(&self, tls: &TlsConfig) -> (a: String)
        ensures
            a@ == socket_address(
                self.config.bind_address@,
                match tls.https_port {
                    Some(p) => p,
                    None => 443u16,
                },
            ),
    {
        let port = match tls.https_port {
            Some(p) => p,
            None => 443,
        };
        socket_address_exec(&self.config.bind_address, port)
    }

    /// The storage settings of the server: its data and temporary directories.
    pub fn storage_config(&self) -> (c: StorageConfig)
        ensures
            c.data_dir == self.config.data_dir,
            c.temp_dir == self.config.temp_dir,
    {
        StorageConfig { data_dir: self.config.data_dir.clone(), temp_dir: self.config.temp_dir.clone() }
    }
}

/// The HTTPS URL that a plain HTTP request is redirected to: the host of the
/// request's authority without its port (`localhost` when there is none),
/// followed by its path and query (`/` when there is none).
pub open spec fn https_redirect_url(authority: Option<Seq<char>>, path_and_query: Option<Seq<char>>) -> Seq<char> {
    let a = match authority {
        Some(a) => a,
        None => "localhost"@,
    };
    let p = match path_and_query {
        Some(p) => p,
        None => seq!['/'],
    };
    "https://"@ + split(a, seq![':'])[0] + p
}

/// The view of an optional string slice.
pub open spec fn opt_str(o: Option<&str>) -> Option<Seq<char>> {
    match o {
        Some(s) => Some(s@),
        None => None,
    }
}

/// Whether `h` is the host of an authority `a`: the text of `a` before its
/// first `:`, all of `a` when it has none.
pub open spec fn is_host_of(h: Seq<char>, a: Seq<char>) -> bool {
    &&& h.len() <= a.len()
    &&& a.take(h.len() as int) == h
    &&& forall|j: int| 0 <= j < h.len() ==> h[j] != ':'
    &&& (h.len() == a.len() || a[h.len() as int] == ':')
}

/// The authority of a request, `localhost` without one.
pub open spec fn authority_or_localhost(authority: Option<Seq<char>>) -> Seq<char> {
    match authority {
        Some(a) => a,
        None => "localhost"@,
    }
}

/// The path and query of a request, `/` without one.
pub open spec fn path_or_root(path_and_query: Option<Seq<char>>) -> Seq<char> {
    match path_and_query {
        Some(p) => p,
        None => seq!['/'],
    }
}

/// A redirect goes to `https://`, the host of the request's authority (of
/// `localhost` without one), and then the request's whole path and query (`/`
/// without one), unchanged.
pub proof fn lemma_redirect_keeps_host_and_path(authority: Option<Seq<char>>, path_and_query: Option<Seq<char>>)
    ensures
        exists|h: Seq<char>|
            #[trigger] is_host_of(h, authority_or_localhost(authority)) && https_redirect_url(authority, path_and_query)
                == "https://"@ + h + path_or_root(path_and_query),
{
    let a = authority_or_localhost(authority);
    let k = lemma_split_first_piece(a, ':');
    let h = split(a, seq![':'])[0];
    assert(h == a.take(k));
    assert forall|j: int| 0 <= j < h.len() implies h[j] != ':' by {
        assert(h[j] == a[j]);
    }
    assert(a.take(h.len() as int) == h);
    assert(is_host_of(h, a));
}

/// The HTTPS URL for a redirect of a plain HTTP request.
pub fn redirect_url(authority: Option<&str>, path_and_query: Option<&str>) -> (u: String)
    ensures
        u@ == https_redirect_url(opt_str(authority), opt_str(path_and_query)),
        exists|h: Seq<char>|
            #[trigger] is_host_of(h, authority_or_localhost(opt_str(authority))) && u@ == "https://"@ + h
                + path_or_root(opt_str(path_and_query)),
{
    proof {
        lemma_redirect_keeps_host_and_path(opt_str(authority), opt_str(path_and_query));
    }
    let a = match authority {
        Some(a) => chars_of(a),
        None => chars_of("localhost"),
    };
    let colon = one_char(':');
    let pieces = split_exec(a.as_slice(), colon.as_slice());
    proof {
        lemma_split_nonempty(a@, seq![':']);
    }
    assert(views(pieces@)[0] == pieces@[0]@);
    let mut v: Vec<char> = Vec::new();
    push_str_chars(&mut v, "https://");
    extend_chars(&mut v, pieces[0].as_slice());
    match path_and_query {
        Some(p) => push_str_chars(&mut v, p),
        None => v.push('/'),
    }
    assert(v@ =~= https_redirect_url(opt_str(authority), opt_str(path_and_query)));
    string_of(v.as_slice())
}

/// The headers that every response carries, as name and value.
pub open spec fn security_header_list() -> Seq<(Seq<char>, Seq<char>)> {
    seq![
        ("Strict-Transport-Security"@, "max-age=31536000; includeSubDomains; preload"@),
        ("Content-Security-Policy"@, "default-src 'self'; object-src 'none'; frame-ancestors 'none'"@),
        ("X-Frame-Options"@, "DENY"@),
        ("X-Content-Type-Options"@, "nosniff"@),
        ("Referrer-Policy"@, "strict-origin-when-cross-origin"@),
        ("Permissions-Policy"@, "geolocation=(), microphone=(), camera=()"@),
    ]
}

/// The security headers added to every response, in order.
pub fn security_headers() -> (h: Vec<(String, String)>)
    ensures
        h@.map_values(|e: (String, String)| (e.0@, e.1@)) == security_header_list(),
{
    let mut h: Vec<(String, String)> = Vec::new();
    h.push((String::from_str("Strict-Transport-Security"), String::from_str("max-age=31536000; includeSubDomains; preload")));
    h.push((String::from_str("Content-Security-Policy"), String::from_str("default-src 'self'; object-src 'none'; frame-ancestors 'none'")));
    h.push((String::from_str("X-Frame-Options"), String::from_str("DENY")));
    h.push((String::from_str("X-Content-Type-Options"), String::from_str("nosniff")));
    h.push((String::from_str("Referrer-Policy"), String::from_str("strict-origin-when-cross-origin")));
    h.push((String::from_str("Permissions-Policy"), String::from_str("geolocation=(), microphone=(), camera=()")));
    assert(h@.map_values(|e: (String, String)| (e.0@, e.1@)) =~= security_header_list());
    h
}


/// The access key that the server creates when it starts: `admin` policy, no
/// expiry, described as the default admin key for testing.
pub fn default_admin_key_request() -> (r: CreateAccessKeyRequest)
    ensures
        string_views(r.policies@) == seq!["admin"@],
        r.description matches Some(d) && d@ == "Default admin access key for testing"@,
        r.expires_at is None,
{
    let mut policies: Vec<String> = Vec::new();
    policies.push(String::from_str("admin"));
    assert(string_views(policies@) =~= seq!["admin"@]);
    CreateAccessKeyRequest {
        policies,
        description: Some(String::from_str("Default admin access key for testing")),
        expires_at: None,
    }
}

} // verus!
