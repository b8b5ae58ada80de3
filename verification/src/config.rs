use vstd::prelude::*;
use vstd::string::StringExecFns;

verus! {

/// How to reach the row store.
#[derive(Debug)]
pub struct PostgresConfig {
    pub username: String,
    pub secret: String,
    pub url: String,
    pub port: u16,
    pub database: String,
    pub ssl_mode: bool,
    pub scheme_name: String,
    pub default_migrations: String,
}

/// Where the web client lies and how it is built.
#[derive(Debug)]
pub struct WebClientConfig {
    pub client_path: String,
    pub debug: bool,
    pub check_for_packages_updates: bool,
    pub build_webpack: bool,
    pub force_secure_requests: bool,
}

/// The certificate and the key of the listener.
#[derive(Debug)]
pub struct TlsConfig {
    pub certificate: String,
    pub private_key: String,
}

#[derive(Debug)]
pub struct BackendConfig {
    pub postgres: PostgresConfig,
}

/// The settings of the server.
#[derive(Debug)]
pub struct Config {
    pub addresses: Vec<String>,
    pub backend_config: BackendConfig,
    pub web_client_config: WebClientConfig,
    pub tls_config: TlsConfig,
    pub use_tls: bool,
}

impl Default for PostgresConfig {
    fn default() -> (r: Self)
        ensures
            is_default_postgres(r),
    {
        PostgresConfig {
            username: "postgres".to_owned(),
            secret: "postgres".to_owned(),
            url: "127.0.0.1".to_owned(),
            port: 5432,
            database: "postgres".to_owned(),
            ssl_mode: false,
            scheme_name: "schedulator".to_owned(),
            default_migrations: "./migrations".to_owned(),
        }
    }
}

impl Default for WebClientConfig {
    fn default() -> (r: Self)
        ensures
            is_default_web_client(r),
    {
        WebClientConfig {
            client_path: "./webclient".to_owned(),
            debug: false,
            check_for_packages_updates: true,
            build_webpack: true,
            force_secure_requests: false,
        }
    }
}

impl Default for TlsConfig {
    fn default() -> (r: Self)
        ensures
            is_default_tls(r),
    {
        TlsConfig {
            certificate: "/Path/To/certificate.pem".to_owned(),
            private_key: "/Path/To/private_key.pem".to_owned(),
        }
    }
}

/// The settings of the row store that a new installation starts with.
pub open spec fn is_default_postgres(c: PostgresConfig) -> bool {
    &&& c.username@ == "postgres"@
    &&& c.secret@ == "postgres"@
    &&& c.url@ == "127.0.0.1"@
    &&& c.port == 5432
    &&& c.database@ == "postgres"@
    &&& !c.ssl_mode
    &&& c.scheme_name@ == "schedulator"@
    &&& c.default_migrations@ == "./migrations"@
}

/// The settings of the web client that a new installation starts with.
pub open spec fn is_default_web_client(c: WebClientConfig) -> bool {
    &&& c.client_path@ == "./webclient"@
    &&& !c.debug
    &&& c.check_for_packages_updates
    &&& c.build_webpack
    &&& !c.force_secure_requests
}

/// The certificate and key that a new installation starts with.
pub open spec fn is_default_tls(c: TlsConfig) -> bool {
    &&& c.certificate@ == "/Path/To/certificate.pem"@
    &&& c.private_key@ == "/Path/To/private_key.pem"@
}

impl Default for BackendConfig {
    fn default() -> (r: Self)
        ensures
            is_default_postgres(r.postgres),
    {
        BackendConfig { postgres: PostgresConfig::default() }
    }
}

impl Default for Config {
    fn default() -> (r: Self)
        ensures
            r.addresses@.len() == 1,
            r.addresses@[0]@ == "127.0.0.1:3000"@,
            is_default_postgres(r.backend_config.postgres),
            is_default_web_client(r.web_client_config),
            is_default_tls(r.tls_config),
            r.use_tls,
    {
        let mut addresses: Vec<String> = Vec::new();
        addresses.push("127.0.0.1:3000".to_owned());
        Config {
            addresses,
            backend_config: BackendConfig::default(),
            web_client_config: WebClientConfig::default(),
            tls_config: TlsConfig::default(),
            use_tls: true,
        }
    }
}

impl Config {
    /// The scheme and the host under which the server answers a request.
    /// The scheme is that of the request where it names one, else `https`
    /// exactly where the server uses TLS or is told to force it. The host
    /// is that of the `Host` header where the request has one, else the
    /// host and port of its address where it has both, else the first
    /// address of the server.
    pub fn origin(
        &self,
        scheme: Option<&str>,
        host_header: Option<&str>,
        uri_host: Option<&str>,
        uri_port: Option<&str>,
    ) -> (r: String)
        requires
            host_header is None && (uri_host is None || uri_port is None)
                ==> self.addresses@.len() > 0,
        ensures
            r@ == self.spec_origin(
                option_view(scheme),
                option_view(host_header),
                option_view(uri_host),
                option_view(uri_port),
            ),
    {
        let secure = match scheme {
            Some(s) => crate::types::text::text_eq(s, "https"),
            None => self.use_tls || self.web_client_config.force_secure_requests,
        };
        let mut out = if secure {
            "https://".to_owned()
        } else {
            "http://".to_owned()
        };
        match host_header {
            Some(host) => {
                out.append(host);
            },
            None => match (uri_host, uri_port) {
                (Some(host), Some(port)) => {
                    out.append(host);
                    out.append(":");
                    out.append(port);
                },
                _ => {
                    out.append(self.addresses[0].as_str());
                },
            },
        }
        out
    }

    pub open spec fn spec_origin(
        &self,
        scheme: Option<Seq<char>>,
        host_header: Option<Seq<char>>,
        uri_host: Option<Seq<char>>,
        uri_port: Option<Seq<char>>,
    ) -> Seq<char> {
        let secure = match scheme {
            Some(s) => s == "https"@,
            None => self.use_tls || self.web_client_config.force_secure_requests,
        };
        let head = if secure {
            "https://"@
        } else {
            "http://"@
        };
        head + match host_header {
            Some(host) => host,
            None => match (uri_host, uri_port) {
                (Some(host), Some(port)) => host + ":"@ + port,
                _ => self.addresses@[0]@,
            },
        }
    }
}

pub open spec fn option_view(text: Option<&str>) -> Option<Seq<char>> {
    match text {
        Some(t) => Some(t@),
        None => None,
    }
}

} // verus!
