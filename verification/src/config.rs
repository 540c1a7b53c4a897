//! Runtime configuration of the serving shell.
//!
//! The shell reads a handful of optional environment values and hands them
//! here as plain options; each path falls back to a fixed default, and TLS is
//! configured exactly when both its key and its certificate are supplied.

use vstd::prelude::*;

verus! {

/// Where the shell serves from and how it binds.
pub struct Config {
    pub static_path: String,
    pub pages_path: String,
    pub bind_addr: String,
    pub tls_pair: Option<(String, String)>,
}

impl Config {
    /// Resolves the configuration from optional environment values.
    pub fn get(
        static_path: Option<String>,
        pages_path: Option<String>,
        bind_addr: Option<String>,
        tls_key: Option<String>,
        tls_cert: Option<String>,
    ) -> (r: Config)
        ensures
            r.static_path@ == (match static_path {
                Some(s) => s@,
                None => "./static"@,
            }),
            r.pages_path@ == (match pages_path {
                Some(s) => s@,
                None => "./pages"@,
            }),
            r.bind_addr@ == (match bind_addr {
                Some(s) => s@,
                None => "127.0.0.1:5000"@,
            }),
            tls_key is Some && tls_cert is Some ==> (r.tls_pair matches Some(p) && p.0@ == (
            tls_key->0)@ && p.1@ == (tls_cert->0)@),
            !(tls_key is Some && tls_cert is Some) ==> r.tls_pair is None,
    {
        let static_path = match static_path {
            Some(s) => s,
            None => "./static".to_owned(),
        };
        let pages_path = match pages_path {
            Some(s) => s,
            None => "./pages".to_owned(),
        };
        let bind_addr = match bind_addr {
            Some(s) => s,
            None => "127.0.0.1:5000".to_owned(),
        };
        let tls_pair = match (tls_key, tls_cert) {
            (Some(k), Some(c)) => Some((k, c)),
            _ => None,
        };
        Config { static_path, pages_path, bind_addr, tls_pair }
    }
}

} // verus!
