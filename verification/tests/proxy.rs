use req::data::{EnvFile, ReqConfig, ReqProxy, ReqProxyUrl};
use req::interpolation::{create_interpolation_context, InterpContext, InterpError};
use req::request::{ProxyEntry, ProxyScope};
use req::strmap::StrMap;

fn context(pairs: &[(&str, &str)]) -> InterpContext {
    let mut map = StrMap::new();
    for (k, v) in pairs {
        map.insert(k.to_string(), v.to_string());
    }
    create_interpolation_context(map).unwrap()
}

fn simple(url: &str) -> ReqProxyUrl {
    ReqProxyUrl::Simple(url.to_string())
}

fn detailed(url: &str, username: Option<&str>, password: Option<&str>) -> ReqProxyUrl {
    ReqProxyUrl::Detailed {
        url: url.to_string(),
        username: username.map(|s| s.to_string()),
        password: password.map(|s| s.to_string()),
    }
}

#[test]
fn test_proxy_url_simple() {
    let proxy_url = simple("http://proxy.example.com:8080");

    match &proxy_url {
        ReqProxyUrl::Simple(url) => {
            assert_eq!(url, "http://proxy.example.com:8080");
        }
        _ => panic!("Expected Simple variant"),
    }

    assert_eq!(proxy_url.url(), "http://proxy.example.com:8080");
    assert_eq!(proxy_url.credentials(), None);
}

#[test]
fn test_proxy_url_detailed_with_auth() {
    let proxy_url = detailed("http://proxy.example.com:8080", Some("user"), Some("pass"));

    match &proxy_url {
        ReqProxyUrl::Detailed {
            url,
            username,
            password,
        } => {
            assert_eq!(url, "http://proxy.example.com:8080");
            assert_eq!(username.as_deref(), Some("user"));
            assert_eq!(password.as_deref(), Some("pass"));
        }
        _ => panic!("Expected Detailed variant"),
    }

    assert_eq!(proxy_url.url(), "http://proxy.example.com:8080");
    assert_eq!(proxy_url.credentials(), Some(("user", "pass")));
}

#[test]
fn test_proxy_url_interpolate() {
    let ctxt = context(&[
        ("PROXY_URL", "http://proxy.example.com:8080"),
        ("PROXY_USER", "myuser"),
        ("PROXY_PASS", "mypass"),
    ]);

    let proxy_url = detailed("${PROXY_URL}", Some("${PROXY_USER}"), Some("${PROXY_PASS}"));
    let interpolated = proxy_url.interpolate(&ctxt).unwrap();

    assert_eq!(interpolated.url(), "http://proxy.example.com:8080");
    assert_eq!(interpolated.credentials(), Some(("myuser", "mypass")));
}

#[test]
fn test_proxy_simple() {
    let proxy = ReqProxy::Simple(simple("http://proxy.example.com:8080"));

    match &proxy {
        ReqProxy::Simple(_) => {}
        _ => panic!("Expected Simple variant"),
    }
}

#[test]
fn test_proxy_detailed() {
    let proxy = ReqProxy::Detailed {
        http: Some(simple("http://http-proxy.example.com:8080")),
        https: Some(simple("http://https-proxy.example.com:8443")),
    };

    match &proxy {
        ReqProxy::Detailed { http, https } => {
            assert!(http.is_some());
            assert!(https.is_some());
            assert_eq!(
                http.as_ref().unwrap().url(),
                "http://http-proxy.example.com:8080"
            );
            assert_eq!(
                https.as_ref().unwrap().url(),
                "http://https-proxy.example.com:8443"
            );
        }
        _ => panic!("Expected Detailed variant"),
    }
}

#[test]
fn test_proxy_detailed_with_auth() {
    let proxy = ReqProxy::Detailed {
        http: Some(detailed(
            "http://http-proxy.example.com:8080",
            Some("http-user"),
            Some("http-pass"),
        )),
        https: Some(detailed(
            "http://https-proxy.example.com:8443",
            Some("https-user"),
            Some("https-pass"),
        )),
    };

    match &proxy {
        ReqProxy::Detailed { http, https } => {
            assert!(http.is_some());
            assert!(https.is_some());

            let http_proxy = http.as_ref().unwrap();
            assert_eq!(http_proxy.url(), "http://http-proxy.example.com:8080");
            assert_eq!(http_proxy.credentials(), Some(("http-user", "http-pass")));

            let https_proxy = https.as_ref().unwrap();
            assert_eq!(https_proxy.url(), "http://https-proxy.example.com:8443");
            assert_eq!(
                https_proxy.credentials(),
                Some(("https-user", "https-pass"))
            );
        }
        _ => panic!("Expected Detailed variant"),
    }
}

#[test]
fn test_proxy_interpolate() {
    let ctxt = context(&[
        ("HTTP_PROXY", "http://http-proxy.example.com:8080"),
        ("HTTPS_PROXY", "http://https-proxy.example.com:8443"),
    ]);

    let proxy = ReqProxy::Detailed {
        http: Some(simple("${HTTP_PROXY}")),
        https: Some(simple("${HTTPS_PROXY}")),
    };
    let interpolated = proxy.interpolate(&ctxt).unwrap();

    match interpolated {
        ReqProxy::Detailed { http, https } => {
            assert_eq!(
                http.as_ref().unwrap().url(),
                "http://http-proxy.example.com:8080"
            );
            assert_eq!(
                https.as_ref().unwrap().url(),
                "http://https-proxy.example.com:8443"
            );
        }
        _ => panic!("Expected Detailed variant"),
    }
}

#[test]
fn test_config_with_proxy() {
    let config = ReqConfig {
        insecure: true,
        redirect: 5,
        env_file: EnvFile::default(),
        proxy: Some(ReqProxy::Simple(simple("http://proxy.example.com:8080"))),
    };

    assert!(config.insecure);
    assert_eq!(config.redirect, 5);
    assert!(config.proxy.is_some());
}

#[test]
fn test_config_proxy_interpolate() {
    let ctxt = context(&[("PROXY_URL", "http://proxy.example.com:8080")]);

    let config = ReqConfig {
        proxy: Some(ReqProxy::Simple(simple("${PROXY_URL}"))),
        ..ReqConfig::default()
    };
    let interpolated = config.interpolate(&ctxt).unwrap();

    assert!(interpolated.proxy.is_some());
    assert_eq!(
        interpolated.proxy,
        Some(ReqProxy::Simple(simple("http://proxy.example.com:8080")))
    );
    assert!(!interpolated.insecure);
    assert_eq!(interpolated.redirect, 0);
    assert_eq!(interpolated.env_file, EnvFile::Bool(false));
}

#[test]
fn proxy_credentials_need_both_name_and_password() {
    assert_eq!(detailed("u", Some("name"), None).credentials(), None);
    assert_eq!(detailed("u", None, Some("word")).credentials(), None);
    assert_eq!(detailed("u", None, None).credentials(), None);
}

#[test]
fn proxy_url_fails_on_first_undefined_text() {
    let ctxt = context(&[("A", "a")]);
    let p = detailed("${A}", Some("${B}"), Some("${C}"));
    assert_eq!(
        p.interpolate(&ctxt),
        Err(InterpError::ValueNotFound("B".to_string()))
    );
    let q = ReqProxy::Detailed {
        http: Some(simple("${X}")),
        https: Some(simple("${Y}")),
    };
    assert_eq!(
        q.interpolate(&ctxt),
        Err(InterpError::ValueNotFound("X".to_string()))
    );
}

#[test]
fn proxy_entries_one_for_all_or_one_for_each_scheme() {
    let all = ReqProxy::Simple(detailed("http://p:1", Some("u"), Some("w")));
    assert_eq!(
        all.entries(),
        vec![ProxyEntry {
            scope: ProxyScope::All,
            url: "http://p:1".to_string(),
            credentials: Some(("u".to_string(), "w".to_string())),
        }]
    );
    let both = ReqProxy::Detailed {
        http: Some(simple("http://a")),
        https: Some(simple("http://b")),
    };
    assert_eq!(
        both.entries(),
        vec![
            ProxyEntry {
                scope: ProxyScope::Http,
                url: "http://a".to_string(),
                credentials: None,
            },
            ProxyEntry {
                scope: ProxyScope::Https,
                url: "http://b".to_string(),
                credentials: None,
            },
        ]
    );
    let only_https = ReqProxy::Detailed {
        http: None,
        https: Some(simple("http://b")),
    };
    assert_eq!(only_https.entries().len(), 1);
    assert_eq!(only_https.entries()[0].scope, ProxyScope::Https);
    let none = ReqProxy::Detailed {
        http: None,
        https: None,
    };
    assert!(none.entries().is_empty());
}

#[test]
fn env_file_path_of_each_form() {
    assert_eq!(EnvFile::Bool(true).path(), Some(".env"));
    assert_eq!(EnvFile::Bool(false).path(), None);
    assert_eq!(EnvFile::Path("vars.env".to_string()).path(), Some("vars.env"));
    assert_eq!(EnvFile::default(), EnvFile::Bool(false));
}
