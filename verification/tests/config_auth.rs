use dns_syncer::config::CfgFetcher;
use dns_syncer::config::CfgParam;
use dns_syncer::config::CfgParamList;
use dns_syncer::config::CfgProvider;
use dns_syncer::config::CfgProviderAuthentication;
use dns_syncer::config::CfgRecord;
use dns_syncer::error::Error;
use dns_syncer::fetcher::http_fetcher::find_arg;
use dns_syncer::fetcher::http_fetcher::HttpFetcher;
use dns_syncer::provider::cloudflare::Auth;
use dns_syncer::provider::cloudflare::Cli;
use dns_syncer::provider::cloudflare::Cloudflare;
use dns_syncer::record::Ipv4Addr;
use dns_syncer::record::ProviderParam;
use dns_syncer::record::RecordContent;
use dns_syncer::record::RecordOp;
use dns_syncer::record::TTL;
use dns_syncer::runner::create_fetchers;
use dns_syncer::text::split;
use dns_syncer::wrapper::http::Header;
use dns_syncer::wrapper::http::HeaderKey;
use dns_syncer::wrapper::http::Response;

fn text(value: &serde_yaml::Value, key: &str) -> String {
    match &value[key] {
        serde_yaml::Value::String(s) => s.clone(),
        serde_yaml::Value::Number(n) => n.to_string(),
        other => panic!("no text under {}: {:?}", key, other),
    }
}

fn params(value: &serde_yaml::Value) -> CfgParamList {
    let mut list = Vec::new();
    if let Some(entries) = value.as_sequence() {
        for entry in entries {
            list.push(CfgParam { name: text(entry, "name"), value: text(entry, "value") });
        }
    }
    CfgParamList { list }
}

fn provider(yaml: &str) -> CfgProvider {
    let value: serde_yaml::Value = serde_yaml::from_str(yaml).unwrap();
    CfgProvider {
        name: text(&value, "name"),
        kind: text(&value, "type"),
        authentication: CfgProviderAuthentication {
            method: text(&value["authentication"], "method"),
            params: params(&value["authentication"]["params"]),
        },
    }
}

fn auth(method: &str, entries: &[(&str, &str)]) -> Result<Auth, Error> {
    let list = entries
        .iter()
        .map(|(n, v)| CfgParam { name: n.to_string(), value: v.to_string() })
        .collect();
    Auth::try_from(CfgProviderAuthentication {
        method: method.to_string(),
        params: CfgParamList { list },
    })
}

#[test]
fn test_providers_cloudflare_api_token_deserialize() {
    let yaml = r#"
name: cloudflare-1
type: cloudflare
authentication:
  method: api_token
  params:
  - name: api_token
    value: TestToken
    "#;

    let cfg_provider = provider(yaml);
    assert_eq!(cfg_provider.name, "cloudflare-1");
    assert_eq!(cfg_provider.kind, "cloudflare");
    assert_eq!(cfg_provider.authentication.method, "api_token");
    assert_eq!(cfg_provider.authentication.params.len(), 1);
    assert_eq!(cfg_provider.authentication.params.list[0].name, "api_token");
    assert_eq!(cfg_provider.authentication.params.list[0].value, "TestToken");

    let auth: Auth = cfg_provider.authentication.try_into().unwrap();
    assert!(matches!(auth, Auth::ApiToken(token) if token == "TestToken"));
}

#[test]
fn test_providers_cloudflare_api_key_deserialize() {
    let yaml = r#"
name: cloudflare-1
type: cloudflare
authentication:
  method: api_key
  params:
  - name: email
    value: test@example.com
  - name: key
    value: 1234567890
    "#;

    let cfg_provider = provider(yaml);
    assert_eq!(cfg_provider.name, "cloudflare-1");
    assert_eq!(cfg_provider.kind, "cloudflare");
    assert_eq!(cfg_provider.authentication.method, "api_key");
    assert_eq!(cfg_provider.authentication.params.len(), 2);
    assert_eq!(cfg_provider.authentication.params.list[0].name, "email");
    assert_eq!(
        cfg_provider.authentication.params.list[0].value,
        "test@example.com"
    );
    assert_eq!(cfg_provider.authentication.params.list[1].name, "key");

    let auth: Auth = cfg_provider.authentication.try_into().unwrap();
    assert!(
        matches!(auth, Auth::ApiKey { email, key } if email == "test@example.com" && key == "1234567890")
    );
}

#[test]
fn test_fetchers_deserialize() {
    let yaml = r#"
name: http_fetcher-1
type: http_fetcher
params:
- name: enabled
  value: "1.1.1.1,ipinfo.io"
    "#;

    let value: serde_yaml::Value = serde_yaml::from_str(yaml).unwrap();
    let cfg_fetcher = CfgFetcher {
        name: text(&value, "name"),
        kind: text(&value, "type"),
        params: params(&value["params"]),
    };
    assert_eq!(cfg_fetcher.name, "http_fetcher-1");
    assert_eq!(cfg_fetcher.kind, "http_fetcher");
    assert_eq!(cfg_fetcher.params.len(), 1);
    assert_eq!(cfg_fetcher.params.list[0].name, "enabled");
    assert_eq!(cfg_fetcher.params.list[0].value, "1.1.1.1,ipinfo.io");

    // What was read is what the fetcher is configured from.
    assert_eq!(cfg_fetcher.params.get_value_ref("enabled"), Some("1.1.1.1,ipinfo.io"));
    assert_eq!(cfg_fetcher.params.get_value_ref("cache_alive_time"), None);
    let args = cfg_fetcher.params.to_provider_params();
    assert_eq!(
        args,
        vec![ProviderParam { name: "enabled".to_string(), value: "1.1.1.1,ipinfo.io".to_string() }]
    );
    assert_eq!(find_arg(&args, "enabled"), Some("1.1.1.1,ipinfo.io"));
    assert_eq!(split("1.1.1.1,ipinfo.io", ','), vec!["1.1.1.1", "ipinfo.io"]);
    // Neither name is a backend of this fetcher.
    assert!(!HttpFetcher::args_are_valid(&args));
    assert!(HttpFetcher::try_new_with_args(args).is_none());
    assert_eq!(
        create_fetchers(&vec![], "http_fetcher-1", &vec![cfg_fetcher]).err(),
        Some(Error::ParseError("invalid arguments for fetcher: http_fetcher-1".to_string()))
    );
}

#[test]
fn exactly_one_authentication_mode_is_accepted() {
    assert_eq!(auth("api_token", &[("api_token", "t")]), Ok(Auth::ApiToken("t".to_string())));
    assert_eq!(
        auth("api_key", &[("key", "k"), ("email", "e")]),
        Ok(Auth::ApiKey { email: "e".to_string(), key: "k".to_string() })
    );
    // Neither.
    assert_eq!(
        auth("api_token", &[]),
        Err(Error::Provider(
            "cloudflare authencation method is declared as api_token, but api_token is not found"
                .to_string()
        ))
    );
    assert_eq!(
        auth("api_key", &[("email", "e")]),
        Err(Error::Provider("cloudflare api_key auth requires both email and key".to_string()))
    );
    assert_eq!(
        auth("api_key", &[("key", "k")]),
        Err(Error::Provider("cloudflare api_key auth requires both email and key".to_string()))
    );
    // Both.
    let both = Err(Error::Provider(
        "cloudflare authentication supplies both an api_token and an api_key".to_string(),
    ));
    assert_eq!(auth("api_token", &[("api_token", "t"), ("email", "e"), ("key", "k")]), both);
    // An e-mail address or a key alone is no second mode.
    assert_eq!(
        auth("api_token", &[("api_token", "t"), ("key", "k")]),
        Ok(Auth::ApiToken("t".to_string()))
    );
    assert_eq!(
        auth("api_token", &[("api_token", "TestToken"), ("email", "test@example.com")]),
        Ok(Auth::ApiToken("TestToken".to_string()))
    );
    assert_eq!(auth("api_key", &[("api_token", "t"), ("email", "e"), ("key", "k")]), both);
    // Another method.
    assert_eq!(
        auth("oauth", &[("api_token", "t")]),
        Err(Error::Provider(
            "oauth: unsupported authentication method for cloudflare provider".to_string()
        ))
    );
}

#[test]
fn first_parameter_of_a_name_counts() {
    let cfg = CfgProviderAuthentication {
        method: "api_token".to_string(),
        params: CfgParamList {
            list: vec![
                CfgParam { name: "x".to_string(), value: "0".to_string() },
                CfgParam { name: "api_token".to_string(), value: "first".to_string() },
                CfgParam { name: "api_token".to_string(), value: "second".to_string() },
            ],
        },
    };
    assert_eq!(cfg.get_value_ref("api_token"), Some("first"));
    assert_eq!(cfg.get_value_ref("x"), Some("0"));
    assert_eq!(cfg.get_value_ref("missing"), None);
    assert_eq!(cfg.params.get_value_ref("api_token"), Some("first"));
    assert_eq!(Auth::try_from(cfg), Ok(Auth::ApiToken("first".to_string())));
}

#[test]
fn authentication_headers() {
    let token = Auth::ApiToken("abc".to_string());
    assert_eq!(
        token.http_headers(),
        vec![Header::new(HeaderKey::Authorization, "Bearer abc".to_string())]
    );
    let key = Auth::ApiKey { email: "e@x".to_string(), key: "k".to_string() };
    assert_eq!(
        key.http_headers(),
        vec![
            Header::new(HeaderKey::Custom("X-Auth-Email".to_string()), "e@x".to_string()),
            Header::new(HeaderKey::Custom("X-Auth-Key".to_string()), "k".to_string()),
        ]
    );
    let cli = Cli::new(token.clone());
    assert_eq!(
        cli.default_headers(),
        &vec![
            Header::new(HeaderKey::Authorization, "Bearer abc".to_string()),
            Header::new(HeaderKey::ContentType, "application/json".to_string()),
        ]
    );
    let cf = Cloudflare::new("cf1".to_string(), key);
    assert_eq!(cf.default_headers().len(), 3);
    assert_eq!(cf.default_headers()[2].key().as_str(), "Content-Type");
    assert_eq!(cf.default_headers()[2].value(), "application/json");
}

#[test]
fn header_names() {
    assert_eq!(HeaderKey::Authorization.as_str(), "Authorization");
    assert_eq!(HeaderKey::ContentType.as_str(), "Content-Type");
    assert_eq!(HeaderKey::Custom("X-Auth-Key".to_string()).as_str(), "X-Auth-Key");
    let h = Header::new(HeaderKey::Custom("A".to_string()), "b".to_string());
    assert_eq!(h.key(), &HeaderKey::Custom("A".to_string()));
    assert_eq!(h.value(), "b");
    assert_eq!(h.clone(), h);
}

#[test]
fn only_status_200_has_a_body() {
    assert_eq!(
        Response { status: 200, body: "ok".to_string() }.into_body(),
        Ok("ok".to_string())
    );
    assert_eq!(
        Response { status: 404, body: "ok".to_string() }.into_body(),
        Err(Error::HttpError("status: 404".to_string()))
    );
    assert_eq!(
        Response { status: 201, body: "ok".to_string() }.into_body(),
        Err(Error::HttpError("status: 201".to_string()))
    );
    assert_eq!(
        Response { status: 0, body: String::new() }.into_body(),
        Err(Error::HttpError("status: 0".to_string()))
    );
}

#[test]
fn declared_record_is_projected_with_the_attachments_settings() {
    let declared = CfgRecord {
        name: "case1.dns-syncer-test".to_string(),
        content: RecordContent::A(Ipv4Addr::new(8, 8, 8, 8)),
        comment: Some("DNS Syncer, google dns".to_string()),
        op: RecordOp::Create,
        ttl: TTL::Value(300),
    };
    let settings = CfgParamList {
        list: vec![CfgParam { name: "proxied".to_string(), value: "true".to_string() }],
    };
    let projected = declared.clone().into_provider_record(&settings);
    assert_eq!(projected.name, "case1.dns-syncer-test");
    assert_eq!(projected.content, RecordContent::A(Ipv4Addr::new(8, 8, 8, 8)));
    assert_eq!(projected.comment, Some("DNS Syncer, google dns".to_string()));
    assert_eq!(projected.op, RecordOp::Create);
    assert_eq!(projected.ttl, TTL::Value(300));
    assert_eq!(
        projected.params,
        vec![ProviderParam { name: "proxied".to_string(), value: "true".to_string() }]
    );
    assert_eq!(settings.to_provider_params(), projected.params);
}

#[test]
fn settings_are_walked_in_order() {
    let settings = CfgParamList {
        list: vec![
            CfgParam { name: "a".to_string(), value: "1".to_string() },
            CfgParam { name: "b".to_string(), value: "2".to_string() },
        ],
    };
    let names: Vec<&str> = settings.iter().map(|p| p.name.as_str()).collect();
    assert_eq!(names, vec!["a", "b"]);
    assert_eq!(settings.len(), 2);
    assert_eq!(CfgParamList::default().len(), 0);
    assert_eq!(CfgParamList::default().iter().count(), 0);
    assert_eq!(settings.clone(), settings);
}
