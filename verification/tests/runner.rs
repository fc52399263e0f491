use dns_syncer::config::Cfg;
use dns_syncer::config::CfgFetcher;
use dns_syncer::config::CfgParam;
use dns_syncer::config::CfgParamList;
use dns_syncer::config::CfgProvider;
use dns_syncer::config::CfgProviderAuthentication;
use dns_syncer::config::CfgRecord;
use dns_syncer::config::CfgRecordFetcher;
use dns_syncer::config::CfgRecordItem;
use dns_syncer::config::CfgRecordProvider;
use dns_syncer::error::Error;
use dns_syncer::fetcher::backend::AddrFamily;
use dns_syncer::fetcher::http_fetcher::FetchEvent;
use dns_syncer::provider::cloudflare::reply::ApiReply;
use dns_syncer::provider::cloudflare::reply::CfResponse;
use dns_syncer::provider::cloudflare::sync::SyncEvent;
use dns_syncer::provider::cloudflare::CfRecord;
use dns_syncer::provider::cloudflare::CfZone;
use dns_syncer::record::IpAddr;
use dns_syncer::record::Ipv4Addr;
use dns_syncer::record::Ipv6Addr;
use dns_syncer::record::RecordContent;
use dns_syncer::record::RecordOp;
use dns_syncer::record::RecordType;
use dns_syncer::record::TTL;
use dns_syncer::runner::create_fetchers;
use dns_syncer::runner::create_providers;
use dns_syncer::runner::init_runner;
use dns_syncer::runner::RunAction;
use dns_syncer::runner::RunEvent;
use dns_syncer::runner::RunState;
use dns_syncer::runner::Runner;
use dns_syncer::wrapper::http::Header;
use dns_syncer::wrapper::http::HeaderKey;
use dns_syncer::wrapper::http::Response;

fn list(entries: &[(&str, &str)]) -> CfgParamList {
    CfgParamList {
        list: entries
            .iter()
            .map(|(n, v)| CfgParam { name: n.to_string(), value: v.to_string() })
            .collect(),
    }
}

fn provider(name: &str, kind: &str, method: &str, params: &[(&str, &str)]) -> CfgProvider {
    CfgProvider {
        name: name.to_string(),
        kind: kind.to_string(),
        authentication: CfgProviderAuthentication { method: method.to_string(), params: list(params) },
    }
}

fn fetcher(name: &str, kind: &str, params: &[(&str, &str)]) -> CfgFetcher {
    CfgFetcher { name: name.to_string(), kind: kind.to_string(), params: list(params) }
}

fn item(name: &str, attachments: &[(&str, &[&str])], fetchers: &[&str]) -> CfgRecordItem {
    CfgRecordItem {
        record: CfgRecord {
            name: name.to_string(),
            content: RecordContent::Unassigned(RecordType::A),
            comment: None,
            op: RecordOp::Create,
            ttl: TTL::Auto,
        },
        providers: attachments
            .iter()
            .map(|(p, zones)| CfgRecordProvider {
                name: p.to_string(),
                zones: zones.iter().map(|z| z.to_string()).collect(),
                params: list(&[("proxied", "true")]),
            })
            .collect(),
        fetchers: fetchers.iter().map(|f| CfgRecordFetcher { name: f.to_string() }).collect(),
    }
}

fn config(records: Vec<CfgRecordItem>) -> Cfg {
    Cfg {
        check_interval: 60,
        fetchers: vec![
            fetcher("unused", "http_fetcher", &[("enabled", "cloudflare")]),
            fetcher("main", "http_fetcher", &[("enabled", "ipw"), ("cache_alive_time", "30")]),
        ],
        providers: vec![
            provider("cf1", "cloudflare", "api_token", &[("api_token", "token-1")]),
            provider("cf2", "cloudflare", "api_key", &[("email", "e@example.com"), ("key", "k")]),
            provider("idle", "cloudflare", "api_token", &[("api_token", "x")]),
        ],
        records,
        public_ip_fecher: "main".to_string(),
    }
}

fn ok<T>(result: T) -> ApiReply<T> {
    ApiReply::Answered {
        response: Response { status: 200, body: String::new() },
        decoded: Ok(CfResponse { success: true, detail: String::new(), result: Ok(result) }),
    }
}

fn existing(id: &str, name: &str) -> CfRecord {
    CfRecord {
        id: id.to_string(),
        name: name.to_string(),
        comment: None,
        proxied: false,
        ttl: 300,
        content: RecordContent::A(Ipv4Addr::new(198, 51, 100, 1)),
    }
}

/// Fetches through the echo backend: 203.0.113.5 and 2001:db8::5.
fn fetch(runner: &mut Runner, now: u64) -> (RunState, RunAction) {
    let (state, action) = runner.run(now);
    assert_eq!(action, RunAction::Get { url: "http://4.ipw.cn".to_string(), family: AddrFamily::V4 });
    let (state, action) = runner.resume(
        state,
        RunEvent::Fetch(FetchEvent::Response { status: 200, body: "203.0.113.5\n".to_string() }),
        now,
    );
    assert_eq!(
        action,
        RunAction::ParseAddress { literal: "203.0.113.5".to_string(), family: AddrFamily::V4 }
    );
    let (state, action) = runner.resume(
        state,
        RunEvent::Fetch(FetchEvent::Address(Ok(IpAddr::V4(Ipv4Addr::new(203, 0, 113, 5))))),
        now,
    );
    assert_eq!(action, RunAction::Get { url: "http://6.ipw.cn".to_string(), family: AddrFamily::V6 });
    let (state, action) = runner.resume(
        state,
        RunEvent::Fetch(FetchEvent::Response { status: 200, body: "2001:db8::5".to_string() }),
        now,
    );
    assert_eq!(
        action,
        RunAction::ParseAddress { literal: "2001:db8::5".to_string(), family: AddrFamily::V6 }
    );
    runner.resume(
        state,
        RunEvent::Fetch(FetchEvent::Address(Ok(IpAddr::V6(Ipv6Addr::new(
            0x2001, 0xdb8, 0, 0, 0, 0, 0, 5,
        ))))),
        now,
    )
}

#[test]
fn only_what_is_in_use_is_materialised() {
    let records = vec![item("home", &[("cf1", &["example.com"]), ("ghost", &["example.com"])], &["extra"])];
    let cfg = config(records);
    let providers = create_providers(&cfg.records, &cfg.providers).unwrap();
    assert_eq!(providers.len(), 1);
    assert_eq!(providers[0].name(), "cf1");
    assert_eq!(
        providers[0].default_headers()[0],
        Header::new(HeaderKey::Authorization, "Bearer token-1".to_string())
    );
    let fetchers = create_fetchers(&cfg.records, "main", &cfg.fetchers).unwrap();
    assert_eq!(fetchers.len(), 1);
    assert_eq!(fetchers[0].name, "main");
    // A fetcher that a record names is materialised too.
    let mut declared = cfg.fetchers;
    declared.push(fetcher("extra", "http_fetcher", &[]));
    declared.push(fetcher("extra2", "http_fetcher", &[]));
    declared.push(fetcher("main", "dns_fetcher", &[]));
    let fetchers = create_fetchers(&cfg.records, "main", &declared).unwrap();
    assert_eq!(fetchers.iter().map(|f| f.name.as_str()).collect::<Vec<_>>(), vec!["main", "extra"]);
}

#[test]
fn unusable_declarations_in_use_are_errors() {
    let records = vec![item("home", &[("cf1", &["example.com"]), ("cf2", &["example.com"])], &[])];
    let mut cfg = config(records);
    cfg.providers[1] = provider("cf2", "cloudflare", "api_key", &[("email", "e@example.com")]);
    assert_eq!(
        create_providers(&cfg.records, &cfg.providers).err(),
        Some(Error::Provider("cloudflare api_key auth requires both email and key".to_string()))
    );
    // Out of use, or of another kind, the same declaration is passed over.
    cfg.providers[1] = provider("cf3", "cloudflare", "api_key", &[("email", "e@example.com")]);
    assert_eq!(create_providers(&cfg.records, &cfg.providers).unwrap().len(), 1);
    cfg.providers[1] = provider("cf2", "route53", "api_key", &[("email", "e@example.com")]);
    assert_eq!(create_providers(&cfg.records, &cfg.providers).unwrap().len(), 1);

    cfg.fetchers[1] = fetcher("main", "http_fetcher", &[("enabled", "1.1.1.1,ipinfo.io")]);
    assert_eq!(
        create_fetchers(&cfg.records, "main", &cfg.fetchers).err(),
        Some(Error::ParseError("invalid arguments for fetcher: main".to_string()))
    );
    assert_eq!(
        init_runner(cfg).err(),
        Some(Error::ParseError("invalid arguments for fetcher: main".to_string()))
    );
}

#[test]
fn end_to_end_scenario() {
    let cfg = config(vec![item("home", &[("cf1", &["example.com"])], &[])]);
    let mut runner = init_runner(cfg).unwrap();
    assert_eq!(runner.global_fetcher_name, "main");
    assert_eq!(runner.providers.len(), 1);
    assert_eq!(runner.fetchers.len(), 1);
    assert_eq!(runner.record_per_provider.len(), 1);

    let (state, action) = fetch(&mut runner, 1_000);
    assert_eq!(
        action,
        RunAction::ListZones {
            provider: 0,
            url: "https://api.cloudflare.com/client/v4/zones?name=example.com".to_string()
        }
    );
    let zones = vec![CfZone { id: "023e105f4ecef8ad9ca31a8372d0c353".to_string(), name: "example.com".to_string() }];
    let (state, action) = runner.resume(state, RunEvent::Sync(SyncEvent::Zones(ok(zones))), 1_001);
    assert_eq!(
        action,
        RunAction::ListRecords {
            provider: 0,
            url: "https://api.cloudflare.com/client/v4/zones/023e105f4ecef8ad9ca31a8372d0c353/dns_records?name=home.example.com".to_string()
        }
    );
    let listed = vec![existing("a1", "home.example.com"), existing("a2", "home.example.com")];
    let (state, action) = runner.resume(state, RunEvent::Sync(SyncEvent::Records(ok(listed))), 1_002);
    match action {
        RunAction::SubmitBatch { provider, url, batch } => {
            assert_eq!(provider, 0);
            assert_eq!(
                url,
                "https://api.cloudflare.com/client/v4/zones/023e105f4ecef8ad9ca31a8372d0c353/dns_records/batch"
            );
            let deletes: Vec<String> = batch.deletes.unwrap().into_iter().map(|d| d.id).collect();
            assert_eq!(deletes, vec!["a1", "a2"]);
            assert!(batch.patches.is_none());
            let posts = batch.posts.unwrap();
            assert_eq!(posts.len(), 1);
            assert_eq!(posts[0].name, "home.example.com");
            assert_eq!(posts[0].content, RecordContent::A(Ipv4Addr::new(203, 0, 113, 5)));
            assert!(posts[0].proxied);
            assert_eq!(posts[0].ttl, 1);
            assert_eq!(posts[0].comment, None);
        }
        other => panic!("no batch: {:?}", other),
    }
    let (state, action) = runner.resume(state, RunEvent::Sync(SyncEvent::Batch(ok(()))), 1_003);
    assert_eq!(action, RunAction::Done(Ok(())));
    assert_eq!(state, RunState::Finished);

    // A second pass within the lifetime starts at the provider, with the same addresses.
    let (_, action) = runner.run(20_000);
    assert!(matches!(action, RunAction::ListZones { provider: 0, .. }));
    // After the lifetime the addresses are fetched anew.
    let (_, action) = runner.run(31_000);
    assert!(matches!(action, RunAction::Get { .. }));
}

#[test]
fn every_provider_is_synchronised_with_the_same_addresses() {
    let cfg = config(vec![
        item("home", &[("cf2", &["example.org"]), ("cf1", &["example.com"])], &[]),
        item("www", &[("idle", &[])], &[]),
    ]);
    let mut runner = init_runner(cfg).unwrap();
    assert_eq!(runner.providers.len(), 3);
    let (state, action) = fetch(&mut runner, 0);
    // The topology lists cf2 first; it is the second declared provider.
    assert_eq!(runner.find_provider("cf2"), Some(1));
    assert_eq!(
        action,
        RunAction::ListZones {
            provider: 1,
            url: "https://api.cloudflare.com/client/v4/zones?name=example.org".to_string()
        }
    );
    let mut state = state;
    let mut contents = Vec::new();
    for (provider, zone) in [(1usize, "example.org"), (0usize, "example.com")] {
        let zones = vec![CfZone { id: "z".to_string(), name: zone.to_string() }];
        let (s, action) = runner.resume(state, RunEvent::Sync(SyncEvent::Zones(ok(zones))), 1);
        assert!(matches!(action, RunAction::ListRecords { provider: p, .. } if p == provider));
        let (s, action) = runner.resume(s, RunEvent::Sync(SyncEvent::Records(ok(vec![]))), 1);
        match action {
            RunAction::SubmitBatch { provider: p, batch, .. } => {
                assert_eq!(p, provider);
                contents.push(batch.posts.unwrap().pop().unwrap().content);
            }
            other => panic!("no batch: {:?}", other),
        }
        let (s, action) = runner.resume(s, RunEvent::Sync(SyncEvent::Batch(ok(()))), 1);
        if provider == 1 {
            assert!(matches!(action, RunAction::ListZones { provider: 0, .. }));
        } else {
            // The provider without zones has nothing to do.
            assert_eq!(action, RunAction::Done(Ok(())));
        }
        state = s;
    }
    assert_eq!(contents[0], RecordContent::A(Ipv4Addr::new(203, 0, 113, 5)));
    assert_eq!(contents[0], contents[1]);
}

#[test]
fn failed_fetch_ends_the_pass_before_any_provider() {
    let cfg = config(vec![item("home", &[("cf1", &["example.com"])], &[])]);
    let mut runner = init_runner(cfg).unwrap();
    let (state, _) = runner.run(0);
    let (state, action) =
        runner.resume(state, RunEvent::Fetch(FetchEvent::Unreachable("no route".to_string())), 0);
    assert_eq!(action, RunAction::Done(Err(Error::HttpError("no route".to_string()))));
    assert_eq!(state, RunState::Finished);
    let (_, action) = runner.resume(state, RunEvent::Sync(SyncEvent::Batch(ok(()))), 0);
    assert_eq!(
        action,
        RunAction::Done(Err(Error::Provider("event does not answer the pending action".to_string())))
    );
}

#[test]
fn provider_error_ends_the_pass() {
    let cfg = config(vec![item("home", &[("cf1", &["example.com"]), ("cf2", &["example.com"])], &[])]);
    let mut runner = init_runner(cfg).unwrap();
    let (state, _) = fetch(&mut runner, 0);
    let two = vec![
        CfZone { id: "z1".to_string(), name: "example.com".to_string() },
        CfZone { id: "z2".to_string(), name: "example.com".to_string() },
    ];
    let (state, action) = runner.resume(state, RunEvent::Sync(SyncEvent::Zones(ok(two))), 0);
    assert_eq!(
        action,
        RunAction::Done(Err(Error::ParseError("multiple zones found: example.com".to_string())))
    );
    assert_eq!(state, RunState::Finished);
}

#[test]
fn missing_fetcher_or_provider_is_reported() {
    let mut cfg = config(vec![item("home", &[("cf1", &["example.com"])], &[])]);
    cfg.public_ip_fecher = "absent".to_string();
    let runner = init_runner(cfg).unwrap();
    assert_eq!(runner.global_fetcher(), None);
    assert_eq!(
        runner.run(0).1,
        RunAction::Done(Err(Error::GlobalFetcherError("fetcher is not available: absent".to_string())))
    );

    let cfg = config(vec![item("home", &[("ghost", &["example.com"])], &[])]);
    let mut runner = init_runner(cfg).unwrap();
    assert_eq!(runner.find_provider("ghost"), None);
    let (_, action) = fetch(&mut runner, 0);
    assert_eq!(
        action,
        RunAction::Done(Err(Error::Provider("provider is not available: ghost".to_string())))
    );
}
