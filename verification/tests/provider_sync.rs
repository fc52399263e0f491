use dns_syncer::error::Error;
use dns_syncer::provider::cloudflare::prepare_record;
use dns_syncer::provider::cloudflare::prepare_zone;
use dns_syncer::provider::cloudflare::purge_batch;
use dns_syncer::provider::cloudflare::qualify;
use dns_syncer::provider::cloudflare::reply::ApiReply;
use dns_syncer::provider::cloudflare::reply::CfResponse;
use dns_syncer::provider::cloudflare::sync::SyncAction;
use dns_syncer::provider::cloudflare::sync::SyncEvent;
use dns_syncer::provider::cloudflare::sync::SyncState;
use dns_syncer::provider::cloudflare::Auth;
use dns_syncer::provider::cloudflare::BatchRecord;
use dns_syncer::provider::cloudflare::CfRecord;
use dns_syncer::provider::cloudflare::CfZone;
use dns_syncer::provider::cloudflare::Cloudflare;
use dns_syncer::provider::types::BackendRecords;
use dns_syncer::record::Ipv4Addr;
use dns_syncer::record::Ipv6Addr;
use dns_syncer::record::ProviderParam;
use dns_syncer::record::ProviderRecord;
use dns_syncer::record::PublicIp;
use dns_syncer::record::RecordContent;
use dns_syncer::record::RecordOp;
use dns_syncer::record::RecordType;
use dns_syncer::record::TTL;
use dns_syncer::wrapper::http::Response;

fn record(name: &str, content: RecordContent, op: RecordOp) -> ProviderRecord {
    ProviderRecord {
        name: name.to_string(),
        content,
        comment: Some("managed".to_string()),
        op,
        ttl: TTL::Auto,
        params: vec![ProviderParam { name: "proxied".to_string(), value: "true".to_string() }],
    }
}

fn zone(id: &str, name: &str) -> CfZone {
    CfZone { id: id.to_string(), name: name.to_string() }
}

fn remote(id: &str, name: &str, content: RecordContent) -> CfRecord {
    CfRecord {
        id: id.to_string(),
        name: name.to_string(),
        comment: None,
        proxied: false,
        ttl: 1,
        content,
    }
}

fn ok<T>(result: T) -> ApiReply<T> {
    ApiReply::Answered {
        response: Response { status: 200, body: String::new() },
        decoded: Ok(CfResponse { success: true, detail: "[]".to_string(), result: Ok(result) }),
    }
}

fn v4() -> Ipv4Addr {
    Ipv4Addr::new(203, 0, 113, 5)
}

fn v6() -> Ipv6Addr {
    Ipv6Addr::new(0x2001, 0xdb8, 0, 0, 0, 0, 0, 1)
}

fn one_zone(records: Vec<ProviderRecord>) -> BackendRecords {
    let mut zones = BackendRecords::new();
    for r in records {
        zones.add_record("example.com".to_string(), r);
    }
    zones
}

fn batch_of(action: SyncAction) -> (String, BatchRecord) {
    match action {
        SyncAction::SubmitBatch { url, batch } => (url, batch),
        other => panic!("no batch: {:?}", other),
    }
}

#[test]
fn names_are_qualified_once() {
    assert_eq!(qualify("home", "example.com"), "home.example.com");
    assert_eq!(qualify("home.example.com", "example.com"), "home.example.com");
    assert_eq!(qualify(&qualify("home", "example.com"), "example.com"), "home.example.com");
    assert_eq!(qualify("example.com", "example.com"), "example.com");
    assert_eq!(qualify("com", "example.com"), "com.example.com");
    assert_eq!(qualify("", "example.com"), ".example.com");
}

#[test]
fn preparing_forces_purge_and_qualifies() {
    let ip = PublicIp::new(Some(v4()), None);
    let z = zone("z1", "example.com");
    let r = record("home", RecordContent::A(Ipv4Addr::new(8, 8, 8, 8)), RecordOp::Create);
    let p = prepare_record(&r, &z, &ip).unwrap();
    assert_eq!(p.op, RecordOp::Purge);
    assert_eq!(p.name, "home.example.com");
    assert_eq!(p.content, RecordContent::A(Ipv4Addr::new(8, 8, 8, 8)));
    assert_eq!(p.comment, r.comment);
    assert_eq!(p.params, r.params);
    let cname = record("www.example.com", RecordContent::CNAME("home.example.com".to_string()), RecordOp::Purge);
    let p = prepare_record(&cname, &z, &ip).unwrap();
    assert_eq!(p.name, "www.example.com");
    assert_eq!(p.content, RecordContent::CNAME("home.example.com".to_string()));
}

#[test]
fn unassigned_a_with_only_v6_fails_and_with_v4_is_filled() {
    let z = zone("z1", "example.com");
    let r = record("home", RecordContent::Unassigned(RecordType::A), RecordOp::Create);
    let only_v6 = PublicIp::new(None, Some(v6()));
    assert_eq!(
        prepare_record(&r, &z, &only_v6),
        Err(Error::Provider(
            "content is declared as A but no v4 address is provided".to_string()
        ))
    );
    let with_v4 = PublicIp::new(Some(v4()), Some(v6()));
    assert_eq!(prepare_record(&r, &z, &with_v4).unwrap().content, RecordContent::A(v4()));
    let aaaa = record("home", RecordContent::Unassigned(RecordType::AAAA), RecordOp::Create);
    assert_eq!(prepare_record(&aaaa, &z, &with_v4).unwrap().content, RecordContent::AAAA(v6()));
    let unknown = record("home", RecordContent::Unknown, RecordOp::Create);
    assert!(prepare_record(&unknown, &z, &with_v4).is_err());
}

#[test]
fn one_unfillable_record_fails_the_whole_zone() {
    let z = zone("z1", "example.com");
    let only_v6 = PublicIp::new(None, Some(v6()));
    let records = vec![
        record("a", RecordContent::A(Ipv4Addr::new(8, 8, 8, 8)), RecordOp::Create),
        record("home", RecordContent::Unassigned(RecordType::A), RecordOp::Create),
        record("b", RecordContent::Unassigned(RecordType::CNAME), RecordOp::Create),
    ];
    assert_eq!(
        prepare_zone(&z, &records, &only_v6),
        Err(Error::Provider(
            "content is declared as A but no v4 address is provided".to_string()
        ))
    );
    let prepared = prepare_zone(&z, &records[..1].to_vec(), &only_v6).unwrap();
    assert_eq!(prepared.len(), 1);
    assert_eq!(prepared[0].name, "a.example.com");
}

#[test]
fn unfillable_record_aborts_sync_before_any_request_for_the_zone() {
    let only_v6 = PublicIp::new(None, Some(v6()));
    let zones = one_zone(vec![
        record("a", RecordContent::A(Ipv4Addr::new(8, 8, 8, 8)), RecordOp::Create),
        record("home", RecordContent::Unassigned(RecordType::A), RecordOp::Create),
    ]);
    let (state, action) = SyncState::start(zones, only_v6);
    assert_eq!(
        action,
        SyncAction::ListZones {
            url: "https://api.cloudflare.com/client/v4/zones?name=example.com".to_string()
        }
    );
    let (state, action) = state.step(SyncEvent::Zones(ok(vec![zone("z1", "example.com")])));
    assert_eq!(
        action,
        SyncAction::Done(Err(Error::Provider(
            "content is declared as A but no v4 address is provided".to_string()
        )))
    );
    assert!(state.is_finished());
}

#[test]
fn ambiguous_zone_aborts_without_delete_or_create() {
    let ip = PublicIp::new(Some(v4()), None);
    let zones = one_zone(vec![record("home", RecordContent::Unassigned(RecordType::A), RecordOp::Create)]);
    let (state, _) = SyncState::start(zones, ip);
    let (state, action) = state.step(SyncEvent::Zones(ok(vec![
        zone("z1", "example.com"),
        zone("z2", "example.com"),
    ])));
    assert_eq!(
        action,
        SyncAction::Done(Err(Error::ParseError("multiple zones found: example.com".to_string())))
    );
    assert!(state.is_finished());
    // Whatever is reported afterwards, nothing is submitted.
    let (state, action) = state.step(SyncEvent::Records(ok(vec![])));
    assert!(matches!(action, SyncAction::Done(Err(_))));
    assert!(state.is_finished());
}

#[test]
fn unknown_zone_is_skipped_and_the_next_zone_proceeds() {
    let ip = PublicIp::new(Some(v4()), None);
    let mut zones = BackendRecords::new();
    zones.add_record("missing.org".to_string(), record("a", RecordContent::Unassigned(RecordType::A), RecordOp::Create));
    zones.add_record("example.com".to_string(), record("home", RecordContent::Unassigned(RecordType::A), RecordOp::Create));
    let (state, action) = SyncState::start(zones, ip);
    assert_eq!(
        action,
        SyncAction::ListZones {
            url: "https://api.cloudflare.com/client/v4/zones?name=missing.org".to_string()
        }
    );
    let (state, action) = state.step(SyncEvent::Zones(ok(vec![])));
    assert_eq!(
        action,
        SyncAction::ListZones {
            url: "https://api.cloudflare.com/client/v4/zones?name=example.com".to_string()
        }
    );
    assert_eq!(state.skipped(), &vec!["missing.org".to_string()]);
    let (state, action) = state.step(SyncEvent::Zones(ok(vec![])));
    assert_eq!(action, SyncAction::Done(Ok(())));
    assert!(state.is_finished());
    assert_eq!(state.skipped().len(), 2);
}

#[test]
fn batch_has_a_delete_for_every_listed_record_and_one_post() {
    for op in [RecordOp::Create, RecordOp::Purge] {
        let ip = PublicIp::new(Some(v4()), None);
        let zones = one_zone(vec![record("home", RecordContent::Unassigned(RecordType::A), op)]);
        let (state, _) = SyncState::start(zones, ip);
        let (state, action) = state.step(SyncEvent::Zones(ok(vec![zone("z1", "example.com")])));
        assert_eq!(
            action,
            SyncAction::ListRecords {
                url: "https://api.cloudflare.com/client/v4/zones/z1/dns_records?name=home.example.com"
                    .to_string()
            }
        );
        let listed = vec![
            remote("r1", "home.example.com", RecordContent::A(Ipv4Addr::new(1, 1, 1, 1))),
            remote("r2", "home.example.com", RecordContent::CNAME("x.example.com".to_string())),
        ];
        let (state, action) = state.step(SyncEvent::Records(ok(listed)));
        let (url, batch) = batch_of(action);
        assert_eq!(url, "https://api.cloudflare.com/client/v4/zones/z1/dns_records/batch");
        let deletes = batch.deletes.unwrap();
        assert_eq!(deletes.len(), 2);
        assert_eq!(deletes[0].id, "r1");
        assert_eq!(deletes[1].id, "r2");
        assert!(batch.patches.is_none());
        let posts = batch.posts.unwrap();
        assert_eq!(posts.len(), 1);
        assert_eq!(posts[0].content, RecordContent::A(v4()));
        assert_eq!(posts[0].name, "home.example.com");
        let (state, action) = state.step(SyncEvent::Batch(ok(())));
        assert_eq!(action, SyncAction::Done(Ok(())));
        assert!(state.is_finished());
    }
}

#[test]
fn post_body_carries_ttl_proxy_and_comment() {
    let mut r = record("home.example.com", RecordContent::A(v4()), RecordOp::Create);
    let batch = purge_batch(r.clone(), &vec![]);
    assert_eq!(batch.deletes, Some(vec![]));
    let post = &batch.posts.as_ref().unwrap()[0];
    assert_eq!(post.id, "");
    assert_eq!(post.ttl, 1);
    assert!(post.proxied);
    assert_eq!(post.comment, Some("managed".to_string()));
    r.ttl = TTL::Value(3600);
    r.params = vec![
        ProviderParam { name: "proxied".to_string(), value: "false".to_string() },
        ProviderParam { name: "other".to_string(), value: "true".to_string() },
    ];
    let post = CfRecord::from(r.clone());
    assert_eq!(post.ttl, 3600);
    assert!(!post.proxied);
    r.params.push(ProviderParam { name: "proxied".to_string(), value: "true".to_string() });
    assert!(CfRecord::from(r).proxied);
}

#[test]
fn every_record_of_a_zone_gets_its_own_listing_and_batch() {
    let ip = PublicIp::new(Some(v4()), Some(v6()));
    let zones = one_zone(vec![
        record("a", RecordContent::Unassigned(RecordType::A), RecordOp::Create),
        record("b.example.com", RecordContent::Unassigned(RecordType::AAAA), RecordOp::Create),
    ]);
    let (state, _) = SyncState::start(zones, ip);
    let (state, action) = state.step(SyncEvent::Zones(ok(vec![zone("z1", "example.com")])));
    assert!(matches!(action, SyncAction::ListRecords { ref url } if url.ends_with("?name=a.example.com")));
    let (state, action) = state.step(SyncEvent::Records(ok(vec![])));
    let (_, batch) = batch_of(action);
    assert_eq!(batch.posts.unwrap()[0].content, RecordContent::A(v4()));
    let (state, action) = state.step(SyncEvent::Batch(ok(())));
    assert!(matches!(action, SyncAction::ListRecords { ref url } if url.ends_with("?name=b.example.com")));
    let (state, action) = state.step(SyncEvent::Records(ok(vec![])));
    let (_, batch) = batch_of(action);
    assert_eq!(batch.posts.unwrap()[0].content, RecordContent::AAAA(v6()));
    let (state, action) = state.step(SyncEvent::Batch(ok(())));
    assert_eq!(action, SyncAction::Done(Ok(())));
    assert!(state.is_finished());
}

#[test]
fn failed_requests_end_the_sync() {
    let ip = PublicIp::new(Some(v4()), None);
    let start = || {
        SyncState::start(
            one_zone(vec![record("home", RecordContent::Unassigned(RecordType::A), RecordOp::Create)]),
            ip,
        )
        .0
    };
    let (_, action) = start().step(SyncEvent::Zones(ApiReply::Unreachable("timeout".to_string())));
    assert_eq!(action, SyncAction::Done(Err(Error::HttpError("timeout".to_string()))));
    let (_, action) = start().step(SyncEvent::Zones(ApiReply::Answered {
        response: Response { status: 403, body: String::new() },
        decoded: Err("not json".to_string()),
    }));
    assert_eq!(action, SyncAction::Done(Err(Error::HttpError("status: 403".to_string()))));
    let (_, action) = start().step(SyncEvent::Zones(ApiReply::Answered {
        response: Response { status: 200, body: String::new() },
        decoded: Err("not json".to_string()),
    }));
    assert_eq!(action, SyncAction::Done(Err(Error::ParseError("not json".to_string()))));
    let (_, action) = start().step(SyncEvent::Zones(ApiReply::Answered {
        response: Response { status: 200, body: String::new() },
        decoded: Ok(CfResponse { success: false, detail: "Null".to_string(), result: Ok(vec![]) }),
    }));
    assert_eq!(
        action,
        SyncAction::Done(Err(Error::ParseError("cloudflare api call failed: Null".to_string())))
    );
    let (_, action) = start().step(SyncEvent::Zones(ApiReply::Answered {
        response: Response { status: 200, body: String::new() },
        decoded: Ok(CfResponse { success: true, detail: "{}".to_string(), result: Err("no list".to_string()) }),
    }));
    assert_eq!(action, SyncAction::Done(Err(Error::ParseError("no list".to_string()))));
    // An answer to a question that was not asked.
    let (state, action) = start().step(SyncEvent::Batch(ok(())));
    assert_eq!(
        action,
        SyncAction::Done(Err(Error::Provider("event does not answer the pending action".to_string())))
    );
    assert!(state.is_finished());
}

#[test]
fn refused_batch_is_a_hard_error() {
    let reply = |status: u16, success: bool| -> ApiReply<()> {
        ApiReply::Answered {
            response: Response { status, body: String::new() },
            decoded: Ok(CfResponse { success, detail: "Null".to_string(), result: Ok(()) }),
        }
    };
    assert_eq!(reply(200, true).into_batch_result(), Ok(()));
    assert_eq!(
        reply(200, false).into_batch_result(),
        Err(Error::HttpError(
            "force overwrite record failed from cloudflare: Parse error: cloudflare api call failed: Null"
                .to_string()
        ))
    );
    assert_eq!(
        reply(500, true).into_batch_result(),
        Err(Error::HttpError(
            "force overwrite record failed: HTTP error: status: 500".to_string()
        ))
    );
    let unreachable: ApiReply<()> = ApiReply::Unreachable("reset".to_string());
    assert_eq!(unreachable.into_batch_result(), Err(Error::HttpError("reset".to_string())));
    let undecodable: ApiReply<()> = ApiReply::Answered {
        response: Response { status: 200, body: String::new() },
        decoded: Err("eof".to_string()),
    };
    assert_eq!(undecodable.into_batch_result(), Err(Error::ParseError("eof".to_string())));
    // The enclosed result of an accepted batch plays no part.
    let odd: ApiReply<()> = ApiReply::Answered {
        response: Response { status: 200, body: String::new() },
        decoded: Ok(CfResponse { success: true, detail: "x".to_string(), result: Err("odd".to_string()) }),
    };
    assert_eq!(odd.into_batch_result(), Ok(()));

    let ip = PublicIp::new(Some(v4()), None);
    let zones = one_zone(vec![
        record("a", RecordContent::Unassigned(RecordType::A), RecordOp::Create),
        record("b", RecordContent::Unassigned(RecordType::A), RecordOp::Create),
    ]);
    let (state, _) = SyncState::start(zones, ip);
    let (state, _) = state.step(SyncEvent::Zones(ok(vec![zone("z1", "example.com")])));
    let (state, _) = state.step(SyncEvent::Records(ok(vec![])));
    let (state, action) = state.step(SyncEvent::Batch(reply(200, false)));
    assert!(matches!(action, SyncAction::Done(Err(Error::HttpError(_)))));
    assert!(state.is_finished());
}

#[test]
fn envelope_opens_in_order() {
    let e: CfResponse<u8> = CfResponse { success: true, detail: "1".to_string(), result: Ok(1) };
    assert_eq!(e.into_result(), Ok(1));
    let e: CfResponse<u8> = CfResponse { success: false, detail: "1".to_string(), result: Ok(1) };
    assert_eq!(
        e.into_result(),
        Err(Error::ParseError("cloudflare api call failed: 1".to_string()))
    );
    let e: CfResponse<u8> =
        CfResponse { success: true, detail: "x".to_string(), result: Err("bad".to_string()) };
    assert_eq!(e.into_result(), Err(Error::ParseError("bad".to_string())));
}

#[test]
fn second_pass_deletes_what_the_first_created_and_posts_the_same() {
    let ip = PublicIp::new(Some(v4()), None);
    let declared = record("home", RecordContent::Unassigned(RecordType::A), RecordOp::Create);
    let mut remote_records = vec![
        remote("old1", "home.example.com", RecordContent::A(Ipv4Addr::new(1, 1, 1, 1))),
        remote("keep", "www.example.com", RecordContent::A(Ipv4Addr::new(2, 2, 2, 2))),
    ];
    let mut posted = Vec::new();
    for pass in 0..2 {
        let (state, _) = SyncState::start(one_zone(vec![declared.clone()]), ip);
        let (state, _) = state.step(SyncEvent::Zones(ok(vec![zone("z1", "example.com")])));
        let listed: Vec<CfRecord> = remote_records
            .iter()
            .filter(|r| r.name == "home.example.com")
            .map(|r| remote(&r.id, &r.name, r.content.clone()))
            .collect();
        let (state, action) = state.step(SyncEvent::Records(ok(listed)));
        let (_, batch) = batch_of(action);
        let deletes: Vec<String> = batch.deletes.unwrap().into_iter().map(|d| d.id).collect();
        remote_records.retain(|r| !deletes.contains(&r.id));
        let mut post = batch.posts.unwrap().pop().unwrap();
        posted.push(CfRecord { id: String::new(), ..remote("", &post.name, post.content.clone()) });
        post.id = format!("new{}", pass);
        remote_records.push(post);
        if pass == 1 {
            assert_eq!(deletes, vec!["new0".to_string()]);
        }
        let (_, action) = state.step(SyncEvent::Batch(ok(())));
        assert_eq!(action, SyncAction::Done(Ok(())));
        assert_eq!(remote_records.len(), 2);
        assert_eq!(remote_records[0].id, "keep");
        assert_eq!(remote_records[1].content, RecordContent::A(v4()));
    }
    assert_eq!(posted[0], posted[1]);
}

#[test]
fn provider_starts_and_resumes_a_sync() {
    let cf = Cloudflare::new("cf1".to_string(), Auth::ApiToken("t".to_string()));
    assert_eq!(cf.name(), "cf1");
    let ip = PublicIp::new(Some(v4()), None);
    let (state, action) = cf.sync(BackendRecords::new(), ip);
    assert_eq!(action, SyncAction::Done(Ok(())));
    assert!(state.is_finished());
    let zones = one_zone(vec![record("home", RecordContent::Unassigned(RecordType::A), RecordOp::Create)]);
    let (state, _) = cf.sync(zones, ip);
    let (_, action) = cf.resume(state, SyncEvent::Zones(ok(vec![zone("z9", "example.com")])));
    assert!(matches!(action, SyncAction::ListRecords { ref url } if url.contains("/zones/z9/")));
}

/// An account with zones and records, answering as the provider does.
struct Account {
    zones: Vec<CfZone>,
    held: Vec<(String, Vec<CfRecord>)>,
    created: usize,
}

impl Account {
    fn records(&mut self, zone_id: &str) -> &mut Vec<CfRecord> {
        if !self.held.iter().any(|(id, _)| id == zone_id) {
            self.held.push((zone_id.to_string(), vec![]));
        }
        &mut self.held.iter_mut().find(|(id, _)| id == zone_id).unwrap().1
    }

    /// Drives one synchronisation to its end.
    fn sync(&mut self, zones: BackendRecords, ip: PublicIp) -> Result<(), Error> {
        let (mut state, mut action) = SyncState::start(zones, ip);
        loop {
            let event = match action {
                SyncAction::ListZones { url } => {
                    let name = url.split("?name=").nth(1).unwrap().to_string();
                    let found = self
                        .zones
                        .iter()
                        .filter(|z| z.name == name)
                        .map(|z| zone(&z.id, &z.name))
                        .collect();
                    SyncEvent::Zones(ok(found))
                }
                SyncAction::ListRecords { url } => {
                    let zone_id = url.split("/zones/").nth(1).unwrap().split('/').next().unwrap().to_string();
                    let name = url.split("?name=").nth(1).unwrap().to_string();
                    let listed = self
                        .records(&zone_id)
                        .iter()
                        .filter(|r| r.name == name)
                        .map(|r| remote(&r.id, &r.name, r.content.clone()))
                        .collect();
                    SyncEvent::Records(ok(listed))
                }
                SyncAction::SubmitBatch { url, batch } => {
                    let zone_id = url.split("/zones/").nth(1).unwrap().split('/').next().unwrap().to_string();
                    let deletes: Vec<String> =
                        batch.deletes.unwrap().into_iter().map(|d| d.id).collect();
                    self.created += 1;
                    let id = format!("new{}", self.created);
                    let records = self.records(&zone_id);
                    records.retain(|r| !deletes.contains(&r.id));
                    for mut post in batch.posts.unwrap() {
                        post.id = id.clone();
                        records.push(post);
                    }
                    SyncEvent::Batch(ok(()))
                }
                SyncAction::Done(result) => return result,
            };
            let next = state.step(event);
            state = next.0;
            action = next.1;
        }
    }

    /// What the account holds, without the identifiers.
    fn bodies(&self) -> Vec<(String, Vec<CfRecord>)> {
        self.held
            .iter()
            .map(|(zone_id, records)| {
                let said = records
                    .iter()
                    .map(|r| CfRecord {
                        id: String::new(),
                        name: r.name.clone(),
                        comment: r.comment.clone(),
                        proxied: r.proxied,
                        ttl: r.ttl,
                        content: r.content.clone(),
                    })
                    .collect();
                (zone_id.clone(), said)
            })
            .collect()
    }
}

#[test]
fn second_synchronisation_of_several_zones_changes_nothing() {
    let ip = PublicIp::new(Some(v4()), Some(v6()));
    let declared = || {
        let mut zones = BackendRecords::new();
        zones.add_record("example.com".to_string(), record("home", RecordContent::Unassigned(RecordType::A), RecordOp::Create));
        zones.add_record("example.com".to_string(), record("www", RecordContent::CNAME("home.example.com".to_string()), RecordOp::Purge));
        zones.add_record("example.com".to_string(), record("home.example.com", RecordContent::Unassigned(RecordType::AAAA), RecordOp::Create));
        zones.add_record("absent.net".to_string(), record("x", RecordContent::Unassigned(RecordType::A), RecordOp::Create));
        zones.add_record("example.org".to_string(), record("home", RecordContent::Unassigned(RecordType::A), RecordOp::Create));
        zones
    };
    let mut account = Account {
        zones: vec![zone("z-com", "example.com"), zone("z-org", "example.org"), zone("z-io", "example.io")],
        held: vec![
            (
                "z-com".to_string(),
                vec![
                    remote("a", "home.example.com", RecordContent::A(Ipv4Addr::new(1, 1, 1, 1))),
                    remote("b", "mail.example.com", RecordContent::A(Ipv4Addr::new(2, 2, 2, 2))),
                    remote("c", "home.example.com", RecordContent::CNAME("old.example.com".to_string())),
                ],
            ),
            ("z-io".to_string(), vec![remote("d", "home.example.io", RecordContent::A(Ipv4Addr::new(3, 3, 3, 3)))]),
        ],
        created: 0,
    };
    assert_eq!(account.sync(declared(), ip), Ok(()));
    let once = account.bodies();
    let ids_once: Vec<String> =
        account.held.iter().flat_map(|(_, r)| r.iter().map(|r| r.id.clone())).collect();

    // Under each synchronised name there is one record, that of the last record of the name.
    let com = &account.held[0].1;
    let named = |n: &str| com.iter().filter(|r| r.name == n).collect::<Vec<_>>();
    assert_eq!(named("home.example.com").len(), 1);
    assert_eq!(named("home.example.com")[0].content, RecordContent::AAAA(v6()));
    assert_eq!(named("www.example.com").len(), 1);
    assert_eq!(named("mail.example.com").len(), 1);
    assert_eq!(named("mail.example.com")[0].id, "b");
    let org = account.held.iter().find(|(id, _)| id == "z-org").unwrap();
    assert_eq!(org.1.len(), 1);
    assert_eq!(org.1[0].content, RecordContent::A(v4()));
    assert_eq!(account.held[1].1[0].id, "d");

    assert_eq!(account.sync(declared(), ip), Ok(()));
    assert_eq!(account.bodies(), once);
    let ids_twice: Vec<String> =
        account.held.iter().flat_map(|(_, r)| r.iter().map(|r| r.id.clone())).collect();
    assert_ne!(ids_twice, ids_once);
    assert_eq!(account.created, 8);
}
