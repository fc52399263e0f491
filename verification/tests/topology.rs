use dns_syncer::config::CfgParam;
use dns_syncer::config::CfgParamList;
use dns_syncer::config::CfgRecord;
use dns_syncer::config::CfgRecordFetcher;
use dns_syncer::config::CfgRecordItem;
use dns_syncer::config::CfgRecordProvider;
use dns_syncer::provider::types::BackendRecords;
use dns_syncer::record::Ipv4Addr;
use dns_syncer::record::ProviderRecord;
use dns_syncer::record::RecordContent;
use dns_syncer::record::RecordOp;
use dns_syncer::record::RecordType;
use dns_syncer::record::TTL;
use dns_syncer::runner::list_in_use_fethers;
use dns_syncer::runner::list_in_use_providers;
use dns_syncer::topology::add_zone_record;
use dns_syncer::topology::process_provider;
use dns_syncer::topology::process_record_item;
use dns_syncer::topology::to_provider_backends;
use dns_syncer::topology::ProviderTopology;

fn declared(name: &str) -> CfgRecord {
    CfgRecord {
        name: name.to_string(),
        content: RecordContent::Unassigned(RecordType::A),
        comment: None,
        op: RecordOp::Create,
        ttl: TTL::Auto,
    }
}

fn attachment(provider: &str, zones: &[&str], proxied: bool) -> CfgRecordProvider {
    CfgRecordProvider {
        name: provider.to_string(),
        zones: zones.iter().map(|z| z.to_string()).collect(),
        params: CfgParamList {
            list: vec![CfgParam { name: "proxied".to_string(), value: proxied.to_string() }],
        },
    }
}

fn item(name: &str, providers: Vec<CfgRecordProvider>, fetchers: &[&str]) -> CfgRecordItem {
    CfgRecordItem {
        record: declared(name),
        providers,
        fetchers: fetchers.iter().map(|f| CfgRecordFetcher { name: f.to_string() }).collect(),
    }
}

fn names(records: &[ProviderRecord]) -> Vec<&str> {
    records.iter().map(|r| r.name.as_str()).collect()
}

fn provider_record(name: &str) -> ProviderRecord {
    ProviderRecord {
        name: name.to_string(),
        content: RecordContent::A(Ipv4Addr::new(1, 2, 3, 4)),
        comment: None,
        op: RecordOp::Purge,
        ttl: TTL::Auto,
        params: vec![],
    }
}

#[test]
fn zone_table_appends_and_keeps_first_mention_order() {
    let mut zones = BackendRecords::new();
    assert_eq!(zones.len(), 0);
    zones.add_record("b.org".to_string(), provider_record("one"));
    zones.add_record("a.org".to_string(), provider_record("two"));
    zones.add_record("b.org".to_string(), provider_record("three"));
    assert_eq!(zones.len(), 2);
    assert_eq!(zones.zone(0).name, "b.org");
    assert_eq!(names(&zones.zone(0).records.records), vec!["one", "three"]);
    assert_eq!(zones.zone(1).name, "a.org");
    assert_eq!(names(&zones.zone(1).records.records), vec!["two"]);
    assert_eq!(zones.clone(), zones);
}

#[test]
fn every_record_attachment_and_zone_gives_one_pending_record() {
    let items = vec![
        item(
            "home",
            vec![attachment("cf1", &["example.com", "example.org"], true), attachment("cf2", &["example.com"], false)],
            &[],
        ),
        item("www", vec![attachment("cf1", &["example.com"], false)], &[]),
        item("idle", vec![], &[]),
        item("twice", vec![attachment("cf2", &["example.com", "example.com"], true)], &[]),
        item("nowhere", vec![attachment("cf3", &[], true)], &[]),
    ];
    let topology = to_provider_backends(items).unwrap();
    assert_eq!(topology.len(), 3);

    let cf1 = topology.provider(0);
    assert_eq!(cf1.name, "cf1");
    assert_eq!(cf1.record.len(), 2);
    assert_eq!(cf1.record.zone(0).name, "example.com");
    assert_eq!(names(&cf1.record.zone(0).records.records), vec!["home", "www"]);
    assert_eq!(cf1.record.zone(0).records.records[0].params[0].value, "true");
    assert_eq!(cf1.record.zone(0).records.records[1].params[0].value, "false");
    assert_eq!(cf1.record.zone(1).name, "example.org");
    assert_eq!(names(&cf1.record.zone(1).records.records), vec!["home"]);

    let cf2 = topology.provider(1);
    assert_eq!(cf2.name, "cf2");
    assert_eq!(cf2.record.len(), 1);
    assert_eq!(names(&cf2.record.zone(0).records.records), vec!["home", "twice", "twice"]);

    let cf3 = topology.provider(2);
    assert_eq!(cf3.name, "cf3");
    assert_eq!(cf3.record.len(), 0);

    assert_eq!(topology.position("cf2"), Some(1));
    assert_eq!(topology.position("cf9"), None);
}

#[test]
fn builder_steps_accumulate() {
    let mut topology = ProviderTopology::new();
    assert_eq!(topology.len(), 0);
    assert_eq!(topology.ensure_provider("cf1"), 0);
    assert_eq!(topology.ensure_provider("cf2"), 1);
    assert_eq!(topology.ensure_provider("cf1"), 0);
    assert_eq!(topology.len(), 2);
    process_provider(&mut topology, &declared("a"), attachment("cf2", &["z"], true));
    process_record_item(&mut topology, item("b", vec![attachment("cf2", &["z"], true), attachment("cf3", &["y"], true)], &[]));
    assert_eq!(topology.len(), 3);
    assert_eq!(names(&topology.provider(1).record.zone(0).records.records), vec!["a", "b"]);
    assert_eq!(topology.provider(0).record.len(), 0);

    let mut zones = BackendRecords::new();
    let settings = CfgParamList { list: vec![] };
    add_zone_record(&mut zones, "z".to_string(), &declared("c"), &settings);
    add_zone_record(&mut zones, "z".to_string(), &declared("d"), &settings);
    assert_eq!(names(&zones.zone(0).records.records), vec!["c", "d"]);
    assert_eq!(zones.zone(0).records.records[0].content, RecordContent::Unassigned(RecordType::A));
}

#[test]
fn providers_and_fetchers_in_use_are_listed_once_and_sorted() {
    let items = vec![
        item("a", vec![attachment("cf2", &["z"], true), attachment("cf1", &["z"], true)], &["f2"]),
        item("b", vec![attachment("cf2", &[], true)], &["f1", "f2"]),
        item("c", vec![], &[]),
    ];
    assert_eq!(list_in_use_providers(&items), vec!["cf1", "cf2"]);
    assert_eq!(list_in_use_fethers(&items, "main"), vec!["f1", "f2", "main"]);
    assert_eq!(list_in_use_fethers(&items, "f1"), vec!["f1", "f2"]);
    assert_eq!(list_in_use_providers(&vec![]), Vec::<String>::new());
    assert_eq!(list_in_use_fethers(&vec![], "main"), vec!["main"]);
}
