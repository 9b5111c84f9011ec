use allegedly::{
    booo, export_lines, failed_to_reach_named, fold_last_at, logo, migrations_match, Dt,
    ExperimentalConf, ExpiringValue, ExportPage, HostCheck, Op, PageChunker, BUNDLE_PAGE_SIZE,
};

fn op_at(secs: i64) -> Op {
    Op {
        did: "did".to_string(),
        cid: format!("cid{secs}"),
        created_at: Dt::from_timestamp(secs, 0).unwrap(),
        nullified: false,
        operation: serde_json::from_str("{}").unwrap(),
    }
}

#[test]
fn rfc3339_parsing_keeps_the_instant() {
    let t = Dt::parse_rfc3339("2015-05-15T00:00:01.5+01:00").unwrap();
    assert_eq!(t.timestamp(), 1_431_648_001 - 3600);
    assert_eq!(t.timestamp_subsec_nanos(), 500_000_000);
    assert_eq!(Dt::parse_rfc3339("not a time"), None);
    assert_eq!(Dt::from_timestamp(5, 1_000_000_000), None);
    assert!(Dt::now().timestamp() > 1_600_000_000);
}

#[test]
fn export_body_lines_drop_blanks() {
    let body = b"{\"a\":1}\n\n  \n{\"b\":2}\r\n{\"c\":3}";
    let lines = export_lines(body);
    assert_eq!(
        lines,
        vec![
            b"{\"a\":1}".to_vec(),
            b"{\"b\":2}\r".to_vec(),
            b"{\"c\":3}".to_vec()
        ]
    );
    assert!(export_lines(b"").is_empty());
    assert!(export_lines(b"\n \n").is_empty());
    assert_eq!(export_lines(b"x\n"), vec![b"x".to_vec()]);
}

#[test]
fn last_at_is_the_latest_page_end() {
    let first_page = ExportPage {
        ops: vec![op_at(5), op_at(9)],
    };
    let second_page = ExportPage {
        ops: vec![op_at(7)],
    };
    let empty = ExportPage { ops: vec![] };
    let l = fold_last_at(None, &empty);
    assert_eq!(l, None);
    let l = fold_last_at(l, &first_page);
    assert_eq!(l, Dt::from_timestamp(9, 0));
    let l = fold_last_at(l, &second_page);
    assert_eq!(l, Dt::from_timestamp(9, 0));
    let l = fold_last_at(l, &ExportPage { ops: vec![op_at(11)] });
    assert_eq!(l, Dt::from_timestamp(11, 0));
}

#[test]
fn bundle_ops_are_chunked_in_order() {
    let mut c = PageChunker::new();
    let mut pages = vec![];
    for i in 0..(BUNDLE_PAGE_SIZE as i64 + 3) {
        if let Some(p) = c.push(op_at(i)) {
            pages.push(p);
        }
    }
    assert_eq!(pages.len(), 1);
    assert_eq!(pages[0].ops.len(), BUNDLE_PAGE_SIZE);
    assert_eq!(pages[0].ops[0], op_at(0));
    let last = c.finish().unwrap();
    assert_eq!(last.ops.len(), 3);
    assert_eq!(last.ops[0], op_at(BUNDLE_PAGE_SIZE as i64));
    assert!(PageChunker::new().finish().is_none());
}

#[test]
fn migration_list_must_match_exactly() {
    let good: Vec<String> = [
        "_20221020T204908820Z",
        "_20230223T215019669Z",
        "_20230406T174552885Z",
        "_20231128T203323431Z",
    ]
    .iter()
    .map(|s| s.to_string())
    .collect();
    assert!(migrations_match(&good));
    assert!(!migrations_match(&good[..3].to_vec()));
    let mut extra = good.clone();
    extra.push("_20240101T000000000Z".to_string());
    assert!(!migrations_match(&extra));
    let mut other = good.clone();
    other[2] = "_20230406T174552885Y".to_string();
    assert!(!migrations_match(&other));
    assert!(!migrations_match(&vec![]));
}

const ART_HEAD: &str = "\n\n    \\    |  |                         |  |\n   _ \\   |  |   -_)   _` |   -_)   _` |  |  |  |    (";
const ART_MID: &str = ")\n _/  _\\ _| _| \\___| \\__, | \\___| \\__,_| _| \\_, |    (v";
const ART_TAIL: &str = ")\n                     ____|                  __/\n";

#[test]
fn banners_are_exact() {
    let l = logo("tail");
    assert_eq!(l, format!("{ART_HEAD}tail{ART_MID}0.1.0{ART_TAIL}"));
    assert_eq!(
        failed_to_reach_named("upstream PLC"),
        format!(
            "{}\n\nFailed to reach the upstream PLC server. Sorry.\n",
            logo("mirror 502 :( ")
        )
    );
    assert_eq!(
        booo(),
        format!(
            "{}\n\nYou're going a bit too fast.\n\nTip: check out the `x-ratelimit-after` response header.\n",
            logo("mirror 429")
        )
    );
}

#[test]
fn experimental_writes_check_the_host() {
    let open = ExperimentalConf {
        acme_domain: None,
        write_upstream: true,
    };
    assert_eq!(open.check_host(None), HostCheck::Allowed);
    let pinned = ExperimentalConf {
        acme_domain: Some("plc.example.com".to_string()),
        write_upstream: true,
    };
    assert_eq!(pinned.check_host(None), HostCheck::MissingHost);
    assert_eq!(pinned.check_host(Some("other.example.com")), HostCheck::WrongHost);
    assert_eq!(pinned.check_host(Some("plc.example.com")), HostCheck::Allowed);
}

#[test]
fn expiring_value_is_fresh_until_its_deadline() {
    let v = ExpiringValue {
        value: "x".to_string(),
        expires: 100,
    };
    assert_eq!(v.get(99), Some("x".to_string()));
    assert_eq!(v.get(100), Some("x".to_string()));
    assert_eq!(v.get(101), None);
}
