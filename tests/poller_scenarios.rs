use allegedly::{
    full_pages_step_at, Dt, ExportPage, FullPagesStep, LastOp, Op, OpKey, PollError, Poller,
};

fn op(did: &str, cid: &str, created_at: &str) -> Op {
    Op {
        did: did.to_string(),
        cid: cid.to_string(),
        created_at: Dt::parse_rfc3339(created_at).unwrap(),
        nullified: false,
        operation: serde_json::from_str("{\"type\":\"plc_operation\"}").unwrap(),
    }
}

fn key(did: &str, cid: &str) -> OpKey {
    OpKey {
        did: did.to_string(),
        cid: cid.to_string(),
    }
}

const T0: &str = "2015-05-15T00:00:00Z";
const T1: &str = "2015-05-15T00:00:01Z";

/// The state of the empty-boundary scenario: an empty page, then one op.
fn s1_poller() -> Poller {
    let mut p = Poller::new(None);
    let out = p.take_page(ExportPage { ops: vec![] }).unwrap();
    assert!(out.is_empty());
    assert!(p.boundary.is_none());
    let out = p
        .take_page(ExportPage {
            ops: vec![op("d", "c", T0)],
        })
        .unwrap();
    assert_eq!(out.ops, vec![op("d", "c", T0)]);
    p
}

#[test]
fn empty_boundary_then_one_op() {
    let p = s1_poller();
    let b = p.boundary.as_ref().unwrap();
    assert_eq!(b.last_at, Dt::from_timestamp(1431648000, 0).unwrap());
    assert_eq!(b.keys_at, vec![key("d", "c")]);
    assert_eq!(p.after(), Some(Dt::from_timestamp(1431648000, 0).unwrap()));
}

#[test]
fn exact_duplicate_is_removed() {
    let mut p = s1_poller();
    let out = p
        .take_page(ExportPage {
            ops: vec![op("d", "c", T0)],
        })
        .unwrap();
    assert_eq!(out.ops.len(), 0);
    let b = p.boundary.as_ref().unwrap();
    assert_eq!(b.last_at, Dt::from_timestamp(1431648000, 0).unwrap());
    assert_eq!(b.keys_at, vec![key("d", "c")]);
}

#[test]
fn same_time_new_key_is_kept() {
    let mut p = s1_poller();
    let out = p
        .take_page(ExportPage {
            ops: vec![op("d", "c2", T0)],
        })
        .unwrap();
    assert_eq!(out.ops, vec![op("d", "c2", T0)]);
    let b = p.boundary.as_ref().unwrap();
    assert_eq!(b.last_at, Dt::from_timestamp(1431648000, 0).unwrap());
    assert_eq!(b.keys_at, vec![key("d", "c"), key("d", "c2")]);
}

#[test]
fn same_time_duplicate_then_new() {
    let mut p = s1_poller();
    let out = p
        .take_page(ExportPage {
            ops: vec![op("d", "c", T0), op("d", "c2", T0)],
        })
        .unwrap();
    assert_eq!(out.ops, vec![op("d", "c2", T0)]);
    let b = p.boundary.as_ref().unwrap();
    assert_eq!(b.last_at, Dt::from_timestamp(1431648000, 0).unwrap());
    assert_eq!(b.keys_at, vec![key("d", "c"), key("d", "c2")]);
}

#[test]
fn advancing_time_resets_keys() {
    let mut p = s1_poller();
    let out = p
        .take_page(ExportPage {
            ops: vec![op("d", "c", T0), op("d2", "c3", T1)],
        })
        .unwrap();
    assert_eq!(out.ops, vec![op("d2", "c3", T1)]);
    let b = p.boundary.as_ref().unwrap();
    assert_eq!(b.last_at, Dt::from_timestamp(1431648001, 0).unwrap());
    assert_eq!(b.keys_at, vec![key("d2", "c3")]);
    assert_eq!(p.after(), Some(Dt::from_timestamp(1431648001, 0).unwrap()));
}

#[test]
fn full_pages_filter_stops_on_small_recent_page() {
    let now = Dt::from_timestamp(1_700_000_000, 0).unwrap();
    let old = op("d", "c", T0);
    let mut recent = op("d", "c", T0);
    recent.created_at = now;
    let big = |last: &Op| ExportPage {
        ops: (0..1000).map(|_| last.clone()).collect(),
    };
    let small = ExportPage {
        ops: (0..850).map(|_| recent.clone()).collect(),
    };
    let mut forwarded = 0;
    let mut stop = None;
    for page in [big(&old), big(&old), small] {
        match full_pages_step_at(&page, now) {
            FullPagesStep::Forward => forwarded += 1,
            other => {
                stop = Some(other);
                break;
            }
        }
    }
    assert_eq!(forwarded, 2);
    assert_eq!(stop, Some(FullPagesStep::CaughtUp));
}

#[test]
fn full_pages_filter_edges() {
    let now = Dt::from_timestamp(1_700_000_000, 0).unwrap();
    let mut o = op("d", "c", T0);
    assert_eq!(
        full_pages_step_at(&ExportPage { ops: vec![] }, now),
        FullPagesStep::EmptyStop
    );
    // exactly six hours old still counts as caught up
    o.created_at = Dt::from_timestamp(1_700_000_000 - 6 * 3600, 0).unwrap();
    let page = ExportPage {
        ops: vec![o.clone(); 899],
    };
    assert_eq!(full_pages_step_at(&page, now), FullPagesStep::CaughtUp);
    // one nanosecond older is stale
    o.created_at = Dt::from_timestamp(1_700_000_000 - 6 * 3600 - 1, 999_999_999).unwrap();
    let page = ExportPage {
        ops: vec![o.clone(); 899],
    };
    assert_eq!(full_pages_step_at(&page, now), FullPagesStep::StaleStop);
    let page = ExportPage {
        ops: vec![o.clone(); 900],
    };
    assert_eq!(full_pages_step_at(&page, now), FullPagesStep::Forward);
}

#[test]
fn boundary_time_never_moves_back() {
    let mut p = s1_poller();
    let pages = vec![
        vec![op("d", "c", T0), op("a", "b", T0)],
        vec![],
        vec![op("a", "b", T0), op("x", "y", T1)],
        vec![op("x", "y", T1)],
        vec![op("x", "z", T1), op("q", "r", "2015-05-15T00:00:02Z")],
    ];
    let mut last = p.boundary.as_ref().unwrap().last_at;
    let mut emitted = vec![];
    for ops in pages {
        let out = p.take_page(ExportPage { ops }).unwrap();
        emitted.extend(out.ops.into_iter().map(|o| (o.did, o.cid)));
        let now_at = p.boundary.as_ref().unwrap().last_at;
        assert!(!now_at.is_earlier(&last));
        last = now_at;
    }
    let names: Vec<(&str, &str)> = emitted
        .iter()
        .map(|(d, c)| (d.as_str(), c.as_str()))
        .collect();
    assert_eq!(names, vec![("a", "b"), ("x", "y"), ("x", "z"), ("q", "r")]);
}

#[test]
fn unseen_key_at_boundary_time_is_emitted() {
    let mut p = s1_poller();
    let out = p
        .take_page(ExportPage {
            ops: vec![op("d", "c", T0), op("e", "f", T0), op("g", "h", T1)],
        })
        .unwrap();
    assert_eq!(out.ops, vec![op("e", "f", T0), op("g", "h", T1)]);
}

#[test]
fn time_going_backwards_is_refused() {
    let mut p = Poller::new(None);
    p.take_page(ExportPage {
        ops: vec![op("d", "c", T1)],
    })
    .unwrap();
    let r = p.take_page(ExportPage {
        ops: vec![op("e", "f", T0)],
    });
    assert_eq!(r.err(), Some(PollError::TimeWentBackwards));
    assert_eq!(
        p.boundary.as_ref().unwrap().last_at,
        Dt::from_timestamp(1431648001, 0).unwrap()
    );
}

#[test]
fn poller_resumes_after_given_time() {
    let start = Dt::from_timestamp(1431648000, 5).unwrap();
    let mut p = Poller::new(Some(start));
    assert_eq!(p.after(), Some(start));
    p.take_page(ExportPage { ops: vec![] }).unwrap();
    assert_eq!(p.after(), Some(start));
    assert_eq!(Poller::new(None).after(), None);
}

#[test]
fn keys_and_resume_points_from_ops() {
    let o = op("d", "c", T0);
    assert_eq!(OpKey::from(&o), key("d", "c"));
    let l = LastOp::from(&o);
    assert_eq!(l.created_at, o.created_at);
    assert_eq!(l.pk, ("d".to_string(), "c".to_string()));
    let l = LastOp::from(o.created_at);
    assert_eq!(l.pk, (String::new(), String::new()));
}

#[test]
fn ops_compare_documents_as_structured_json() {
    let mut a = op("d", "c", T0);
    let mut b = op("d", "c", T0);
    a.operation = serde_json::from_str("{\"a\":1,\"b\":[true]}").unwrap();
    b.operation = serde_json::from_str("{ \"b\": [true], \"a\": 1 }").unwrap();
    assert_eq!(a, b);
    b.nullified = true;
    assert_ne!(a, b);
}
