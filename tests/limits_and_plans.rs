use allegedly::{
    aborts_pipeline, ipv6_keys, plan_backfill, scale_quota, BackfillOptions, BackfillPlan,
    BulkSource, PlanError, QuotaParts, SinkKind, TaskEnd,
};

fn opts() -> BackfillOptions {
    BackfillOptions {
        has_dir: false,
        http_is_default: true,
        no_bulk: false,
        source_workers: None,
        to_postgres: false,
        catch_up: false,
    }
}

#[test]
fn quota_scaling_divides_period_and_multiplies_burst() {
    // 10 per hour: one cell every 360 s, burst 10
    let q = QuotaParts {
        period_nanos: 360_000_000_000,
        burst: 10,
    };
    assert_eq!(
        scale_quota(q, 8),
        Some(QuotaParts {
            period_nanos: 45_000_000_000,
            burst: 80
        })
    );
    assert_eq!(
        scale_quota(q, 256),
        Some(QuotaParts {
            period_nanos: 1_406_250_000,
            burst: 2560
        })
    );
    let tiny = QuotaParts {
        period_nanos: 7,
        burst: 1,
    };
    assert_eq!(scale_quota(tiny, 8), None);
    assert_eq!(scale_quota(tiny, 1), Some(tiny));
}

#[test]
fn ipv6_clients_are_keyed_by_prefix() {
    let octets: Vec<u8> = (1..=16).collect();
    let k = ipv6_keys(&octets);
    assert_eq!(
        k.net64,
        vec![1, 2, 3, 4, 5, 6, 7, 8, 0, 0, 0, 0, 0, 0, 0, 0]
    );
    assert_eq!(k.net56, vec![1, 2, 3, 4, 5, 6, 7]);
    assert_eq!(k.net48, vec![1, 2, 3, 4, 5, 6]);
}

#[test]
fn backfill_plans() {
    assert_eq!(
        plan_backfill(&BackfillOptions {
            no_bulk: true,
            has_dir: true,
            http_is_default: false,
            ..opts()
        }),
        Ok(BackfillPlan::PollOnly)
    );
    assert_eq!(
        plan_backfill(&opts()),
        Ok(BackfillPlan::Bulk {
            source: BulkSource::Http,
            workers: 4,
            sink: SinkKind::Stdout,
            catch_up: false
        })
    );
    assert_eq!(
        plan_backfill(&BackfillOptions {
            has_dir: true,
            to_postgres: true,
            catch_up: true,
            ..opts()
        }),
        Ok(BackfillPlan::Bulk {
            source: BulkSource::Folder,
            workers: 1,
            sink: SinkKind::Postgres,
            catch_up: true
        })
    );
    assert_eq!(
        plan_backfill(&BackfillOptions {
            source_workers: Some(9),
            ..opts()
        }),
        Ok(BackfillPlan::Bulk {
            source: BulkSource::Http,
            workers: 9,
            sink: SinkKind::Stdout,
            catch_up: false
        })
    );
    assert_eq!(
        plan_backfill(&BackfillOptions {
            has_dir: true,
            http_is_default: false,
            ..opts()
        }),
        Err(PlanError::FolderAndHttp)
    );
}

#[test]
fn supervision_stops_on_any_failure() {
    assert!(aborts_pipeline(TaskEnd::Panicked));
    assert!(aborts_pipeline(TaskEnd::JoinFailed));
    assert!(aborts_pipeline(TaskEnd::Failed));
    assert!(!aborts_pipeline(TaskEnd::Completed));
}
