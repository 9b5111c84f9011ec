use allegedly::{Dt, Week, WeekBound, FIRST_WEEK_TS, WEEK_IN_SECONDS};

const W: i64 = 604_800;
const MARGIN: i64 = 73 * 3600;

#[test]
fn week_constant_is_seven_days() {
    assert_eq!(WEEK_IN_SECONDS, W);
}

#[test]
fn week_from_instant_floors_to_week() {
    let t = Dt::from_timestamp(1_431_648_000, 123).unwrap();
    let w = Week::from(t);
    assert_eq!(w, Week::from_n(1_431_561_600));
    assert_eq!(w.timestamp() % W, 0);
    assert!(w.timestamp() <= t.timestamp());
    assert!(t.timestamp() - w.timestamp() < W);
    assert_eq!(Dt::from(w), Dt::from_timestamp(1_431_561_600, 0).unwrap());
    // an instant on a week boundary is its own week
    let exact = Dt::from_timestamp(FIRST_WEEK_TS, 0).unwrap();
    assert_eq!(Dt::from(Week::from(exact)), exact);
}

#[test]
fn week_from_negative_instant_floors_down() {
    let t = Dt::from_timestamp(-1, 0).unwrap();
    assert_eq!(Week::from(t), Week::from_n(-W));
    let t = Dt::from_timestamp(-W, 0).unwrap();
    assert_eq!(Week::from(t), Week::from_n(-W));
}

#[test]
fn next_prev_and_n_until() {
    let w = Week::from_n(FIRST_WEEK_TS);
    assert_eq!(w.next(), Week::from_n(FIRST_WEEK_TS + W));
    assert_eq!(w.prev(), Week::from_n(FIRST_WEEK_TS - W));
    assert_eq!(w.next().prev(), w);
    assert_eq!(w.n_until(Week::from_n(FIRST_WEEK_TS + 3 * W + 5)), 3);
    // rounds toward zero
    assert_eq!(Week::from_n(0).n_until(Week::from_n(-W - 1)), -1);
    assert_eq!(
        w.n_ago_at(Dt::from_timestamp(FIRST_WEEK_TS + 2 * W, 0).unwrap()),
        2
    );
    assert!(w.n_ago() > 0);
}

#[test]
fn immutability_cutoff_edges() {
    let w = Week::from_n(FIRST_WEEK_TS);
    let end = FIRST_WEEK_TS + W;
    let at = |s: i64| Dt::from_timestamp(s, 0).unwrap();
    assert!(w.is_immutable_at(at(end + MARGIN)));
    assert!(!w.is_immutable_at(at(end + MARGIN - 1)));
    assert!(!w.is_immutable_at(at(end)));
    assert!(w.is_immutable());
    assert!(!Week::from(Dt::now()).is_immutable());
}

#[test]
fn ranges_of_weeks() {
    let a = Week::from_n(0);
    let r = Week::range_at(
        WeekBound::Included(a),
        WeekBound::Excluded(Week::from_n(3 * W)),
        Dt::from_timestamp(0, 0).unwrap(),
    );
    assert_eq!(r, vec![Week(0), Week(W), Week(2 * W)]);
    let r = Week::range(WeekBound::Excluded(a), WeekBound::Included(Week::from_n(3 * W)));
    assert_eq!(r, vec![Week(W), Week(2 * W), Week(3 * W)]);
    let r = Week::range(WeekBound::Included(a), WeekBound::Excluded(a));
    assert!(r.is_empty());
    // unbounded: up to, not including, the first week that is not immutable
    let now = Dt::from_timestamp(3 * W + MARGIN, 0).unwrap();
    let r = Week::range_at(WeekBound::Included(a), WeekBound::Unbounded, now);
    assert_eq!(r, vec![Week(0), Week(W), Week(2 * W)]);
    let now = Dt::from_timestamp(3 * W + MARGIN - 1, 0).unwrap();
    let r = Week::range_at(WeekBound::Included(a), WeekBound::Unbounded, now);
    assert_eq!(r, vec![Week(0), Week(W)]);
}

#[test]
fn backfill_takes_recent_immutable_weeks_first() {
    let now = Dt::from_timestamp(FIRST_WEEK_TS + 3 * W + MARGIN, 0).unwrap();
    let r = Week::backfill_weeks_at(None, now);
    assert_eq!(
        r,
        vec![
            Week(FIRST_WEEK_TS + 2 * W),
            Week(FIRST_WEEK_TS + W),
            Week(FIRST_WEEK_TS)
        ]
    );
    // stops before the week of `until`
    let until = Dt::from_timestamp(FIRST_WEEK_TS + W + 5, 0).unwrap();
    let r = Week::backfill_weeks_at(Some(until), now);
    assert_eq!(r, vec![Week(FIRST_WEEK_TS)]);
    // but never past the immutability cutoff
    let until = Dt::from_timestamp(FIRST_WEEK_TS + 10 * W, 0).unwrap();
    let r = Week::backfill_weeks_at(Some(until), now);
    assert_eq!(r.len(), 3);
    let all = Week::backfill_weeks(None);
    assert_eq!(all.last(), Some(&Week(FIRST_WEEK_TS)));
    assert!(all.iter().all(|w| w.is_immutable()));
}
