use quiche_apps::client::experiments::{
    finish_tags, judge, ladder_requests, matches_target, reversal_updates, trio_requests, Tally,
    TRIALS, UPDATE_DELAY_MS,
};
use quiche_apps::client::order::{finish_order, finish_order_vs_urgency, first_finisher};
use quiche_apps::client::request::Req;
use quiche_apps::client::schedule::{Priority, PriorityUpdate};
use quiche_apps::client::stat::Stat;
use quiche_apps::client::verdict::verdict_from_ratio;

fn row(tag: &'static str, urgency: u8, t_sent: u128, t_fin: Option<u128>) -> Stat {
    let mut s = Stat::sent_at(0, tag, urgency, false, t_sent);
    s.t_fin = t_fin;
    s
}

fn plain(reqs: &[Req]) -> Vec<(&[u8], u8, bool, &'static str)> {
    reqs.iter().map(|r| (r.path.as_slice(), r.urgency, r.incremental, r.tag)).collect()
}

/// The share in double precision.
fn reference_verdict(pairs: usize, inversions: usize) -> &'static str {
    if pairs == 0 {
        return "insufficient data";
    }
    if inversions == 0 {
        return "priorities honored";
    }
    let r = inversions as f64 / pairs as f64;
    if r <= 0.25 {
        "mostly honored"
    } else if r <= 0.5 {
        "mixed"
    } else {
        "not honored"
    }
}

#[test]
fn requests_and_updates_of_the_experiments() {
    assert_eq!(TRIALS, 1);
    assert_eq!(UPDATE_DELAY_MS, 100);
    assert_eq!(
        plain(&ladder_requests(b"/p")),
        [
            (b"/p" as &[u8], 7, false, "u7"),
            (b"/p", 6, false, "u6"),
            (b"/p", 3, false, "u3"),
            (b"/p", 0, false, "u0"),
        ]
    );
    assert_eq!(
        plain(&trio_requests(b"/p")),
        [(b"/p" as &[u8], 0, true, "A"), (b"/p", 3, true, "B"), (b"/p", 7, true, "C")]
    );
    let to = |request: usize, urgency: u8| PriorityUpdate {
        request,
        priority: Priority { urgency, incremental: true },
        delay: 100_000_000,
    };
    assert_eq!(reversal_updates(), vec![to(0, 7), to(1, 3), to(2, 0)]);
}

#[test]
fn honored_priorities_have_no_inversions() {
    let rows = [
        row("u7", 7, 0, Some(40)),
        row("u6", 6, 1, Some(31)),
        row("u3", 3, 2, Some(22)),
        row("u0", 0, 3, Some(13)),
    ];
    assert_eq!(finish_order_vs_urgency(&rows), (6, 0));
}

#[test]
fn ignored_priorities_have_inversions() {
    let rows = [
        row("u7", 7, 0, Some(10)),
        row("u6", 6, 0, Some(20)),
        row("u3", 3, 0, Some(30)),
        row("u0", 0, 0, Some(40)),
    ];
    assert_eq!(finish_order_vs_urgency(&rows), (6, 6));
    let swapped = [rows[3], rows[2], rows[1], rows[0]];
    assert_eq!(finish_order_vs_urgency(&swapped), (6, 6));
}

#[test]
fn time_counts_from_sending_and_ties_keep_the_listed_order() {
    // Both took 10, though the second was complete first.
    let late_first = [row("a", 5, 10, Some(20)), row("b", 3, 0, Some(10))];
    assert_eq!(finish_order_vs_urgency(&late_first), (1, 1));
    let other = [late_first[1], late_first[0]];
    assert_eq!(finish_order_vs_urgency(&other), (1, 0));
}

#[test]
fn listing_does_not_matter_where_delays_differ() {
    let rows = [
        row("a", 7, 0, Some(10)),
        row("b", 0, 5, Some(25)),
        row("c", 3, 0, Some(30)),
        row("d", 3, 9, Some(49)),
    ];
    let counts = finish_order_vs_urgency(&rows);
    assert_eq!(counts, (6, 3));
    for i in 0..4 {
        for j in 0..4 {
            for k in 0..4 {
                if i == j || j == k || i == k {
                    continue;
                }
                let l = 6 - i - j - k;
                let listed = [rows[i], row("x", 9, 0, None), rows[j], rows[k], rows[l]];
                assert_eq!(finish_order_vs_urgency(&listed), counts);
            }
        }
    }
}

#[test]
fn listing_does_not_matter_for_ties_of_one_urgency() {
    let a = row("a", 3, 0, Some(10));
    let b = row("b", 3, 5, Some(15));
    let c = row("c", 0, 0, Some(20));
    assert_eq!(finish_order_vs_urgency(&[a, b, c]), (3, 2));
    assert_eq!(finish_order_vs_urgency(&[c, b, row("x", 0, 0, None), a]), (3, 2));
}

#[test]
fn incomplete_responses_do_not_count() {
    assert_eq!(finish_order_vs_urgency(&[]), (0, 0));
    assert_eq!(finish_order_vs_urgency(&[row("a", 0, 0, None)]), (0, 0));
    let rows = [row("a", 7, 0, Some(1)), row("b", 0, 0, None), row("c", 3, 0, Some(2))];
    assert_eq!(finish_order_vs_urgency(&rows), (1, 1));
}

#[test]
fn first_finisher_is_the_first_of_the_order() {
    let rows = [
        row("a", 1, 0, None),
        row("b", 2, 0, Some(30)),
        row("c", 3, 0, Some(20)),
        row("d", 4, 0, Some(20)),
    ];
    assert_eq!(first_finisher(&rows), Some(("c", 3)));
    assert_eq!(finish_order(&rows), vec![2, 3, 1]);
    assert_eq!(finish_tags(&rows), vec!["c", "d", "b"]);
    assert_eq!(first_finisher(&rows[..1]), None);
    assert!(finish_order(&rows[..1]).is_empty());
}

#[test]
fn target_order() {
    assert!(matches_target(&["C", "B", "A"]));
    assert!(matches_target(&["C", "B", "A", "D"]));
    assert!(!matches_target(&["C", "B"]));
    assert!(!matches_target(&["A", "B", "C"]));
    assert!(!matches_target(&["C", "B", "AA"]));
}

#[test]
fn verdicts() {
    assert_eq!(verdict_from_ratio(0, 0), "insufficient data");
    assert_eq!(verdict_from_ratio(0, 3), "insufficient data");
    assert_eq!(verdict_from_ratio(6, 0), "priorities honored");
    assert_eq!(verdict_from_ratio(8, 2), "mostly honored");
    assert_eq!(verdict_from_ratio(8, 3), "mixed");
    assert_eq!(verdict_from_ratio(8, 4), "mixed");
    assert_eq!(verdict_from_ratio(8, 5), "not honored");
    assert_eq!(verdict_from_ratio(1, 5), "not honored");
}

#[test]
fn verdicts_follow_double_precision() {
    let mut counts: Vec<usize> = (0..40).collect();
    for shift in [20, 50, 51, 52, 53, 54, 60, 61, 62, 63] {
        let base = 1usize << shift;
        for offset in 0..5usize {
            counts.push(base.wrapping_add(offset));
            counts.push(base.wrapping_sub(offset));
            counts.push(base.wrapping_add(offset << (shift / 2)));
            counts.push(base.wrapping_add(1usize << (shift - offset)));
        }
    }
    for offset in 0..2050usize {
        counts.push(usize::MAX - offset);
    }
    for pairs in counts.iter() {
        for inversions in counts.iter().take(250) {
            assert_eq!(
                verdict_from_ratio(*pairs, *inversions),
                reference_verdict(*pairs, *inversions),
                "{} {}",
                pairs,
                inversions
            );
        }
        for share in [2usize, 4] {
            for inversions in (pairs / share).saturating_sub(700)..=pairs / share + 700 {
                assert_eq!(
                    verdict_from_ratio(*pairs, inversions),
                    reference_verdict(*pairs, inversions),
                    "{} {}",
                    pairs,
                    inversions
                );
            }
        }
    }
}

#[test]
fn trials_are_judged_and_tallied() {
    let good = [row("u7", 7, 0, Some(40)), row("u0", 0, 0, Some(13))];
    let bad = [row("u7", 7, 0, Some(10)), row("u0", 0, 0, Some(13))];
    let mut tally = Tally::new();
    let t = judge(&good);
    assert_eq!((t.pairs, t.inversions, t.first), (1, 0, Some(("u0", 0))));
    assert_eq!(t.verdict, "priorities honored");
    tally.record(t.pairs, t.inversions);
    let t = judge(&bad);
    assert_eq!((t.pairs, t.inversions, t.first), (1, 1, Some(("u7", 7))));
    assert_eq!(t.verdict, "not honored");
    tally.record(t.pairs, t.inversions);
    let t = judge(&[]);
    assert_eq!((t.pairs, t.inversions, t.first), (0, 0, None));
    assert_eq!(t.verdict, "insufficient data");
    tally.record(t.pairs, t.inversions);
    assert_eq!((tally.pairs, tally.inversions, tally.clean_trials), (2, 1, 1));
    assert_eq!(tally.conclusion(), "mixed");
}
