use omniarb::prefilter::{Route, RoutePrefilter};

fn millionths(profit: f64) -> i64 {
    (profit * 1_000_000.0).round() as i64
}

fn route(hops: usize, profit: f64) -> Route {
    let mut names = Vec::new();
    for i in 0..hops {
        names.push(format!("hop{}", i));
    }
    Route { hops: names, estimated_profit: millionths(profit), token_path: vec!["WETH".to_string(), "USDC".to_string()] }
}

#[test]
fn batch_keeps_only_the_short_profitable_route() {
    let filter = RoutePrefilter::new(millionths(0.01), 4);
    let kept = filter.prefilter_batch(vec![route(3, 0.02), route(6, 0.5), route(2, 0.001)]);
    assert_eq!(kept.len(), 1);
    assert_eq!(kept[0].hops.len(), 3);
    assert_eq!(kept[0].estimated_profit, millionths(0.02));
    assert_eq!(kept[0].hops, vec!["hop0".to_string(), "hop1".to_string(), "hop2".to_string()]);
    assert_eq!(kept[0].token_path, vec!["WETH".to_string(), "USDC".to_string()]);
}

#[test]
fn batch_preserves_arrival_order() {
    let filter = RoutePrefilter::new(10, 3);
    let mut routes = Vec::new();
    for i in 0..20i64 {
        let mut r = route(((i % 5) + 1) as usize, 0.0);
        r.estimated_profit = i;
        routes.push(r);
    }
    let kept = filter.prefilter_batch(routes);
    let profits: Vec<i64> = kept.iter().map(|r| r.estimated_profit).collect();
    assert_eq!(profits, vec![10, 11, 12, 15, 16, 17]);
}

#[test]
fn batch_of_nothing_is_nothing() {
    let filter = RoutePrefilter::new(0, 4);
    assert!(filter.prefilter_batch(Vec::new()).is_empty());
}

#[test]
fn route_at_both_limits_is_accepted() {
    let filter = RoutePrefilter::new(millionths(0.01), 4);
    assert!(filter.filter_route(&route(4, 0.01)));
    assert!(!filter.filter_route(&route(5, 0.01)));
    assert!(!filter.filter_route(&route(4, 0.009999)));
}

#[test]
fn hop_limit_is_tested_whatever_the_profit() {
    let filter = RoutePrefilter::new(i64::MIN, 0);
    assert!(filter.filter_route(&route(0, -5.0)));
    assert!(!filter.filter_route(&route(1, 100.0)));
}

#[test]
fn new_prefilter_holds_its_thresholds() {
    let filter = RoutePrefilter::new(-7, 9);
    assert_eq!(filter.min_profit_threshold, -7);
    assert_eq!(filter.max_hops, 9);
}
