use selinux_why::cache::{DecisionCache, CACHE_ENTRIES};
use selinux_why::query::AvcQuery;
use selinux_why::why::{WhyReason, WhyResult};

fn query(n: usize) -> AvcQuery {
    AvcQuery {
        scontext: format!("source{}", n).into_bytes(),
        tcontext: b"target".to_vec(),
        tclass: b"file".to_vec(),
        permissions: vec![b"read".to_vec()],
    }
}

fn result(n: usize) -> WhyResult {
    WhyResult {
        reason: WhyReason::TeRule,
        detail: Some(format!("detail{}", n).into_bytes()),
    }
}

fn full_cache() -> DecisionCache {
    let mut cache = DecisionCache::new();
    for n in 0..CACHE_ENTRIES {
        cache.insert(query(n), result(n));
    }
    cache
}

#[test]
fn new_cache_remembers_nothing() {
    let mut cache = DecisionCache::new();
    assert_eq!(cache.len(), 0);
    assert_eq!(cache.get(&query(0)), None);
}

#[test]
fn stored_answer_is_remembered() {
    let mut cache = DecisionCache::new();
    cache.insert(query(1), result(1));
    cache.insert(query(2), result(2));
    assert_eq!(cache.get(&query(1)), Some(result(1)));
    assert_eq!(cache.get(&query(2)), Some(result(2)));
    assert_eq!(cache.get(&query(3)), None);
    assert_eq!(cache.len(), 2);
}

#[test]
fn every_part_of_a_query_counts() {
    let mut cache = DecisionCache::new();
    cache.insert(query(1), result(1));
    let mut other = query(1);
    other.tcontext = b"elsewhere".to_vec();
    assert_eq!(cache.get(&other), None);
    let mut other = query(1);
    other.tclass = b"dir".to_vec();
    assert_eq!(cache.get(&other), None);
    let mut other = query(1);
    other.permissions.push(b"write".to_vec());
    assert_eq!(cache.get(&other), None);
}

#[test]
fn later_answer_replaces_earlier_one() {
    let mut cache = DecisionCache::new();
    cache.insert(query(1), result(1));
    cache.insert(query(1), result(2));
    assert_eq!(cache.get(&query(1)), Some(result(2)));
    assert_eq!(cache.len(), 1);
}

#[test]
fn full_cache_forgets_the_oldest() {
    let mut cache = full_cache();
    assert_eq!(cache.len(), 1024);
    cache.insert(query(CACHE_ENTRIES), result(CACHE_ENTRIES));
    assert_eq!(cache.len(), 1024);
    assert_eq!(cache.get(&query(0)), None);
    for n in 1..=CACHE_ENTRIES {
        assert_eq!(cache.get(&query(n)), Some(result(n)));
    }
}

#[test]
fn lookup_saves_an_answer_from_being_forgotten() {
    let mut cache = full_cache();
    assert_eq!(cache.get(&query(0)), Some(result(0)));
    cache.insert(query(CACHE_ENTRIES), result(CACHE_ENTRIES));
    assert_eq!(cache.get(&query(0)), Some(result(0)));
    assert_eq!(cache.get(&query(1)), None);
}

#[test]
fn known_query_makes_a_full_cache_forget_nothing() {
    let mut cache = full_cache();
    cache.insert(query(5), result(50));
    assert_eq!(cache.len(), CACHE_ENTRIES);
    assert_eq!(cache.get(&query(0)), Some(result(0)));
    assert_eq!(cache.get(&query(5)), Some(result(50)));
}

#[test]
fn last_used_answer_outlives_others() {
    let mut cache = full_cache();
    assert!(cache.get(&query(3)).is_some());
    for n in 1..CACHE_ENTRIES {
        cache.insert(query(CACHE_ENTRIES + n), result(n));
    }
    cache.insert(query(CACHE_ENTRIES + 1), result(1));
    assert_eq!(cache.get(&query(3)), Some(result(3)));
    assert_eq!(cache.len(), CACHE_ENTRIES);
}

#[test]
fn any_number_of_uses_of_few_queries_forgets_nothing() {
    let mut cache = DecisionCache::new();
    cache.insert(query(0), result(0));
    for round in 0..3 {
        for n in 1..CACHE_ENTRIES {
            cache.insert(query(n), result(n + round));
            assert_eq!(cache.get(&query(n)), Some(result(n + round)));
        }
    }
    assert_eq!(cache.get(&query(0)), Some(result(0)));
    assert_eq!(cache.len(), CACHE_ENTRIES);
}
