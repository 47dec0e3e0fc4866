use embed_server::cache::{hash_text, EmbeddingCache};
use embed_server::cache_flow::partition_hits_and_misses;

fn bits(v: &[f32]) -> Vec<u32> {
    v.iter().map(|f| f.to_bits()).collect()
}

fn s(v: &str) -> String {
    v.to_string()
}

#[test]
fn hit_after_insert() {
    let mut c = EmbeddingCache::new(10);
    assert!(c.get("e5", "hello").is_none());
    c.insert("e5", "hello", bits(&[1.0, 2.0, 3.0]));
    assert_eq!(c.get("e5", "hello"), Some(bits(&[1.0, 2.0, 3.0])));
}

#[test]
fn miss_on_different_model() {
    let mut c = EmbeddingCache::new(10);
    c.insert("e5", "hello", bits(&[1.0]));
    assert_eq!(c.get("jina", "hello"), None, "per-model keyspace");
}

#[test]
fn miss_on_different_text() {
    let mut c = EmbeddingCache::new(10);
    c.insert("e5", "hello", bits(&[1.0]));
    assert_eq!(c.get("e5", "world"), None);
}

#[test]
fn bounded_capacity_evicts_under_pressure() {
    let mut c = EmbeddingCache::new(2);
    c.insert("m", "a", bits(&[1.0]));
    c.insert("m", "b", bits(&[2.0]));
    c.insert("m", "c", bits(&[3.0]));
    c.run_pending_tasks_for_test();

    let present = ["a", "b", "c"]
        .iter()
        .filter(|t| c.get("m", t).is_some())
        .count();
    assert!(
        present <= 2,
        "cache must respect max_capacity=2, got {present} entries present"
    );
    assert!(
        present >= 1,
        "at least one of the inserted entries should be retained"
    );
    assert!(
        c.len() <= 2,
        "entry_count must not exceed capacity; got {}",
        c.len()
    );
}

#[test]
fn settled_cache_keeps_as_many_as_it_was_made_for() {
    let mut c = EmbeddingCache::new(3);
    assert_eq!(c.len(), 0);
    let texts: Vec<String> = (0..10).map(|i| format!("text {i}")).collect();
    for (i, t) in texts.iter().enumerate() {
        c.insert("m", t, bits(&[i as f32]));
    }
    c.run_pending_tasks_for_test();
    let found = |c: &EmbeddingCache| texts.iter().filter(|t| c.get("m", t).is_some()).count();
    assert_eq!(c.len(), 3);
    assert_eq!(found(&c), 3);
    // Reads give nothing up.
    assert_eq!(found(&c), 3);
    assert_eq!(c.len(), 3);
}

#[test]
fn settled_cache_stays_full() {
    let mut c = EmbeddingCache::new(50);
    for round in 0..5 {
        for i in 0..2000 {
            c.insert("m", &format!("{}", (i * 7 + round) % 1500), bits(&[1.0]));
        }
        c.run_pending_tasks_for_test();
        assert_eq!(c.len(), 50);
    }
}

#[test]
fn hash_text_is_stable_and_distinct() {
    assert_eq!(hash_text("foo"), hash_text("foo"));
    assert_ne!(hash_text("foo"), hash_text("bar"));
    // Empty string hashes consistently.
    assert_eq!(hash_text(""), hash_text(""));
    assert_ne!(hash_text(""), hash_text("a"));
}

#[test]
fn hash_text_is_sha256() {
    let hex: String = hash_text("abc").iter().map(|b| format!("{b:02x}")).collect();
    assert_eq!(hex, "ba7816bf8f01cfea414140de5dae2223b00361a396177a9cb410ff61f20015ad");
}

#[test]
fn disabled_cache_is_noop() {
    let mut c = EmbeddingCache::new(0);
    assert!(!c.is_enabled());
    c.insert("e5", "hello", bits(&[1.0, 2.0, 3.0]));
    assert_eq!(c.get("e5", "hello"), None);
    assert_eq!(c.len(), 0);
}

#[test]
fn enabled_cache_reports_enabled() {
    let c = EmbeddingCache::new(4);
    assert!(c.is_enabled());
}

#[test]
fn repeated_get_returns_same_value() {
    let mut c = EmbeddingCache::new(4);
    c.insert("m", "a", bits(&[1.0, 2.0]));
    assert_eq!(c.get("m", "a"), Some(bits(&[1.0, 2.0])));
    assert_eq!(c.get("m", "a"), Some(bits(&[1.0, 2.0])));
    assert_eq!(c.get("m", "a"), Some(bits(&[1.0, 2.0])));
}

#[test]
fn last_write_wins_and_disturbs_no_other() {
    let mut c = EmbeddingCache::new(4);
    c.insert("m", "a", bits(&[1.0]));
    c.insert("m", "b", bits(&[2.0]));
    c.insert("m", "a", bits(&[3.0]));
    assert_eq!(c.get("m", "a"), Some(bits(&[3.0])));
    assert_eq!(c.get("m", "b"), Some(bits(&[2.0])));
    c.run_pending_tasks_for_test();
    assert_eq!(c.len(), 2);
}

#[test]
fn all_miss_when_cache_empty() {
    let cache = EmbeddingCache::new(10);
    let texts = vec![s("a"), s("b"), s("c")];
    let (cached, pending) = partition_hits_and_misses(&cache, "m", &texts);

    assert_eq!(cached.len(), 3);
    assert!(cached.iter().all(|c| c.is_none()), "all positions miss");
    assert_eq!(pending.len(), 3, "three unique miss texts");
    assert_eq!(pending.get("a"), Some(&vec![0]));
    assert_eq!(pending.get("b"), Some(&vec![1]));
    assert_eq!(pending.get("c"), Some(&vec![2]));
}

#[test]
fn all_hit_when_cache_warm() {
    let mut cache = EmbeddingCache::new(10);
    cache.insert("m", "a", bits(&[1.0]));
    cache.insert("m", "b", bits(&[2.0]));

    let texts = vec![s("a"), s("b"), s("a")];
    let (cached, pending) = partition_hits_and_misses(&cache, "m", &texts);

    assert_eq!(cached[0], Some(bits(&[1.0])));
    assert_eq!(cached[1], Some(bits(&[2.0])));
    assert_eq!(cached[2], Some(bits(&[1.0])));
    assert!(pending.is_empty(), "no misses to embed");
}

#[test]
fn in_request_dedup_groups_positions() {
    let cache = EmbeddingCache::new(10);
    let texts = vec![s("x"), s("y"), s("x"), s("x")];
    let (cached, pending) = partition_hits_and_misses(&cache, "m", &texts);

    assert!(cached.iter().all(|c| c.is_none()));
    assert_eq!(pending.len(), 2, "two unique miss texts (x, y)");

    let x_positions = pending.get("x").expect("x present");
    assert_eq!(x_positions.len(), 3, "x dedup'd across 3 positions");
    assert!(x_positions.contains(&0));
    assert!(x_positions.contains(&2));
    assert!(x_positions.contains(&3));

    assert_eq!(pending.get("y"), Some(&vec![1]));
}

#[test]
fn mixed_hit_and_miss_separate_correctly() {
    let mut cache = EmbeddingCache::new(10);
    cache.insert("m", "hit1", bits(&[10.0]));
    cache.insert("m", "hit2", bits(&[20.0]));

    let texts = vec![
        s("hit1"),
        s("miss_a"),
        s("hit2"),
        s("miss_b"),
        s("miss_a"), // dup with position 1
    ];
    let (cached, pending) = partition_hits_and_misses(&cache, "m", &texts);

    // Hits populate cached[] directly.
    assert_eq!(cached[0], Some(bits(&[10.0])));
    assert_eq!(cached[2], Some(bits(&[20.0])));
    // Misses leave cached[] as None.
    assert!(cached[1].is_none());
    assert!(cached[3].is_none());
    assert!(cached[4].is_none());

    // Pending dedup: miss_a appears once with two positions.
    assert_eq!(pending.len(), 2);
    let a_pos = pending.get("miss_a").expect("miss_a present");
    assert_eq!(a_pos.len(), 2);
    assert!(a_pos.contains(&1));
    assert!(a_pos.contains(&4));
    assert_eq!(pending.get("miss_b"), Some(&vec![3]));
}

#[test]
fn per_model_keyspace_respected() {
    let mut cache = EmbeddingCache::new(10);
    cache.insert("model_a", "hello", bits(&[1.0]));

    // Same text, different model → miss.
    let texts = vec![s("hello")];
    let (cached, pending) = partition_hits_and_misses(&cache, "model_b", &texts);

    assert!(cached[0].is_none(), "different model must miss");
    assert_eq!(pending.get("hello"), Some(&vec![0]));
}

#[test]
fn empty_input_yields_empty_output() {
    let cache = EmbeddingCache::new(10);
    let (cached, pending) = partition_hits_and_misses(&cache, "m", &vec![]);
    assert!(cached.is_empty());
    assert!(pending.is_empty());
}

#[test]
fn disabled_cache_always_misses() {
    let mut cache = EmbeddingCache::new(0);
    cache.insert("m", "would_hit", bits(&[99.0])); // no-op on disabled

    let texts = vec![s("would_hit")];
    let (cached, pending) = partition_hits_and_misses(&cache, "m", &texts);

    assert!(cached[0].is_none());
    assert_eq!(pending.get("would_hit"), Some(&vec![0]));
}

#[test]
fn misses_stand_in_the_order_of_their_first_positions() {
    let cache = EmbeddingCache::new(10);
    let texts = vec![s("z"), s("a"), s("z"), s("m")];
    let (_, pending) = partition_hits_and_misses(&cache, "m", &texts);
    assert_eq!(pending.texts(), vec!["z", "a", "m"]);
    assert_eq!(pending.find("m"), Some(2));
    assert_eq!(pending.find("q"), None);
}

#[test]
fn a_settled_cache_serves_what_it_keeps() {
    let mut cache = EmbeddingCache::new(2);
    let texts: Vec<String> = (0..6).map(|i| format!("text {i}")).collect();
    for t in &texts {
        cache.insert("m", t, bits(&[1.0]));
    }
    cache.run_pending_tasks_for_test();
    let (cached, pending) = partition_hits_and_misses(&cache, "m", &texts);
    let hits = cached.iter().filter(|v| v.is_some()).count();
    assert_eq!(hits, 2, "as many as it was made for");
    assert_eq!(hits as u64, cache.len() as u64);
    assert_eq!(pending.entries.len(), 4);
}
