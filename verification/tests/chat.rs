use rustlab::chat::{history_after_prompt, session_file_name, Cache, SessionStore, SYSTEM_PROMPT};

fn s(x: &str) -> String {
    String::from(x)
}

#[test]
fn store_starts_empty() {
    let store: SessionStore<u32> = SessionStore::new();
    assert_eq!(store.len(), 0);
    assert!(!store.contains_key(&s("ann")));
    assert!(store.get(&s("ann")).is_none());
}

#[test]
fn store_get_after_insert() {
    let mut store = SessionStore::new();
    store.insert(s("ann"), 1);
    store.insert(s("bob"), 2);
    assert_eq!(store.get(&s("ann")), Some(&1));
    assert_eq!(store.get(&s("bob")), Some(&2));
    assert!(store.contains_key(&s("bob")));
    assert_eq!(store.len(), 2);
}

#[test]
fn store_insert_replaces_existing_session() {
    let mut store = SessionStore::new();
    store.insert(s("ann"), 1);
    store.insert(s("ann"), 5);
    assert_eq!(store.len(), 1);
    assert_eq!(store.get(&s("ann")), Some(&5));
}

#[test]
fn store_get_mut_updates_in_place() {
    let mut store = SessionStore::new();
    store.insert(s("ann"), vec![String::from("hi")]);
    store.get_mut(&s("ann")).push(String::from("again"));
    assert_eq!(store.get(&s("ann")).unwrap().len(), 2);
}

#[test]
fn cache_hit_and_miss() {
    let mut cache = Cache::new(3);
    cache.insert_chat(s("ann"), 1);
    assert_eq!(cache.get_chat(&s("ann")), Some(&1));
    assert_eq!(cache.get_chat(&s("bob")), None);
    assert_eq!(cache.len(), 1);
}

#[test]
fn cache_evicts_least_recently_used() {
    let mut cache = Cache::new(3);
    cache.insert_chat(s("a"), 1);
    cache.insert_chat(s("b"), 2);
    cache.insert_chat(s("c"), 3);
    cache.insert_chat(s("d"), 4);
    assert_eq!(cache.len(), 3);
    assert_eq!(cache.get_chat(&s("a")), None);
    assert_eq!(cache.get_chat(&s("b")), Some(&2));
    assert_eq!(cache.get_chat(&s("d")), Some(&4));
}

#[test]
fn cache_use_refreshes_recency() {
    let mut cache = Cache::new(3);
    cache.insert_chat(s("a"), 1);
    cache.insert_chat(s("b"), 2);
    cache.insert_chat(s("c"), 3);
    assert_eq!(cache.get_chat(&s("a")), Some(&1));
    cache.insert_chat(s("d"), 4);
    assert_eq!(cache.get_chat(&s("b")), None);
    assert_eq!(cache.get_chat(&s("a")), Some(&1));
    assert_eq!(cache.get_chat(&s("c")), Some(&3));
}

#[test]
fn cache_insert_existing_replaces_without_eviction() {
    let mut cache = Cache::new(2);
    cache.insert_chat(s("a"), 1);
    cache.insert_chat(s("b"), 2);
    cache.insert_chat(s("a"), 10);
    assert_eq!(cache.len(), 2);
    assert_eq!(cache.get_chat(&s("a")), Some(&10));
    assert_eq!(cache.get_chat(&s("b")), Some(&2));
}

#[test]
fn cache_of_one_keeps_the_latest() {
    let mut cache = Cache::new(1);
    cache.insert_chat(s("a"), 1);
    cache.insert_chat(s("b"), 2);
    assert_eq!(cache.len(), 1);
    assert_eq!(cache.get_chat(&s("a")), None);
    assert_eq!(cache.get_chat(&s("b")), Some(&2));
}

#[test]
fn session_file_is_user_name_with_txt() {
    assert_eq!(session_file_name(&s("alice")), "alice.txt");
    assert_eq!(session_file_name(&s("")), ".txt");
}

#[test]
fn history_skips_the_system_prompt() {
    let history = vec![s(SYSTEM_PROMPT), s("hello"), s("Ahoy!")];
    assert_eq!(history_after_prompt(&history), vec![s("hello"), s("Ahoy!")]);
    assert_eq!(history_after_prompt(&vec![s(SYSTEM_PROMPT)]), Vec::<String>::new());
    assert_eq!(history_after_prompt(&Vec::new()), Vec::<String>::new());
}

#[test]
fn system_prompt_is_the_pirate_one() {
    assert_eq!(SYSTEM_PROMPT, "The assistant will act like a pirate");
}
