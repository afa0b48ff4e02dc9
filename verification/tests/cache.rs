use monologued::cache::LruCache;
use monologued::plan::{check_plan_file, plan_path, PlanError, MAX_PLANSIZE};
use monologued::plans::{Plans, CACHE_ITEM_SIZE};

fn s(x: &str) -> String {
    x.to_string()
}

#[test]
fn get_after_insert() {
    let mut cache = LruCache::new(3, 10);
    assert!(cache.insert(s("alice"), s("plan a")));
    assert_eq!(cache.get(&s("alice")), Some(&s("plan a")));
    assert!(cache.has(&s("alice")));
    assert!(!cache.has(&s("bob")));
    assert_eq!(cache.get(&s("bob")), None);
}

#[test]
fn oversized_values_are_refused() {
    let mut cache = LruCache::new(3, 4);
    assert!(!cache.insert(s("a"), s("12345")));
    assert!(!cache.has(&s("a")));
    assert!(cache.insert(s("a"), s("1234")));
}

#[test]
fn least_recently_used_goes_first() {
    // room for 30 bytes; a new value must fit strictly below the bound
    let mut cache = LruCache::new(3, 10);
    assert!(cache.insert(s("a"), s("aaaaaaaaaa")));
    assert!(cache.insert(s("b"), s("bbbbbbbbb")));
    assert_eq!(cache.get(&s("a")), Some(&s("aaaaaaaaaa")));
    // a and b hold 19 bytes; 10 more would reach 29 < 30
    assert!(cache.insert(s("c"), s("cccccccccc")));
    assert!(cache.has(&s("a")) && cache.has(&s("b")) && cache.has(&s("c")));
    // now 29 bytes: one more byte forces evictions from the least recent (b)
    assert!(cache.insert(s("d"), s("d")));
    assert!(!cache.has(&s("b")));
    assert!(cache.has(&s("a")) && cache.has(&s("c")) && cache.has(&s("d")));
}

#[test]
fn replacing_a_value_keeps_one_entry() {
    let mut cache = LruCache::new(2, 10);
    assert!(cache.insert(s("k"), s("one")));
    assert!(cache.insert(s("k"), s("two")));
    assert_eq!(cache.remove(&s("k")), Some(s("two")));
    assert_eq!(cache.remove(&s("k")), None);
    assert!(!cache.has(&s("k")));
}

#[test]
fn size_counts_utf8_bytes() {
    let mut cache = LruCache::new(1, 2);
    assert!(!cache.insert(s("k"), s("\u{e9}\u{e9}")));
    assert!(cache.insert(s("k"), s("\u{e9}")));
}

#[test]
fn plans_are_cached_below_the_item_size() {
    let mut plans = Plans::new();
    assert_eq!(plans.fetch(&s("alice")), None);
    plans.remember(s("alice"), s("Hack on the server."));
    assert_eq!(plans.fetch(&s("alice")), Some(s("Hack on the server.")));
    plans.evict(&s("alice"));
    assert_eq!(plans.fetch(&s("alice")), None);
    let big = "x".repeat(CACHE_ITEM_SIZE);
    plans.remember(s("bob"), big);
    assert_eq!(plans.fetch(&s("bob")), None);
}

#[test]
fn plan_files_are_checked() {
    let path = plan_path("/home/alice");
    assert_eq!(path, "/home/alice/.plan");
    assert!(check_plan_file(&path, true, MAX_PLANSIZE).is_ok());
    match check_plan_file(&path, true, MAX_PLANSIZE + 1) {
        Err(e) => assert_eq!(e.message(), "Plan /home/alice/.plan is too large to return."),
        Ok(_) => panic!("expected a refusal"),
    }
    match check_plan_file(&path, false, 1) {
        Err(e) => assert_eq!(e.message(), "Plan /home/alice/.plan is not a file, cannot be returned."),
        Ok(_) => panic!("expected a refusal"),
    }
}

#[test]
fn plan_error_messages() {
    assert_eq!(PlanError::UnconvertibleName(s("a\0b")).message(), "Could not convert username a\0b?");
    assert_eq!(PlanError::NoSuchUser(s("nobody")).message(), "User nobody not found.");
    assert_eq!(PlanError::Inaccessible(s("/p")).message(), "Could not access user plan /p.");
    assert_eq!(PlanError::CannotOpen(s("/p")).message(), "Could not access /p");
    assert_eq!(PlanError::Unreadable(s("/p")).message(), "Plan /p could not be read");
}
