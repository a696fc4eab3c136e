use wl_lock::utils::late::Late;

#[test]
fn late_starts_empty() {
    let l: Late<u32> = Late::uninit();
    assert!(!l.is_init());
    let d: Late<String> = Late::default();
    assert!(!d.is_init());
}

#[test]
fn late_init_then_read() {
    let mut l: Late<u32> = Late::uninit();
    l.init(5);
    assert!(l.is_init());
    assert_eq!(*l.get(), 5);
}

#[test]
fn late_init_again_replaces() {
    let mut l: Late<String> = Late::uninit();
    l.init("first".to_string());
    l.init("second".to_string());
    assert!(l.is_init());
    assert_eq!(l.get().as_str(), "second");
}

#[test]
fn late_get_mut_writes_through() {
    let mut l: Late<u32> = Late::uninit();
    l.init(1);
    *l.get_mut() += 41;
    assert_eq!(*l.get(), 42);
}


#[test]
fn late_stays_filled_after_reads() {
    let mut l: Late<u32> = Late::default();
    assert!(!l.is_init());
    assert!(!l.is_init());
    l.init(3);
    assert!(l.is_init());
    assert_eq!(*l.get(), 3);
    *l.get_mut() = 4;
    assert!(l.is_init());
    assert!(l.is_init());
    assert_eq!(*l.get(), 4);
}
