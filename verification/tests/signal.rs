use ivshmem::quit;
use std::sync::atomic::AtomicBool;
use std::sync::atomic::Ordering;

#[test]
fn quit_is_false_until_the_flag_is_raised() {
    let flag = AtomicBool::new(false);
    assert!(!quit(&flag));
    assert!(!quit(&flag));
    flag.store(true, Ordering::Release);
    assert!(quit(&flag));
    assert!(quit(&flag));
}
