use xargs::children::ChildMinder;

fn minder(n: usize) -> ChildMinder {
    ChildMinder::new(n, b"x".to_vec(), vec![b"y".to_vec(), b"z".to_vec()])
}

#[test]
fn launch_args_follow_initial_args() {
    let mut m = minder(2);
    let launch = m.spawn(&vec![b"a".to_vec(), b"bc".to_vec()]);
    assert_eq!(launch.wait_first, None);
    assert_eq!(
        launch.args,
        vec![b"y".to_vec(), b"z".to_vec(), b"a".to_vec(), b"bc".to_vec()]
    );
    assert_eq!(m.cmd(), &b"x".to_vec());
}

#[test]
fn full_pool_waits_before_launching() {
    let mut m = minder(1);
    let first = m.spawn(&vec![b"a".to_vec()]);
    assert_eq!(first.wait_first, None);
    assert!(m.add_child(100));
    assert_eq!(m.live_count(), 1);
    let second = m.spawn(&vec![b"b".to_vec()]);
    assert_eq!(second.wait_first, Some(100));
    assert_eq!(m.live_count(), 0);
    assert!(m.add_child(101));
    assert_eq!(m.wait_all(), vec![101]);
}

#[test]
fn live_count_never_exceeds_limit() {
    let mut m = minder(3);
    for pid in 1..=10u32 {
        let launch = m.spawn(&vec![]);
        if pid <= 3 {
            assert_eq!(launch.wait_first, None);
        } else {
            assert_eq!(launch.wait_first, Some(pid - 3));
        }
        assert!(m.add_child(pid));
        assert!(m.live_count() <= 3);
    }
    assert_eq!(m.wait_all(), vec![8, 9, 10]);
    assert_eq!(m.live_count(), 0);
    assert!(m.wait_all().is_empty());
}

#[test]
fn add_child_refused_when_full() {
    let mut m = minder(1);
    assert!(m.add_child(7));
    assert!(!m.add_child(8));
    assert_eq!(m.live_count(), 1);
    assert_eq!(m.wait_all(), vec![7]);
}
