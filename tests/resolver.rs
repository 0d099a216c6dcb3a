use last_commit::hex::{hex_string, nibble_digit};
use last_commit::resolver::{same_bytes, CommitTime, Resolver};
use last_commit::{any_true, GitCommit};

fn at(seconds: i64) -> CommitTime {
    CommitTime { seconds, offset_minutes: 60 }
}

#[test]
fn from_revision_keeps_the_specifier() {
    assert_eq!(GitCommit::from_revision("origin/master").revision, "origin/master");
}

#[test]
fn from_head_uses_head() {
    assert_eq!(GitCommit::from_head().revision, "HEAD");
}

#[test]
fn new_resolver_has_every_path_active() {
    let r = Resolver::new(3);
    assert_eq!(r.len(), 3);
    assert_eq!(r.active_paths(), &vec![0, 1, 2]);
    assert!(!r.is_done());
    assert_eq!(r.n_cached(), 0);
    for i in 0..3 {
        assert_eq!(r.slot_of(i), None);
        assert!(r.commit_of(i).is_none());
    }
}

#[test]
fn no_paths_is_done_at_once() {
    let r = Resolver::new(0);
    assert!(r.is_done());
}

#[test]
fn linear_history_orders_by_newest_touch() {
    // walk order c3, c2, c1: c3 changes a.txt, c2 changes b.txt
    let mut r = Resolver::new(2);
    let c3 = vec![3u8];
    let k3 = r.insert_commit(c3.clone(), "c3".to_string(), at(100));
    r.record(&c3, 1, &vec![true, false]);
    assert_eq!(r.active_paths(), &vec![1]);
    let c2 = vec![2u8];
    let k2 = r.insert_commit(c2.clone(), "c2".to_string(), at(100));
    r.record(&c2, 1, &vec![true]);
    assert!(r.is_done());
    assert_eq!(r.slot_of(0), Some(k3));
    assert_eq!(r.slot_of(1), Some(k2));
    assert_eq!(r.commit_of(0).unwrap().sha, "03");
    assert_eq!(r.commit_of(0).unwrap().summary, "c3");
    assert_eq!(r.commit_of(1).unwrap().sha, "02");
}

#[test]
fn root_commit_resolves_what_it_holds() {
    let mut r = Resolver::new(1);
    let c1 = vec![1u8];
    r.record(&c1, 1, &vec![false]);
    let root = vec![0u8];
    let k = r.insert_commit(root.clone(), "root".to_string(), at(100));
    r.record(&root, 0, &vec![true]);
    assert_eq!(r.slot_of(0), Some(k));
    assert_eq!(r.commit_of(0).unwrap().sha, "00");
    assert_eq!(r.commit_of(0).unwrap().time, at(100));
}

#[test]
fn merge_commit_resolves_nothing() {
    let mut r = Resolver::new(1);
    let m = vec![9u8];
    r.record(&m, 2, &vec![true]);
    assert_eq!(r.slot_of(0), None);
    assert_eq!(r.active_paths(), &vec![0]);
    let c = vec![1u8];
    let k = r.insert_commit(c.clone(), "side".to_string(), at(100));
    r.record(&c, 1, &vec![true]);
    assert_eq!(r.slot_of(0), Some(k));
    assert_eq!(r.commit_of(0).unwrap().sha, "01");
}

#[test]
fn paths_of_one_commit_share_a_slot() {
    let mut r = Resolver::new(3);
    let c = vec![5u8, 6u8];
    r.insert_commit(c.clone(), "both".to_string(), at(100));
    r.record(&c, 1, &vec![true, false, true]);
    assert_eq!(r.slot_of(0), r.slot_of(2));
    assert_eq!(r.n_cached(), 1);
    assert!(std::ptr::eq(r.commit_of(0).unwrap(), r.commit_of(2).unwrap()));
    assert_eq!(r.active_paths(), &vec![1]);
}

#[test]
fn find_slot_looks_up_by_id() {
    let mut r = Resolver::new(1);
    let a = vec![1u8, 2u8];
    let b = vec![1u8, 3u8];
    assert_eq!(r.find_slot(&a), None);
    let ka = r.insert_commit(a.clone(), "a".to_string(), at(100));
    let kb = r.insert_commit(b.clone(), "b".to_string(), at(100));
    assert_eq!(r.find_slot(&a), Some(ka));
    assert_eq!(r.find_slot(&b), Some(kb));
    assert_eq!(r.find_slot(&vec![1u8]), None);
    assert_eq!(r.cached_commit(kb).sha, "0103");
    assert_eq!(r.cached_commit(ka).summary, "a");
}

#[test]
fn untouched_path_stays_unresolved() {
    let mut r = Resolver::new(2);
    let c2 = vec![2u8];
    r.insert_commit(c2.clone(), "c2".to_string(), at(100));
    r.record(&c2, 1, &vec![true, false]);
    r.record(&vec![1u8], 1, &vec![false]);
    r.record(&vec![0u8], 0, &vec![false]);
    assert_eq!(r.slot_of(1), None);
    assert!(r.commit_of(1).is_none());
    assert_eq!(r.active_paths(), &vec![1]);
}

#[test]
fn same_steps_same_outcome() {
    let run = || {
        let mut r = Resolver::new(2);
        let c = vec![7u8];
        r.insert_commit(c.clone(), "c".to_string(), at(100));
        r.record(&c, 1, &vec![false, true]);
        (r.slot_of(0), r.slot_of(1), r.active_paths().clone())
    };
    assert_eq!(run(), run());
}

#[test]
fn same_bytes_compares_contents() {
    assert!(same_bytes(&vec![1, 2, 3], &vec![1, 2, 3]));
    assert!(!same_bytes(&vec![1, 2, 3], &vec![1, 2, 4]));
    assert!(!same_bytes(&vec![1, 2], &vec![1, 2, 3]));
    assert!(same_bytes(&vec![], &vec![]));
}

#[test]
fn any_true_finds_a_match() {
    assert!(!any_true(&vec![]));
    assert!(!any_true(&vec![false, false]));
    assert!(any_true(&vec![false, true]));
}

#[test]
fn hex_string_writes_lowercase_pairs() {
    assert_eq!(hex_string(&vec![]), "");
    assert_eq!(hex_string(&vec![0x00, 0x0f, 0xab, 0xff]), "000fabff");
    assert_eq!(hex_string(&vec![0x12, 0x9e]), "129e");
}

#[test]
fn nibble_digit_covers_all_nibbles() {
    let all: String = (0u8..16).map(nibble_digit).collect();
    assert_eq!(all, "0123456789abcdef");
}

#[test]
fn cached_sha_is_hex_of_id() {
    let mut r = Resolver::new(1);
    let id = vec![0xdeu8, 0xad, 0xbe, 0xef];
    let k = r.insert_commit(id.clone(), "msg".to_string(), at(5));
    assert_eq!(r.cached_commit(k).sha, "deadbeef");
}
