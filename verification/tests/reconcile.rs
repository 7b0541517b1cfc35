use flake_updates::failure::{Failure, Fault, LockError};
use flake_updates::input::GitHubInput;
use flake_updates::reconcile::{
    first_alike, join, plan, root_inputs, Event, ReconciliationResult, Request, RootInput, Stage,
    Step, Update,
};

/// What stands in for the disk and the network: a cache in memory, and a
/// remote host that answers every comparison with the same count.
struct World {
    cache: Vec<(String, String)>,
    remote: Option<i64>,
    writable: bool,
    lookups: usize,
    comparisons: Vec<(String, String, String, String)>,
}

fn world(remote: i64) -> World {
    World { cache: vec![], remote: Some(remote), writable: true, lookups: 0, comparisons: vec![] }
}

fn perform(request: &Request, w: &mut World) -> Option<Event> {
    match request {
        Request::Nothing => None,
        Request::ReadEntry { path } => {
            w.lookups += 1;
            match w.cache.iter().find(|(p, _)| p == path) {
                Some((_, content)) => Some(Event::CacheHit(content.clone())),
                None => Some(Event::CacheMiss),
            }
        }
        Request::Compare { owner, repo, base, head } => {
            w.comparisons.push((owner.clone(), repo.clone(), base.clone(), head.clone()));
            match w.remote {
                Some(n) => Some(Event::Compared(n)),
                None => Some(Event::CompareFailed),
            }
        }
        Request::WriteEntry { path, content } => {
            if w.writable {
                w.cache.retain(|(p, _)| p != path);
                w.cache.push((path.clone(), content.clone()));
                Some(Event::Stored)
            } else {
                Some(Event::StoreFailed)
            }
        }
    }
}

fn drive(first: Step, w: &mut World) -> Stage {
    let mut step = first;
    loop {
        match perform(&step.request, w) {
            None => return step.stage,
            Some(event) => step = step.stage.advance(event),
        }
    }
}

fn reconcile(lock: &str, w: &mut World) -> Result<ReconciliationResult, Failure> {
    let steps = plan(lock).unwrap();
    let mut stages = vec![];
    for step in steps {
        stages.push(drive(step, w));
    }
    join(stages)
}

fn reports(found: &ReconciliationResult) -> Vec<(String, u64)> {
    found.updates().iter().map(|u| (u.input().name.clone(), u.behind_by())).collect()
}

fn pinned(name: &str) -> GitHubInput {
    GitHubInput {
        name: name.to_string(),
        id: "n1".to_string(),
        owner: "o".to_string(),
        repo: "r".to_string(),
        base_ref: "main".to_string(),
        rev: "abc".to_string(),
    }
}

fn failed(name: &str, fault: Fault) -> Stage {
    Stage::Failed(Failure { input: name.to_string(), fault })
}

fn one_input() -> &'static str {
    "{\"nodes\": {\"root\": {\"inputs\": {\"nixpkgs\": \"n1\"}},
      \"n1\": {\"original\": {\"type\": \"github\", \"owner\": \"o\", \"repo\": \"r\", \"ref\": \"main\"},
               \"locked\": {\"rev\": \"abc\"}}},
      \"root\": \"root\", \"version\": 7}"
}

fn two_alike() -> &'static str {
    "{\"nodes\": {\"root\": {\"inputs\": {\"first\": \"n1\", \"second\": \"n2\"}},
      \"n1\": {\"original\": {\"type\": \"github\", \"owner\": \"o\", \"repo\": \"r\", \"ref\": \"main\"},
               \"locked\": {\"rev\": \"abc\"}},
      \"n2\": {\"original\": {\"type\": \"github\", \"owner\": \"o\", \"repo\": \"r\", \"ref\": \"main\"},
               \"locked\": {\"rev\": \"abc\"}}}}"
}

fn mixed() -> &'static str {
    "{\"nodes\": {\"root\": {\"inputs\": {\"a\": \"n1\", \"b\": \"n2\", \"c\": \"n3\"}},
      \"n1\": {\"original\": {\"type\": \"github\", \"owner\": \"o\", \"repo\": \"r\", \"ref\": \"main\"},
               \"locked\": {\"rev\": \"abc\"}},
      \"n2\": {\"original\": {\"type\": \"indirect\", \"id\": \"x\"}, \"locked\": {\"rev\": \"1\"}},
      \"n3\": {\"original\": {\"type\": \"github\", \"owner\": \"p\", \"repo\": \"q\"},
               \"locked\": {\"rev\": \"def\"}}}}"
}

#[test]
fn an_input_behind_is_reported() {
    let mut w = world(3);
    let found = reconcile(one_input(), &mut w).unwrap();
    assert_eq!(reports(&found), vec![("nixpkgs".to_string(), 3)]);
    assert_eq!(found.total(), 3);
    assert_eq!(
        w.comparisons,
        vec![("o".to_string(), "r".to_string(), "main".to_string(), "abc".to_string())]
    );
    assert_eq!(w.cache, vec![("cache/o/r/main..abc".to_string(), "3".to_string())]);
}

#[test]
fn an_input_up_to_date_is_not_reported() {
    let mut w = world(0);
    let found = reconcile(one_input(), &mut w).unwrap();
    assert_eq!(reports(&found), vec![]);
    assert_eq!(found.total(), 0);
    assert_eq!(w.comparisons.len(), 1);
    assert_eq!(w.cache, vec![("cache/o/r/main..abc".to_string(), "0".to_string())]);
}

#[test]
fn an_unsupported_input_is_left_out() {
    let lock = "{\"nodes\": {\"root\": {\"inputs\": {\"utils\": \"n1\"}},
        \"n1\": {\"original\": {\"type\": \"indirect\", \"id\": \"flake-utils\"}}}}";
    let steps = plan(lock).unwrap();
    assert_eq!(steps.len(), 1);
    assert_eq!(steps[0].stage, Stage::Done(None));
    assert_eq!(steps[0].request, Request::Nothing);
    let mut w = world(9);
    let found = reconcile(lock, &mut w).unwrap();
    assert_eq!(reports(&found), vec![]);
    assert_eq!(found.total(), 0);
    assert_eq!(w.lookups, 0);
    assert!(w.comparisons.is_empty());
    assert!(w.cache.is_empty());
}

#[test]
fn a_cached_count_is_used_as_it_is() {
    let mut w = world(99);
    w.cache.push((pinned("x").cache_path(), "5".to_string()));
    let found = reconcile(one_input(), &mut w).unwrap();
    assert_eq!(reports(&found), vec![("nixpkgs".to_string(), 5)]);
    assert_eq!(found.total(), 5);
    assert!(w.comparisons.is_empty());
    assert_eq!(w.cache.len(), 1);
}

#[test]
fn a_cached_count_of_none_reports_nothing() {
    let mut w = world(99);
    w.cache.push((pinned("x").cache_path(), "0".to_string()));
    let found = reconcile(one_input(), &mut w).unwrap();
    assert_eq!(reports(&found), vec![]);
    assert_eq!(found.total(), 0);
    assert!(w.comparisons.is_empty());
}

#[test]
fn inputs_with_the_same_coordinates_are_compared_once() {
    let mut w = world(4);
    let found = reconcile(two_alike(), &mut w).unwrap();
    assert_eq!(w.comparisons.len(), 1);
    assert_eq!(w.lookups, 2);
    let mut seen = reports(&found);
    seen.sort();
    assert_eq!(seen, vec![("first".to_string(), 4), ("second".to_string(), 4)]);
    assert_eq!(found.total(), 8);
    assert_eq!(w.cache.len(), 1);
}

#[test]
fn the_total_is_the_sum_of_the_updates() {
    let mut w = world(7);
    w.cache.push(("cache/o/r/main..abc".to_string(), "2".to_string()));
    let found = reconcile(mixed(), &mut w).unwrap();
    let mut seen = reports(&found);
    seen.sort();
    assert_eq!(seen, vec![("a".to_string(), 2), ("c".to_string(), 7)]);
    assert_eq!(found.total(), 9);
    let sum: u128 = found.updates().iter().map(|u| u.behind_by() as u128).sum();
    assert_eq!(found.total(), sum);
    assert_eq!(
        w.comparisons,
        vec![("p".to_string(), "q".to_string(), "HEAD".to_string(), "def".to_string())]
    );
}

#[test]
fn large_counts_add_up_without_wrapping() {
    let mut found = ReconciliationResult::new();
    for name in ["a", "b", "c"] {
        found = found.record(Update::new(pinned(name), u64::MAX));
    }
    assert_eq!(found.total(), 3 * (u64::MAX as u128));
    assert_eq!(found.updates().len(), 3);
}

#[test]
fn recording_nothing_changes_nothing() {
    let found = ReconciliationResult::new().record(None);
    assert_eq!(found, ReconciliationResult::new());
    let one = ReconciliationResult::new().record(Update::new(pinned("a"), 2));
    let same = ReconciliationResult::new().record(Update::new(pinned("a"), 2)).record(None);
    assert_eq!(one, same);
    assert_eq!(same.total(), 2);
}

#[test]
fn there_is_no_update_for_a_count_of_none() {
    assert_eq!(Update::new(pinned("a"), 0), None);
    let u = Update::new(pinned("a"), 1).unwrap();
    assert_eq!(u.behind_by(), 1);
    assert_eq!(u.input(), &pinned("a"));
}

#[test]
fn joining_the_updates_again_gives_the_same() {
    let mut w = world(7);
    let found = reconcile(mixed(), &mut w).unwrap();
    let again: Vec<Stage> = found
        .updates()
        .iter()
        .map(|u| Stage::Done(Update::new(u.input().clone(), u.behind_by())))
        .collect();
    assert_eq!(join(again), Ok(found));
}

#[test]
fn a_hit_ends_the_check() {
    let next = Stage::AwaitingCache(pinned("a")).advance(Event::CacheHit("5".to_string()));
    assert_eq!(next.stage, Stage::Done(Update::new(pinned("a"), 5)));
    assert_eq!(next.request, Request::Nothing);
    let after = next.stage.advance(Event::CacheMiss);
    assert_eq!(after.stage, Stage::Done(Update::new(pinned("a"), 5)));
    assert_eq!(after.request, Request::Nothing);
}

#[test]
fn a_miss_asks_the_remote_host() {
    let next = Stage::AwaitingCache(pinned("a")).advance(Event::CacheMiss);
    assert_eq!(next.stage, Stage::AwaitingRemote(pinned("a")));
    assert_eq!(
        next.request,
        Request::Compare {
            owner: "o".to_string(),
            repo: "r".to_string(),
            base: "main".to_string(),
            head: "abc".to_string(),
        }
    );
}

#[test]
fn the_count_is_stored_before_it_is_reported() {
    let next = Stage::AwaitingRemote(pinned("a")).advance(Event::Compared(12));
    assert_eq!(
        next.stage,
        Stage::AwaitingWrite { input: pinned("a"), behind_by: 12, content: "12".to_string() }
    );
    assert_eq!(
        next.request,
        Request::WriteEntry {
            path: "cache/o/r/main..abc".to_string(),
            content: "12".to_string(),
        }
    );
    let done = next.stage.advance(Event::Stored);
    assert_eq!(done.stage, Stage::Done(Update::new(pinned("a"), 12)));
    assert_eq!(done.request, Request::Nothing);
}

#[test]
fn the_first_request_reads_the_cache() {
    let stage = Stage::AwaitingCache(pinned("a"));
    assert_eq!(stage.request(), Request::ReadEntry { path: "cache/o/r/main..abc".to_string() });
    assert!(!stage.is_over());
    assert!(Stage::Done(None).is_over());
    assert!(failed("a", Fault::RemoteFailed).is_over());
    assert!(!Stage::AwaitingRemote(pinned("a")).is_over());
}

#[test]
fn a_corrupt_entry_fails_the_check() {
    let bad = Stage::AwaitingCache(pinned("a")).advance(Event::CacheHit("oops".to_string()));
    assert_eq!(bad.stage, failed("a", Fault::EntryNotJson));
    assert_eq!(bad.request, Request::Nothing);
    let neg = Stage::AwaitingCache(pinned("a")).advance(Event::CacheHit("-1".to_string()));
    assert_eq!(neg.stage, failed("a", Fault::EntryNotACount));
    let unread = Stage::AwaitingCache(pinned("a")).advance(Event::CacheUnreadable);
    assert_eq!(unread.stage, failed("a", Fault::EntryUnreadable));
}

#[test]
fn a_failed_comparison_fails_the_check() {
    let f = Stage::AwaitingRemote(pinned("a")).advance(Event::CompareFailed);
    assert_eq!(f.stage, failed("a", Fault::RemoteFailed));
    assert_eq!(f.request, Request::Nothing);
    let n = Stage::AwaitingRemote(pinned("a")).advance(Event::Compared(-1));
    assert_eq!(n.stage, failed("a", Fault::RemoteCountNegative));
}

#[test]
fn a_failed_write_fails_the_check() {
    let s = Stage::AwaitingWrite { input: pinned("a"), behind_by: 2, content: "2".to_string() };
    assert_eq!(s.advance(Event::StoreFailed).stage, failed("a", Fault::EntryUnwritable));
}

#[test]
fn an_event_out_of_turn_fails_the_check() {
    assert_eq!(
        Stage::AwaitingCache(pinned("a")).advance(Event::Compared(1)).stage,
        failed("a", Fault::OutOfTurn)
    );
    assert_eq!(
        Stage::AwaitingCache(pinned("a")).advance(Event::Stored).stage,
        failed("a", Fault::OutOfTurn)
    );
    assert_eq!(
        Stage::AwaitingRemote(pinned("a")).advance(Event::CacheMiss).stage,
        failed("a", Fault::OutOfTurn)
    );
    assert_eq!(
        Stage::AwaitingRemote(pinned("a")).advance(Event::CacheHit("1".to_string())).stage,
        failed("a", Fault::OutOfTurn)
    );
    let s = Stage::AwaitingWrite { input: pinned("a"), behind_by: 2, content: "2".to_string() };
    assert_eq!(s.advance(Event::Compared(2)).stage, failed("a", Fault::OutOfTurn));
}

#[test]
fn a_check_that_is_over_stays_as_it_is() {
    let events = || {
        vec![
            Event::CacheMiss,
            Event::CacheHit("1".to_string()),
            Event::CacheUnreadable,
            Event::Compared(1),
            Event::CompareFailed,
            Event::Stored,
            Event::StoreFailed,
        ]
    };
    for e in events() {
        let next = failed("a", Fault::RemoteFailed).advance(e);
        assert_eq!(next.stage, failed("a", Fault::RemoteFailed));
        assert_eq!(next.request, Request::Nothing);
    }
    for e in events() {
        let next = Stage::Done(None).advance(e);
        assert_eq!(next.stage, Stage::Done(None));
        assert_eq!(next.request, Request::Nothing);
    }
}

#[test]
fn one_failure_fails_the_whole() {
    let mut w = world(7);
    w.remote = None;
    w.cache.push(("cache/o/r/main..abc".to_string(), "2".to_string()));
    let r = reconcile(mixed(), &mut w);
    assert_eq!(r, Err(Failure { input: "c".to_string(), fault: Fault::RemoteFailed }));
}

#[test]
fn a_cache_that_cannot_be_written_fails_the_whole() {
    let mut w = world(7);
    w.writable = false;
    let r = reconcile(one_input(), &mut w);
    assert_eq!(r, Err(Failure { input: "nixpkgs".to_string(), fault: Fault::EntryUnwritable }));
}

#[test]
fn the_first_failure_in_order_is_the_one_reported() {
    let stages = vec![
        Stage::Done(Update::new(pinned("a"), 1)),
        failed("b", Fault::RemoteFailed),
        failed("c", Fault::EntryNotJson),
    ];
    assert_eq!(join(stages), Err(Failure { input: "b".to_string(), fault: Fault::RemoteFailed }));
}

#[test]
fn a_check_that_is_not_over_cannot_be_joined() {
    let r = join(vec![Stage::Done(None), Stage::AwaitingRemote(pinned("a"))]);
    assert_eq!(r, Err(Failure { input: "a".to_string(), fault: Fault::OutOfTurn }));
    let r = join(vec![Stage::AwaitingCache(pinned("b"))]);
    assert_eq!(r, Err(Failure { input: "b".to_string(), fault: Fault::OutOfTurn }));
    let s = Stage::AwaitingWrite { input: pinned("c"), behind_by: 2, content: "2".to_string() };
    assert_eq!(join(vec![s]), Err(Failure { input: "c".to_string(), fault: Fault::OutOfTurn }));
}

#[test]
fn joining_nothing_finds_nothing() {
    let found = join(vec![]).unwrap();
    assert_eq!(found.total(), 0);
    assert!(found.updates().is_empty());
    assert_eq!(found, ReconciliationResult::new());
}

#[test]
fn updates_keep_the_order_in_which_they_are_joined() {
    let stages = vec![
        Stage::Done(Update::new(pinned("z"), 1)),
        Stage::Done(None),
        Stage::Done(Update::new(pinned("a"), 2)),
        Stage::Done(Update::new(pinned("m"), 3)),
    ];
    let found = join(stages).unwrap();
    assert_eq!(
        reports(&found),
        vec![("z".to_string(), 1), ("a".to_string(), 2), ("m".to_string(), 3)]
    );
    assert_eq!(found.total(), 6);
}

#[test]
fn a_lock_file_that_is_not_json_is_refused() {
    assert_eq!(plan("not json"), Err(LockError::NotJson));
    assert_eq!(plan(""), Err(LockError::NotJson));
}

#[test]
fn a_lock_file_without_root_inputs_is_refused() {
    assert_eq!(plan("{}"), Err(LockError::NoRootInputs));
    assert_eq!(plan("{\"nodes\": {\"root\": {}}}"), Err(LockError::NoRootInputs));
    assert_eq!(plan("{\"nodes\": {\"root\": {\"inputs\": [1]}}}"), Err(LockError::NoRootInputs));
    assert_eq!(plan("[]"), Err(LockError::NoRootInputs));
}

#[test]
fn a_lock_file_without_inputs_asks_for_nothing() {
    assert_eq!(plan("{\"nodes\": {\"root\": {\"inputs\": {}}}}"), Ok(vec![]));
}

#[test]
fn an_input_that_names_no_node_fails_its_check() {
    let lock = "{\"nodes\": {\"root\": {\"inputs\": {\"follows\": [\"nixpkgs\"]}}}}";
    let steps = plan(lock).unwrap();
    assert_eq!(steps.len(), 1);
    assert_eq!(steps[0].stage, failed("follows", Fault::NoNodeId));
    assert_eq!(steps[0].request, Request::Nothing);
    let mut w = world(1);
    assert_eq!(
        reconcile(lock, &mut w),
        Err(Failure { input: "follows".to_string(), fault: Fault::NoNodeId })
    );
}

#[test]
fn a_malformed_node_fails_its_check() {
    let lock = "{\"nodes\": {\"root\": {\"inputs\": {\"x\": \"n1\"}},
        \"n1\": {\"original\": {\"type\": \"github\", \"owner\": \"o\"}, \"locked\": {\"rev\": \"r\"}}}}";
    let steps = plan(lock).unwrap();
    assert_eq!(steps[0].stage, failed("x", Fault::NoRepo));
    let missing = "{\"nodes\": {\"root\": {\"inputs\": {\"x\": \"gone\"}}}}";
    assert_eq!(plan(missing).unwrap()[0].stage, failed("x", Fault::NoType));
}

#[test]
fn the_root_inputs_are_listed_with_their_nodes() {
    let lock: serde_json::Value = serde_json::from_str(mixed()).unwrap();
    let mut listed = root_inputs(&lock).unwrap();
    listed.sort_by(|a, b| a.name.cmp(&b.name));
    assert_eq!(
        listed,
        vec![
            RootInput { name: "a".to_string(), id: Some("n1".to_string()) },
            RootInput { name: "b".to_string(), id: Some("n2".to_string()) },
            RootInput { name: "c".to_string(), id: Some("n3".to_string()) },
        ]
    );
    let none: serde_json::Value = serde_json::from_str("{\"nodes\": 5}").unwrap();
    assert_eq!(root_inputs(&none), Err(LockError::NoRootInputs));
}

#[test]
fn a_check_begins_at_the_cache() {
    let lock: serde_json::Value = serde_json::from_str(one_input()).unwrap();
    let first = Stage::begin(&lock["nodes"], "nixpkgs", Some("n1"));
    assert_eq!(first.stage, Stage::AwaitingCache(pinned("nixpkgs")));
    assert_eq!(
        first.request,
        Request::ReadEntry { path: "cache/o/r/main..abc".to_string() }
    );
    let none = Stage::begin(&lock["nodes"], "nixpkgs", None);
    assert_eq!(none.stage, failed("nixpkgs", Fault::NoNodeId));
}

#[test]
fn the_plan_holds_one_check_for_each_root_input() {
    let steps = plan(mixed()).unwrap();
    assert_eq!(steps.len(), 3);
    let done = steps.iter().filter(|s| s.stage == Stage::Done(None)).count();
    assert_eq!(done, 1);
    let lookups = steps
        .iter()
        .filter(|s| matches!(s.request, Request::ReadEntry { .. }))
        .count();
    assert_eq!(lookups, 2);
}

fn coordinates(name: &str, owner: &str, repo: &str, base_ref: &str, rev: &str) -> GitHubInput {
    GitHubInput {
        name: name.to_string(),
        id: name.to_string(),
        owner: owner.to_string(),
        repo: repo.to_string(),
        base_ref: base_ref.to_string(),
        rev: rev.to_string(),
    }
}

fn waiting(input: GitHubInput) -> Step {
    let stage = Stage::AwaitingCache(input);
    let request = stage.request();
    Step { stage, request }
}

fn over(stage: Stage) -> Step {
    Step { stage, request: Request::Nothing }
}

#[test]
fn every_check_knows_the_first_of_its_entry() {
    let steps = vec![
        waiting(coordinates("a", "o", "r", "main", "abc")),
        waiting(coordinates("b", "o", "r", "dev", "abc")),
        over(Stage::Done(None)),
        waiting(coordinates("c", "o", "r", "main", "abc")),
        over(failed("d", Fault::NoRepo)),
        waiting(coordinates("e", "o", "r", "dev", "abc")),
        waiting(coordinates("f", "o", "r", "main", "abd")),
        over(Stage::Done(None)),
        waiting(coordinates("g", "o", "r", "main", "abc")),
        over(Stage::AwaitingRemote(coordinates("h", "o", "r", "main", "abc"))),
    ];
    assert_eq!(first_alike(&steps), vec![0, 1, 2, 0, 4, 1, 6, 7, 0, 9]);
    assert_eq!(first_alike(&vec![]), Vec::<usize>::new());
}

#[test]
fn inputs_ask_for_the_same_comparison_by_their_coordinates() {
    let a = coordinates("a", "o", "r", "main", "abc");
    assert!(a.same_comparison(&coordinates("b", "o", "r", "main", "abc")));
    assert!(!a.same_comparison(&coordinates("a", "p", "r", "main", "abc")));
    assert!(!a.same_comparison(&coordinates("a", "o", "s", "main", "abc")));
    assert!(!a.same_comparison(&coordinates("a", "o", "r", "dev", "abc")));
    assert!(!a.same_comparison(&coordinates("a", "o", "r", "main", "abd")));
}

/// Runs the firsts one request at a time, in turn, as if side by side, and
/// the others after them.
fn reconcile_side_by_side(lock: &str, w: &mut World) -> Result<ReconciliationResult, Failure> {
    let steps = plan(lock).unwrap();
    let firsts = first_alike(&steps);
    let mut running: Vec<Option<Step>> = steps.into_iter().map(Some).collect();
    for round in 0..2 {
        loop {
            let mut moved = false;
            for i in 0..running.len() {
                if (firsts[i] == i) != (round == 0) {
                    continue;
                }
                let step = running[i].take().unwrap();
                match perform(&step.request, w) {
                    Some(event) => {
                        running[i] = Some(step.stage.advance(event));
                        moved = true;
                    }
                    None => running[i] = Some(step),
                }
            }
            if !moved {
                break;
            }
        }
    }
    join(running.into_iter().map(|s| s.unwrap().stage).collect())
}

#[test]
fn checks_side_by_side_compare_each_entry_once() {
    let mut w = world(4);
    let found = reconcile_side_by_side(two_alike(), &mut w).unwrap();
    assert_eq!(w.comparisons.len(), 1);
    let mut seen = reports(&found);
    seen.sort();
    assert_eq!(seen, vec![("first".to_string(), 4), ("second".to_string(), 4)]);
    assert_eq!(found.total(), 8);

    let mut w = world(2);
    let found = reconcile_side_by_side(mixed(), &mut w).unwrap();
    assert_eq!(w.comparisons.len(), 2);
    assert_eq!(found.total(), 4);
}

#[test]
fn the_total_is_the_same_in_any_order() {
    let counts = [3u64, 1, 4, 1, 5];
    let names = ["a", "b", "c", "d", "e"];
    let in_order = |order: [usize; 5]| {
        join(order.iter().map(|&i| Stage::Done(Update::new(pinned(names[i]), counts[i]))).collect())
            .unwrap()
    };
    let one = in_order([0, 1, 2, 3, 4]);
    let other = in_order([4, 2, 0, 3, 1]);
    assert_eq!(one.total(), 14);
    assert_eq!(other.total(), 14);
    let mut a = reports(&one);
    let mut b = reports(&other);
    assert_ne!(a, b);
    a.sort();
    b.sort();
    assert_eq!(a, b);
}

#[test]
fn only_a_check_that_finished_well_is_done() {
    assert!(Stage::Done(None).is_done());
    assert!(Stage::Done(Update::new(pinned("a"), 2)).is_done());
    assert!(!failed("a", Fault::RemoteFailed).is_done());
    assert!(!Stage::AwaitingCache(pinned("a")).is_done());
    assert!(!Stage::AwaitingRemote(pinned("a")).is_done());
    let s = Stage::AwaitingWrite { input: pinned("a"), behind_by: 2, content: "2".to_string() };
    assert!(!s.is_done());
}

#[test]
fn a_check_left_waiting_behind_a_failed_first_does_not_change_the_failure() {
    let stages = vec![
        failed("first", Fault::RemoteFailed),
        Stage::AwaitingCache(pinned("second")),
    ];
    assert_eq!(
        join(stages),
        Err(Failure { input: "first".to_string(), fault: Fault::RemoteFailed })
    );
}

#[test]
fn a_miss_ends_with_the_count_of_the_remote_host() {
    for (n, text) in [(0i64, "0"), (3, "3"), (10, "10"), (907, "907"), (i64::MAX, "9223372036854775807")] {
        let asked = Stage::AwaitingCache(pinned("a")).advance(Event::CacheMiss);
        let counted = asked.stage.advance(Event::Compared(n));
        assert_eq!(
            counted.request,
            Request::WriteEntry { path: "cache/o/r/main..abc".to_string(), content: text.to_string() }
        );
        let done = counted.stage.advance(Event::Stored);
        assert_eq!(done.stage, Stage::Done(Update::new(pinned("a"), n as u64)));
    }
}
