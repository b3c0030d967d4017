use cron_rs::chain::Chain;
use std::sync::{Arc, Mutex};

type TestJob = Arc<dyn Fn() + Send + Sync>;
type Wrapper = Box<dyn Fn(TestJob) -> TestJob + Send + Sync>;

fn appending_job(slice: Arc<Mutex<Vec<i32>>>, value: i32) -> TestJob {
    Arc::new(move || {
        slice.lock().unwrap().push(value);
    })
}

fn appending_wrapper(slice: Arc<Mutex<Vec<i32>>>, value: i32) -> Wrapper {
    Box::new(move |j: TestJob| {
        let slice = slice.clone();
        Arc::new(move || {
            slice.lock().unwrap().push(value);
            j();
        })
    })
}

#[test]
fn test_chain() {
    let nums = Arc::new(Mutex::new(Vec::new()));
    let append1 = appending_wrapper(nums.clone(), 1);
    let append2 = appending_wrapper(nums.clone(), 2);
    let append3 = appending_wrapper(nums.clone(), 3);
    let append4 = appending_job(nums.clone(), 4);

    Chain::new(vec![append1, append2, append3]).then(append4)();
    assert_eq!(*nums.lock().unwrap(), vec![1, 2, 3, 4]);
}

#[test]
fn empty_chain_runs_the_job_alone() {
    let nums = Arc::new(Mutex::new(Vec::new()));
    let chain: Chain<Wrapper> = Chain::new(Vec::new());
    chain.then(appending_job(nums.clone(), 7))();
    assert_eq!(*nums.lock().unwrap(), vec![7]);
}

#[test]
fn chain_wraps_values_outermost_first() {
    let add_one: Box<dyn Fn(i64) -> i64> = Box::new(|x| x + 1);
    let double: Box<dyn Fn(i64) -> i64> = Box::new(|x| x * 2);
    // double is applied first (innermost), then add_one.
    assert_eq!(Chain::new(vec![add_one, double]).then(5), 11);
}

#[test]
fn a_joined_chain_is_the_two_chains_in_turn() {
    let mk = |k: i64| -> Box<dyn Fn(i64) -> i64> { Box::new(move |x| x * 10 + k) };
    let joined = Chain::new(vec![mk(1), mk(2), mk(3)]).then(0);
    let inner = Chain::new(vec![mk(3)]).then(0);
    let outer = Chain::new(vec![mk(1), mk(2)]).then(inner);
    assert_eq!(joined, outer);
    assert_eq!(joined, 321);
}
