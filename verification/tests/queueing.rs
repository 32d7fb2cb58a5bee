use std::sync::Arc;

use sweeprun::config::Permutation;
use sweeprun::queue::{drain_queue, fill_queue};

fn perm(id: &str) -> Permutation {
    Permutation {
        id: String::from(id),
        parameters: format!("--x={id}"),
    }
}

#[test]
fn queue_holds_exactly_the_pending_permutations() {
    let perms = vec![perm("a=1_0"), perm("a=2_0"), perm("a=3_0")];
    let mut q = fill_queue(perms);
    assert_eq!(q.capacity(), 3);
    assert_eq!(q.len(), 3);
    let mut out: Vec<String> = drain_queue(&mut q).into_iter().map(|p| p.id).collect();
    out.sort();
    assert_eq!(
        out,
        vec!["a=1_0".to_string(), "a=2_0".to_string(), "a=3_0".to_string()]
    );
    assert!(q.is_empty());
}

#[test]
fn drained_queue_stays_empty() {
    let mut q = fill_queue(vec![perm("a=1_0")]);
    let first = drain_queue(&mut q);
    assert_eq!(first.len(), 1);
    let second = drain_queue(&mut q);
    assert!(second.is_empty());
    assert!(q.pop().is_none());
}

#[test]
fn each_permutation_comes_out_exactly_once() {
    let perms = vec![perm("a=1_0"), perm("a=1_1"), perm("b=2_0"), perm("b=2_1")];
    let mut q = fill_queue(perms);
    let out = drain_queue(&mut q);
    assert_eq!(out.len(), 4);
    let mut seen: Vec<String> = out.into_iter().map(|p| p.id).collect();
    seen.sort();
    seen.dedup();
    assert_eq!(seen.len(), 4);
}

#[test]
fn queued_parameters_survive_the_queue() {
    let mut q = fill_queue(vec![perm("k=v_0")]);
    let out = drain_queue(&mut q);
    assert_eq!(out[0].id, "k=v_0");
    assert_eq!(out[0].parameters, "--x=k=v_0");
}

#[test]
fn shared_queue_pop_agrees_with_drain() {
    let perms: Vec<Permutation> = (0..8).map(|i| perm(&format!("a={i}_0"))).collect();
    let q = Arc::new(fill_queue(perms));
    let mut all: Vec<String> = Vec::new();
    while let Some(p) = q.pop() {
        all.push(p.id);
    }
    all.sort();
    all.dedup();
    assert_eq!(all.len(), 8);
    assert!(q.is_empty());
}
