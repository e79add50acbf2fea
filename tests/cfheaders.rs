use nakamoto::cfheaders::{first_divergence, judge, CfResponse, Judgement};

fn resp(peer: u64, start: u64, headers: Vec<u64>) -> CfResponse {
    CfResponse { peer, start, headers }
}

#[test]
fn agreeing_peers_confirm() {
    let a = resp(1, 100, vec![10, 11, 12]);
    let b = resp(2, 100, vec![10, 11, 12]);
    assert_eq!(judge(&a, &b), Judgement::Confirmed);
}

#[test]
fn disagreeing_peers_are_both_penalized() {
    let a = resp(1, 100, vec![10, 11, 12, 13]);
    let b = resp(2, 100, vec![10, 11, 99, 98]);
    assert_eq!(judge(&a, &b), Judgement::Diverged { first: 1, second: 2, height: 102 });
}

#[test]
fn one_peer_alone_confirms_nothing() {
    let a = resp(1, 100, vec![10, 11]);
    assert_eq!(judge(&a, &a.clone()), Judgement::NotIndependent);
}

#[test]
fn overlap_is_compared_at_shared_heights() {
    assert_eq!(first_divergence(100, &vec![10, 11, 12], 101, &vec![11, 12, 13]), None);
    assert_eq!(first_divergence(100, &vec![10, 11, 12], 101, &vec![11, 7]), Some(102));
    assert_eq!(first_divergence(101, &vec![11, 7], 100, &vec![10, 11, 12]), Some(102));
    assert_eq!(first_divergence(100, &vec![10], 200, &vec![5]), None);
    assert_eq!(first_divergence(100, &vec![], 100, &vec![5]), None);
}
