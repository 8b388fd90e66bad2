use wasapi_loopback::route::{check_own_routes, process_tree, vouched, Inspected, SessionInfo};

#[test]
fn process_tree_collects_descendants_and_survives_cycles() {
    let entries = [(10, 1), (20, 10), (30, 20), (40, 99), (10, 30), (0, 10), (50, 50)];
    let mut t = process_tree(10, &entries);
    t.sort();
    assert_eq!(t, vec![10, 20, 30]);
    assert_eq!(process_tree(50, &entries), vec![50]);
}

#[test]
fn only_active_own_sessions_off_the_target_endpoint_fail() {
    let s = |ep: &str, pid, active| SessionInfo { endpoint_id: ep.into(), pid, active };
    let own = [10, 20];
    assert!(check_own_routes("{E}", &own, &[s("{e}", 20, true), s("{F}", 10, false), s("{F}", 77, true)]).is_ok());
    let err = check_own_routes("{E}", &own, &[s("{E}", 20, true), s("{F}", 20, true)]).unwrap_err();
    assert!(err.contains("another endpoint"), "{err}");
}

#[test]
fn one_unreadable_session_vouches_for_nothing() {
    let seen = |pid, active| Inspected::Session {
        info: SessionInfo { endpoint_id: "{E}".into(), pid, active },
    };
    let lost = |reason: &str| Inspected::Unreadable { reason: reason.to_string() };
    let pids = |readings| vouched(readings).unwrap().iter().map(|s: &SessionInfo| s.pid).collect::<Vec<_>>();
    assert!(pids(vec![]).is_empty());
    assert_eq!(pids(vec![seen(3, true), seen(1, false), seen(2, true)]), vec![3, 2]);
    assert_eq!(vouched(vec![seen(1, true), lost("a"), lost("b")]).unwrap_err(), "a");
    assert_eq!(vouched(vec![seen(1, false), seen(2, true), lost("b")]).unwrap_err(), "b");
}
