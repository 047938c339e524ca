use tailsrv::registry::{plan_request, Client, PlannedReq, Registry};

fn fresh(offset: u64) -> Client {
    Client {
        offset,
        bytes_in_pipe: 0,
        in_flight: false,
    }
}

#[test]
fn registry_insert_get_remove() {
    let mut reg = Registry::new();
    assert!(!reg.contains(7));
    reg.insert(7, fresh(0));
    assert!(reg.contains(7));
    assert_eq!(reg.get(7), Some(fresh(0)));
    assert_eq!(reg.get(8), None);
    assert!(reg.remove(7));
    assert!(!reg.contains(7));
    assert!(!reg.remove(7));
}

#[test]
fn registry_insert_overwrites() {
    let mut reg = Registry::new();
    reg.insert(7, fresh(0));
    reg.insert(7, fresh(99));
    assert_eq!(reg.get(7), Some(fresh(99)));
    assert!(reg.remove(7));
    assert!(!reg.contains(7));
}

#[test]
fn registry_keeps_other_sessions() {
    let mut reg = Registry::new();
    reg.insert(1, fresh(10));
    reg.insert(2, fresh(20));
    reg.insert(3, fresh(30));
    assert!(reg.remove(2));
    assert_eq!(reg.get(1), Some(fresh(10)));
    assert_eq!(reg.get(2), None);
    assert_eq!(reg.get(3), Some(fresh(30)));
}

#[test]
fn fill_then_drain_advances_offset_by_bytes_delivered() {
    let mut reg = Registry::new();
    reg.insert(5, fresh(100));
    assert!(reg.record_fill(5, 40));
    let c = reg.get(5).unwrap();
    assert_eq!(c.offset, 100);
    assert_eq!(c.bytes_in_pipe, 40);

    // A partial drain: 30 of the 40 bytes reach the socket.
    assert!(reg.record_drain(5, 30));
    let c = reg.get(5).unwrap();
    assert_eq!(c.offset, 130);
    assert_eq!(c.bytes_in_pipe, 10);
    assert!(!c.in_flight);

    // The rest follows: total advance equals total bytes delivered.
    assert!(reg.record_drain(5, 10));
    let c = reg.get(5).unwrap();
    assert_eq!(c.offset, 140);
    assert_eq!(c.bytes_in_pipe, 0);
}

#[test]
fn drain_of_unknown_client_fails() {
    let mut reg = Registry::new();
    assert!(!reg.record_drain(9, 1));
    assert!(!reg.record_fill(9, 1));
}

#[test]
fn drain_larger_than_pipe_fails() {
    let mut reg = Registry::new();
    reg.insert(5, fresh(0));
    assert!(reg.record_fill(5, 10));
    assert!(!reg.record_drain(5, 11));
    // Nothing changed.
    let c = reg.get(5).unwrap();
    assert_eq!(c.offset, 0);
    assert_eq!(c.bytes_in_pipe, 10);
}

#[test]
fn plan_for_single_client_states() {
    let len = 1000u64;
    let busy = Client {
        offset: 0,
        bytes_in_pipe: 0,
        in_flight: true,
    };
    assert_eq!(plan_request(&busy, len), None);

    let undrained = Client {
        offset: 0,
        bytes_in_pipe: 5,
        in_flight: false,
    };
    assert_eq!(plan_request(&undrained, len), Some(PlannedReq::Drain));

    let behind = fresh(10);
    assert_eq!(plan_request(&behind, len), Some(PlannedReq::FillAndDrain));

    let caught_up = fresh(1000);
    assert_eq!(plan_request(&caught_up, len), None);
}

#[test]
fn planning_pass_covers_every_lagging_client() {
    let mut reg = Registry::new();
    reg.insert(1, fresh(0)); // behind: gets a fill
    reg.insert(
        2,
        Client {
            offset: 3,
            bytes_in_pipe: 4,
            in_flight: false,
        },
    ); // undrained: gets a drain
    reg.insert(3, fresh(1000)); // caught up: nothing
    reg.insert(
        4,
        Client {
            offset: 0,
            bytes_in_pipe: 0,
            in_flight: true,
        },
    ); // already in flight: nothing

    let plans = reg.plan_requests(1000);
    assert_eq!(
        plans,
        vec![(1, PlannedReq::FillAndDrain), (2, PlannedReq::Drain)]
    );

    // The client whose fill was planned is now marked in flight; the
    // others are untouched.
    assert!(reg.get(1).unwrap().in_flight);
    assert!(!reg.get(2).unwrap().in_flight);
    assert!(!reg.get(3).unwrap().in_flight);
    assert!(reg.get(4).unwrap().in_flight);

    // A second pass issues only the drain again: the fill is in flight.
    let plans = reg.plan_requests(1000);
    assert_eq!(plans, vec![(2, PlannedReq::Drain)]);
}
