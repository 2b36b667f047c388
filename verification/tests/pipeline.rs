//! End-to-end tests of the composed pipeline state machine.

use coffee_shop_sim::customer::Phase;
use coffee_shop_sim::system::run_simulation;
use coffee_shop_sim::system::System;

fn names(list: &[&str]) -> Vec<String> {
    list.iter().map(|s| s.to_string()).collect()
}

fn sorted(mut v: Vec<String>) -> Vec<String> {
    v.sort();
    v
}

#[test]
fn scenario_three_customers() {
    // 3 customers with order sizes [0, 2, 5], 5 workers.
    let orders = vec![
        names(&[]),
        names(&["Latte", "Muffin"]),
        names(&["Drip Coffee", "Toast", "Mocha", "Toast", "Omelette"]),
    ];
    let sys = run_simulation(&orders, 5);

    assert_eq!(sys.customers.len(), 3);
    for (i, agent) in sys.customers.iter().enumerate() {
        assert_eq!(agent.id, i);
        assert_eq!(agent.phase, Phase::Done);
        assert_eq!(agent.received.len(), orders[i].len());
        // The multiset of names received equals the multiset ordered.
        let got = sorted(agent.report());
        let want = sorted(orders[i].clone());
        assert_eq!(got, want);
        // Every received item is the customer's own.
        for item in &agent.received {
            assert_eq!(item.owner_id, i);
        }
    }
    // The router ends with no residual items and no queues; every stage is
    // drained.
    assert_eq!(sys.router.queue_count(), 0);
    assert!(sys.router.is_drained());
    assert_eq!(sys.inbox.len(), 0);
    assert_eq!(sys.work_queue.len(), 0);
    assert_eq!(sys.in_progress.len(), 0);
    assert_eq!(sys.completion.len(), 0);
}

#[test]
fn zero_item_order_is_done_immediately() {
    // A customer with an empty order reaches Done at submission, before any
    // intake, worker or router step runs.
    let mut sys = System::new();
    let id = sys.submit_step(Vec::new());
    assert_eq!(id, 0);
    assert_eq!(sys.customers[0].phase, Phase::Done);
    assert_eq!(sys.customers[0].received.len(), 0);
}

#[test]
fn nonempty_order_waits() {
    let mut sys = System::new();
    let id = sys.submit_step(names(&["Latte"]));
    assert_eq!(id, 0);
    assert_eq!(sys.customers[0].phase, Phase::Waiting);
}

#[test]
fn delivery_is_schedule_independent() {
    // The same orders through pools of 1, 2 and 7 workers (different claim
    // and finish schedules) deliver the same name multisets to everyone.
    let orders = vec![
        names(&["Mocha", "Mocha", "Egg Bacon English Muffin Sandwich"]),
        names(&["Toast"]),
        names(&[]),
        names(&["Latte", "Drip Coffee", "Latte", "Muffin"]),
    ];
    let runs = [
        run_simulation(&orders, 1),
        run_simulation(&orders, 2),
        run_simulation(&orders, 7),
    ];
    for sys in &runs {
        for (i, agent) in sys.customers.iter().enumerate() {
            assert_eq!(agent.phase, Phase::Done);
            assert_eq!(sorted(agent.report()), sorted(orders[i].clone()));
        }
        assert_eq!(sys.router.queue_count(), 0);
    }
}

#[test]
fn stepwise_pipeline_drains() {
    // Drive the steps by hand instead of through run_simulation.
    let mut sys = System::new();
    sys.submit_step(names(&["Toast", "Latte"]));
    sys.submit_step(names(&["Muffin"]));
    while sys.inbox.len() > 0 {
        sys.intake_step();
    }
    assert_eq!(sys.work_queue.len(), 3);
    while sys.work_queue.len() > 0 {
        let qi = sys.work_queue.len() - 1;
        sys.claim_step(qi);
    }
    assert_eq!(sys.in_progress.len(), 3);
    while sys.in_progress.len() > 0 {
        sys.finish_step(0);
    }
    assert_eq!(sys.completion.len(), 3);
    while sys.completion.len() > 0 {
        sys.route_step();
    }
    sys.collect_step(0);
    sys.collect_step(1);
    assert_eq!(sys.customers[0].phase, Phase::Done);
    assert_eq!(sys.customers[1].phase, Phase::Done);
    assert_eq!(sorted(sys.customers[0].report()), sorted(names(&["Latte", "Toast"])));
    assert_eq!(sorted(sys.customers[1].report()), names(&["Muffin"]));
    sys.retire_step(0);
    sys.retire_step(1);
    assert_eq!(sys.router.queue_count(), 0);
}

#[test]
fn large_order_is_fully_delivered() {
    let mut big: Vec<String> = Vec::new();
    for k in 0..50 {
        big.push(if k % 2 == 0 { "Latte".to_string() } else { "Toast".to_string() });
    }
    let orders = vec![big.clone()];
    let sys = run_simulation(&orders, 3);
    assert_eq!(sys.customers[0].phase, Phase::Done);
    assert_eq!(sys.customers[0].received.len(), 50);
    assert_eq!(sorted(sys.customers[0].report()), sorted(big));
}
