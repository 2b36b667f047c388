//! Tests of the individual pipeline components.

use coffee_shop_sim::catalog::standard_menu;
use coffee_shop_sim::catalog::Catalog;
use coffee_shop_sim::catalog::Category;
use coffee_shop_sim::customer::give_up_waiting;
use coffee_shop_sim::customer::CustomerAgent;
use coffee_shop_sim::customer::Phase;
use coffee_shop_sim::intake::{decompose, intake_step, IntakeAction, IntakeEvent};
use coffee_shop_sim::order::{Item, ItemState, Order};
use coffee_shop_sim::router::{RouteError, Router};
use coffee_shop_sim::worker::{worker_step, Latency, WorkerAction, WorkerEvent};

fn names(list: &[&str]) -> Vec<String> {
    list.iter().map(|s| s.to_string()).collect()
}

fn done_item(name: &str, owner_id: usize) -> Item {
    Item { name: name.to_string(), owner_id, state: ItemState::Done }
}

#[test]
fn menu_prices_and_categories() {
    let menu = standard_menu();
    assert_eq!(menu.len(), 7);
    assert_eq!(menu.price_of(&"Drip Coffee".to_string()), Some(250));
    assert_eq!(menu.price_of(&"Latte".to_string()), Some(300));
    assert_eq!(menu.price_of(&"Mocha".to_string()), Some(400));
    assert_eq!(menu.price_of(&"Muffin".to_string()), Some(500));
    assert_eq!(menu.price_of(&"Omelette".to_string()), Some(500));
    assert_eq!(menu.price_of(&"Toast".to_string()), Some(200));
    assert_eq!(menu.price_of(&"Egg Bacon English Muffin Sandwich".to_string()), Some(1500));
    assert_eq!(menu.price_of(&"Espresso".to_string()), None);
    let latte = menu.lookup(&"Latte".to_string()).unwrap();
    assert_eq!(latte.category, Category::Drink);
    let toast = menu.lookup(&"Toast".to_string()).unwrap();
    assert_eq!(toast.category, Category::Food);
    assert!(menu.lookup(&"Espresso".to_string()).is_none());
}

#[test]
fn catalog_rejects_duplicate_names() {
    let mut c = Catalog::new();
    assert!(c.add("Latte".to_string(), Category::Drink, 300));
    assert!(!c.add("Latte".to_string(), Category::Food, 999));
    assert_eq!(c.len(), 1);
    assert_eq!(c.price_of(&"Latte".to_string()), Some(300));
}

#[test]
fn order_construction() {
    let order = Order::new(3, &names(&["Latte", "Toast"]));
    assert_eq!(order.owner_id, 3);
    assert_eq!(order.len(), 2);
    for item in &order.items {
        assert_eq!(item.owner_id, 3);
        assert_eq!(item.state, ItemState::Pending);
    }
    assert_eq!(order.items[0].name, "Latte");
    assert_eq!(order.items[1].name, "Toast");
}

#[test]
fn intake_dispatches_and_acknowledges() {
    let order = Order::new(1, &names(&["Mocha"]));
    match intake_step(IntakeEvent::Submitted(order)) {
        IntakeAction::Dispatch(items) => {
            assert_eq!(items.len(), 1);
            assert_eq!(items[0].name, "Mocha");
            assert_eq!(items[0].owner_id, 1);
        },
        _ => panic!("a one-item order must be dispatched"),
    }
    let empty = Order::new(2, &Vec::new());
    match intake_step(IntakeEvent::Submitted(empty)) {
        IntakeAction::AcknowledgeEmpty(owner) => assert_eq!(owner, 2),
        _ => panic!("an empty order must be acknowledged"),
    }
    assert!(matches!(intake_step(IntakeEvent::Closed), IntakeAction::Shutdown));
    let items = decompose(Order::new(4, &names(&["Toast", "Toast"])));
    assert_eq!(items.len(), 2);
}

#[test]
fn latency_is_bounded() {
    assert_eq!(Latency::Fixed(50).delay_ms(12345), 50);
    for roll in [0u64, 1, 7, 99, u64::MAX] {
        let d = Latency::Between(20, 80).delay_ms(roll);
        assert!((20..=80).contains(&d));
    }
    assert_eq!(Latency::Between(50, 50).delay_ms(9), 50);
}

#[test]
fn worker_publishes_or_reports_failure() {
    let item = Item { name: "Latte".to_string(), owner_id: 0, state: ItemState::Pending };
    match worker_step(WorkerEvent::Claimed(item), true) {
        WorkerAction::Publish(done) => {
            assert_eq!(done.name, "Latte");
            assert_eq!(done.owner_id, 0);
            assert_eq!(done.state, ItemState::Done);
        },
        _ => panic!("a completed item must be published"),
    }
    let item = Item { name: "Toast".to_string(), owner_id: 2, state: ItemState::Pending };
    match worker_step(WorkerEvent::Claimed(item), false) {
        WorkerAction::ReportFailed(failed) => {
            assert_eq!(failed.name, "Toast");
            assert_eq!(failed.owner_id, 2);
        },
        _ => panic!("a failed item must be reported, not dropped"),
    }
    assert!(matches!(worker_step(WorkerEvent::QueueClosed, true), WorkerAction::Exit));
}

#[test]
fn router_routes_only_to_owner() {
    let mut r = Router::new();
    assert!(r.register(7));
    assert!(!r.register(7));
    assert!(r.register(9));
    assert_eq!(r.queue_count(), 2);

    r.deliver(done_item("Latte", 7)).unwrap();
    r.deliver(done_item("Mocha", 9)).unwrap();
    r.deliver(done_item("Toast", 7)).unwrap();
    assert!(!r.is_drained());

    let seven = r.take_ready(7).unwrap();
    let got: Vec<String> = seven.iter().map(|it| it.name.clone()).collect();
    assert_eq!(got, vec!["Latte".to_string(), "Toast".to_string()]);
    for it in &seven {
        assert_eq!(it.owner_id, 7);
        assert_eq!(it.state, ItemState::Done);
    }
    let nine = r.take_ready(9).unwrap();
    assert_eq!(nine.len(), 1);
    assert_eq!(nine[0].name, "Mocha");
    assert!(r.is_drained());
}

#[test]
fn router_rejects_unknown_owner() {
    let mut r = Router::new();
    r.register(1);
    // An item whose owner was never registered is a structural defect,
    // surfaced as an error and not silently dropped into anyone's queue.
    assert_eq!(r.deliver(done_item("Latte", 2)), Err(RouteError::UnknownOwner));
    assert!(r.is_drained());
    assert!(r.take_ready(2).is_err());
    assert!(r.retire(2).is_err());
}

#[test]
fn router_retires_queues() {
    let mut r = Router::new();
    r.register(4);
    r.deliver(done_item("Muffin", 4)).unwrap();
    let residual = r.retire(4).unwrap();
    assert_eq!(residual.len(), 1);
    assert_eq!(residual[0].name, "Muffin");
    assert_eq!(r.queue_count(), 0);
    // Retired customers are unknown again.
    assert_eq!(r.deliver(done_item("Toast", 4)), Err(RouteError::UnknownOwner));
}

#[test]
fn customer_life_cycle() {
    let mut agent = CustomerAgent::new(5);
    assert_eq!(agent.phase, Phase::Ordering);
    let order = agent.place_order(names(&["Latte", "Toast", "Muffin"]));
    assert_eq!(order.owner_id, 5);
    assert_eq!(agent.phase, Phase::Waiting);
    assert_eq!(agent.outstanding(), 3);

    agent.receive(vec![done_item("Toast", 5)]);
    assert_eq!(agent.phase, Phase::Collecting);
    assert_eq!(agent.outstanding(), 2);

    agent.receive(vec![done_item("Latte", 5), done_item("Muffin", 5)]);
    assert_eq!(agent.phase, Phase::Done);
    assert!(agent.is_done());
    assert_eq!(agent.outstanding(), 0);
    assert_eq!(agent.report(), names(&["Toast", "Latte", "Muffin"]));
}

#[test]
fn zero_item_customer_is_done_at_once() {
    let mut agent = CustomerAgent::new(0);
    agent.place_order(Vec::new());
    assert!(agent.is_done());
    assert_eq!(agent.phase, Phase::Done);
}

#[test]
fn bounded_wait_gives_up() {
    assert!(!give_up_waiting(0, 10));
    assert!(!give_up_waiting(9, 10));
    assert!(give_up_waiting(10, 10));
    assert!(give_up_waiting(11, 10));
}
