use rotation_sim::block::Block;
use rotation_sim::network::{Delivery, Network};
use rotation_sim::schedule::{DelayQueue, Scheduled};

fn block_by(miner: u8, number: u64) -> Block {
    Block {
        miner,
        number,
        timestamp: 20_000 + number,
        parent: vec![number as u8; 32],
        creator_signature: vec![],
        verifier_signature: None,
    }
}

fn summary(deliveries: &[Delivery]) -> Vec<(u8, Option<u64>)> {
    deliveries.iter().map(|d| (d.to, d.delay_ms)).collect()
}

fn released(entries: &[Scheduled]) -> Vec<(u128, u8)> {
    entries.iter().map(|s| (s.due_ms, s.delivery.to)).collect()
}

#[test]
fn genesis_goes_to_every_node_without_delay() {
    let mut network = Network::new(6);
    network.set_single_delay(0, 1, 500);
    let deliveries = network.genesis();
    assert_eq!(
        summary(&deliveries),
        vec![(0, None), (1, None), (2, None), (3, None), (4, None), (5, None)]
    );
    for d in deliveries.iter() {
        assert_eq!(d.block, Block::genesis());
    }
    assert_eq!(network.next_due(), None);
}

#[test]
fn genesis_of_an_empty_network_goes_nowhere() {
    assert!(Network::new(0).genesis().is_empty());
    assert!(Network::new(0).fan_out(&block_by(0, 1)).is_empty());
}

#[test]
fn fan_out_skips_the_author() {
    let network = Network::new(4);
    assert_eq!(network.n(), 4);
    assert_eq!(summary(&network.fan_out(&block_by(0, 1))), vec![(1, None), (2, None), (3, None)]);
    assert_eq!(summary(&network.fan_out(&block_by(2, 1))), vec![(0, None), (1, None), (3, None)]);
    assert_eq!(summary(&network.fan_out(&block_by(3, 1))), vec![(0, None), (1, None), (2, None)]);
    for d in network.fan_out(&block_by(2, 9)).iter() {
        assert_eq!(d.block, block_by(2, 9));
    }
}

#[test]
fn fan_out_of_an_outsider_reaches_every_node() {
    let network = Network::new(3);
    assert_eq!(summary(&network.fan_out(&block_by(3, 1))), vec![(0, None), (1, None), (2, None)]);
    assert_eq!(
        summary(&network.fan_out(&block_by(200, 1))),
        vec![(0, None), (1, None), (2, None)]
    );
}

#[test]
fn fan_out_with_all_nodes() {
    let network = Network::new(255);
    let deliveries = network.fan_out(&block_by(254, 1));
    assert_eq!(deliveries.len(), 254);
    assert_eq!(deliveries[0].to, 0);
    assert_eq!(deliveries[253].to, 253);
    let deliveries = network.fan_out(&block_by(0, 1));
    assert_eq!(deliveries.len(), 254);
    assert_eq!(deliveries[0].to, 1);
    assert_eq!(deliveries[253].to, 254);
}

#[test]
fn fan_out_carries_the_delay_of_each_link() {
    let mut network = Network::new(4);
    network.set_single_delay(0, 1, 500);
    network.set_single_delay(0, 2, 10);
    network.set_single_delay(1, 0, 77);
    assert_eq!(
        summary(&network.fan_out(&block_by(0, 1))),
        vec![(1, Some(500)), (2, Some(10)), (3, None)]
    );
    assert_eq!(
        summary(&network.fan_out(&block_by(1, 1))),
        vec![(0, Some(77)), (2, None), (3, None)]
    );
    assert_eq!(summary(&network.fan_out(&block_by(2, 1))), vec![(0, None), (1, None), (3, None)]);
}

#[test]
fn missing_entry_means_no_delay() {
    let network = Network::new(3);
    for from in 0..3u8 {
        for to in 0..3u8 {
            assert_eq!(network.delay(from, to), None);
        }
    }
}

#[test]
fn set_single_delay_touches_one_link() {
    let mut network = Network::new(3);
    network.set_single_delay(0, 1, 11000);
    assert_eq!(network.delay(0, 1), Some(11000));
    assert_eq!(network.delay(1, 0), None);
    assert_eq!(network.delay(0, 2), None);
    network.set_single_delay(1, 0, 5);
    network.set_single_delay(0, 1, 12);
    assert_eq!(network.delay(0, 1), Some(12));
    assert_eq!(network.delay(1, 0), Some(5));
    network.set_single_delay(0, 1, 0);
    assert_eq!(network.delay(0, 1), Some(0));
    network.set_single_delay(255, 255, u64::MAX);
    assert_eq!(network.delay(255, 255), Some(u64::MAX));
    assert_eq!(network.delay(255, 254), None);
    assert_eq!(network.delay(0, 255), None);
    assert_eq!(network.n(), 3);
}

#[test]
fn links_are_told_apart() {
    let mut network = Network::new(4);
    for from in 0..=255u8 {
        for to in 0..=255u8 {
            network.set_single_delay(from, to, from as u64 * 1000 + to as u64);
        }
    }
    for from in 0..=255u8 {
        for to in 0..=255u8 {
            assert_eq!(network.delay(from, to), Some(from as u64 * 1000 + to as u64));
        }
    }
}

#[test]
fn set_delay_replaces_the_table() {
    let mut network = Network::new(6);
    network.set_single_delay(4, 5, 11000);
    network.set_single_delay(0, 1, 3);
    network.set_delay(vec![(5, 0, 11000), (0, 1, 6500), (2, 3, 21000)]);
    assert_eq!(network.delay(4, 5), None);
    assert_eq!(network.delay(5, 0), Some(11000));
    assert_eq!(network.delay(0, 1), Some(6500));
    assert_eq!(network.delay(2, 3), Some(21000));
    assert_eq!(network.delay(3, 2), None);
    assert_eq!(network.n(), 6);
    network.set_delay(vec![]);
    assert_eq!(network.delay(5, 0), None);
    assert_eq!(network.delay(0, 1), None);
}

#[test]
fn last_triple_for_a_link_counts() {
    let mut network = Network::new(3);
    network.set_delay(vec![(0, 1, 5), (1, 2, 7), (0, 1, 9), (1, 2, 7), (0, 1, 4)]);
    assert_eq!(network.delay(0, 1), Some(4));
    assert_eq!(network.delay(1, 2), Some(7));
}

#[test]
fn accept_hands_back_what_has_no_delay() {
    let mut network = Network::new(4);
    network.set_single_delay(0, 1, 500);
    network.set_single_delay(0, 2, 10);
    let at_once = network.accept(&block_by(0, 1), 1000);
    assert_eq!(summary(&at_once), vec![(3, None)]);
    assert_eq!(at_once[0].block, block_by(0, 1));
    assert_eq!(network.next_due(), Some(1010));
    let at_once = network.accept(&block_by(3, 2), 1000);
    assert_eq!(summary(&at_once), vec![(0, None), (1, None), (2, None)]);
    assert_eq!(network.next_due(), Some(1010));
}

#[test]
fn shorter_link_delivers_first() {
    let mut network = Network::new(3);
    network.set_single_delay(0, 1, 500);
    network.set_single_delay(0, 2, 10);
    assert!(network.accept(&block_by(0, 1), 1000).is_empty());

    assert_eq!(network.next_due(), Some(1010));
    assert!(network.release(1000).is_empty());
    assert!(network.release(1009).is_empty());
    let due = network.release(1010);
    assert_eq!(released(&due), vec![(1010, 2)]);
    assert_eq!(due[0].delivery.block, block_by(0, 1));
    assert_eq!(due[0].delivery.delay_ms, Some(10));

    assert_eq!(network.next_due(), Some(1500));
    assert!(network.release(1499).is_empty());
    let due = network.release(1500);
    assert_eq!(released(&due), vec![(1500, 1)]);
    assert_eq!(due[0].delivery.block, block_by(0, 1));
    assert_eq!(network.next_due(), None);
    assert!(network.release(u64::MAX).is_empty());
}

#[test]
fn release_takes_all_that_is_due_in_due_order() {
    let mut network = Network::new(4);
    network.set_delay(vec![(0, 1, 300), (0, 2, 100), (0, 3, 200)]);
    assert!(network.accept(&block_by(0, 1), 5000).is_empty());
    let due = network.release(5250);
    assert_eq!(released(&due), vec![(5100, 2), (5200, 3)]);
    let due = network.release(9000);
    assert_eq!(released(&due), vec![(5300, 1)]);
}

#[test]
fn later_block_can_overtake_an_earlier_one() {
    let mut network = Network::new(3);
    network.set_single_delay(0, 2, 900);
    network.set_single_delay(1, 2, 50);
    let first = block_by(0, 1);
    let second = block_by(1, 2);
    assert_eq!(summary(&network.accept(&first, 1000)), vec![(1, None)]);
    assert_eq!(summary(&network.accept(&second, 1200)), vec![(0, None)]);
    let due = network.release(2000);
    assert_eq!(released(&due), vec![(1250, 2), (1900, 2)]);
    assert_eq!(due[0].delivery.block, second);
    assert_eq!(due[1].delivery.block, first);
}

#[test]
fn zero_delay_waits_for_the_next_release() {
    let mut network = Network::new(2);
    network.set_single_delay(0, 1, 0);
    assert!(network.accept(&block_by(0, 1), 700).is_empty());
    assert_eq!(network.next_due(), Some(700));
    assert!(network.release(699).is_empty());
    assert_eq!(released(&network.release(700)), vec![(700, 1)]);
}

#[test]
fn equal_due_times_keep_the_order_of_scheduling() {
    let mut network = Network::new(4);
    network.set_delay(vec![(0, 1, 100), (0, 2, 100), (0, 3, 100), (1, 0, 50)]);
    assert!(network.accept(&block_by(0, 1), 1000).is_empty());
    assert_eq!(summary(&network.accept(&block_by(1, 2), 1050)), vec![(2, None), (3, None)]);
    let due = network.release(1100);
    assert_eq!(released(&due), vec![(1100, 1), (1100, 2), (1100, 3), (1100, 0)]);
}

#[test]
fn changing_delays_leaves_what_waits() {
    let mut network = Network::new(2);
    network.set_single_delay(0, 1, 400);
    assert!(network.accept(&block_by(0, 1), 1000).is_empty());
    network.set_single_delay(0, 1, 5);
    network.set_delay(vec![]);
    assert_eq!(network.next_due(), Some(1400));
    assert_eq!(released(&network.release(1400)), vec![(1400, 1)]);
}

#[test]
fn due_times_do_not_overflow() {
    let mut network = Network::new(2);
    network.set_single_delay(0, 1, u64::MAX);
    assert!(network.accept(&block_by(0, 1), u64::MAX).is_empty());
    assert_eq!(network.next_due(), Some(u64::MAX as u128 * 2));
    assert!(network.release(u64::MAX).is_empty());
}

#[test]
fn queue_orders_by_due_time() {
    let mut queue = DelayQueue::new();
    assert_eq!(queue.len(), 0);
    assert_eq!(queue.next_due(), None);
    let dues: Vec<u128> = vec![50, 10, 30, 10, 70, 30, 5];
    for (i, due) in dues.iter().enumerate() {
        let delivery = Delivery { to: i as u8, delay_ms: Some(1), block: block_by(0, 1) };
        queue.schedule(delivery, *due);
    }
    assert_eq!(queue.len(), 7);
    assert_eq!(queue.next_due(), Some(5));
    assert_eq!(released(&queue.release(4)), vec![]);
    assert_eq!(released(&queue.release(10)), vec![(5, 6), (10, 1), (10, 3)]);
    assert_eq!(queue.len(), 4);
    assert_eq!(queue.next_due(), Some(30));
    assert_eq!(released(&queue.release(69)), vec![(30, 2), (30, 5), (50, 0)]);
    assert_eq!(released(&queue.release(u128::MAX)), vec![(70, 4)]);
    assert_eq!(queue.len(), 0);
}
