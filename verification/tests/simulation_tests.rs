use rotation_sim::block::Block;
use rotation_sim::miner::{hop, Decision, Miner};
use rotation_sim::network::Network;
use std::collections::VecDeque;

/// The simulated clock starts at the genesis timestamp.
const T0: u64 = 10_101_000;

#[derive(Clone, Copy, PartialEq, Debug)]
enum Phase {
    Poll,
    Decide,
    Propose,
}

/// A block with the time and the node at which something happened to it.
#[derive(Clone, Debug)]
struct Event {
    at_ms: u64,
    node: u8,
    block: Block,
}

/// Miners and a router on one simulated clock. Each miner runs its pass as
/// the real loop does: look into the inbox, pause if it is empty, decide,
/// pause if told so, propose.
struct Simulation {
    miners: Vec<Miner>,
    network: Network,
    inboxes: Vec<VecDeque<Block>>,
    phase: Vec<Phase>,
    wake_ms: Vec<u64>,
    silenced: Vec<bool>,
    mined: Vec<Event>,
    inserted: Vec<Event>,
}

fn simulation(n: u8, delays: Vec<(u8, u8, u64)>) -> Simulation {
    let mut network = Network::new(n);
    network.set_delay(delays);
    let mut sim = Simulation {
        miners: (0..n).map(|id| Miner::new(id, n)).collect(),
        network,
        inboxes: (0..n).map(|_| VecDeque::new()).collect(),
        phase: vec![Phase::Poll; n as usize],
        wake_ms: vec![T0; n as usize],
        silenced: vec![false; n as usize],
        mined: Vec::new(),
        inserted: Vec::new(),
    };
    for delivery in sim.network.genesis() {
        sim.inboxes[delivery.to as usize].push_back(delivery.block);
    }
    sim
}

fn run(sim: &mut Simulation, until_ms: u64) {
    loop {
        let mut node: usize = 0;
        for i in 0..sim.miners.len() {
            if sim.wake_ms[i] < sim.wake_ms[node] {
                node = i;
            }
        }
        let mut now: u64 = sim.wake_ms[node];
        if let Some(due) = sim.network.next_due() {
            if due <= now as u128 {
                now = due as u64;
                if now > until_ms {
                    return;
                }
                for entry in sim.network.release(now) {
                    sim.inboxes[entry.delivery.to as usize].push_back(entry.delivery.block);
                }
                continue;
            }
        }
        if now > until_ms {
            return;
        }
        match sim.phase[node] {
            Phase::Poll => {
                let inbound = sim.inboxes[node].pop_front();
                if let Some(block) = &inbound {
                    assert!(sim.miners[node].admits(block));
                    sim.inserted.push(Event { at_ms: now, node: node as u8, block: block.clone() });
                }
                let pause = sim.miners[node].ingest(inbound);
                sim.wake_ms[node] = now + pause.unwrap_or(0);
                sim.phase[node] = Phase::Decide;
            }
            Phase::Decide => match sim.miners[node].decide(now) {
                Decision::Idle => sim.phase[node] = Phase::Poll,
                Decision::Propose { wait_ms } => {
                    sim.wake_ms[node] = now + wait_ms as u64;
                    sim.phase[node] = Phase::Propose;
                }
            },
            Phase::Propose => {
                let block = sim.miners[node].propose_at(now / 1000);
                sim.mined.push(Event { at_ms: now, node: node as u8, block: block.clone() });
                if !sim.silenced[node] {
                    for delivery in sim.network.accept(&block, now) {
                        sim.inboxes[delivery.to as usize].push_back(delivery.block);
                    }
                }
                sim.phase[node] = Phase::Poll;
            }
        }
    }
}

fn inserted_at(sim: &Simulation, node: u8, block: &Block) -> Option<u64> {
    sim.inserted.iter().find(|e| e.node == node && &e.block == block).map(|e| e.at_ms)
}

#[test]
fn rotation_is_fair_without_delay() {
    let mut sim = simulation(4, vec![]);
    run(&mut sim, T0 + 2000 * 9 + 500);
    let authors: Vec<u8> = sim.mined.iter().map(|e| e.block.miner).collect();
    assert_eq!(authors, vec![1, 2, 3, 0, 1, 2, 3, 0, 1]);
    for (i, event) in sim.mined.iter().enumerate() {
        let height: u64 = i as u64 + 1;
        assert_eq!(event.block.number, height);
        assert_eq!(event.node, event.block.miner);
        assert_eq!(event.at_ms, T0 + 2000 * height);
        assert_eq!(event.block.timestamp, 10101 + 2 * height);
    }
    for miner in sim.miners.iter() {
        for height in 0..=9u64 {
            let level = miner.tree().blocks_at(height).unwrap();
            assert_eq!(level.len(), 1);
            if height > 0 {
                assert_eq!(level[0].miner, (height % 4) as u8);
                let parent = &miner.tree().blocks_at(height - 1).unwrap()[0];
                assert_eq!(level[0].parent, parent.digest());
            }
        }
        assert_eq!(miner.tree().tip().unwrap().number, 9);
        assert_eq!(miner.tree().tip().unwrap().miner, 1);
    }
}

#[test]
fn four_nodes_reach_height_three() {
    let mut sim = simulation(4, vec![]);

    run(&mut sim, T0 + 1999);
    assert!(sim.mined.is_empty());
    for miner in sim.miners.iter() {
        assert_eq!(miner.tree().tip(), Some(&Block::genesis()));
    }

    run(&mut sim, T0 + 2000 + 100);
    assert_eq!(sim.mined.len(), 1);
    assert_eq!(sim.mined[0].block.miner, 1);
    assert_eq!(sim.mined[0].block.number, 1);
    assert!(sim.mined[0].at_ms >= T0 + 2000 && sim.mined[0].at_ms <= T0 + 2000 + 100);
    for miner in sim.miners.iter() {
        assert_eq!(miner.tree().blocks_at(1).unwrap()[0].miner, 1);
    }

    run(&mut sim, T0 + 4000 + 100);
    assert_eq!(sim.mined.len(), 2);
    assert_eq!(sim.mined[1].block.miner, 2);
    assert_eq!(sim.mined[1].block.number, 2);
    assert!(sim.mined[1].at_ms >= T0 + 4000 && sim.mined[1].at_ms <= T0 + 4000 + 100);
    for miner in sim.miners.iter() {
        assert_eq!(miner.tree().blocks_at(2).unwrap()[0].miner, 2);
    }

    run(&mut sim, T0 + 6000 + 500);
    assert_eq!(sim.mined.len(), 3);
    for miner in sim.miners.iter() {
        let tip = miner.tree().tip().unwrap();
        assert_eq!(tip.number, 3);
        assert_eq!(tip.miner, 3);
        assert_eq!(miner.tree().blocks_at(4), None);
    }
}

#[test]
fn stand_in_waits_for_its_failover_time() {
    let mut sim = simulation(4, vec![]);
    sim.silenced[2] = true;
    run(&mut sim, T0 + 16_000);

    let tip_one = sim.mined[0].block.clone();
    assert_eq!((tip_one.miner, tip_one.number, tip_one.timestamp), (1, 1, 10103));

    // the designated proposer does its part, but nobody hears of it
    let silent = sim.mined.iter().find(|e| e.node == 2).unwrap();
    assert_eq!(silent.block.number, 2);
    assert_eq!(silent.at_ms, T0 + 4000);
    assert_eq!(inserted_at(&sim, 3, &silent.block), None);
    assert_eq!(inserted_at(&sim, 0, &silent.block), None);

    // node 3 is one hop from the designated proposer
    let h: u64 = hop(4, tip_one.miner, 3) as u64;
    assert_eq!(h, 1);
    let failover_ms: u64 = tip_one.timestamp * 1000 + h * 10_000;
    let stand_in = sim.mined.iter().find(|e| e.node == 3).unwrap();
    assert_eq!(stand_in.block.number, 2);
    assert_eq!(stand_in.block.parent, tip_one.digest());
    assert!(stand_in.at_ms >= failover_ms);
    assert!(stand_in.at_ms <= failover_ms + 100);
    assert!(stand_in.block.timestamp * 1000 >= failover_ms);

    // nothing but the silent block was built in between
    for event in sim.mined.iter() {
        if event.at_ms > T0 + 2000 && event.at_ms < failover_ms {
            assert_eq!(event.node, 2);
        }
    }

    // node 0, two hops away, did not get to stand in: it follows node 3
    let follower = sim.mined.iter().find(|e| e.node == 0).unwrap();
    assert_eq!(follower.block.number, 3);
    assert_eq!(follower.block.parent, stand_in.block.digest());
    assert_eq!(follower.at_ms, stand_in.block.timestamp * 1000 + 2000);

    // the silent node keeps its own block as a fork beside the stand-in's
    let forks = sim.miners[2].tree().blocks_at(2).unwrap();
    assert_eq!(forks.len(), 2);
    assert_eq!(forks[0], silent.block);
    assert_eq!(forks[1], stand_in.block);
}

#[test]
fn farther_stand_in_waits_longer() {
    let mut sim = simulation(4, vec![]);
    sim.silenced[2] = true;
    sim.silenced[3] = true;
    run(&mut sim, T0 + 30_000);
    let tip_one = sim.mined[0].block.clone();
    let far = sim.mined.iter().find(|e| e.node == 0).unwrap();
    assert_eq!(hop(4, 1, 0), 2);
    assert_eq!(far.block.number, 2);
    assert_eq!(far.block.parent, tip_one.digest());
    assert!(far.at_ms >= tip_one.timestamp * 1000 + 2 * 10_000);
    assert!(far.at_ms <= tip_one.timestamp * 1000 + 2 * 10_000 + 100);
}

#[test]
fn short_link_is_served_before_long_link() {
    let mut sim = simulation(4, vec![(0, 1, 500), (0, 2, 10)]);
    run(&mut sim, T0 + 9000);
    let event = sim.mined.iter().find(|e| e.node == 0).unwrap().clone();
    assert_eq!(event.block.number, 4);
    assert_eq!(event.at_ms, T0 + 8000);

    let at_one: u64 = inserted_at(&sim, 1, &event.block).unwrap();
    let at_two: u64 = inserted_at(&sim, 2, &event.block).unwrap();
    let at_three: u64 = inserted_at(&sim, 3, &event.block).unwrap();
    assert!(at_two < at_one);
    assert!(at_three <= at_two);
    assert!(at_two >= event.at_ms + 10 && at_two <= event.at_ms + 10 + 100);
    assert!(at_one >= event.at_ms + 500 && at_one <= event.at_ms + 500 + 100);
    assert!(at_three <= event.at_ms + 100);
}

#[test]
fn long_delay_makes_a_fork() {
    // node 2 hears of node 1's blocks only after its own failover time
    let mut sim = simulation(3, vec![(1, 2, 15_000), (0, 2, 15_000)]);
    run(&mut sim, T0 + 40_000);
    let mut forked = false;
    for miner in sim.miners.iter() {
        let mut height: u64 = 0;
        while let Some(level) = miner.tree().blocks_at(height) {
            assert!(!level.is_empty());
            if level.len() > 1 {
                forked = true;
            }
            for (i, a) in level.iter().enumerate() {
                assert_eq!(a.number, height);
                for b in level.iter().skip(i + 1) {
                    assert_ne!(a, b);
                }
            }
            height += 1;
        }
        assert!(miner.tree().contains(&Block::genesis()));
        assert!(miner.tree().contains(miner.tree().tip().unwrap()));
    }
    assert!(forked);
    for event in sim.inserted.iter() {
        assert!(sim.miners[event.node as usize].tree().contains(&event.block));
    }
}
