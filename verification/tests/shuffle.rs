use bevy_prng::ChaCha20Rng;
use rand::SeedableRng;
use verlet_tail::shuffle::Shuffle;

fn seeded(seed: u8) -> ChaCha20Rng {
    ChaCha20Rng::from_seed([seed; 32])
}

#[test]
fn new_starts_with_a_full_round() {
    let shuffle = Shuffle::new(&[1, 2, 3]);
    assert_eq!(shuffle.pool_len(), 3);
    assert_eq!(shuffle.remaining_len(), 3);
}

#[test]
fn single_item_is_always_drawn() {
    let mut rng = seeded(1);
    let mut shuffle = Shuffle::new(&["mice"]);
    for _ in 0..5 {
        assert_eq!(shuffle.next(&mut rng), "mice");
        assert_eq!(shuffle.remaining_len(), 0);
    }
}

#[test]
fn every_round_draws_each_item_once() {
    let items: Vec<u32> = (0..7).collect();
    let mut rng = seeded(3);
    let mut shuffle = Shuffle::new(&items);
    for _ in 0..4 {
        let mut drawn: Vec<u32> = Vec::new();
        for left in (0..7).rev() {
            drawn.push(shuffle.next(&mut rng));
            assert_eq!(shuffle.remaining_len(), left);
        }
        drawn.sort();
        assert_eq!(drawn, items);
    }
    assert_eq!(shuffle.pool_len(), 7);
}

#[test]
fn draws_come_in_a_shuffled_order() {
    let items: Vec<u32> = (0..40).collect();
    let mut rng = seeded(9);
    let mut shuffle = Shuffle::new(&items);
    let drawn: Vec<u32> = (0..40).map(|_| shuffle.next(&mut rng)).collect();
    let unshuffled: Vec<u32> = (0..40).rev().collect();
    assert_ne!(drawn, unshuffled);
    assert_ne!(drawn, items);
}

#[test]
fn same_seed_gives_the_same_draws() {
    let items: Vec<u32> = (0..10).collect();
    let mut first = Shuffle::new(&items);
    let mut second = Shuffle::new(&items);
    let mut rng_a = seeded(5);
    let mut rng_b = seeded(5);
    for _ in 0..25 {
        assert_eq!(first.next(&mut rng_a), second.next(&mut rng_b));
    }
}
