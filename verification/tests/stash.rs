use voxel_world::block::BlockId;
use voxel_world::stash::ElementStash;

const ROCK: BlockId = BlockId(3);
const SOIL: BlockId = BlockId(4);
const CLAY: BlockId = BlockId(5);

/// A registry of three labelled blocks.
fn spec_of(id: BlockId) -> String {
    match id {
        ROCK => "rock".to_string(),
        SOIL => "soil".to_string(),
        _ => "clay".to_string(),
    }
}

fn parse_spec(s: &str) -> Option<BlockId> {
    match s {
        "rock" => Some(ROCK),
        "soil" => Some(SOIL),
        "clay" => Some(CLAY),
        _ => None,
    }
}

#[test]
fn stash_add_respects_capacity_per_item() {
    let mut stash = ElementStash::new(3);
    assert!(stash.add(ROCK, 1));
    assert!(stash.add(SOIL, 1));
    // Room for one more: one of two lands, the rest is dropped.
    assert!(!stash.add(ROCK, 2));
    assert_eq!(stash.total(), 3);
    assert_eq!(stash.count(ROCK), 2);
    assert_eq!(stash.count(CLAY), 0);
}

#[test]
fn stash_consume_is_all_or_nothing() {
    let mut stash = ElementStash::new(10);
    stash.add(ROCK, 2);
    stash.add(SOIL, 1);
    let rev = stash.rev();
    assert!(!stash.consume(SOIL, 2));
    assert_eq!(stash.rev(), rev, "a failed consume changes nothing");
    assert_eq!(stash.total(), 3);
    assert!(stash.consume(ROCK, 1));
    assert!(stash.consume(SOIL, 1));
    assert_eq!(stash.count(ROCK), 1);
    assert_eq!(stash.count(SOIL), 0);
    assert!(stash.rev() > rev);
}

#[test]
fn stash_iteration_keeps_first_seen_order() {
    let mut stash = ElementStash::new(10);
    stash.add(SOIL, 1);
    stash.add(ROCK, 1);
    stash.add(SOIL, 1);
    assert_eq!(stash.iter(), vec![(SOIL, 2), (ROCK, 1)]);
}

#[test]
fn load_portable_replaces_previous_contents() {
    let mut stash = ElementStash::new(10);
    stash.add(ROCK, 2);
    stash.load_portable(&[(spec_of(SOIL), 1)], parse_spec);
    assert_eq!(stash.total(), 1);
    assert_eq!(stash.count(SOIL), 1);
    assert_eq!(stash.count(ROCK), 0);
}

#[test]
fn stash_overflow_unchanged() {
    let mut stash = ElementStash::new(2);
    assert!(stash.add(ROCK, 2));
    assert!(!stash.add(ROCK, 1));
    assert_eq!(stash.total(), 2);
    assert_eq!(stash.count(ROCK), 2);
}

#[test]
fn portable_round_trips_through_specs() {
    let mut stash = ElementStash::new(10);
    stash.add(ROCK, 3);
    let portable = stash.to_portable(spec_of);
    let mut other = ElementStash::new(10);
    other.load_portable(&portable, parse_spec);
    assert_eq!(other.count(ROCK), 3);
    assert_eq!(other.total(), 3);
}

#[test]
fn unknown_specs_are_left_out_of_a_load() {
    let mut stash = ElementStash::new(10);
    stash.load_portable(
        &[("rock".to_string(), 2), ("gold".to_string(), 5), ("clay".to_string(), 1)],
        parse_spec,
    );
    assert_eq!(stash.iter(), vec![(ROCK, 2), (CLAY, 1)]);
}

#[test]
fn revoke_takes_what_is_there() {
    let mut stash = ElementStash::new(10);
    stash.add(ROCK, 2);
    stash.revoke(ROCK, 5);
    assert_eq!(stash.count(ROCK), 0);
    assert_eq!(stash.total(), 0);
    stash.clear();
    assert_eq!(stash.capacity(), 10);
}

#[test]
fn room_past_the_count_word_is_room() {
    if usize::BITS < 64 {
        return;
    }
    let wide = (u32::MAX as u64 + 1) as usize;
    let mut stash = ElementStash::new(wide);
    assert!(stash.add(ROCK, 5), "there is room for all five");
    assert_eq!((stash.count(ROCK), stash.total()), (5, 5));
    let mut other = ElementStash::new(wide);
    other.load_portable(&stash.to_portable(spec_of), parse_spec);
    assert_eq!(other.iter(), stash.iter());
}

#[test]
fn loading_moves_the_revision_on() {
    let mut stash = ElementStash::new(10);
    stash.add(ROCK, 3);
    let before = stash.rev();
    stash.load_portable(&[], parse_spec);
    assert_eq!(stash.rev(), before + 1);
    let before = stash.rev();
    stash.load_portable(&[(spec_of(ROCK), 4), (spec_of(SOIL), 6), (spec_of(SOIL), 1)], parse_spec);
    assert_eq!(stash.rev(), before + 3, "one for the clearing, one for each pair that landed");
    assert_eq!(stash.iter(), vec![(ROCK, 4), (SOIL, 6)]);
}

#[test]
fn parse_is_asked_once_per_item_in_order() {
    let mut seen = Vec::new();
    let mut stash = ElementStash::new(10);
    let items = [(spec_of(SOIL), 1), (spec_of(ROCK), 2)];
    stash.load_portable(&items, |s: &str| {
        seen.push(s.to_string());
        parse_spec(s)
    });
    assert_eq!(seen, vec![spec_of(SOIL), spec_of(ROCK)]);
    assert_eq!(stash.total(), 3);
}

#[test]
fn calls_keep_the_total_within_capacity_and_equal_to_the_rows() {
    let mut stash = ElementStash::new(7);
    let mut rev = stash.rev();
    for k in 0..40u32 {
        let rows = stash.iter();
        let id = if k % 3 == 0 { ROCK } else { SOIL };
        match k % 5 {
            0 | 1 => {
                stash.add(id, k % 6);
            }
            2 => {
                stash.consume(id, k % 4);
            }
            3 => stash.revoke(id, k % 3),
            _ => stash.load_portable(&[(spec_of(ROCK), k), (spec_of(SOIL), 2)], parse_spec),
        }
        let now = stash.iter();
        assert_eq!(now.iter().map(|r| r.1).sum::<u32>(), stash.total());
        assert!(stash.total() as usize <= stash.capacity());
        assert!(now.iter().all(|r| r.1 > 0));
        assert!(stash.rev() >= rev && (now == rows || stash.rev() > rev));
        rev = stash.rev();
    }
}
