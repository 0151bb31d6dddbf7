use scrolls::buffer::{BlockConfig, BufferBlocks, Config, RollbackData};
use scrolls::codec::{decode_pair, encode_pair, slot_from_key, slot_key};
use scrolls::model::Point;
use scrolls::store::KvStore;

fn point(slot: u64) -> Point {
    Point::Specific(slot, vec![slot as u8; 4])
}

fn block_bytes(slot: u64) -> Vec<u8> {
    vec![slot as u8, 0xb1, 0x0c]
}

#[test]
fn kv_store_inserts_and_overwrites() {
    let mut s: KvStore<Vec<u8>> = KvStore::new();
    assert_eq!(s.len(), 0);
    s.insert(String::from("a"), vec![1]);
    s.insert(String::from("b"), vec![2]);
    assert_eq!(s.len(), 2);
    assert_eq!(s.get(&String::from("a")), Some(&vec![1]));
    s.insert(String::from("a"), vec![9]);
    assert_eq!(s.len(), 2);
    assert_eq!(s.get(&String::from("a")), Some(&vec![9]));
    s.remove(&String::from("a"));
    assert_eq!(s.get(&String::from("a")), None);
    assert_eq!(s.len(), 1);
}

#[test]
fn kv_store_prunes_oldest_first() {
    let mut s: KvStore<Vec<u8>> = KvStore::new();
    s.insert(String::from("first"), vec![1]);
    s.insert(String::from("second"), vec![2]);
    s.insert(String::from("third"), vec![3]);
    s.prune_oldest(2);
    assert_eq!(s.len(), 1);
    assert_eq!(s.get(&String::from("third")), Some(&vec![3]));
    assert_eq!(s.get(&String::from("first")), None);
}

#[test]
fn buffer_cap_keeps_highest_slots() {
    // More inserts than the cap allows: exactly `cap` blocks remain, the
    // highest slots among them.
    let mut b = BufferBlocks::with_cap(3);
    for slot in 1..=5u64 {
        b.insert_block(&point(slot), &block_bytes(slot));
    }
    assert_eq!(b.get_block_at_point(&point(1)), None);
    assert_eq!(b.get_block_at_point(&point(2)), None);
    assert_eq!(b.get_block_at_point(&point(3)), Some(block_bytes(3)));
    assert_eq!(b.get_block_at_point(&point(4)), Some(block_bytes(4)));
    assert_eq!(b.get_block_at_point(&point(5)), Some(block_bytes(5)));
}

#[test]
fn buffer_never_evicts_queued_blocks() {
    let mut b = BufferBlocks::with_cap(2);
    b.insert_block(&point(10), &block_bytes(10));
    b.insert_block(&point(11), &block_bytes(11));
    // Queue everything above slot 9 for rollback, then overflow the cap.
    let batch = b.enqueue_rollback_batch(&point(9));
    assert_eq!(batch.len(), 2);
    b.insert_block(&point(12), &block_bytes(12));
    b.insert_block(&point(13), &block_bytes(13));
    // The queued blocks at slots 10 and 11 must survive; the unqueued
    // block at slot 12 was the eviction victim.
    assert_eq!(b.get_block_at_point(&point(10)), Some(block_bytes(10)));
    assert_eq!(b.get_block_at_point(&point(11)), Some(block_bytes(11)));
}

#[test]
fn rollback_batch_is_descending_and_pops_in_order() {
    // Blocks 10..=15 buffered and already drained downstream; a rollback
    // to slot 12 replays 15, 14, 13 in that order.
    let mut b = BufferBlocks::with_cap(100);
    for slot in 10..=15u64 {
        b.insert_block(&point(slot), &block_bytes(slot));
    }
    let batch = b.enqueue_rollback_batch(&point(12));
    assert_eq!(batch, vec![block_bytes(15), block_bytes(14), block_bytes(13)]);
    assert_eq!(b.rollback_queue_len(), 3);
    assert_eq!(b.rollback_pop(), Some(block_bytes(15)));
    assert_eq!(b.rollback_pop(), Some(block_bytes(14)));
    assert_eq!(b.rollback_pop(), Some(block_bytes(13)));
    assert_eq!(b.rollback_pop(), None);
    // The replayed blocks have left the buffer; the target has not.
    assert_eq!(b.get_block_at_point(&point(15)), None);
    assert_eq!(b.get_block_at_point(&point(12)), Some(block_bytes(12)));
}

#[test]
fn buffer_open_db_is_empty() {
    let b = BufferBlocks::open_db(BlockConfig::default());
    assert_eq!(b.get_block_at_point(&point(1)), None);
    assert_eq!(b.rollback_queue_len(), 0);
}

#[test]
fn rollback_data_round_trip() {
    let mut r = RollbackData::open_db(Config::default());
    r.insert_block(&point(5), &block_bytes(5));
    r.insert_block(&point(7), &block_bytes(7));
    r.insert_block(&point(9), &block_bytes(9));
    assert_eq!(r.get_block_at_point(&point(7)), Some(block_bytes(7)));
    assert_eq!(r.get_block_at_point(&point(8)), None);
    assert_eq!(r.close(), 3);
}

#[test]
fn rollback_range_returns_blocks_above_target() {
    // Strictly above the target, highest slot first, with the last block
    // still valid below it alongside.
    let mut r = RollbackData::open_db(Config::default());
    for slot in [5u64, 7, 9, 11] {
        r.insert_block(&point(slot), &block_bytes(slot));
    }
    let (last_valid, blocks) = r.get_rollback_range(&point(7));
    assert_eq!(last_valid, Some(block_bytes(5)));
    assert_eq!(blocks, vec![block_bytes(11), block_bytes(9)]);
    let (none_valid, origin_blocks) = r.get_rollback_range(&Point::Origin);
    assert_eq!(none_valid, None);
    assert!(origin_blocks.is_empty());
}

#[test]
fn slot_keys_are_big_endian_and_order_numerically() {
    assert_eq!(slot_key(1), vec![0, 0, 0, 0, 0, 0, 0, 1]);
    assert_eq!(slot_key(0x0102030405060708), vec![1, 2, 3, 4, 5, 6, 7, 8]);
    // Lexicographic comparison of the keys follows numeric slot order,
    // which is the point of the fixed-width encoding.
    assert!(slot_key(255) < slot_key(256));
    assert!(slot_key(256) < slot_key(65536));
    assert_eq!(slot_from_key(&slot_key(4492800)), Some(4492800));
    assert_eq!(slot_from_key(&vec![1, 2, 3]), None);
}

#[test]
fn stored_pairs_frame_and_decode_exactly() {
    let framed = encode_pair(1, &vec![0xca, 0xfe]);
    assert_eq!(framed, vec![0x82, 0x01, 0x42, 0xca, 0xfe]);
    assert_eq!(decode_pair(&framed), Some((1, vec![0xca, 0xfe])));
    // A two-byte era marker and an empty body.
    let framed2 = encode_pair(300, &vec![]);
    assert_eq!(framed2, vec![0x82, 0x19, 0x01, 0x2c, 0x40]);
    assert_eq!(decode_pair(&framed2), Some((300, vec![])));
    // Bytes that hold no pair decode to nothing.
    assert_eq!(decode_pair(&vec![0x82, 0x01]), None);
    assert_eq!(decode_pair(&vec![0x00]), None);
    assert_eq!(decode_pair(&vec![]), None);
    // A cursor frames the same way: slot and block hash.
    let cursor = encode_pair(4492800, &vec![0xab; 32]);
    assert_eq!(decode_pair(&cursor), Some((4492800, vec![0xab; 32])));
}
