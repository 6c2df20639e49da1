use mnic_cli::chunk::{split_in_half, Chunk};

#[test]
fn splits_even_size() {
    assert_eq!(
        split_in_half(10),
        [Chunk { start: 0, end: 4 }, Chunk { start: 5, end: 9 },]
    );
}

#[test]
fn puts_extra_byte_in_second_chunk_for_odd_size() {
    assert_eq!(
        split_in_half(11),
        [Chunk { start: 0, end: 4 }, Chunk { start: 5, end: 10 },]
    );
}

#[test]
fn splits_the_smallest_and_the_largest_size() {
    assert_eq!(
        split_in_half(2),
        [Chunk { start: 0, end: 0 }, Chunk { start: 1, end: 1 }]
    );
    let [first, second] = split_in_half(u64::MAX);
    assert_eq!(first.end, u64::MAX / 2 - 1);
    assert_eq!(second, Chunk { start: u64::MAX / 2, end: u64::MAX - 1 });
    assert_eq!(first.len() + second.len(), u64::MAX);
}

#[test]
fn halves_cover_the_resource() {
    let data: Vec<u8> = (0..11).collect();
    let [first, second] = split_in_half(11);
    let mut joined = data[first.start as usize..first.end as usize + 1].to_vec();
    joined.extend_from_slice(&data[second.start as usize..second.end as usize + 1]);
    assert_eq!(joined, data);
    assert_eq!(first.len(), 5);
    assert_eq!(second.len(), 6);
}
