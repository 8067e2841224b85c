use guitar::buffer::Buffer;
use guitar::chunk::{Chunk, NONE};

#[test]
fn commits_take_waiting_lanes_or_start_new_ones() {
    let mut buffer = Buffer::new();
    let first = buffer.update(Chunk::commit(0, 1, NONE));
    assert_eq!((first.lane.index, first.started_lane), (0, true));
    let second = buffer.update(Chunk::commit(1, NONE, NONE));
    assert_eq!((second.lane.index, second.started_lane), (0, false));
    let third = buffer.update(Chunk::commit(5, 6, NONE));
    assert_eq!((third.lane.index, third.started_lane), (1, true));
    assert_eq!(buffer.curr.as_slice(), &[Chunk::commit(1, NONE, NONE), Chunk::commit(5, 6, NONE)][..]);
    // The first logged row is a checkpoint, so a window from it starts with the row after it.
    let history = buffer.window(0, 10);
    assert_eq!(history.len(), 2);
    assert_eq!(history.get(0), Some(&[Chunk::commit(0, 1, NONE)][..]));
    assert_eq!(history.get(1), Some(&[Chunk::commit(1, NONE, NONE)][..]));
    assert_eq!(buffer.window(1, 2).len(), 1);
}

#[test]
fn a_lane_limit_caps_the_lanes() {
    let mut buffer = Buffer::with_lane_limit(2);
    buffer.update(Chunk::commit(0, 10, NONE));
    buffer.update(Chunk::commit(1, 11, NONE));
    let third = buffer.update(Chunk::commit(2, 12, NONE));
    assert!(buffer.curr.len() <= 2);
    assert_eq!((third.lane.index, third.lane.is_flattened), (1, true));
}
