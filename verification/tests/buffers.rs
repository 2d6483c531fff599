use signalsmith_stretch::frames::gather_block;
use signalsmith_stretch::frames::store_input;
use signalsmith_stretch::locking::lead_channel;
use signalsmith_stretch::locking::lock_reference;
use signalsmith_stretch::locking::neighbourhood;
use signalsmith_stretch::PhaseGrid;
use signalsmith_stretch::Ring;

fn shown(ring: &Ring<f32>) -> Vec<f32> {
    (0..ring.len()).map(|i| ring.get(i)).collect()
}

#[test]
fn new_ring_shows_the_fill() {
    let ring = Ring::new(4, 0.5f32);
    assert_eq!(ring.len(), 4);
    assert_eq!(shown(&ring), vec![0.5, 0.5, 0.5, 0.5]);
}

#[test]
fn push_drops_the_oldest() {
    let mut ring = Ring::new(3, 0.0f32);
    assert_eq!(ring.push(1.0), 0.0);
    assert_eq!(ring.push(2.0), 0.0);
    assert_eq!(shown(&ring), vec![0.0, 1.0, 2.0]);
    assert_eq!(ring.push(3.0), 0.0);
    assert_eq!(ring.push(4.0), 1.0);
    assert_eq!(shown(&ring), vec![2.0, 3.0, 4.0]);
    assert_eq!(ring.push(5.0), 2.0);
    assert_eq!(ring.push(6.0), 3.0);
    assert_eq!(ring.push(7.0), 4.0);
    assert_eq!(shown(&ring), vec![5.0, 6.0, 7.0]);
}

#[test]
fn set_and_get_count_from_the_oldest() {
    let mut ring = Ring::new(4, 0i32);
    for value in 1..=6 {
        ring.push(value);
    }
    assert_eq!(ring.get(0), 3);
    assert_eq!(ring.get(3), 6);
    ring.set(0, 30);
    ring.set(2, 50);
    let all: Vec<i32> = (0..4).map(|i| ring.get(i)).collect();
    assert_eq!(all, vec![30, 4, 50, 6]);
    assert_eq!(ring.push(7), 30);
    let all: Vec<i32> = (0..4).map(|i| ring.get(i)).collect();
    assert_eq!(all, vec![4, 50, 6, 7]);
}

#[test]
fn ring_of_one_item() {
    let mut ring = Ring::new(1, 9u8);
    assert_eq!(ring.get(0), 9);
    assert_eq!(ring.push(8), 9);
    assert_eq!(ring.push(7), 8);
    assert_eq!(ring.get(0), 7);
    ring.set(0, 1);
    assert_eq!(ring.get(0), 1);
}

#[test]
fn fill_overwrites_in_place() {
    let mut ring = Ring::new(3, 0.0f32);
    ring.push(1.0);
    ring.push(2.0);
    ring.fill(-1.0);
    assert_eq!(shown(&ring), vec![-1.0, -1.0, -1.0]);
    ring.push(4.0);
    assert_eq!(shown(&ring), vec![-1.0, -1.0, 4.0]);
}

#[test]
fn overlap_add_through_the_ring() {
    let mut tail = Ring::new(4, 0.0f32);
    let block = [1.0f32, 2.0, 3.0, 4.0];
    let mut out = Vec::new();
    for frame in 0..8usize {
        if frame % 2 == 0 {
            for (i, sample) in block.iter().enumerate() {
                let sum = tail.get(i) + sample;
                tail.set(i, sum);
            }
        }
        out.push(tail.push(0.0));
    }
    assert_eq!(out, vec![1.0, 2.0, 4.0, 6.0, 4.0, 6.0, 4.0, 6.0]);
}

#[test]
fn store_input_takes_one_channel() {
    let input = [1.0f32, -1.0, 2.0, -2.0, 3.0, -3.0];
    let mut left = Ring::new(4, 0.0f32);
    let mut right = Ring::new(4, 0.0f32);
    store_input(&mut left, &input, 2, 0);
    store_input(&mut right, &input, 2, 1);
    assert_eq!(shown(&left), vec![0.0, 1.0, 2.0, 3.0]);
    assert_eq!(shown(&right), vec![0.0, -1.0, -2.0, -3.0]);
}

#[test]
fn store_input_keeps_the_newest_block() {
    let input: Vec<f32> = (1..=10).map(|n| n as f32).collect();
    let mut history = Ring::new(4, 0.0f32);
    store_input(&mut history, &input, 1, 0);
    assert_eq!(shown(&history), vec![7.0, 8.0, 9.0, 10.0]);
    store_input(&mut history, &[], 1, 0);
    assert_eq!(shown(&history), vec![7.0, 8.0, 9.0, 10.0]);
    store_input(&mut history, &[11.0, 12.0, 13.0, 14.0], 1, 0);
    assert_eq!(shown(&history), vec![11.0, 12.0, 13.0, 14.0]);
}

#[test]
fn storing_in_pieces_equals_storing_at_once() {
    let input: Vec<f32> = (1..=23).map(|n| n as f32 * 0.25).collect();
    let mut once = Ring::new(5, 0.0f32);
    store_input(&mut once, &input, 1, 0);
    for cut in 0..=input.len() {
        let mut pieces = Ring::new(5, 0.0f32);
        store_input(&mut pieces, &input[..cut], 1, 0);
        store_input(&mut pieces, &input[cut..], 1, 0);
        assert_eq!(shown(&pieces), shown(&once));
    }
}

#[test]
fn long_pre_roll_replaces_the_history() {
    let pre_roll: Vec<f32> = (1..=9).map(|n| n as f32).collect();
    let mut played = Ring::new(4, 0.0f32);
    store_input(&mut played, &[0.5, 0.25, 0.125, 0.0625, 0.75], 1, 0);
    store_input(&mut played, &pre_roll, 1, 0);
    let mut sought = Ring::new(4, 0.0f32);
    store_input(&mut sought, &[100.0], 1, 0);
    sought.fill(0.0);
    store_input(&mut sought, &pre_roll, 1, 0);
    assert_eq!(shown(&sought), shown(&played));
    assert_eq!(shown(&sought), vec![6.0, 7.0, 8.0, 9.0]);
}

#[test]
fn gather_block_reads_history_then_input() {
    let mut history = Ring::new(4, 0.0f32);
    store_input(&mut history, &[1.0, 2.0, 3.0, 4.0, 5.0], 1, 0);
    let input = [6.0f32, 7.0, 8.0, 9.0, 10.0, 11.0];
    let mut block = vec![99.0f32; 2];
    gather_block(&history, &input, 1, 0, 0, &mut block);
    assert_eq!(block, vec![2.0, 3.0, 4.0, 5.0]);
    gather_block(&history, &input, 1, 0, 1, &mut block);
    assert_eq!(block, vec![3.0, 4.0, 5.0, 6.0]);
    gather_block(&history, &input, 1, 0, 4, &mut block);
    assert_eq!(block, vec![6.0, 7.0, 8.0, 9.0]);
    gather_block(&history, &input, 1, 0, 6, &mut block);
    assert_eq!(block, vec![8.0, 9.0, 10.0, 11.0]);
}

#[test]
fn gather_block_picks_its_channel() {
    let mut left = Ring::new(3, 0.0f32);
    let mut right = Ring::new(3, 0.0f32);
    let earlier = [1.0f32, -1.0, 2.0, -2.0];
    store_input(&mut left, &earlier, 2, 0);
    store_input(&mut right, &earlier, 2, 1);
    let input = [3.0f32, -3.0, 4.0, -4.0, 5.0, -5.0];
    let mut block = Vec::new();
    gather_block(&left, &input, 2, 0, 2, &mut block);
    assert_eq!(block, vec![2.0, 3.0, 4.0]);
    gather_block(&right, &input, 2, 1, 2, &mut block);
    assert_eq!(block, vec![-2.0, -3.0, -4.0]);
    gather_block(&right, &[], 2, 1, 0, &mut block);
    assert_eq!(block, vec![0.0, -1.0, -2.0]);
}

#[test]
fn gathered_blocks_do_not_depend_on_how_the_stream_was_cut() {
    let stream: Vec<f32> = (1..=40).map(|n| n as f32).collect();
    for cut in 0..=30usize {
        let mut history = Ring::new(8, 0.0f32);
        store_input(&mut history, &stream[..cut], 1, 0);
        let input = &stream[cut..];
        let mut block = Vec::new();
        for end in 0..=input.len() {
            gather_block(&history, input, 1, 0, end, &mut block);
            let position = cut + end;
            let wanted: Vec<f32> = (0..8)
                .map(|j| if position + j >= 8 { stream[position + j - 8] } else { 0.0 })
                .collect();
            assert_eq!(block, wanted);
        }
    }
}

#[test]
fn grid_cells_are_independent() {
    let mut grid = PhaseGrid::new(2, 3, 0.0f32);
    assert_eq!(grid.channel_count(), 2);
    assert_eq!(grid.bin_count(), 3);
    let mut value = 1.0f32;
    for channel in 0..2 {
        for bin in 0..3 {
            grid.set(channel, bin, value);
            value += 1.0;
        }
    }
    let mut wanted = 1.0f32;
    for channel in 0..2 {
        for bin in 0..3 {
            assert_eq!(grid.get(channel, bin), wanted);
            wanted += 1.0;
        }
    }
    grid.set(1, 0, -4.0);
    assert_eq!(grid.get(0, 2), 3.0);
    assert_eq!(grid.get(1, 0), -4.0);
    assert_eq!(grid.get(1, 1), 5.0);
}

#[test]
fn grid_fill_resets_every_cell() {
    let mut grid = PhaseGrid::new(3, 2, 7u32);
    grid.set(2, 1, 9);
    grid.set(0, 0, 1);
    grid.fill(0);
    for channel in 0..3 {
        for bin in 0..2 {
            assert_eq!(grid.get(channel, bin), 0);
        }
    }
    assert_eq!(grid.channel_count(), 3);
    assert_eq!(grid.bin_count(), 2);
}

#[test]
fn empty_grid_has_no_cells() {
    let grid = PhaseGrid::new(0, 5, 0.0f32);
    assert_eq!(grid.channel_count(), 0);
    assert_eq!(grid.bin_count(), 5);
}

fn levels_of(rows: &[&[f32]]) -> PhaseGrid<u32> {
    let mut grid = PhaseGrid::new(rows.len(), rows[0].len(), 0u32);
    for (channel, row) in rows.iter().enumerate() {
        for (bin, magnitude) in row.iter().enumerate() {
            grid.set(channel, bin, magnitude.to_bits());
        }
    }
    grid
}

#[test]
fn bins_lock_to_the_strongest_in_reach() {
    let levels = levels_of(&[&[0.1, 0.5, 0.3, 0.5, 0.2]]);
    assert_eq!(lock_reference(&levels, 0, 2, 1), 1);
    assert_eq!(lock_reference(&levels, 0, 4, 1), 3);
    assert_eq!(lock_reference(&levels, 0, 0, 1), 1);
    assert_eq!(lock_reference(&levels, 0, 0, 0), 0);
    assert_eq!(lock_reference(&levels, 0, 2, 0), 2);
    assert_eq!(lock_reference(&levels, 0, 4, 0), 4);
    assert_eq!(lock_reference(&levels, 0, 4, 3), 1);
    assert_eq!(lock_reference(&levels, 0, 3, usize::MAX), 1);
}

#[test]
fn a_peak_is_its_own_reference() {
    let levels = levels_of(&[&[0.0, 0.2, 0.9, 0.2, 0.0, 0.4, 0.1]]);
    assert_eq!(lock_reference(&levels, 0, 2, 2), 2);
    assert_eq!(lock_reference(&levels, 0, 5, 1), 5);
    assert_eq!(lock_reference(&levels, 0, 4, 1), 5);
    assert_eq!(lock_reference(&levels, 0, 4, 2), 2);
}

#[test]
fn silence_locks_to_the_first_bin_in_reach() {
    let levels = levels_of(&[&[0.0, 0.0, 0.0, 0.0]]);
    assert_eq!(lock_reference(&levels, 0, 3, 2), 1);
    assert_eq!(lock_reference(&levels, 0, 1, 5), 0);
}

#[test]
fn locking_reads_the_row_of_its_channel() {
    let levels = levels_of(&[&[0.9, 0.1, 0.1], &[0.1, 0.1, 0.9]]);
    assert_eq!(lock_reference(&levels, 0, 1, 1), 0);
    assert_eq!(lock_reference(&levels, 1, 1, 1), 2);
}

#[test]
fn the_strongest_channel_leads() {
    let levels = levels_of(&[&[0.2, 0.7, 0.3], &[0.6, 0.7, 0.1], &[0.6, 0.1, 0.8]]);
    assert_eq!(lead_channel(&levels, 0), 1);
    assert_eq!(lead_channel(&levels, 1), 0);
    assert_eq!(lead_channel(&levels, 2), 2);
    let mono = levels_of(&[&[0.5, 0.0]]);
    assert_eq!(lead_channel(&mono, 0), 0);
    assert_eq!(lead_channel(&mono, 1), 0);
}

#[test]
fn neighbourhood_stays_inside_the_spectrum() {
    assert_eq!(neighbourhood(5, 2, 10), (3, 8));
    assert_eq!(neighbourhood(0, 2, 10), (0, 3));
    assert_eq!(neighbourhood(1, 2, 10), (0, 4));
    assert_eq!(neighbourhood(9, 2, 10), (7, 10));
    assert_eq!(neighbourhood(7, 2, 10), (5, 10));
    assert_eq!(neighbourhood(4, 0, 10), (4, 5));
    assert_eq!(neighbourhood(4, usize::MAX, 10), (0, 10));
    assert_eq!(neighbourhood(0, 0, 1), (0, 1));
}
