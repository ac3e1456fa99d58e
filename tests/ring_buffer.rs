use mycraft::ring_buffer::{RingBuffer, RingBuffer2D};

#[test]
fn test_test_ring_buffer() {
    let data = vec![0, 1, 2, 3, 4, 5, 6, 7];
    let mut ring_buffer = RingBuffer::new(data.clone());

    ring_buffer.rotate_left(3);
    let mut data_clone = data.iter().map(|i| i).collect::<Vec<_>>();
    data_clone.rotate_left(3);

    let ring_buffer_ordered = ring_buffer.index_range(0..-1);

    assert_eq!(ring_buffer_ordered, data_clone);
}

#[test]
fn ring_buffer_test_ring_buffer() {
    let mut count = 0;
    let data = (0..5)
        .map(|_| {
            (0..5)
                .map(|_| {
                    count += 1;
                    count
                })
                .collect::<Vec<_>>()
        })
        .collect::<Vec<_>>();
    count = 0;
    let flattened_data = (0..5)
        .map(|_| {
            (0..5)
                .map(|_| {
                    count += 1;
                    count
                })
                .collect::<Vec<_>>()
        })
        .flatten()
        .collect::<Vec<_>>();

    let buf = RingBuffer2D::new(data);

    let index = (-1, 4);
    let linearized_index = buf.linearize_index(index);
    let recalculated_x = buf.recalculate_index_horizontal(index.0);
    let recalculated_y = buf.recalculate_index_vertical(index.1);
    let recalculated_index = (recalculated_x as i32, recalculated_y as i32);

    let line: Vec<String> = flattened_data.iter().map(|x| format!("{x}")).collect();
    println!("{}", line.join(" "));
    println!("normal: {index:?}, {}", buf.index(index));
    println!("recalculated: {recalculated_index:?}, {}", buf.index(recalculated_index));
    println!("linearized: {linearized_index}, {}", flattened_data[linearized_index]);
    assert_eq!(*buf.index(index), flattened_data[linearized_index]);
}

#[test]
fn index_wraps_with_period_of_capacity() {
    let mut rb = RingBuffer::new(vec![10, 11, 12, 13, 14]);
    rb.rotate_left(2);
    for i in -12..12 {
        assert_eq!(rb.index(i), rb.index(i + 5));
    }
    assert_eq!(*rb.index(0), 12);
    assert_eq!(*rb.index(-1), 11);
    assert_eq!(*rb.index(7), 14);
}

#[test]
fn rotate_left_then_right_restores_order() {
    let data = vec![1, 2, 3, 4, 5, 6, 7];
    for k in [0u32, 1, 3, 7, 9, 100] {
        let mut rb = RingBuffer::new(data.clone());
        rb.rotate_left(k);
        rb.rotate_right(k);
        let ordered: Vec<i32> = rb.index_range(0..-1).into_iter().copied().collect();
        assert_eq!(ordered, data);
    }
}

#[test]
fn rotate_left_moves_origin_forward() {
    let mut rb = RingBuffer::new(vec!['a', 'b', 'c', 'd']);
    rb.rotate_left(1);
    assert_eq!(*rb.index(0), 'b');
    rb.rotate_right(3);
    assert_eq!(*rb.index(0), 'c');
    assert_eq!(rb.len(), 4);
}

#[test]
fn replace_last_then_index_minus_one() {
    let mut rb = RingBuffer::new(vec![1, 2, 3]);
    rb.rotate_right(1);
    rb.replace_last(99);
    assert_eq!(*rb.index(-1), 99);
    rb.replace_first(42);
    assert_eq!(*rb.index(0), 42);
    assert_eq!(rb.into_vec(), vec![42, 1, 99]);
}

#[test]
fn index_range_within_storage() {
    let rb = RingBuffer::new(vec![0, 1, 2, 3, 4, 5]);
    let part: Vec<i32> = rb.index_range(1..3).into_iter().copied().collect();
    assert_eq!(part, vec![1, 2, 3]);
}

fn grid_3x4() -> RingBuffer2D<i32> {
    RingBuffer2D::new(vec![vec![0, 1, 2, 3], vec![10, 11, 12, 13], vec![20, 21, 22, 23]])
}

#[test]
fn grid_rotations_shift_logical_view() {
    let mut g = grid_3x4();
    g.rotate_left(1);
    assert_eq!(*g.index((0, 0)), 10);
    assert_eq!(*g.index((2, 1)), 1);
    g.rotate_down(1);
    assert_eq!(*g.index((0, 0)), 11);
    assert_eq!(*g.index((0, 3)), 10);
    g.rotate_up(2);
    assert_eq!(*g.index((0, 0)), 13);
    g.rotate_right(1);
    assert_eq!(*g.index((0, 0)), 3);
    assert_eq!(g.len(), 3);
}

#[test]
fn linearize_index_follows_storage() {
    let mut g = grid_3x4();
    assert_eq!(g.linearize_index((1, 2)), 6);
    g.rotate_left(1);
    assert_eq!(g.linearize_index((0, 2)), 6);
    assert_eq!(g.linearize_index((-1, 0)), 0);
    g.rotate_down(3);
    assert_eq!(g.linearize_index((0, 0)), 7);
    assert_eq!(g.recalculate_index_vertical(-1), 2);
    assert_eq!(g.recalculate_index_horizontal(-1), 0);
}

#[test]
fn grid_rows_and_flatten() {
    let mut g = grid_3x4();
    assert_eq!(g.index_horizontal(1), vec![1, 11, 21]);
    g.mut_index_horizontal(-1, &[7, 8, 9]);
    assert_eq!(g.index_horizontal(3), vec![7, 8, 9]);
    g.rotate_left(2);
    assert_eq!(g.flatten(), vec![20, 21, 22, 9, 0, 1, 2, 7, 10, 11, 12, 8]);
}

#[test]
fn grid_replace_columns() {
    let mut g = grid_3x4();
    g.rotate_down(1);
    g.replace_first(RingBuffer::new(vec![5, 6, 7, 8]));
    assert_eq!(*g.index((0, 0)), 5);
    assert_eq!(*g.index((0, 3)), 8);
    g.replace_last(RingBuffer::new(vec![40, 41, 42, 43]));
    assert_eq!(g.index_horizontal(0), vec![5, 11, 40]);
    g.set((1, 1), -1);
    assert_eq!(*g.index((1, 1)), -1);
    assert_eq!(*g.index((1, 5)), -1);
}

#[test]
fn create_full_fills_every_cell() {
    let g = RingBuffer2D::create_full(3u8, 2, 4);
    assert_eq!(g.flatten(), vec![3u8; 8]);
    assert_eq!(g.len(), 4);
}
