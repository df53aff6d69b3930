use bomber_lib::buffer::{layout, LayoutError, SharedBuffer, Span};

#[test]
fn arguments_are_laid_out_one_behind_the_other() {
    let buffer = SharedBuffer { address: 1000, capacity: 100 };
    assert_eq!(
        layout(buffer, 65536, &vec![10, 0, 30]),
        Ok(vec![
            Span { address: 1000, length: 10 },
            Span { address: 1010, length: 0 },
            Span { address: 1010, length: 30 },
        ])
    );
    assert_eq!(layout(buffer, 65536, &vec![]), Ok(vec![]));
    assert_eq!(layout(buffer, 65536, &vec![100]), Ok(vec![Span { address: 1000, length: 100 }]));
}

#[test]
fn arguments_beyond_the_capacity_are_refused() {
    let buffer = SharedBuffer { address: 1000, capacity: 100 };
    assert_eq!(layout(buffer, 65536, &vec![101]), Err(LayoutError::BufferTooSmall));
    assert_eq!(layout(buffer, 65536, &vec![50, 50, 1]), Err(LayoutError::BufferTooSmall));
    assert_eq!(layout(buffer, 65536, &vec![usize::MAX, usize::MAX]), Err(LayoutError::BufferTooSmall));
    let none = SharedBuffer { address: 1000, capacity: 0 };
    assert_eq!(layout(none, 65536, &vec![0, 0]).map(|spans| spans.len()), Ok(2));
    assert_eq!(layout(none, 65536, &vec![1]), Err(LayoutError::BufferTooSmall));
}

#[test]
fn a_buffer_that_does_not_lie_in_memory_is_refused() {
    let buffer = SharedBuffer { address: 1000, capacity: 100 };
    assert_eq!(layout(buffer, 1050, &vec![51]), Err(LayoutError::OutOfBounds));
    assert_eq!(layout(buffer, 1050, &vec![50]).map(|spans| spans.len()), Ok(1));
    // Too much for the buffer is told before too much for the memory.
    assert_eq!(layout(buffer, 1050, &vec![101]), Err(LayoutError::BufferTooSmall));
    let far = SharedBuffer { address: u32::MAX, capacity: u32::MAX };
    assert_eq!(layout(far, 65536, &vec![]), Err(LayoutError::OutOfBounds));
    assert_eq!(layout(far, usize::MAX, &vec![7]).map(|spans| spans[0]), Ok(Span {
        address: u32::MAX as u64,
        length: 7,
    }));
}
