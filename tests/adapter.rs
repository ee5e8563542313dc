use mipidsi::adapter::BufferedSpiAdapter;
use mipidsi::bus::BusOp;

fn adapter(capacity: usize) -> BufferedSpiAdapter<()> {
    BufferedSpiAdapter::new((), vec![0u8; capacity])
}

/// Bytes on the wire, in order, for a list of operations.
fn wire_bytes(ops: &[BusOp]) -> Vec<u8> {
    let mut out = Vec::new();
    for op in ops {
        match op {
            BusOp::Write(b) => out.extend_from_slice(b),
            BusOp::WriteRepeated(b, n) => {
                for _ in 0..*n {
                    out.extend_from_slice(b);
                }
            }
            BusOp::SelectCommand | BusOp::SelectData => {}
        }
    }
    out
}

/// Lengths of the transactions, in order.
fn transaction_lengths(ops: &[BusOp]) -> Vec<usize> {
    let mut out = Vec::new();
    for op in ops {
        match op {
            BusOp::Write(b) => out.push(b.len()),
            BusOp::WriteRepeated(b, n) => {
                for _ in 0..*n {
                    out.push(b.len());
                }
            }
            BusOp::SelectCommand | BusOp::SelectData => {}
        }
    }
    out
}

#[test]
fn new_adapter_is_empty() {
    let a = adapter(8);
    assert_eq!(a.cursor(), 0);
    assert_eq!(a.buffer_capacity(), 8);
    assert!(a.pending_copy().is_empty());
}

#[test]
fn push_bytes_splits_into_full_transactions() {
    let mut a = adapter(4);
    let ops = a.push_bytes(&[1, 2, 3, 4, 5, 6, 7, 8, 9, 10]);
    assert_eq!(ops, vec![BusOp::Write(vec![1, 2, 3, 4]), BusOp::Write(vec![5, 6, 7, 8])]);
    assert_eq!(a.pending_copy(), vec![9, 10]);
    assert_eq!(a.cursor(), 2);
}

#[test]
fn push_bytes_exactly_full_stays_pending() {
    let mut a = adapter(4);
    let ops = a.push_bytes(&[1, 2, 3, 4]);
    assert!(ops.is_empty());
    assert_eq!(a.cursor(), 4);
    let ops = a.push_bytes(&[5]);
    assert_eq!(ops, vec![BusOp::Write(vec![1, 2, 3, 4])]);
    assert_eq!(a.pending_copy(), vec![5]);
}

#[test]
fn push_bytes_empty_is_noop() {
    let mut a = adapter(4);
    a.push_bytes(&[7]);
    let ops = a.push_bytes(&[]);
    assert!(ops.is_empty());
    assert_eq!(a.pending_copy(), vec![7]);
}

#[test]
fn flush_sends_pending_once_and_is_idempotent() {
    let mut a = adapter(4);
    a.push_bytes(&[1, 2, 3]);
    assert_eq!(a.flush(), vec![BusOp::Write(vec![1, 2, 3])]);
    assert_eq!(a.cursor(), 0);
    assert!(a.flush().is_empty());
}

#[test]
fn flush_on_empty_buffer_writes_nothing() {
    let mut a = adapter(4);
    assert!(a.flush().is_empty());
}

#[test]
fn push_array_never_splits_an_item() {
    let mut a = adapter(5);
    assert!(a.push_array(&[1, 2]).is_empty());
    assert!(a.push_array(&[1, 2]).is_empty());
    assert_eq!(a.pending_copy(), vec![1, 2, 1, 2]);
    let ops = a.push_array(&[3, 4]);
    assert_eq!(ops, vec![BusOp::Write(vec![1, 2, 1, 2])]);
    assert_eq!(a.pending_copy(), vec![3, 4]);
}

#[test]
fn push_array_filling_buffer_exactly_is_buffered() {
    let mut a = adapter(4);
    assert!(a.push_array(&[1, 2]).is_empty());
    assert!(a.push_array(&[3, 4]).is_empty());
    assert_eq!(a.cursor(), 4);
    assert_eq!(a.push_array(&[5, 6]), vec![BusOp::Write(vec![1, 2, 3, 4])]);
}

#[test]
fn repeated_that_fits_is_only_buffered() {
    let mut a = adapter(8);
    a.push_bytes(&[9]);
    let ops = a.push_bytes_repeated(&[1, 2], 3);
    assert!(ops.is_empty());
    assert_eq!(a.pending_copy(), vec![9, 1, 2, 1, 2, 1, 2]);
}

#[test]
fn repeated_zero_count_is_noop() {
    let mut a = adapter(8);
    a.push_bytes(&[9, 9]);
    assert!(a.push_bytes_repeated(&[1, 2], 0).is_empty());
    assert_eq!(a.pending_copy(), vec![9, 9]);
}

#[test]
fn repeated_end_to_end_scenario() {
    let mut a = adapter(8);
    let ops = a.push_bytes_repeated(&[0xAB, 0xCD], 10);
    assert_eq!(
        ops,
        vec![BusOp::WriteRepeated(vec![0xAB, 0xCD, 0xAB, 0xCD, 0xAB, 0xCD, 0xAB, 0xCD], 2)]
    );
    assert_eq!(transaction_lengths(&ops), vec![8, 8]);
    assert_eq!(a.cursor(), 4);
    assert_eq!(a.pending_copy(), vec![0xAB, 0xCD, 0xAB, 0xCD]);
}

#[test]
fn repeated_exact_multiple_leaves_nothing_pending() {
    let mut a = adapter(8);
    a.push_bytes(&[9]);
    let ops = a.push_bytes_repeated(&[1, 2], 8);
    assert_eq!(
        ops,
        vec![
            BusOp::Write(vec![9]),
            BusOp::WriteRepeated(vec![1, 2, 1, 2, 1, 2, 1, 2], 2),
        ]
    );
    assert_eq!(a.cursor(), 0);
}

#[test]
fn repeated_not_fitting_after_pending_flushes_then_buffers() {
    let mut a = adapter(8);
    a.push_bytes(&[9, 9, 9, 9, 9, 9, 9]);
    let ops = a.push_bytes_repeated(&[1, 2], 3);
    assert_eq!(ops, vec![BusOp::Write(vec![9, 9, 9, 9, 9, 9, 9])]);
    assert_eq!(a.pending_copy(), vec![1, 2, 1, 2, 1, 2]);
}

#[test]
fn repeated_large_count_batches_into_full_transactions() {
    let mut a = adapter(8);
    let ops = a.push_bytes_repeated(&[1, 2], 1000);
    assert_eq!(transaction_lengths(&ops).len(), 250);
    assert!(transaction_lengths(&ops).iter().all(|&n| n == 8));
    assert_eq!(a.cursor(), 0);
}

#[test]
fn repeated_pattern_as_wide_as_buffer() {
    let mut a = adapter(3);
    let ops = a.push_bytes_repeated(&[1, 2, 3], 2);
    assert_eq!(ops, vec![BusOp::WriteRepeated(vec![1, 2, 3], 2)]);
    assert_eq!(a.cursor(), 0);
}

#[test]
fn cursor_and_transactions_stay_within_capacity() {
    let mut a = adapter(5);
    let mut ops = Vec::new();
    ops.extend(a.push_bytes(&[1, 2, 3]));
    assert!(a.cursor() <= 5);
    ops.extend(a.push_bytes_repeated(&[4, 5], 7));
    assert!(a.cursor() <= 5);
    ops.extend(a.push_array(&[6, 7, 8]));
    assert!(a.cursor() <= 5);
    ops.extend(a.push_bytes(&[9; 12]));
    assert!(a.cursor() <= 5);
    ops.extend(a.flush());
    assert_eq!(a.cursor(), 0);
    let lengths = transaction_lengths(&ops);
    assert!(!lengths.is_empty());
    assert!(lengths.iter().all(|&n| n > 0 && n <= 5));
}

#[test]
fn bytes_on_the_wire_keep_push_order() {
    let mut a = adapter(5);
    let mut ops = Vec::new();
    let mut pushed: Vec<u8> = Vec::new();
    ops.extend(a.push_bytes(&[1, 2, 3]));
    pushed.extend_from_slice(&[1, 2, 3]);
    ops.extend(a.push_bytes_repeated(&[4, 5], 7));
    for _ in 0..7 {
        pushed.extend_from_slice(&[4, 5]);
    }
    ops.extend(a.push_array(&[6, 7, 8]));
    pushed.extend_from_slice(&[6, 7, 8]);
    ops.extend(a.push_bytes(&[9; 12]));
    pushed.extend_from_slice(&[9; 12]);
    ops.extend(a.flush());
    assert_eq!(wire_bytes(&ops), pushed);
}
