use ring_storage::{RBError, ReaderId, RingBufferStorage, StorageIterator};
use std::any::TypeId;

#[derive(Debug, Clone, PartialEq)]
struct Test {
    pub id: u32,
}

#[derive(Debug, Clone, PartialEq)]
struct Test2 {
    pub id: u32,
}

fn events(n: u32) -> Vec<Test> {
    (0..n).map(|i| Test { id: i }).collect::<Vec<_>>()
}

fn drain<T: Clone>(mut it: StorageIterator<T>) -> Vec<T> {
    let mut out: Vec<T> = Vec::new();
    while let Some(x) = it.next() {
        out.push(x.clone());
    }
    out
}

#[test]
fn test_empty_write() {
    let mut buffer = RingBufferStorage::<Test>::new(10);
    let r = buffer.write(&mut vec![]);
    assert!(r.is_ok());
}

#[test]
fn test_too_large_write() {
    let mut buffer = RingBufferStorage::<Test>::new(10);
    let r = buffer.write(&mut events(15));
    assert!(r.is_err());
    match r {
        Err(e) => assert!(RBError::TooLargeWrite == e),
        Ok(_) => panic!(),
    }
}

#[test]
fn test_invalid_reader() {
    let buffer = RingBufferStorage::<Test>::new(10);
    let mut reader_id = ReaderId::new(TypeId::of::<Test2>(), 4, 0, 0);
    let r = buffer.read(&mut reader_id);
    assert!(r.is_err());
    match r {
        Err(RBError::InvalidReader) => (),
        _ => panic!(),
    }
}

#[test]
fn test_empty_read() {
    let mut buffer = RingBufferStorage::<Test>::new(10);
    let mut reader_id = buffer.new_reader_id();
    let got = match buffer.read(&mut reader_id) {
        Ok(it) => drain(it),
        Err(_) => panic!(),
    };
    assert_eq!(Vec::<Test>::default(), got);
}

#[test]
fn test_empty_read_write_before_id() {
    let mut buffer = RingBufferStorage::<Test>::new(10);
    assert!(matches!(buffer.write(&mut events(2)), Ok(())));
    let mut reader_id = buffer.new_reader_id();
    let got = match buffer.read(&mut reader_id) {
        Ok(it) => drain(it),
        Err(_) => panic!(),
    };
    assert_eq!(Vec::<Test>::default(), got);
}

#[test]
fn test_read() {
    let mut buffer = RingBufferStorage::<Test>::new(10);
    let mut reader_id = buffer.new_reader_id();
    assert!(matches!(buffer.write(&mut events(2)), Ok(())));
    let got = match buffer.read(&mut reader_id) {
        Ok(it) => drain(it),
        Err(_) => panic!(),
    };
    assert_eq!(vec![Test { id: 0 }, Test { id: 1 }], got);
}

#[test]
fn test_write_overflow() {
    let mut buffer = RingBufferStorage::<Test>::new(3);
    let mut reader_id = buffer.new_reader_id();
    assert!(matches!(buffer.write(&mut events(2)), Ok(())));
    assert!(matches!(buffer.write(&mut events(2)), Ok(())));
    let r = buffer.read(&mut reader_id);
    assert!(r.is_err());
    let (has_lost_data, lost_data, lost_size) = match r {
        Err(RBError::LostData(d, s)) => (true, drain(d), s),
        _ => (false, vec![], 0),
    };
    assert!(has_lost_data);
    // we wrote 4 data points into a buffer of size 3, that means we've lost 1 data point
    assert_eq!(1, lost_size);
    // we wrote 0,1,0,1, we will be able to salvage the last 3 data points, since the buffer is
    // of size 3
    assert_eq!(
        vec![Test { id: 1 }, Test { id: 0 }, Test { id: 1 }],
        lost_data
    );
}

// Writes before a reader's creation stay invisible; writes after it are read
// back exactly, in order.
#[test]
fn test_no_retroactive_then_exact_read() {
    let mut buffer = RingBufferStorage::<Test>::new(10);
    assert!(matches!(buffer.write(&mut events(2)), Ok(())));
    let mut reader_id = buffer.new_reader_id();
    let first = match buffer.read(&mut reader_id) {
        Ok(it) => drain(it),
        Err(_) => panic!(),
    };
    assert_eq!(Vec::<Test>::default(), first);
    assert!(matches!(buffer.write(&mut events(2)), Ok(())));
    let second = match buffer.read(&mut reader_id) {
        Ok(it) => drain(it),
        Err(_) => panic!(),
    };
    assert_eq!(vec![Test { id: 0 }, Test { id: 1 }], second);
}

// Reading twice in a row with no intervening write returns an empty sequence
// both times.
#[test]
fn test_double_read_empty() {
    let mut buffer = RingBufferStorage::<Test>::new(10);
    let mut reader_id = buffer.new_reader_id();
    assert!(matches!(buffer.write(&mut events(3)), Ok(())));
    let got = match buffer.read(&mut reader_id) {
        Ok(it) => drain(it),
        Err(_) => panic!(),
    };
    assert_eq!(3, got.len());
    for _ in 0..2 {
        let empty = match buffer.read(&mut reader_id) {
            Ok(it) => drain(it),
            Err(_) => panic!(),
        };
        assert_eq!(Vec::<Test>::default(), empty);
    }
}

// Exactly one full cycle of writes since the last read: the cursors coincide
// but nothing was lost, and the whole buffer is returned.
#[test]
fn test_full_cycle_read() {
    let mut buffer = RingBufferStorage::<Test>::new(3);
    let mut reader_id = buffer.new_reader_id();
    assert!(matches!(buffer.write(&mut events(3)), Ok(())));
    let got = match buffer.read(&mut reader_id) {
        Ok(it) => drain(it),
        Err(_) => panic!(),
    };
    assert_eq!(vec![Test { id: 0 }, Test { id: 1 }, Test { id: 2 }], got);
}

// An unread range that wraps past the end of the backing storage comes back
// in chronological order.
#[test]
fn test_wrapping_read() {
    let mut buffer = RingBufferStorage::<Test>::new(5);
    let mut reader_id = buffer.new_reader_id();
    assert!(matches!(buffer.write(&mut events(4)), Ok(())));
    let first = match buffer.read(&mut reader_id) {
        Ok(it) => drain(it),
        Err(_) => panic!(),
    };
    assert_eq!(4, first.len());
    let mut late = vec![Test { id: 4 }, Test { id: 5 }, Test { id: 6 }];
    assert!(matches!(buffer.write(&mut late), Ok(())));
    assert!(late.is_empty());
    let second = match buffer.read(&mut reader_id) {
        Ok(it) => drain(it),
        Err(_) => panic!(),
    };
    assert_eq!(vec![Test { id: 4 }, Test { id: 5 }, Test { id: 6 }], second);
}

// A rejected oversized batch is a no-op: the next read still sees exactly
// what was written before the failed call, nothing more.
#[test]
fn test_too_large_write_is_noop() {
    let mut buffer = RingBufferStorage::<Test>::new(3);
    let mut reader_id = buffer.new_reader_id();
    assert!(matches!(buffer.write(&mut events(2)), Ok(())));
    let mut oversized = events(4);
    match buffer.write(&mut oversized) {
        Err(e) => assert!(RBError::TooLargeWrite == e),
        Ok(_) => panic!(),
    }
    // the rejected batch was not drained
    assert_eq!(4, oversized.len());
    let got = match buffer.read(&mut reader_id) {
        Ok(it) => drain(it),
        Err(_) => panic!(),
    };
    assert_eq!(vec![Test { id: 0 }, Test { id: 1 }], got);
}

// A handle minted by a buffer of another element type is rejected with
// InvalidReader, whatever the buffer holds.
#[test]
fn test_reader_from_other_buffer() {
    let mut other = RingBufferStorage::<Test2>::new(4);
    let mut reader_id = other.new_reader_id();
    let mut buffer = RingBufferStorage::<Test>::new(10);
    assert!(matches!(buffer.write(&mut events(2)), Ok(())));
    match buffer.read(&mut reader_id) {
        Err(RBError::InvalidReader) => (),
        _ => panic!(),
    }
    // the right buffer still accepts it
    let got = match other.read(&mut reader_id) {
        Ok(it) => drain(it),
        Err(_) => panic!(),
    };
    assert!(got.is_empty());
}

// Many rounds through the ring: every batch is read back exactly once.
#[test]
fn test_many_cycles() {
    let mut buffer = RingBufferStorage::<Test>::new(2);
    let mut reader_id = buffer.new_reader_id();
    for round in 0..10u32 {
        let mut batch = vec![Test { id: 2 * round }, Test { id: 2 * round + 1 }];
        assert!(matches!(buffer.write(&mut batch), Ok(())));
        let got = match buffer.read(&mut reader_id) {
            Ok(it) => drain(it),
            Err(_) => panic!(),
        };
        assert_eq!(
            vec![Test { id: 2 * round }, Test { id: 2 * round + 1 }],
            got
        );
    }
}

// The iterator hands out values by position as well as front to back.
#[test]
fn test_iterator_len_get_next() {
    let mut buffer = RingBufferStorage::<Test>::new(10);
    let mut reader_id = buffer.new_reader_id();
    assert!(matches!(buffer.write(&mut events(3)), Ok(())));
    let mut it = match buffer.read(&mut reader_id) {
        Ok(it) => it,
        Err(_) => panic!(),
    };
    assert_eq!(3, it.len());
    assert_eq!(&Test { id: 0 }, it.get(0));
    assert_eq!(&Test { id: 2 }, it.get(2));
    assert_eq!(Some(&Test { id: 0 }), it.next());
    assert_eq!(2, it.len());
    assert_eq!(&Test { id: 1 }, it.get(0));
    assert_eq!(Some(&Test { id: 1 }), it.next());
    assert_eq!(Some(&Test { id: 2 }), it.next());
    assert_eq!(None, it.next());
    assert_eq!(0, it.len());
}
