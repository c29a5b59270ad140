use quiche_moq::short_buf::ShortBuf;
use std::io::Cursor;
use std::io::Read;

#[test]
fn zero_copy() {
    let data: [u8; 3] = [1, 2, 3];
    let mut inner = Cursor::new(data);
    let mut sb = ShortBuf::<0>::new();
    let mut read = [0u8; 5];
    let len = sb.chain_read(|b| inner.read(b), &mut read).unwrap();
    assert_eq!(read[..len], data);
    let len = sb.chain_read(|b| inner.read(b), &mut read).unwrap();
    assert_eq!(len, 0);
}

#[test]
fn read_buffer() {
    let data: [u8; 3] = [1, 2, 3];
    let mut inner = Cursor::new(data);
    let mut sb = ShortBuf::<3>::new();
    sb.fill(|b| inner.read(b)).unwrap();
    assert_eq!(sb.buffer(), data);
    let mut read = [0u8; 5];
    let len = sb.chain_read(|b| inner.read(b), &mut read).unwrap();
    assert_eq!(read[..len], data);
    let len = sb.chain_read(|b| inner.read(b), &mut read).unwrap();
    assert_eq!(len, 0);
}

#[test]
fn read_beyond_buffer() {
    let data: [u8; 3] = [1, 2, 3];
    let mut inner = Cursor::new(data);
    let mut sb = ShortBuf::<2>::new();
    sb.fill(|b| inner.read(b)).unwrap();
    assert_eq!(sb.buffer(), &data[..2]);
    let mut read = [0u8; 5];
    let len = sb.chain_read(|b| inner.read(b), &mut read).unwrap();
    assert_eq!(read[..len], data);
    let len = sb.chain_read(|b| inner.read(b), &mut read).unwrap();
    assert_eq!(len, 0);
}

#[test]
fn overfill() {
    let data: [u8; 3] = [1, 2, 3];
    let mut inner = Cursor::new(data);
    let mut sb = ShortBuf::<3>::new();
    sb.fill(|b| inner.read(b)).unwrap();
    assert_eq!(sb.buffer(), &data);
    sb.fill(|b| inner.read(b)).unwrap();
    assert_eq!(sb.buffer(), &data);
}

#[test]
fn consume() {
    let data: [u8; 3] = [1, 2, 3];
    let mut inner = Cursor::new(data);
    let mut sb = ShortBuf::<3>::new();
    sb.fill(|b| inner.read(b)).unwrap();
    assert_eq!(sb.buffer(), &data);
    sb.consume(3);
    let mut read = [0u8; 5];
    let len = sb.chain_read(|b| inner.read(b), &mut read).unwrap();
    assert_eq!(len, 0);
}

#[test]
fn fill_compacts_and_keeps_order() {
    let mut inner = Cursor::new([1u8, 2, 3, 4, 5, 6, 7]);
    let mut sb = ShortBuf::<4>::new();
    assert!(sb.is_empty());
    assert_eq!(sb.remaining_capacity(), 4);
    sb.fill(|b| inner.read(b)).unwrap();
    assert_eq!(sb.buffer(), &[1, 2, 3, 4]);
    assert_eq!(sb.len(), 4);
    assert_eq!(sb.remaining_capacity(), 0);
    sb.consume(3);
    assert_eq!(sb.buffer(), &[4]);
    assert_eq!(sb.remaining_capacity(), 0);
    assert_eq!(sb.compact(), 3);
    assert_eq!(sb.buffer(), &[4]);
    sb.fill(|b| inner.read(b)).unwrap();
    assert_eq!(sb.buffer(), &[4, 5, 6, 7]);
    sb.consume_all();
    assert!(sb.is_empty());
    assert_eq!(sb.len(), 0);
}

#[test]
fn failed_fill_adds_nothing() {
    let mut sb = ShortBuf::<4>::new();
    sb.append(&[9, 8]);
    let r: Result<(), &str> = sb.fill(|b| {
        b[0] = 77;
        Err("no")
    });
    assert_eq!(r, Err("no"));
    assert_eq!(sb.buffer(), &[9, 8]);
    let r: Result<(), &str> = sb.fill_n(|_| Err("no"), 1);
    assert_eq!(r, Err("no"));
    assert_eq!(sb.buffer(), &[9, 8]);
}

#[test]
fn fill_n_and_fill_until_offer_a_part_of_the_room() {
    let mut inner = Cursor::new([1u8, 2, 3, 4, 5, 6, 7, 8]);
    let mut sb = ShortBuf::<8>::new();
    sb.fill_n(|b| inner.read(b), 3).unwrap();
    assert_eq!(sb.buffer(), &[1, 2, 3]);
    sb.fill_until(|b| inner.read(b), 5).unwrap();
    assert_eq!(sb.buffer(), &[1, 2, 3, 4, 5]);
    sb.fill_until(|b| inner.read(b), 2).unwrap();
    assert_eq!(sb.buffer(), &[1, 2, 3, 4, 5]);
    sb.fill_until(|b| inner.read(b), 5).unwrap();
    assert_eq!(sb.buffer(), &[1, 2, 3, 4, 5]);
}

#[test]
fn read_and_chain_read2_take_from_the_front() {
    let mut inner = Cursor::new([6u8, 7]);
    let mut sb = ShortBuf::<4>::new();
    sb.append(&[1, 2, 3]);
    let mut two = [0u8; 2];
    assert_eq!(sb.read(&mut two), 2);
    assert_eq!(two, [1, 2]);
    assert_eq!(sb.buffer(), &[3]);
    let mut four = [0u8; 4];
    let n = sb.chain_read2(|b| inner.read(b), &mut four).unwrap();
    assert_eq!(n, 1);
    assert_eq!(four, [3, 0, 0, 0]);
    let n = sb.chain_read2(|b| inner.read(b), &mut four).unwrap();
    assert_eq!(n, 2);
    assert_eq!(four, [6, 7, 0, 0]);
    assert!(sb.is_empty());
    assert_eq!(sb.read(&mut four), 0);
}

#[test]
fn chain_read_keeps_the_queue_when_the_source_fails() {
    let mut sb = ShortBuf::<4>::new();
    sb.append(&[1, 2]);
    let mut dst = [0u8; 4];
    let r: Result<usize, ()> = sb.chain_read(|_| Err(()), &mut dst);
    assert!(r.is_err());
    assert_eq!(sb.buffer(), &[1, 2]);
    let mut one = [0u8; 1];
    let r: Result<usize, ()> = sb.chain_read(|_| Err(()), &mut one);
    assert_eq!(r, Ok(1));
    assert_eq!(one, [1]);
    assert_eq!(sb.buffer(), &[2]);
}
