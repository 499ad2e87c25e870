use std::io::{Read, Write};

use hoedown::Buffer;

#[test]
fn test_read_to_end() {
    let buffer = Buffer::from("This is a test");
    let mut destination = Vec::new();

    let mut slice: &[u8] = &buffer;
    slice.read_to_end(&mut destination).unwrap();

    assert_eq!(destination, b"This is a test");
}

#[test]
fn new_buffer_is_empty() {
    let b = Buffer::new(64);
    assert!(b.is_empty());
    assert_eq!(b.len(), 0);
    assert_eq!(b.unit(), 64);
    assert_eq!(b.allocated(), 0);
    assert_eq!(b.as_slice(), b"");
}

#[test]
fn capacity_grows_by_whole_units() {
    let mut b = Buffer::new(64);
    b.put(b"x");
    assert_eq!(b.allocated(), 64);
    b.put(&[0u8; 63]);
    assert_eq!(b.len(), 64);
    assert_eq!(b.allocated(), 64);
    b.putc(b'y');
    assert_eq!(b.len(), 65);
    assert_eq!(b.allocated(), 128);
    b.put(&[1u8; 200]);
    assert_eq!(b.len(), 265);
    assert_eq!(b.allocated(), 320);
}

#[test]
fn zero_unit_grows_by_single_bytes() {
    let mut b = Buffer::new(0);
    b.put(b"abc");
    assert_eq!(b.unit(), 0);
    assert_eq!(b.allocated(), 3);
}

#[test]
fn put_pipe_and_write_append() {
    let mut a = Buffer::new(8);
    a.put(b"one ");
    a.puts("two ");
    let b = Buffer::from("three");
    a.pipe(&b);
    assert_eq!(a.write(b"!").unwrap(), 1);
    a.flush().unwrap();
    assert_eq!(a.to_str().unwrap(), "one two three!");
    assert_eq!(b.to_str().unwrap(), "three");
}

#[test]
fn clone_is_fresh_with_same_unit_and_contents() {
    let mut a = Buffer::new(10);
    a.put(&[7u8; 25]);
    assert_eq!(a.allocated(), 30);
    let mut c = a.clone();
    assert_eq!(c.as_slice(), a.as_slice());
    assert_eq!(c.unit(), 10);
    assert_eq!(c.allocated(), 30);
    c.put(b"more");
    assert_eq!(a.len(), 25);
    assert_eq!(c.len(), 29);
}

#[test]
fn from_bytes_and_from_str_hold_the_bytes() {
    let a = Buffer::from(&b"\x00\x01\x02"[..]);
    assert_eq!(a.as_slice(), &[0u8, 1, 2]);
    assert_eq!(a.unit(), 64);
    let b = Buffer::from("h\u{e9}");
    assert_eq!(b.as_slice(), &[0x68u8, 0xc3, 0xa9]);
}

#[test]
fn to_str_fails_on_bytes_that_are_not_utf8() {
    let bad = Buffer::from(&[0x61u8, 0xff, 0x62][..]);
    assert!(bad.to_str().is_err());
    assert_eq!(bad.to_str().unwrap_err().valid_up_to(), 1);
    assert_eq!(bad.as_slice(), &[0x61u8, 0xff, 0x62]);
    let cut = Buffer::from(&[0xc3u8][..]);
    assert!(cut.to_str().is_err());
    let good = Buffer::from(&[0xe2u8, 0x98, 0x83][..]);
    assert_eq!(good.to_str(), Ok("\u{2603}"));
    let empty = Buffer::new(1);
    assert_eq!(empty.to_str(), Ok(""));
}

#[test]
fn read_copies_from_the_start() {
    let mut b = Buffer::from("abcdef");
    let mut out = [b'.'; 4];
    assert_eq!(b.read(&mut out).unwrap(), 4);
    assert_eq!(&out, b"abcd");
    let mut all = [b'.'; 8];
    assert_eq!(b.read(&mut all).unwrap(), 6);
    assert_eq!(&all, b"abcdef..");
    assert_eq!(b.read(&mut []).unwrap(), 0);
    assert_eq!(b.to_str().unwrap(), "abcdef");
    assert_eq!(Buffer::new(8).read(&mut all).unwrap(), 0);
    assert_eq!(&all, b"abcdef..");
}

#[test]
fn write_all_appends_everything() {
    let mut b = Buffer::new(2);
    b.write_all(b"hello, ").unwrap();
    b.write_all(b"world").unwrap();
    assert_eq!(b.to_str().unwrap(), "hello, world");
    assert_eq!(b.allocated(), 12);
}

#[test]
fn buffer_derefs_to_its_bytes() {
    let buffer = Buffer::from("abc");
    assert_eq!(&buffer[..], b"abc");
    assert_eq!(buffer[1], b'b');
    let bytes: &[u8] = buffer.as_ref();
    assert_eq!(bytes, b"abc");
    assert_eq!(buffer.iter().count(), 3);
}

#[test]
fn buffer_bytes_can_be_overwritten_in_place() {
    let mut buffer = Buffer::from("abc");
    buffer[0] = b'x';
    {
        let bytes: &mut [u8] = buffer.as_mut();
        bytes[2] = b'z';
    }
    assert_eq!(buffer.to_str().unwrap(), "xbz");
    assert_eq!(buffer.len(), 3);
    buffer.puts("!");
    assert_eq!(buffer.to_str().unwrap(), "xbz!");
}
