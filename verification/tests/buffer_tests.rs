use nanopdf::buffer::{Buffer, BufferReader, BufferWriter};
use nanopdf::error::Error;

// Buffer tests
#[test]
fn test_buffer_new() {
    let b = Buffer::new(100);
    assert_eq!(b.len(), 0);
    assert!(b.is_empty());
    assert!(b.capacity() >= 100);
}

#[test]
fn test_buffer_from_data() {
    let data = vec![1, 2, 3, 4, 5];
    let b = Buffer::from_data(data.clone());
    assert_eq!(b.len(), 5);
    assert!(!b.is_empty());
    assert_eq!(b.as_slice(), &[1, 2, 3, 4, 5]);
}

#[test]
fn test_buffer_from_slice() {
    let data = [1u8, 2, 3, 4, 5];
    let b = Buffer::from_slice(&data);
    assert_eq!(b.as_slice(), &data);
}

#[test]
fn test_buffer_from_base64() {
    let b = Buffer::from_base64("SGVsbG8gV29ybGQ=").unwrap();
    assert_eq!(b.as_str().unwrap(), "Hello World");
}

#[test]
fn test_buffer_from_base64_invalid() {
    let result = Buffer::from_base64("!!!invalid!!!");
    assert!(result.is_err());
}

#[test]
fn test_buffer_from_base64_error_kind() {
    match Buffer::from_base64("!!!invalid!!!") {
        Err(Error::Format(_)) => {}
        _ => panic!("expected a format error"),
    }
}

#[test]
fn test_buffer_as_str() {
    let b = Buffer::from_slice(b"Hello World");
    assert_eq!(b.as_str().unwrap(), "Hello World");
}

#[test]
fn test_buffer_as_str_invalid_utf8() {
    let b = Buffer::from_slice(&[0xFF, 0xFE, 0x00, 0x01]);
    assert!(b.as_str().is_err());
}

#[test]
fn test_buffer_to_vec() {
    let data = vec![1, 2, 3];
    let b = Buffer::from_data(data.clone());
    assert_eq!(b.to_vec(), data);
}

#[test]
fn test_buffer_resize() {
    let mut b = Buffer::from_slice(&[1, 2, 3]);
    b.resize(5);
    assert_eq!(b.len(), 5);
    assert_eq!(b.as_slice(), &[1, 2, 3, 0, 0]);
}

#[test]
fn test_buffer_resize_truncates() {
    let mut b = Buffer::from_slice(&[1, 2, 3, 4]);
    b.resize(2);
    assert_eq!(b.as_slice(), &[1, 2]);
}

#[test]
fn test_buffer_clear() {
    let mut b = Buffer::from_slice(&[1, 2, 3]);
    b.clear();
    assert!(b.is_empty());
}

#[test]
fn test_buffer_append_data() {
    let mut b = Buffer::from_slice(&[1, 2]);
    b.append_data(&[3, 4, 5]);
    assert_eq!(b.as_slice(), &[1, 2, 3, 4, 5]);
}

#[test]
fn test_buffer_append_byte() {
    let mut b = Buffer::new(0);
    b.append_byte(0x42);
    assert_eq!(b.as_slice(), &[0x42]);
}

#[test]
fn test_buffer_append_string() {
    let mut b = Buffer::new(0);
    b.append_string("Hello");
    assert_eq!(b.as_str().unwrap(), "Hello");
}

#[test]
fn test_buffer_to_bytes() {
    let b = Buffer::from_slice(&[1, 2, 3]);
    let bytes = b.to_bytes();
    assert_eq!(&bytes[..], &[1, 2, 3]);
}

#[test]
fn test_buffer_md5_digest() {
    let b = Buffer::from_slice(b"Hello World");
    let digest = b.md5_digest();
    // MD5("Hello World") = b10a8db164e0754105b7a99be72e3fe5
    assert_eq!(digest[0], 0xb1);
    assert_eq!(digest[1], 0x0a);
}

#[test]
fn test_buffer_to_base64() {
    let b = Buffer::from_slice(b"Hello World");
    assert_eq!(b.to_base64(), "SGVsbG8gV29ybGQ=");
}

#[test]
fn test_buffer_base64_round_trip() {
    let b = Buffer::from_slice(&[0, 1, 2, 253, 254, 255]);
    let text = b.to_base64();
    let back = Buffer::from_base64(&text).unwrap();
    assert_eq!(back.as_slice(), &[0, 1, 2, 253, 254, 255]);
}

#[test]
fn test_buffer_default() {
    let b: Buffer = Default::default();
    assert!(b.is_empty());
}

#[test]
fn test_buffer_from_vec() {
    let b: Buffer = vec![1, 2, 3].into();
    assert_eq!(b.as_slice(), &[1, 2, 3]);
}

#[test]
fn test_buffer_from_slice_trait() {
    let data: &[u8] = &[1, 2, 3];
    let b: Buffer = data.into();
    assert_eq!(b.as_slice(), &[1, 2, 3]);
}

#[test]
fn test_buffer_from_str() {
    let b: Buffer = "Hello".into();
    assert_eq!(b.as_str().unwrap(), "Hello");
}

// BufferReader tests
#[test]
fn test_buffer_reader_new() {
    let b = Buffer::from_slice(&[1, 2, 3, 4, 5]);
    let reader = BufferReader::new(b);
    assert_eq!(reader.position(), 0);
    assert_eq!(reader.remaining(), 5);
}

#[test]
fn test_buffer_reader_read() {
    let b = Buffer::from_slice(&[1, 2, 3, 4, 5]);
    let mut reader = BufferReader::new(b);
    let buf = reader.read(3);
    assert_eq!(buf.len(), 3);
    assert_eq!(buf.as_slice(), &[1, 2, 3]);
    assert_eq!(reader.position(), 3);
    assert_eq!(reader.remaining(), 2);
}

#[test]
fn test_buffer_reader_read_all() {
    let b = Buffer::from_slice(&[1, 2, 3]);
    let mut reader = BufferReader::new(b);
    let buf = reader.read(10);
    assert_eq!(buf.len(), 3);
    let buf2 = reader.read(10);
    assert_eq!(buf2.len(), 0);
}

// BufferWriter tests
#[test]
fn test_buffer_writer_new() {
    let writer = BufferWriter::new();
    assert!(writer.buffer().is_empty());
}

#[test]
fn test_buffer_writer_write() {
    let mut writer = BufferWriter::new();
    let n = writer.write(&[1, 2, 3]);
    assert_eq!(n, 3);
    assert_eq!(writer.buffer().as_slice(), &[1, 2, 3]);
}

#[test]
fn test_buffer_writer_into_buffer() {
    let mut writer = BufferWriter::new();
    writer.write(b"Hello");
    let b = writer.into_buffer();
    assert_eq!(b.as_str().unwrap(), "Hello");
}

#[test]
fn test_buffer_writer_default() {
    let writer: BufferWriter = Default::default();
    assert!(writer.buffer().is_empty());
}

#[test]
fn test_buffer_writer_flush() {
    let mut writer = BufferWriter::new();
    // flush should always succeed and do nothing
    assert!(writer.flush().is_ok());
}

// Clone behavior tests
#[test]
fn test_buffer_clone_cow_semantics() {
    let b1 = Buffer::from_slice(&[1, 2, 3]);
    let mut b2 = b1.clone();
    b2.append_byte(4);
    // b1 should be unchanged: the clone owns its own bytes
    assert_eq!(b1.as_slice(), &[1, 2, 3]);
    assert_eq!(b2.as_slice(), &[1, 2, 3, 4]);
}

// Error tests
#[test]
fn test_error_messages() {
    assert_eq!(Error::generic("g").message(), "g");
    assert_eq!(Error::argument("a").message(), "a");
    assert_eq!(Error::limit("l").message(), "l");
    assert_eq!(Error::unsupported("u").message(), "u");
    assert_eq!(Error::format("f").message(), "f");
    assert_eq!(Error::syntax("s").message(), "s");
    assert_eq!(Error::pdf("p").message(), "p");
    assert_eq!(Error::encryption("e").message(), "e");
    assert_eq!(Error::font("fo").message(), "fo");
    assert_eq!(Error::image("i").message(), "i");
    assert_eq!(Error::Eof.message(), "Unexpected end of file");
    assert_eq!(Error::Abort.message(), "Operation aborted");
}

#[test]
fn test_error_variants() {
    assert!(matches!(Error::generic("x"), Error::Generic(_)));
    assert!(matches!(Error::system("x"), Error::System(_)));
    assert!(matches!(Error::argument("x"), Error::Argument(_)));
}
