use std::io::{self, Read};

use bytes::Bytes;
use crossbeam_channel::bounded;
use minio::s3::creds::StaticProvider;
use minio::s3::MinioClient;
use minio_xml_validator::storage::download::{
    goes_on_after, message_to_send, open_stream, request_failure, request_object, step_failure,
    ChannelReader, Download, DownloadStep, CHANNEL_BUFFER_CHUNKS,
};

/// The reader as `std::io` knows readers.
struct Adapter(ChannelReader);

impl Read for Adapter {
    fn read(&mut self, buf: &mut [u8]) -> io::Result<usize> {
        self.0.read(buf).map_err(io::Error::other)
    }
}

#[test]
fn channel_reader_single_chunk() {
    let (tx, rx) = bounded(4);
    tx.send(Ok(Bytes::from("hello world"))).unwrap();
    drop(tx);

    let mut reader = Adapter(ChannelReader::new(rx));
    let mut buf = Vec::new();
    reader.read_to_end(&mut buf).unwrap();
    assert_eq!(buf, b"hello world");
}

#[test]
fn channel_reader_multiple_chunks() {
    let (tx, rx) = bounded(4);
    tx.send(Ok(Bytes::from("<root>"))).unwrap();
    tx.send(Ok(Bytes::from("<child/>"))).unwrap();
    tx.send(Ok(Bytes::from("</root>"))).unwrap();
    drop(tx);

    let mut reader = Adapter(ChannelReader::new(rx));
    let mut buf = Vec::new();
    reader.read_to_end(&mut buf).unwrap();
    assert_eq!(buf, b"<root><child/></root>");
}

#[test]
fn channel_reader_empty_channel() {
    let (tx, rx) = bounded(4);
    drop(tx);

    let mut reader = Adapter(ChannelReader::new(rx));
    let mut buf = Vec::new();
    reader.read_to_end(&mut buf).unwrap();
    assert!(buf.is_empty());
}

#[test]
fn channel_reader_propagates_error() {
    let (tx, rx) = bounded(4);
    tx.send(Ok(Bytes::from("partial"))).unwrap();
    tx.send(Err("download failed".to_owned())).unwrap();
    drop(tx);

    let mut reader = Adapter(ChannelReader::new(rx));
    let mut buf = vec![0u8; 1024];

    let n = reader.read(&mut buf).unwrap();
    assert_eq!(&buf[..n], b"partial");

    let err = reader.read(&mut buf).unwrap_err();
    assert_eq!(err.kind(), io::ErrorKind::Other);
    assert!(err.to_string().contains("download failed"));
}

#[test]
fn channel_reader_small_buffer_reads() {
    let (tx, rx) = bounded(4);
    tx.send(Ok(Bytes::from("abcdef"))).unwrap();
    drop(tx);

    let mut reader = ChannelReader::new(rx);
    let mut buf = [0u8; 3];

    let n = reader.read(&mut buf).unwrap();
    assert_eq!(&buf[..n], b"abc");

    let n = reader.read(&mut buf).unwrap();
    assert_eq!(&buf[..n], b"def");

    let n = reader.read(&mut buf).unwrap();
    assert_eq!(n, 0);
}

#[test]
fn read_leaves_the_rest_of_the_buffer() {
    let (tx, rx) = bounded(4);
    tx.send(Ok(Bytes::from("ab"))).unwrap();
    drop(tx);

    let mut reader = ChannelReader::new(rx);
    let mut buf = *b"12345";
    assert_eq!(reader.read(&mut buf), Ok(2));
    assert_eq!(&buf, b"ab345");
}

#[test]
fn empty_chunks_are_passed_over_by_a_read() {
    let (tx, rx) = bounded(4);
    tx.send(Ok(Bytes::new())).unwrap();
    tx.send(Ok(Bytes::new())).unwrap();
    tx.send(Ok(Bytes::from("x"))).unwrap();
    drop(tx);

    let mut reader = ChannelReader::new(rx);
    let mut buf = [0u8; 8];
    assert_eq!(reader.read(&mut buf), Ok(1));
    assert_eq!(buf[0], b'x');
}

#[test]
fn end_of_stream_is_final() {
    let (tx, rx) = bounded(4);
    tx.send(Ok(Bytes::from("x"))).unwrap();
    drop(tx);

    let mut reader = ChannelReader::new(rx);
    let mut buf = [0u8; 8];
    assert_eq!(reader.read(&mut buf), Ok(1));
    for _ in 0..3 {
        assert_eq!(reader.read(&mut buf), Ok(0));
    }
}

#[test]
fn reading_goes_on_after_a_failure() {
    let (tx, rx) = bounded(4);
    tx.send(Err("first".to_owned())).unwrap();
    tx.send(Ok(Bytes::from("x"))).unwrap();
    drop(tx);

    let mut reader = ChannelReader::new(rx);
    let mut buf = [7u8; 2];
    assert_eq!(reader.read(&mut buf), Err("first".to_owned()));
    assert_eq!(buf, [7, 7]);
    assert_eq!(reader.read(&mut buf), Ok(1));
    assert_eq!(buf, [b'x', 7]);
}

#[test]
fn read_without_room_gives_up_the_chunks_before_the_end() {
    let (tx, rx) = bounded(4);
    tx.send(Ok(Bytes::from("ab"))).unwrap();
    tx.send(Ok(Bytes::from("cd"))).unwrap();
    drop(tx);

    let mut reader = ChannelReader::new(rx);
    assert_eq!(reader.read(&mut []), Ok(0));
    let mut buf = [0u8; 8];
    assert_eq!(reader.read(&mut buf), Ok(2));
    assert_eq!(&buf[..2], b"cd");
}

#[test]
fn reads_of_any_size_follow_the_stream() {
    for size in 1..8 {
        let (tx, rx) = bounded(4);
        tx.send(Ok(Bytes::from("abc"))).unwrap();
        tx.send(Ok(Bytes::from("d"))).unwrap();
        tx.send(Ok(Bytes::from("efghi"))).unwrap();
        drop(tx);

        let mut reader = ChannelReader::new(rx);
        let mut all: Vec<u8> = Vec::new();
        let mut buf = vec![0u8; size];
        loop {
            let n = reader.read(&mut buf).unwrap();
            if n == 0 {
                break;
            }
            all.extend_from_slice(&buf[..n]);
        }
        assert_eq!(all, b"abcdefghi");
    }
}

#[test]
fn buffered_bytes_and_received_messages() {
    let (tx, rx) = bounded(4);
    tx.send(Ok(Bytes::from("later"))).unwrap();
    drop(tx);

    let mut reader = ChannelReader::new(rx);
    let mut buf = [0u8; 4];
    assert_eq!(reader.read_buffered(&mut buf), 0);
    assert_eq!(reader.accept(Some(Ok(Bytes::from("abcdef")))), None);
    assert_eq!(reader.read_buffered(&mut buf), 4);
    assert_eq!(&buf, b"abcd");
    assert_eq!(reader.accept(Some(Err("oops".to_owned()))), Some(Err("oops".to_owned())));
    assert_eq!(reader.accept(None), Some(Ok(0)));
    assert_eq!(reader.read(&mut buf), Ok(2));
    assert_eq!(&buf[..2], b"ef");
    assert_eq!(reader.read(&mut buf), Ok(4));
    assert_eq!(&buf, b"late");
}

fn client() -> MinioClient {
    MinioClient::new(
        "http://localhost:9000".parse().unwrap(),
        Some(StaticProvider::new("a", "s", None)),
        None,
        None,
    )
    .unwrap()
}

/// A download whose content is open, and its reader.
fn opened() -> (Download, ChannelReader) {
    let (mut download, reader) = open_stream("bucket", "key.xml");
    assert!(download.request(&client()).is_some());
    assert_eq!(download.advance(Ok("response")), Some("response"));
    assert_eq!(download.advance(Ok("content")), Some("content"));
    assert_eq!(download.advance(Ok("stream")), Some("stream"));
    (download, reader)
}

#[test]
fn stream_has_room_for_sixteen_chunks() {
    assert_eq!(CHANNEL_BUFFER_CHUNKS, 16);
    let (mut download, reader) = opened();
    for _ in 0..CHANNEL_BUFFER_CHUNKS {
        assert!(download.relay_item(Some(Ok(Bytes::from("x")))));
    }
    drop(download);

    let mut text = String::new();
    Adapter(reader).read_to_string(&mut text).unwrap();
    assert_eq!(text, "xxxxxxxxxxxxxxxx");
}

#[test]
fn download_reads_back() {
    let (mut download, reader) = opened();
    assert!(download.relay_item(Some(Ok(Bytes::from("<root>")))));
    assert!(download.relay_item(Some(Ok(Bytes::from("</root>")))));
    assert!(!download.relay_item(None));
    download.finish();
    drop(download);

    let mut text = String::new();
    Adapter(reader).read_to_string(&mut text).unwrap();
    assert_eq!(text, "<root></root>");
}

#[test]
fn empty_chunk_ends_the_download() {
    let (mut download, mut reader) = opened();
    assert!(!download.relay_item(Some(Ok(Bytes::new()))));
    assert!(!download.relay_item(Some(Ok(Bytes::from("late")))));
    drop(download);
    assert_eq!(reader.read(&mut [0u8; 4]), Ok(0));
}

#[test]
fn failure_within_the_content_is_passed_on_and_ends_the_download() {
    let (mut download, mut reader) = opened();
    assert!(download.relay_item(Some(Ok(Bytes::from("ab")))));
    assert!(!download.relay_item(Some(Err("connection reset".to_owned()))));
    download.finish();
    drop(download);
    assert_eq!(reader.read(&mut [0u8; 4]), Ok(2));
    assert_eq!(reader.read(&mut [0u8; 4]), Err("connection reset".to_owned()));
    assert_eq!(reader.read(&mut [0u8; 4]), Ok(0));
}

#[test]
fn download_ends_when_the_reader_is_gone() {
    let (mut download, reader) = opened();
    drop(reader);
    assert!(!download.relay_item(Some(Ok(Bytes::from("x")))));
    download.finish();
}

#[test]
fn rejected_names_are_told_to_the_reader() {
    let (mut download, mut reader) = open_stream("b", "key.xml");
    assert!(download.request(&client()).is_none());
    assert!(download.request(&client()).is_none());
    download.finish();
    drop(download);
    let text = reader.read(&mut [0u8; 4]).unwrap_err();
    assert!(text.starts_with("invalid get_object params: "));
    assert_eq!(reader.read(&mut [0u8; 4]), Ok(0));
}

#[test]
fn failed_step_is_told_to_the_reader_and_nothing_else() {
    let expected = [
        "get_object failed for bucket/key.xml: timeout",
        "failed to get content for bucket/key.xml: timeout",
        "failed to open stream for bucket/key.xml: timeout",
    ];
    for (good, text) in expected.iter().enumerate() {
        let (mut download, mut reader) = open_stream("bucket", "key.xml");
        assert!(download.request(&client()).is_some());
        for _ in 0..good {
            assert_eq!(download.advance(Ok(())), Some(()));
        }
        assert_eq!(download.advance::<()>(Err("timeout".to_owned())), None);
        assert_eq!(download.advance(Ok(())), None);
        assert!(!download.relay_item(Some(Ok(Bytes::from("x")))));
        download.finish();
        download.finish();
        drop(download);
        assert_eq!(reader.read(&mut [0u8; 4]), Err(text.to_string()));
        assert_eq!(reader.read(&mut [0u8; 4]), Ok(0));
    }
}

#[test]
fn content_is_streamed_after_the_last_step_only() {
    let (mut download, mut reader) = open_stream("bucket", "key.xml");
    assert_eq!(download.advance(Ok(())), None);
    assert!(!download.relay_item(Some(Ok(Bytes::from("x")))));
    assert!(download.request(&client()).is_some());
    assert!(!download.relay_item(Some(Ok(Bytes::from("x")))));
    download.finish();
    drop(download);
    assert_eq!(reader.read(&mut [0u8; 4]), Ok(0));
}

#[test]
fn messages_to_send() {
    assert_eq!(message_to_send(None), None);
    assert_eq!(message_to_send(Some(Ok(Bytes::new()))), None);
    assert_eq!(
        message_to_send(Some(Ok(Bytes::from("x")))),
        Some(Ok(Bytes::from("x")))
    );
    assert_eq!(
        message_to_send(Some(Err("e".to_owned()))),
        Some(Err("e".to_owned()))
    );
    assert!(goes_on_after(true, true));
    assert!(!goes_on_after(true, false));
    assert!(!goes_on_after(false, true));
}

#[test]
fn texts_of_failed_steps() {
    assert_eq!(
        step_failure(DownloadStep::Request, "b", "k.xml", "timeout"),
        "get_object failed for b/k.xml: timeout"
    );
    assert_eq!(
        step_failure(DownloadStep::Content, "b", "k.xml", "none"),
        "failed to get content for b/k.xml: none"
    );
    assert_eq!(
        step_failure(DownloadStep::Stream, "b", "k.xml", "io"),
        "failed to open stream for b/k.xml: io"
    );
    assert_eq!(request_failure("bad"), "invalid get_object params: bad");
}

#[test]
fn requests_need_good_names() {
    let client = client();
    assert!(request_object(&client, "bucket", "key.xml").is_ok());

    let error = request_object(&client, "b", "key.xml").unwrap_err();
    assert!(error.starts_with("invalid get_object params: "));
    assert!(error.contains("less than 3 characters"));

    let error = request_object(&client, "bucket", "").unwrap_err();
    assert!(error.starts_with("invalid get_object params: "));
}
