//! End-to-end tests of the random-access stream over a scripted in-memory
//! exchange.

use std::cell::RefCell;
use std::rc::Rc;

use http_file::error::{ErrorType, IoKind};
use http_file::file::File;
use http_file::http_action::{receive_chunk, receive_size};
use http_file::transport::{HttpExchange, RequestHead, ResponseHead};

/// What the scripted server saw and how it must behave.
struct MockState {
    content: Vec<u8>,
    range_fetches: Vec<(u64, u64)>,
    head_probes: usize,
    get_status: Option<u16>,
    bad_range: bool,
    time_budget: Option<usize>,
    fail_exchanges: usize,
    fail_reconnect: Option<IoKind>,
    pending_body: Option<Vec<u8>>,
}

struct MockExchange {
    state: Rc<RefCell<MockState>>,
}

fn new_mock(content: Vec<u8>) -> (MockExchange, Rc<RefCell<MockState>>) {
    let state = Rc::new(RefCell::new(MockState {
        content,
        range_fetches: Vec::new(),
        head_probes: 0,
        get_status: None,
        bad_range: false,
        time_budget: None,
        fail_exchanges: 0,
        fail_reconnect: None,
        pending_body: None,
    }));
    (MockExchange { state: state.clone() }, state)
}

impl HttpExchange for MockExchange {
    fn begin(&mut self) {}

    fn time_left(&mut self) -> bool {
        let mut st = self.state.borrow_mut();
        match st.time_budget {
            None => true,
            Some(0) => false,
            Some(n) => {
                st.time_budget = Some(n - 1);
                true
            }
        }
    }

    fn exchange(&mut self, request: &RequestHead) -> Result<ResponseHead, IoKind> {
        let mut st = self.state.borrow_mut();
        if st.fail_exchanges > 0 {
            st.fail_exchanges -= 1;
            return Err(IoKind::ConnectionReset);
        }
        if request.method == "HEAD" {
            st.head_probes += 1;
            let fields = vec![
                ("Accept-Ranges".to_string(), "bytes".to_string()),
                ("Content-Length".to_string(), st.content.len().to_string()),
            ];
            Ok(ResponseHead { status: 200, reason: "OK".to_string(), fields })
        } else {
            let range_value = request
                .fields
                .iter()
                .find(|f| f.0 == "Range")
                .expect("range request without a Range field")
                .1
                .clone();
            let nums = range_value.strip_prefix("bytes=").expect("malformed Range value");
            let mut parts = nums.split('-');
            let a: u64 = parts.next().unwrap().parse().unwrap();
            let b: u64 = parts.next().unwrap().parse().unwrap();
            st.range_fetches.push((a, b));
            let status = st.get_status.unwrap_or(206);
            let announced_end = if st.bad_range { b + 1 } else { b };
            let content_range = format!("bytes {}-{}/{}", a, announced_end, st.content.len());
            st.pending_body = Some(st.content[a as usize..=b as usize].to_vec());
            Ok(ResponseHead {
                status,
                reason: "Partial Content".to_string(),
                fields: vec![("Content-Range".to_string(), content_range)],
            })
        }
    }

    fn read_body(&mut self, length: usize) -> Result<Vec<u8>, IoKind> {
        let mut st = self.state.borrow_mut();
        let body = st.pending_body.take().expect("body read without a pending response");
        assert_eq!(body.len(), length);
        Ok(body)
    }

    fn reconnect(&mut self) -> Result<(), IoKind> {
        match self.state.borrow().fail_reconnect {
            Some(kind) => Err(kind),
            None => Ok(()),
        }
    }
}

fn sample_content(len: usize) -> Vec<u8> {
    (0..len).map(|i| (i % 251) as u8).collect()
}

fn open_small(content: Vec<u8>, chunk_count: usize, chunk_size: usize) -> (
    File<MockExchange>,
    Rc<RefCell<MockState>>,
) {
    let (mock, state) = new_mock(content);
    let mut file = File::open("http://example.test/data/sample%20file.bin", mock)
        .expect("open failed");
    file.adjust_cache_size(chunk_count, chunk_size).expect("cache adjust failed");
    (file, state)
}

#[test]
fn open_probes_size_and_name() {
    let (mock, state) = new_mock(sample_content(1000));
    let file = File::open("http://example.test/data/sample%20file.bin", mock).unwrap();
    assert_eq!(file.size(), 1000);
    assert_eq!(file.name(), "sample file.bin");
    assert_eq!(file.tell(), 0);
    assert_eq!(state.borrow().head_probes, 1);
}

#[test]
fn end_to_end_aligned_read_and_cache_reuse() {
    // a 1000-byte resource, 100-byte chunks, two cache slots: a 150-byte
    // read at offset 50 needs exactly the chunks at 0 and 100, and an
    // identical second read is served from the cache without any fetch
    let content = sample_content(1000);
    let (mut file, state) = open_small(content.clone(), 2, 100);
    let mut buf = vec![0u8; 150];
    let n = file.read_at(&mut buf, 50).unwrap();
    assert_eq!(n, 150);
    assert_eq!(&buf[..], &content[50..200]);
    assert_eq!(state.borrow().range_fetches, vec![(0, 99), (100, 199)]);

    let mut buf2 = vec![0u8; 150];
    let n2 = file.read_at(&mut buf2, 50).unwrap();
    assert_eq!(n2, 150);
    assert_eq!(&buf2[..], &content[50..200]);
    assert_eq!(state.borrow().range_fetches.len(), 2);
}

#[test]
fn cache_is_transparent_cold_and_warm() {
    // the same span read on a cold cache and again on a warm one is
    // byte-identical
    let content = sample_content(1000);
    let (mut file, _state) = open_small(content.clone(), 4, 100);
    let mut cold = vec![0u8; 300];
    let n_cold = file.read_at(&mut cold, 123).unwrap();
    let mut warm = vec![0u8; 300];
    let n_warm = file.read_at(&mut warm, 123).unwrap();
    assert_eq!(n_cold, n_warm);
    assert_eq!(cold, warm);
    assert_eq!(&cold[..], &content[123..423]);
}

#[test]
fn eviction_refetches_after_thrash() {
    // one slot only: alternating chunks evict each other, so a repeat of
    // the first read fetches again — and still returns the same bytes
    let content = sample_content(400);
    let (mut file, state) = open_small(content.clone(), 1, 100);
    let mut buf = vec![0u8; 100];
    file.read_at(&mut buf, 0).unwrap();
    assert_eq!(&buf[..], &content[0..100]);
    file.read_at(&mut buf, 100).unwrap();
    assert_eq!(&buf[..], &content[100..200]);
    file.read_at(&mut buf, 0).unwrap();
    assert_eq!(&buf[..], &content[0..100]);
    assert_eq!(state.borrow().range_fetches, vec![(0, 99), (100, 199), (0, 99)]);
}

#[test]
fn aligned_exact_width_read_fetches_one_chunk() {
    // a read that starts on a chunk boundary and spans exactly one chunk
    // needs exactly one fetch: the chunk count comes from the covered
    // bytes, not from an off-by-one division
    let content = sample_content(1000);
    let (mut file, state) = open_small(content.clone(), 4, 100);
    let mut buf = vec![0u8; 100];
    let n = file.read_at(&mut buf, 100).unwrap();
    assert_eq!(n, 100);
    assert_eq!(&buf[..], &content[100..200]);
    assert_eq!(state.borrow().range_fetches, vec![(100, 199)]);
}

#[test]
fn read_at_end_of_stream_is_empty_and_fetches_nothing() {
    let content = sample_content(300);
    let (mut file, state) = open_small(content, 2, 100);
    let mut buf = vec![5u8; 40];
    let n = file.read_at(&mut buf, 300).unwrap();
    assert_eq!(n, 0);
    assert!(buf.iter().all(|b| *b == 5));
    assert!(state.borrow().range_fetches.is_empty());
}

#[test]
fn short_read_only_at_end_of_stream() {
    // a 1050-byte resource: reading 100 bytes at 1040 returns exactly the
    // 10 bytes before the end, with no error
    let content = sample_content(1050);
    let (mut file, _state) = open_small(content.clone(), 3, 100);
    let mut buf = vec![7u8; 100];
    let n = file.read_at(&mut buf, 1040).unwrap();
    assert_eq!(n, 10);
    assert_eq!(&buf[..10], &content[1040..1050]);
    // the rest of the buffer is untouched
    assert!(buf[10..].iter().all(|b| *b == 7));
}

#[test]
fn sequential_read_advances_position() {
    let content = sample_content(250);
    let (mut file, _state) = open_small(content.clone(), 2, 100);
    let mut buf = vec![0u8; 120];
    let n1 = file.read(&mut buf).unwrap();
    assert_eq!(n1, 120);
    assert_eq!(file.tell(), 120);
    assert_eq!(&buf[..], &content[0..120]);
    let n2 = file.read(&mut buf).unwrap();
    assert_eq!(n2, 120);
    assert_eq!(file.tell(), 240);
    assert_eq!(&buf[..], &content[120..240]);
    let n3 = file.read(&mut buf).unwrap();
    assert_eq!(n3, 10);
    assert_eq!(file.tell(), 250);
    assert_eq!(&buf[..10], &content[240..250]);
}

#[test]
fn seek_bounds_and_rejection() {
    let content = sample_content(1000);
    let (mut file, _state) = open_small(content, 2, 100);
    file.seek(100, false).unwrap();
    assert_eq!(file.tell(), 100);
    file.seek(-50, true).unwrap();
    assert_eq!(file.tell(), 50);
    // rejected: before 0 — and the position is unchanged
    let e = file.seek(-100, true).unwrap_err();
    assert!(matches!(e.error_type, ErrorType::InvalidParameter));
    assert_eq!(file.tell(), 50);
    // rejected: beyond the end — and the position is unchanged
    let e = file.seek(1001, false).unwrap_err();
    assert!(matches!(e.error_type, ErrorType::InvalidParameter));
    assert_eq!(file.tell(), 50);
    // a relative no-op seek succeeds and moves nothing
    file.seek(0, true).unwrap();
    assert_eq!(file.tell(), 50);
    // seeking exactly to the end is allowed
    file.seek(1000, false).unwrap();
    assert_eq!(file.tell(), 1000);
}

#[test]
fn adjust_cache_size_rejects_degenerate_configuration() {
    let content = sample_content(100);
    let (mock, _state) = new_mock(content);
    let mut file = File::open("http://example.test/x", mock).unwrap();
    let e = file.adjust_cache_size(0, 100).unwrap_err();
    assert!(matches!(e.error_type, ErrorType::InvalidParameter));
    let e = file.adjust_cache_size(4, 0).unwrap_err();
    assert!(matches!(e.error_type, ErrorType::InvalidParameter));
    file.adjust_cache_size(4, 16).unwrap();
}

#[test]
fn wrong_status_is_io_access_error_with_code() {
    // a range fetch answered with 200 instead of 206 fails as an access
    // error whose description carries the status code
    let content = sample_content(300);
    let (mock, state) = new_mock(content);
    state.borrow_mut().get_status = Some(200);
    let mut exchange = mock;
    let r = receive_chunk(&mut exchange, "example.test:80", "/x", 100, 0);
    let e = r.unwrap_err();
    assert!(matches!(e.error_type, ErrorType::IOAccessError));
    assert!(e.description.contains("200"));
}

#[test]
fn mismatched_range_is_invalid_data() {
    // a 206 whose Content-Range announces a different span fails as a
    // data-integrity error
    let content = sample_content(300);
    let (mock, state) = new_mock(content);
    state.borrow_mut().bad_range = true;
    let mut exchange = mock;
    let r = receive_chunk(&mut exchange, "example.test:80", "/x", 100, 0);
    let e = r.unwrap_err();
    assert!(matches!(e.error_type, ErrorType::InvalidData));
}

#[test]
fn exhausted_budget_is_timeout_not_generic_io() {
    // recoverable failures retried until the budget runs out end in a
    // timeout error, not a generic I/O error
    let content = sample_content(300);
    let (mock, state) = new_mock(content);
    {
        let mut st = state.borrow_mut();
        st.fail_exchanges = usize::MAX;
        st.time_budget = Some(3);
    }
    let mut exchange = mock;
    let r = receive_chunk(&mut exchange, "example.test:80", "/x", 100, 0);
    let e = r.unwrap_err();
    assert!(matches!(e.error_type, ErrorType::TimedOut));
}

#[test]
fn recoverable_reconnect_failures_time_out() {
    // transient reconnect failures are retried like any other transient
    // failure, so an endlessly resetting connection ends in a timeout
    let content = sample_content(300);
    let (mock, state) = new_mock(content);
    {
        let mut st = state.borrow_mut();
        st.fail_exchanges = usize::MAX;
        st.fail_reconnect = Some(IoKind::ConnectionReset);
        st.time_budget = Some(4);
    }
    let mut exchange = mock;
    let e = receive_chunk(&mut exchange, "example.test:80", "/x", 100, 0).unwrap_err();
    assert!(matches!(e.error_type, ErrorType::TimedOut));
}

#[test]
fn fatal_reconnect_failure_surfaces_mapped() {
    // a non-recoverable reconnect failure aborts at once with the mapped
    // domain error
    let content = sample_content(300);
    let (mock, state) = new_mock(content);
    {
        let mut st = state.borrow_mut();
        st.fail_exchanges = 1;
        st.fail_reconnect = Some(IoKind::PermissionDenied);
    }
    let mut exchange = mock;
    let e = receive_chunk(&mut exchange, "example.test:80", "/x", 100, 0).unwrap_err();
    assert!(matches!(e.error_type, ErrorType::IOAccessError));
}

#[test]
fn transient_failures_are_retried_to_success() {
    // two connection resets, then a clean exchange: the fetch succeeds
    let content = sample_content(300);
    let (mock, state) = new_mock(content.clone());
    state.borrow_mut().fail_exchanges = 2;
    let mut exchange = mock;
    let d = receive_chunk(&mut exchange, "example.test:80", "/x", 100, 0).unwrap();
    assert_eq!(&d[..], &content[0..100]);
}

#[test]
fn size_probe_reads_content_length() {
    let content = sample_content(12345);
    let (mock, _state) = new_mock(content);
    let mut exchange = mock;
    let size = receive_size(&mut exchange, "example.test:80", "/x").unwrap();
    assert_eq!(size, 12345);
}
