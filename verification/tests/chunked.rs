use scopehal_fx_bridge::fx3_programmer::{address_fields, ChunkedWrite, MAX_CHUNK};

#[test]
fn chunked_write_splits_at_limit() {
    let mut w = ChunkedWrite::begin(0x1000, 10000);
    assert!(!w.done());
    assert_eq!(w.chunk_len(), MAX_CHUNK);
    w.advance(4096);
    assert_eq!(w.address, 0x1000 + 4096);
    assert_eq!(w.offset, 4096);
    assert_eq!(w.chunk_len(), 4096);
}

#[test]
fn chunked_write_advances_by_actual_counts() {
    // A transfer may report fewer bytes than requested; the address must
    // advance by the reported count, and the counts must sum to the
    // payload length exactly once the write completes.
    let mut w = ChunkedWrite::begin(0x4000_0000, 10000);
    let counts = [4096u32, 1000, 3096, 1808];
    let mut last_address = w.address;
    let mut total: u32 = 0;
    for &c in &counts {
        assert!(!w.done());
        assert!(c <= w.remaining());
        w.advance(c);
        assert_eq!(w.address, last_address + c);
        assert!(w.address > last_address);
        last_address = w.address;
        total += c;
    }
    assert!(w.done());
    assert_eq!(total, 10000);
    assert_eq!(w.offset, 10000);
}

#[test]
fn chunked_write_short_tail() {
    let mut w = ChunkedWrite::begin(0, 4100);
    assert_eq!(w.chunk_len(), 4096);
    w.advance(4096);
    assert_eq!(w.chunk_len(), 4);
    w.advance(4);
    assert!(w.done());
    assert_eq!(w.chunk_len(), 0);
}

#[test]
fn chunked_write_empty_payload() {
    let w = ChunkedWrite::begin(0x200, 0);
    assert!(w.done());
    assert_eq!(w.chunk_len(), 0);
}

#[test]
fn address_fields_split_value_index() {
    assert_eq!(address_fields(0x12345678), (0x5678, 0x1234));
    assert_eq!(address_fields(0x0000ffff), (0xffff, 0x0000));
    assert_eq!(address_fields(0xffff0000), (0x0000, 0xffff));
    assert_eq!(address_fields(0), (0, 0));
}
