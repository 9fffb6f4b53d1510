use backend::{
    alloc_request, decode_text, decode_words, release_request, AllocError, AllocRequest,
    BoundaryError, Heap, LinearMemory, ReleaseRequest, EMPTY_BLOCK,
};

#[test]
fn decode_text_accepts_utf8() {
    let bytes = "héllo, wörld".as_bytes();
    assert_eq!(decode_text(bytes), Ok("héllo, wörld"));
}

#[test]
fn decode_text_accepts_empty() {
    assert_eq!(decode_text(&[]), Ok(""));
}

#[test]
fn decode_text_rejects_invalid_utf8() {
    assert_eq!(decode_text(&[0x66, 0xff, 0x6f]), Err(BoundaryError::MalformedInput));
    // a lone continuation byte, and an encoded surrogate
    assert_eq!(decode_text(&[0x80]), Err(BoundaryError::MalformedInput));
    assert_eq!(decode_text(&[0xed, 0xa0, 0x80]), Err(BoundaryError::MalformedInput));
}

#[test]
fn decode_words_little_endian() {
    let mut bytes = Vec::new();
    bytes.extend_from_slice(&100u64.to_le_bytes());
    bytes.extend_from_slice(&0x0102030405060708u64.to_le_bytes());
    assert_eq!(decode_words(&bytes), Ok(vec![100, 0x0102030405060708]));
    assert_eq!(decode_words(&[]), Ok(vec![]));
}

#[test]
fn decode_words_rejects_partial_word() {
    assert_eq!(decode_words(&[1, 2, 3]), Err(BoundaryError::MalformedInput));
}

#[test]
fn memory_write_then_read_round_trips() {
    let mut mem = LinearMemory::new(64);
    assert_eq!(mem.size(), 64);
    let text = "is_prime(7)";
    assert_eq!(mem.write(10, text.as_bytes()), Ok(()));
    assert_eq!(mem.read(10, text.len() as u64), Ok(text.as_bytes()));
    assert_eq!(mem.read_text(10, text.len() as u64), Ok(text));
    // bytes around the span are untouched
    assert_eq!(mem.read(0, 10), Ok(&[0u8; 10][..]));
    assert_eq!(mem.read(21, 43), Ok(&[0u8; 43][..]));
}

#[test]
fn memory_rejects_out_of_bounds() {
    let mut mem = LinearMemory::new(16);
    assert_eq!(mem.read(10, 7), Err(BoundaryError::OutOfBounds));
    assert_eq!(mem.read(u64::MAX, 2), Err(BoundaryError::OutOfBounds));
    assert_eq!(mem.read(16, 0), Ok(&[][..]));
    assert_eq!(mem.write(12, &[1, 2, 3, 4, 5]), Err(BoundaryError::OutOfBounds));
    assert_eq!(mem.read(12, 4), Ok(&[0u8; 4][..]));
    assert_eq!(mem.read_text(17, 0), Err(BoundaryError::OutOfBounds));
}

#[test]
fn memory_read_text_rejects_malformed() {
    let mut mem = LinearMemory::new(8);
    assert_eq!(mem.write(0, &[0xc3, 0x28]), Ok(()));
    assert_eq!(mem.read_text(0, 2), Err(BoundaryError::MalformedInput));
}

#[test]
fn memory_read_words() {
    let mut mem = LinearMemory::new(32);
    assert_eq!(mem.write(8, &7u64.to_le_bytes()), Ok(()));
    assert_eq!(mem.write(16, &u64::MAX.to_le_bytes()), Ok(()));
    assert_eq!(mem.read_words(8, 2), Ok(vec![7, u64::MAX]));
    assert_eq!(mem.read_words(8, 4), Err(BoundaryError::OutOfBounds));
    assert_eq!(mem.read_words(0, u64::MAX), Err(BoundaryError::OutOfBounds));
}

#[test]
fn alloc_request_cases() {
    assert_eq!(alloc_request(0), Ok(AllocRequest::Empty));
    assert_eq!(alloc_request(24), Ok(AllocRequest::Block { size: 24 }));
    assert_eq!(alloc_request(u64::MAX), Err(AllocError::LayoutInvalid));
    let largest = (isize::MAX as u64) - (isize::MAX as u64 % 8);
    assert_eq!(alloc_request(largest), Ok(AllocRequest::Block { size: largest as usize }));
    assert_eq!(alloc_request(largest + 1), Err(AllocError::LayoutInvalid));
}

#[test]
fn release_request_cases() {
    assert_eq!(release_request(0, 16), Ok(ReleaseRequest::Skip));
    assert_eq!(release_request(64, 0), Ok(ReleaseRequest::Skip));
    assert_eq!(release_request(64, 16), Ok(ReleaseRequest::Block { addr: 64, size: 16 }));
    assert_eq!(release_request(64, u64::MAX), Err(AllocError::LayoutInvalid));
}

#[test]
fn heap_zero_size_gets_sentinel() {
    let mut heap = Heap::new(16, 256);
    assert_eq!(heap.malloc(0), Ok(EMPTY_BLOCK));
    assert_eq!(EMPTY_BLOCK, 8);
    assert_eq!(heap.high_water(), 16);
    assert_eq!(heap.free(EMPTY_BLOCK, 0), Ok(()));
}

#[test]
fn heap_blocks_are_aligned_and_disjoint() {
    let mut heap = Heap::new(16, 256);
    assert_eq!(heap.malloc(10), Ok(16));
    assert_eq!(heap.malloc(8), Ok(32));
    assert_eq!(heap.malloc(1), Ok(40));
    assert_eq!(heap.high_water(), 48);
}

#[test]
fn heap_reuses_freed_block() {
    let mut heap = Heap::new(16, 256);
    let a = heap.malloc(10).unwrap();
    let b = heap.malloc(100).unwrap();
    let top = heap.high_water();
    assert_eq!(heap.free(a, 10), Ok(()));
    assert_eq!(heap.malloc(12), Ok(a));
    assert_eq!(heap.high_water(), top);
    assert_eq!(heap.free(b, 100), Ok(()));
    assert_eq!(heap.malloc(100), Ok(b));
}

#[test]
fn heap_repeated_cycles_do_not_leak() {
    let mut heap = Heap::new(16, 128);
    let first = heap.malloc(40).unwrap();
    let top = heap.high_water();
    assert_eq!(heap.free(first, 40), Ok(()));
    for _ in 0..1000 {
        let a = heap.malloc(40).unwrap();
        assert_eq!(a, first);
        assert_eq!(heap.free(a, 40), Ok(()));
    }
    assert_eq!(heap.high_water(), top);
}

#[test]
fn heap_out_of_memory() {
    let mut heap = Heap::new(16, 64);
    assert_eq!(heap.malloc(48), Ok(16));
    assert_eq!(heap.malloc(1), Err(AllocError::OutOfMemory));
    assert_eq!(heap.malloc(u64::MAX), Err(AllocError::SizeTooLarge));
}

#[test]
fn heap_refuses_unknown_or_double_free() {
    let mut heap = Heap::new(16, 256);
    let a = heap.malloc(10).unwrap();
    assert_eq!(heap.free(a, 11), Err(AllocError::UnknownBlock));
    assert_eq!(heap.free(a + 8, 10), Err(AllocError::UnknownBlock));
    assert_eq!(heap.free(a, 10), Ok(()));
    assert_eq!(heap.free(a, 10), Err(AllocError::UnknownBlock));
    assert_eq!(heap.free(0, 10), Ok(()));
}
