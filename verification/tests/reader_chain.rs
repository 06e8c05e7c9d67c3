use tiny_http::sequential::ReaderChain;

#[test]
fn slots_read_the_stream_in_order() {
    let mut chain = ReaderChain::new();
    let head = chain.next();
    let body = chain.next();
    chain.feed(b"HEADbodyNEXT");
    // the body slot waits for the head slot
    assert_eq!(chain.read(body, 4), None);
    assert_eq!(chain.read(head, 4).unwrap(), b"HEAD");
    assert_eq!(chain.read(body, 4), None);
    chain.release(head);
    assert_eq!(chain.read(head, 4), None);
    assert_eq!(chain.read(body, 2).unwrap(), b"bo");
    assert_eq!(chain.read(body, 2).unwrap(), b"dy");
    // the bytes of the next request are in the buffer already
    let next = chain.next();
    assert_eq!(chain.read(next, 100), None);
    chain.release(body);
    assert_eq!(chain.read(next, 100).unwrap(), b"NEXT");
    assert_eq!(chain.read(next, 100).unwrap(), b"");
    chain.feed(b"!");
    assert_eq!(chain.read(next, 100).unwrap(), b"!");
}

#[test]
fn released_slots_are_skipped() {
    let mut chain = ReaderChain::new();
    let a = chain.next();
    let b = chain.next();
    let c = chain.next();
    chain.feed(b"xyz");
    // the second slot is dropped before its turn
    chain.release(b);
    assert_eq!(chain.read(c, 1), None);
    chain.release(a);
    assert_eq!(chain.read(c, 1).unwrap(), b"x");
    chain.release(9);
    assert_eq!(chain.read(9, 1), None);
    assert_eq!(chain.read(c, 5).unwrap(), b"yz");
}
