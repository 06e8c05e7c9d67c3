//! The pipeline of one connection: every request that is read gets the next
//! writer slot, so that the answers go out in the order in which the
//! requests came, whatever the order in which they are given.

use vstd::prelude::*;
use vstd::string::StringSliceAdditionalSpecFns;
use crate::client::{
    ClientConnection, decided, Next, NextView, outcome_view, read_request, ReadError,
};
use crate::date::date_at;
use crate::headers::{header_map_groups, is_header_value, new_map, values_of};
use crate::request::{is_head, Request, RequestView};
use crate::response::{message, PrintError, Response, ResponseView, te_name};
use crate::sequential::{all_closed, joined, lemma_closed_chain_is_in_order, SlotView, WriterChain};
use crate::version::HTTPVersion;

verus! {

/// The bytes of a response as they are sent at the second `now`.
pub open spec fn sent(
    response: ResponseView,
    version: HTTPVersion,
    te_values: Seq<Seq<u8>>,
    do_not_send_body: bool,
    now: u64,
) -> Seq<u8> {
    message(response, version, te_values, do_not_send_body, None, date_at(now))
}

/// The bytes of the answer to a request, as they are sent at the second
/// `now`: the request's version and `TE` header decide the framing, and a
/// `HEAD` request gets no body.
pub open spec fn answer(response: ResponseView, request: RequestView, now: u64) -> Seq<u8> {
    sent(
        response,
        request.http_version,
        values_of(request.headers, te_name()),
        is_head(request.method),
        now,
    )
}

/// The bytes of the answer that switches the connection to `protocol`, as
/// they are sent at the second `now`: nothing where the protocol cannot
/// stand in a header; else the message with the two lines of the switch,
/// without framing and without body.
pub open spec fn switch(
    response: ResponseView,
    request: RequestView,
    protocol: Seq<u8>,
    now: u64,
) -> Seq<u8> {
    if !is_header_value(protocol) {
        Seq::empty()
    } else {
        message(
            response,
            request.http_version,
            values_of(request.headers, te_name()),
            false,
            Some(protocol),
            date_at(now),
        )
    }
}

/// The slots after a decision of the connection: a request that is served
/// gets the next slot, open and empty; a rejection goes into the next slot,
/// which is closed at once; a closed connection gets no slot.
pub open spec fn slots_after(slots: Seq<SlotView>, next: NextView, now: u64) -> Seq<SlotView> {
    match next {
        NextView::Closed => slots,
        NextView::Reject { response, http_version, do_not_send_body } => slots.push(
            SlotView {
                written: sent(response, http_version, Seq::empty(), do_not_send_body, now),
                closed: true,
            },
        ),
        NextView::Serve(_) => slots.push(SlotView { written: Seq::empty(), closed: false }),
    }
}

/// A connection with the writer slots of its answers.
pub struct Pipeline {
    connection: ClientConnection,
    writers: WriterChain,
}

impl Pipeline {
    /// Whether the connection goes through TLS.
    pub closed spec fn is_secure(&self) -> bool {
        self.connection.is_secure()
    }

    /// Whether no more requests are read from the connection.
    pub closed spec fn is_closed(&self) -> bool {
        self.connection.is_closed()
    }

    /// The writer slots: one for every request that was served or rejected,
    /// in the order in which the requests came.
    pub closed spec fn slots(&self) -> Seq<SlotView> {
        self.writers.slots()
    }

    /// The bytes that have gone to the stream.
    pub closed spec fn stream(&self) -> Seq<u8> {
        self.writers.stream()
    }

    /// The bytes that wait to be fetched.
    pub closed spec fn ready(&self) -> Seq<u8> {
        self.writers.ready()
    }

    /// What holds of every pipeline: its writer chain is well formed.
    pub closed spec fn wf(&self) -> bool {
        self.writers.wf()
    }

    /// Once every request is answered, the stream holds the answers one
    /// after the other in the order in which the requests came: as many as
    /// there were requests, none mixed with another, whatever the order in
    /// which they were given.
    pub proof fn lemma_answers_in_request_order(&self)
        requires
            self.wf(),
            all_closed(self.slots()),
        ensures
            self.stream() == joined(self.slots(), self.slots().len() as int),
    {
        self.writers.lemma_stream();
        lemma_closed_chain_is_in_order(self.slots());
    }

    /// The pipeline of a new connection.
    pub fn new(secure: bool) -> (r: Pipeline)
        ensures
            r.wf(),
            r.is_secure() == secure,
            !r.is_closed(),
            r.slots().len() == 0,
            r.stream() == Seq::<u8>::empty(),
    {
        Pipeline { connection: ClientConnection::new(secure), writers: WriterChain::new() }
    }

    /// Whether the connection is closed: the last request was read.
    pub fn no_more_requests(&self) -> (r: bool)
        ensures
            r == self.is_closed(),
    {
        self.connection.no_more_requests()
    }

    /// Reads the head of one request from the front of `source`, as
    /// `ClientConnection::read` does.
    pub fn read(&self, source: &[u8]) -> (r: Result<(Request, usize), ReadError>)
        ensures
            match read_request(self.is_secure(), source@) {
                Ok((request, n)) => r.is_ok() && r.unwrap().0@ == request && r.unwrap().1 == n && n
                    <= source.len(),
                Err(error) => r == Err::<(Request, usize), ReadError>(error),
            },
    {
        self.connection.read(source)
    }

    /// Decides what becomes of the outcome of reading a request, at the
    /// second `now`. A request that is served comes back with the number of
    /// its writer slot, which is the next one. A rejection is written into
    /// the next slot, which is closed at once.
    pub fn decide_at(&mut self, outcome: Result<Request, ReadError>, now: u64) -> (r: Option<
        (Request, usize),
    >)
        requires
            old(self).wf(),
        ensures
            final(self).wf(),
            final(self).is_secure() == old(self).is_secure(),
            final(self).is_closed() == decided(old(self).is_closed(), outcome_view(outcome)).0,
            final(self).slots() == slots_after(
                old(self).slots(),
                decided(old(self).is_closed(), outcome_view(outcome)).1,
                now,
            ),
            match decided(old(self).is_closed(), outcome_view(outcome)).1 {
                NextView::Serve(request) => r.is_some() && r.unwrap().0@ == request && r.unwrap().1
                    == old(self).slots().len(),
                _ => r.is_none(),
            },
    {
        let ghost before = self.writers.slots();
        match self.connection.decide(outcome) {
            Next::Closed => None,
            Next::Reject { response, http_version, do_not_send_body } => {
                let ghost view = response@;
                let mut bytes: Vec<u8> = Vec::new();
                let none = new_map();
                assert(values_of(header_map_groups(none), te_name())
                    == Seq::<Seq<u8>>::empty());
                let _ = response.raw_print_at(
                    &mut bytes,
                    http_version,
                    &none,
                    do_not_send_body,
                    None,
                    now,
                );
                assert(bytes@ == sent(view, http_version, Seq::empty(), do_not_send_body, now));
                let slot = self.writers.next();
                let taken = self.writers.write(slot, bytes.as_slice());
                self.writers.close(slot);
                assert(self.writers.slots() =~= before.push(
                    SlotView { written: bytes@, closed: true },
                ));
                None
            },
            Next::Serve(request) => {
                let slot = self.writers.next();
                Some((request, slot))
            },
        }
    }

    /// Reads the next request from the front of `source`, unless the
    /// connection is closed, and decides what becomes of it, as `decide_at`
    /// does. The second number is the number of bytes that the head of the
    /// request takes.
    pub fn next_at(&mut self, source: &[u8], now: u64) -> (r: (Option<(Request, usize)>, usize))
        requires
            old(self).wf(),
        ensures
            final(self).wf(),
            final(self).is_secure() == old(self).is_secure(),
            old(self).is_closed() ==> final(self).is_closed() && r.0.is_none() && r.1 == 0
                && final(self).slots() == old(self).slots(),
            !old(self).is_closed() ==> ({
                let outcome = match read_request(old(self).is_secure(), source@) {
                    Ok((request, n)) => Ok::<RequestView, ReadError>(request),
                    Err(error) => Err::<RequestView, ReadError>(error),
                };
                &&& final(self).is_closed() == decided(false, outcome).0
                &&& final(self).slots() == slots_after(
                    old(self).slots(),
                    decided(false, outcome).1,
                    now,
                )
                &&& match decided(false, outcome).1 {
                    NextView::Serve(request) => r.0.is_some() && r.0.unwrap().0@ == request
                        && r.0.unwrap().1 == old(self).slots().len(),
                    _ => r.0.is_none(),
                }
                &&& r.1 == match read_request(old(self).is_secure(), source@) {
                    Ok((request, n)) => n,
                    Err(error) => 0,
                }
            }),
    {
        if self.connection.no_more_requests() {
            return (None, 0);
        }
        match self.connection.read(source) {
            Ok((request, n)) => (self.decide_at(Ok(request), now), n),
            Err(error) => (self.decide_at(Err(error), now), 0),
        }
    }

    /// Gives the answer to the request of the slot `slot`, as it is sent at
    /// the second `now`, and closes the slot. The answer waits in its slot
    /// until every request before it is answered. A slot that does not
    /// exist or is closed already takes nothing.
    pub fn respond_at(&mut self, slot: usize, request: Request, response: Response, now: u64) -> (r:
        Result<(), PrintError>)
        requires
            old(self).wf(),
        ensures
            final(self).wf(),
            final(self).is_secure() == old(self).is_secure(),
            final(self).is_closed() == old(self).is_closed(),
            r == Ok::<(), PrintError>(()),
            if slot < old(self).slots().len() && !old(self).slots()[slot as int].closed {
                final(self).slots() == old(self).slots().update(
                    slot as int,
                    SlotView {
                        written: old(self).slots()[slot as int].written + answer(
                            response@,
                            request@,
                            now,
                        ),
                        closed: true,
                    },
                )
            } else {
                final(self).slots() == old(self).slots()
            },
    {
        let ghost before = self.writers.slots();
        let ghost expected = answer(response@, request@, now);
        let mut bytes: Vec<u8> = Vec::new();
        let printed = request.respond_at(response, &mut bytes, now);
        assert(bytes@ == expected);
        assert(printed.is_ok() ==> printed == Ok::<(), PrintError>(())) by {
            if let Ok(unit) = printed {
                assert(unit == ());
            }
        }
        if self.writers.write(slot, bytes.as_slice()) {
            self.writers.close(slot);
            assert(self.writers.slots() =~= before.update(
                slot as int,
                SlotView { written: before[slot as int].written + expected, closed: true },
            ));
        }
        printed
    }

    /// Gives the answer that switches the connection to `protocol`, as it
    /// is sent at the second `now`, and closes the slot `slot`. A protocol
    /// that cannot stand in a header is an error, and nothing is written
    /// then. A slot that does not exist or is closed already takes
    /// nothing.
    pub fn upgrade_at(
        &mut self,
        slot: usize,
        protocol: &str,
        request: Request,
        response: Response,
        now: u64,
    ) -> (r: Result<(), PrintError>)
        requires
            old(self).wf(),
        ensures
            final(self).wf(),
            final(self).is_secure() == old(self).is_secure(),
            final(self).is_closed() == old(self).is_closed(),
            r == if !is_header_value(protocol.spec_bytes()) {
                Err::<(), PrintError>(PrintError::InvalidUpgrade)
            } else {
                Ok::<(), PrintError>(())
            },
            if slot < old(self).slots().len() && !old(self).slots()[slot as int].closed {
                final(self).slots() == old(self).slots().update(
                    slot as int,
                    SlotView {
                        written: old(self).slots()[slot as int].written + switch(
                            response@,
                            request@,
                            protocol.spec_bytes(),
                            now,
                        ),
                        closed: true,
                    },
                )
            } else {
                final(self).slots() == old(self).slots()
            },
    {
        let ghost before = self.writers.slots();
        let ghost expected = switch(response@, request@, protocol.spec_bytes(), now);
        let mut bytes: Vec<u8> = Vec::new();
        let printed = request.upgrade_at(protocol, response, &mut bytes, now);
        assert(bytes@ == expected);
        assert(printed.is_ok() ==> printed == Ok::<(), PrintError>(())) by {
            if let Ok(unit) = printed {
                assert(unit == ());
            }
        }
        if self.writers.write(slot, bytes.as_slice()) {
            self.writers.close(slot);
            assert(self.writers.slots() =~= before.update(
                slot as int,
                SlotView { written: before[slot as int].written + expected, closed: true },
            ));
        }
        printed
    }

    /// Fetches the bytes that have gone to the stream since the last time,
    /// for sending.
    pub fn take_output(&mut self) -> (r: Vec<u8>)
        requires
            old(self).wf(),
        ensures
            final(self).wf(),
            r@ == old(self).ready(),
            final(self).ready() == Seq::<u8>::empty(),
            final(self).slots() == old(self).slots(),
            final(self).stream() == old(self).stream(),
            final(self).is_secure() == old(self).is_secure(),
            final(self).is_closed() == old(self).is_closed(),
    {
        self.writers.take_output()
    }
}

} // verus!
