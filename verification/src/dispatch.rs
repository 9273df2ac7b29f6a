//! Command dispatch: one request decoded, carried out against a table, and
//! answered.
//!
//! A request is decoded from the front of a buffer. Where the buffer ends
//! before the request does, the answer is `CodecError::Incomplete` and the
//! table is untouched, so a reader on a stream can wait for more bytes and
//! ask again.

use crate::codec::{CodecError, Wire};
use crate::protocol::{Command, Status};
use crate::record::Record;
use crate::table::{changed_keys, collected, differs, overlay, put, Table};
use vstd::prelude::*;

verus! {

/// What became of one request.
#[derive(Debug)]
pub struct Handled {
    /// How many bytes of the buffer the request took.
    pub used: usize,
    /// The response to send. Empty where the request gets none.
    pub reply: Vec<u8>,
    /// How many entries the request changed. The cache is due to be saved
    /// where this is not zero.
    pub changes: usize,
}

/// The entries of `t` under `keys`, in the order of `keys`, absent keys
/// left out.
pub open spec fn present<R: Record>(t: Map<u32, R::V>, keys: Seq<u32>) -> Seq<(u32, R::V)>
    decreases keys.len(),
{
    if keys.len() == 0 {
        Seq::empty()
    } else if t.contains_key(keys.last()) {
        present::<R>(t, keys.drop_last()).push((keys.last(), t[keys.last()]))
    } else {
        present::<R>(t, keys.drop_last())
    }
}

/// The response to a write that made `n` changes: `Done` where there were
/// any, `Empty` where there were none.
pub open spec fn ack(n: nat) -> Seq<u8> {
    if n > 0 {
        seq![Status::Done.tag_of()]
    } else {
        seq![Status::Empty.tag_of()]
    }
}

/// A failed decode fails the request and changes nothing.
pub open spec fn refused<R: Record>(
    before: Map<u32, R::V>,
    e: CodecError,
    r: Result<Handled, CodecError>,
    after: Map<u32, R::V>,
) -> bool {
    r matches Err(x) && x == e && after == before
}

/// `Get`: the payload is a key. The response is `Done` and the record
/// under the key, or `Empty` where there is none.
pub open spec fn get_answered<R: Record>(
    before: Map<u32, R::V>,
    request: Seq<u8>,
    r: Result<Handled, CodecError>,
    after: Map<u32, R::V>,
) -> bool {
    match u32::parse(request) {
        Err(e) => refused::<R>(before, e, r, after),
        Ok(p) => {
            &&& after == before
            &&& r matches Ok(h)
            &&& h.used == p.1
            &&& h.changes == 0
            &&& h.reply@ == (if before.contains_key(p.0) {
                seq![Status::Done.tag_of()] + R::wire(before[p.0])
            } else {
                seq![Status::Empty.tag_of()]
            })
        },
    }
}

/// `MGet`: the payload is a sequence of keys. The response is `Done` and
/// the entries under those keys that are present, as a mapping.
pub open spec fn mget_answered<R: Record>(
    before: Map<u32, R::V>,
    request: Seq<u8>,
    r: Result<Handled, CodecError>,
    after: Map<u32, R::V>,
) -> bool {
    match <Vec<u32> as Wire>::parse(request) {
        Err(e) => refused::<R>(before, e, r, after),
        Ok(p) => {
            &&& after == before
            &&& r matches Ok(h)
            &&& h.used == p.1
            &&& h.changes == 0
            &&& h.reply@ == seq![Status::Done.tag_of()] + <Vec<(u32, R)> as Wire>::wire(
                present::<R>(before, p.0),
            )
        },
    }
}

/// `SetOne`: the payload is a key and a record. The record is written
/// under the key unless an equal one is there.
pub open spec fn set_answered<R: Record>(
    before: Map<u32, R::V>,
    request: Seq<u8>,
    r: Result<Handled, CodecError>,
    after: Map<u32, R::V>,
) -> bool {
    match <(u32, R) as Wire>::parse(request) {
        Err(e) => refused::<R>(before, e, r, after),
        Ok(p) => {
            let n = if differs::<R>(before, p.0.0, p.0.1) {
                1nat
            } else {
                0nat
            };
            &&& after == put::<R>(before, p.0.0, p.0.1)
            &&& r matches Ok(h)
            &&& h.used == p.1
            &&& h.changes == n
            &&& h.reply@ == ack(n)
        },
    }
}

/// `MSet`: the payload is a mapping. It is laid over the table.
pub open spec fn mset_answered<R: Record>(
    before: Map<u32, R::V>,
    request: Seq<u8>,
    r: Result<Handled, CodecError>,
    after: Map<u32, R::V>,
) -> bool {
    match <Vec<(u32, R)> as Wire>::parse(request) {
        Err(e) => refused::<R>(before, e, r, after),
        Ok(p) => {
            let batch = collected(p.0);
            let n = changed_keys::<R>(before, batch).len();
            &&& after == overlay::<R>(before, batch)
            &&& r matches Ok(h)
            &&& h.used == p.1
            &&& h.changes == n
            &&& h.reply@ == ack(n)
        },
    }
}

/// `Keys`: there is no payload. The response is `Done` and every key once,
/// in no particular order.
pub open spec fn keys_answered<R: Record>(
    before: Map<u32, R::V>,
    r: Result<Handled, CodecError>,
    after: Map<u32, R::V>,
) -> bool {
    &&& after == before
    &&& r matches Ok(h)
    &&& h.used == 0
    &&& h.changes == 0
    &&& h.reply@.len() > 0
    &&& h.reply@[0] == Status::Done.tag_of()
    &&& <Vec<u32> as Wire>::parse(h.reply@.skip(1)) matches Ok(p)
    &&& p.1 + 1 == h.reply@.len()
    &&& p.0.no_duplicates()
    &&& forall|k: u32| p.0.contains(k) <==> before.contains_key(k)
}

/// Any other command is not one a cache answers over a connection: the
/// request is dropped without a response.
pub open spec fn dropped<R: Record>(
    before: Map<u32, R::V>,
    r: Result<Handled, CodecError>,
    after: Map<u32, R::V>,
) -> bool {
    &&& after == before
    &&& r matches Ok(h)
    &&& h.used == 0
    &&& h.changes == 0
    &&& h.reply@.len() == 0
}

/// What `handle` does for each command.
pub open spec fn answered<R: Record>(
    before: Map<u32, R::V>,
    cmd: Command,
    request: Seq<u8>,
    r: Result<Handled, CodecError>,
    after: Map<u32, R::V>,
) -> bool {
    match cmd {
        Command::Get => get_answered::<R>(before, request, r, after),
        Command::MGet => mget_answered::<R>(before, request, r, after),
        Command::SetOne => set_answered::<R>(before, request, r, after),
        Command::MSet => mset_answered::<R>(before, request, r, after),
        Command::Keys => keys_answered::<R>(before, r, after),
        Command::Save => dropped::<R>(before, r, after),
    }
}

/// The response that acknowledges a write of `n` changes.
fn acknowledge(n: usize) -> (reply: Vec<u8>)
    ensures
        reply@ == ack(n as nat),
{
    let mut reply: Vec<u8> = Vec::new();
    if n > 0 {
        reply.push(Status::Done.tag());
    } else {
        reply.push(Status::Empty.tag());
    }
    reply
}

impl<R: Record> Table<R> {
    /// Copies of the entries under `keys`, in the order of `keys`, absent
    /// keys left out.
    pub fn select(&self, keys: &Vec<u32>) -> (found: Vec<(u32, R)>)
        ensures
            found.deep_view() == present::<R>(self@, keys@),
    {
        let mut found: Vec<(u32, R)> = Vec::new();
        let mut i: usize = 0;
        assert(found.deep_view() =~= present::<R>(self@, keys@.take(0)));
        while i < keys.len()
            invariant
                i <= keys@.len(),
                found.deep_view() == present::<R>(self@, keys@.take(i as int)),
            decreases keys@.len() - i,
        {
            let key: u32 = keys[i];
            let ghost done = found.deep_view();
            assert(keys@.take(i + 1).drop_last() =~= keys@.take(i as int));
            assert(keys@.take(i + 1).last() == key);
            match self.get(key) {
                Some(record) => {
                    found.push((key, record));
                    assert(found.deep_view() =~= done.push((key, self@[key])));
                },
                None => {},
            }
            i += 1;
        }
        assert(keys@.take(i as int) =~= keys@);
        found
    }

    /// Answers a request that only reads, without touching the table:
    /// `Get`, `MGet`, `Keys`, and the commands that get no response. There
    /// is no answer for a command that writes; that one is for `handle`.
    pub fn answer(&self, cmd: Command, request: &[u8]) -> (r: Option<Result<Handled, CodecError>>)
        ensures
            r is None <==> (cmd == Command::SetOne || cmd == Command::MSet),
            r matches Some(x) ==> answered::<R>(self@, cmd, request@, x, self@),
    {
        assert(request@.skip(0) =~= request@);
        match cmd {
            Command::Get => {
                match u32::read(request, 0) {
                    Err(e) => Some(Err(e)),
                    Ok((key, used)) => {
                        let mut reply: Vec<u8> = Vec::new();
                        match self.get(key) {
                            Some(record) => {
                                Status::Done.write(&mut reply);
                                record.write(&mut reply);
                            },
                            None => {
                                Status::Empty.write(&mut reply);
                            },
                        }
                        Some(Ok(Handled { used, reply, changes: 0 }))
                    },
                }
            },
            Command::MGet => {
                match <Vec<u32> as Wire>::read(request, 0) {
                    Err(e) => Some(Err(e)),
                    Ok((keys, used)) => {
                        assert(keys.deep_view() =~= keys@);
                        let found = self.select(&keys);
                        let mut reply: Vec<u8> = Vec::new();
                        Status::Done.write(&mut reply);
                        found.write(&mut reply);
                        Some(Ok(Handled { used, reply, changes: 0 }))
                    },
                }
            },
            Command::Keys => {
                let keys = self.keys();
                let mut reply: Vec<u8> = Vec::new();
                Status::Done.write(&mut reply);
                keys.write(&mut reply);
                proof {
                    let s = keys.deep_view();
                    assert(s =~= keys@);
                    <Vec<u32> as Wire>::lemma_round_trip(s, Seq::empty());
                    assert(reply@.skip(1) =~= <Vec<u32> as Wire>::wire(s) + Seq::<u8>::empty());
                }
                Some(Ok(Handled { used: 0, reply, changes: 0 }))
            },
            Command::Save => Some(Ok(Handled { used: 0, reply: Vec::new(), changes: 0 })),
            Command::SetOne => None,
            Command::MSet => None,
        }
    }

    /// Carries out one request: decodes the payload of `cmd` from the
    /// front of `request`, performs the command, and encodes the response.
    pub fn handle(&mut self, cmd: Command, request: &[u8]) -> (r: Result<Handled, CodecError>)
        ensures
            answered::<R>(old(self)@, cmd, request@, r, final(self)@),
    {
        assert(request@.skip(0) =~= request@);
        match cmd {
            Command::SetOne => {
                match <(u32, R) as Wire>::read(request, 0) {
                    Err(e) => Err(e),
                    Ok((pair, used)) => {
                        let changes = self.set(pair.0, pair.1);
                        Ok(Handled { used, reply: acknowledge(changes), changes })
                    },
                }
            },
            Command::MSet => {
                match <Vec<(u32, R)> as Wire>::read(request, 0) {
                    Err(e) => Err(e),
                    Ok((pairs, used)) => {
                        let batch = Table::from_entries(pairs);
                        let changes = self.mset(&batch);
                        Ok(Handled { used, reply: acknowledge(changes), changes })
                    },
                }
            },
            _ => match self.answer(cmd, request) {
                Some(r) => r,
                None => Ok(Handled { used: 0, reply: Vec::new(), changes: 0 }),
            },
        }
    }
}


/// What a connection does once a request has been put to a cache.
#[derive(Debug)]
pub enum Turn {
    /// The request is not all there yet: read more and put it again.
    Wait,
    /// The request is done. `reply` is the response to send, and there is
    /// none to send where it is empty; `save` says whether the cache is
    /// due to be saved first.
    Send { reply: Vec<u8>, save: bool },
}

/// What `settle` makes of an outcome, and what it leaves of the bytes
/// that were read and not yet used.
pub open spec fn settled(
    before: Seq<u8>,
    outcome: Result<Handled, CodecError>,
    turn: Turn,
    after: Seq<u8>,
) -> bool {
    match outcome {
        Err(CodecError::Incomplete) => turn is Wait && after == before,
        Err(CodecError::Invalid) => {
            &&& turn matches Turn::Send { reply, save }
            &&& reply@ == seq![Status::Failed.tag_of()]
            &&& !save
            &&& after.len() == 0
        },
        Ok(h) => {
            &&& turn matches Turn::Send { reply, save }
            &&& reply == h.reply
            &&& save == (h.changes > 0)
            &&& after == (if h.used <= before.len() {
                before.skip(h.used as int)
            } else {
                Seq::empty()
            })
        },
    }
}

/// Settles one request on a connection. `pending` holds the bytes that
/// were read and not yet used, the request at their front. A request
/// that was carried out is taken off them; one that is incomplete is left
/// for more bytes to complete; one that is invalid takes all of them with
/// it, for there is no telling where the next request begins, and is
/// answered with the status `Failed`.
pub fn settle(pending: &mut Vec<u8>, outcome: Result<Handled, CodecError>) -> (turn: Turn)
    ensures
        settled(old(pending)@, outcome, turn, final(pending)@),
{
    match outcome {
        Err(CodecError::Incomplete) => Turn::Wait,
        Err(CodecError::Invalid) => {
            pending.clear();
            let mut reply: Vec<u8> = Vec::new();
            Status::Failed.write(&mut reply);
            Turn::Send { reply, save: false }
        },
        Ok(handled) => {
            if handled.used <= pending.len() {
                let rest = pending.split_off(handled.used);
                *pending = rest;
            } else {
                pending.clear();
            }
            Turn::Send { reply: handled.reply, save: handled.changes > 0 }
        },
    }
}

} // verus!
