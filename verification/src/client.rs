//! The client's side of a connection: a typed request framed for sending,
//! and the response that comes back decoded.

use crate::codec::{CodecError, Wire};
use crate::protocol::{Command, Status};
use vstd::prelude::*;

verus! {

/// What a response says.
#[derive(Debug)]
pub enum Reply<T> {
    /// The request was carried out, and this is what it gave.
    Done(T),
    /// Nothing was found, or the write changed nothing.
    Empty,
    /// The request failed.
    Failed,
}

/// A frame: the name of a cache, the tag of a command, and the payload.
pub open spec fn framed<T: Wire>(cache: Seq<char>, cmd: Command, payload: T::V) -> Seq<u8> {
    <String as Wire>::wire(cache) + seq![cmd.tag_of()] + T::wire(payload)
}

/// A frame without a payload, as `Keys` is sent.
pub open spec fn framed_bare(cache: Seq<char>, cmd: Command) -> Seq<u8> {
    <String as Wire>::wire(cache) + seq![cmd.tag_of()]
}

/// What the front of `bytes` says as a response whose payload is a `T`.
pub open spec fn replied<T: Wire>(bytes: Seq<u8>) -> Result<(Reply<T::V>, nat), CodecError> {
    match Status::parse(bytes) {
        Err(e) => Err(e),
        Ok(status) => match status.0 {
            Status::Empty => Ok((Reply::Empty, 1nat)),
            Status::Failed => Ok((Reply::Failed, 1nat)),
            Status::Done => match T::parse(bytes.skip(1)) {
                Err(e) => Err(e),
                Ok(p) => Ok((Reply::Done(p.0), 1 + p.1)),
            },
        },
    }
}

/// Frames a request: the name of the cache, the command, the payload.
pub fn request<T: Wire>(cache: &String, cmd: Command, payload: &T) -> (frame: Vec<u8>)
    ensures
        frame@ == framed::<T>(cache@, cmd, payload.deep_view()),
{
    let mut frame: Vec<u8> = Vec::new();
    cache.write(&mut frame);
    cmd.write(&mut frame);
    payload.write(&mut frame);
    frame
}

/// Frames a request that has no payload.
pub fn request_bare(cache: &String, cmd: Command) -> (frame: Vec<u8>)
    ensures
        frame@ == framed_bare(cache@, cmd),
{
    let mut frame: Vec<u8> = Vec::new();
    cache.write(&mut frame);
    cmd.write(&mut frame);
    frame
}

/// Decodes a response whose payload, where it has one, is a `T`. On
/// success also returns how many bytes the response took.
pub fn response<T: Wire>(bytes: &[u8]) -> (r: Result<(Reply<T>, usize), CodecError>)
    ensures
        match replied::<T>(bytes@) {
            Err(e) => r matches Err(x) && x == e,
            Ok(p) => {
                &&& r matches Ok(q)
                &&& q.1 == p.1
                &&& match p.0 {
                    Reply::Done(v) => q.0 matches Reply::Done(x) && x.deep_view() == v,
                    Reply::Empty => q.0 is Empty,
                    Reply::Failed => q.0 is Failed,
                }
            },
        },
{
    assert(bytes@.skip(0) =~= bytes@);
    match Status::read(bytes, 0) {
        Err(e) => Err(e),
        Ok((Status::Empty, used)) => Ok((Reply::Empty, used)),
        Ok((Status::Failed, used)) => Ok((Reply::Failed, used)),
        Ok((Status::Done, at)) => match T::read(bytes, at) {
            Err(e) => Err(e),
            Ok((value, used)) => Ok((Reply::Done(value), used)),
        },
    }
}

/// Decodes the response to a write: a status and nothing more.
pub fn acknowledgement(bytes: &[u8]) -> (r: Result<Status, CodecError>)
    ensures
        match Status::parse(bytes@) {
            Err(e) => r matches Err(x) && x == e,
            Ok(p) => r matches Ok(s) && s == p.0,
        },
{
    assert(bytes@.skip(0) =~= bytes@);
    match Status::read(bytes, 0) {
        Err(e) => Err(e),
        Ok((status, _)) => Ok(status),
    }
}

/// A frame, whatever follows it, is resolved to the command it was framed
/// with and to the position of its payload.
pub proof fn lemma_frame_head<T: Wire>(
    cache: Seq<char>,
    cmd: Command,
    payload: T::V,
    rest: Seq<u8>,
)
    requires
        <String as Wire>::fits(cache),
    ensures
        <(String, u8) as Wire>::parse(framed::<T>(cache, cmd, payload) + rest) == Ok::<
            ((Seq<char>, u8), nat),
            CodecError,
        >(((cache, cmd.tag_of()), <String as Wire>::wire(cache).len() + 1)),
        Command::of_tag(cmd.tag_of()) == Some(cmd),
        (framed::<T>(cache, cmd, payload) + rest).skip(
            (<String as Wire>::wire(cache).len() + 1) as int,
        ) == T::wire(payload) + rest,
{
    let name = <String as Wire>::wire(cache);
    let tail = T::wire(payload) + rest;
    let all = framed::<T>(cache, cmd, payload) + rest;
    assert(all =~= name + seq![cmd.tag_of()] + tail);
    <(String, u8) as Wire>::lemma_round_trip((cache, cmd.tag_of()), tail);
    assert(all.skip((name.len() + 1) as int) =~= tail);
}

/// The response to a read decodes to what the cache answered with: a
/// response made of `Done` and an encoded value is that value.
pub proof fn lemma_reply_round_trip<T: Wire>(v: T::V, rest: Seq<u8>)
    requires
        T::fits(v),
    ensures
        replied::<T>(seq![Status::Done.tag_of()] + T::wire(v) + rest) == Ok::<
            (Reply<T::V>, nat),
            CodecError,
        >((Reply::Done(v), 1 + T::wire(v).len())),
{
    let all = seq![Status::Done.tag_of()] + T::wire(v) + rest;
    assert(all.skip(1) =~= T::wire(v) + rest);
    T::lemma_round_trip(v, rest);
}

} // verus!
