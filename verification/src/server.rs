//! The server's side of a connection: a request frame resolved to the
//! cache it names and the command it carries.
//!
//! A frame is the name of a cache, one action tag, and the payload of the
//! action. A frame that names no cache of the server, or carries a tag that
//! is no command, is answered with the status `Failed`.

use crate::codec::{CodecError, Wire};
use crate::dispatch::Handled;
use crate::protocol::{CncAction, Command, Status};
use vstd::prelude::*;

verus! {

/// A cache that takes commands: it has a name, carries out requests, and
/// reacts to signals.
pub trait Cache {
    /// The name by which requests reach the cache.
    spec fn name_of(&self) -> Seq<char>;

    /// What `handle` does: how the response and the cache after the
    /// request follow from the cache before it.
    spec fn handled(
        before: &Self,
        cmd: Command,
        request: Seq<u8>,
        r: Result<Handled, CodecError>,
        after: &Self,
    ) -> bool;

    fn name(&self) -> (n: String)
        ensures
            n@ == self.name_of(),
    ;

    fn handle(&mut self, cmd: Command, request: &[u8]) -> (r: Result<Handled, CodecError>)
        ensures
            Self::handled(old(self), cmd, request@, r, final(self)),
    ;

    fn cnc_listener(&self, cmd: Command) -> (a: CncAction)
        ensures
            a == (if cmd == Command::Save {
                CncAction::Save
            } else {
                CncAction::Ignore
            }),
    ;
}

/// Where a frame goes.
#[derive(Debug)]
pub enum Route {
    /// To the cache at position `cache`, which is to carry out `cmd` on
    /// the payload that begins at `at`.
    To { cache: usize, cmd: Command, at: usize },
    /// Nowhere. The frame's head took `used` bytes, and `reply` is the
    /// response to send.
    Refused { used: usize, reply: Vec<u8> },
}

/// The position of the first name equal to `name`, or the number of names
/// where there is none.
pub open spec fn named(names: Seq<Seq<char>>, name: Seq<char>) -> int
    decreases names.len(),
{
    if names.len() == 0 {
        0
    } else if names[0] == name {
        0
    } else {
        1 + named(names.drop_first(), name)
    }
}

pub proof fn lemma_named(names: Seq<Seq<char>>, name: Seq<char>)
    ensures
        0 <= named(names, name) <= names.len(),
        named(names, name) < names.len() ==> names[named(names, name)] == name,
        forall|j: int| 0 <= j < named(names, name) ==> #[trigger] names[j] != name,
    decreases names.len(),
{
    if names.len() > 0 && names[0] != name {
        lemma_named(names.drop_first(), name);
        assert forall|j: int| 0 <= j < named(names, name) implies #[trigger] names[j] != name by {
            if j > 0 {
                assert(names.drop_first()[j - 1] == names[j]);
            }
        }
    }
}

/// The first position where a name stands is the position of the name.
pub proof fn lemma_named_is(names: Seq<Seq<char>>, name: Seq<char>, i: int)
    requires
        0 <= i <= names.len(),
        i < names.len() ==> names[i] == name,
        forall|j: int| 0 <= j < i ==> #[trigger] names[j] != name,
    ensures
        named(names, name) == i,
{
    lemma_named(names, name);
    let p = named(names, name);
    if p < i {
        assert(names[p] != name);
    }
}

/// What `route` makes of a frame for a server whose caches are called
/// `names`.
pub open spec fn routed(names: Seq<Seq<char>>, frame: Seq<u8>, r: Result<Route, CodecError>) -> bool {
    match <(String, u8) as Wire>::parse(frame) {
        Err(e) => r matches Err(x) && x == e,
        Ok(head) => {
            let cache = named(names, head.0.0);
            match Command::of_tag(head.0.1) {
                Some(cmd) if cache < names.len() => {
                    &&& r matches Ok(Route::To { cache: c, cmd: x, at })
                    &&& c == cache
                    &&& x == cmd
                    &&& at == head.1
                },
                _ => {
                    &&& r matches Ok(Route::Refused { used, reply })
                    &&& used == head.1
                    &&& reply@ == seq![Status::Failed.tag_of()]
                },
            }
        },
    }
}

/// Whether two names are the same.
fn same_name(a: &String, b: &String) -> (r: bool)
    ensures
        r == (a@ == b@),
{
    *a == *b
}

/// Resolves a frame: decodes its head and finds the cache it names among
/// `names`.
pub fn route(names: &Vec<String>, frame: &[u8]) -> (r: Result<Route, CodecError>)
    ensures
        routed(names.deep_view(), frame@, r),
        r matches Ok(Route::To { cache, cmd, at }) ==> cache < names@.len() && at <= frame@.len(),
{
    assert(frame@.skip(0) =~= frame@);
    proof {
        <(String, u8) as Wire>::lemma_parse_within(frame@);
    }
    let ((name, tag), at) = match <(String, u8) as Wire>::read(frame, 0) {
        Ok(head) => head,
        Err(e) => {
            return Err(e);
        },
    };
    let mut i: usize = 0;
    while i < names.len() && !same_name(&names[i], &name)
        invariant
            i <= names@.len(),
            forall|j: int| 0 <= j < i ==> #[trigger] names.deep_view()[j] != name@,
        decreases names@.len() - i,
    {
        i += 1;
    }
    proof {
        lemma_named_is(names.deep_view(), name@, i as int);
    }
    if i < names.len() {
        match Command::from_tag(tag) {
            Some(cmd) => {
                return Ok(Route::To { cache: i, cmd, at });
            },
            None => {},
        }
    }
    let mut reply: Vec<u8> = Vec::new();
    Status::Failed.write(&mut reply);
    Ok(Route::Refused { used: at, reply })
}

} // verus!
