//! The character service: what to ask of the user cache and of the game's
//! API, in which order, to answer a request about a character.
//!
//! The service itself never waits for anything. It is asked what to do
//! next, is told what came of it, and says what follows. One exchange
//! looks the character up, calls the API with the stored access token,
//! and where the API refuses the token, has the tokens refreshed, stores
//! the new ones and calls once more.

use crate::ids::TypeId;
use std::collections::HashMap;
use vstd::prelude::*;
use vstd::std_specs::hash::*;

verus! {

/// A character as logged in: its id and the two tokens the login gave.
#[derive(Clone, Debug)]
pub struct EveOAuthUser {
    pub user_id: u32,
    pub access_token: String,
    pub refresh_token: String,
}

/// A character as the user cache holds it.
#[derive(Clone, Debug)]
pub struct UserEntry {
    pub user_id: u32,
    pub access_token: String,
    pub refresh_token: String,
    pub name: String,
    pub aliase: Vec<u32>,
}

/// A request for the user with the given id.
#[derive(Clone, Copy, Debug)]
pub struct FetchUserReq(pub u32);

/// The answer to a `FetchUserReq`.
#[derive(Debug)]
pub enum FetchUserRes {
    /// The user is known.
    Found(UserEntry),
    /// There is no such user.
    Empty,
}

/// A request to store the given user.
#[derive(Debug)]
pub struct InsertUserReq(pub UserEntry);

/// Why the game's API gave no answer.
#[derive(Clone, Copy, Debug, PartialEq, Eq, Structural)]
pub enum EveApiError {
    /// The access token was refused.
    Unauthorized,
    /// Anything else.
    Failed,
}

/// Why a request about a character failed.
#[derive(Clone, Copy, Debug, PartialEq, Eq, Structural)]
pub enum EveServerError {
    /// The user cache does not know the character.
    UserNotFound,
    /// The game's API gave no answer.
    EveApiError(EveApiError),
    /// The user cache could not be reached.
    Connection,
    /// The quantities of one item type add up to more than fits.
    Overflow,
    /// Something was reported that the exchange was not waiting for.
    OutOfStep,
}

/// One stack of items a character owns.
#[derive(Clone, Copy, Debug, PartialEq, Eq, Structural)]
pub struct CharacterAsset {
    pub item_id: u64,
    pub location_id: u64,
    pub quantity: u32,
    pub type_id: TypeId,
}

/// One blueprint a character owns.
#[derive(Clone, Copy, Debug, PartialEq, Eq, Structural)]
pub struct CharacterBlueprint {
    pub item_id: u64,
    pub location_id: u64,
    pub material_efficiency: u32,
    pub quantity: i32,
    pub runs: i32,
    pub time_efficiency: u32,
    pub type_id: TypeId,
}

/// Where an exchange stands: what it is waiting for.
#[derive(Debug)]
pub enum Flow {
    /// The character's entry in the user cache.
    Lookup,
    /// The API's answer to the stored access token.
    FirstCall { refresh_token: String },
    /// New tokens.
    Refresh,
    /// The new tokens to be stored.
    SaveLogin { access_token: String },
    /// The API's answer to the new access token.
    SecondCall,
    /// Nothing: the exchange is over.
    Finished,
}

/// What came of the last thing an exchange asked for.
#[derive(Debug)]
pub enum Event<T> {
    /// The user cache answered, or could not be reached.
    User(Result<Option<UserEntry>, EveServerError>),
    /// The API answered, or did not.
    Answer(Result<T, EveApiError>),
    /// The tokens were refreshed, or were not.
    Tokens(Result<EveOAuthUser, EveApiError>),
    /// The new tokens were stored, or were not.
    Saved(Result<(), EveServerError>),
}

/// What an exchange asks for next.
#[derive(Debug)]
pub enum Action<T> {
    /// Call the API with this access token.
    Call { access_token: String },
    /// Have the tokens refreshed with this refresh token.
    Refresh { refresh_token: String },
    /// Store this login.
    SaveLogin(EveOAuthUser),
    /// Nothing more: this is the outcome.
    Done(Result<T, EveServerError>),
}

/// The step an exchange takes from `flow` when `event` is reported.
pub open spec fn stepped<T>(flow: Flow, event: Event<T>) -> (Flow, Action<T>) {
    match (flow, event) {
        (Flow::Lookup, Event::User(Err(e))) => (Flow::Finished, Action::Done(Err(e))),
        (Flow::Lookup, Event::User(Ok(None))) => (
            Flow::Finished,
            Action::Done(Err(EveServerError::UserNotFound)),
        ),
        (Flow::Lookup, Event::User(Ok(Some(user)))) => (
            Flow::FirstCall { refresh_token: user.refresh_token },
            Action::Call { access_token: user.access_token },
        ),
        (Flow::FirstCall { refresh_token }, Event::Answer(Err(EveApiError::Unauthorized))) => (
            Flow::Refresh,
            Action::Refresh { refresh_token },
        ),
        (Flow::FirstCall { refresh_token }, Event::Answer(Ok(x))) => (
            Flow::Finished,
            Action::Done(Ok(x)),
        ),
        (Flow::FirstCall { refresh_token }, Event::Answer(Err(_))) => (
            Flow::Finished,
            Action::Done(Err(EveServerError::EveApiError(EveApiError::Unauthorized))),
        ),
        (Flow::Refresh, Event::Tokens(Err(e))) => (
            Flow::Finished,
            Action::Done(Err(EveServerError::EveApiError(e))),
        ),
        (Flow::Refresh, Event::Tokens(Ok(user))) => (
            Flow::SaveLogin { access_token: user.access_token },
            Action::SaveLogin(user),
        ),
        (Flow::SaveLogin { access_token }, Event::Saved(Err(e))) => (
            Flow::Finished,
            Action::Done(Err(e)),
        ),
        (Flow::SaveLogin { access_token }, Event::Saved(Ok(_))) => (
            Flow::SecondCall,
            Action::Call { access_token },
        ),
        (Flow::SecondCall, Event::Answer(Err(e))) => (
            Flow::Finished,
            Action::Done(Err(EveServerError::EveApiError(e))),
        ),
        (Flow::SecondCall, Event::Answer(Ok(x))) => (Flow::Finished, Action::Done(Ok(x))),
        _ => (Flow::Finished, Action::Done(Err(EveServerError::OutOfStep))),
    }
}

/// Takes one step of an exchange.
pub fn step<T>(flow: Flow, event: Event<T>) -> (r: (Flow, Action<T>))
    ensures
        r == stepped(flow, event),
{
    match flow {
        Flow::Lookup => match event {
            Event::User(Err(e)) => (Flow::Finished, Action::Done(Err(e))),
            Event::User(Ok(None)) => (
                Flow::Finished,
                Action::Done(Err(EveServerError::UserNotFound)),
            ),
            Event::User(Ok(Some(user))) => (
                Flow::FirstCall { refresh_token: user.refresh_token },
                Action::Call { access_token: user.access_token },
            ),
            _ => (Flow::Finished, Action::Done(Err(EveServerError::OutOfStep))),
        },
        Flow::FirstCall { refresh_token } => match event {
            Event::Answer(Err(EveApiError::Unauthorized)) => (
                Flow::Refresh,
                Action::Refresh { refresh_token },
            ),
            Event::Answer(Ok(x)) => (Flow::Finished, Action::Done(Ok(x))),
            Event::Answer(Err(_)) => (
                Flow::Finished,
                Action::Done(Err(EveServerError::EveApiError(EveApiError::Unauthorized))),
            ),
            _ => (Flow::Finished, Action::Done(Err(EveServerError::OutOfStep))),
        },
        Flow::Refresh => match event {
            Event::Tokens(Err(e)) => (
                Flow::Finished,
                Action::Done(Err(EveServerError::EveApiError(e))),
            ),
            Event::Tokens(Ok(user)) => {
                let access_token = user.access_token.clone();
                (Flow::SaveLogin { access_token }, Action::SaveLogin(user))
            },
            _ => (Flow::Finished, Action::Done(Err(EveServerError::OutOfStep))),
        },
        Flow::SaveLogin { access_token } => match event {
            Event::Saved(Err(e)) => (Flow::Finished, Action::Done(Err(e))),
            Event::Saved(Ok(_)) => (Flow::SecondCall, Action::Call { access_token }),
            _ => (Flow::Finished, Action::Done(Err(EveServerError::OutOfStep))),
        },
        Flow::SecondCall => match event {
            Event::Answer(Err(e)) => (
                Flow::Finished,
                Action::Done(Err(EveServerError::EveApiError(e))),
            ),
            Event::Answer(Ok(x)) => (Flow::Finished, Action::Done(Ok(x))),
            _ => (Flow::Finished, Action::Done(Err(EveServerError::OutOfStep))),
        },
        Flow::Finished => (Flow::Finished, Action::Done(Err(EveServerError::OutOfStep))),
    }
}

/// The position of the first asset of type `type_id` in `pool`, or the
/// length of `pool` where there is none.
pub open spec fn slot(pool: Seq<CharacterAsset>, type_id: u32) -> int
    decreases pool.len(),
{
    if pool.len() == 0 {
        0
    } else if pool[0].type_id.0 == type_id {
        0
    } else {
        1 + slot(pool.drop_first(), type_id)
    }
}

/// `pool` with one more asset taken in: its quantity added to the asset
/// of the same type where there is one, the asset appended where there is
/// none. Nothing where the sum does not fit.
pub open spec fn taken_in(pool: Seq<CharacterAsset>, asset: CharacterAsset) -> Option<
    Seq<CharacterAsset>,
> {
    let i = slot(pool, asset.type_id.0);
    if i >= pool.len() {
        Some(pool.push(asset))
    } else if pool[i].quantity + asset.quantity > u32::MAX {
        None
    } else {
        Some(
            pool.update(
                i,
                CharacterAsset {
                    item_id: pool[i].item_id,
                    location_id: pool[i].location_id,
                    quantity: (pool[i].quantity + asset.quantity) as u32,
                    type_id: pool[i].type_id,
                },
            ),
        )
    }
}

/// The assets pooled by item type: one asset for each type, in the order
/// in which the types first occur, carrying the first asset's item and
/// location and the sum of the quantities. Nothing where a sum does not
/// fit.
pub open spec fn pooled(assets: Seq<CharacterAsset>) -> Option<Seq<CharacterAsset>>
    decreases assets.len(),
{
    if assets.len() == 0 {
        Some(Seq::empty())
    } else {
        match pooled(assets.drop_last()) {
            None => None,
            Some(pool) => taken_in(pool, assets.last()),
        }
    }
}

/// Whether no two assets of `pool` have the same type.
pub open spec fn one_per_type(pool: Seq<CharacterAsset>) -> bool {
    forall|i: int, j: int|
        0 <= i < j < pool.len() ==> (#[trigger] pool[i]).type_id != (#[trigger] pool[j]).type_id
}

pub proof fn lemma_slot(pool: Seq<CharacterAsset>, type_id: u32)
    ensures
        0 <= slot(pool, type_id) <= pool.len(),
        slot(pool, type_id) < pool.len() ==> pool[slot(pool, type_id)].type_id.0 == type_id,
        forall|j: int| 0 <= j < slot(pool, type_id) ==> (#[trigger] pool[j]).type_id.0 != type_id,
    decreases pool.len(),
{
    if pool.len() > 0 && pool[0].type_id.0 != type_id {
        lemma_slot(pool.drop_first(), type_id);
        assert forall|j: int| 0 <= j < slot(pool, type_id) implies (#[trigger] pool[j]).type_id.0
            != type_id by {
            if j > 0 {
                assert(pool.drop_first()[j - 1] == pool[j]);
            }
        }
    }
}

/// Pooled assets hold each item type once.
pub proof fn lemma_pooled_one_per_type(assets: Seq<CharacterAsset>)
    ensures
        pooled(assets) matches Some(pool) ==> one_per_type(pool),
    decreases assets.len(),
{
    if assets.len() > 0 {
        lemma_pooled_one_per_type(assets.drop_last());
        if let Some(before) = pooled(assets.drop_last()) {
            let asset = assets.last();
            lemma_slot(before, asset.type_id.0);
            if let Some(pool) = taken_in(before, asset) {
                let at = slot(before, asset.type_id.0);
                assert forall|i: int, j: int| 0 <= i < j < pool.len() implies (
                #[trigger] pool[i]).type_id != (#[trigger] pool[j]).type_id by {
                    if at >= before.len() {
                        if j == before.len() {
                            assert(before[i].type_id.0 != asset.type_id.0);
                        } else {
                            assert(before[i].type_id != before[j].type_id);
                        }
                    } else {
                        assert(before[i].type_id != before[j].type_id);
                    }
                }
            }
        }
    }
}

/// The service that answers requests about characters.
#[derive(Clone, Copy, Debug)]
pub struct CharacterService;

impl CharacterService {
    pub fn new() -> Self {
        CharacterService
    }

    /// Every exchange begins by looking the character up: the first request
    /// to send, and the state in which its answer is awaited.
    pub fn begin(&self, character_id: u32) -> (r: (Flow, FetchUserReq))
        ensures
            r.0 == Flow::Lookup,
            r.1 == FetchUserReq(character_id),
    {
        (Flow::Lookup, FetchUserReq(character_id))
    }

    /// What the user cache's answer to a lookup means: the entry where the
    /// user is known, nothing where it is not.
    pub fn lookup(&self, answer: FetchUserRes) -> (r: Option<UserEntry>)
        ensures
            r == (match answer {
                FetchUserRes::Found(user) => Some(user),
                FetchUserRes::Empty => None::<UserEntry>,
            }),
    {
        match answer {
            FetchUserRes::Found(user) => Some(user),
            _ => None,
        }
    }

    /// The request that stores a login. Where the user cache already holds
    /// the character, its entry is kept and only the two tokens are
    /// replaced; where it does not, the entry is new, with no name and no
    /// aliases.
    pub fn save_login(&self, existing: Option<UserEntry>, character: EveOAuthUser) -> (r:
        InsertUserReq)
        ensures
            r.0.access_token == character.access_token,
            r.0.refresh_token == character.refresh_token,
            match existing {
                Some(held) => {
                    &&& r.0.user_id == held.user_id
                    &&& r.0.name == held.name
                    &&& r.0.aliase == held.aliase
                },
                None => {
                    &&& r.0.user_id == character.user_id
                    &&& r.0.name@.len() == 0
                    &&& r.0.aliase@.len() == 0
                },
            },
    {
        match existing {
            Some(held) => InsertUserReq(
                UserEntry {
                    user_id: held.user_id,
                    access_token: character.access_token,
                    refresh_token: character.refresh_token,
                    name: held.name,
                    aliase: held.aliase,
                },
            ),
            None => InsertUserReq(
                UserEntry {
                    user_id: character.user_id,
                    access_token: character.access_token,
                    refresh_token: character.refresh_token,
                    name: String::new(),
                    aliase: Vec::new(),
                },
            ),
        }
    }

    /// One step of the exchange that asks the API for a character's name.
    pub fn name(&self, flow: Flow, event: Event<String>) -> (r: (Flow, Action<String>))
        ensures
            r == stepped(flow, event),
    {
        step(flow, event)
    }

    /// One step of the exchange that asks the API for a character's
    /// portrait.
    pub fn portrait(&self, flow: Flow, event: Event<String>) -> (r: (Flow, Action<String>))
        ensures
            r == stepped(flow, event),
    {
        step(flow, event)
    }

    /// One step of the exchange that asks the API for a character's
    /// blueprints.
    pub fn blueprints(&self, flow: Flow, event: Event<Vec<CharacterBlueprint>>) -> (r: (
        Flow,
        Action<Vec<CharacterBlueprint>>,
    ))
        ensures
            r == stepped(flow, event),
    {
        step(flow, event)
    }

    /// Pools assets by item type: one asset for each type, in the order in
    /// which the types first occur, with the quantities added up. There
    /// is no result where a sum does not fit.
    pub fn pool(&self, assets: Vec<CharacterAsset>) -> (r: Option<Vec<CharacterAsset>>)
        ensures
            match pooled(assets@) {
                Some(pool) => r matches Some(v) && v@ == pool,
                None => r is None,
            },
    {
        broadcast use group_hash_axioms;
        let mut pool: Vec<CharacterAsset> = Vec::new();
        let mut slots: HashMap<u32, usize> = HashMap::new();
        let mut i: usize = 0;
        assert(assets@.take(0) =~= Seq::<CharacterAsset>::empty());
        while i < assets.len()
            invariant
                i <= assets@.len(),
                pooled(assets@.take(i as int)) == Some(pool@),
                forall|t: u32| #[trigger]
                    slots@.contains_key(t) <==> slot(pool@, t) < pool@.len(),
                forall|t: u32| #[trigger] slots@.contains_key(t) ==> slots@[t] == slot(pool@, t),
            decreases assets@.len() - i,
        {
            let asset = assets[i];
            let ghost before = pool@;
            let ghost seen = assets@.take(i as int);
            assert(assets@.take(i + 1).drop_last() =~= seen);
            assert(assets@.take(i + 1).last() == asset);
            proof {
                lemma_slot(before, asset.type_id.0);
            }
            match slots.get(&asset.type_id.0) {
                Some(at) => {
                    let at: usize = *at;
                    let held = pool[at];
                    match held.quantity.checked_add(asset.quantity) {
                        None => {
                            proof {
                                lemma_pooled_prefix(assets@, i + 1);
                            }
                            return None;
                        },
                        Some(quantity) => {
                            pool.set(
                                at,
                                CharacterAsset {
                                    item_id: held.item_id,
                                    location_id: held.location_id,
                                    quantity,
                                    type_id: held.type_id,
                                },
                            );
                            proof {
                                assert forall|t: u32| slot(pool@, t) == slot(before, t) by {
                                    lemma_slot_types(before, pool@, t);
                                }
                            }
                        },
                    }
                },
                None => {
                    slots.insert(asset.type_id.0, pool.len());
                    pool.push(asset);
                    proof {
                        assert forall|t: u32| slot(pool@, t) == (if t == asset.type_id.0 {
                            before.len() as int
                        } else if slot(before, t) < before.len() {
                            slot(before, t)
                        } else {
                            pool@.len() as int
                        }) by {
                            lemma_slot_push(before, asset, t);
                        }
                    }
                },
            }
            i += 1;
        }
        assert(assets@.take(i as int) =~= assets@);
        Some(pool)
    }

    /// One step of the exchange that asks the API for a character's
    /// assets. The assets that the API gives are pooled by item type
    /// before they are handed out.
    pub fn assets(&self, flow: Flow, event: Event<Vec<CharacterAsset>>) -> (r: (
        Flow,
        Action<Vec<CharacterAsset>>,
    ))
        ensures
            r.0 == stepped(flow, event).0,
            match stepped(flow, event).1 {
                Action::Done(Ok(list)) => match pooled(list@) {
                    Some(pool) => r.1 matches Action::Done(Ok(v)) && v@ == pool,
                    None => r.1 == Action::<Vec<CharacterAsset>>::Done(
                        Err(EveServerError::Overflow),
                    ),
                },
                other => r.1 == other,
            },
    {
        let (next, action) = step(flow, event);
        match action {
            Action::Done(Ok(list)) => match self.pool(list) {
                Some(pool) => (next, Action::Done(Ok(pool))),
                None => (next, Action::Done(Err(EveServerError::Overflow))),
            },
            other => (next, other),
        }
    }
}

/// Once nothing can be pooled, nothing can be pooled of any longer list.
pub proof fn lemma_pooled_prefix(assets: Seq<CharacterAsset>, n: int)
    requires
        0 <= n <= assets.len(),
        pooled(assets.take(n)) is None,
    ensures
        pooled(assets) is None,
    decreases assets.len() - n,
{
    if n < assets.len() {
        assert(assets.take(n + 1).drop_last() =~= assets.take(n));
        lemma_pooled_prefix(assets, n + 1);
    } else {
        assert(assets.take(n) =~= assets);
    }
}

/// Where two pools hold the same types at the same positions, a type is
/// found at the same position in both.
pub proof fn lemma_slot_types(a: Seq<CharacterAsset>, b: Seq<CharacterAsset>, t: u32)
    requires
        a.len() == b.len(),
        forall|i: int| 0 <= i < a.len() ==> (#[trigger] a[i]).type_id == b[i].type_id,
    ensures
        slot(a, t) == slot(b, t),
    decreases a.len(),
{
    if a.len() > 0 {
        assert(a[0].type_id == b[0].type_id);
        if a[0].type_id.0 != t {
            assert forall|i: int| 0 <= i < a.drop_first().len() implies (
            #[trigger] a.drop_first()[i]).type_id == b.drop_first()[i].type_id by {
                assert(a[i + 1].type_id == b[i + 1].type_id);
            }
            lemma_slot_types(a.drop_first(), b.drop_first(), t);
        }
    }
}

/// Where a type is found after an asset is appended to a pool.
pub proof fn lemma_slot_push(pool: Seq<CharacterAsset>, asset: CharacterAsset, t: u32)
    ensures
        slot(pool.push(asset), t) == (if slot(pool, t) < pool.len() {
            slot(pool, t)
        } else if t == asset.type_id.0 {
            pool.len() as int
        } else {
            (pool.len() + 1) as int
        }),
    decreases pool.len(),
{
    lemma_slot(pool, t);
    let more = pool.push(asset);
    if pool.len() == 0 {
        assert(more.drop_first() =~= Seq::<CharacterAsset>::empty());
        assert(more[0] == asset);
        assert(slot(more.drop_first(), t) == 0);
    } else if pool[0].type_id.0 != t {
        assert(more[0] == pool[0]);
        assert(more.drop_first() =~= pool.drop_first().push(asset));
        lemma_slot_push(pool.drop_first(), asset, t);
        assert(slot(more, t) == 1 + slot(more.drop_first(), t));
        assert(slot(pool, t) == 1 + slot(pool.drop_first(), t));
    } else {
        assert(more[0] == pool[0]);
    }
}

} // verus!
