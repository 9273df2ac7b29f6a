//! The item cache: every item type with its group, category, volume, name
//! and description.

use crate::codec::{CodecError, Wire};
use crate::dispatch::{answered, Handled};
use crate::ids::{CategoryId, GroupId, TypeId};
use crate::protocol::{on_signal, CncAction, Command};
use crate::record::{single_eq, singles_equal, Record};
use crate::server::Cache;
use crate::table::{lists, changed_keys, differs, entries_restored, overlay, put, Table};
use vstd::prelude::*;

verus! {

/// One item type.
///
/// `volume` holds the volume, an IEEE-754 single, as its bit pattern. Two
/// entries are equal when their ids and texts are and their volumes are
/// equal as numbers.
#[derive(Debug)]
pub struct ItemEntry {
    pub category_id: CategoryId,
    pub group_id: GroupId,
    pub item_id: TypeId,
    pub volume: u32,
    pub name: String,
    pub description: String,
}

/// An `ItemEntry` as contracts see it.
pub struct ItemModel {
    pub category_id: u32,
    pub group_id: u32,
    pub item_id: u32,
    pub volume: u32,
    pub name: Seq<char>,
    pub description: Seq<char>,
}

impl ItemEntry {
    pub fn new(
        category_id: CategoryId,
        group_id: GroupId,
        item_id: TypeId,
        volume: u32,
        name: String,
        description: String,
    ) -> (e: Self)
        ensures
            e.deep_view() == (ItemModel {
                category_id: category_id.0,
                group_id: group_id.0,
                item_id: item_id.0,
                volume,
                name: name@,
                description: description@,
            }),
    {
        Self { category_id, group_id, item_id, volume, name, description }
    }
}

impl PartialEq for ItemEntry {
    fn eq(&self, other: &Self) -> (r: bool) {
        self.equals(other)
    }
}

impl vstd::std_specs::cmp::PartialEqSpecImpl for ItemEntry {
    open spec fn obeys_eq_spec() -> bool {
        true
    }

    open spec fn eq_spec(&self, other: &Self) -> bool {
        <ItemEntry as Record>::same(self.deep_view(), other.deep_view())
    }
}

impl DeepView for ItemEntry {
    type V = ItemModel;

    open spec fn deep_view(&self) -> ItemModel {
        ItemModel {
            category_id: self.category_id.0,
            group_id: self.group_id.0,
            item_id: self.item_id.0,
            volume: self.volume,
            name: self.name@,
            description: self.description@,
        }
    }
}

/// The fields of an item in declaration order, as the codec takes them.
pub type ItemFields = (u32, (u32, (u32, (u32, (String, String)))));

/// The fields of `v` in declaration order.
pub open spec fn item_fields(v: ItemModel) -> (
    u32,
    (u32, (u32, (u32, (Seq<char>, Seq<char>)))),
) {
    (v.category_id, (v.group_id, (v.item_id, (v.volume, (v.name, v.description)))))
}

pub open spec fn item_parse(bytes: Seq<u8>) -> Result<(ItemModel, nat), CodecError> {
    match <ItemFields as Wire>::parse(bytes) {
        Err(e) => Err(e),
        Ok(p) => Ok(
            (
                ItemModel {
                    category_id: p.0.0,
                    group_id: p.0.1.0,
                    item_id: p.0.1.1.0,
                    volume: p.0.1.1.1.0,
                    name: p.0.1.1.1.1.0,
                    description: p.0.1.1.1.1.1,
                },
                p.1,
            ),
        ),
    }
}

impl Wire for ItemEntry {
    open spec fn fits(v: ItemModel) -> bool {
        <ItemFields as Wire>::fits(item_fields(v))
    }

    /// The six fields in declaration order.
    open spec fn wire(v: ItemModel) -> Seq<u8> {
        <ItemFields as Wire>::wire(item_fields(v))
    }

    open spec fn parse(bytes: Seq<u8>) -> Result<(ItemModel, nat), CodecError> {
        item_parse(bytes)
    }

    proof fn lemma_round_trip(v: ItemModel, rest: Seq<u8>) {
        <ItemFields as Wire>::lemma_round_trip(item_fields(v), rest);
    }

    proof fn lemma_parse_within(bytes: Seq<u8>) {
        <ItemFields as Wire>::lemma_parse_within(bytes);
    }

    proof fn lemma_parse_exact(bytes: Seq<u8>) {
        <ItemFields as Wire>::lemma_parse_exact(bytes);
    }

    proof fn lemma_invalid_stays(bytes: Seq<u8>, more: Seq<u8>) {
        <ItemFields as Wire>::lemma_invalid_stays(bytes, more);
    }

    fn write(&self, out: &mut Vec<u8>) {
        self.category_id.0.write(out);
        self.group_id.0.write(out);
        self.item_id.0.write(out);
        self.volume.write(out);
        self.name.write(out);
        self.description.write(out);
        proof {
            let v = self.deep_view();
            let a = <u32 as Wire>::wire(v.category_id);
            let b = <u32 as Wire>::wire(v.group_id);
            let c = <u32 as Wire>::wire(v.item_id);
            let d = <u32 as Wire>::wire(v.volume);
            let e = <String as Wire>::wire(v.name);
            let f = <String as Wire>::wire(v.description);
            assert(out@ == old(out)@ + a + b + c + d + e + f);
            assert(<(String, String) as Wire>::wire((v.name, v.description)) == e + f);
            assert(Self::wire(v) == a + (b + (c + (d + (e + f)))));
            assert(old(out)@ + a + b + c + d + e + f =~= old(out)@ + (a + (b + (c + (d + (e
                + f))))));
        }
    }

    fn read(bytes: &[u8], at: usize) -> (r: Result<(ItemEntry, usize), CodecError>) {
        match <ItemFields as Wire>::read(bytes, at) {
            Err(e) => Err(e),
            Ok((fields, end)) => {
                let (category_id, (group_id, (item_id, (volume, (name, description))))) = fields;
                Ok(
                    (
                        ItemEntry {
                            category_id: CategoryId(category_id),
                            group_id: GroupId(group_id),
                            item_id: TypeId(item_id),
                            volume,
                            name,
                            description,
                        },
                        end,
                    ),
                )
            },
        }
    }
}

impl Record for ItemEntry {
    open spec fn key_of(v: ItemModel) -> u32 {
        v.item_id
    }

    open spec fn same(a: ItemModel, b: ItemModel) -> bool {
        &&& a.category_id == b.category_id
        &&& a.group_id == b.group_id
        &&& a.item_id == b.item_id
        &&& single_eq(a.volume, b.volume)
        &&& a.name == b.name
        &&& a.description == b.description
    }

    fn key(&self) -> (k: u32) {
        self.item_id.0
    }

    fn equals(&self, other: &Self) -> (b: bool) {
        self.category_id.0 == other.category_id.0 && self.group_id.0 == other.group_id.0
            && self.item_id.0 == other.item_id.0 && singles_equal(self.volume, other.volume)
            && self.name == other.name && self.description == other.description
    }

    fn duplicate(&self) -> (r: Self) {
        ItemEntry {
            category_id: self.category_id,
            group_id: self.group_id,
            item_id: self.item_id,
            volume: self.volume,
            name: self.name.clone(),
            description: self.description.clone(),
        }
    }
}

/// The ids at the positions of `keys`, bare.
pub open spec fn bare(keys: Seq<TypeId>) -> Seq<u32> {
    Seq::new(keys.len(), |i: int| keys[i].0)
}

/// The item types known, by type id.
pub struct ItemCache {
    cache: Table<ItemEntry>,
}

impl View for ItemCache {
    type V = Map<u32, ItemModel>;

    closed spec fn view(&self) -> Map<u32, ItemModel> {
        self.cache@
    }
}

impl ItemCache {
    /// A cache with no items.
    pub fn new() -> (c: Self)
        ensures
            c@ == Map::<u32, ItemModel>::empty(),
    {
        Self { cache: Table::new() }
    }

    /// The name by which requests reach this cache.
    pub fn name(&self) -> (n: String)
        ensures
            n@ == "items"@,
    {
        "items".to_owned()
    }

    /// Carries out one request: decodes the payload of `cmd` from the
    /// front of `request`, performs the command, and encodes the response.
    /// The cache is due to be saved where the result counts a change.
    pub fn handle(&mut self, cmd: Command, request: &[u8]) -> (r: Result<Handled, CodecError>)
        ensures
            answered::<ItemEntry>(old(self)@, cmd, request@, r, final(self)@),
    {
        self.cache.handle(cmd, request)
    }

    /// Answers a request that only reads, without touching the cache. There
    /// is no answer for a command that writes; that one is for `handle`.
    pub fn answer(&self, cmd: Command, request: &[u8]) -> (r: Option<Result<Handled, CodecError>>)
        ensures
            r is None <==> (cmd == Command::SetOne || cmd == Command::MSet),
            r matches Some(x) ==> answered::<ItemEntry>(self@, cmd, request@, x, self@),
    {
        self.cache.answer(cmd, request)
    }

    /// The reaction to a signal on the command-and-control channel: `Save`
    /// makes the cache save, anything else is ignored.
    pub fn cnc_listener(&self, cmd: Command) -> (a: CncAction)
        ensures
            a == (if cmd == Command::Save { CncAction::Save } else { CncAction::Ignore }),
    {
        on_signal(cmd)
    }

    /// A copy of the item under `idx`, if there is one.
    pub fn get(&self, idx: TypeId) -> (r: Option<ItemEntry>)
        ensures
            r is Some <==> self@.contains_key(idx.0),
            r matches Some(e) ==> e.deep_view() == self@[idx.0],
    {
        self.cache.get(idx.0)
    }

    /// Copies of the items under the given ids, for the ids that are
    /// present. An id that is absent is left out.
    pub fn mget(&self, keys: Vec<TypeId>) -> (found: Table<ItemEntry>)
        ensures
            forall|k: u32|
                found@.contains_key(k) <==> (bare(keys@).contains(k) && self@.contains_key(k)),
            forall|k: u32| found@.contains_key(k) ==> found@[k] == self@[k],
    {
        let mut ids: Vec<u32> = Vec::new();
        let mut i: usize = 0;
        while i < keys.len()
            invariant
                i <= keys@.len(),
                ids@ == bare(keys@.take(i as int)),
            decreases keys@.len() - i,
        {
            ids.push(keys[i].0);
            i += 1;
            assert(ids@ =~= bare(keys@.take(i as int)));
        }
        assert(keys@.take(i as int) =~= keys@);
        self.cache.mget(&ids)
    }

    /// Writes `val` under `idx` unless an equal item is already there.
    /// Returns the number of changes made: one or none.
    pub fn set(&mut self, idx: TypeId, val: ItemEntry) -> (n: usize)
        ensures
            final(self)@ == put::<ItemEntry>(old(self)@, idx.0, val.deep_view()),
            n == (if differs::<ItemEntry>(old(self)@, idx.0, val.deep_view()) { 1nat } else { 0nat }),
    {
        self.cache.set(idx.0, val)
    }

    /// Lays a mapping of items over the cache. Returns the number of
    /// entries that were new or different; where it is zero the cache is
    /// what it was.
    pub fn mset(&mut self, vals: &Table<ItemEntry>) -> (n: usize)
        ensures
            final(self)@ == overlay::<ItemEntry>(old(self)@, vals@),
            n == changed_keys::<ItemEntry>(old(self)@, vals@).len(),
            n == 0 ==> final(self)@ == old(self)@,
    {
        self.cache.mset(vals)
    }

    /// Every id, once, in no particular order.
    pub fn keys(&self) -> (r: Vec<TypeId>)
        ensures
            bare(r@).no_duplicates(),
            forall|k: u32| bare(r@).contains(k) <==> self@.contains_key(k),
            r@.len() == self@.dom().len(),
    {
        let ids = self.cache.keys();
        let mut out: Vec<TypeId> = Vec::new();
        let mut i: usize = 0;
        while i < ids.len()
            invariant
                i <= ids@.len(),
                bare(out@) == ids@.take(i as int),
                out@.len() == i,
            decreases ids@.len() - i,
        {
            out.push(TypeId(ids[i]));
            i += 1;
            assert(bare(out@) =~= ids@.take(i as int));
        }
        assert(ids@.take(i as int) =~= ids@);
        out
    }

    /// The file the cache is kept in.
    pub fn file(&self) -> (path: &'static str)
        ensures
            path@ == "./db/items.cachem"@,
    {
        "./db/items.cachem"
    }

    /// A copy of the whole table, as it is saved.
    pub fn read(&self) -> (data: Table<ItemEntry>)
        ensures
            data@ == self@,
    {
        self.cache.duplicate()
    }

    /// Replaces the whole table, as when it is loaded.
    pub fn write(&mut self, data: Table<ItemEntry>)
        ensures
            final(self)@ == data@,
    {
        self.cache = data;
    }

    /// The contents of the cache as they go to its file. Loading them
    /// again gives the same cache.
    pub fn save(&self) -> (bytes: Vec<u8>)
        ensures
            <Vec<(u32, ItemEntry)> as Wire>::parse(bytes@) matches Ok(p) && p.1 == bytes@.len() && lists(p.0, self@),
            entries_restored::<ItemEntry>(bytes@) == self@,
    {
        self.cache.to_entry_bytes()
    }

    /// Takes the contents of the cache from its file: the items that the
    /// bytes hold, or none where the file is missing or does not decode.
    pub fn load(&mut self, file: Option<&[u8]>)
        ensures
            file matches Some(bytes) ==> final(self)@ == entries_restored::<ItemEntry>(bytes@),
            file is None ==> final(self)@ == Map::<u32, ItemModel>::empty(),
    {
        self.write(Table::from_entry_bytes(file));
    }
}


impl Cache for ItemCache {
    open spec fn name_of(&self) -> Seq<char> {
        "items"@
    }

    open spec fn handled(
        before: &Self,
        cmd: Command,
        request: Seq<u8>,
        r: Result<Handled, CodecError>,
        after: &Self,
    ) -> bool {
        answered::<ItemEntry>(before@, cmd, request, r, after@)
    }

    fn name(&self) -> (n: String) {
        ItemCache::name(self)
    }

    fn handle(&mut self, cmd: Command, request: &[u8]) -> (r: Result<Handled, CodecError>) {
        ItemCache::handle(self, cmd, request)
    }

    fn cnc_listener(&self, cmd: Command) -> (a: CncAction) {
        ItemCache::cnc_listener(self, cmd)
    }
}

} // verus!
