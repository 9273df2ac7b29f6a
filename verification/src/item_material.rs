//! The item material cache: what an item is made of.

use crate::codec::{lemma_u32_at, lemma_u32_exact, u32_at, u32_value, u32_wire, CodecError, Wire};
use crate::record::Record;
use crate::table::{pair_up, changes, keyed, merged, Table};
use vstd::prelude::*;

verus! {

/// One material of an item, with the quantity needed.
#[derive(Clone, Copy, Debug, PartialEq, Eq, Structural)]
pub struct ItemMaterialEntry {
    pub item_id: u32,
    pub material_id: u32,
    pub quantity: u32,
}

impl ItemMaterialEntry {
    pub fn new(item_id: u32, material_id: u32, quantity: u32) -> (e: Self)
        ensures
            e == (ItemMaterialEntry { item_id, material_id, quantity }),
    {
        Self { item_id, material_id, quantity }
    }
}

impl DeepView for ItemMaterialEntry {
    type V = ItemMaterialEntry;

    open spec fn deep_view(&self) -> ItemMaterialEntry {
        *self
    }
}

pub open spec fn item_material_parse(bytes: Seq<u8>) -> Result<
    (ItemMaterialEntry, nat),
    CodecError,
> {
    if bytes.len() < 12 {
        Err(CodecError::Incomplete)
    } else {
        Ok(
            (
                ItemMaterialEntry {
                    item_id: u32_value(bytes),
                    material_id: u32_value(bytes.skip(4)),
                    quantity: u32_value(bytes.skip(8)),
                },
                12nat,
            ),
        )
    }
}

impl Wire for ItemMaterialEntry {
    open spec fn fits(v: ItemMaterialEntry) -> bool {
        true
    }

    /// The three fields in declaration order, twelve bytes in all.
    open spec fn wire(v: ItemMaterialEntry) -> Seq<u8> {
        u32_wire(v.item_id) + u32_wire(v.material_id) + u32_wire(v.quantity)
    }

    open spec fn parse(bytes: Seq<u8>) -> Result<(ItemMaterialEntry, nat), CodecError> {
        item_material_parse(bytes)
    }

    proof fn lemma_round_trip(v: ItemMaterialEntry, rest: Seq<u8>) {
        let a = u32_wire(v.item_id);
        let b = u32_wire(v.material_id);
        let c = u32_wire(v.quantity);
        let all = Self::wire(v) + rest;
        assert(all.skip(0) =~= all);
        assert(all =~= Seq::<u8>::empty() + a + (b + c + rest));
        lemma_u32_at(Seq::empty(), v.item_id, b + c + rest);
        assert(all =~= a + b + (c + rest));
        lemma_u32_at(a, v.material_id, c + rest);
        assert(all =~= (a + b) + c + rest);
        lemma_u32_at(a + b, v.quantity, rest);
    }

    proof fn lemma_parse_within(bytes: Seq<u8>) {
    }

    proof fn lemma_parse_exact(bytes: Seq<u8>) {
        if bytes.len() >= 12 {
            lemma_u32_exact(bytes);
            lemma_u32_exact(bytes.skip(4));
            lemma_u32_exact(bytes.skip(8));
            assert(bytes.take(4) + bytes.skip(4).take(4) + bytes.skip(8).take(4) =~= bytes.take(
                12,
            ));
        }
    }

    proof fn lemma_invalid_stays(bytes: Seq<u8>, more: Seq<u8>) {
    }

    fn write(&self, out: &mut Vec<u8>) {
        self.item_id.write(out);
        self.material_id.write(out);
        self.quantity.write(out);
    }

    fn read(bytes: &[u8], at: usize) -> (r: Result<(ItemMaterialEntry, usize), CodecError>) {
        if bytes.len() - at < 12 {
            Err(CodecError::Incomplete)
        } else {
            let ghost from = bytes@.skip(at as int);
            assert(from.skip(4) =~= bytes@.skip(at + 4));
            assert(from.skip(8) =~= bytes@.skip(at + 8));
            let entry = ItemMaterialEntry {
                item_id: u32_at(bytes, at),
                material_id: u32_at(bytes, at + 4),
                quantity: u32_at(bytes, at + 8),
            };
            Ok((entry, at + 12))
        }
    }
}

impl Record for ItemMaterialEntry {
    open spec fn key_of(v: ItemMaterialEntry) -> u32 {
        v.item_id
    }

    open spec fn same(a: ItemMaterialEntry, b: ItemMaterialEntry) -> bool {
        a == b
    }

    fn key(&self) -> (k: u32) {
        self.item_id
    }

    fn equals(&self, other: &Self) -> (b: bool) {
        self.item_id == other.item_id && self.material_id == other.material_id && self.quantity
            == other.quantity
    }

    fn duplicate(&self) -> (r: Self) {
        *self
    }
}

/// A request to merge the given materials into the cache.
#[derive(Debug)]
pub struct InsertItemMaterialReq(pub Vec<ItemMaterialEntry>);

impl DeepView for InsertItemMaterialReq {
    type V = Seq<ItemMaterialEntry>;

    open spec fn deep_view(&self) -> Seq<ItemMaterialEntry> {
        self.0.deep_view()
    }
}

/// On the wire a request is the sequence of materials it carries.
impl Wire for InsertItemMaterialReq {
    open spec fn fits(v: Seq<ItemMaterialEntry>) -> bool {
        <Vec<ItemMaterialEntry> as Wire>::fits(v)
    }

    open spec fn wire(v: Seq<ItemMaterialEntry>) -> Seq<u8> {
        <Vec<ItemMaterialEntry> as Wire>::wire(v)
    }

    open spec fn parse(bytes: Seq<u8>) -> Result<(Seq<ItemMaterialEntry>, nat), CodecError> {
        <Vec<ItemMaterialEntry> as Wire>::parse(bytes)
    }

    proof fn lemma_round_trip(v: Seq<ItemMaterialEntry>, rest: Seq<u8>) {
        <Vec<ItemMaterialEntry> as Wire>::lemma_round_trip(v, rest);
    }

    proof fn lemma_parse_within(bytes: Seq<u8>) {
        <Vec<ItemMaterialEntry> as Wire>::lemma_parse_within(bytes);
    }

    proof fn lemma_parse_exact(bytes: Seq<u8>) {
        <Vec<ItemMaterialEntry> as Wire>::lemma_parse_exact(bytes);
    }

    proof fn lemma_invalid_stays(bytes: Seq<u8>, more: Seq<u8>) {
        <Vec<ItemMaterialEntry> as Wire>::lemma_invalid_stays(bytes, more);
    }

    fn write(&self, out: &mut Vec<u8>) {
        self.0.write(out);
    }

    fn read(bytes: &[u8], at: usize) -> (r: Result<(InsertItemMaterialReq, usize), CodecError>) {
        match <Vec<ItemMaterialEntry> as Wire>::read(bytes, at) {
            Ok((inner, end)) => Ok((InsertItemMaterialReq(inner), end)),
            Err(e) => Err(e),
        }
    }
}

/// The materials known, by the id of the item they belong to.
pub struct ItemMaterialCache {
    table: Table<ItemMaterialEntry>,
}

impl View for ItemMaterialCache {
    type V = Map<u32, ItemMaterialEntry>;

    closed spec fn view(&self) -> Map<u32, ItemMaterialEntry> {
        self.table@
    }
}

impl Default for ItemMaterialCache {
    fn default() -> (c: Self)
        ensures
            c@ == Map::<u32, ItemMaterialEntry>::empty(),
    {
        ItemMaterialCache::new()
    }
}

impl ItemMaterialCache {
    /// A cache with no materials.
    pub fn new() -> (c: Self)
        ensures
            c@ == Map::<u32, ItemMaterialEntry>::empty(),
    {
        ItemMaterialCache { table: Table::new() }
    }

    /// The material stored for the item, if there is one.
    pub fn get(&self, item_id: u32) -> (r: Option<ItemMaterialEntry>)
        ensures
            r is Some <==> self@.contains_key(item_id),
            r matches Some(e) ==> e == self@[item_id],
    {
        self.table.get(item_id)
    }

    /// Merges the materials given, each under its item id, from the last
    /// to the first. Returns the number of entries that were new or
    /// different; where it is zero the cache is what it was.
    pub fn insert(&mut self, input: InsertItemMaterialReq) -> (n: usize)
        ensures
            final(self)@ == merged::<ItemMaterialEntry>(
                old(self)@,
                keyed::<ItemMaterialEntry>(input.0@),
            ),
            n == changes::<ItemMaterialEntry>(old(self)@, keyed::<ItemMaterialEntry>(input.0@)),
            n == 0 ==> final(self)@ == old(self)@,
    {
        assert(input.0.deep_view() =~= input.0@);
        self.table.insert(input.0)
    }
    /// What `insert` would do, worked out beside the cache: the number of
    /// changes and, where there are any, the cache that results, ready to
    /// take this one's place in one step. Readers of this cache see it
    /// whole and unchanged until then.
    pub fn staged(&self, input: InsertItemMaterialReq) -> (r: (usize, Option<ItemMaterialCache>))
        ensures
            r.0 == changes::<ItemMaterialEntry>(self@, keyed::<ItemMaterialEntry>(input.0@)),
            r.1 is Some <==> r.0 > 0,
            r.1 matches Some(c) ==> c@ == merged::<ItemMaterialEntry>(
                self@,
                keyed::<ItemMaterialEntry>(input.0@),
            ),
    {
        let pairs = pair_up(input.0);
        assert(input.0.deep_view() =~= input.0@);
        match self.table.staged(pairs) {
            (n, Some(table)) => (n, Some(ItemMaterialCache { table })),
            (n, None) => (n, None),
        }
    }
}

} // verus!
