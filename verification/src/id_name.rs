//! The id-to-name index: what each item id is called.

use crate::codec::{CodecError, Wire};
use crate::record::Record;
use crate::table::{lemma_unchanged_counts_none, lists, lemma_merged_keyed, pair_up, changes, keyed, merged, records_restored, Table};
use vstd::prelude::*;

verus! {

/// The name of one item.
#[derive(Debug)]
pub struct IdNameEntry {
    pub item_id: u32,
    pub name: String,
}

/// An `IdNameEntry` as contracts see it.
pub struct IdNameModel {
    pub item_id: u32,
    pub name: Seq<char>,
}

impl IdNameEntry {
    pub fn new(item_id: u32, name: String) -> (e: Self)
        ensures
            e.deep_view() == (IdNameModel { item_id, name: name@ }),
    {
        Self { item_id, name }
    }
}

impl PartialEq for IdNameEntry {
    fn eq(&self, other: &Self) -> (r: bool) {
        self.equals(other)
    }
}

impl vstd::std_specs::cmp::PartialEqSpecImpl for IdNameEntry {
    open spec fn obeys_eq_spec() -> bool {
        true
    }

    open spec fn eq_spec(&self, other: &Self) -> bool {
        <IdNameEntry as Record>::same(self.deep_view(), other.deep_view())
    }
}

impl DeepView for IdNameEntry {
    type V = IdNameModel;

    open spec fn deep_view(&self) -> IdNameModel {
        IdNameModel { item_id: self.item_id, name: self.name@ }
    }
}

pub open spec fn id_name_parse(bytes: Seq<u8>) -> Result<(IdNameModel, nat), CodecError> {
    match <(u32, String) as Wire>::parse(bytes) {
        Err(e) => Err(e),
        Ok(p) => Ok((IdNameModel { item_id: p.0.0, name: p.0.1 }, p.1)),
    }
}

impl Wire for IdNameEntry {
    open spec fn fits(v: IdNameModel) -> bool {
        <String as Wire>::fits(v.name)
    }

    /// The id, then the name.
    open spec fn wire(v: IdNameModel) -> Seq<u8> {
        <(u32, String) as Wire>::wire((v.item_id, v.name))
    }

    open spec fn parse(bytes: Seq<u8>) -> Result<(IdNameModel, nat), CodecError> {
        id_name_parse(bytes)
    }

    proof fn lemma_round_trip(v: IdNameModel, rest: Seq<u8>) {
        <(u32, String) as Wire>::lemma_round_trip((v.item_id, v.name), rest);
    }

    proof fn lemma_parse_within(bytes: Seq<u8>) {
        <(u32, String) as Wire>::lemma_parse_within(bytes);
    }

    proof fn lemma_parse_exact(bytes: Seq<u8>) {
        <(u32, String) as Wire>::lemma_parse_exact(bytes);
    }

    proof fn lemma_invalid_stays(bytes: Seq<u8>, more: Seq<u8>) {
        <(u32, String) as Wire>::lemma_invalid_stays(bytes, more);
    }

    fn write(&self, out: &mut Vec<u8>) {
        self.item_id.write(out);
        self.name.write(out);
        assert(out@ =~= old(out)@ + Self::wire(self.deep_view()));
    }

    fn read(bytes: &[u8], at: usize) -> (r: Result<(IdNameEntry, usize), CodecError>) {
        match u32::read(bytes, at) {
            Err(e) => Err(e),
            Ok((item_id, mid)) => {
                assert(bytes@.skip(at as int).skip(4) =~= bytes@.skip(mid as int));
                match String::read(bytes, mid) {
                    Err(e) => Err(e),
                    Ok((name, end)) => Ok((IdNameEntry { item_id, name }, end)),
                }
            },
        }
    }
}

impl Record for IdNameEntry {
    open spec fn key_of(v: IdNameModel) -> u32 {
        v.item_id
    }

    open spec fn same(a: IdNameModel, b: IdNameModel) -> bool {
        a == b
    }

    fn key(&self) -> (k: u32) {
        self.item_id
    }

    fn equals(&self, other: &Self) -> (b: bool) {
        self.item_id == other.item_id && self.name == other.name
    }

    fn duplicate(&self) -> (r: Self) {
        IdNameEntry { item_id: self.item_id, name: self.name.clone() }
    }
}

/// The names of a cache as they go to its file.
#[derive(Debug)]
pub struct SaveIdName(pub Vec<IdNameEntry>);

impl DeepView for SaveIdName {
    type V = Seq<IdNameModel>;

    open spec fn deep_view(&self) -> Seq<IdNameModel> {
        self.0.deep_view()
    }
}

/// On the wire, and in the file, the names are a sequence.
impl Wire for SaveIdName {
    open spec fn fits(v: Seq<IdNameModel>) -> bool {
        <Vec<IdNameEntry> as Wire>::fits(v)
    }

    open spec fn wire(v: Seq<IdNameModel>) -> Seq<u8> {
        <Vec<IdNameEntry> as Wire>::wire(v)
    }

    open spec fn parse(bytes: Seq<u8>) -> Result<(Seq<IdNameModel>, nat), CodecError> {
        <Vec<IdNameEntry> as Wire>::parse(bytes)
    }

    proof fn lemma_round_trip(v: Seq<IdNameModel>, rest: Seq<u8>) {
        <Vec<IdNameEntry> as Wire>::lemma_round_trip(v, rest);
    }

    proof fn lemma_parse_within(bytes: Seq<u8>) {
        <Vec<IdNameEntry> as Wire>::lemma_parse_within(bytes);
    }

    proof fn lemma_parse_exact(bytes: Seq<u8>) {
        <Vec<IdNameEntry> as Wire>::lemma_parse_exact(bytes);
    }

    proof fn lemma_invalid_stays(bytes: Seq<u8>, more: Seq<u8>) {
        <Vec<IdNameEntry> as Wire>::lemma_invalid_stays(bytes, more);
    }

    fn write(&self, out: &mut Vec<u8>) {
        self.0.write(out);
    }

    fn read(bytes: &[u8], at: usize) -> (r: Result<(SaveIdName, usize), CodecError>) {
        match <Vec<IdNameEntry> as Wire>::read(bytes, at) {
            Ok((inner, end)) => Ok((SaveIdName(inner), end)),
            Err(e) => Err(e),
        }
    }
}

/// The names known, by item id.
pub struct IdNameCache {
    table: Table<IdNameEntry>,
}

impl View for IdNameCache {
    type V = Map<u32, IdNameModel>;

    closed spec fn view(&self) -> Map<u32, IdNameModel> {
        self.table@
    }
}

impl Default for IdNameCache {
    fn default() -> (c: Self)
        ensures
            c@ == Map::<u32, IdNameModel>::empty(),
    {
        IdNameCache::new()
    }
}

impl IdNameCache {
    /// Every entry is stored under its own item id.
    #[verifier::type_invariant]
    spec fn keyed(self) -> bool {
        self.table.keyed()
    }

    /// A cache with no names.
    pub fn new() -> (c: Self)
        ensures
            c@ == Map::<u32, IdNameModel>::empty(),
    {
        IdNameCache { table: Table::new() }
    }

    /// The file the cache is kept in.
    pub fn file() -> (path: &'static str)
        ensures
            path@ == "./db/storage/id_names.cachem"@,
    {
        "./db/storage/id_names.cachem"
    }

    /// The name stored for the id, if there is one.
    pub fn get(&self, item_id: u32) -> (r: Option<IdNameEntry>)
        ensures
            r is Some <==> self@.contains_key(item_id),
            r matches Some(e) ==> e.deep_view() == self@[item_id],
    {
        self.table.get(item_id)
    }

    /// Merges the names given, each under its item id, from the last to
    /// the first. Returns the number of entries that were new or
    /// different; where it is zero the cache is what it was.
    pub fn insert(&mut self, input: Vec<IdNameEntry>) -> (n: usize)
        ensures
            final(self)@ == merged::<IdNameEntry>(
                old(self)@,
                keyed::<IdNameEntry>(input.deep_view()),
            ),
            n == changes::<IdNameEntry>(old(self)@, keyed::<IdNameEntry>(input.deep_view())),
            n == 0 ==> final(self)@ == old(self)@,
    {
        let pairs = pair_up(input);
        proof {
            use_type_invariant(&*self);
            lemma_merged_keyed::<IdNameEntry>(self@, input.deep_view());
            lemma_unchanged_counts_none::<IdNameEntry>(self@, pairs.deep_view());
        }
        match self.table.staged(pairs) {
            (n, Some(table)) => {
                self.table = table;
                n
            },
            (n, None) => n,
        }
    }

    /// What `insert` would do, worked out beside the cache: the number of
    /// changes and, where there are any, the cache that results, ready to
    /// take this one's place in one step. Readers of this cache see it
    /// whole and unchanged until then.
    pub fn staged(&self, input: Vec<IdNameEntry>) -> (r: (usize, Option<IdNameCache>))
        ensures
            r.0 == changes::<IdNameEntry>(self@, keyed::<IdNameEntry>(input.deep_view())),
            r.1 is Some <==> r.0 > 0,
            r.1 matches Some(c) ==> c@ == merged::<IdNameEntry>(
                self@,
                keyed::<IdNameEntry>(input.deep_view()),
            ),
    {
        let pairs = pair_up(input);
        proof {
            use_type_invariant(self);
            lemma_merged_keyed::<IdNameEntry>(self@, input.deep_view());
        }
        match self.table.staged(pairs) {
            (n, Some(table)) => (n, Some(IdNameCache { table })),
            (n, None) => (n, None),
        }
    }

    /// Makes the cache from its file: the names that the bytes hold, or
    /// none where the file is missing or does not decode.
    pub fn load(file: Option<&[u8]>) -> (c: Self)
        ensures
            file matches Some(bytes) ==> c@ == records_restored::<IdNameEntry>(bytes@),
            file is None ==> c@ == Map::<u32, IdNameModel>::empty(),
    {
        IdNameCache { table: Table::from_record_bytes(file) }
    }

    /// The contents of the cache as they go to its file. Loading them
    /// again gives the same cache.
    pub fn save(&self) -> (bytes: Vec<u8>)
        ensures
            <Vec<IdNameEntry> as Wire>::parse(bytes@) matches Ok(p) && p.1 == bytes@.len() && lists(
                keyed::<IdNameEntry>(p.0),
                self@,
            ),
            records_restored::<IdNameEntry>(bytes@) == self@,
    {
        proof {
            use_type_invariant(self);
        }
        let listed = SaveIdName(self.table.records());
        let mut bytes: Vec<u8> = Vec::new();
        listed.write(&mut bytes);
        proof {
            let s = listed.0.deep_view();
            <Vec<IdNameEntry> as Wire>::lemma_round_trip(s, Seq::empty());
            assert(<Vec<IdNameEntry> as Wire>::wire(s) + Seq::<u8>::empty() =~= <Vec<
                IdNameEntry,
            > as Wire>::wire(s));
        }
        bytes
    }
}

} // verus!
