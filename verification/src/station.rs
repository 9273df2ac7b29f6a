//! The station cache: where each station lies and how secure its system is.

use crate::codec::{lemma_u32_at, lemma_u32_exact, u32_at, u32_value, u32_wire, CodecError, Wire};
use crate::record::{single_eq, singles_equal, Record};
use crate::table::{lemma_unchanged_counts_none, lists, lemma_merged_keyed, pair_up, changes, keyed, merged, records_restored, Table};
use vstd::prelude::*;

verus! {

/// One station.
///
/// `security` holds the security status, an IEEE-754 single, as its bit
/// pattern. Two entries are equal when their ids are and their security
/// statuses are equal as numbers.
#[derive(Clone, Copy, Debug)]
pub struct StationEntry {
    pub station_id: u32,
    pub region_id: u32,
    pub system_id: u32,
    pub security: u32,
}

impl StationEntry {
    pub fn new(station_id: u32, region_id: u32, system_id: u32, security: u32) -> (e: Self)
        ensures
            e == (StationEntry { station_id, region_id, system_id, security }),
    {
        Self { station_id, region_id, system_id, security }
    }
}

impl PartialEq for StationEntry {
    fn eq(&self, other: &Self) -> (r: bool) {
        self.equals(other)
    }
}

impl vstd::std_specs::cmp::PartialEqSpecImpl for StationEntry {
    open spec fn obeys_eq_spec() -> bool {
        true
    }

    open spec fn eq_spec(&self, other: &Self) -> bool {
        <StationEntry as Record>::same(*self, *other)
    }
}

impl DeepView for StationEntry {
    type V = StationEntry;

    open spec fn deep_view(&self) -> StationEntry {
        *self
    }
}

pub open spec fn station_parse(bytes: Seq<u8>) -> Result<(StationEntry, nat), CodecError> {
    if bytes.len() < 16 {
        Err(CodecError::Incomplete)
    } else {
        Ok(
            (
                StationEntry {
                    station_id: u32_value(bytes),
                    region_id: u32_value(bytes.skip(4)),
                    system_id: u32_value(bytes.skip(8)),
                    security: u32_value(bytes.skip(12)),
                },
                16nat,
            ),
        )
    }
}

impl Wire for StationEntry {
    open spec fn fits(v: StationEntry) -> bool {
        true
    }

    /// The four fields in declaration order, sixteen bytes in all.
    open spec fn wire(v: StationEntry) -> Seq<u8> {
        u32_wire(v.station_id) + u32_wire(v.region_id) + u32_wire(v.system_id) + u32_wire(
            v.security,
        )
    }

    open spec fn parse(bytes: Seq<u8>) -> Result<(StationEntry, nat), CodecError> {
        station_parse(bytes)
    }

    proof fn lemma_round_trip(v: StationEntry, rest: Seq<u8>) {
        let a = u32_wire(v.station_id);
        let b = u32_wire(v.region_id);
        let c = u32_wire(v.system_id);
        let d = u32_wire(v.security);
        let all = Self::wire(v) + rest;
        assert(all.skip(0) =~= all);
        assert(all =~= Seq::<u8>::empty() + a + (b + c + d + rest));
        lemma_u32_at(Seq::empty(), v.station_id, b + c + d + rest);
        assert(all =~= a + b + (c + d + rest));
        lemma_u32_at(a, v.region_id, c + d + rest);
        assert(all =~= (a + b) + c + (d + rest));
        lemma_u32_at(a + b, v.system_id, d + rest);
        assert(all =~= (a + b + c) + d + rest);
        lemma_u32_at(a + b + c, v.security, rest);
    }

    proof fn lemma_parse_within(bytes: Seq<u8>) {
    }

    proof fn lemma_parse_exact(bytes: Seq<u8>) {
        if bytes.len() >= 16 {
            lemma_u32_exact(bytes);
            lemma_u32_exact(bytes.skip(4));
            lemma_u32_exact(bytes.skip(8));
            lemma_u32_exact(bytes.skip(12));
            assert(bytes.take(4) + bytes.skip(4).take(4) + bytes.skip(8).take(4) + bytes.skip(
                12,
            ).take(4) =~= bytes.take(16));
        }
    }

    proof fn lemma_invalid_stays(bytes: Seq<u8>, more: Seq<u8>) {
    }

    fn write(&self, out: &mut Vec<u8>) {
        self.station_id.write(out);
        self.region_id.write(out);
        self.system_id.write(out);
        self.security.write(out);
    }

    fn read(bytes: &[u8], at: usize) -> (r: Result<(StationEntry, usize), CodecError>) {
        if bytes.len() - at < 16 {
            Err(CodecError::Incomplete)
        } else {
            let ghost from = bytes@.skip(at as int);
            assert(from.skip(4) =~= bytes@.skip(at + 4));
            assert(from.skip(8) =~= bytes@.skip(at + 8));
            assert(from.skip(12) =~= bytes@.skip(at + 12));
            let entry = StationEntry {
                station_id: u32_at(bytes, at),
                region_id: u32_at(bytes, at + 4),
                system_id: u32_at(bytes, at + 8),
                security: u32_at(bytes, at + 12),
            };
            Ok((entry, at + 16))
        }
    }
}

impl Record for StationEntry {
    open spec fn key_of(v: StationEntry) -> u32 {
        v.station_id
    }

    open spec fn same(a: StationEntry, b: StationEntry) -> bool {
        &&& a.station_id == b.station_id
        &&& a.region_id == b.region_id
        &&& a.system_id == b.system_id
        &&& single_eq(a.security, b.security)
    }

    fn key(&self) -> (k: u32) {
        self.station_id
    }

    fn equals(&self, other: &Self) -> (b: bool) {
        self.station_id == other.station_id && self.region_id == other.region_id && self.system_id
            == other.system_id && singles_equal(self.security, other.security)
    }

    fn duplicate(&self) -> (r: Self) {
        *self
    }
}

/// The answer that carries nothing: an acknowledgement, or a miss.
#[derive(Clone, Copy, Debug, PartialEq, Eq, Structural)]
pub struct EmptyResponse;

/// A request for the station with the given id.
#[derive(Clone, Copy, Debug)]
pub struct FetchStationEntryById(pub u32);

/// A request to merge the given stations into the cache.
#[derive(Debug)]
pub struct InsertStationEntries(pub Vec<StationEntry>);

/// The stations of a cache as they go to its file.
#[derive(Debug)]
pub struct SaveStations(pub Vec<StationEntry>);

impl DeepView for FetchStationEntryById {
    type V = u32;

    open spec fn deep_view(&self) -> u32 {
        self.0.deep_view()
    }
}

/// On the wire a request is the id it asks for.
impl Wire for FetchStationEntryById {
    open spec fn fits(v: u32) -> bool {
        <u32 as Wire>::fits(v)
    }

    open spec fn wire(v: u32) -> Seq<u8> {
        <u32 as Wire>::wire(v)
    }

    open spec fn parse(bytes: Seq<u8>) -> Result<(u32, nat), CodecError> {
        <u32 as Wire>::parse(bytes)
    }

    proof fn lemma_round_trip(v: u32, rest: Seq<u8>) {
        <u32 as Wire>::lemma_round_trip(v, rest);
    }

    proof fn lemma_parse_within(bytes: Seq<u8>) {
        <u32 as Wire>::lemma_parse_within(bytes);
    }

    proof fn lemma_parse_exact(bytes: Seq<u8>) {
        <u32 as Wire>::lemma_parse_exact(bytes);
    }

    proof fn lemma_invalid_stays(bytes: Seq<u8>, more: Seq<u8>) {
        <u32 as Wire>::lemma_invalid_stays(bytes, more);
    }

    fn write(&self, out: &mut Vec<u8>) {
        self.0.write(out);
    }

    fn read(bytes: &[u8], at: usize) -> (r: Result<(FetchStationEntryById, usize), CodecError>) {
        match <u32 as Wire>::read(bytes, at) {
            Ok((inner, end)) => Ok((FetchStationEntryById(inner), end)),
            Err(e) => Err(e),
        }
    }
}

impl DeepView for InsertStationEntries {
    type V = Seq<StationEntry>;

    open spec fn deep_view(&self) -> Seq<StationEntry> {
        self.0.deep_view()
    }
}

/// On the wire a request is the sequence of stations it carries.
impl Wire for InsertStationEntries {
    open spec fn fits(v: Seq<StationEntry>) -> bool {
        <Vec<StationEntry> as Wire>::fits(v)
    }

    open spec fn wire(v: Seq<StationEntry>) -> Seq<u8> {
        <Vec<StationEntry> as Wire>::wire(v)
    }

    open spec fn parse(bytes: Seq<u8>) -> Result<(Seq<StationEntry>, nat), CodecError> {
        <Vec<StationEntry> as Wire>::parse(bytes)
    }

    proof fn lemma_round_trip(v: Seq<StationEntry>, rest: Seq<u8>) {
        <Vec<StationEntry> as Wire>::lemma_round_trip(v, rest);
    }

    proof fn lemma_parse_within(bytes: Seq<u8>) {
        <Vec<StationEntry> as Wire>::lemma_parse_within(bytes);
    }

    proof fn lemma_parse_exact(bytes: Seq<u8>) {
        <Vec<StationEntry> as Wire>::lemma_parse_exact(bytes);
    }

    proof fn lemma_invalid_stays(bytes: Seq<u8>, more: Seq<u8>) {
        <Vec<StationEntry> as Wire>::lemma_invalid_stays(bytes, more);
    }

    fn write(&self, out: &mut Vec<u8>) {
        self.0.write(out);
    }

    fn read(bytes: &[u8], at: usize) -> (r: Result<(InsertStationEntries, usize), CodecError>) {
        match <Vec<StationEntry> as Wire>::read(bytes, at) {
            Ok((inner, end)) => Ok((InsertStationEntries(inner), end)),
            Err(e) => Err(e),
        }
    }
}

impl DeepView for SaveStations {
    type V = Seq<StationEntry>;

    open spec fn deep_view(&self) -> Seq<StationEntry> {
        self.0.deep_view()
    }
}

/// On the wire, and in the file, the stations are a sequence.
impl Wire for SaveStations {
    open spec fn fits(v: Seq<StationEntry>) -> bool {
        <Vec<StationEntry> as Wire>::fits(v)
    }

    open spec fn wire(v: Seq<StationEntry>) -> Seq<u8> {
        <Vec<StationEntry> as Wire>::wire(v)
    }

    open spec fn parse(bytes: Seq<u8>) -> Result<(Seq<StationEntry>, nat), CodecError> {
        <Vec<StationEntry> as Wire>::parse(bytes)
    }

    proof fn lemma_round_trip(v: Seq<StationEntry>, rest: Seq<u8>) {
        <Vec<StationEntry> as Wire>::lemma_round_trip(v, rest);
    }

    proof fn lemma_parse_within(bytes: Seq<u8>) {
        <Vec<StationEntry> as Wire>::lemma_parse_within(bytes);
    }

    proof fn lemma_parse_exact(bytes: Seq<u8>) {
        <Vec<StationEntry> as Wire>::lemma_parse_exact(bytes);
    }

    proof fn lemma_invalid_stays(bytes: Seq<u8>, more: Seq<u8>) {
        <Vec<StationEntry> as Wire>::lemma_invalid_stays(bytes, more);
    }

    fn write(&self, out: &mut Vec<u8>) {
        self.0.write(out);
    }

    fn read(bytes: &[u8], at: usize) -> (r: Result<(SaveStations, usize), CodecError>) {
        match <Vec<StationEntry> as Wire>::read(bytes, at) {
            Ok((inner, end)) => Ok((SaveStations(inner), end)),
            Err(e) => Err(e),
        }
    }
}

/// The stations known, by station id.
pub struct StationCache {
    table: Table<StationEntry>,
}

impl View for StationCache {
    type V = Map<u32, StationEntry>;

    closed spec fn view(&self) -> Map<u32, StationEntry> {
        self.table@
    }
}

impl Default for StationCache {
    fn default() -> (c: Self)
        ensures
            c@ == Map::<u32, StationEntry>::empty(),
    {
        StationCache::new()
    }
}

impl StationCache {
    /// Every entry is stored under its own station id.
    #[verifier::type_invariant]
    spec fn keyed(self) -> bool {
        self.table.keyed()
    }

    /// The number of stations the cache is sized for.
    pub const CAPACITY: usize = 6_000;

    /// A cache with no stations.
    pub fn new() -> (c: Self)
        ensures
            c@ == Map::<u32, StationEntry>::empty(),
    {
        StationCache { table: Table::new() }
    }

    /// The file the cache is kept in.
    pub fn file() -> (path: &'static str)
        ensures
            path@ == "./db/storage/stations.cachem"@,
    {
        "./db/storage/stations.cachem"
    }

    /// The station asked for, or the empty answer where there is none.
    pub fn fetch(&self, input: FetchStationEntryById) -> (r: Result<StationEntry, EmptyResponse>)
        ensures
            r is Ok <==> self@.contains_key(input.0),
            r matches Ok(e) ==> e == self@[input.0],
    {
        match self.table.get(input.0) {
            Some(entry) => Ok(entry),
            None => Err(EmptyResponse),
        }
    }

    /// Merges the stations given, each under its station id, from the last
    /// to the first. Returns the number of entries that were new or
    /// different; where it is zero the cache is what it was.
    pub fn insert(&mut self, input: InsertStationEntries) -> (n: usize)
        ensures
            final(self)@ == merged::<StationEntry>(old(self)@, keyed::<StationEntry>(input.0@)),
            n == changes::<StationEntry>(old(self)@, keyed::<StationEntry>(input.0@)),
            n == 0 ==> final(self)@ == old(self)@,
    {
        let pairs = pair_up(input.0);
        proof {
            use_type_invariant(&*self);
            lemma_merged_keyed::<StationEntry>(self@, input.0.deep_view());
            lemma_unchanged_counts_none::<StationEntry>(self@, pairs.deep_view());
        }
        assert(input.0.deep_view() =~= input.0@);
        match self.table.staged(pairs) {
            (n, Some(table)) => {
                self.table = table;
                n
            },
            (n, None) => n,
        }
    }

    /// What `insert` would do, worked out beside the cache: the number of
    /// changes and, where there are any, the cache that results, ready to
    /// take this one's place in one step. Readers of this cache see it
    /// whole and unchanged until then.
    pub fn staged(&self, input: InsertStationEntries) -> (r: (usize, Option<StationCache>))
        ensures
            r.0 == changes::<StationEntry>(self@, keyed::<StationEntry>(input.0@)),
            r.1 is Some <==> r.0 > 0,
            r.1 matches Some(c) ==> c@ == merged::<StationEntry>(
                self@,
                keyed::<StationEntry>(input.0@),
            ),
    {
        let pairs = pair_up(input.0);
        proof {
            use_type_invariant(self);
            lemma_merged_keyed::<StationEntry>(self@, input.0.deep_view());
        }
        assert(input.0.deep_view() =~= input.0@);
        match self.table.staged(pairs) {
            (n, Some(table)) => (n, Some(StationCache { table })),
            (n, None) => (n, None),
        }
    }

    /// Takes the contents of the cache from its file: the stations that
    /// the bytes hold, or none where the file is missing or does not
    /// decode.
    pub fn load(&mut self, file: Option<&[u8]>)
        ensures
            file matches Some(bytes) ==> final(self)@ == records_restored::<StationEntry>(bytes@),
            file is None ==> final(self)@ == Map::<u32, StationEntry>::empty(),
    {
        self.table = Table::from_record_bytes(file);
    }

    /// The contents of the cache as they go to its file. Loading them
    /// again gives the same cache.
    pub fn save(&self) -> (bytes: Vec<u8>)
        ensures
            <Vec<StationEntry> as Wire>::parse(bytes@) matches Ok(p) && p.1 == bytes@.len() && lists(
                keyed::<StationEntry>(p.0),
                self@,
            ),
            records_restored::<StationEntry>(bytes@) == self@,
    {
        proof {
            use_type_invariant(self);
        }
        let listed = SaveStations(self.table.records());
        let mut bytes: Vec<u8> = Vec::new();
        listed.write(&mut bytes);
        proof {
            let s = listed.0.deep_view();
            <Vec<StationEntry> as Wire>::lemma_round_trip(s, Seq::empty());
            assert(<Vec<StationEntry> as Wire>::wire(s) + Seq::<u8>::empty() =~= <Vec<
                StationEntry,
            > as Wire>::wire(s));
        }
        bytes
    }
}

} // verus!
