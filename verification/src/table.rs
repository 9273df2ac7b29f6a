//! The table engine: one keyed map of records, written through a merge that
//! counts what a batch really changes.

use crate::codec::Wire;
use crate::record::Record;
use std::collections::HashMap;
use vstd::prelude::*;
use vstd::std_specs::hash::*;
use vstd::std_specs::iter::IteratorSpec;

verus! {

/// Whether writing `v` under `k` would change `t`: the key is new, or the
/// record stored under it is not equal to `v`.
pub open spec fn differs<R: Record>(t: Map<u32, R::V>, k: u32, v: R::V) -> bool {
    !t.contains_key(k) || !R::same(t[k], v)
}

/// `t` after one write: `v` stored under `k` if that changes anything,
/// `t` untouched if not.
pub open spec fn put<R: Record>(t: Map<u32, R::V>, k: u32, v: R::V) -> Map<u32, R::V> {
    if differs::<R>(t, k, v) {
        t.insert(k, v)
    } else {
        t
    }
}

/// `t` after the writes of `batch`, taken from its last entry to its first.
pub open spec fn merged<R: Record>(t: Map<u32, R::V>, batch: Seq<(u32, R::V)>) -> Map<u32, R::V>
    decreases batch.len(),
{
    if batch.len() == 0 {
        t
    } else {
        merged::<R>(put::<R>(t, batch.last().0, batch.last().1), batch.drop_last())
    }
}

/// How many writes of `batch` change the table, each judged against the
/// table as the writes before it left it.
pub open spec fn changes<R: Record>(t: Map<u32, R::V>, batch: Seq<(u32, R::V)>) -> nat
    decreases batch.len(),
{
    if batch.len() == 0 {
        0
    } else {
        let k = batch.last().0;
        let v = batch.last().1;
        (if differs::<R>(t, k, v) {
            1nat
        } else {
            0nat
        }) + changes::<R>(put::<R>(t, k, v), batch.drop_last())
    }
}

/// Each record of `s` paired with the key it names itself by.
pub open spec fn keyed<R: Record>(s: Seq<R::V>) -> Seq<(u32, R::V)> {
    Seq::new(s.len(), |i: int| (R::key_of(s[i]), s[i]))
}

/// `t` with `b` laid over it: a key of `b` takes the record of `b` where
/// that differs from what `t` holds, every other key keeps what `t` holds.
pub open spec fn overlay<R: Record>(t: Map<u32, R::V>, b: Map<u32, R::V>) -> Map<u32, R::V> {
    Map::new(
        |k: u32| t.contains_key(k) || b.contains_key(k),
        |k: u32|
            if b.contains_key(k) && differs::<R>(t, k, b[k]) {
                b[k]
            } else {
                t[k]
            },
    )
}

/// The keys of `b` whose record differs from what `t` holds.
pub open spec fn changed_keys<R: Record>(t: Map<u32, R::V>, b: Map<u32, R::V>) -> Set<u32> {
    Set::new(|k: u32| b.contains_key(k) && differs::<R>(t, k, b[k]))
}

/// The map that the pairs of `s` build when stored in order, a later pair
/// replacing an earlier one with the same key.
pub open spec fn collected<V>(s: Seq<(u32, V)>) -> Map<u32, V>
    decreases s.len(),
{
    if s.len() == 0 {
        Map::empty()
    } else {
        collected(s.drop_last()).insert(s.last().0, s.last().1)
    }
}

/// Whether `s` lists `m`: every entry of `m` exactly once and nothing else.
pub open spec fn lists<V>(s: Seq<(u32, V)>, m: Map<u32, V>) -> bool {
    &&& forall|i: int| 0 <= i < s.len() ==> m.contains_key(#[trigger] s[i].0) && m[s[i].0] == s[i].1
    &&& forall|i: int, j: int| 0 <= i < j < s.len() ==> #[trigger] s[i].0 != #[trigger] s[j].0
    &&& forall|k: u32| m.contains_key(k) ==> exists|i: int| 0 <= i < s.len() && #[trigger] s[i].0 == k
}

/// The table that the bytes of an entry snapshot hold: the decoded pairs
/// stored in order, or nothing where the bytes do not decode.
pub open spec fn entries_restored<R: Record>(bytes: Seq<u8>) -> Map<u32, R::V> {
    match <Vec<(u32, R)> as Wire>::parse(bytes) {
        Ok(p) => collected(p.0),
        Err(_) => Map::empty(),
    }
}

/// The table that the bytes of a record snapshot hold: the decoded records
/// stored in order, each under the key it names itself by, or nothing where
/// the bytes do not decode.
pub open spec fn records_restored<R: Record>(bytes: Seq<u8>) -> Map<u32, R::V> {
    match <Vec<R> as Wire>::parse(bytes) {
        Ok(p) => collected(keyed::<R>(p.0)),
        Err(_) => Map::empty(),
    }
}

/// The records of the pairs of `s`, in order.
pub open spec fn seconds<V>(s: Seq<(u32, V)>) -> Seq<V> {
    Seq::new(s.len(), |i: int| s[i].1)
}

/// A keyed map of records.
pub struct Table<R: Record> {
    map: HashMap<u32, R>,
}

impl<R: Record> View for Table<R> {
    type V = Map<u32, R::V>;

    closed spec fn view(&self) -> Map<u32, R::V> {
        Map::new(|k: u32| self.map@.contains_key(k), |k: u32| self.map@[k].deep_view())
    }
}

impl<R: Record> Table<R> {
    /// Whether every record is stored under the key it names itself by.
    pub open spec fn keyed(&self) -> bool {
        forall|k: u32| self@.contains_key(k) ==> R::key_of(#[trigger] self@[k]) == k
    }

    /// An empty table.
    pub fn new() -> (t: Self)
        ensures
            t@ == Map::<u32, R::V>::empty(),
    {
        let t = Table { map: HashMap::new() };
        assert(t@ =~= Map::<u32, R::V>::empty());
        t
    }

    /// The number of records.
    pub fn len(&self) -> (n: usize)
        ensures
            n == self@.dom().len(),
            self@.dom().finite(),
    {
        broadcast use group_hash_axioms;
        assert(self@.dom() =~= self.map@.dom());
        self.map.len()
    }

    /// A copy of the record under `key`, if there is one.
    pub fn get(&self, key: u32) -> (r: Option<R>)
        ensures
            r is Some <==> self@.contains_key(key),
            r matches Some(x) ==> x.deep_view() == self@[key],
    {
        broadcast use group_hash_axioms;
        match self.map.get(&key) {
            Some(x) => Some(x.duplicate()),
            None => None,
        }
    }

    /// Writes `record` under `key` unless an equal record is already there.
    /// Returns the number of changes made: one or none.
    pub fn set(&mut self, key: u32, record: R) -> (n: usize)
        ensures
            final(self)@ == put::<R>(old(self)@, key, record.deep_view()),
            n == changes::<R>(old(self)@, seq![(key, record.deep_view())]),
            n == (if differs::<R>(old(self)@, key, record.deep_view()) { 1nat } else { 0nat }),
    {
        broadcast use group_hash_axioms;
        let ghost batch = seq![(key, record.deep_view())];
        assert(batch.drop_last() =~= Seq::<(u32, R::V)>::empty());
        assert(changes::<R>(put::<R>(self@, key, record.deep_view()), batch.drop_last()) == 0);
        let fresh: bool = match self.map.get(&key) {
            Some(held) => !held.equals(&record),
            None => true,
        };
        if fresh {
            self.map.insert(key, record);
            assert(self@ =~= old(self)@.insert(key, record.deep_view()));
            1
        } else {
            0
        }
    }

    /// Merges a batch of writes, taking them from the last to the first.
    /// Returns the number of changes; where it is zero the table is what it
    /// was.
    pub fn merge(&mut self, batch: Vec<(u32, R)>) -> (n: usize)
        ensures
            final(self)@ == merged::<R>(old(self)@, batch.deep_view()),
            n == changes::<R>(old(self)@, batch.deep_view()),
            n == 0 ==> final(self)@ == old(self)@,
    {
        let ghost whole = batch.deep_view();
        let mut batch = batch;
        let mut n: usize = 0;
        assert(batch@.len() == batch.len());
        while batch.len() > 0
            invariant
                merged::<R>(old(self)@, whole) == merged::<R>(self@, batch.deep_view()),
                changes::<R>(old(self)@, whole) == n + changes::<R>(self@, batch.deep_view()),
                n + batch@.len() <= usize::MAX,
                n == 0 ==> self@ == old(self)@,
            decreases batch@.len(),
        {
            let ghost before = batch.deep_view();
            let pair = batch.pop().unwrap();
            assert(before.last() == (pair.0, pair.1.deep_view()));
            assert(before.drop_last() =~= batch.deep_view());
            let one = self.set(pair.0, pair.1);
            n = n + one;
        }
        n
    }

    /// Merges a batch of records, each under the key it names itself by,
    /// taking them from the last to the first. Returns the number of
    /// changes; where it is zero the table is what it was.
    pub fn insert(&mut self, batch: Vec<R>) -> (n: usize)
        ensures
            final(self)@ == merged::<R>(old(self)@, keyed::<R>(batch.deep_view())),
            n == changes::<R>(old(self)@, keyed::<R>(batch.deep_view())),
            n == 0 ==> final(self)@ == old(self)@,
            old(self).keyed() ==> final(self).keyed(),
    {
        let pairs = pair_up(batch);
        proof {
            if self.keyed() {
                lemma_merged_keyed::<R>(self@, batch.deep_view());
            }
        }
        self.merge(pairs)
    }

    /// Merges a batch given as a table of its own: each of its entries is
    /// written under its key. Returns the number of changes; where it is
    /// zero the table is what it was.
    pub fn mset(&mut self, batch: &Table<R>) -> (n: usize)
        ensures
            final(self)@ == overlay::<R>(old(self)@, batch@),
            n == changed_keys::<R>(old(self)@, batch@).len(),
            n == 0 ==> final(self)@ == old(self)@,
    {
        let pairs = batch.entries();
        proof {
            lemma_merge_distinct::<R>(self@, pairs.deep_view(), batch@);
        }
        self.merge(pairs)
    }

    /// What `merge` would do, worked out beside the table: the number of
    /// changes and, where there are any, the table that results, ready to
    /// take this one's place in one step.
    pub fn staged(&self, batch: Vec<(u32, R)>) -> (r: (usize, Option<Table<R>>))
        ensures
            r.0 == changes::<R>(self@, batch.deep_view()),
            r.1 is Some <==> r.0 > 0,
            r.1 matches Some(t) ==> t@ == merged::<R>(self@, batch.deep_view()),
    {
        let mut copy = self.duplicate();
        let n = copy.merge(batch);
        if n > 0 {
            (n, Some(copy))
        } else {
            (n, None)
        }
    }

    /// A copy of the table.
    pub fn duplicate(&self) -> (t: Self)
        ensures
            t@ == self@,
    {
        let pairs = self.entries();
        proof {
            lemma_collected_lists(pairs.deep_view(), self@);
        }
        Table::from_entries(pairs)
    }

    /// The table as bytes: its entries as a sequence of key and record, in
    /// no particular order. `entries_restored` reads it back.
    pub fn to_entry_bytes(&self) -> (bytes: Vec<u8>)
        ensures
            <Vec<(u32, R)> as Wire>::parse(bytes@) matches Ok(p) && p.1 == bytes@.len() && lists(
                p.0,
                self@,
            ),
            entries_restored::<R>(bytes@) == self@,
    {
        let pairs = self.entries();
        let mut bytes: Vec<u8> = Vec::new();
        pairs.write(&mut bytes);
        proof {
            let s = pairs.deep_view();
            <Vec<(u32, R)> as Wire>::lemma_round_trip(s, Seq::empty());
            assert(<Vec<(u32, R)> as Wire>::wire(s) + Seq::<u8>::empty() =~= <Vec<
                (u32, R),
            > as Wire>::wire(s));
            lemma_collected_lists(s, self@);
        }
        bytes
    }

    /// Every record, once, in no particular order.
    pub fn records(&self) -> (r: Vec<R>)
        ensures
            r@.len() == self@.dom().len(),
            exists|s: Seq<(u32, R::V)>| lists(s, self@) && r.deep_view() == #[trigger] seconds(s),
            self.keyed() ==> lists(keyed::<R>(r.deep_view()), self@),
            self.keyed() ==> collected(keyed::<R>(r.deep_view())) == self@,
    {
        let pairs = self.entries();
        let ghost listed = pairs.deep_view();
        let mut records: Vec<R> = Vec::new();
        assert(records.deep_view() =~= Seq::new(0, |j: int| listed[j].1));
        for pair in it: pairs.into_iter()
            invariant
                it.seq() == pairs@,
                listed.len() == pairs@.len(),
                forall|j: int|
                    0 <= j < listed.len() ==> #[trigger] listed[j] == pairs@[j].deep_view(),
                records.deep_view() == Seq::new(it.index() as nat, |j: int| listed[j].1),
                records@.len() == it.index(),
        {
            let ghost done = records.deep_view();
            records.push(pair.1);
            assert(records.deep_view() =~= done.push(listed[it.index()].1));
            assert(records.deep_view() =~= Seq::new(
                (it.index() + 1) as nat,
                |j: int| listed[j].1,
            ));
        }
        proof {
            let s = records.deep_view();
            assert(s =~= seconds(listed));
            if self.keyed() {
                assert forall|j: int| 0 <= j < listed.len() implies R::key_of(listed[j].1)
                    == listed[j].0 by {
                    assert(self@.contains_key(listed[j].0) && self@[listed[j].0] == listed[j].1);
                }
                assert(keyed::<R>(s) =~= listed);
                lemma_collected_lists(listed, self@);
            }
        }
        records
    }

    /// The table as bytes: its records as a sequence, in no particular
    /// order. `records_restored` reads it back where every record is stored
    /// under the key it names itself by.
    pub fn to_record_bytes(&self) -> (bytes: Vec<u8>)
        ensures
            <Vec<R> as Wire>::parse(bytes@) matches Ok(p) && p.1 == bytes@.len() && exists|
                s: Seq<(u32, R::V)>,
            | lists(s, self@) && p.0 == #[trigger] seconds(s),
            self.keyed() ==> records_restored::<R>(bytes@) == self@,
    {
        let records = self.records();
        let mut bytes: Vec<u8> = Vec::new();
        records.write(&mut bytes);
        proof {
            let s = records.deep_view();
            <Vec<R> as Wire>::lemma_round_trip(s, Seq::empty());
            assert(<Vec<R> as Wire>::wire(s) + Seq::<u8>::empty() =~= <Vec<R> as Wire>::wire(s));
        }
        bytes
    }

    /// Reads back what `to_entry_bytes` wrote. Where there are no bytes, or
    /// they do not decode, the table is empty.
    pub fn from_entry_bytes(file: Option<&[u8]>) -> (t: Self)
        ensures
            file matches Some(bytes) ==> t@ == entries_restored::<R>(bytes@),
            file is None ==> t@ == Map::<u32, R::V>::empty(),
    {
        match file {
            None => Table::new(),
            Some(bytes) => {
                assert(bytes@.skip(0) =~= bytes@);
                match <Vec<(u32, R)> as Wire>::read(bytes, 0) {
                    Ok((pairs, _)) => Table::from_entries(pairs),
                    Err(_) => Table::new(),
                }
            },
        }
    }

    /// Reads back what `to_record_bytes` wrote, each record under the key
    /// it names itself by. Where there are no bytes, or they do not decode,
    /// the table is empty.
    pub fn from_record_bytes(file: Option<&[u8]>) -> (t: Self)
        ensures
            file matches Some(bytes) ==> t@ == records_restored::<R>(bytes@),
            file is None ==> t@ == Map::<u32, R::V>::empty(),
            t.keyed(),
    {
        match file {
            None => Table::new(),
            Some(bytes) => {
                assert(bytes@.skip(0) =~= bytes@);
                match <Vec<R> as Wire>::read(bytes, 0) {
                    Ok((records, _)) => Table::from_records(records),
                    Err(_) => Table::new(),
                }
            },
        }
    }

    /// Copies of the records under the given keys, for the keys that are
    /// present. A key that is absent is left out.
    pub fn mget(&self, keys: &Vec<u32>) -> (found: Table<R>)
        ensures
            forall|k: u32|
                found@.contains_key(k) <==> (keys@.contains(k) && self@.contains_key(k)),
            forall|k: u32| found@.contains_key(k) ==> found@[k] == self@[k],
    {
        broadcast use group_hash_axioms;
        let mut found: Table<R> = Table::new();
        let mut i: usize = 0;
        while i < keys.len()
            invariant
                i <= keys@.len(),
                forall|k: u32|
                    found@.contains_key(k) <==> (keys@.take(i as int).contains(k)
                        && self@.contains_key(k)),
                forall|k: u32| found@.contains_key(k) ==> found@[k] == self@[k],
            decreases keys@.len() - i,
        {
            let key: u32 = keys[i];
            let ghost seen = keys@.take(i as int);
            assert(keys@.take(i + 1) =~= seen.push(key));
            assert forall|k: u32| seen.push(key).contains(k) <==> (seen.contains(k) || k == key) by {
                if seen.contains(k) {
                    let j = choose|j: int| 0 <= j < seen.len() && seen[j] == k;
                    assert(seen.push(key)[j] == k);
                }
                if k == key {
                    assert(seen.push(key)[seen.len() as int] == k);
                }
            }
            let ghost prev = found@;
            match self.map.get(&key) {
                Some(held) => {
                    let copy = held.duplicate();
                    found.map.insert(key, copy);
                    assert(found@ =~= prev.insert(key, self@[key]));
                },
                None => {
                    assert(!self@.contains_key(key));
                },
            }
            i += 1;
        }
        assert(keys@.take(i as int) =~= keys@);
        found
    }

    /// Every key, once, in no particular order.
    pub fn keys(&self) -> (r: Vec<u32>)
        ensures
            r@.no_duplicates(),
            forall|k: u32| r@.contains(k) <==> self@.contains_key(k),
            r@.len() == self@.dom().len(),
    {
        broadcast use group_hash_axioms;
        let mut out: Vec<u32> = Vec::new();
        for k in it: self.map.keys()
            invariant
                out@ == it.seq().unref().take(it.index()),
        {
            out.push(*k);
            assert(it.seq().unref().take(it.index() + 1) == it.seq().unref().take(
                it.index(),
            ).push(*k));
        }
        let ghost all = spec_keys_iter(&self.map).remaining().unref();
        assert(out@ == all);
        assert(self@.dom() =~= self.map@.dom());
        assert forall|k: u32| out@.contains(k) <==> self@.contains_key(k) by {
            assert(all.to_set().contains(k) <==> all.contains(k));
        }
        out
    }

    /// Every entry, once, in no particular order.
    pub fn entries(&self) -> (r: Vec<(u32, R)>)
        ensures
            lists(r.deep_view(), self@),
            r@.len() == self@.dom().len(),
    {
        broadcast use group_hash_axioms;
        let keys = self.keys();
        let mut out: Vec<(u32, R)> = Vec::new();
        let mut i: usize = 0;
        while i < keys.len()
            invariant
                i <= keys@.len(),
                out@.len() == i,
                forall|k: u32| keys@.contains(k) <==> self@.contains_key(k),
                forall|j: int|
                    0 <= j < i ==> (#[trigger] out.deep_view()[j]).0 == keys@[j]
                        && out.deep_view()[j].1 == self@[keys@[j]],
            decreases keys@.len() - i,
        {
            let key: u32 = keys[i];
            assert(keys@.contains(key));
            let ghost done = out.deep_view();
            match self.map.get(&key) {
                Some(held) => {
                    out.push((key, held.duplicate()));
                },
                None => {
                    assert(false);
                },
            }
            assert(out.deep_view() =~= done.push((key, self@[key])));
            i += 1;
        }
        proof {
            let s = out.deep_view();
            assert forall|k: u32| self@.contains_key(k) implies exists|j: int|
                0 <= j < s.len() && #[trigger] s[j].0 == k by {
                assert(keys@.contains(k));
                let j = choose|j: int| 0 <= j < keys@.len() && keys@[j] == k;
                assert(s[j].0 == k);
            }
            assert forall|a: int, b: int| 0 <= a < b < s.len() implies #[trigger] s[a].0
                != #[trigger] s[b].0 by {
                assert(keys@[a] != keys@[b]);
            }
            assert forall|j: int| 0 <= j < s.len() implies self@.contains_key(#[trigger] s[j].0)
                && self@[s[j].0] == s[j].1 by {
                assert(keys@.contains(keys@[j]));
            }
        }
        out
    }

    /// Builds a table from pairs stored in order, a later pair replacing an
    /// earlier one with the same key.
    pub fn from_entries(pairs: Vec<(u32, R)>) -> (t: Self)
        ensures
            t@ == collected(pairs.deep_view()),
    {
        broadcast use group_hash_axioms;
        let ghost whole = pairs.deep_view();
        let ghost raw = pairs@;
        let mut t: Table<R> = Table::new();
        for pair in it: pairs.into_iter()
            invariant
                it.seq() == raw,
                whole.len() == raw.len(),
                forall|j: int| 0 <= j < raw.len() ==> #[trigger] whole[j] == raw[j].deep_view(),
                t@ == collected(whole.take(it.index())),
        {
            let ghost at = it.index();
            assert(whole.take(at + 1).drop_last() =~= whole.take(at));
            assert(whole.take(at + 1).last() == whole[at]);
            t.map.insert(pair.0, pair.1);
            assert(t@ =~= collected(whole.take(at)).insert(whole[at].0, whole[at].1));
        }
        assert(whole.take(whole.len() as int) =~= whole);
        t
    }

    /// Builds a table from records, each stored under the key it names
    /// itself by, a later record replacing an earlier one with the same key.
    pub fn from_records(records: Vec<R>) -> (t: Self)
        ensures
            t@ == collected(keyed::<R>(records.deep_view())),
            t.keyed(),
    {
        let ghost whole = records.deep_view();
        let ghost raw = records@;
        let mut pairs: Vec<(u32, R)> = Vec::new();
        assert(pairs.deep_view() =~= keyed::<R>(whole.take(0)));
        for record in it: records.into_iter()
            invariant
                it.seq() == raw,
                whole.len() == raw.len(),
                forall|j: int| 0 <= j < raw.len() ==> #[trigger] whole[j] == raw[j].deep_view(),
                pairs.deep_view() == keyed::<R>(whole.take(it.index())),
        {
            let ghost at = it.index();
            let ghost done = pairs.deep_view();
            let key = record.key();
            pairs.push((key, record));
            assert(pairs.deep_view() =~= done.push((key, whole[at])));
            assert(pairs.deep_view() =~= keyed::<R>(whole.take(at + 1)));
        }
        assert(whole.take(whole.len() as int) =~= whole);
        let t = Table::from_entries(pairs);
        proof {
            lemma_collected_keyed::<R>(whole);
        }
        t
    }
}

/// A table built from records stores each under the key it names itself by.
pub proof fn lemma_collected_keyed<R: Record>(s: Seq<R::V>)
    ensures
        forall|k: u32|
            collected(keyed::<R>(s)).contains_key(k) ==> R::key_of(
                #[trigger] collected(keyed::<R>(s))[k],
            ) == k,
    decreases s.len(),
{
    if s.len() > 0 {
        let front = collected(keyed::<R>(s.drop_last()));
        assert(keyed::<R>(s).drop_last() =~= keyed::<R>(s.drop_last()));
        lemma_collected_keyed::<R>(s.drop_last());
        assert(collected(keyed::<R>(s)) == front.insert(R::key_of(s.last()), s.last()));
        assert forall|k: u32| collected(keyed::<R>(s)).contains_key(k) implies R::key_of(
            #[trigger] collected(keyed::<R>(s))[k],
        ) == k by {
            if k != R::key_of(s.last()) {
                assert(front.contains_key(k));
                assert(R::key_of(front[k]) == k);
            }
        }
    }
}


/// Pairs each record with the key it names itself by.
pub fn pair_up<R: Record>(records: Vec<R>) -> (pairs: Vec<(u32, R)>)
    ensures
        pairs.deep_view() == keyed::<R>(records.deep_view()),
{
    let ghost whole = records.deep_view();
    let ghost raw = records@;
    let mut pairs: Vec<(u32, R)> = Vec::new();
    assert(pairs.deep_view() =~= keyed::<R>(whole.take(0)));
    for record in it: records.into_iter()
        invariant
            it.seq() == raw,
            whole.len() == raw.len(),
            forall|j: int| 0 <= j < raw.len() ==> #[trigger] whole[j] == raw[j].deep_view(),
            pairs.deep_view() == keyed::<R>(whole.take(it.index())),
    {
        let ghost at = it.index();
        let ghost done = pairs.deep_view();
        let key = record.key();
        pairs.push((key, record));
        assert(pairs.deep_view() =~= done.push((key, whole[at])));
        assert(pairs.deep_view() =~= keyed::<R>(whole.take(at + 1)));
    }
    assert(whole.take(whole.len() as int) =~= whole);
    pairs
}

/// Merging records under their own keys keeps every record under its own
/// key.
pub proof fn lemma_merged_keyed<R: Record>(t: Map<u32, R::V>, s: Seq<R::V>)
    requires
        forall|k: u32| t.contains_key(k) ==> R::key_of(#[trigger] t[k]) == k,
    ensures
        forall|k: u32|
            merged::<R>(t, keyed::<R>(s)).contains_key(k) ==> R::key_of(
                #[trigger] merged::<R>(t, keyed::<R>(s))[k],
            ) == k,
    decreases s.len(),
{
    if s.len() > 0 {
        let k = R::key_of(s.last());
        let next = put::<R>(t, k, s.last());
        assert(keyed::<R>(s).drop_last() =~= keyed::<R>(s.drop_last()));
        assert(keyed::<R>(s).last() == (k, s.last()));
        assert(merged::<R>(t, keyed::<R>(s)) == merged::<R>(next, keyed::<R>(s.drop_last())));
        assert forall|j: u32| next.contains_key(j) implies R::key_of(#[trigger] next[j]) == j by {
            if j != k {
                assert(t.contains_key(j));
            }
        }
        lemma_merged_keyed::<R>(next, s.drop_last());
    }
}

/// A sequence that lists a map builds that map.
pub proof fn lemma_collected_lists<V>(s: Seq<(u32, V)>, m: Map<u32, V>)
    requires
        lists(s, m),
    ensures
        collected(s) == m,
    decreases s.len(),
{
    if s.len() == 0 {
        assert(m =~= Map::<u32, V>::empty());
    } else {
        let last = s.last();
        let front = s.drop_last();
        let less = m.remove(last.0);
        assert forall|k: u32| less.contains_key(k) implies exists|i: int|
            0 <= i < front.len() && #[trigger] front[i].0 == k by {
            let i = choose|i: int| 0 <= i < s.len() && #[trigger] s[i].0 == k;
            assert(front[i].0 == k);
        }
        assert forall|i: int| 0 <= i < front.len() implies less.contains_key(
            #[trigger] front[i].0,
        ) && less[front[i].0] == front[i].1 by {
            assert(s[i].0 != s[s.len() - 1].0);
            assert(m.contains_key(s[i].0) && m[s[i].0] == s[i].1);
        }
        assert(lists(front, less)) by {
            assert forall|i: int, j: int| 0 <= i < j < front.len() implies #[trigger] front[i].0
                != #[trigger] front[j].0 by {
                assert(s[i].0 != s[j].0);
            }
        }
        lemma_collected_lists(front, less);
        assert(m.contains_key(s[s.len() - 1].0) && m[s[s.len() - 1].0] == s[s.len() - 1].1);
        assert(less.insert(last.0, last.1) =~= m);
    }
}

/// Idempotent merge: a batch whose every entry equals what the table
/// already holds under its key changes nothing and counts no change.
pub proof fn lemma_merge_idempotent<R: Record>(t: Map<u32, R::V>, batch: Seq<(u32, R::V)>)
    requires
        forall|i: int|
            0 <= i < batch.len() ==> t.contains_key(#[trigger] batch[i].0) && R::same(
                t[batch[i].0],
                batch[i].1,
            ),
    ensures
        merged::<R>(t, batch) == t,
        changes::<R>(t, batch) == 0,
    decreases batch.len(),
{
    if batch.len() > 0 {
        let last = batch.last();
        assert(batch[batch.len() - 1] == last);
        assert(!differs::<R>(t, last.0, last.1));
        let front = batch.drop_last();
        assert forall|i: int| 0 <= i < front.len() implies t.contains_key(#[trigger] front[i].0)
            && R::same(t[front[i].0], front[i].1) by {
            assert(front[i] == batch[i]);
        }
        lemma_merge_idempotent::<R>(t, front);
    }
}

/// Insert on miss: a write under a key the table lacks stores the record
/// and counts as one change.
pub proof fn lemma_insert_on_miss<R: Record>(t: Map<u32, R::V>, k: u32, v: R::V)
    requires
        !t.contains_key(k),
    ensures
        merged::<R>(t, seq![(k, v)]) == t.insert(k, v),
        changes::<R>(t, seq![(k, v)]) == 1,
{
    let batch = seq![(k, v)];
    assert(batch.drop_last() =~= Seq::<(u32, R::V)>::empty());
    assert(batch.last() == (k, v));
    assert(merged::<R>(put::<R>(t, k, v), batch.drop_last()) == put::<R>(t, k, v));
    assert(changes::<R>(put::<R>(t, k, v), batch.drop_last()) == 0);
}

/// Where a batch lists a mapping, the order of its writes does not matter:
/// the table ends as the mapping laid over it, and the changes counted are
/// exactly the keys whose record differed.
pub proof fn lemma_merge_distinct<R: Record>(
    t: Map<u32, R::V>,
    s: Seq<(u32, R::V)>,
    b: Map<u32, R::V>,
)
    requires
        lists(s, b),
    ensures
        merged::<R>(t, s) == overlay::<R>(t, b),
        changed_keys::<R>(t, b).finite(),
        changes::<R>(t, s) == changed_keys::<R>(t, b).len(),
    decreases s.len(),
{
    if s.len() == 0 {
        assert(overlay::<R>(t, b) =~= t);
        assert(changed_keys::<R>(t, b) =~= Set::<u32>::empty());
    } else {
        let last = s.last();
        let front = s.drop_last();
        let less = b.remove(last.0);
        let next = put::<R>(t, last.0, last.1);
        assert(b.contains_key(s[s.len() - 1].0) && b[s[s.len() - 1].0] == s[s.len() - 1].1);
        assert forall|k: u32| less.contains_key(k) implies exists|i: int|
            0 <= i < front.len() && #[trigger] front[i].0 == k by {
            let i = choose|i: int| 0 <= i < s.len() && #[trigger] s[i].0 == k;
            assert(front[i].0 == k);
        }
        assert forall|i: int| 0 <= i < front.len() implies less.contains_key(
            #[trigger] front[i].0,
        ) && less[front[i].0] == front[i].1 by {
            assert(s[i].0 != s[s.len() - 1].0);
            assert(b.contains_key(s[i].0) && b[s[i].0] == s[i].1);
        }
        assert(lists(front, less)) by {
            assert forall|i: int, j: int| 0 <= i < j < front.len() implies #[trigger] front[i].0
                != #[trigger] front[j].0 by {
                assert(s[i].0 != s[j].0);
            }
        }
        lemma_merge_distinct::<R>(next, front, less);
        assert(overlay::<R>(next, less) =~= overlay::<R>(t, b));
        let rest = changed_keys::<R>(next, less);
        if differs::<R>(t, last.0, last.1) {
            assert(changed_keys::<R>(t, b) =~= rest.insert(last.0));
            assert(!rest.contains(last.0));
        } else {
            assert(changed_keys::<R>(t, b) =~= rest);
        }
    }
}


/// A batch that counts no change leaves the table as it was.
pub proof fn lemma_unchanged_counts_none<R: Record>(t: Map<u32, R::V>, batch: Seq<(u32, R::V)>)
    ensures
        changes::<R>(t, batch) == 0 ==> merged::<R>(t, batch) == t,
    decreases batch.len(),
{
    if batch.len() > 0 && changes::<R>(t, batch) == 0 {
        lemma_unchanged_counts_none::<R>(t, batch.drop_last());
    }
}


/// Whether no key occurs twice among the pairs of `s`.
pub open spec fn distinct_keys<V>(s: Seq<(u32, V)>) -> bool {
    forall|i: int, j: int| 0 <= i < j < s.len() ==> #[trigger] s[i].0 != #[trigger] s[j].0
}

/// Pairs among which no key occurs twice list the map they build.
pub proof fn lemma_distinct_lists<V>(s: Seq<(u32, V)>)
    requires
        distinct_keys(s),
    ensures
        lists(s, collected(s)),
    decreases s.len(),
{
    if s.len() > 0 {
        let front = s.drop_last();
        let last = s.last();
        assert forall|i: int, j: int| 0 <= i < j < front.len() implies #[trigger] front[i].0
            != #[trigger] front[j].0 by {
            assert(s[i].0 != s[j].0);
        }
        lemma_distinct_lists(front);
        let m = collected(s);
        assert(m == collected(front).insert(last.0, last.1));
        assert forall|i: int| 0 <= i < s.len() implies m.contains_key(#[trigger] s[i].0) && m[s[i].0]
            == s[i].1 by {
            if i < s.len() - 1 {
                assert(front[i] == s[i]);
                assert(collected(front).contains_key(front[i].0));
                assert(s[i].0 != s[s.len() - 1].0);
            }
        }
        assert forall|k: u32| m.contains_key(k) implies exists|i: int|
            0 <= i < s.len() && #[trigger] s[i].0 == k by {
            if k == last.0 {
                assert(s[s.len() - 1].0 == k);
            } else {
                assert(collected(front).contains_key(k));
                let i = choose|i: int| 0 <= i < front.len() && #[trigger] front[i].0 == k;
                assert(s[i].0 == k);
            }
        }
    }
}

/// Change detection: of a batch in which no key occurs twice, exactly the
/// entries that are new or differ from what the table holds are counted,
/// and exactly those are written.
pub proof fn lemma_change_detection<R: Record>(t: Map<u32, R::V>, batch: Seq<(u32, R::V)>)
    requires
        distinct_keys(batch),
    ensures
        merged::<R>(t, batch) == overlay::<R>(t, collected(batch)),
        changed_keys::<R>(t, collected(batch)).finite(),
        changes::<R>(t, batch) == changed_keys::<R>(t, collected(batch)).len(),
{
    lemma_distinct_lists(batch);
    lemma_merge_distinct::<R>(t, batch, collected(batch));
}

} // verus!
