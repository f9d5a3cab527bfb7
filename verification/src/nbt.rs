use vstd::prelude::*;

use crate::strs::str_equal;

verus! {

/// One NBT value.
///
/// Floating-point payloads are carried as their IEEE 754 bit patterns: nothing here
/// computes with them, and the bits are exactly what the binary form stores.
#[derive(Debug, PartialEq)]
pub enum NbtValue {
    Byte(i8),
    Short(i16),
    Int(i32),
    Long(i64),
    Float(u32),
    Double(u64),
    ByteArray(Vec<i8>),
    String(String),
    List(NbtList),
    Compound(NbtCompound),
    IntArray(Vec<i32>),
    LongArray(Vec<i64>),
}

/// A homogeneous NBT list. An empty list has no element type and is `End`.
#[derive(Debug, PartialEq)]
pub enum NbtList {
    End,
    Byte(Vec<i8>),
    Short(Vec<i16>),
    Int(Vec<i32>),
    Long(Vec<i64>),
    Float(Vec<u32>),
    Double(Vec<u64>),
    ByteArray(Vec<Vec<i8>>),
    String(Vec<String>),
    List(Vec<NbtList>),
    Compound(Vec<NbtCompound>),
    IntArray(Vec<Vec<i32>>),
    LongArray(Vec<Vec<i64>>),
}

/// An NBT compound: named values in the order they were first inserted.
///
/// A lookup finds the first entry with the key; inserting an existing key replaces that
/// entry's value in place, so a compound built by insertion never repeats a key.
#[derive(Debug, PartialEq)]
pub struct NbtCompound {
    pub entries: Vec<(String, NbtValue)>,
}

/// The mathematical content of an [`NbtValue`].
pub enum Nbt {
    Byte(i8),
    Short(i16),
    Int(i32),
    Long(i64),
    Float(u32),
    Double(u64),
    ByteArray(Seq<i8>),
    Str(Seq<char>),
    List(NbtItems),
    Compound(Seq<(Seq<char>, Nbt)>),
    IntArray(Seq<i32>),
    LongArray(Seq<i64>),
}

/// The mathematical content of an [`NbtList`].
pub enum NbtItems {
    End,
    Byte(Seq<i8>),
    Short(Seq<i16>),
    Int(Seq<i32>),
    Long(Seq<i64>),
    Float(Seq<u32>),
    Double(Seq<u64>),
    ByteArray(Seq<Seq<i8>>),
    Str(Seq<Seq<char>>),
    List(Seq<NbtItems>),
    Compound(Seq<Seq<(Seq<char>, Nbt)>>),
    IntArray(Seq<Seq<i32>>),
    LongArray(Seq<Seq<i64>>),
}

pub open spec fn nbt_of(value: NbtValue) -> Nbt
    decreases value,
{
    match value {
        NbtValue::Byte(v) => Nbt::Byte(v),
        NbtValue::Short(v) => Nbt::Short(v),
        NbtValue::Int(v) => Nbt::Int(v),
        NbtValue::Long(v) => Nbt::Long(v),
        NbtValue::Float(bits) => Nbt::Float(bits),
        NbtValue::Double(bits) => Nbt::Double(bits),
        NbtValue::ByteArray(v) => Nbt::ByteArray(v@),
        NbtValue::String(text) => Nbt::Str(text@),
        NbtValue::List(list) => Nbt::List(items_of(list)),
        NbtValue::Compound(compound) => Nbt::Compound(compound_of(compound)),
        NbtValue::IntArray(v) => Nbt::IntArray(v@),
        NbtValue::LongArray(v) => Nbt::LongArray(v@),
    }
}

pub open spec fn items_of(list: NbtList) -> NbtItems
    decreases list,
{
    match list {
        NbtList::End => NbtItems::End,
        NbtList::Byte(v) => NbtItems::Byte(v@),
        NbtList::Short(v) => NbtItems::Short(v@),
        NbtList::Int(v) => NbtItems::Int(v@),
        NbtList::Long(v) => NbtItems::Long(v@),
        NbtList::Float(v) => NbtItems::Float(v@),
        NbtList::Double(v) => NbtItems::Double(v@),
        NbtList::ByteArray(v) => NbtItems::ByteArray(v@.map_values(|a: Vec<i8>| a@)),
        NbtList::String(v) => NbtItems::Str(v@.map_values(|s: String| s@)),
        NbtList::List(v) => NbtItems::List(lists_of(v@)),
        NbtList::Compound(v) => NbtItems::Compound(compounds_of(v@)),
        NbtList::IntArray(v) => NbtItems::IntArray(v@.map_values(|a: Vec<i32>| a@)),
        NbtList::LongArray(v) => NbtItems::LongArray(v@.map_values(|a: Vec<i64>| a@)),
    }
}

pub open spec fn compound_of(compound: NbtCompound) -> Seq<(Seq<char>, Nbt)>
    decreases compound,
{
    entries_of(compound.entries@)
}

pub open spec fn entries_of(entries: Seq<(String, NbtValue)>) -> Seq<(Seq<char>, Nbt)>
    decreases entries,
{
    if entries.len() == 0 {
        Seq::empty()
    } else {
        entries_of(entries.drop_last()).push((entries.last().0@, nbt_of(entries.last().1)))
    }
}

pub open spec fn lists_of(lists: Seq<NbtList>) -> Seq<NbtItems>
    decreases lists,
{
    if lists.len() == 0 {
        Seq::empty()
    } else {
        lists_of(lists.drop_last()).push(items_of(lists.last()))
    }
}

pub open spec fn compounds_of(compounds: Seq<NbtCompound>) -> Seq<Seq<(Seq<char>, Nbt)>>
    decreases compounds,
{
    if compounds.len() == 0 {
        Seq::empty()
    } else {
        compounds_of(compounds.drop_last()).push(compound_of(compounds.last()))
    }
}

impl View for NbtValue {
    type V = Nbt;

    open spec fn view(&self) -> Nbt {
        nbt_of(*self)
    }
}

impl View for NbtList {
    type V = NbtItems;

    open spec fn view(&self) -> NbtItems {
        items_of(*self)
    }
}

impl View for NbtCompound {
    type V = Seq<(Seq<char>, Nbt)>;

    open spec fn view(&self) -> Seq<(Seq<char>, Nbt)> {
        compound_of(*self)
    }
}

/// The model of the entries, entry by entry.
pub proof fn lemma_entries_of(entries: Seq<(String, NbtValue)>)
    ensures
        entries_of(entries).len() == entries.len(),
        forall|i: int|
            0 <= i < entries.len() ==> #[trigger] entries_of(entries)[i] == (
                entries[i].0@,
                nbt_of(entries[i].1),
            ),
    decreases entries.len(),
{
    if entries.len() > 0 {
        lemma_entries_of(entries.drop_last());
    }
}

/// The model of the compounds, compound by compound.
pub proof fn lemma_compounds_of(compounds: Seq<NbtCompound>)
    ensures
        compounds_of(compounds).len() == compounds.len(),
        forall|i: int|
            0 <= i < compounds.len() ==> #[trigger] compounds_of(compounds)[i] == compound_of(
                compounds[i],
            ),
    decreases compounds.len(),
{
    if compounds.len() > 0 {
        lemma_compounds_of(compounds.drop_last());
    }
}

/// Position of the first entry named `key`, or -1 when there is none.
pub open spec fn key_index(entries: Seq<(Seq<char>, Nbt)>, key: Seq<char>) -> int
    decreases entries.len(),
{
    if entries.len() == 0 {
        -1
    } else {
        let earlier = key_index(entries.drop_last(), key);
        if earlier >= 0 {
            earlier
        } else if entries.last().0 == key {
            entries.len() - 1
        } else {
            -1
        }
    }
}

/// The value of the first entry named `key`.
pub open spec fn lookup(entries: Seq<(Seq<char>, Nbt)>, key: Seq<char>) -> Option<Nbt> {
    let index = key_index(entries, key);
    if index >= 0 {
        Some(entries[index].1)
    } else {
        None
    }
}

/// The entries after `key` is set to `value`: the first entry with that key takes the
/// new value in place, or a new entry goes at the end.
pub open spec fn inserted(entries: Seq<(Seq<char>, Nbt)>, key: Seq<char>, value: Nbt) -> Seq<
    (Seq<char>, Nbt),
> {
    let index = key_index(entries, key);
    if index >= 0 {
        entries.update(index, (key, value))
    } else {
        entries.push((key, value))
    }
}

/// What [`key_index`] is: the first position holding the key, every position before
/// it holding another.
pub proof fn lemma_key_index(entries: Seq<(Seq<char>, Nbt)>, key: Seq<char>)
    ensures
        -1 <= key_index(entries, key) < entries.len(),
        key_index(entries, key) >= 0 ==> entries[key_index(entries, key)].0 == key,
        forall|j: int|
            0 <= j < entries.len() && (key_index(entries, key) < 0 || j < key_index(
                entries,
                key,
            )) ==> #[trigger] entries[j].0 != key,
    decreases entries.len(),
{
    if entries.len() > 0 {
        lemma_key_index(entries.drop_last(), key);
        assert(forall|j: int|
            0 <= j < entries.len() - 1 ==> #[trigger] entries[j] == entries.drop_last()[j]);
    }
}

/// A key found at `index`, with no earlier entry holding it, is where [`key_index`]
/// points; a key no entry holds has no index.
pub proof fn lemma_key_index_at(entries: Seq<(Seq<char>, Nbt)>, key: Seq<char>, index: int)
    requires
        -1 <= index < entries.len(),
        forall|j: int| 0 <= j < index ==> #[trigger] entries[j].0 != key,
        index == -1 ==> forall|j: int| 0 <= j < entries.len() ==> #[trigger] entries[j].0 != key,
        index >= 0 ==> entries[index].0 == key,
    ensures
        key_index(entries, key) == index,
{
    lemma_key_index(entries, key);
    let found = key_index(entries, key);
    if found >= 0 {
        assert(entries[found].0 == key);
        if index >= 0 && found < index {
            assert(entries[found].0 != key);
        }
    } else if index >= 0 {
        assert(entries[index].0 != key);
    }
}

/// Setting a key and then looking it up gives the value that was set, and leaves every
/// other key as it was.
pub proof fn lemma_inserted_lookup(
    entries: Seq<(Seq<char>, Nbt)>,
    key: Seq<char>,
    value: Nbt,
    other: Seq<char>,
)
    ensures
        lookup(inserted(entries, key, value), key) == Some(value),
        other != key ==> lookup(inserted(entries, key, value), other) == lookup(entries, other),
{
    let after = inserted(entries, key, value);
    lemma_key_index(entries, key);
    lemma_key_index(entries, other);
    lemma_key_index(after, key);
    lemma_key_index(after, other);
    let index = key_index(entries, key);
    if other == key {
        if index >= 0 {
            lemma_key_index_at(after, key, index);
        } else {
            assert forall|j: int| 0 <= j < entries.len() implies #[trigger] after[j].0 != key by {
                assert(after[j] == entries[j]);
            }
            lemma_key_index_at(after, key, entries.len() as int);
        }
        return;
    }
    if index >= 0 {
        assert(after[index].0 == key);
        lemma_key_index_at(after, key, index);
        let before_other = key_index(entries, other);
        if before_other >= 0 {
            assert(after[before_other] == entries[before_other]);
            lemma_key_index_at(after, other, before_other);
        } else {
            assert forall|j: int| 0 <= j < after.len() implies #[trigger] after[j].0 != other by {
                if j != index {
                    assert(after[j] == entries[j]);
                }
            }
            lemma_key_index_at(after, other, -1);
        }
    } else {
        assert(after.len() == entries.len() + 1);
        assert forall|j: int| 0 <= j < entries.len() implies #[trigger] after[j].0 != key by {
            assert(after[j] == entries[j]);
        }
        lemma_key_index_at(after, key, entries.len() as int);
        let before_other = key_index(entries, other);
        if before_other >= 0 {
            assert(after[before_other] == entries[before_other]);
            lemma_key_index_at(after, other, before_other);
        } else {
            assert forall|j: int| 0 <= j < after.len() implies #[trigger] after[j].0 != other by {
                if j < entries.len() {
                    assert(after[j] == entries[j]);
                }
            }
            lemma_key_index_at(after, other, -1);
        }
    }
}

/// The model of the lists, list by list.
pub proof fn lemma_lists_of(lists: Seq<NbtList>)
    ensures
        lists_of(lists).len() == lists.len(),
        forall|i: int| 0 <= i < lists.len() ==> #[trigger] lists_of(lists)[i] == items_of(lists[i]),
    decreases lists.len(),
{
    if lists.len() > 0 {
        lemma_lists_of(lists.drop_last());
    }
}

fn copy_plain<T: Copy>(values: &Vec<T>) -> (copy: Vec<T>)
    ensures
        copy@ == values@,
{
    let mut copy: Vec<T> = Vec::new();
    let mut index: usize = 0;
    while index < values.len()
        invariant
            0 <= index <= values@.len(),
            copy@ == values@.take(index as int),
        decreases values@.len() - index,
    {
        copy.push(values[index]);
        proof {
            assert(values@.take(index + 1) =~= values@.take(index as int).push(values@[index as int]));
        }
        index += 1;
    }
    proof {
        assert(values@.take(index as int) =~= values@);
    }
    copy
}

fn copy_arrays<T: Copy>(arrays: &Vec<Vec<T>>) -> (copy: Vec<Vec<T>>)
    ensures
        copy@.map_values(|a: Vec<T>| a@) == arrays@.map_values(|a: Vec<T>| a@),
{
    let mut copy: Vec<Vec<T>> = Vec::new();
    let mut index: usize = 0;
    while index < arrays.len()
        invariant
            0 <= index <= arrays@.len(),
            copy@.len() == index,
            forall|k: int| 0 <= k < index ==> #[trigger] copy@[k]@ == arrays@[k]@,
        decreases arrays@.len() - index,
    {
        copy.push(copy_plain(&arrays[index]));
        index += 1;
    }
    proof {
        assert(copy@.map_values(|a: Vec<T>| a@) =~= arrays@.map_values(|a: Vec<T>| a@));
    }
    copy
}

fn copy_strings(texts: &Vec<String>) -> (copy: Vec<String>)
    ensures
        copy@.map_values(|s: String| s@) == texts@.map_values(|s: String| s@),
{
    let mut copy: Vec<String> = Vec::new();
    let mut index: usize = 0;
    while index < texts.len()
        invariant
            0 <= index <= texts@.len(),
            copy@.len() == index,
            forall|k: int| 0 <= k < index ==> #[trigger] copy@[k]@ == texts@[k]@,
        decreases texts@.len() - index,
    {
        copy.push(texts[index].clone());
        index += 1;
    }
    proof {
        assert(copy@.map_values(|s: String| s@) =~= texts@.map_values(|s: String| s@));
    }
    copy
}

/// A copy of a value, equal to it in every part.
pub fn copy_value(value: &NbtValue) -> (copy: NbtValue)
    ensures
        copy@ == value@,
    decreases value,
{
    match value {
        NbtValue::Byte(v) => NbtValue::Byte(*v),
        NbtValue::Short(v) => NbtValue::Short(*v),
        NbtValue::Int(v) => NbtValue::Int(*v),
        NbtValue::Long(v) => NbtValue::Long(*v),
        NbtValue::Float(bits) => NbtValue::Float(*bits),
        NbtValue::Double(bits) => NbtValue::Double(*bits),
        NbtValue::ByteArray(v) => NbtValue::ByteArray(copy_plain(v)),
        NbtValue::String(text) => NbtValue::String(text.clone()),
        NbtValue::List(list) => NbtValue::List(copy_list(list)),
        NbtValue::Compound(compound) => NbtValue::Compound(copy_compound(compound)),
        NbtValue::IntArray(v) => NbtValue::IntArray(copy_plain(v)),
        NbtValue::LongArray(v) => NbtValue::LongArray(copy_plain(v)),
    }
}

/// A copy of a compound, equal to it in every entry.
pub fn copy_compound(compound: &NbtCompound) -> (copy: NbtCompound)
    ensures
        copy@ == compound@,
    decreases compound,
{
    let mut entries: Vec<(String, NbtValue)> = Vec::new();
    let mut index: usize = 0;
    proof {
        lemma_entries_of(compound.entries@);
    }
    while index < compound.entries.len()
        invariant
            0 <= index <= compound.entries@.len(),
            entries_of(entries@) == entries_of(compound.entries@.take(index as int)),
        decreases compound.entries@.len() - index,
    {
        proof {
            assert(decreases_to!(*compound => compound.entries));
            assert(decreases_to!(compound.entries => compound.entries@));
            assert(decreases_to!(compound.entries@ => compound.entries@[index as int]));
            assert(decreases_to!(compound.entries@[index as int] => compound.entries@[index as int].1));
        }
        let entry = &compound.entries[index];
        let ghost before = entries@;
        entries.push((entry.0.clone(), copy_value(&entry.1)));
        proof {
            assert(entries@.drop_last() == before);
            assert(compound.entries@.take(index + 1).drop_last() =~= compound.entries@.take(
                index as int,
            ));
        }
        index += 1;
    }
    proof {
        assert(compound.entries@.take(index as int) =~= compound.entries@);
    }
    NbtCompound { entries }
}

/// A copy of a list, equal to it in every item.
pub fn copy_list(list: &NbtList) -> (copy: NbtList)
    ensures
        copy@ == list@,
    decreases list,
{
    match list {
        NbtList::End => NbtList::End,
        NbtList::Byte(v) => NbtList::Byte(copy_plain(v)),
        NbtList::Short(v) => NbtList::Short(copy_plain(v)),
        NbtList::Int(v) => NbtList::Int(copy_plain(v)),
        NbtList::Long(v) => NbtList::Long(copy_plain(v)),
        NbtList::Float(v) => NbtList::Float(copy_plain(v)),
        NbtList::Double(v) => NbtList::Double(copy_plain(v)),
        NbtList::ByteArray(v) => NbtList::ByteArray(copy_arrays(v)),
        NbtList::String(v) => NbtList::String(copy_strings(v)),
        NbtList::List(lists) => NbtList::List(copy_lists(lists)),
        NbtList::Compound(compounds) => NbtList::Compound(copy_compounds(compounds)),
        NbtList::IntArray(v) => NbtList::IntArray(copy_arrays(v)),
        NbtList::LongArray(v) => NbtList::LongArray(copy_arrays(v)),
    }
}

fn copy_lists(lists: &Vec<NbtList>) -> (copies: Vec<NbtList>)
    ensures
        lists_of(copies@) == lists_of(lists@),
    decreases lists,
{
    let mut copies: Vec<NbtList> = Vec::new();
    let mut index: usize = 0;
    while index < lists.len()
        invariant
            0 <= index <= lists@.len(),
            lists_of(copies@) == lists_of(lists@.take(index as int)),
        decreases lists@.len() - index,
    {
        proof {
            assert(decreases_to!(*lists => lists@));
            assert(decreases_to!(lists@ => lists@[index as int]));
        }
        let ghost before = copies@;
        copies.push(copy_list(&lists[index]));
        proof {
            assert(copies@.drop_last() == before);
            assert(lists@.take(index + 1).drop_last() =~= lists@.take(index as int));
        }
        index += 1;
    }
    proof {
        assert(lists@.take(index as int) =~= lists@);
    }
    copies
}

fn copy_compounds(compounds: &Vec<NbtCompound>) -> (copies: Vec<NbtCompound>)
    ensures
        compounds_of(copies@) == compounds_of(compounds@),
    decreases compounds,
{
    let mut copies: Vec<NbtCompound> = Vec::new();
    let mut index: usize = 0;
    while index < compounds.len()
        invariant
            0 <= index <= compounds@.len(),
            compounds_of(copies@) == compounds_of(compounds@.take(index as int)),
        decreases compounds@.len() - index,
    {
        proof {
            assert(decreases_to!(*compounds => compounds@));
            assert(decreases_to!(compounds@ => compounds@[index as int]));
        }
        let ghost before = copies@;
        copies.push(copy_compound(&compounds[index]));
        proof {
            assert(copies@.drop_last() == before);
            assert(compounds@.take(index + 1).drop_last() =~= compounds@.take(index as int));
        }
        index += 1;
    }
    proof {
        assert(compounds@.take(index as int) =~= compounds@);
    }
    copies
}

impl NbtCompound {
    /// A compound with no entries.
    pub fn new() -> (compound: NbtCompound)
        ensures
            compound@ == Seq::<(Seq<char>, Nbt)>::empty(),
    {
        NbtCompound { entries: Vec::new() }
    }

    /// Number of entries.
    pub fn len(&self) -> (count: usize)
        ensures
            count == self@.len(),
    {
        proof {
            lemma_entries_of(self.entries@);
        }
        self.entries.len()
    }

    fn position(&self, key: &str) -> (index: Option<usize>)
        ensures
            match index {
                Some(i) => key_index(self@, key@) == i && i < self.entries@.len(),
                None => key_index(self@, key@) == -1,
            },
    {
        proof {
            lemma_entries_of(self.entries@);
        }
        let mut index: usize = 0;
        while index < self.entries.len()
            invariant
                0 <= index <= self.entries@.len(),
                self@ == entries_of(self.entries@),
                self@.len() == self.entries@.len(),
                forall|i: int|
                    0 <= i < self.entries@.len() ==> #[trigger] self@[i] == (
                        self.entries@[i].0@,
                        nbt_of(self.entries@[i].1),
                    ),
                forall|j: int| 0 <= j < index ==> #[trigger] self@[j].0 != key@,
            decreases self.entries@.len() - index,
        {
            if str_equal(self.entries[index].0.as_str(), key) {
                proof {
                    lemma_key_index_at(self@, key@, index as int);
                }
                return Some(index);
            }
            index += 1;
        }
        proof {
            lemma_key_index_at(self@, key@, -1);
        }
        None
    }

    /// The value of the entry named `key`.
    pub fn get(&self, key: &str) -> (found: Option<&NbtValue>)
        ensures
            match found {
                Some(value) => lookup(self@, key@) == Some(value@),
                None => lookup(self@, key@) is None,
            },
    {
        proof {
            lemma_entries_of(self.entries@);
        }
        match self.position(key) {
            Some(index) => Some(&self.entries[index].1),
            None => None,
        }
    }

    /// Sets `key` to `value`, replacing the value of an entry that already has the key.
    pub fn insert(&mut self, key: String, value: NbtValue)
        ensures
            final(self)@ == inserted(old(self)@, key@, value@),
    {
        proof {
            lemma_entries_of(self.entries@);
        }
        let ghost before = self@;
        let ghost entry_model = (key@, value@);
        match self.position(key.as_str()) {
            Some(index) => {
                let ghost old_entries = self.entries@;
                self.entries.set(index, (key, value));
                proof {
                    lemma_entries_of(self.entries@);
                    assert(self@ =~= before.update(index as int, entry_model));
                }
            },
            None => {
                let ghost old_entries = self.entries@;
                self.entries.push((key, value));
                proof {
                    lemma_entries_of(self.entries@);
                    assert(self@ =~= before.push(entry_model));
                }
            },
        }
    }
}

} // verus!
