//! The generic bencode value and its mathematical model.

use crate::common::bytes_equal;
use crate::grammar::{distinct_keys, field, lemma_key_position, well_formed};
use vstd::prelude::*;
use vstd::slice::slice_to_vec;

verus! {

/// The mathematical model of a bencode value.
pub enum BenValue {
    /// An integer.
    Int(int),
    /// A byte string.
    Bytes(Seq<u8>),
    /// An ordered list of values.
    List(Seq<BenValue>),
    /// A dictionary, as its entries in the order in which they were inserted.
    Dict(Seq<(Seq<u8>, BenValue)>),
}

/// Represents any valid bencode value.
///
/// A dictionary is held as its entries in insertion order, so that encoding a
/// decoded value gives the keys back in the order in which they came.
#[derive(Debug, PartialEq, Eq)]
pub enum BenCode {
    /// An integer.
    Int(i64),
    /// A byte string.
    String(Vec<u8>),
    /// An ordered list of values.
    Array(Vec<BenCode>),
    /// A dictionary, as its entries in insertion order.
    Dict(Vec<(Vec<u8>, BenCode)>),
}

/// The models of the values in `items`, in their order.
pub open spec fn items_view(items: Seq<BenCode>) -> Seq<BenValue>
    decreases items,
{
    Seq::new(
        items.len(),
        |i: int|
            if 0 <= i < items.len() {
                items[i].view()
            } else {
                BenValue::Int(0)
            },
    )
}

/// The models of the entries in `entries`, in their order.
pub open spec fn entries_view(entries: Seq<(Vec<u8>, BenCode)>) -> Seq<(Seq<u8>, BenValue)>
    decreases entries,
{
    Seq::new(
        entries.len(),
        |i: int|
            if 0 <= i < entries.len() {
                (entries[i].0@, entries[i].1.view())
            } else {
                (Seq::empty(), BenValue::Int(0))
            },
    )
}

impl View for BenCode {
    type V = BenValue;

    open spec fn view(&self) -> BenValue
        decreases self,
    {
        match self {
            BenCode::Int(i) => BenValue::Int(*i as int),
            BenCode::String(b) => BenValue::Bytes(b@),
            BenCode::Array(items) => BenValue::List(items_view(items@)),
            BenCode::Dict(entries) => BenValue::Dict(entries_view(entries@)),
        }
    }
}

impl Clone for BenCode {
    fn clone(&self) -> (copy: Self)
        ensures
            copy@ == self@,
        decreases self,
    {
        match self {
            BenCode::Int(i) => BenCode::Int(*i),
            BenCode::String(bytes) => BenCode::String(slice_to_vec(bytes.as_slice())),
            BenCode::Array(items) => {
                let mut copies: Vec<BenCode> = Vec::new();
                let mut i: usize = 0;
                while i < items.len()
                    invariant
                        i <= items.len(),
                        *self == BenCode::Array(*items),
                        copies@.len() == i,
                        forall|j: int| 0 <= j < i ==> copies@[j]@ == items@[j]@,
                    decreases items.len() - i,
                {
                    assert(decreases_to!(*self => (*self)->Array_0@[i as int]));
                    copies.push(items[i].clone());
                    i += 1;
                }
                assert(items_view(copies@) =~= items_view(items@));
                BenCode::Array(copies)
            },
            BenCode::Dict(entries) => {
                let mut copies: Vec<(Vec<u8>, BenCode)> = Vec::new();
                let mut i: usize = 0;
                while i < entries.len()
                    invariant
                        i <= entries.len(),
                        *self == BenCode::Dict(*entries),
                        copies@.len() == i,
                        forall|j: int|
                            0 <= j < i ==> copies@[j].0@ == entries@[j].0@ && copies@[j].1@
                                == entries@[j].1@,
                    decreases entries.len() - i,
                {
                    assert(decreases_to!(*self => (*self)->Dict_0@[i as int].1));
                    let key = slice_to_vec(entries[i].0.as_slice());
                    let value = entries[i].1.clone();
                    copies.push((key, value));
                    i += 1;
                }
                assert(entries_view(copies@) =~= entries_view(entries@));
                BenCode::Dict(copies)
            },
        }
    }
}

impl BenCode {
    /// Whether no dictionary in this value, at any depth, has a key twice.
    pub fn is_well_formed(&self) -> (ok: bool)
        ensures
            ok == well_formed(self@),
        decreases self,
    {
        match self {
            BenCode::Int(_) => true,
            BenCode::String(_) => true,
            BenCode::Array(items) => {
                let ghost models = items_view(items@);
                let mut i: usize = 0;
                while i < items.len()
                    invariant
                        i <= items.len(),
                        *self == BenCode::Array(*items),
                        models == items_view(items@),
                        forall|k: int| 0 <= k < i ==> well_formed(#[trigger] models[k]),
                    decreases items.len() - i,
                {
                    assert(decreases_to!(*self => (*self)->Array_0@[i as int]));
                    if !items[i].is_well_formed() {
                        assert(!well_formed(BenValue::List(models))) by {
                            reveal_with_fuel(well_formed, 2);
                            let list = BenValue::List(models);
                            assert(list->List_0[i as int] == models[i as int]);
                        }
                        return false;
                    }
                    i += 1;
                }
                true
            },
            BenCode::Dict(entries) => {
                let ghost models = entries_view(entries@);
                let mut i: usize = 0;
                while i < entries.len()
                    invariant
                        i <= entries.len(),
                        *self == BenCode::Dict(*entries),
                        models == entries_view(entries@),
                        forall|k: int| 0 <= k < i ==> well_formed((#[trigger] models[k]).1),
                        forall|k: int, l: int|
                            0 <= k < l < i ==> (#[trigger] models[k]).0 != (#[trigger] models[l]).0,
                    decreases entries.len() - i,
                {
                    assert(decreases_to!(*self => (*self)->Dict_0@[i as int].1));
                    if !entries[i].1.is_well_formed() {
                        assert(!well_formed(models[i as int].1));
                        return false;
                    }
                    let mut j: usize = 0;
                    while j < i
                        invariant
                            j <= i < entries.len(),
                            *self == BenCode::Dict(*entries),
                            models == entries_view(entries@),
                            forall|k: int| 0 <= k < j ==> (#[trigger] models[k]).0 != models[i as int].0,
                        decreases i - j,
                    {
                        if bytes_equal(entries[j].0.as_slice(), entries[i].0.as_slice()) {
                            assert(models[j as int].0 == models[i as int].0);
                            return false;
                        }
                        j += 1;
                    }
                    i += 1;
                }
                true
            },
        }
    }

    /// The value that stands under `key`, if this is a dictionary and has
    /// that key.
    pub fn get(&self, key: &[u8]) -> (found: Option<&BenCode>)
        ensures
            match field(self@, key@) {
                Some(v) => found matches Some(value) && value@ == v,
                None => found is None,
            },
    {
        match self {
            BenCode::Dict(entries) => {
                let ghost models = entries_view(entries@);
                let mut i: usize = 0;
                while i < entries.len()
                    invariant
                        i <= entries.len(),
                        models == entries_view(entries@),
                        *self == BenCode::Dict(*entries),
                        forall|j: int| 0 <= j < i ==> models[j].0 != key@,
                    decreases entries.len() - i,
                {
                    if bytes_equal(entries[i].0.as_slice(), key) {
                        proof {
                            lemma_key_position(models, key@, i as int);
                        }
                        return Some(&entries[i].1);
                    }
                    i += 1;
                }
                proof {
                    lemma_key_position(models, key@, i as int);
                }
                None
            },
            _ => None,
        }
    }
}

} // verus!
