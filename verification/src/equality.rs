//! The equality that `=` decides, and the identity of hash keys.

use vstd::prelude::*;
use vstd::std_specs::cmp::PartialEqSpecImpl;
use crate::number::{is_nan, number_eq, number_is_nan, numbers_equal};
use crate::types::{forms, group_forms, pair_forms, Form, LispyType};

verus! {

broadcast use group_forms;

/// Two keys are the same key of a hash when they are of one hashable variant
/// and hold the same payload; numbers by their bit pattern, and a NaN is the
/// same key as nothing.
pub open spec fn same_key(a: Form, b: Form) -> bool {
    match (a, b) {
        (Form::Nil { .. }, Form::Nil { .. }) => true,
        (Form::Bool { value: x, .. }, Form::Bool { value: y, .. }) => x == y,
        (Form::Number { value: x, .. }, Form::Number { value: y, .. }) => x == y && !is_nan(x),
        (Form::Symbol { value: x, .. }, Form::Symbol { value: y, .. }) => x == y,
        (Form::Keyword { value: x, .. }, Form::Keyword { value: y, .. }) => x == y,
        (Form::String { value: x, .. }, Form::String { value: y, .. }) => x == y,
        _ => false,
    }
}

/// Entry `i` is the first entry under `key`.
pub open spec fn first_under_key(entries: Seq<(Form, Form)>, key: Form, i: int) -> bool {
    &&& 0 <= i < entries.len()
    &&& same_key(entries[i].0, key)
    &&& forall|j: int| 0 <= j < i ==> !same_key(#[trigger] entries[j].0, key)
}

/// Where the first entry under `key` stands, if there is one.
pub open spec fn key_position(entries: Seq<(Form, Form)>, key: Form) -> Option<int> {
    if exists|i: int| first_under_key(entries, key, i) {
        Some(choose|i: int| first_under_key(entries, key, i))
    } else {
        None
    }
}

/// The value that a hash holds under `key`.
pub open spec fn hash_get(entries: Seq<(Form, Form)>, key: Form) -> Option<Form> {
    match key_position(entries, key) {
        Some(i) => Some(entries[i].1),
        None => None,
    }
}

/// A hash after `value` is put under `key`: in place of the value that the
/// first entry under `key` held, or as a new entry at the end.
pub open spec fn hash_insert(entries: Seq<(Form, Form)>, key: Form, value: Form) -> Seq<
    (Form, Form),
> {
    match key_position(entries, key) {
        Some(i) => entries.update(i, (entries[i].0, value)),
        None => entries.push((key, value)),
    }
}

/// Structural equality of variant and payload. Numbers compare as IEEE-754
/// doubles, lists item by item, hashes as mappings, errors by their kind alone.
/// A function or a lambda equals nothing. Metadata does not count.
pub open spec fn forms_equal(a: Form, b: Form) -> bool
    decreases a,
{
    match (a, b) {
        (Form::Nil { .. }, Form::Nil { .. }) => true,
        (Form::Bool { value: x, .. }, Form::Bool { value: y, .. }) => x == y,
        (Form::Number { value: x, .. }, Form::Number { value: y, .. }) => numbers_equal(x, y),
        (Form::Symbol { value: x, .. }, Form::Symbol { value: y, .. }) => x == y,
        (Form::Keyword { value: x, .. }, Form::Keyword { value: y, .. }) => x == y,
        (Form::String { value: x, .. }, Form::String { value: y, .. }) => x == y,
        (Form::List { collection: xs, .. }, Form::List { collection: ys, .. }) => {
            &&& xs.len() == ys.len()
            &&& forall|i: int| 0 <= i < xs.len() ==> forms_equal(#[trigger] xs[i], ys[i])
        },
        (Form::Hash { collection: xs, .. }, Form::Hash { collection: ys, .. }) => {
            &&& xs.len() == ys.len()
            &&& forall|i: int| 0 <= i < xs.len() ==> entry_found(#[trigger] xs[i], ys)
        },
        (Form::Error { error_type: x, .. }, Form::Error { error_type: y, .. }) => x == y,
        _ => false,
    }
}

/// The other hash holds an equal value under the entry's key.
pub open spec fn entry_found(entry: (Form, Form), others: Seq<(Form, Form)>) -> bool
    decreases entry,
{
    match hash_get(others, entry.0) {
        Some(value) => forms_equal(entry.1, value),
        None => false,
    }
}

/// A function equals nothing, and neither does a lambda: not even itself.
pub proof fn law_functions_equal_nothing(a: Form, b: Form)
    requires
        a is Function || a is Lambda || b is Function || b is Lambda,
    ensures
        !forms_equal(a, b),
{
}

/// Errors are equal where their kinds are, whatever their messages say.
pub proof fn law_errors_equal_by_kind(a: Form, b: Form)
    requires
        a is Error,
        b is Error,
    ensures
        forms_equal(a, b) == (a->error_type == b->error_type),
{
}

/// The first position under a key is the only one that is first.
pub proof fn lemma_first_under_key_unique(entries: Seq<(Form, Form)>, key: Form, i: int)
    requires
        first_under_key(entries, key, i),
    ensures
        key_position(entries, key) == Some(i),
{
    let j = choose|j: int| first_under_key(entries, key, j);
    assert(first_under_key(entries, key, j));
    if j < i {
        assert(!same_key(entries[j].0, key));
    }
    if i < j {
        assert(!same_key(entries[i].0, key));
    }
}

/// Decides whether two values are the same hash key.
pub fn keys_match(a: &LispyType, b: &LispyType) -> (r: bool)
    ensures
        r == same_key(a@, b@),
{
    match (a, b) {
        (LispyType::Nil { .. }, LispyType::Nil { .. }) => true,
        (LispyType::Bool { value: x, .. }, LispyType::Bool { value: y, .. }) => *x == *y,
        (LispyType::Number { value: x, .. }, LispyType::Number { value: y, .. }) => *x == *y
            && !number_is_nan(*x),
        (LispyType::Symbol { value: x, .. }, LispyType::Symbol { value: y, .. }) => *x == *y,
        (LispyType::Keyword { value: x, .. }, LispyType::Keyword { value: y, .. }) => *x == *y,
        (LispyType::String { value: x, .. }, LispyType::String { value: y, .. }) => *x == *y,
        _ => false,
    }
}

/// Finds the first entry under `key`.
pub fn find_key(entries: &Vec<(LispyType, LispyType)>, key: &LispyType) -> (r: Option<usize>)
    ensures
        match r {
            Some(i) => key_position(pair_forms(entries@), key@) == Some(i as int) && i
                < entries.len(),
            None => key_position(pair_forms(entries@), key@) is None,
        },
{
    let ghost model = pair_forms(entries@);
    let mut i: usize = 0;
    while i < entries.len()
        invariant
            i <= entries.len(),
            model == pair_forms(entries@),
            forall|j: int| 0 <= j < i ==> !same_key(#[trigger] model[j].0, key@),
        decreases entries.len() - i,
    {
        if keys_match(&entries[i].0, key) {
            proof {
                lemma_first_under_key_unique(model, key@, i as int);
            }
            return Some(i);
        }
        i += 1;
    }
    proof {
        if exists|k: int| first_under_key(model, key@, k) {
            let k = choose|k: int| first_under_key(model, key@, k);
            assert(!same_key(model[k].0, key@));
        }
    }
    None
}

/// Puts `value` under `key` in a hash.
pub fn insert_entry(entries: &mut Vec<(LispyType, LispyType)>, key: LispyType, value: LispyType)
    ensures
        pair_forms(final(entries)@) == hash_insert(pair_forms(old(entries)@), key@, value@),
{
    let ghost before = pair_forms(entries@);
    match find_key(entries, &key) {
        Some(i) => {
            entries[i].1 = value;
            assert(pair_forms(entries@) =~= before.update(i as int, (before[i as int].0, value@)));
        },
        None => {
            entries.push((key, value));
            assert(pair_forms(entries@) =~= before.push((key@, value@)));
        },
    }
}

fn items_equal(xs: &Vec<LispyType>, ys: &Vec<LispyType>) -> (r: bool)
    ensures
        r == (xs@.len() == ys@.len() && forall|i: int|
            0 <= i < xs@.len() ==> forms_equal(#[trigger] forms(xs@)[i], forms(ys@)[i])),
    decreases xs, 0int,
{
    if xs.len() != ys.len() {
        return false;
    }
    let mut i: usize = 0;
    while i < xs.len()
        invariant
            i <= xs.len(),
            xs.len() == ys.len(),
            forall|j: int| 0 <= j < i ==> forms_equal(#[trigger] forms(xs@)[j], forms(ys@)[j]),
        decreases xs.len() - i,
    {
        if !values_equal(&xs[i], &ys[i]) {
            assert(!forms_equal(forms(xs@)[i as int], forms(ys@)[i as int]));
            return false;
        }
        i += 1;
    }
    true
}

fn entries_equal(xs: &Vec<(LispyType, LispyType)>, ys: &Vec<(LispyType, LispyType)>) -> (r: bool)
    ensures
        r == (xs@.len() == ys@.len() && forall|i: int|
            0 <= i < xs@.len() ==> entry_found(#[trigger] pair_forms(xs@)[i], pair_forms(ys@))),
    decreases xs, 0int,
{
    if xs.len() != ys.len() {
        return false;
    }
    let mut i: usize = 0;
    while i < xs.len()
        invariant
            i <= xs.len(),
            xs.len() == ys.len(),
            forall|j: int|
                0 <= j < i ==> entry_found(#[trigger] pair_forms(xs@)[j], pair_forms(ys@)),
        decreases xs.len() - i,
    {
        let found = match find_key(ys, &xs[i].0) {
            Some(k) => values_equal(&xs[i].1, &ys[k].1),
            None => false,
        };
        if !found {
            assert(!entry_found(pair_forms(xs@)[i as int], pair_forms(ys@)));
            return false;
        }
        assert(entry_found(pair_forms(xs@)[i as int], pair_forms(ys@)));
        i += 1;
    }
    true
}

/// Decides `=` on two values.
pub fn values_equal(a: &LispyType, b: &LispyType) -> (r: bool)
    ensures
        r == forms_equal(a@, b@),
    decreases a, 1int,
{
    match (a, b) {
        (LispyType::Nil { .. }, LispyType::Nil { .. }) => true,
        (LispyType::Bool { value: x, .. }, LispyType::Bool { value: y, .. }) => *x == *y,
        (LispyType::Number { value: x, .. }, LispyType::Number { value: y, .. }) => number_eq(
            *x,
            *y,
        ),
        (LispyType::Symbol { value: x, .. }, LispyType::Symbol { value: y, .. }) => *x == *y,
        (LispyType::Keyword { value: x, .. }, LispyType::Keyword { value: y, .. }) => *x == *y,
        (LispyType::String { value: x, .. }, LispyType::String { value: y, .. }) => *x == *y,
        (LispyType::List { collection: xs, .. }, LispyType::List { collection: ys, .. }) => {
            assert(a@->List_collection == forms(xs@));
            assert(b@->List_collection == forms(ys@));
            items_equal(xs, ys)
        },
        (LispyType::Hash { collection: xs, .. }, LispyType::Hash { collection: ys, .. }) => {
            assert(a@->Hash_collection == pair_forms(xs@));
            assert(b@->Hash_collection == pair_forms(ys@));
            entries_equal(xs, ys)
        },
        (
            LispyType::Error { error_type: x, .. },
            LispyType::Error { error_type: y, .. },
        ) => *x == *y,
        _ => false,
    }
}

impl PartialEq for LispyType {
    /// `==` on values is the equality that `=` decides.
    fn eq(&self, other: &Self) -> (r: bool) {
        values_equal(self, other)
    }
}

impl PartialEqSpecImpl for LispyType {
    open spec fn obeys_eq_spec() -> bool {
        true
    }

    open spec fn eq_spec(&self, other: &Self) -> bool {
        forms_equal(self@, other@)
    }
}

} // verus!
