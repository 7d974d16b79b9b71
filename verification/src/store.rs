//! The variable store: five name-keyed tables, one per value kind.
//!
//! A name may stand in several tables at once (set as an int, later created
//! as a string by another path); lookups that span tables try them in the
//! fixed order int, float, string, array, dictionary. Each table keeps unique
//! keys and holds only values of its own kind.

use vstd::prelude::*;

use crate::errors::InterpError;
use crate::parse::{dict_update, spec_dict_update, spec_key_at, lemma_key_at};
use crate::text::str_eq;
use crate::value::{
    clone_value, lemma_vmodel_pairs_len, vmodel, vmodel_pairs, ParsedValue, ValSpec,
};

verus! {

/// One table: an association list in insertion order.
pub type Table = Vec<(String, ParsedValue)>;

/// The model of one table.
pub type TableModel = Seq<(Seq<char>, ValSpec)>;

/// The value at the first occurrence of a key.
pub open spec fn spec_table_lookup(d: TableModel, k: Seq<char>) -> Option<ValSpec> {
    let j = spec_key_at(d, k);
    if j < 0 {
        None
    } else {
        Some(d[j].1)
    }
}

/// The table without the first occurrence of a key.
pub open spec fn spec_table_remove(d: TableModel, k: Seq<char>) -> TableModel {
    let j = spec_key_at(d, k);
    if j < 0 {
        d
    } else {
        d.remove(j)
    }
}

/// No key occurs twice.
pub open spec fn keys_unique(d: TableModel) -> bool {
    forall|i: int, j: int| 0 <= i < j < d.len() ==> (#[trigger] d[i]).0 != (#[trigger] d[j]).0
}

/// Inserting keeps keys unique.
pub proof fn lemma_update_keys_unique(d: TableModel, k: Seq<char>, v: ValSpec)
    requires
        keys_unique(d),
    ensures
        keys_unique(spec_dict_update(d, k, v)),
{
    lemma_key_at(d, k);
    let j = spec_key_at(d, k);
    let r = spec_dict_update(d, k, v);
    if j < 0 {
        assert forall|a: int, b: int| 0 <= a < b < r.len() implies (#[trigger] r[a]).0 != (
        #[trigger] r[b]).0 by {
            if b < d.len() {
                assert(r[a] == d[a] && r[b] == d[b]);
            } else {
                assert(r[a] == d[a] && r[b] == (k, v));
                assert(d[a].0 != k);
            }
        }
    } else {
        assert forall|a: int, b: int| 0 <= a < b < r.len() implies (#[trigger] r[a]).0 != (
        #[trigger] r[b]).0 by {
            if a != j && b != j {
                assert(r[a] == d[a] && r[b] == d[b]);
            } else if a == j {
                assert(r[a].0 == d[j].0 && r[b] == d[b]);
            } else {
                assert(r[b].0 == d[j].0 && r[a] == d[a]);
            }
        }
    }
}

/// Removing keeps keys unique.
pub proof fn lemma_remove_keys_unique(d: TableModel, k: Seq<char>)
    requires
        keys_unique(d),
    ensures
        keys_unique(spec_table_remove(d, k)),
{
    lemma_key_at(d, k);
    let j = spec_key_at(d, k);
    let r = spec_table_remove(d, k);
    if j >= 0 {
        assert forall|a: int, b: int| 0 <= a < b < r.len() implies (#[trigger] r[a]).0 != (
        #[trigger] r[b]).0 by {
            let a0 = if a < j {
                a
            } else {
                a + 1
            };
            let b0 = if b < j {
                b
            } else {
                b + 1
            };
            assert(r[a] == d[a0] && r[b] == d[b0]);
        }
    }
}

/// Looks a name up; the returned value is a copy.
pub fn table_get(d: &Table, name: &str) -> (r: Option<ParsedValue>)
    ensures
        match r {
            Some(v) => spec_table_lookup(vmodel_pairs(d@), name@) == Some(vmodel(v)),
            None => spec_table_lookup(vmodel_pairs(d@), name@) is None,
        },
{
    let ghost m = vmodel_pairs(d@);
    proof {
        lemma_vmodel_pairs_len(d@);
    }
    let mut i: usize = 0;
    while i < d.len()
        invariant
            0 <= i <= d@.len(),
            m == vmodel_pairs(d@),
            m.len() == d@.len(),
            forall|j: int| 0 <= j < d@.len() ==> m[j] == ((#[trigger] d@[j]).0@, vmodel(d@[j].1)),
            forall|n: int| 0 <= n < i ==> (#[trigger] m[n]).0 != name@,
        decreases d@.len() - i,
    {
        if str_eq(d[i].0.as_str(), name) {
            let v = clone_value(&d[i].1);
            proof {
                lemma_key_at(m, name@);
                let j = spec_key_at(m, name@);
                if j == -1 {
                    assert(m[i as int].0 != name@);
                } else {
                    if j < i as int {
                        assert(m[j].0 != name@);
                    }
                    if j > i as int {
                        assert(m[i as int].0 != name@);
                    }
                }
                assert(j == i as int);
            }
            return Some(v);
        }
        i = i + 1;
    }
    proof {
        lemma_key_at(m, name@);
        let j = spec_key_at(m, name@);
        if j != -1 {
            assert(m[j].0 != name@);
        }
    }
    None
}

/// Whether a name is present.
pub fn table_has(d: &Table, name: &str) -> (r: bool)
    ensures
        r == (spec_table_lookup(vmodel_pairs(d@), name@) is Some),
{
    let v = table_get(d, name);
    v.is_some()
}

/// Removes the first binding of a name; returns whether one was there.
pub fn table_remove(d: &mut Table, name: &str) -> (r: bool)
    ensures
        vmodel_pairs(final(d)@) == spec_table_remove(vmodel_pairs(old(d)@), name@),
        r == (spec_table_lookup(vmodel_pairs(old(d)@), name@) is Some),
{
    let ghost m = vmodel_pairs(d@);
    proof {
        lemma_vmodel_pairs_len(d@);
    }
    let mut i: usize = 0;
    while i < d.len()
        invariant
            0 <= i <= d@.len(),
            m == vmodel_pairs(d@),
            d@ == old(d)@,
            m.len() == d@.len(),
            forall|j: int| 0 <= j < d@.len() ==> m[j] == ((#[trigger] d@[j]).0@, vmodel(d@[j].1)),
            forall|n: int| 0 <= n < i ==> (#[trigger] m[n]).0 != name@,
        decreases d@.len() - i,
    {
        if str_eq(d[i].0.as_str(), name) {
            proof {
                lemma_key_at(m, name@);
                let j = spec_key_at(m, name@);
                if j == -1 {
                    assert(m[i as int].0 != name@);
                } else {
                    if j < i as int {
                        assert(m[j].0 != name@);
                    }
                    if j > i as int {
                        assert(m[i as int].0 != name@);
                    }
                }
                assert(j == i as int);
            }
            let ghost d_before = d@;
            let _ = d.remove(i);
            proof {
                lemma_vmodel_pairs_len(d@);
                lemma_vmodel_pairs_len(d_before);
                assert forall|n: int| 0 <= n < d@.len() implies #[trigger] vmodel_pairs(d@)[n]
                    == m.remove(i as int)[n] by {
                    if n < i as int {
                        assert(d@[n] == d_before[n]);
                    } else {
                        assert(d@[n] == d_before[n + 1]);
                    }
                }
                assert(vmodel_pairs(d@) =~= spec_table_remove(m, name@));
            }
            return true;
        }
        i = i + 1;
    }
    proof {
        lemma_key_at(m, name@);
        let j = spec_key_at(m, name@);
        if j != -1 {
            assert(m[j].0 != name@);
        }
    }
    false
}

/// Whether every value in the table is of the given kind: 0 int, 1 float,
/// 2 string, 3 array, 4 dictionary.
pub open spec fn val_kind(v: ValSpec) -> int {
    match v {
        ValSpec::Int(_) => 0,
        ValSpec::Float(_) => 1,
        ValSpec::Str(_) => 2,
        ValSpec::Array(_) => 3,
        ValSpec::Dict(_) => 4,
    }
}

pub open spec fn table_kind(d: TableModel, kind: int) -> bool {
    forall|i: int| 0 <= i < d.len() ==> val_kind((#[trigger] d[i]).1) == kind
}

pub proof fn lemma_update_table_kind(d: TableModel, k: Seq<char>, v: ValSpec, kind: int)
    requires
        table_kind(d, kind),
        val_kind(v) == kind,
    ensures
        table_kind(spec_dict_update(d, k, v), kind),
{
    lemma_key_at(d, k);
    let j = spec_key_at(d, k);
    let r = spec_dict_update(d, k, v);
    assert forall|i: int| 0 <= i < r.len() implies val_kind((#[trigger] r[i]).1) == kind by {
        if (j < 0 && i < d.len()) || (j >= 0 && i != j) {
            assert(r[i] == d[i]);
        }
    }
}

pub proof fn lemma_remove_table_kind(d: TableModel, k: Seq<char>, kind: int)
    requires
        table_kind(d, kind),
    ensures
        table_kind(spec_table_remove(d, k), kind),
{
    lemma_key_at(d, k);
    let j = spec_key_at(d, k);
    let r = spec_table_remove(d, k);
    if j >= 0 {
        assert forall|i: int| 0 <= i < r.len() implies val_kind((#[trigger] r[i]).1) == kind by {
            if i < j {
                assert(r[i] == d[i]);
            } else {
                assert(r[i] == d[i + 1]);
            }
        }
    }
}

/// The variable store.
pub struct Variables {
    pub int_variables: Table,
    pub float_variables: Table,
    pub string_variables: Table,
    pub array_variables: Table,
    pub dict_variables: Table,
}

impl Variables {
    /// Model of the int table, and so on below.
    pub open spec fn ints(&self) -> TableModel {
        vmodel_pairs(self.int_variables@)
    }

    pub open spec fn floats(&self) -> TableModel {
        vmodel_pairs(self.float_variables@)
    }

    pub open spec fn strings(&self) -> TableModel {
        vmodel_pairs(self.string_variables@)
    }

    pub open spec fn arrays(&self) -> TableModel {
        vmodel_pairs(self.array_variables@)
    }

    pub open spec fn dicts(&self) -> TableModel {
        vmodel_pairs(self.dict_variables@)
    }

    /// Each table keeps unique keys and values of its own kind.
    pub open spec fn wf(&self) -> bool {
        &&& keys_unique(self.ints()) && table_kind(self.ints(), 0)
        &&& keys_unique(self.floats()) && table_kind(self.floats(), 1)
        &&& keys_unique(self.strings()) && table_kind(self.strings(), 2)
        &&& keys_unique(self.arrays()) && table_kind(self.arrays(), 3)
        &&& keys_unique(self.dicts()) && table_kind(self.dicts(), 4)
    }

    /// An empty store.
    pub fn new() -> (r: Variables)
        ensures
            r.wf(),
            r.ints() == Seq::<(Seq<char>, ValSpec)>::empty(),
            r.floats() == Seq::<(Seq<char>, ValSpec)>::empty(),
            r.strings() == Seq::<(Seq<char>, ValSpec)>::empty(),
            r.arrays() == Seq::<(Seq<char>, ValSpec)>::empty(),
            r.dicts() == Seq::<(Seq<char>, ValSpec)>::empty(),
    {
        let r = Variables {
            int_variables: Vec::new(),
            float_variables: Vec::new(),
            string_variables: Vec::new(),
            array_variables: Vec::new(),
            dict_variables: Vec::new(),
        };
        proof {
            assert(r.ints() =~= Seq::<(Seq<char>, ValSpec)>::empty());
            assert(r.floats() =~= Seq::<(Seq<char>, ValSpec)>::empty());
            assert(r.strings() =~= Seq::<(Seq<char>, ValSpec)>::empty());
            assert(r.arrays() =~= Seq::<(Seq<char>, ValSpec)>::empty());
            assert(r.dicts() =~= Seq::<(Seq<char>, ValSpec)>::empty());
        }
        r
    }

    /// Whether any of the five tables binds the name.
    pub fn has_variable(&self, name: &str) -> (r: bool)
        ensures
            r == (spec_table_lookup(self.ints(), name@) is Some || spec_table_lookup(
                self.floats(),
                name@,
            ) is Some || spec_table_lookup(self.strings(), name@) is Some || spec_table_lookup(
                self.arrays(),
                name@,
            ) is Some || spec_table_lookup(self.dicts(), name@) is Some),
    {
        table_has(&self.int_variables, name) || table_has(&self.float_variables, name) || table_has(
            &self.string_variables,
            name,
        ) || table_has(&self.array_variables, name) || table_has(&self.dict_variables, name)
    }

    pub fn get_int_data(&self, name: &str) -> (r: Option<i32>)
        requires
            self.wf(),
        ensures
            match r {
                Some(v) => spec_table_lookup(self.ints(), name@) == Some(ValSpec::Int(v as int)),
                None => spec_table_lookup(self.ints(), name@) is None,
            },
    {
        match table_get(&self.int_variables, name) {
            Some(ParsedValue::Int(v)) => Some(v),
            Some(_) => {
                proof {
                    lemma_key_at(self.ints(), name@);
                }
                None
            },
            None => None,
        }
    }

    pub fn get_float_data(&self, name: &str) -> (r: Option<u64>)
        requires
            self.wf(),
        ensures
            match r {
                Some(bits) => spec_table_lookup(self.floats(), name@) == Some(ValSpec::Float(bits)),
                None => spec_table_lookup(self.floats(), name@) is None,
            },
    {
        match table_get(&self.float_variables, name) {
            Some(ParsedValue::Float(bits)) => Some(bits),
            Some(_) => {
                proof {
                    lemma_key_at(self.floats(), name@);
                }
                None
            },
            None => None,
        }
    }

    pub fn get_string_data(&self, name: &str) -> (r: Option<String>)
        requires
            self.wf(),
        ensures
            match r {
                Some(s) => spec_table_lookup(self.strings(), name@) == Some(ValSpec::Str(s@)),
                None => spec_table_lookup(self.strings(), name@) is None,
            },
    {
        match table_get(&self.string_variables, name) {
            Some(ParsedValue::Str(s)) => Some(s),
            Some(_) => {
                proof {
                    lemma_key_at(self.strings(), name@);
                }
                None
            },
            None => None,
        }
    }

    pub fn get_array_data(&self, name: &str) -> (r: Option<Vec<ParsedValue>>)
        requires
            self.wf(),
        ensures
            match r {
                Some(a) => spec_table_lookup(self.arrays(), name@) == Some(
                    ValSpec::Array(crate::value::vmodel_seq(a@)),
                ),
                None => spec_table_lookup(self.arrays(), name@) is None,
            },
    {
        match table_get(&self.array_variables, name) {
            Some(ParsedValue::Array(a)) => Some(a),
            Some(_) => {
                proof {
                    lemma_key_at(self.arrays(), name@);
                }
                None
            },
            None => None,
        }
    }

    pub fn get_dict_data(&self, name: &str) -> (r: Option<Vec<(String, ParsedValue)>>)
        requires
            self.wf(),
        ensures
            match r {
                Some(d) => spec_table_lookup(self.dicts(), name@) == Some(
                    ValSpec::Dict(vmodel_pairs(d@)),
                ),
                None => spec_table_lookup(self.dicts(), name@) is None,
            },
    {
        match table_get(&self.dict_variables, name) {
            Some(ParsedValue::Dict(d)) => Some(d),
            Some(_) => {
                proof {
                    lemma_key_at(self.dicts(), name@);
                }
                None
            },
            None => None,
        }
    }

    pub fn add_data_to_int(&mut self, name: String, v: i32)
        requires
            old(self).wf(),
        ensures
            final(self).wf(),
            final(self).ints() == spec_dict_update(old(self).ints(), name@, ValSpec::Int(v as int)),
            final(self).floats() == old(self).floats(),
            final(self).strings() == old(self).strings(),
            final(self).arrays() == old(self).arrays(),
            final(self).dicts() == old(self).dicts(),
    {
        proof {
            lemma_update_keys_unique(self.ints(), name@, ValSpec::Int(v as int));
            lemma_update_table_kind(self.ints(), name@, ValSpec::Int(v as int), 0);
        }
        dict_update(&mut self.int_variables, name, ParsedValue::Int(v));
    }

    pub fn add_data_to_float(&mut self, name: String, bits: u64)
        requires
            old(self).wf(),
        ensures
            final(self).wf(),
            final(self).floats() == spec_dict_update(
                old(self).floats(),
                name@,
                ValSpec::Float(bits),
            ),
            final(self).ints() == old(self).ints(),
            final(self).strings() == old(self).strings(),
            final(self).arrays() == old(self).arrays(),
            final(self).dicts() == old(self).dicts(),
    {
        proof {
            lemma_update_keys_unique(self.floats(), name@, ValSpec::Float(bits));
            lemma_update_table_kind(self.floats(), name@, ValSpec::Float(bits), 1);
        }
        dict_update(&mut self.float_variables, name, ParsedValue::Float(bits));
    }

    pub fn add_data_to_string(&mut self, name: String, v: String)
        requires
            old(self).wf(),
        ensures
            final(self).wf(),
            final(self).strings() == spec_dict_update(
                old(self).strings(),
                name@,
                ValSpec::Str(v@),
            ),
            final(self).ints() == old(self).ints(),
            final(self).floats() == old(self).floats(),
            final(self).arrays() == old(self).arrays(),
            final(self).dicts() == old(self).dicts(),
    {
        proof {
            lemma_update_keys_unique(self.strings(), name@, ValSpec::Str(v@));
            lemma_update_table_kind(self.strings(), name@, ValSpec::Str(v@), 2);
        }
        dict_update(&mut self.string_variables, name, ParsedValue::Str(v));
    }

    pub fn add_data_to_array(&mut self, name: String, v: Vec<ParsedValue>)
        requires
            old(self).wf(),
        ensures
            final(self).wf(),
            final(self).arrays() == spec_dict_update(
                old(self).arrays(),
                name@,
                ValSpec::Array(crate::value::vmodel_seq(v@)),
            ),
            final(self).ints() == old(self).ints(),
            final(self).floats() == old(self).floats(),
            final(self).strings() == old(self).strings(),
            final(self).dicts() == old(self).dicts(),
    {
        proof {
            lemma_update_keys_unique(
                self.arrays(),
                name@,
                ValSpec::Array(crate::value::vmodel_seq(v@)),
            );
            lemma_update_table_kind(
                self.arrays(),
                name@,
                ValSpec::Array(crate::value::vmodel_seq(v@)),
                3,
            );
        }
        dict_update(&mut self.array_variables, name, ParsedValue::Array(v));
    }

    pub fn add_data_to_dict(&mut self, name: String, v: Vec<(String, ParsedValue)>)
        requires
            old(self).wf(),
        ensures
            final(self).wf(),
            final(self).dicts() == spec_dict_update(
                old(self).dicts(),
                name@,
                ValSpec::Dict(vmodel_pairs(v@)),
            ),
            final(self).ints() == old(self).ints(),
            final(self).floats() == old(self).floats(),
            final(self).strings() == old(self).strings(),
            final(self).arrays() == old(self).arrays(),
    {
        proof {
            lemma_update_keys_unique(self.dicts(), name@, ValSpec::Dict(vmodel_pairs(v@)));
            lemma_update_table_kind(self.dicts(), name@, ValSpec::Dict(vmodel_pairs(v@)), 4);
        }
        dict_update(&mut self.dict_variables, name, ParsedValue::Dict(v));
    }

    pub fn remove_int_data(&mut self, name: &str)
        requires
            old(self).wf(),
        ensures
            final(self).wf(),
            final(self).ints() == spec_table_remove(old(self).ints(), name@),
            final(self).floats() == old(self).floats(),
            final(self).strings() == old(self).strings(),
            final(self).arrays() == old(self).arrays(),
            final(self).dicts() == old(self).dicts(),
    {
        proof {
            lemma_remove_keys_unique(self.ints(), name@);
            lemma_remove_table_kind(self.ints(), name@, 0);
        }
        let _ = table_remove(&mut self.int_variables, name);
    }

    pub fn remove_float_data(&mut self, name: &str)
        requires
            old(self).wf(),
        ensures
            final(self).wf(),
            final(self).floats() == spec_table_remove(old(self).floats(), name@),
            final(self).ints() == old(self).ints(),
            final(self).strings() == old(self).strings(),
            final(self).arrays() == old(self).arrays(),
            final(self).dicts() == old(self).dicts(),
    {
        proof {
            lemma_remove_keys_unique(self.floats(), name@);
            lemma_remove_table_kind(self.floats(), name@, 1);
        }
        let _ = table_remove(&mut self.float_variables, name);
    }

    pub fn remove_string_data(&mut self, name: &str)
        requires
            old(self).wf(),
        ensures
            final(self).wf(),
            final(self).strings() == spec_table_remove(old(self).strings(), name@),
            final(self).ints() == old(self).ints(),
            final(self).floats() == old(self).floats(),
            final(self).arrays() == old(self).arrays(),
            final(self).dicts() == old(self).dicts(),
    {
        proof {
            lemma_remove_keys_unique(self.strings(), name@);
            lemma_remove_table_kind(self.strings(), name@, 2);
        }
        let _ = table_remove(&mut self.string_variables, name);
    }

    pub fn remove_array_data(&mut self, name: &str)
        requires
            old(self).wf(),
        ensures
            final(self).wf(),
            final(self).arrays() == spec_table_remove(old(self).arrays(), name@),
            final(self).ints() == old(self).ints(),
            final(self).floats() == old(self).floats(),
            final(self).strings() == old(self).strings(),
            final(self).dicts() == old(self).dicts(),
    {
        proof {
            lemma_remove_keys_unique(self.arrays(), name@);
            lemma_remove_table_kind(self.arrays(), name@, 3);
        }
        let _ = table_remove(&mut self.array_variables, name);
    }

    pub fn remove_dict_data(&mut self, name: &str)
        requires
            old(self).wf(),
        ensures
            final(self).wf(),
            final(self).dicts() == spec_table_remove(old(self).dicts(), name@),
            final(self).ints() == old(self).ints(),
            final(self).floats() == old(self).floats(),
            final(self).strings() == old(self).strings(),
            final(self).arrays() == old(self).arrays(),
    {
        proof {
            lemma_remove_keys_unique(self.dicts(), name@);
            lemma_remove_table_kind(self.dicts(), name@, 4);
        }
        let _ = table_remove(&mut self.dict_variables, name);
    }

    /// Removes the character at `index` from a string variable. Fails where
    /// the variable is no string or the index is at or past its length.
    pub fn remove_string_char(&mut self, name: &str, index: usize) -> (r: Result<(), InterpError>)
        requires
            old(self).wf(),
        ensures
            final(self).wf(),
            final(self).ints() == old(self).ints(),
            final(self).floats() == old(self).floats(),
            final(self).arrays() == old(self).arrays(),
            final(self).dicts() == old(self).dicts(),
            match r {
                Ok(()) => {
                    &&& spec_table_lookup(old(self).strings(), name@) matches Some(
                        ValSpec::Str(s),
                    ) && index < s.len()
                    &&& spec_table_lookup(old(self).strings(), name@) matches Some(ValSpec::Str(s))
                        ==> final(self).strings() == spec_dict_update(
                        old(self).strings(),
                        name@,
                        ValSpec::Str(s.remove(index as int)),
                    )
                },
                Err(e) => {
                    &&& final(self).strings() == old(self).strings()
                    &&& match spec_table_lookup(old(self).strings(), name@) {
                        Some(ValSpec::Str(s)) => index >= s.len() && e is IndexOutOfBounds,
                        _ => e is UndefinedVariable,
                    }
                },
            },
    {
        match self.get_string_data(name) {
            None => Err(InterpError::UndefinedVariable(name.to_owned())),
            Some(s) => {
                let mut cs = crate::text::chars_of(s.as_str());
                if index >= cs.len() {
                    return Err(InterpError::IndexOutOfBounds(name.to_owned(), index));
                }
                let _ = cs.remove(index);
                let out = crate::text::string_of(cs.as_slice());
                self.add_data_to_string(name.to_owned(), out);
                Ok(())
            },
        }
    }
}


/// One listing line: `name: value suffix`.
pub open spec fn spec_vl_entry(p: (Seq<char>, ValSpec), suffix: Seq<char>) -> Seq<char> {
    let rendered = match p.1 {
        ValSpec::Int(i) => crate::numtext::int_text(i),
        ValSpec::Float(b) => crate::float::float_dec_of(b),
        ValSpec::Str(s) => s,
        ValSpec::Array(_) => Seq::<char>::empty(),
        ValSpec::Dict(_) => Seq::<char>::empty(),
    };
    p.0 + (": ")@ + rendered + suffix + seq!['\n']
}

/// A listing section: its title line, one line per variable, a blank line.
pub open spec fn spec_vl_section(
    title: Seq<char>,
    t: TableModel,
    suffix: Seq<char>,
    i: int,
) -> Seq<char>
    decreases t.len() - i + 1,
{
    if i == 0 {
        title + seq!['\n'] + spec_vl_section(title, t, suffix, 1) + seq!['\n']
    } else if i - 1 >= t.len() || i < 0 {
        Seq::empty()
    } else {
        spec_vl_entry(t[i - 1], suffix) + spec_vl_section(title, t, suffix, i + 1)
    }
}

/// What `vl` lists for a mode: one scalar section for `i`, `f` or `s`, and
/// all three for anything else.
pub open spec fn spec_vl(vars: Variables, mode: Seq<char>) -> Seq<char> {
    let ints = spec_vl_section(
        ("=== Integer Variables (i32) ===")@,
        vars.ints(),
        (" (i32)")@,
        0,
    );
    let floats = spec_vl_section(
        ("=== Float Variables (f64) ===")@,
        vars.floats(),
        (" (f64)")@,
        0,
    );
    let strings = spec_vl_section(
        ("=== String Variables (String) ===")@,
        vars.strings(),
        (" (String)")@,
        0,
    );
    if mode == ("i")@ {
        ints
    } else if mode == ("f")@ {
        floats
    } else if mode == ("s")@ {
        strings
    } else {
        ints + floats + strings
    }
}

impl Variables {
    /// Lists the scalar variables: the sections `vl` prints, as one text.
    pub fn vl(&self, mode: &str) -> (r: String)
        requires
            self.wf(),
        ensures
            r@ == spec_vl(*self, mode@),
    {
        let want_i = crate::text::str_eq(mode, "i");
        let want_f = crate::text::str_eq(mode, "f");
        let want_s = crate::text::str_eq(mode, "s");
        let out: Vec<char> = if want_i {
            vl_section(&self.int_variables, "=== Integer Variables (i32) ===", " (i32)")
        } else if want_f {
            vl_section(&self.float_variables, "=== Float Variables (f64) ===", " (f64)")
        } else if want_s {
            vl_section(&self.string_variables, "=== String Variables (String) ===", " (String)")
        } else {
            let mut all = vl_section(
                &self.int_variables,
                "=== Integer Variables (i32) ===",
                " (i32)",
            );
            let mut fs = vl_section(&self.float_variables, "=== Float Variables (f64) ===", " (f64)");
            all.append(&mut fs);
            let mut ss = vl_section(
                &self.string_variables,
                "=== String Variables (String) ===",
                " (String)",
            );
            all.append(&mut ss);
            all
        };
        proof {
            assert(out@ =~= spec_vl(*self, mode@));
        }
        crate::text::string_of(out.as_slice())
    }
}

/// Renders one listing section.
fn vl_section(t: &Table, title: &str, suffix: &str) -> (r: Vec<char>)
    ensures
        r@ == spec_vl_section(title@, vmodel_pairs(t@), suffix@, 0),
{
    let ghost m = vmodel_pairs(t@);
    proof {
        lemma_vmodel_pairs_len(t@);
    }
    let mut out: Vec<char> = Vec::new();
    let mut head = crate::text::chars_of(title);
    out.append(&mut head);
    out.push('\n');
    let mut i: usize = 0;
    let ghost mut done: Seq<char> = Seq::empty();
    while i < t.len()
        invariant
            0 <= i <= t@.len(),
            m == vmodel_pairs(t@),
            m.len() == t@.len(),
            forall|j: int| 0 <= j < t@.len() ==> m[j] == ((#[trigger] t@[j]).0@, vmodel(t@[j].1)),
            out@ == title@ + seq!['\n'] + done,
            spec_vl_section(title@, m, suffix@, 1) == done + spec_vl_section(
                title@,
                m,
                suffix@,
                i + 1,
            ),
        decreases t@.len() - i,
    {
        let ghost done0 = done;
        let pair = &t[i];
        let mut k = crate::text::chars_of(pair.0.as_str());
        out.append(&mut k);
        out.push(':');
        out.push(' ');
        match &pair.1 {
            ParsedValue::Int(v) => {
                let mut d = crate::numtext::int_to_chars(*v);
                out.append(&mut d);
            },
            ParsedValue::Float(bits) => {
                let mut d = crate::float::float_display(*bits);
                out.append(&mut d);
            },
            ParsedValue::Str(s) => {
                let mut d = crate::text::chars_of(s.as_str());
                out.append(&mut d);
            },
            _ => {},
        }
        let mut sfx = crate::text::chars_of(suffix);
        out.append(&mut sfx);
        out.push('\n');
        proof {
            reveal_strlit(": ");
            done = done0 + spec_vl_entry(m[i as int], suffix@);
            assert((": ")@ =~= seq![':', ' ']);
            assert(out@ =~= title@ + seq!['\n'] + done);
            assert(spec_vl_section(title@, m, suffix@, i + 1) == spec_vl_entry(
                m[i as int],
                suffix@,
            ) + spec_vl_section(title@, m, suffix@, i + 2));
            assert(spec_vl_section(title@, m, suffix@, 1) =~= done + spec_vl_section(
                title@,
                m,
                suffix@,
                i + 2,
            ));
        }
        i = i + 1;
    }
    out.push('\n');
    proof {
        assert(spec_vl_section(title@, m, suffix@, i + 1) =~= Seq::<char>::empty());
        assert(spec_vl_section(title@, m, suffix@, 1) =~= done);
        assert(out@ =~= spec_vl_section(title@, m, suffix@, 0));
    }
    out
}

} // verus!
