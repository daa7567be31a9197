use vstd::prelude::*;

use crate::error::ZakuError;
use crate::strutil::str_eq;
use crate::types::DataType;

verus! {

/// A named, typed column of a schema.
#[derive(Debug, Clone)]
pub struct Field {
    pub name: String,
    pub datatype: DataType,
}

impl Field {
    pub fn new(name: String, datatype: DataType) -> (r: Field)
        ensures
            r.name == name,
            r.datatype == datatype,
    {
        Field { name, datatype }
    }

    pub fn name(&self) -> (r: &String)
        ensures
            r == &self.name,
    {
        &self.name
    }

    pub fn datatype(&self) -> (r: &DataType)
        ensures
            r == &self.datatype,
    {
        &self.datatype
    }

    pub fn set_datatype(&mut self, datatype: DataType)
        ensures
            final(self).datatype == datatype,
            final(self).name == old(self).name,
    {
        self.datatype = datatype;
    }

    /// Copies the field; the copy equals the original.
    pub fn duplicate(&self) -> (r: Field)
        ensures
            r == *self,
    {
        Field { name: self.name.clone(), datatype: self.datatype }
    }
}

/// The position of the first field with the given name, if any.
pub open spec fn first_match(fs: Seq<Field>, name: Seq<char>) -> Option<int>
    decreases fs.len(),
{
    if fs.len() == 0 {
        None
    } else if fs[0].name@ == name {
        Some(0int)
    } else {
        match first_match(fs.skip(1), name) {
            Some(i) => Some(i + 1),
            None => None,
        }
    }
}

/// What `first_match` means: the returned position carries the name and no
/// earlier one does; `None` means no field carries it.
pub proof fn lemma_first_match(fs: Seq<Field>, name: Seq<char>)
    ensures
        match first_match(fs, name) {
            Some(i) => 0 <= i < fs.len() && fs[i].name@ == name && forall|k: int|
                0 <= k < i ==> fs[k].name@ != name,
            None => forall|k: int| 0 <= k < fs.len() ==> fs[k].name@ != name,
        },
    decreases fs.len(),
{
    if fs.len() > 0 && fs[0].name@ != name {
        lemma_first_match(fs.skip(1), name);
        assert(forall|k: int| 0 <= k < fs.skip(1).len() ==> fs.skip(1)[k] =~= fs[k + 1]);
        match first_match(fs.skip(1), name) {
            Some(i) => {
                assert(first_match(fs, name) == Some(i + 1));
                assert(fs[i + 1] == fs.skip(1)[i]);
                assert(forall|k: int| 1 <= k < i + 1 ==> fs[k] == fs.skip(1)[k - 1]);
            },
            None => {
                assert(forall|k: int| 1 <= k < fs.len() ==> fs[k] == fs.skip(1)[k - 1]);
            },
        }
    }
}

/// `first_match` looking only at a prefix that contains a hit agrees with the
/// whole sequence.
pub proof fn lemma_first_match_found(fs: Seq<Field>, name: Seq<char>, i: int)
    requires
        0 <= i < fs.len(),
        fs[i].name@ == name,
        forall|k: int| 0 <= k < i ==> fs[k].name@ != name,
    ensures
        first_match(fs, name) == Some(i),
    decreases fs.len(),
{
    if i > 0 {
        lemma_first_match_found(fs.skip(1), name, i - 1);
    }
}

/// An ordered list of fields.
#[derive(Debug, Clone)]
pub struct Schema {
    pub fields: Vec<Field>,
}

/// The projection of a schema onto a list of names: each requested name that
/// resolves contributes its first matching field, in request order.
pub open spec fn select_fields(fs: Seq<Field>, names: Seq<Seq<char>>) -> Seq<Field>
    decreases names.len(),
{
    if names.len() == 0 {
        Seq::empty()
    } else {
        (match first_match(fs, names[0]) {
            Some(i) => seq![fs[i]],
            None => Seq::empty(),
        }) + select_fields(fs, names.skip(1))
    }
}

/// The source positions of the selected fields: each resolving name
/// contributes the position of its first match, in request order.
pub open spec fn selected_indices(fs: Seq<Field>, names: Seq<Seq<char>>) -> Seq<int>
    decreases names.len(),
{
    if names.len() == 0 {
        Seq::empty()
    } else {
        (match first_match(fs, names[0]) {
            Some(i) => seq![i],
            None => Seq::empty(),
        }) + selected_indices(fs, names.skip(1))
    }
}

/// The selected fields are the fields at the selected positions.
pub proof fn lemma_selected_fields_indices(fs: Seq<Field>, names: Seq<Seq<char>>)
    ensures
        select_fields(fs, names) == selected_indices(fs, names).map_values(|i: int| fs[i]),
        forall|t: int|
            0 <= t < selected_indices(fs, names).len() ==> 0 <= #[trigger] selected_indices(
                fs,
                names,
            )[t] < fs.len(),
    decreases names.len(),
{
    if names.len() == 0 {
        assert(select_fields(fs, names) =~= selected_indices(fs, names).map_values(
            |i: int| fs[i],
        ));
    } else {
        lemma_selected_fields_indices(fs, names.skip(1));
        lemma_first_match(fs, names[0]);
        assert(select_fields(fs, names) =~= selected_indices(fs, names).map_values(
            |i: int| fs[i],
        ));
    }
}

impl Schema {
    pub fn new(fields: Vec<Field>) -> (r: Schema)
        ensures
            r.fields == fields,
    {
        Schema { fields }
    }

    /// Copies the schema; the fields of the copy equal the originals.
    pub fn duplicate(&self) -> (r: Schema)
        ensures
            r.fields@ == self.fields@,
    {
        let mut fields: Vec<Field> = Vec::new();
        let mut i: usize = 0;
        while i < self.fields.len()
            invariant
                i <= self.fields@.len(),
                fields@ == self.fields@.take(i as int),
            decreases self.fields@.len() - i,
        {
            fields.push(self.fields[i].duplicate());
            proof {
                assert(self.fields@.take(i + 1) =~= self.fields@.take(i as int).push(
                    self.fields@[i as int],
                ));
            }
            i = i + 1;
        }
        proof {
            assert(self.fields@.take(self.fields@.len() as int) =~= self.fields@);
        }
        Schema { fields }
    }

    /// Finds the first field with the given name; an unknown name is a
    /// resolution error.
    pub fn get_field(&self, field: &String) -> (r: Result<&Field, ZakuError>)
        ensures
            match r {
                Ok(f) => first_match(self.fields@, field@) is Some && *f == self.fields@[
                    first_match(self.fields@, field@)->Some_0
                ],
                Err(e) => first_match(self.fields@, field@) is None && e is ResolutionError,
            },
    {
        let n = self.fields.len();
        let mut i: usize = 0;
        while i < n
            invariant
                n == self.fields@.len(),
                i <= n,
                forall|k: int| 0 <= k < i ==> self.fields@[k].name@ != field@,
            decreases n - i,
        {
            if str_eq(self.fields[i].name.as_str(), field.as_str()) {
                proof {
                    lemma_first_match_found(self.fields@, field@, i as int);
                }
                return Ok(&self.fields[i]);
            }
            i = i + 1;
        }
        proof {
            lemma_first_match(self.fields@, field@);
        }
        Err(ZakuError::ResolutionError(String::from_str("field not found")))
    }

    /// The field at the given position; an index past the end is an error.
    pub fn get_field_by_index(&self, index: &usize) -> (r: Result<&Field, ZakuError>)
        ensures
            match r {
                Ok(f) => *index < self.fields@.len() && *f == self.fields@[*index as int],
                Err(e) => *index >= self.fields@.len() && e is ResolutionError,
            },
    {
        if *index >= self.fields.len() {
            return Err(ZakuError::ResolutionError(String::from_str("index out of bounds")));
        }
        Ok(&self.fields[*index])
    }

    /// The position of the first field with the given name.
    pub fn get_index(&self, field: &String) -> (r: Result<usize, ZakuError>)
        ensures
            match r {
                Ok(i) => first_match(self.fields@, field@) == Some(i as int),
                Err(e) => first_match(self.fields@, field@) is None && e is ResolutionError,
            },
    {
        let n = self.fields.len();
        let mut i: usize = 0;
        while i < n
            invariant
                n == self.fields@.len(),
                i <= n,
                forall|k: int| 0 <= k < i ==> self.fields@[k].name@ != field@,
            decreases n - i,
        {
            if str_eq(self.fields[i].name.as_str(), field.as_str()) {
                proof {
                    lemma_first_match_found(self.fields@, field@, i as int);
                }
                return Ok(i);
            }
            i = i + 1;
        }
        proof {
            lemma_first_match(self.fields@, field@);
        }
        Err(ZakuError::ResolutionError(String::from_str("field not found")))
    }

    pub fn fields(&self) -> (r: &Vec<Field>)
        ensures
            r == &self.fields,
    {
        &self.fields
    }

    /// The datatype of the first field with the given name.
    pub fn get_datatype(&self, field: &String) -> (r: Result<&DataType, ZakuError>)
        ensures
            match r {
                Ok(dt) => first_match(self.fields@, field@) is Some && *dt == self.fields@[
                    first_match(self.fields@, field@)->Some_0
                ].datatype,
                Err(e) => first_match(self.fields@, field@) is None && e is ResolutionError,
            },
    {
        match self.get_field(field) {
            Ok(f) => Ok(&f.datatype),
            Err(e) => Err(e),
        }
    }

    /// The datatype of the field at the given position.
    pub fn get_datatype_from_index(&self, index: &usize) -> (r: Result<&DataType, ZakuError>)
        ensures
            match r {
                Ok(dt) => *index < self.fields@.len() && *dt == self.fields@[*index as int].datatype,
                Err(e) => *index >= self.fields@.len() && e is ResolutionError,
            },
    {
        match self.get_field_by_index(index) {
            Ok(f) => Ok(&f.datatype),
            Err(e) => Err(e),
        }
    }

    /// Projects the schema onto the given names; unknown names are dropped.
    pub fn select(&self, names: &Vec<String>) -> (r: Schema)
        ensures
            r.fields@ == select_fields(self.fields@, names@.map_values(|s: String| s@)),
    {
        let ghost name_views = names@.map_values(|s: String| s@);
        let mut fields: Vec<Field> = Vec::new();
        let mut i: usize = 0;
        proof {
            assert(name_views.skip(0) =~= name_views);
            assert(fields@ + select_fields(self.fields@, name_views) =~= select_fields(
                self.fields@,
                name_views,
            ));
        }
        while i < names.len()
            invariant
                i <= names@.len(),
                name_views == names@.map_values(|s: String| s@),
                select_fields(self.fields@, name_views) == fields@ + select_fields(
                    self.fields@,
                    name_views.skip(i as int),
                ),
            decreases names@.len() - i,
        {
            let ghost before = fields@;
            match self.get_field(&names[i]) {
                Ok(f) => {
                    let g = f.duplicate();
                    fields.push(g);
                },
                Err(_) => {},
            }
            proof {
                let rest = name_views.skip(i as int);
                assert(rest[0] == name_views[i as int]);
                assert(rest.skip(1) =~= name_views.skip(i + 1));
                match first_match(self.fields@, name_views[i as int]) {
                    Some(j) => {
                        assert(fields@ =~= before + seq![self.fields@[j]]);
                        assert(select_fields(self.fields@, rest) == seq![self.fields@[j]]
                            + select_fields(self.fields@, rest.skip(1)));
                        assert(fields@ + select_fields(self.fields@, name_views.skip(i + 1))
                            =~= before + select_fields(self.fields@, rest));
                    },
                    None => {
                        assert(select_fields(self.fields@, rest) == select_fields(
                            self.fields@,
                            rest.skip(1),
                        ));
                    },
                }
            }
            i = i + 1;
        }
        proof {
            assert(name_views.skip(names@.len() as int) =~= Seq::<Seq<char>>::empty());
            assert(select_fields(self.fields@, name_views.skip(names@.len() as int))
                =~= Seq::<Field>::empty());
            assert(fields@ + Seq::<Field>::empty() =~= fields@);
        }
        Schema { fields }
    }

    /// The column names, in order.
    pub fn as_header(&self) -> (r: Vec<String>)
        ensures
            r@.len() == self.fields@.len(),
            forall|i: int| 0 <= i < r@.len() ==> r@[i] == self.fields@[i].name,
    {
        let mut out: Vec<String> = Vec::new();
        let mut i: usize = 0;
        while i < self.fields.len()
            invariant
                i <= self.fields@.len(),
                out@.len() == i,
                forall|k: int| 0 <= k < i ==> out@[k] == self.fields@[k].name,
            decreases self.fields@.len() - i,
        {
            out.push(self.fields[i].name.clone());
            i = i + 1;
        }
        out
    }
}

} // verus!
