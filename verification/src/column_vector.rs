use vstd::prelude::*;

use crate::sorting::{
    key_of, lemma_equiv_le, perm_ok, perm_sorted, perm_stable, row_equiv, row_le, row_wf,
    stable_sort_indices,
};
use crate::types::{dup_value, val_equiv, val_le, DataType, Value};

verus! {

/// A materialised column: one value per row.
#[derive(Debug, Clone)]
pub struct ColumnVector {
    pub datatype: DataType,
    pub values: Vec<Value>,
}

/// A broadcast column: one value repeated over `size` rows.
#[derive(Debug, Clone)]
pub struct LiteralVector {
    pub datatype: DataType,
    pub value: Value,
    pub size: usize,
}

/// A column of a record batch.
#[derive(Debug, Clone)]
pub enum Vectors {
    ColumnVector(ColumnVector),
    LiteralVector(LiteralVector),
}

impl ColumnVector {
    pub fn new(datatype: DataType, values: Vec<Value>) -> (r: ColumnVector)
        ensures
            r.datatype == datatype,
            r.values == values,
    {
        ColumnVector { datatype, values }
    }
}

impl LiteralVector {
    pub fn new(datatype: DataType, value: Value, size: usize) -> (r: LiteralVector)
        ensures
            r.datatype == datatype,
            r.value == value,
            r.size == size,
    {
        LiteralVector { datatype, value, size }
    }

    pub fn value(&self) -> (r: &Value)
        ensures
            r == &self.value,
    {
        &self.value
    }
}

impl Vectors {
    /// The rows this column holds, with a broadcast column spelled out.
    pub open spec fn view_seq(self) -> Seq<Value> {
        match self {
            Vectors::ColumnVector(c) => c.values@,
            Vectors::LiteralVector(l) => Seq::new(l.size as nat, |i: int| l.value),
        }
    }

    /// The declared datatype.
    pub open spec fn dtype(self) -> DataType {
        match self {
            Vectors::ColumnVector(c) => c.datatype,
            Vectors::LiteralVector(l) => l.datatype,
        }
    }

    /// Every value is well formed and belongs to the declared type.
    pub open spec fn wf(self) -> bool {
        forall|i: int|
            0 <= i < self.view_seq().len() ==> (#[trigger] self.view_seq()[i]).wf()
                && self.view_seq()[i].fits_type(self.dtype())
    }

    pub fn get_type(&self) -> (r: &DataType)
        ensures
            *r == self.dtype(),
    {
        match self {
            Vectors::ColumnVector(c) => &c.datatype,
            Vectors::LiteralVector(l) => &l.datatype,
        }
    }

    /// The value at a row.
    pub fn get_value(&self, index: &usize) -> (r: &Value)
        requires
            (*index as int) < self.view_seq().len(),
        ensures
            *r == self.view_seq()[*index as int],
    {
        match self {
            Vectors::ColumnVector(c) => &c.values[*index],
            Vectors::LiteralVector(l) => &l.value,
        }
    }

    /// The number of rows.
    pub fn size(&self) -> (r: usize)
        ensures
            r as int == self.view_seq().len(),
    {
        match self {
            Vectors::ColumnVector(c) => c.values.len(),
            Vectors::LiteralVector(l) => l.size,
        }
    }

    /// Copies the column; the rows of the copy equal the originals.
    pub fn duplicate(&self) -> (r: Vectors)
        ensures
            r.view_seq() == self.view_seq(),
            r.dtype() == self.dtype(),
            self.wf() ==> r.wf(),
    {
        match self {
            Vectors::ColumnVector(c) => {
                let mut values: Vec<Value> = Vec::new();
                let mut i: usize = 0;
                while i < c.values.len()
                    invariant
                        i <= c.values@.len(),
                        values@ == c.values@.take(i as int),
                    decreases c.values@.len() - i,
                {
                    values.push(dup_value(&c.values[i]));
                    proof {
                        assert(c.values@.take(i + 1) =~= c.values@.take(i as int).push(
                            c.values@[i as int],
                        ));
                    }
                    i = i + 1;
                }
                proof {
                    assert(c.values@.take(c.values@.len() as int) =~= c.values@);
                }
                let r = Vectors::ColumnVector(ColumnVector { datatype: c.datatype, values });
                proof {
                    assert(r.view_seq() =~= self.view_seq());
                    if self.wf() {
                        assert forall|i: int| 0 <= i < r.view_seq().len() implies (
                        #[trigger] r.view_seq()[i]).wf() && r.view_seq()[i].fits_type(
                            r.dtype(),
                        ) by {
                            assert(self.view_seq()[i].wf());
                            assert(self.view_seq()[i].fits_type(self.dtype()));
                        }
                    }
                }
                r
            },
            Vectors::LiteralVector(l) => {
                let r = Vectors::LiteralVector(
                    LiteralVector {
                        datatype: l.datatype,
                        value: dup_value(&l.value),
                        size: l.size,
                    },
                );
                proof {
                    assert(r.view_seq() =~= self.view_seq());
                }
                r
            },
        }
    }

    /// Rebuilds the column with its rows taken in the order the indices give.
    pub fn reorder(&self, indices: &Vec<usize>) -> (r: Vectors)
        requires
            indices@.len() == self.view_seq().len(),
            forall|i: int|
                0 <= i < indices@.len() ==> (#[trigger] indices@[i] as int) < self.view_seq().len(),
        ensures
            r.dtype() == self.dtype(),
            r.view_seq().len() == self.view_seq().len(),
            forall|i: int|
                0 <= i < indices@.len() ==> #[trigger] r.view_seq()[i] == self.view_seq()[indices@[i] as int],
            self.wf() ==> r.wf(),
    {
        match self {
            Vectors::LiteralVector(_) => self.duplicate(),
            Vectors::ColumnVector(c) => {
                let mut values: Vec<Value> = Vec::new();
                let mut i: usize = 0;
                while i < indices.len()
                    invariant
                        indices@.len() == c.values@.len(),
                        forall|k: int|
                            0 <= k < indices@.len() ==> (#[trigger] indices@[k] as int)
                                < c.values@.len(),
                        i <= indices@.len(),
                        values@.len() == i,
                        forall|k: int|
                            0 <= k < i ==> #[trigger] values@[k] == c.values@[indices@[k] as int],
                    decreases indices@.len() - i,
                {
                    values.push(dup_value(&c.values[indices[i]]));
                    i = i + 1;
                }
                Vectors::ColumnVector(ColumnVector { datatype: c.datatype, values })
            },
        }
    }

    /// The positions of the rows in ascending stable order.
    pub fn sort_indices(&self) -> (r: Vec<usize>)
        requires
            self.wf(),
        ensures
            r@.len() == self.view_seq().len(),
            perm_ok(r@, self.view_seq().len() as int),
            forall|i: int, j: int|
                0 <= i < j < r@.len() ==> val_le(
                    #[trigger] self.view_seq()[r@[i] as int],
                    #[trigger] self.view_seq()[r@[j] as int],
                ),
            forall|i: int, j: int|
                0 <= i < j < r@.len() && val_equiv(
                    #[trigger] self.view_seq()[r@[i] as int],
                    #[trigger] self.view_seq()[r@[j] as int],
                ) ==> r@[i] < r@[j],
    {
        let n = self.size();
        let mut keys: Vec<Vec<Value>> = Vec::new();
        let mut i: usize = 0;
        while i < n
            invariant
                self.wf(),
                n as int == self.view_seq().len(),
                i <= n,
                keys@.len() == i,
                forall|k: int|
                    0 <= k < i ==> (#[trigger] keys@[k]@) =~= seq![self.view_seq()[k]],
            decreases n - i,
        {
            let mut row: Vec<Value> = Vec::new();
            row.push(dup_value(self.get_value(&i)));
            proof {
                assert(row@ =~= seq![self.view_seq()[i as int]]);
            }
            keys.push(row);
            i = i + 1;
        }
        let mut asc: Vec<bool> = Vec::new();
        asc.push(true);
        proof {
            assert(asc@ =~= seq![true]);
            assert forall|k: int| 0 <= k < keys@.len() implies row_wf(#[trigger] keys@[k]@) by {
                assert(keys@[k]@ =~= seq![self.view_seq()[k]]);
                assert(self.view_seq()[k].wf());
            }
            assert(forall|k: int| 0 <= k < keys@.len() ==> (#[trigger] keys@[k]@).len() == 1);
        }
        let r = stable_sort_indices(&keys, &asc);
        proof {
            assert forall|i: int, j: int| 0 <= i < j < r@.len() implies val_le(
                #[trigger] self.view_seq()[r@[i] as int],
                #[trigger] self.view_seq()[r@[j] as int],
            ) by {
                let a = key_of(keys@, r@[i] as int);
                let b = key_of(keys@, r@[j] as int);
                assert(row_le(a, b, asc@));
                assert(a =~= seq![self.view_seq()[r@[i] as int]]);
                assert(b =~= seq![self.view_seq()[r@[j] as int]]);
                assert(a[0] == self.view_seq()[r@[i] as int]);
                assert(b[0] == self.view_seq()[r@[j] as int]);
                if val_equiv(a[0], b[0]) {
                    lemma_equiv_le(a[0], b[0]);
                }
            }
            assert forall|i: int, j: int|
                0 <= i < j < r@.len() && val_equiv(
                    #[trigger] self.view_seq()[r@[i] as int],
                    #[trigger] self.view_seq()[r@[j] as int],
                ) implies r@[i] < r@[j] by {
                let a = key_of(keys@, r@[i] as int);
                let b = key_of(keys@, r@[j] as int);
                assert(a =~= seq![self.view_seq()[r@[i] as int]]);
                assert(b =~= seq![self.view_seq()[r@[j] as int]]);
                assert(val_equiv(a[0], b[0]));
                assert(asc@.skip(1).len() == 0);
                assert(row_equiv(a.skip(1), b.skip(1), asc@.skip(1)));
                assert(row_equiv(a, b, asc@));
            }
        }
        r
    }
}

} // verus!
