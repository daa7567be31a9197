use vstd::prelude::*;

use crate::record_batch::RecordBatch;
use crate::schema::Schema;

verus! {

/// An in-memory table: a schema with its materialised batches.
#[derive(Debug)]
pub struct MemDatasource {
    pub schema: Schema,
    pub data: Vec<RecordBatch>,
}

/// A table loaded from a delimited file, remembering where it came from.
#[derive(Debug)]
pub struct CSVDatasource {
    pub path: String,
    pub schema: Schema,
    pub data: Vec<RecordBatch>,
}

/// A table source: schema plus batches.
#[derive(Debug)]
pub enum Datasources {
    Mem(MemDatasource),
    Csv(CSVDatasource),
}

impl MemDatasource {
    pub fn new(schema: Schema, data: Vec<RecordBatch>) -> (r: MemDatasource)
        ensures
            r.schema == schema,
            r.data == data,
    {
        MemDatasource { schema, data }
    }
}

impl CSVDatasource {
    pub fn new(path: String, schema: Schema, data: Vec<RecordBatch>) -> (r: CSVDatasource)
        ensures
            r.path == path,
            r.schema == schema,
            r.data == data,
    {
        CSVDatasource { path, schema, data }
    }
}

impl Datasources {
    /// The source's schema fields.
    pub open spec fn schema_spec(self) -> Schema {
        match self {
            Datasources::Mem(m) => m.schema,
            Datasources::Csv(c) => c.schema,
        }
    }

    /// The source's batches.
    pub open spec fn data_spec(self) -> Seq<RecordBatch> {
        match self {
            Datasources::Mem(m) => m.data@,
            Datasources::Csv(c) => c.data@,
        }
    }

    /// Every batch is well formed and carries the source's schema.
    pub open spec fn wf(self) -> bool {
        forall|k: int|
            0 <= k < self.data_spec().len() ==> (#[trigger] self.data_spec()[k]).wf()
                && self.data_spec()[k].schema.fields@ == self.schema_spec().fields@
    }

    pub fn schema(&self) -> (r: &Schema)
        ensures
            *r == self.schema_spec(),
    {
        match self {
            Datasources::Mem(m) => &m.schema,
            Datasources::Csv(c) => &c.schema,
        }
    }

    pub fn get_data(&self) -> (r: &Vec<RecordBatch>)
        ensures
            r@ == self.data_spec(),
    {
        match self {
            Datasources::Mem(m) => &m.data,
            Datasources::Csv(c) => &c.data,
        }
    }

    /// Where the table came from; an in-memory table says so.
    pub fn path(&self) -> (r: String)
        ensures
            r@ == self.path_spec(),
    {
        match self {
            Datasources::Mem(_) => String::from_str("In memory"),
            Datasources::Csv(c) => c.path.clone(),
        }
    }

    /// The label `path` returns.
    pub open spec fn path_spec(self) -> Seq<char> {
        match self {
            Datasources::Mem(_) => "In memory"@,
            Datasources::Csv(c) => c.path@,
        }
    }

    /// Copies the source; schema and batch contents carry over.
    pub fn duplicate(&self) -> (r: Datasources)
        ensures
            r.schema_spec().fields@ == self.schema_spec().fields@,
            r.data_spec().len() == self.data_spec().len(),
            forall|k: int|
                0 <= k < self.data_spec().len() ==> (#[trigger] r.data_spec()[k]).schema.fields@
                    == self.data_spec()[k].schema.fields@ && r.data_spec()[k].columns@.len()
                    == self.data_spec()[k].columns@.len() && (forall|c: int|
                    0 <= c < self.data_spec()[k].columns@.len() ==> (
                    #[trigger] r.data_spec()[k].columns@[c]).view_seq()
                        == self.data_spec()[k].columns@[c].view_seq()
                        && r.data_spec()[k].columns@[c].dtype()
                        == self.data_spec()[k].columns@[c].dtype()),
            self.wf() ==> r.wf(),
            r.path_spec() == self.path_spec(),
            r is Mem == self is Mem,
    {
        let schema = self.schema().duplicate();
        let src = self.get_data();
        let mut data: Vec<RecordBatch> = Vec::new();
        let mut k: usize = 0;
        while k < src.len()
            invariant
                src@ == self.data_spec(),
                k <= src@.len(),
                data@.len() == k,
                forall|q: int|
                    0 <= q < k ==> (#[trigger] data@[q]).schema.fields@ == src@[q].schema.fields@
                        && data@[q].columns@.len() == src@[q].columns@.len() && (forall|c: int|
                        0 <= c < src@[q].columns@.len() ==> (
                        #[trigger] data@[q].columns@[c]).view_seq() == src@[q].columns@[c].view_seq()
                            && data@[q].columns@[c].dtype() == src@[q].columns@[c].dtype())
                        && (src@[q].wf() ==> data@[q].wf()),
            decreases src@.len() - k,
        {
            data.push(src[k].duplicate());
            k = k + 1;
        }
        match self {
            Datasources::Mem(_) => Datasources::Mem(MemDatasource { schema, data }),
            Datasources::Csv(c) => Datasources::Csv(
                CSVDatasource { path: c.path.clone(), schema, data },
            ),
        }
    }
}

} // verus!
