//! The fixed schema of a newly created table: three typed,
//! non-nullable columns with unique names.

use vstd::prelude::*;

verus! {

/// The primitive column types this workflow declares.
#[derive(Clone, Copy, Debug, PartialEq, Eq, Structural)]
pub enum PrimitiveType {
    Utf8,
    Timestamp,
}

impl PrimitiveType {
    /// The name of this primitive type in the storage backend's
    /// schema language.
    pub fn backend_name(&self) -> (r: &'static str)
        ensures
            *self is Utf8 ==> r@ == "string"@,
            *self is Timestamp ==> r@ == "timestamp"@,
    {
        match self {
            PrimitiveType::Utf8 => "string",
            PrimitiveType::Timestamp => "timestamp",
        }
    }
}

/// One typed column of a table schema.
#[derive(Debug)]
pub struct Column {
    pub name: String,
    pub data_type: PrimitiveType,
    pub nullable: bool,
}

/// The mathematical reading of a column.
pub struct ColumnModel {
    pub name: Seq<char>,
    pub data_type: PrimitiveType,
    pub nullable: bool,
}

impl View for Column {
    type V = ColumnModel;

    open spec fn view(&self) -> ColumnModel {
        ColumnModel { name: self.name@, data_type: self.data_type, nullable: self.nullable }
    }
}

impl Clone for Column {
    /// Cloning a column keeps its reading.
    fn clone(&self) -> (r: Column)
        ensures
            r@ == self@,
    {
        Column { name: self.name.clone(), data_type: self.data_type, nullable: self.nullable }
    }
}

/// The reading of a whole column list.
pub open spec fn column_views(columns: Seq<Column>) -> Seq<ColumnModel> {
    columns.map_values(|c: Column| c@)
}

/// Column names are unique within a schema.
pub open spec fn distinct_column_names(s: Seq<ColumnModel>) -> bool {
    forall|i: int, j: int| 0 <= i < j < s.len() ==> s[i].name != s[j].name
}

/// The three reserved columns every table of this workflow declares:
/// the merge key and the two bookkeeping timestamps, all non-nullable.
pub open spec fn reserved_schema() -> Seq<ColumnModel> {
    seq![
        ColumnModel { name: "__id"@, data_type: PrimitiveType::Utf8, nullable: false },
        ColumnModel { name: "__createdat"@, data_type: PrimitiveType::Timestamp, nullable: false },
        ColumnModel { name: "__updatedat"@, data_type: PrimitiveType::Timestamp, nullable: false },
    ]
}

/// Builds the reserved columns, exactly as `reserved_schema` reads.
pub fn reserved_columns() -> (r: Vec<Column>)
    ensures
        column_views(r@) == reserved_schema(),
{
    let mut r: Vec<Column> = Vec::new();
    r.push(Column { name: "__id".to_owned(), data_type: PrimitiveType::Utf8, nullable: false });
    r.push(
        Column {
            name: "__createdat".to_owned(),
            data_type: PrimitiveType::Timestamp,
            nullable: false,
        },
    );
    r.push(
        Column {
            name: "__updatedat".to_owned(),
            data_type: PrimitiveType::Timestamp,
            nullable: false,
        },
    );
    proof {
        assert(column_views(r@) =~= reserved_schema());
    }
    r
}

/// The reserved schema is well formed: exactly three columns, their
/// names unique, none of them nullable.
pub proof fn lemma_reserved_schema_wf()
    ensures
        reserved_schema().len() == 3,
        distinct_column_names(reserved_schema()),
        forall|i: int| 0 <= i < reserved_schema().len() ==> !reserved_schema()[i].nullable,
{
    reveal_strlit("__id");
    reveal_strlit("__createdat");
    reveal_strlit("__updatedat");
    assert("__createdat"@[2] == 'c');
    assert("__updatedat"@[2] == 'u');
}

} // verus!
