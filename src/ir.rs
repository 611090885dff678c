//! The diagram model: tables, their columns, relationships and positions.
use vstd::prelude::*;
use vstd::string::*;

verus! {

/// Identifies a table by schema and table name.
#[derive(Debug, Clone)]
pub struct TableId {
    pub schema: String,
    pub name: String,
}

impl View for TableId {
    type V = (Seq<char>, Seq<char>);

    open spec fn view(&self) -> (Seq<char>, Seq<char>) {
        (self.schema@, self.name@)
    }
}

/// The composite name `schema.name` of a table.
pub open spec fn full_name_of(id: (Seq<char>, Seq<char>)) -> Seq<char> {
    id.0 + seq!['.'] + id.1
}

impl TableId {
    pub fn new(schema: &str, name: &str) -> (r: TableId)
        ensures
            r.schema@ == schema@,
            r.name@ == name@,
    {
        TableId { schema: String::from_str(schema), name: String::from_str(name) }
    }

    pub fn full_name(&self) -> (r: String)
        ensures
            r@ == full_name_of(self@),
    {
        let mut r = self.schema.clone();
        r.append(".");
        r.append(self.name.as_str());
        proof {
            reveal_strlit(".");
        }
        r
    }

    /// Whether both identifiers name the same table.
    pub fn same_as(&self, other: &TableId) -> (r: bool)
        ensures
            r == (self@ == other@),
    {
        self.schema == other.schema && self.name == other.name
    }
}

impl PartialEq for TableId {
    fn eq(&self, other: &TableId) -> (r: bool) {
        self.schema == other.schema && self.name == other.name
    }
}

impl vstd::std_specs::cmp::PartialEqSpecImpl for TableId {
    open spec fn obeys_eq_spec() -> bool {
        true
    }

    open spec fn eq_spec(&self, other: &TableId) -> bool {
        self@ == other@
    }
}

/// A column of a table; `type_raw` is the type as written in the schema.
#[derive(Debug, Clone)]
pub struct Column {
    pub name: String,
    pub type_raw: String,
    pub is_pk: bool,
    pub is_nullable: bool,
}

/// Top-left corner of a table box, in whole pixels.
#[derive(Debug, Clone, Copy, PartialEq, Eq, Structural)]
pub struct Position {
    pub x: i64,
    pub y: i64,
}

/// A table with its columns in display order and, once known, its position.
#[derive(Debug, Clone)]
pub struct Table {
    pub id: TableId,
    pub columns: Vec<Column>,
    pub position: Option<Position>,
}

#[derive(Debug, Clone, Copy, PartialEq, Eq, Structural)]
pub enum RelationType {
    OneToOne,
    OneToMany,
    ManyToOne,
    ManyToMany,
}

/// One side of a relationship: a table and its participating columns.
#[derive(Debug, Clone)]
pub struct EndPoint {
    pub table_id: TableId,
    pub column_names: Vec<String>,
}

#[derive(Debug, Clone)]
pub struct Relationship {
    pub relation_type: RelationType,
    pub from: EndPoint,
    pub to: EndPoint,
}

/// Tables and relationships; a relationship may name a table that is absent.
#[derive(Debug, Clone)]
pub struct Diagram {
    pub tables: Vec<Table>,
    pub relationships: Vec<Relationship>,
}

/// `i` is the first table of `tables` whose identifier is `id`.
pub open spec fn is_first_table(tables: Seq<Table>, id: (Seq<char>, Seq<char>), i: int) -> bool {
    &&& 0 <= i < tables.len()
    &&& tables[i].id@ == id
    &&& forall|j: int| 0 <= j < i ==> tables[j].id@ != id
}

/// No table of `tables` has the identifier `id`.
pub open spec fn no_table(tables: Seq<Table>, id: (Seq<char>, Seq<char>)) -> bool {
    forall|j: int| 0 <= j < tables.len() ==> tables[j].id@ != id
}

/// The index of the first table with identifier `id`, if any.
pub fn find_table(tables: &Vec<Table>, id: &TableId) -> (r: Option<usize>)
    ensures
        match r {
            Some(i) => is_first_table(tables@, id@, i as int),
            None => no_table(tables@, id@),
        },
{
    let mut i: usize = 0;
    while i < tables.len()
        invariant
            i <= tables.len(),
            forall|j: int| 0 <= j < i ==> tables@[j].id@ != id@,
        decreases tables.len() - i,
    {
        if tables[i].id.same_as(id) {
            return Some(i);
        }
        i = i + 1;
    }
    None
}

/// The first table named by `id`, or -1.
pub open spec fn table_index(tables: Seq<Table>, id: (Seq<char>, Seq<char>)) -> int {
    if exists|i: int| is_first_table(tables, id, i) {
        choose|i: int| is_first_table(tables, id, i)
    } else {
        -1
    }
}

/// `find_table`'s answer is `table_index`.
pub proof fn lemma_table_index(tables: Seq<Table>, id: (Seq<char>, Seq<char>), r: Option<usize>)
    requires
        match r {
            Some(i) => is_first_table(tables, id, i as int),
            None => no_table(tables, id),
        },
    ensures
        table_index(tables, id) == match r {
            Some(i) => i as int,
            None => -1,
        },
{
    if let Some(i) = r {
        let c = choose|c: int| is_first_table(tables, id, c);
        assert(c == i as int) by {
            if c < i {
                assert(tables[c].id@ == id);
            } else if c > i {
                assert(tables[i as int].id@ == id);
            }
        }
    }
}

} // verus!
