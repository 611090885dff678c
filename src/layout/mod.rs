//! Positions for the tables of a diagram: saved ones, edited ones and
//! automatic ones.
use vstd::prelude::*;

use crate::ir::{full_name_of, Diagram, Position, Table};
use crate::layout::auto_layout::{auto_laid_out, grid_layout, layout_fits};

pub mod auto_layout;
pub mod grid;

verus! {

/// Where a saved layout came from.
#[derive(Debug)]
pub struct LayoutMeta {
    pub version: u32,
    pub source: String,
}

/// A saved table position, in whole pixels.
#[derive(Debug, Clone, Copy, PartialEq, Eq, Structural)]
pub struct TableLayout {
    pub x: i64,
    pub y: i64,
}

/// A saved layout: table positions keyed by the tables' full names.
#[derive(Debug)]
pub struct LayoutData {
    pub meta: LayoutMeta,
    pub tables: Vec<(String, TableLayout)>,
}

/// The version written into new layouts.
pub const LAYOUT_VERSION: u32 = 1;

/// `k` is the first entry of `entries` under `key`.
pub open spec fn is_first_entry(entries: Seq<(String, TableLayout)>, key: Seq<char>, k: int) -> bool {
    &&& 0 <= k < entries.len()
    &&& entries[k].0@ == key
    &&& forall|j: int| 0 <= j < k ==> entries[j].0@ != key
}

/// The position that `entries` gives the table named `key`, if any.
pub open spec fn saved_position(entries: Seq<(String, TableLayout)>, key: Seq<char>) -> Option<Position> {
    if exists|k: int| is_first_entry(entries, key, k) {
        let k = choose|k: int| is_first_entry(entries, key, k);
        Some(Position { x: entries[k].1.x, y: entries[k].1.y })
    } else {
        None
    }
}

/// `after` is `before` with every table that `entries` names moved to its
/// saved position.
pub open spec fn restored_from(before: Seq<Table>, after: Seq<Table>, entries: Seq<(String, TableLayout)>) -> bool {
    &&& after.len() == before.len()
    &&& forall|i: int|
        0 <= i < after.len() ==> (#[trigger] after[i]).id == before[i].id && after[i].columns
            == before[i].columns && after[i].position == match saved_position(
            entries,
            full_name_of(before[i].id@),
        ) {
            Some(p) => Some(p),
            None => before[i].position,
        }
}

/// The first entry of `entries` under `key`.
fn find_entry(entries: &Vec<(String, TableLayout)>, key: &String) -> (r: Option<usize>)
    ensures
        match r {
            Some(k) => is_first_entry(entries@, key@, k as int),
            None => forall|j: int| 0 <= j < entries.len() ==> entries@[j].0@ != key@,
        },
{
    let mut k: usize = 0;
    while k < entries.len()
        invariant
            k <= entries.len(),
            forall|j: int| 0 <= j < k ==> entries@[j].0@ != key@,
        decreases entries.len() - k,
    {
        if entries[k].0 == *key {
            return Some(k);
        }
        k = k + 1;
    }
    None
}

/// Moves every table that `entries` names to its saved position; the
/// others keep theirs.
pub fn restore_positions(diagram: &mut Diagram, entries: &Vec<(String, TableLayout)>)
    ensures
        final(diagram).relationships == old(diagram).relationships,
        restored_from(old(diagram).tables@, final(diagram).tables@, entries@),
{
    let ghost before = diagram.tables@;
    let mut i: usize = 0;
    while i < diagram.tables.len()
        invariant
            i <= diagram.tables.len(),
            diagram.tables.len() == before.len(),
            diagram.relationships == old(diagram).relationships,
            before == old(diagram).tables@,
            forall|t: int|
                0 <= t < before.len() ==> (#[trigger] diagram.tables@[t]).id == before[t].id
                    && diagram.tables@[t].columns == before[t].columns && diagram.tables@[t].position
                    == if t < i {
                    match saved_position(entries@, full_name_of(before[t].id@)) {
                        Some(p) => Some(p),
                        None => before[t].position,
                    }
                } else {
                    before[t].position
                },
        decreases before.len() - i,
    {
        let key = diagram.tables[i].id.full_name();
        match find_entry(entries, &key) {
            Some(k) => {
                let saved = entries[k].1;
                diagram.tables[i].position = Some(Position { x: saved.x, y: saved.y });
                proof {
                    assert(is_first_entry(entries@, key@, k as int));
                    let c = choose|c: int| is_first_entry(entries@, key@, c);
                    assert(c == k as int) by {
                        if c < k {
                            assert(entries@[c].0@ != key@);
                        } else if c > k {
                            assert(entries@[k as int].0@ != key@);
                        }
                    }
                }
            },
            None => {},
        }
        i = i + 1;
    }
}

/// Restores the saved positions, if any, then lays out the tables that
/// still have none.
pub fn apply_layout(diagram: &mut Diagram, saved: Option<&LayoutData>)
    requires
        layout_fits(old(diagram).tables@),
    ensures
        match saved {
            Some(data) => exists|mid: Diagram|
                mid.relationships == old(diagram).relationships && restored_from(
                    old(diagram).tables@,
                    mid.tables@,
                    data.tables@,
                ) && auto_laid_out(mid, *final(diagram)),
            None => auto_laid_out(*old(diagram), *final(diagram)),
        },
{
    if let Some(data) = saved {
        restore_positions(diagram, &data.tables);
        let ghost mid = *diagram;
        proof {
            assert forall|i: int| 0 <= i < diagram.tables.len() implies (#[trigger] diagram.tables@[i]).columns@.len()
                <= crate::style::MAX_COLUMNS by {
                assert(diagram.tables@[i].columns == old(diagram).tables@[i].columns);
                assert(old(diagram).tables@[i].columns@.len() <= crate::style::MAX_COLUMNS);
            }
        }
        grid_layout(diagram);
        assert(auto_laid_out(mid, *diagram));
    } else {
        grid_layout(diagram);
    }
}

/// Moves the first table whose full name is `table_id` to `pos`; a name
/// that no table has changes nothing.
pub fn set_table_position(diagram: &mut Diagram, table_id: &str, pos: Position)
    ensures
        final(diagram).relationships == old(diagram).relationships,
        final(diagram).tables.len() == old(diagram).tables.len(),
        forall|i: int|
            0 <= i < old(diagram).tables.len() ==> (#[trigger] final(diagram).tables@[i]).id
                == old(diagram).tables@[i].id && final(diagram).tables@[i].columns == old(
                diagram,
            ).tables@[i].columns,
        forall|i: int|
            0 <= i < old(diagram).tables.len() ==> (#[trigger] final(diagram).tables@[i]).position
                == if full_name_of(old(diagram).tables@[i].id@) == table_id@ && forall|j: int|
                0 <= j < i ==> full_name_of(old(diagram).tables@[j].id@) != table_id@ {
                Some(pos)
            } else {
                old(diagram).tables@[i].position
            },
{
    let wanted = String::from_str(table_id);
    let mut i: usize = 0;
    while i < diagram.tables.len()
        invariant
            i <= diagram.tables.len(),
            wanted@ == table_id@,
            diagram == old(diagram),
            forall|j: int| 0 <= j < i ==> full_name_of(diagram.tables@[j].id@) != table_id@,
        decreases diagram.tables.len() - i,
    {
        let name = diagram.tables[i].id.full_name();
        if name == wanted {
            diagram.tables[i].position = Some(pos);
            return;
        }
        i = i + 1;
    }
}

/// Full name and position of each table that has a position, in table order.
pub open spec fn saved_entries(tables: Seq<Table>) -> Seq<(Seq<char>, i64, i64)>
    decreases tables.len(),
{
    if tables.len() == 0 {
        seq![]
    } else {
        let rest = saved_entries(tables.drop_last());
        let t = tables.last();
        match t.position {
            Some(p) => rest.push((full_name_of(t.id@), p.x, p.y)),
            None => rest,
        }
    }
}

/// The layout to save for `diagram`: the position of every table that has
/// one, keyed by its full name, in table order.
pub fn layout_data_of(diagram: &Diagram, source: String) -> (r: LayoutData)
    ensures
        r.meta.version == LAYOUT_VERSION,
        r.meta.source@ == source@,
        r.tables.len() == saved_entries(diagram.tables@).len(),
        forall|j: int|
            0 <= j < r.tables.len() ==> (#[trigger] r.tables@[j]).0@ == saved_entries(diagram.tables@)[j].0
                && r.tables@[j].1.x == saved_entries(diagram.tables@)[j].1 && r.tables@[j].1.y
                == saved_entries(diagram.tables@)[j].2,
{
    let mut tables: Vec<(String, TableLayout)> = Vec::new();
    let mut i: usize = 0;
    while i < diagram.tables.len()
        invariant
            i <= diagram.tables.len(),
            tables.len() == saved_entries(diagram.tables@.take(i as int)).len(),
            forall|j: int|
                0 <= j < tables.len() ==> (#[trigger] tables@[j]).0@ == saved_entries(
                    diagram.tables@.take(i as int),
                )[j].0 && tables@[j].1.x == saved_entries(diagram.tables@.take(i as int))[j].1
                    && tables@[j].1.y == saved_entries(diagram.tables@.take(i as int))[j].2,
        decreases diagram.tables.len() - i,
    {
        let table = &diagram.tables[i];
        assert(diagram.tables@.take(i + 1).drop_last() =~= diagram.tables@.take(i as int));
        if let Some(p) = table.position {
            tables.push((table.id.full_name(), TableLayout { x: p.x, y: p.y }));
        }
        i = i + 1;
    }
    assert(diagram.tables@.take(i as int) =~= diagram.tables@);
    LayoutData { meta: LayoutMeta { version: LAYOUT_VERSION, source }, tables }
}

} // verus!
