use dbml_draw::ir::{Column, Diagram, EndPoint, Position, RelationType, Relationship, Table, TableId};
use dbml_draw::layout::auto_layout::grid_layout;
use dbml_draw::layout::grid::{bfs_cross_layout, find_nearest_empty, first_free_cardinal, is_occupied};
use dbml_draw::layout::{apply_layout, layout_data_of, restore_positions, set_table_position, LayoutData, LayoutMeta, TableLayout};

fn column(name: &str, is_pk: bool, is_nullable: bool) -> Column {
    Column { name: name.to_string(), type_raw: "int".to_string(), is_pk, is_nullable }
}

fn table(name: &str, columns: Vec<Column>, position: Option<Position>) -> Table {
    Table { id: TableId::new("public", name), columns, position }
}

fn relation(kind: RelationType, from: &str, from_col: &str, to: &str, to_col: &str) -> Relationship {
    Relationship {
        relation_type: kind,
        from: EndPoint { table_id: TableId::new("public", from), column_names: vec![from_col.to_string()] },
        to: EndPoint { table_id: TableId::new("public", to), column_names: vec![to_col.to_string()] },
    }
}

fn positions(d: &Diagram) -> Vec<Option<Position>> {
    d.tables.iter().map(|t| t.position).collect()
}

#[test]
fn test_layout_roundtrip() {
    let mut diagram = Diagram {
        tables: vec![
            table("users", vec![column("id", true, false)], Some(Position { x: 100, y: 200 })),
            table("posts", vec![column("id", true, false)], Some(Position { x: 400, y: 200 })),
        ],
        relationships: vec![],
    };
    set_table_position(&mut diagram, "public.users", Position { x: 150, y: 250 });
    let layout_data = layout_data_of(&diagram, "test.dbml".to_string());
    assert_eq!(layout_data.meta.version, 1);
    assert_eq!(layout_data.meta.source, "test.dbml");
    let users = layout_data.tables.iter().find(|e| e.0 == "public.users").unwrap();
    assert_eq!(users.1, TableLayout { x: 150, y: 250 });
    let posts = layout_data.tables.iter().find(|e| e.0 == "public.posts").unwrap();
    assert_eq!(posts.1, TableLayout { x: 400, y: 200 });
}

#[test]
fn set_position_of_unknown_table_changes_nothing() {
    let mut diagram = Diagram {
        tables: vec![table("users", vec![], Some(Position { x: 1, y: 2 }))],
        relationships: vec![],
    };
    set_table_position(&mut diagram, "public.nobody", Position { x: 9, y: 9 });
    assert_eq!(positions(&diagram), vec![Some(Position { x: 1, y: 2 })]);
}

#[test]
fn nearest_empty_scans_rings_in_row_major_order() {
    assert_eq!(find_nearest_empty(0, 0, &vec![(0, 0)]), Some((-1, -1)));
    assert_eq!(find_nearest_empty(5, 7, &vec![]), Some((4, 6)));
    let mut ring1 = vec![(0, 0)];
    for dx in -1..=1 {
        for dy in -1..=1 {
            if dx != 0 || dy != 0 {
                ring1.push((dx, dy));
            }
        }
    }
    assert_eq!(find_nearest_empty(0, 0, &ring1), Some((-2, -2)));
    ring1.push((-2, -2));
    assert_eq!(find_nearest_empty(0, 0, &ring1), Some((-2, -1)));
}

#[test]
fn nearest_empty_gives_up_beyond_radius_nineteen() {
    let mut all = Vec::new();
    for dx in -19..=19 {
        for dy in -19..=19 {
            all.push((dx, dy));
        }
    }
    assert_eq!(find_nearest_empty(0, 0, &all), None);
    all.pop();
    assert_eq!(find_nearest_empty(0, 0, &all), Some((19, 19)));
}

#[test]
fn cardinal_cells_are_tried_east_south_west_north() {
    assert!(is_occupied(&vec![(3, 4)], 3, 4));
    assert!(!is_occupied(&vec![(3, 4)], 4, 3));
    assert_eq!(first_free_cardinal(0, 0, &vec![]), Some((1, 0)));
    assert_eq!(first_free_cardinal(0, 0, &vec![(1, 0)]), Some((0, 1)));
    assert_eq!(first_free_cardinal(0, 0, &vec![(1, 0), (0, 1)]), Some((-1, 0)));
    assert_eq!(first_free_cardinal(0, 0, &vec![(1, 0), (0, 1), (-1, 0)]), Some((0, -1)));
    assert_eq!(first_free_cardinal(0, 0, &vec![(1, 0), (0, 1), (-1, 0), (0, -1)]), None);
}

#[test]
fn bfs_places_star_around_root() {
    let adjacency = vec![vec![1, 2, 3, 4, 5], vec![0], vec![0], vec![0], vec![0], vec![0], vec![]];
    let grid = bfs_cross_layout(0, &adjacency);
    assert_eq!(
        grid,
        vec![
            Some((0, 0)),
            Some((1, 0)),
            Some((0, 1)),
            Some((-1, 0)),
            Some((0, -1)),
            Some((-1, -1)),
            Some((-1, 1)),
        ]
    );
}

#[test]
fn bfs_chain_goes_east() {
    let adjacency = vec![vec![1], vec![0, 2], vec![1]];
    let grid = bfs_cross_layout(1, &adjacency);
    assert_eq!(grid, vec![Some((1, 0)), Some((0, 0)), Some((0, 1))]);
}

#[test]
fn layout_of_two_related_tables() {
    let mut diagram = Diagram {
        tables: vec![
            table("users", vec![column("id", true, false)], None),
            table("posts", vec![column("id", true, false), column("user_id", false, false)], None),
        ],
        relationships: vec![relation(RelationType::ManyToOne, "posts", "user_id", "users", "id")],
    };
    grid_layout(&mut diagram);
    assert_eq!(
        positions(&diagram),
        vec![Some(Position { x: 50, y: 50 }), Some(Position { x: 410, y: 50 })]
    );
}

#[test]
fn layout_rows_are_as_tall_as_their_tallest_box() {
    // root 0 (two columns) with neighbours east (five columns) and south
    let mut diagram = Diagram {
        tables: vec![
            table("a", vec![column("c1", false, true), column("c2", false, true)], None),
            table("b", (0..5).map(|i| column(&format!("c{}", i), false, true)).collect(), None),
            table("c", vec![], None),
        ],
        relationships: vec![
            relation(RelationType::OneToMany, "a", "c1", "b", "c1"),
            relation(RelationType::OneToMany, "a", "c1", "c", "x"),
        ],
    };
    grid_layout(&mut diagram);
    // row 0 height = 36 + 5 * 28 = 176; row 1 starts at 50 + 176 + 80
    assert_eq!(
        positions(&diagram),
        vec![
            Some(Position { x: 50, y: 50 }),
            Some(Position { x: 410, y: 50 }),
            Some(Position { x: 50, y: 306 }),
        ]
    );
}

#[test]
fn layout_normalizes_negative_cells() {
    // root has five neighbours: west, north and a ring cell push cells negative
    let mut tables = vec![table("hub", vec![], None)];
    let mut relationships = Vec::new();
    for i in 0..5 {
        let name = format!("t{}", i);
        tables.push(table(&name, vec![], None));
        relationships.push(relation(RelationType::ManyToOne, &name, "x", "hub", "id"));
    }
    let mut diagram = Diagram { tables, relationships };
    grid_layout(&mut diagram);
    for t in &diagram.tables {
        let p = t.position.unwrap();
        assert!(p.x >= 50 && p.y >= 50);
    }
    // the hub sits at cell (1, 1) after shifting by (-1, -1)
    assert_eq!(diagram.tables[0].position, Some(Position { x: 410, y: 166 }));
}

#[test]
fn layout_keeps_existing_positions_and_is_idempotent() {
    let mut diagram = Diagram {
        tables: vec![
            table("users", vec![], Some(Position { x: 7, y: 8 })),
            table("posts", vec![], Some(Position { x: -3, y: 900 })),
        ],
        relationships: vec![relation(RelationType::ManyToOne, "posts", "x", "users", "id")],
    };
    let before = positions(&diagram);
    grid_layout(&mut diagram);
    assert_eq!(positions(&diagram), before);
    grid_layout(&mut diagram);
    assert_eq!(positions(&diagram), before);
}

#[test]
fn layout_only_places_unpositioned_tables() {
    let mut diagram = Diagram {
        tables: vec![
            table("fixed", vec![], Some(Position { x: 1000, y: 1000 })),
            table("free", vec![], None),
        ],
        relationships: vec![relation(RelationType::ManyToOne, "free", "x", "fixed", "id")],
    };
    grid_layout(&mut diagram);
    assert_eq!(
        positions(&diagram),
        vec![Some(Position { x: 1000, y: 1000 }), Some(Position { x: 50, y: 50 })]
    );
}

#[test]
fn layout_places_every_table_on_distinct_positions() {
    let mut tables = Vec::new();
    let mut relationships = Vec::new();
    for i in 0..60 {
        tables.push(table(&format!("t{}", i), vec![column("id", true, false)], None));
        if i > 0 {
            relationships.push(relation(RelationType::ManyToOne, &format!("t{}", i), "id", &format!("t{}", i / 3), "id"));
        }
    }
    // a few tables outside the graph
    for i in 0..4 {
        tables.push(table(&format!("lone{}", i), vec![], None));
    }
    let mut diagram = Diagram { tables, relationships };
    grid_layout(&mut diagram);
    let ps: Vec<Position> = diagram.tables.iter().map(|t| t.position.unwrap()).collect();
    for i in 0..ps.len() {
        assert!(ps[i].x >= 0 && ps[i].y >= 0);
        for j in 0..i {
            assert_ne!(ps[i], ps[j]);
        }
    }
}

#[test]
fn layout_runs_are_deterministic() {
    let build = || {
        let mut tables = Vec::new();
        let mut relationships = Vec::new();
        for i in 0..25 {
            tables.push(table(&format!("t{}", i), vec![column("id", true, false)], None));
            if i > 0 {
                relationships.push(relation(RelationType::OneToMany, &format!("t{}", (i * 7) % i), "id", &format!("t{}", i), "id"));
            }
        }
        Diagram { tables, relationships }
    };
    let mut first = build();
    let mut second = build();
    grid_layout(&mut first);
    grid_layout(&mut second);
    assert_eq!(positions(&first), positions(&second));
}

#[test]
fn saved_positions_are_restored_before_layout() {
    let mut diagram = Diagram {
        tables: vec![table("users", vec![], None), table("posts", vec![], None)],
        relationships: vec![],
    };
    let saved = LayoutData {
        meta: LayoutMeta { version: 1, source: "schema.dbml".to_string() },
        tables: vec![("public.posts".to_string(), TableLayout { x: 450, y: 200 })],
    };
    apply_layout(&mut diagram, Some(&saved));
    assert_eq!(
        positions(&diagram),
        vec![Some(Position { x: 50, y: 50 }), Some(Position { x: 450, y: 200 })]
    );
}

#[test]
fn restore_uses_first_entry_and_ignores_unknown_names() {
    let mut diagram = Diagram { tables: vec![table("users", vec![], None)], relationships: vec![] };
    let entries = vec![
        ("public.ghost".to_string(), TableLayout { x: 1, y: 1 }),
        ("public.users".to_string(), TableLayout { x: 2, y: 3 }),
        ("public.users".to_string(), TableLayout { x: 4, y: 5 }),
    ];
    restore_positions(&mut diagram, &entries);
    assert_eq!(positions(&diagram), vec![Some(Position { x: 2, y: 3 })]);
}

#[test]
fn layout_data_lists_positioned_tables_in_order() {
    let diagram = Diagram {
        tables: vec![
            table("a", vec![], Some(Position { x: 1, y: 2 })),
            table("b", vec![], None),
            table("c", vec![], Some(Position { x: 3, y: 4 })),
        ],
        relationships: vec![],
    };
    let data = layout_data_of(&diagram, String::new());
    let keys: Vec<&str> = data.tables.iter().map(|e| e.0.as_str()).collect();
    assert_eq!(keys, vec!["public.a", "public.c"]);
    assert_eq!(data.tables[1].1, TableLayout { x: 3, y: 4 });
}
