use dbml_draw::error::AppError;
use dbml_draw::export::png_bytes_of;
use dbml_draw::ir::{Column, Diagram, EndPoint, Position, RelationType, Relationship, Table, TableId};
use dbml_draw::layout::auto_layout::grid_layout;
use dbml_draw::render::corridor::distribute_corridors;
use dbml_draw::render::marker::{crow_foot_data, determine_ie_markers, fk_is_nullable, marker_id, IeMarker};
use dbml_draw::render::path::{build_path, route_points, Point};
use dbml_draw::render::relationship::relationship_lines;
use dbml_draw::render::route::{column_row_y, compute_routes, connection_point, determine_sides, table_height, RouteInfo, Side};
use dbml_draw::render::table::{column_label, translate_attr};
use dbml_draw::render::text::int_string;
use dbml_draw::render::{compute_canvas_size, render_svg};

fn column(name: &str, is_pk: bool, is_nullable: bool) -> Column {
    Column { name: name.to_string(), type_raw: "int".to_string(), is_pk, is_nullable }
}

fn table(name: &str, columns: Vec<Column>, position: Option<Position>) -> Table {
    Table { id: TableId::new("public", name), columns, position }
}

fn relation(kind: RelationType, from: &str, from_col: &str, to: &str, to_col: &str) -> Relationship {
    Relationship {
        relation_type: kind,
        from: EndPoint { table_id: TableId::new("public", from), column_names: vec![from_col.to_string()] },
        to: EndPoint { table_id: TableId::new("public", to), column_names: vec![to_col.to_string()] },
    }
}

fn users_and_posts() -> Diagram {
    Diagram {
        tables: vec![
            table("users", vec![column("id", true, false)], None),
            table("posts", vec![column("id", true, false), column("user_id", false, false)], None),
        ],
        relationships: vec![relation(RelationType::ManyToOne, "posts", "user_id", "users", "id")],
    }
}

fn route(from_side: Side, to_side: Side, from: (i128, i128), to: (i128, i128)) -> Option<RouteInfo> {
    Some(RouteInfo {
        from_idx: 0,
        to_idx: 0,
        from_side,
        to_side,
        from_x: from.0,
        from_y: from.1,
        to_x: to.0,
        to_y: to.1,
    })
}

#[test]
fn end_to_end_users_and_posts() {
    let mut diagram = users_and_posts();
    grid_layout(&mut diagram);
    let users = diagram.tables[0].position.unwrap();
    let posts = diagram.tables[1].position.unwrap();
    assert!(users.x >= 0 && users.y >= 0 && posts.x >= 0 && posts.y >= 0);
    assert_ne!(users, posts);

    let svg = render_svg(&diagram);
    assert_eq!(svg.matches("transform=\"translate(").count(), 2);
    assert_eq!(svg.matches("marker-start=").count(), 1);
    assert!(svg.contains("d=\"M 410 128 L 360 128 L 360 100 L 310 100\""));
    assert!(svg.contains("marker-start=\"url(#many-mandatory-start)\""));
    assert!(svg.contains("marker-end=\"url(#one-mandatory-end)\""));
    assert!(svg.contains("width=\"800\""));
    assert!(svg.contains("height=\"600\""));
    assert!(svg.contains("viewBox=\"0 0 800 600\""));
    assert!(svg.contains("id=\"many-optional-end\""));
}

#[test]
fn dangling_relationship_is_left_out() {
    let mut diagram = users_and_posts();
    diagram.relationships.push(relation(RelationType::OneToMany, "users", "id", "missing", "user_id"));
    grid_layout(&mut diagram);
    let lines = relationship_lines(&diagram);
    assert_eq!(lines.len(), 2);
    assert!(lines[0].is_some());
    assert!(lines[1].is_none());
    let svg = render_svg(&diagram);
    assert_eq!(svg.matches("marker-start=").count(), 1);
    assert_eq!(svg.matches("transform=\"translate(").count(), 2);
}

#[test]
fn routes_resolve_sides_and_points() {
    let mut diagram = users_and_posts();
    grid_layout(&mut diagram);
    let routes = compute_routes(&diagram);
    let r = routes[0].unwrap();
    assert_eq!((r.from_idx, r.to_idx), (1, 0));
    assert_eq!((r.from_side, r.to_side), (Side::Left, Side::Right));
    assert_eq!((r.from_x, r.from_y, r.to_x, r.to_y), (410, 128, 310, 100));
}

#[test]
fn sides_follow_horizontal_overlap() {
    let a = Position { x: 0, y: 0 };
    let below = Position { x: 100, y: 300 };
    assert_eq!(determine_sides(a, 64, below, 64), (Side::Bottom, Side::Top));
    assert_eq!(determine_sides(below, 64, a, 64), (Side::Top, Side::Bottom));
    let right = Position { x: 260, y: 0 };
    assert_eq!(determine_sides(a, 64, right, 64), (Side::Right, Side::Left));
    assert_eq!(determine_sides(right, 64, a, 64), (Side::Left, Side::Right));
    // equal vertical centres: the `from` box is not above, so it joins at its top
    assert_eq!(determine_sides(a, 64, Position { x: 10, y: 0 }, 64), (Side::Top, Side::Bottom));
}

#[test]
fn connection_points_on_each_side() {
    let t = table("t", vec![column("a", false, true), column("b", false, true)], None);
    let p = Position { x: 100, y: 200 };
    let b = vec!["b".to_string()];
    assert_eq!(table_height(&t), 92);
    assert_eq!(column_row_y(&t, &b), 78);
    assert_eq!(column_row_y(&t, &vec!["zzz".to_string()]), 50);
    assert_eq!(column_row_y(&t, &vec![]), 50);
    assert_eq!(connection_point(p, &t, Side::Left, &b), (100, 278));
    assert_eq!(connection_point(p, &t, Side::Right, &b), (360, 278));
    assert_eq!(connection_point(p, &t, Side::Top, &b), (230, 200));
    assert_eq!(connection_point(p, &t, Side::Bottom, &b), (230, 292));
}

#[test]
fn corridor_members_are_spread_twenty_pixels_apart() {
    let routes = vec![
        route(Side::Right, Side::Left, (0, 0), (100, 0)),
        route(Side::Right, Side::Left, (0, 50), (100, 50)),
        route(Side::Bottom, Side::Top, (0, 0), (100, 100)),
        route(Side::Right, Side::Top, (0, 0), (100, 100)),
        None,
    ];
    let mids = distribute_corridors(&routes);
    // half pixels: the two first routes share bucket 5 around 100 (50 px)
    assert_eq!(mids[0], 80);
    assert_eq!(mids[1], 120);
    assert_eq!(mids[0] + mids[1], 2 * 100);
    // a vertical route is alone in its corridor and keeps its midpoint
    assert_eq!(mids[2], 100);
    // mixed and missing routes have no corridor
    assert_eq!(mids[3], 0);
    assert_eq!(mids[4], 0);
    assert_eq!(mids.len(), 5);
}

#[test]
fn corridor_of_three_is_symmetric() {
    let routes = vec![
        route(Side::Right, Side::Left, (0, 0), (100, 0)),
        route(Side::Right, Side::Left, (0, 50), (100, 50)),
        route(Side::Left, Side::Right, (104, 90), (0, 90)),
    ];
    let mids = distribute_corridors(&routes);
    assert_eq!(mids, vec![60, 100, 140]);
}

#[test]
fn corridor_buckets_round_half_away_from_zero() {
    // midpoints 4.5 px and 5 px: buckets 0 and 1
    let apart = vec![
        route(Side::Right, Side::Left, (0, 0), (9, 0)),
        route(Side::Right, Side::Left, (0, 0), (10, 0)),
    ];
    assert_eq!(distribute_corridors(&apart), vec![9, 10]);
    // midpoints -5 px and -4.5 px: buckets -1 and 0
    let negative = vec![
        route(Side::Right, Side::Left, (0, 0), (-10, 0)),
        route(Side::Right, Side::Left, (0, 0), (-9, 0)),
    ];
    assert_eq!(distribute_corridors(&negative), vec![-10, -9]);
}

#[test]
fn path_ends_at_the_connection_points() {
    let h = route(Side::Right, Side::Left, (310, 100), (410, 128)).unwrap();
    let pts = route_points(&h, 720);
    assert_eq!(pts.first(), Some(&Point { x: 620, y: 200 }));
    assert_eq!(pts.last(), Some(&Point { x: 820, y: 256 }));
    assert_eq!(build_path(&h, 720), "M 310 100 L 360 100 L 360 128 L 410 128");
    assert_eq!(build_path(&h, 721), "M 310 100 L 360.5 100 L 360.5 128 L 410 128");

    let v = route(Side::Bottom, Side::Top, (130, 92), (130, 300)).unwrap();
    assert_eq!(build_path(&v, 392), "M 130 92 L 130 196 L 130 196 L 130 300");

    let mixed = route(Side::Right, Side::Top, (0, 10), (50, 80)).unwrap();
    assert_eq!(route_points(&mixed, 0).len(), 3);
    assert_eq!(build_path(&mixed, 0), "M 0 10 L 50 10 L 50 80");

    let negative = route(Side::Right, Side::Left, (-3, -1), (0, 0)).unwrap();
    assert_eq!(build_path(&negative, -3), "M -3 -1 L -1.5 -1 L -1.5 0 L 0 0");
}

#[test]
fn many_to_one_markers_follow_nullability() {
    let rel = relation(RelationType::ManyToOne, "posts", "user_id", "users", "id");
    let users = table("users", vec![column("id", true, false)], None);
    let strict = table("posts", vec![column("id", true, false), column("user_id", false, false)], None);
    let loose = table("posts", vec![column("id", true, false), column("user_id", false, true)], None);
    assert_eq!(determine_ie_markers(&rel, &strict, &users), (IeMarker::ManyMandatory, IeMarker::OneMandatory));
    assert_eq!(determine_ie_markers(&rel, &loose, &users), (IeMarker::ManyOptional, IeMarker::OneOptional));
}

#[test]
fn markers_for_other_relation_types() {
    let a = table("a", vec![column("id", true, false)], None);
    let b = table("b", vec![column("a_id", false, false)], None);
    let one_to_many = relation(RelationType::OneToMany, "a", "id", "b", "a_id");
    assert_eq!(determine_ie_markers(&one_to_many, &a, &b), (IeMarker::OneMandatory, IeMarker::ManyMandatory));
    let one_to_one = relation(RelationType::OneToOne, "b", "a_id", "a", "id");
    assert_eq!(determine_ie_markers(&one_to_one, &b, &a), (IeMarker::OneMandatory, IeMarker::OneMandatory));
    let many_to_many = relation(RelationType::ManyToMany, "a", "id", "b", "a_id");
    assert_eq!(determine_ie_markers(&many_to_many, &a, &b), (IeMarker::ManyOptional, IeMarker::ManyOptional));
    // a column the table lacks counts as nullable
    let unknown = relation(RelationType::ManyToOne, "b", "nope", "a", "id");
    assert_eq!(determine_ie_markers(&unknown, &b, &a), (IeMarker::ManyOptional, IeMarker::OneOptional));
    assert!(fk_is_nullable(&vec![], &b));
    assert!(!fk_is_nullable(&vec!["a_id".to_string(), "x".to_string()], &b));
}

#[test]
fn marker_ids_follow_the_naming_convention() {
    assert_eq!(marker_id(IeMarker::OneMandatory, "start"), "one-mandatory-start");
    assert_eq!(marker_id(IeMarker::OneOptional, "end"), "one-optional-end");
    assert_eq!(marker_id(IeMarker::ManyMandatory, "end"), "many-mandatory-end");
    assert_eq!(marker_id(IeMarker::ManyOptional, "start"), "many-optional-start");
}

#[test]
fn glyph_and_label_text() {
    assert_eq!(crow_foot_data(16, 6), "M 16 12 L 6 3 M 16 12 L 6 21");
    assert_eq!(translate_attr(Position { x: 50, y: -7 }), "translate(50, -7)");
    assert_eq!(column_label(&column("id", true, false)), "\u{1f511} id");
    assert_eq!(column_label(&column("name", false, true)), "name");
    assert_eq!(int_string(0), "0");
    assert_eq!(int_string(-120), "-120");
    assert_eq!(int_string(9876543210), "9876543210");
}

#[test]
fn canvas_grows_with_the_tables() {
    let empty = Diagram { tables: vec![], relationships: vec![] };
    assert_eq!(compute_canvas_size(&empty), (800, 600));
    let far = Diagram {
        tables: vec![
            table("a", vec![column("x", false, true), column("y", false, true)], Some(Position { x: 1000, y: 700 })),
            table("b", vec![], None),
        ],
        relationships: vec![],
    };
    assert_eq!(compute_canvas_size(&far), (1310, 842));
}

#[test]
fn table_boxes_are_drawn_in_order() {
    let diagram = Diagram {
        tables: vec![
            table("first", vec![column("id", true, false)], Some(Position { x: 0, y: 0 })),
            table("second", vec![], Some(Position { x: 400, y: 0 })),
        ],
        relationships: vec![],
    };
    let svg = render_svg(&diagram);
    let a = svg.find("first").unwrap();
    let b = svg.find("second").unwrap();
    assert!(a < b);
    assert!(svg.contains("\u{1f511} id"));
    assert!(svg.contains("text-anchor=\"end\""));
}

#[test]
fn png_data_urls_are_decoded() {
    assert_eq!(png_bytes_of("data:image/png;base64,aGk="), Some(vec![104u8, 105u8]));
    assert_eq!(png_bytes_of("data:image/png;base64,iVBOR"), None);
    assert_eq!(png_bytes_of("data:image/jpeg;base64,aGk="), None);
    assert_eq!(png_bytes_of("data:"), None);
}

#[test]
fn error_messages_name_their_kind() {
    assert_eq!(AppError::ParseError("bad".to_string()).message(), "Failed to parse DBML: bad");
    assert_eq!(AppError::Io("gone".to_string()).message(), "IO error: gone");
    assert_eq!(AppError::LayoutError("x".to_string()).message(), "Layout file error: x");
}

#[test]
fn table_ids_name_schema_and_table() {
    let id = TableId::new("public", "users");
    assert_eq!(id.full_name(), "public.users");
    assert!(id.same_as(&TableId::new("public", "users")));
    assert!(!id.same_as(&TableId::new("other", "users")));
}

#[test]
fn table_ids_compare_by_schema_and_name() {
    assert!(TableId::new("public", "users") == TableId::new("public", "users"));
    assert!(TableId::new("public", "users") != TableId::new("public", "posts"));
    assert!(TableId::new("a", "users") != TableId::new("b", "users"));
}

#[test]
fn empty_diagram_renders_minimum_canvas() {
    let mut diagram = Diagram { tables: vec![], relationships: vec![] };
    grid_layout(&mut diagram);
    let svg = render_svg(&diagram);
    assert!(svg.starts_with("<svg"));
    assert!(svg.contains("width=\"800\""));
    assert!(svg.contains("height=\"600\""));
    assert_eq!(svg.matches("<marker").count(), 8);
    assert_eq!(svg.matches("marker-start=").count(), 0);
}

#[test]
fn empty_column_list_is_not_a_column_name() {
    // a column literally named "" must not decide for an endpoint without columns
    let unnamed = table("t", vec![column("id", true, false), column("", false, false)], None);
    assert!(fk_is_nullable(&vec![], &unnamed));
    assert_eq!(column_row_y(&unnamed, &vec![]), 50);
    assert_eq!(column_row_y(&unnamed, &vec!["".to_string()]), 78);
    let rel = Relationship {
        relation_type: RelationType::ManyToOne,
        from: EndPoint { table_id: TableId::new("public", "t"), column_names: vec![] },
        to: EndPoint { table_id: TableId::new("public", "t"), column_names: vec![] },
    };
    assert_eq!(determine_ie_markers(&rel, &unnamed, &unnamed), (IeMarker::ManyOptional, IeMarker::OneOptional));
    let one_to_one = Relationship { relation_type: RelationType::OneToOne, ..rel };
    assert_eq!(determine_ie_markers(&one_to_one, &unnamed, &unnamed), (IeMarker::OneOptional, IeMarker::OneOptional));
}

#[test]
fn every_table_is_drawn_next_to_a_dangling_line() {
    let mut with_dangling = users_and_posts();
    with_dangling.relationships.insert(0, relation(RelationType::OneToMany, "missing", "id", "users", "id"));
    let mut plain = users_and_posts();
    grid_layout(&mut with_dangling);
    grid_layout(&mut plain);
    assert_eq!(render_svg(&with_dangling), render_svg(&plain));
    let svg = render_svg(&plain);
    assert!(svg.contains(">users</text>"));
    assert!(svg.contains(">posts</text>"));
}

#[test]
fn renders_of_one_diagram_are_equal() {
    let mut diagram = users_and_posts();
    grid_layout(&mut diagram);
    assert_eq!(render_svg(&diagram), render_svg(&diagram));
}
