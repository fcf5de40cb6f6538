use canvas_table::canvas::{generate_canvas, generate_canvas_seeded, normalize_heading, Canvas, CanvasNode};
use canvas_table::ids::{generate_id, hex16};
use canvas_table::json::to_json;
use canvas_table::parse::parse_canvas_counts;
use canvas_table::paths::{find_markdown_files, is_markdown_path, make_relative_path, str_lt};

fn strings(items: &[&str]) -> Vec<String> {
    items.iter().map(|s| s.to_string()).collect()
}

#[test]
fn grid_of_two_documents_and_two_labels() {
    let files = strings(&["a.md", "b.md"]);
    let labels = strings(&["Model", "Data"]);
    let canvas = generate_canvas_seeded(&files, &labels, 400, 420, 20, 20, None, 7);
    assert_eq!(canvas.nodes.len(), 4);
    assert_eq!(canvas.edges.len(), 0);

    // (a.md, Model)
    assert_eq!(canvas.nodes[0].file, "a.md");
    assert_eq!(canvas.nodes[0].subpath.as_deref(), Some("#Model"));
    assert_eq!((canvas.nodes[0].x, canvas.nodes[0].y), (0, 0));
    assert_eq!((canvas.nodes[0].width, canvas.nodes[0].height), (400, 420));
    // (a.md, Data)
    assert_eq!(canvas.nodes[1].file, "a.md");
    assert_eq!(canvas.nodes[1].subpath.as_deref(), Some("#Data"));
    assert_eq!((canvas.nodes[1].x, canvas.nodes[1].y), (420, 0));
    // (b.md, Model)
    assert_eq!(canvas.nodes[2].file, "b.md");
    assert_eq!(canvas.nodes[2].subpath.as_deref(), Some("#Model"));
    assert_eq!((canvas.nodes[2].x, canvas.nodes[2].y), (0, 440));
    // (b.md, Data)
    assert_eq!(canvas.nodes[3].file, "b.md");
    assert_eq!(canvas.nodes[3].subpath.as_deref(), Some("#Data"));
    assert_eq!((canvas.nodes[3].x, canvas.nodes[3].y), (420, 440));

    for node in &canvas.nodes {
        assert_eq!(node.node_type, "file");
    }
}

#[test]
fn node_count_is_rows_times_columns() {
    let files = strings(&["a.md", "b.md", "c.md"]);
    let labels = strings(&["One", "Two"]);
    let canvas = generate_canvas(&files, &labels, 400, 420, 20, 20, None);
    assert_eq!(canvas.nodes.len(), 6);
}

#[test]
fn zero_documents_give_empty_valid_document() {
    let files: Vec<String> = Vec::new();
    let labels = strings(&["A", "B", "C"]);
    let canvas = generate_canvas(&files, &labels, 400, 420, 20, 20, None);
    assert_eq!(canvas.nodes.len(), 0);
    assert_eq!(canvas.edges.len(), 0);
    let text = to_json(&canvas);
    let value: serde_json::Value = serde_json::from_str(&text).expect("output must parse");
    assert_eq!(value["nodes"].as_array().unwrap().len(), 0);
    assert_eq!(value["edges"].as_array().unwrap().len(), 0);
}

#[test]
fn identifiers_are_pairwise_distinct() {
    let files = strings(&["a.md", "b.md", "c.md"]);
    let labels = strings(&["One", "Two", "Three"]);
    let canvas = generate_canvas(&files, &labels, 400, 420, 20, 20, None);
    for i in 0..canvas.nodes.len() {
        for j in 0..canvas.nodes.len() {
            if i != j {
                assert_ne!(canvas.nodes[i].id, canvas.nodes[j].id);
            }
        }
    }
}

#[test]
fn identifiers_are_sixteen_lowercase_hex_digits() {
    let files = strings(&["a.md"]);
    let labels = strings(&["L"]);
    let canvas = generate_canvas(&files, &labels, 400, 420, 20, 20, None);
    let id = &canvas.nodes[0].id;
    assert_eq!(id.len(), 16);
    assert!(id.chars().all(|c| c.is_ascii_hexdigit() && !c.is_ascii_uppercase()));
}

#[test]
fn column_x_is_row_invariant_and_row_y_is_column_invariant() {
    let files = strings(&["a.md", "b.md", "c.md"]);
    let labels = strings(&["One", "Two", "Three", "Four"]);
    let (w, h, sx, sy) = (100, 50, 10, 5);
    let canvas = generate_canvas_seeded(&files, &labels, w, h, sx, sy, None, 3);
    let cols = labels.len();
    for j in 0..files.len() {
        for i in 0..cols {
            let node = &canvas.nodes[j * cols + i];
            assert_eq!(node.x, (i as i32) * (w + sx));
            assert_eq!(node.y, (j as i32) * (h + sy));
            assert_eq!(node.width, w);
            assert_eq!(node.height, h);
        }
    }
}

#[test]
fn negative_geometry_is_accepted() {
    let files = strings(&["a.md", "b.md"]);
    let labels = strings(&["One", "Two"]);
    let canvas = generate_canvas_seeded(&files, &labels, -10, -20, -5, -3, None, 1);
    assert_eq!(canvas.nodes[1].x, -15);
    assert_eq!(canvas.nodes[2].y, -23);
}

#[test]
fn heading_gains_exactly_one_sentinel() {
    assert_eq!(normalize_heading("Model"), "#Model");
    assert_eq!(normalize_heading(""), "#");
}

#[test]
fn heading_with_sentinel_is_unchanged() {
    assert_eq!(normalize_heading("#Topic"), "#Topic");
    assert_eq!(normalize_heading("##Deep"), "##Deep");
}

#[test]
fn generated_subpath_keeps_existing_sentinel() {
    let files = strings(&["a.md"]);
    let labels = strings(&["#Topic"]);
    let canvas = generate_canvas(&files, &labels, 400, 420, 20, 20, None);
    assert_eq!(canvas.nodes[0].subpath.as_deref(), Some("#Topic"));
}

#[test]
fn edges_are_always_empty() {
    let files = strings(&["a.md", "b.md"]);
    let labels = strings(&["One"]);
    let canvas = generate_canvas(&files, &labels, 400, 420, 20, 20, Some("/base"));
    assert_eq!(canvas.edges.len(), 0);
}

#[test]
fn round_trip_preserves_node_and_edge_counts() {
    let files = strings(&["a.md", "b.md"]);
    let labels = strings(&["Model", "Data"]);
    let canvas = generate_canvas(&files, &labels, 400, 420, 20, 20, None);
    let text = to_json(&canvas);
    let value: serde_json::Value = serde_json::from_str(&text).expect("output must parse");
    assert_eq!(value["nodes"].as_array().unwrap().len(), 4);
    assert_eq!(value["edges"].as_array().unwrap().len(), 0);
}

#[test]
fn serialized_nodes_carry_all_fields() {
    let files = strings(&["notes/a.md"]);
    let labels = strings(&["Model"]);
    let canvas = generate_canvas_seeded(&files, &labels, 400, 420, 20, 20, None, 9);
    let text = to_json(&canvas);
    let value: serde_json::Value = serde_json::from_str(&text).expect("output must parse");
    let node = &value["nodes"][0];
    assert_eq!(node["type"], "file");
    assert_eq!(node["file"], "notes/a.md");
    assert_eq!(node["subpath"], "#Model");
    assert_eq!(node["x"], 0);
    assert_eq!(node["y"], 0);
    assert_eq!(node["width"], 400);
    assert_eq!(node["height"], 420);
    assert_eq!(node["id"].as_str().unwrap().len(), 16);
}

#[test]
fn absent_subpath_is_omitted_not_null() {
    let canvas = Canvas {
        nodes: vec![
            CanvasNode {
                id: "0123456789abcdef".to_string(),
                node_type: "file".to_string(),
                file: "a.md".to_string(),
                subpath: None,
                x: -5,
                y: 7,
                width: 400,
                height: 420,
            },
        ],
        edges: Vec::new(),
    };
    let text = to_json(&canvas);
    assert!(!text.contains("subpath"));
    assert!(!text.contains("null"));
    let value: serde_json::Value = serde_json::from_str(&text).expect("output must parse");
    let node = &value["nodes"][0];
    assert!(node.get("subpath").is_none());
    assert_eq!(node["x"], -5);
}

#[test]
fn escaped_characters_survive_a_round_trip() {
    let canvas = Canvas {
        nodes: vec![
            CanvasNode {
                id: "0123456789abcdef".to_string(),
                node_type: "file".to_string(),
                file: "a\"b\\c\nd\te\rf\u{1}g.md".to_string(),
                subpath: Some("#Top\"ic".to_string()),
                x: 0,
                y: 0,
                width: 1,
                height: 1,
            },
        ],
        edges: Vec::new(),
    };
    let text = to_json(&canvas);
    let value: serde_json::Value = serde_json::from_str(&text).expect("output must parse");
    let node = &value["nodes"][0];
    assert_eq!(node["file"], "a\"b\\c\nd\te\rf\u{1}g.md");
    assert_eq!(node["subpath"], "#Top\"ic");
}

#[test]
fn library_reader_recovers_counts() {
    let files = strings(&["a.md", "b.md"]);
    let labels = strings(&["Model", "Data", "Extra"]);
    let canvas = generate_canvas(&files, &labels, 400, 420, 20, 20, None);
    let text = to_json(&canvas);
    assert_eq!(parse_canvas_counts(&text), Some((6, 0)));
}

#[test]
fn library_reader_is_not_confused_by_structural_characters_in_values() {
    let canvas = Canvas {
        nodes: vec![
            CanvasNode {
                id: "0123456789abcdef".to_string(),
                node_type: "file".to_string(),
                file: "a},\"]{,x.md".to_string(),
                subpath: Some("#a}b".to_string()),
                x: 1,
                y: 2,
                width: 3,
                height: 4,
            },
        ],
        edges: Vec::new(),
    };
    let text = to_json(&canvas);
    assert_eq!(parse_canvas_counts(&text), Some((1, 0)));
}

#[test]
fn library_reader_rejects_foreign_text() {
    assert_eq!(parse_canvas_counts(""), None);
    assert_eq!(parse_canvas_counts("hello"), None);
    assert_eq!(parse_canvas_counts("{\"nodes\":[{\"id\":\"x\"}"), None);
}

#[test]
fn serialized_text_is_exact() {
    let canvas = Canvas {
        nodes: vec![
            CanvasNode {
                id: "0123456789abcdef".to_string(),
                node_type: "file".to_string(),
                file: "a.md".to_string(),
                subpath: Some("#M".to_string()),
                x: 0,
                y: -7,
                width: 400,
                height: 420,
            },
        ],
        edges: Vec::new(),
    };
    let text = to_json(&canvas);
    assert_eq!(
        text,
        "{\"nodes\":[{\"id\":\"0123456789abcdef\",\"type\":\"file\",\"file\":\"a.md\",\
         \"subpath\":\"#M\",\"x\":0,\"y\":-7,\"width\":400,\"height\":420}],\"edges\":[]}"
    );
}

#[test]
fn hex16_renders_fixed_width_lowercase() {
    assert_eq!(hex16(0), "0000000000000000");
    assert_eq!(hex16(0xdead_beef), "00000000deadbeef");
    assert_eq!(hex16(u64::MAX), "ffffffffffffffff");
}

#[test]
fn generate_id_is_seed_plus_index_in_hex() {
    assert_eq!(generate_id(0, 0), "0000000000000000");
    assert_eq!(generate_id(0, 255), "00000000000000ff");
    assert_eq!(generate_id(u64::MAX, 1), "0000000000000000");
}

#[test]
fn relative_path_under_base() {
    assert_eq!(make_relative_path("/docs/a.md", Some("/docs")), "a.md");
    assert_eq!(make_relative_path("/docs/a.md", Some("/docs/")), "a.md");
    assert_eq!(make_relative_path("/docs/sub/a.md", Some("/docs")), "sub/a.md");
    assert_eq!(make_relative_path("/docs", Some("/docs")), "");
}

#[test]
fn path_outside_base_loses_leading_separators() {
    assert_eq!(make_relative_path("/other/b.md", Some("/docs")), "other/b.md");
    assert_eq!(make_relative_path("/docsextra/b.md", Some("/docs")), "docsextra/b.md");
    assert_eq!(make_relative_path("/abs/c.md", None), "abs/c.md");
    assert_eq!(make_relative_path("rel/d.md", None), "rel/d.md");
}

#[test]
fn resolved_path_is_never_root_rooted() {
    assert_eq!(make_relative_path("//x", None), "x");
    assert_eq!(make_relative_path("///deep/a.md", None), "deep/a.md");
    assert_eq!(make_relative_path("//net/share/b.md", Some("/docs")), "net/share/b.md");
    assert_eq!(make_relative_path("/", None), "");
}

#[test]
fn markdown_extension_filter() {
    assert!(is_markdown_path("a.md"));
    assert!(is_markdown_path("dir/sub/note.md"));
    assert!(is_markdown_path(".a.md"));
    assert!(is_markdown_path("a..md"));
    assert!(!is_markdown_path("a.txt"));
    assert!(!is_markdown_path("md"));
    assert!(!is_markdown_path(".md"));
    assert!(!is_markdown_path("dir/.md"));
    assert!(!is_markdown_path("a.md.bak"));
}

#[test]
fn located_documents_are_sorted_and_filtered() {
    let paths = strings(&["b.md", "a.md", "c.txt", "dir/.md", "x/readme.md"]);
    let found = find_markdown_files(&paths);
    assert_eq!(found, strings(&["a.md", "b.md", "x/readme.md"]));
}

#[test]
fn duplicate_paths_are_kept() {
    let paths = strings(&["a.md", "a.md"]);
    let found = find_markdown_files(&paths);
    assert_eq!(found, strings(&["a.md", "a.md"]));
}

#[test]
fn string_order_is_lexicographic() {
    assert!(str_lt("a", "b"));
    assert!(str_lt("a", "ab"));
    assert!(!str_lt("b", "a"));
    assert!(!str_lt("a", "a"));
    assert!(str_lt("A", "a"));
}

#[test]
fn duplicate_labels_give_duplicate_columns() {
    let files = strings(&["a.md"]);
    let labels = strings(&["Same", "Same"]);
    let canvas = generate_canvas_seeded(&files, &labels, 400, 420, 20, 20, None, 2);
    assert_eq!(canvas.nodes.len(), 2);
    assert_eq!(canvas.nodes[0].subpath.as_deref(), Some("#Same"));
    assert_eq!(canvas.nodes[1].subpath.as_deref(), Some("#Same"));
    assert_eq!(canvas.nodes[0].x, 0);
    assert_eq!(canvas.nodes[1].x, 420);
}
