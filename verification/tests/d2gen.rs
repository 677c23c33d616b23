use delinea::{generate, BoundingBox, Diagram, Edge, Node, ShapeKind};

fn bbox() -> BoundingBox {
    BoundingBox {
        x: 0,
        y: 0,
        width: 10,
        height: 10,
    }
}

#[test]
fn renders_shapes_and_a_directed_labeled_edge() {
    let diagram = Diagram {
        nodes: vec![
            Node {
                id: 0,
                shape: ShapeKind::Rectangle,
                label: Some("Login".to_string()),
                bbox: bbox(),
            },
            Node {
                id: 1,
                shape: ShapeKind::Circle,
                label: Some("Database".to_string()),
                bbox: bbox(),
            },
        ],
        edges: vec![Edge {
            from: 0,
            to: 1,
            label: Some("writes".to_string()),
            directed: true,
        }],
    };

    let d2 = generate(&diagram);
    assert_eq!(
        d2,
        "node0: Login {shape: rectangle}\n\
         node1: Database {shape: circle}\n\
         node0 -> node1: writes\n"
    );
}

#[test]
fn unlabeled_nodes_show_their_identifier_and_undirected_edges_use_dashes() {
    let diagram = Diagram {
        nodes: vec![
            Node {
                id: 7,
                shape: ShapeKind::Diamond,
                label: None,
                bbox: bbox(),
            },
            Node {
                id: 12,
                shape: ShapeKind::Rectangle,
                label: None,
                bbox: bbox(),
            },
        ],
        edges: vec![Edge {
            from: 12,
            to: 7,
            label: None,
            directed: false,
        }],
    };
    assert_eq!(
        generate(&diagram),
        "node7: node7 {shape: diamond}\n\
         node12: node12 {shape: rectangle}\n\
         node12 -- node7\n"
    );
}

#[test]
fn empty_diagram_renders_nothing() {
    assert_eq!(generate(&Diagram::default()), "");
}

#[test]
fn multi_digit_and_large_ids_render_in_decimal() {
    let diagram = Diagram {
        nodes: vec![Node {
            id: 1905,
            shape: ShapeKind::Circle,
            label: Some("x".to_string()),
            bbox: bbox(),
        }],
        edges: vec![Edge {
            from: 10,
            to: usize::MAX,
            label: Some("y".to_string()),
            directed: true,
        }],
    };
    assert_eq!(
        generate(&diagram),
        format!("node1905: x {{shape: circle}}\nnode10 -> node{}: y\n", usize::MAX)
    );
}

#[test]
fn distinct_ids_give_distinct_identifiers() {
    let ids = [0usize, 1, 9, 10, 11, 19, 100, 101, 1000];
    let names: Vec<String> = ids
        .iter()
        .map(|&id| {
            let d = Diagram {
                nodes: vec![Node {
                    id,
                    shape: ShapeKind::Rectangle,
                    label: Some(String::new()),
                    bbox: bbox(),
                }],
                edges: vec![],
            };
            let text = generate(&d);
            text.split(':').next().unwrap().to_string()
        })
        .collect();
    for i in 0..names.len() {
        for j in 0..names.len() {
            if i != j {
                assert_ne!(names[i], names[j]);
            }
        }
    }
}

#[test]
fn one_line_per_node_and_edge() {
    let diagram = Diagram {
        nodes: (0..5)
            .map(|id| Node {
                id,
                shape: ShapeKind::Circle,
                label: if id % 2 == 0 { Some(format!("n{id}")) } else { None },
                bbox: bbox(),
            })
            .collect(),
        edges: (0..3)
            .map(|i| Edge {
                from: i,
                to: i + 1,
                label: if i == 1 { Some("e".to_string()) } else { None },
                directed: i % 2 == 0,
            })
            .collect(),
    };
    let text = generate(&diagram);
    assert_eq!(text.matches('\n').count(), 8);
    assert!(text.ends_with('\n'));
}
