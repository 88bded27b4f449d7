use ctx::model::{EdgeKind, Symbol, SymbolKind, Visibility};
use ctx::parser::captures::{extract_call_edges, Capture};
use ctx::parser::CallCapturePatterns;
use ctx::parser::python::extract_inheritance_edges as python_inheritance_edges;
use ctx::parser::rust::extract_impl_edges;
use ctx::parser::typescript::extract_inheritance_edges as heritage_edges;

fn cap(name: &str, text: &str, row: u32, column: u32) -> Capture {
    Capture { name: name.to_string(), text: text.to_string(), row, column }
}

fn symbol(name: &str, kind: SymbolKind, start: u32, end: u32) -> Symbol {
    Symbol {
        id: format!("m.py::{name}"),
        file_path: "m.py".to_string(),
        name: name.to_string(),
        qualified_name: None,
        kind,
        visibility: Visibility::Public,
        signature: None,
        brief: None,
        docstring: None,
        line_start: start,
        line_end: end,
        col_start: 0,
        col_end: 0,
        parent_id: None,
        source: None,
    }
}

#[test]
fn calls_inside_functions_become_edges() {
    let symbols = vec![
        symbol("Helper", SymbolKind::Class, 12, 20),
        symbol("main", SymbolKind::Function, 1, 5),
        symbol("helper", SymbolKind::Function, 7, 9),
        symbol("run", SymbolKind::Method, 14, 16),
    ];
    let long = format!("log({})", "x".repeat(100));
    let matches = vec![
        vec![cap("call.name", "helper", 2, 4), cap("call.expr", "helper()", 2, 4)],
        vec![cap("method_call.expr", "  obj.go(x)  ", 3, 4), cap("method_call.name", "go", 3, 8)],
        vec![cap("call.name", "helper", 10, 0), cap("call.expr", "helper()", 10, 0)],
        vec![cap("call.name", "orphan", 2, 0)],
        vec![cap("call.expr", "x()", 2, 0)],
        vec![cap("call.name", "log", 14, 8), cap("call.expr", long.as_str(), 14, 8)],
    ];
    let mut edges = Vec::new();
    extract_call_edges(&matches, &symbols, &mut edges, &CallCapturePatterns::standard());
    assert_eq!(edges.len(), 3);

    assert_eq!(edges[0].source_id, "m.py::main");
    assert_eq!(edges[0].target_id.as_deref(), Some("m.py::helper"));
    assert_eq!(edges[0].target_name, "helper");
    assert_eq!(edges[0].kind, EdgeKind::Calls);
    assert_eq!((edges[0].line, edges[0].col), (Some(3), Some(4)));
    assert_eq!(edges[0].context.as_deref(), Some("helper()"));

    assert_eq!(edges[1].source_id, "m.py::main");
    assert_eq!(edges[1].target_id, None);
    assert_eq!(edges[1].target_name, "go");
    assert_eq!(edges[1].line, Some(4));
    assert_eq!(edges[1].context.as_deref(), Some("obj.go(x)"));

    // Inside the method `run` (the class is not a call source).
    assert_eq!(edges[2].source_id, "m.py::run");
    let context = edges[2].context.as_deref().unwrap();
    assert_eq!(context.len(), 80);
    assert!(context.ends_with("..."));
}

#[test]
fn the_first_symbol_of_the_called_name_is_the_target() {
    let symbols = vec![
        symbol("Thing", SymbolKind::Class, 1, 3),
        symbol("main", SymbolKind::Function, 5, 8),
    ];
    let matches = vec![vec![cap("new.name", "Thing", 5, 2), cap("new.expr", "new Thing()", 5, 2)]];
    let mut edges = Vec::new();
    extract_call_edges(&matches, &symbols, &mut edges, &CallCapturePatterns::typescript());
    assert_eq!(edges.len(), 1);
    assert_eq!(edges[0].target_id.as_deref(), Some("m.py::Thing"));
    let mut none = Vec::new();
    extract_call_edges(&matches, &symbols, &mut none, &CallCapturePatterns::standard());
    assert!(none.is_empty());
}

// The captures below are those the grammar queries give for the sources of
// the parsers' own examples: one match per `impl Trait for Type`, per
// (class, base) pair, and per heritage clause.

#[test]
fn test_extract_impl_edges() {
    // trait Animal { .. } struct Dog { .. } struct Cat { .. }
    // impl Animal for Dog { .. } impl Animal for Cat { .. }
    let symbols = vec![
        symbol("Animal", SymbolKind::Trait, 2, 4),
        symbol("Dog", SymbolKind::Struct, 6, 8),
        symbol("Cat", SymbolKind::Struct, 10, 12),
    ];
    let matches = vec![
        vec![
            cap("impl.def", "impl Animal for Dog { .. }", 13, 0),
            cap("trait.name", "Animal", 13, 5),
            cap("type.name", "Dog", 13, 16),
        ],
        vec![
            cap("impl.def", "impl Animal for Cat { .. }", 19, 0),
            cap("trait.name", "Animal", 19, 5),
            cap("type.name", "Cat", 19, 16),
        ],
    ];
    let mut edges = Vec::new();
    extract_impl_edges(&matches, &symbols, &mut edges);
    let impl_edges: Vec<_> = edges.iter().filter(|e| e.kind == EdgeKind::Implements).collect();
    assert_eq!(impl_edges.len(), 2);
    assert!(impl_edges.iter().any(|e| e.source_id.contains("Dog") && e.target_name == "Animal"));
    assert!(impl_edges.iter().any(|e| e.source_id.contains("Cat") && e.target_name == "Animal"));
}

#[test]
fn impl_edges_carry_place_context_and_resolved_trait() {
    let symbols = vec![
        symbol("Shape", SymbolKind::Enum, 1, 4),
        symbol("Draw", SymbolKind::Trait, 6, 8),
        symbol("Draw", SymbolKind::Function, 9, 9),
    ];
    let matches = vec![
        vec![
            cap("impl.def", "impl Draw for Shape {}", 10, 2),
            cap("trait.name", "Draw", 10, 7),
            cap("type.name", "Shape", 10, 16),
        ],
        // No struct or enum named `Missing`: no edge.
        vec![
            cap("impl.def", "impl Draw for Missing {}", 12, 0),
            cap("trait.name", "Draw", 12, 5),
            cap("type.name", "Missing", 12, 14),
        ],
        // A trait from elsewhere stays unresolved.
        vec![
            cap("impl.def", "impl Display for Shape {}", 14, 0),
            cap("trait.name", "Display", 14, 5),
            cap("type.name", "Shape", 14, 17),
        ],
        // Without the definition capture the match gives nothing.
        vec![cap("trait.name", "Draw", 16, 5), cap("type.name", "Shape", 16, 14)],
    ];
    let mut edges = Vec::new();
    extract_impl_edges(&matches, &symbols, &mut edges);
    assert_eq!(edges.len(), 2);
    assert_eq!(edges[0].source_id, "m.py::Shape");
    assert_eq!(edges[0].target_id.as_deref(), Some("m.py::Draw"));
    assert_eq!(edges[0].target_name, "Draw");
    assert_eq!((edges[0].line, edges[0].col), (Some(11), Some(2)));
    assert_eq!(edges[0].context.as_deref(), Some("impl Draw for Shape"));
    assert_eq!(edges[1].target_id, None);
    assert_eq!(edges[1].context.as_deref(), Some("impl Display for Shape"));
}

#[test]
fn test_extract_inheritance_edges() {
    // class Animal / class Dog(Animal) / class Cat(Animal) / class Hybrid(Dog, Cat)
    let symbols = vec![
        symbol("Animal", SymbolKind::Class, 2, 3),
        symbol("Dog", SymbolKind::Class, 5, 6),
        symbol("Cat", SymbolKind::Class, 8, 9),
        symbol("Hybrid", SymbolKind::Class, 11, 13),
    ];
    let class = |name: &str, base: &str, row: u32| {
        vec![
            cap("class.def", "class ..", row, 0),
            cap("class.name", name, row, 6),
            cap("base.name", base, row, 7 + name.len() as u32),
        ]
    };
    let matches = vec![class("Dog", "Animal", 4), class("Cat", "Animal", 7), class("Hybrid", "Dog", 10), class("Hybrid", "Cat", 10)];
    let mut edges = Vec::new();
    python_inheritance_edges(&matches, &symbols, &mut edges);
    let extends_edges: Vec<_> = edges.iter().filter(|e| e.kind == EdgeKind::Extends).collect();
    assert_eq!(extends_edges.len(), 4);
    assert!(extends_edges.iter().any(|e| e.source_id.contains("Dog") && e.target_name == "Animal"));
    assert!(extends_edges.iter().any(|e| e.source_id.contains("Cat") && e.target_name == "Animal"));
    assert!(extends_edges.iter().any(|e| e.source_id.contains("Hybrid") && e.target_name == "Dog"));
    assert!(extends_edges.iter().any(|e| e.source_id.contains("Hybrid") && e.target_name == "Cat"));
}

#[test]
fn python_bases_skip_object_and_keep_their_order() {
    let symbols = vec![symbol("Base", SymbolKind::Class, 1, 2), symbol("Thing", SymbolKind::Class, 4, 9)];
    let matches = vec![
        vec![
            cap("class_attr.def", "class Thing(..)", 3, 4),
            cap("class_attr.name", "Thing", 3, 10),
            cap("base.name", "object", 3, 16),
            cap("base_attr.name", "abc.ABC", 3, 24),
            cap("base.name", "Base", 3, 33),
        ],
        // An unknown class gives nothing.
        vec![cap("class.def", "class Other(Base)", 11, 0), cap("class.name", "Other", 11, 6), cap("base.name", "Base", 11, 12)],
    ];
    let mut edges = Vec::new();
    python_inheritance_edges(&matches, &symbols, &mut edges);
    assert_eq!(edges.len(), 2);
    assert_eq!(edges[0].source_id, "m.py::Thing");
    assert_eq!(edges[0].target_name, "abc.ABC");
    assert_eq!(edges[0].target_id, None);
    assert_eq!(edges[0].context.as_deref(), Some("class Thing(abc.ABC):"));
    assert_eq!((edges[0].line, edges[0].col), (Some(4), Some(4)));
    assert_eq!(edges[1].target_id.as_deref(), Some("m.py::Base"));
    assert_eq!(edges[1].context.as_deref(), Some("class Thing(Base):"));
}

#[test]
fn test_extract_extends_edges() {
    // class Animal / class Dog extends Animal / class Cat extends Animal
    let symbols = vec![
        symbol("Animal", SymbolKind::Class, 2, 4),
        symbol("Dog", SymbolKind::Class, 6, 10),
        symbol("Cat", SymbolKind::Class, 12, 16),
    ];
    let matches = vec![
        vec![cap("class.def", "class Dog ..", 5, 0), cap("class.name", "Dog", 5, 6), cap("extends.name", "Animal", 5, 18)],
        vec![cap("class.def", "class Cat ..", 11, 0), cap("class.name", "Cat", 11, 6), cap("extends.name", "Animal", 11, 18)],
    ];
    let mut edges = Vec::new();
    heritage_edges(&matches, &symbols, &mut edges);
    let extends_edges: Vec<_> = edges.iter().filter(|e| e.kind == EdgeKind::Extends).collect();
    assert_eq!(extends_edges.len(), 2);
    assert!(extends_edges.iter().any(|e| e.source_id.contains("Dog") && e.target_name == "Animal"));
    assert!(extends_edges.iter().any(|e| e.source_id.contains("Cat") && e.target_name == "Animal"));
}

#[test]
fn test_extract_implements_edges() {
    // interface Printable / interface Serializable /
    // class Document implements Printable, Serializable
    let symbols = vec![
        symbol("Printable", SymbolKind::Interface, 2, 4),
        symbol("Serializable", SymbolKind::Interface, 6, 8),
        symbol("Document", SymbolKind::Class, 10, 17),
    ];
    let matches = vec![vec![
        cap("class.def", "class Document ..", 9, 0),
        cap("class.name", "Document", 9, 6),
        cap("implements.name", "Printable", 9, 26),
        cap("implements.name", "Serializable", 9, 37),
    ]];
    let mut edges = Vec::new();
    heritage_edges(&matches, &symbols, &mut edges);
    let implements_edges: Vec<_> = edges.iter().filter(|e| e.kind == EdgeKind::Implements).collect();
    assert!(implements_edges.len() >= 1, "Expected at least 1 implements edge");
    assert!(implements_edges.iter().any(|e| {
        e.source_id.contains("Document") && (e.target_name == "Printable" || e.target_name == "Serializable")
    }));
}

#[test]
fn test_extract_interface_extends_edges() {
    // interface Base / interface Extended extends Base
    let symbols = vec![symbol("Base", SymbolKind::Interface, 2, 4), symbol("Extended", SymbolKind::Interface, 6, 8)];
    let matches = vec![vec![
        cap("interface.def", "interface Extended ..", 5, 0),
        cap("interface.name", "Extended", 5, 10),
        cap("interface_extends.name", "Base", 5, 27),
    ]];
    let mut edges = Vec::new();
    heritage_edges(&matches, &symbols, &mut edges);
    let extends_edges: Vec<_> = edges.iter().filter(|e| e.kind == EdgeKind::Extends).collect();
    assert!(extends_edges.iter().any(|e| e.source_id.contains("Extended") && e.target_name == "Base"));
}

#[test]
fn heritage_edges_come_in_clause_order_with_their_contexts() {
    let symbols = vec![
        symbol("Base", SymbolKind::Class, 1, 2),
        symbol("Shape", SymbolKind::Interface, 3, 4),
        symbol("Box", SymbolKind::Class, 5, 9),
    ];
    let matches = vec![vec![
        cap("class.def", "class Box ..", 4, 2),
        cap("class.name", "Box", 4, 8),
        cap("implements.name", "Shape", 4, 30),
        cap("extends.name", "Base", 4, 18),
        cap("implements.name", "Serializable", 4, 37),
    ]];
    let mut edges = Vec::new();
    heritage_edges(&matches, &symbols, &mut edges);
    assert_eq!(edges.len(), 3);
    assert_eq!(edges[0].kind, EdgeKind::Extends);
    assert_eq!(edges[0].target_id.as_deref(), Some("m.py::Base"));
    assert_eq!(edges[0].context.as_deref(), Some("class Box extends Base"));
    assert_eq!((edges[0].line, edges[0].col), (Some(5), Some(2)));
    assert_eq!(edges[1].kind, EdgeKind::Implements);
    assert_eq!(edges[1].target_id.as_deref(), Some("m.py::Shape"));
    assert_eq!(edges[1].context.as_deref(), Some("class Box implements Shape"));
    assert_eq!(edges[2].target_id, None);
    assert_eq!(edges[2].context.as_deref(), Some("class Box implements Serializable"));
}
