use ctx::model::{EdgeKind, SymbolKind};
use ctx::parser::captures::Capture;
use ctx::parser::go::{build_go_signature, extract_go_docstring, push_go_import_edges};

fn caps(v: &[(&str, &str)]) -> Vec<Capture> {
    v.iter()
        .map(|(n, t)| Capture { name: n.to_string(), text: t.to_string(), row: 0, column: 0 })
        .collect()
}

#[test]
fn function_and_method_signatures() {
    let f = caps(&[
        ("func.def", "func Add(a, b int) int { return a + b }"),
        ("func.name", "Add"),
        ("func.params", "(a, b int)"),
        ("func.return", "int"),
    ]);
    assert_eq!(build_go_signature(SymbolKind::Function, &f).as_deref(), Some("func Add(a, b int) int"));
    let m = caps(&[("method.receiver_type", "*Server"), ("method.name", "Start")]);
    assert_eq!(build_go_signature(SymbolKind::Method, &m).as_deref(), Some("func (*Server) Start()"));
    assert_eq!(build_go_signature(SymbolKind::Function, &vec![]).as_deref(), Some("func ()"));
}

#[test]
fn type_signatures_need_their_name() {
    let s = caps(&[("struct.def", "type User struct {}"), ("struct.name", "User")]);
    assert_eq!(build_go_signature(SymbolKind::Struct, &s).as_deref(), Some("type User struct"));
    let i = caps(&[("interface.name", "Reader"), ("interface.name", "Other")]);
    assert_eq!(build_go_signature(SymbolKind::Interface, &i).as_deref(), Some("type Reader interface"));
    let t = caps(&[("type.name", "ID")]);
    assert_eq!(build_go_signature(SymbolKind::Type, &t).as_deref(), Some("type ID"));
    let c = caps(&[("const.name", "MaxSize")]);
    assert_eq!(build_go_signature(SymbolKind::Const, &c).as_deref(), Some("const MaxSize"));
    let v = caps(&[("var.name", "count")]);
    assert_eq!(build_go_signature(SymbolKind::Variable, &v).as_deref(), Some("var count"));
    assert_eq!(build_go_signature(SymbolKind::Struct, &t), None);
    assert_eq!(build_go_signature(SymbolKind::Class, &s), None);
}

#[test]
fn doc_comments_read_top_down() {
    let nearest_first = vec!["// second line".to_string(), "//First line.".to_string()];
    assert_eq!(extract_go_docstring(&nearest_first).as_deref(), Some("First line.\nsecond line"));
    assert_eq!(extract_go_docstring(&vec!["/* block */".to_string()]).as_deref(), Some("/* block */"));
    assert_eq!(extract_go_docstring(&vec![]), None);
}

#[test]
fn import_paths_become_edges() {
    let captures = vec![
        Capture { name: "import.path".to_string(), text: "\"fmt\"".to_string(), row: 2, column: 4 },
        Capture { name: "import.name".to_string(), text: "f".to_string(), row: 2, column: 2 },
        Capture { name: "import.path".to_string(), text: "\"\"".to_string(), row: 3, column: 4 },
        Capture { name: "import.path".to_string(), text: "\"net/http\"".to_string(), row: 4, column: 1 },
    ];
    let mut edges = Vec::new();
    push_go_import_edges("main.go", &captures, &mut edges);
    assert_eq!(edges.len(), 2);
    assert_eq!(edges[0].source_id, "main.go");
    assert_eq!(edges[0].target_id.as_deref(), Some("fmt"));
    assert_eq!(edges[0].target_name, "fmt");
    assert_eq!(edges[0].kind, EdgeKind::Imports);
    assert_eq!(edges[0].line, Some(3));
    assert_eq!(edges[0].col, Some(4));
    assert_eq!(edges[1].target_name, "net/http");
    assert_eq!(edges[1].line, Some(5));
}
