use ji::ast::{ExecutionMode, Modifier, PropertyFilter};
use ji::bytecode::OpCode;
use ji::codegen::CodeGenerator;
use ji::lexer::Lexer;
use ji::optimizer::{uses_vector_filter, QueryOptimizer};
use ji::parser::Parser;
use ji::store::GraphStore;
use ji::strmap::StrMap;
use ji::vm::{VirtualMachine, VmEvent};

fn compile(src: &str) -> (Vec<OpCode>, ExecutionMode) {
    let tokens = Lexer::new(src).get_tokens();
    let program = Parser::new(tokens).parse_program().unwrap();
    let (program, mode) = QueryOptimizer::new().optimize(program);
    let mut gen = CodeGenerator::new();
    (gen.generate(program, mode), mode)
}

fn run(src: &str, store: GraphStore) -> (GraphStore, Vec<VmEvent>) {
    let (ops, _) = compile(src);
    let mut vm = VirtualMachine::new(ops, store);
    let events = vm.run();
    (vm.into_store(), events)
}

fn props(pairs: &[(&str, &str)]) -> StrMap<String> {
    let mut m = StrMap::new();
    for (k, v) in pairs {
        m.insert(k.to_string(), v.to_string());
    }
    m
}

#[test]
fn optimizer_defaults_to_strict() {
    assert_eq!(QueryOptimizer::new().default_mode, ExecutionMode::Strict);
    let (_, mode) = compile("ADD (a) GET (a)-[r]->(b)");
    assert_eq!(mode, ExecutionMode::Strict);
}

#[test]
fn optimizer_switches_to_hybrid_on_vector_filter() {
    let tokens = Lexer::new("GET (a)-[r | sim > 0.5]->(b)").get_tokens();
    let program = Parser::new(tokens).parse_program().unwrap();
    assert!(uses_vector_filter(&program.commands[0]));
    let (program, mode) = QueryOptimizer::new().optimize(program);
    assert_eq!(mode, ExecutionMode::Hybrid);
    assert_eq!(program.commands.len(), 1);
}

#[test]
fn codegen_emits_mode_then_commands() {
    let (ops, _) = compile("ADD (a:Gare {ville: \"Paris\", ville: \"Lyon\"}) GET (a)-[r]->(b)-[?s]->(c)");
    // 1 mode switch + 1 create + (1 load + 2 * 2 steps)
    assert_eq!(ops.len(), 7);
    assert!(matches!(ops[0], OpCode::SetExecutionMode(ExecutionMode::Strict)));
    match &ops[1] {
        OpCode::CreateNode { alias, label, properties } => {
            assert_eq!(alias, "a");
            assert_eq!(label.as_deref(), Some("Gare"));
            // the later value of a repeated key wins
            assert_eq!(properties.get("ville").map(|s| s.as_str()), Some("Lyon"));
        }
        _ => panic!("the second instruction should create the node"),
    }
    assert!(matches!(&ops[3], OpCode::TraverseEdge { name, required: true } if name == "r"));
    assert!(matches!(&ops[5], OpCode::TraverseEdge { name, required: false } if name == "s"));
    assert!(matches!(&ops[6], OpCode::LoadNode { alias, .. } if alias == "c"));
}

#[test]
fn codegen_accumulates_across_calls() {
    let mut gen = CodeGenerator::new();
    let p1 = Parser::new(Lexer::new("ADD (a)").get_tokens()).parse_program().unwrap();
    let p2 = Parser::new(Lexer::new("ADD (b)").get_tokens()).parse_program().unwrap();
    assert_eq!(gen.generate(p1, ExecutionMode::Strict).len(), 2);
    assert_eq!(gen.generate(p2, ExecutionMode::Hybrid).len(), 4);
    assert_eq!(gen.bytecode.len(), 4);
}

#[test]
fn store_reads_back_what_was_written() {
    let mut g = GraphStore::new();
    assert!(!g.has_node("paris"));
    g.add_node("paris".to_string(), Some("Gare".to_string()), props(&[("ville", "Paris")]));
    assert!(g.has_node("paris"));
    let n = g.get_node("paris").unwrap();
    assert_eq!(n.id, "paris");
    assert_eq!(n.label.as_deref(), Some("Gare"));
    assert_eq!(n.properties.get("ville").map(|s| s.as_str()), Some("Paris"));
    g.add_node("paris".to_string(), None, props(&[]));
    assert_eq!(g.get_node("paris").unwrap().label, None);
    assert_eq!(g.nodes.entries().len(), 1);
}

#[test]
fn store_appends_edges_in_order() {
    let mut g = GraphStore::new();
    assert!(g.get_connections("a").is_none());
    g.add_edge("a".to_string(), "b".to_string(), "r1".to_string());
    g.add_edge("a".to_string(), "c".to_string(), "r2".to_string());
    g.add_edge("x".to_string(), "y".to_string(), "r3".to_string());
    let es = g.get_connections("a").unwrap();
    assert_eq!(es.len(), 2);
    assert_eq!(es[0].target_id, "b");
    assert_eq!(es[1].relation_name, "r2");
    assert_eq!(g.get_connections("x").unwrap().len(), 1);
}

#[test]
fn vm_creates_then_loads_and_traverses() {
    let (store, events) = run(
        "ADD (paris:Gare {ville: \"Paris\"}) ADD (lyon:Gare) ADD (paris)-[LGV]->(lyon) GET (paris)-[LGV]->(lyon)",
        GraphStore::new(),
    );
    assert!(store.has_node("paris"));
    assert!(store.has_node("lyon"));
    assert_eq!(store.get_connections("paris").unwrap().len(), 1);
    assert!(matches!(&events[0], VmEvent::NodeCreated { alias } if alias == "paris"));
    assert!(matches!(&events[2], VmEvent::EdgeCreated { source, name, target }
        if source == "paris" && name == "LGV" && target == "lyon"));
    assert!(matches!(&events[3], VmEvent::NodeFound { alias, label } if alias == "paris" && label.as_deref() == Some("Gare")));
    assert!(matches!(&events[4], VmEvent::StrictHop { relation, target } if relation == "LGV" && target == "lyon"));
    assert!(matches!(&events[5], VmEvent::NodeFound { alias, .. } if alias == "lyon"));
    assert_eq!(events.len(), 6);
}

#[test]
fn vm_filters_reject_and_sentinel_stands_in() {
    let mut g = GraphStore::new();
    g.add_node("a".to_string(), None, props(&[("ville", "Paris")]));
    let (_, events) = run("GET (a {hub*})-[r]->(b)", GraphStore::new());
    // no node `a` in an empty store: a sentinel stands in, then the strict traversal finds no relation
    assert!(matches!(&events[0], VmEvent::SentinelActivated { alias } if alias == "a"));
    assert_eq!(events.len(), 2);
    let (_, events) = run("GET (a {hub*})-[r]->(b)", g);
    assert!(matches!(&events[0], VmEvent::NodeRejected { alias } if alias == "a"));
    assert!(matches!(&events[1], VmEvent::NoActiveNode { relation } if relation == "r"));
}

#[test]
fn vm_opposed_and_optional_filters() {
    let mut g = GraphStore::new();
    g.add_node("a".to_string(), None, props(&[("ville", "Paris")]));
    let mut g2 = GraphStore::new();
    g2.add_node("a".to_string(), None, props(&[("ville", "Paris")]));
    let (_, ev) = run("GET (a {!ville: \"Paris\"})-[r]->(b)", g);
    assert!(matches!(&ev[0], VmEvent::NodeRejected { .. }));
    let (_, ev) = run("GET (a {ville?: \"Paris\", absent?: \"x\"})-[r]->(b)", g2);
    assert!(matches!(&ev[0], VmEvent::NodeFound { .. }));
}

#[test]
fn vm_strict_missing_required_edge_clears_active_node() {
    let mut g = GraphStore::new();
    g.add_node("a".to_string(), None, props(&[]));
    g.add_edge("a".to_string(), "b".to_string(), "other".to_string());
    let (_, ev) = run("GET (a)-[r]->(b)-[s]->(c)", g);
    assert!(matches!(&ev[1], VmEvent::StrictMissing { relation } if relation == "r"));
    assert!(matches!(&ev[2], VmEvent::SentinelActivated { alias } if alias == "b"));
}

#[test]
fn vm_hybrid_reports_vector_candidates() {
    let mut g = GraphStore::new();
    g.add_node("a".to_string(), None, props(&[]));
    g.add_node("b".to_string(), None, props(&[("vector", "0.1,0.2")]));
    g.add_node("c".to_string(), None, props(&[]));
    g.add_edge("a".to_string(), "b".to_string(), "r".to_string());
    g.add_edge("a".to_string(), "c".to_string(), "r".to_string());
    let (_, ev) = run("GET (a)-[r | sim > 0.5]->(b)", g);
    assert!(matches!(&ev[0], VmEvent::NodeFound { .. }));
    assert!(matches!(&ev[1], VmEvent::SemanticCandidate { relation, target } if relation == "r" && target == "b"));
    assert!(matches!(&ev[2], VmEvent::NodeFound { alias, .. } if alias == "b"));
    assert_eq!(ev.len(), 3);
}

#[test]
fn property_filter_clone_keeps_fields() {
    let f = PropertyFilter { key_id: "k".to_string(), target_value_id: "v".to_string(), modifier: Modifier::Optional };
    let g = f.clone();
    assert_eq!(g.key_id, "k");
    assert_eq!(g.target_value_id, "v");
    assert_eq!(g.modifier, Modifier::Optional);
}

#[test]
fn strmap_counts_each_key_once() {
    let mut m: StrMap<String> = StrMap::new();
    assert_eq!(m.len(), 0);
    m.insert("a".to_string(), "1".to_string());
    m.insert("b".to_string(), "2".to_string());
    m.insert("a".to_string(), "3".to_string());
    assert_eq!(m.len(), 2);
    assert_eq!(m.get("a"), Some(&"3".to_string()));
    assert_eq!(m.remove("a"), Some("3".to_string()));
    assert_eq!(m.len(), 1);
}

fn snapshot(g: &GraphStore) -> Vec<String> {
    let mut lines = Vec::new();
    for (id, n) in g.nodes.entries() {
        let mut props: Vec<String> =
            n.properties.entries().iter().map(|(k, v)| format!("{k}={v}")).collect();
        props.sort();
        lines.push(format!("node {id} {:?} {:?} {}", n.id, n.label, props.join(",")));
    }
    for (src, es) in g.edges.entries() {
        for e in es {
            lines.push(format!("edge {src} {} {}", e.relation_name, e.target_id));
        }
    }
    lines.sort();
    lines
}

#[test]
fn queries_leave_the_graph_unchanged() {
    let (store, _) = run(
        "ADD (paris:Gare {ville: \"Paris\", vector: \"1\"}) ADD (lyon:Gare {vector: \"2\"}) ADD (paris)-[LGV]->(lyon)",
        GraphStore::new(),
    );
    let before = snapshot(&store);
    let (store, events) = run("GET (paris)-[LGV]->(lyon)-[?TER]->(ghost) GET (nowhere)-[X]->(y)", store);
    assert!(!events.is_empty());
    assert_eq!(snapshot(&store), before);
    let (store, _) = run("GET (paris)-[LGV | sim > 0.5]->(lyon)", store);
    assert_eq!(snapshot(&store), before);
}
