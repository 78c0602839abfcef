use ji::history::snapshot_name;
use ji::store::GraphStore;
use ji::strmap::StrMap;
use ji::viewer::{edge_id, node_card};

#[test]
fn snapshot_names_carry_env_and_time() {
    assert_eq!(snapshot_name("prod", 1700000000), Some("prod_1700000000.ji".to_string()));
    assert_eq!(snapshot_name("tests", 0), Some("tests_0.ji".to_string()));
    assert_eq!(snapshot_name("seeds", 42), None);
    assert_eq!(snapshot_name("prod", u64::MAX), Some(format!("prod_{}.ji", u64::MAX)));
}

#[test]
fn edge_ids_count_from_one() {
    assert_eq!(edge_id(1), "e1");
    assert_eq!(edge_id(10), "e10");
    assert_eq!(edge_id(907), "e907");
}

#[test]
fn node_cards_show_label_name_and_other_properties() {
    let mut g = GraphStore::new();
    let mut props = StrMap::new();
    props.insert("nom".to_string(), "Gare de Lyon".to_string());
    props.insert("ville".to_string(), "Paris".to_string());
    g.add_node("gdl".to_string(), Some("Gare".to_string()), props);
    g.add_node("x".to_string(), None, StrMap::new());
    let card = node_card("gdl", g.get_node("gdl").unwrap());
    assert_eq!(card.label, "Gare");
    assert_eq!(card.nom, "Gare de Lyon");
    assert_eq!(card.extra, vec![("ville".to_string(), "Paris".to_string())]);
    let card = node_card("x", g.get_node("x").unwrap());
    assert_eq!(card.label, "Record");
    assert_eq!(card.nom, "x");
    assert!(card.extra.is_empty());
}
