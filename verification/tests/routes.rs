use ji::store::GraphStore;
use ji::strmap::StrMap;

fn network() -> GraphStore {
    let mut g = GraphStore::new();
    for id in ["Paris", "Lyon", "Dijon", "Marseille", "Nice"] {
        g.add_node(id.to_string(), Some("Gare".to_string()), StrMap::new());
    }
    g.add_edge("Paris".to_string(), "Dijon".to_string(), "TGV".to_string());
    g.add_edge("Dijon".to_string(), "Lyon".to_string(), "TER".to_string());
    g.add_edge("Paris".to_string(), "Lyon".to_string(), "TGV".to_string());
    g.add_edge("Lyon".to_string(), "Marseille".to_string(), "TGV".to_string());
    g.add_edge("Marseille".to_string(), "Nice".to_string(), "TER".to_string());
    g
}

#[test]
fn shortest_route_takes_fewest_relations() {
    let g = network();
    let (path, minutes) = g.chemin_le_plus_court("Paris", "Marseille").unwrap();
    assert_eq!(path, vec!["Paris", "Lyon", "Marseille"]);
    assert_eq!(minutes, 120);
    let (path, minutes) = g.chemin_le_plus_court("Paris", "Nice").unwrap();
    assert_eq!(path, vec!["Paris", "Lyon", "Marseille", "Nice"]);
    assert_eq!(minutes, 180);
}

#[test]
fn route_to_itself_is_free() {
    let g = network();
    assert_eq!(g.chemin_le_plus_court("Lyon", "Lyon"), Some((vec!["Lyon".to_string()], 0)));
}

#[test]
fn no_route_against_the_relations() {
    let g = network();
    assert_eq!(g.chemin_le_plus_court("Nice", "Paris"), None);
}

#[test]
fn no_route_from_an_unknown_node() {
    let g = network();
    assert_eq!(g.chemin_le_plus_court("Bordeaux", "Paris"), None);
}

#[test]
fn route_may_end_at_an_id_that_is_not_a_node() {
    let mut g = network();
    g.add_edge("Nice".to_string(), "Monaco".to_string(), "TER".to_string());
    let (path, minutes) = g.chemin_le_plus_court("Lyon", "Monaco").unwrap();
    assert_eq!(path, vec!["Lyon", "Marseille", "Nice", "Monaco"]);
    assert_eq!(minutes, 180);
}
