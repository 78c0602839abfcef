//! What the graph viewer shows of nodes and relations.
use vstd::prelude::*;
use crate::store::NodeData;
use crate::text::{decimal, push_decimal, str_eq, string_from_chars};

verus! {

/// What the viewer shows of a node: its label, its display name, and its other properties.
pub struct NodeCard {
    pub label: String,
    pub nom: String,
    pub extra: Vec<(String, String)>,
}

/// The label shown for a node: its own, or `Record` when it has none.
pub open spec fn shown_label(label: Option<Seq<char>>) -> Seq<char> {
    match label {
        Some(l) => l,
        None => "Record"@,
    }
}

/// The name shown for the node stored under `id`: its `nom` property, or `id` itself.
pub open spec fn shown_name(id: Seq<char>, props: Map<Seq<char>, Seq<char>>) -> Seq<char> {
    if props.contains_key("nom"@) {
        props["nom"@]
    } else {
        id
    }
}

/// The entries of `es` whose key is not `nom`, in order.
pub open spec fn without_nom(es: Seq<(Seq<char>, Seq<char>)>) -> Seq<(Seq<char>, Seq<char>)>
    decreases es.len(),
{
    if es.len() == 0 {
        Seq::empty()
    } else {
        let rest = without_nom(es.drop_last());
        if es.last().0 == "nom"@ {
            rest
        } else {
            rest.push(es.last())
        }
    }
}

/// Each entry kept is an entry of `es` whose key is not `nom`.
proof fn lemma_kept_from(es: Seq<(Seq<char>, Seq<char>)>, x: int)
    requires
        0 <= x < without_nom(es).len(),
    ensures
        without_nom(es)[x].0 != "nom"@,
        exists|a: int| 0 <= a < es.len() && es[a] == without_nom(es)[x],
    decreases es.len(),
{
    let init = es.drop_last();
    let r = without_nom(init);
    if x < r.len() {
        lemma_kept_from(init, x);
        let a = choose|a: int| 0 <= a < init.len() && init[a] == r[x];
        assert(es[a] == init[a]);
    } else {
        assert(es[es.len() - 1] == without_nom(es)[x]);
    }
}

/// Each entry of `es` whose key is not `nom` is kept.
proof fn lemma_kept(es: Seq<(Seq<char>, Seq<char>)>, a: int)
    requires
        0 <= a < es.len(),
        es[a].0 != "nom"@,
    ensures
        exists|x: int| 0 <= x < without_nom(es).len() && without_nom(es)[x] == es[a],
    decreases es.len(),
{
    let init = es.drop_last();
    let r = without_nom(init);
    let w = without_nom(es);
    if a < init.len() {
        assert(init[a] == es[a]);
        lemma_kept(init, a);
        let x = choose|x: int| 0 <= x < r.len() && r[x] == init[a];
        assert(w[x] == r[x]);
    } else {
        assert(w[w.len() - 1] == es[a]);
    }
}

/// Entries with distinct keys keep distinct keys.
proof fn lemma_kept_distinct(es: Seq<(Seq<char>, Seq<char>)>)
    requires
        forall|a: int, b: int| 0 <= a < b < es.len() ==> #[trigger] es[a].0 != #[trigger] es[b].0,
    ensures
        forall|x: int, y: int| 0 <= x < y < without_nom(es).len() ==> #[trigger] without_nom(es)[x].0 != #[trigger] without_nom(es)[y].0,
    decreases es.len(),
{
    if es.len() > 0 {
        let init = es.drop_last();
        assert forall|a: int, b: int| 0 <= a < b < init.len() implies #[trigger] init[a].0 != #[trigger] init[b].0 by {
            assert(init[a] == es[a] && init[b] == es[b]);
        }
        lemma_kept_distinct(init);
        let r = without_nom(init);
        let w = without_nom(es);
        assert forall|x: int, y: int| 0 <= x < y < w.len() implies #[trigger] w[x].0 != #[trigger] w[y].0 by {
            if y < r.len() {
                assert(w[x] == r[x] && w[y] == r[y]);
            } else {
                assert(w[x] == r[x]);
                lemma_kept_from(init, x);
                let a = choose|a: int| 0 <= a < init.len() && init[a] == r[x];
                assert(es[a] == init[a]);
                assert(w[y] == es[es.len() - 1]);
            }
        }
    }
}

/// The card of the node stored under `id`: [`shown_label`], [`shown_name`], and every property
/// but `nom`, each once.
pub fn node_card(id: &str, node: &NodeData) -> (c: NodeCard)
    ensures
        c.label@ == shown_label(node@.label),
        c.nom@ == shown_name(id@, node@.properties),
        forall|i: int| 0 <= i < c.extra@.len() ==> #[trigger] node@.properties.contains_key(c.extra@[i].0@)
            && c.extra@[i].0@ != "nom"@ && node@.properties[c.extra@[i].0@] == c.extra@[i].1@,
        forall|k: Seq<char>| #[trigger] node@.properties.contains_key(k) && k != "nom"@ ==> exists|i: int|
            0 <= i < c.extra@.len() && c.extra@[i].0@ == k,
        forall|i: int, j: int| 0 <= i < j < c.extra@.len() ==> #[trigger] c.extra@[i].0@ != #[trigger] c.extra@[j].0@,
{
    let label = match &node.label {
        Some(l) => l.clone(),
        None => "Record".to_owned(),
    };
    let nom = match node.properties.get("nom") {
        Some(v) => v.clone(),
        None => id.to_owned(),
    };
    let props = &node.properties;
    let entries = props.entries();
    let ghost ed = entries.deep_view();
    let mut extra: Vec<(String, String)> = Vec::new();
    let mut i: usize = 0;
    proof {
        assert(ed.take(0) =~= Seq::<(Seq<char>, Seq<char>)>::empty());
        assert(extra.deep_view() =~= without_nom(ed.take(0)));
    }
    while i < entries.len()
        invariant
            i <= entries@.len(),
            ed == entries.deep_view(),
            extra.deep_view() == without_nom(ed.take(i as int)),
        decreases entries@.len() - i,
    {
        let ghost before = extra.deep_view();
        proof {
            assert(ed.take(i + 1).drop_last() =~= ed.take(i as int));
            assert(ed.take(i + 1).last() == ed[i as int]);
        }
        if !str_eq(entries[i].0.as_str(), "nom") {
            let k = entries[i].0.clone();
            let v = entries[i].1.clone();
            extra.push((k, v));
            proof {
                assert(extra.deep_view() =~= before.push(ed[i as int]));
            }
        }
        i += 1;
    }
    proof {
        assert(ed.take(ed.len() as int) =~= ed);
        let w = extra.deep_view();
        assert(w == without_nom(ed));
        assert forall|a: int, b: int| 0 <= a < b < ed.len() implies #[trigger] ed[a].0 != #[trigger] ed[b].0 by {
            assert(ed[a].0 == entries@[a].0@ && ed[b].0 == entries@[b].0@);
        }
        lemma_kept_distinct(ed);
        assert forall|x: int| 0 <= x < extra@.len() implies #[trigger] props@.contains_key(extra@[x].0@)
            && extra@[x].0@ != "nom"@ && props@[extra@[x].0@] == extra@[x].1@ by {
            lemma_kept_from(ed, x);
            assert(w[x] == (extra@[x].0@, extra@[x].1@));
            let a = choose|a: int| 0 <= a < ed.len() && ed[a] == w[x];
            assert(ed[a] == (entries@[a].0@, entries@[a].1@));
            assert(props@.contains_key(entries@[a].0@));
        }
        assert forall|k: Seq<char>| #[trigger] props@.contains_key(k) && k != "nom"@ implies exists|x: int|
            0 <= x < extra@.len() && extra@[x].0@ == k by {
            let a = choose|a: int| 0 <= a < entries@.len() && entries@[a].0@ == k;
            assert(ed[a].0 == k);
            lemma_kept(ed, a);
            let x = choose|x: int| 0 <= x < w.len() && w[x] == ed[a];
            assert(w[x].0 == extra@[x].0@);
        }
        assert forall|x: int, y: int| 0 <= x < y < extra@.len() implies #[trigger] extra@[x].0@ != #[trigger] extra@[y].0@ by {
            assert(w[x].0 == extra@[x].0@ && w[y].0 == extra@[y].0@);
        }
    }
    let card = NodeCard { label, nom, extra };
    proof {
        assert(card.extra@ == extra@);
        assert forall|i: int| 0 <= i < card.extra@.len() implies #[trigger] node@.properties.contains_key(card.extra@[i].0@)
            && card.extra@[i].0@ != "nom"@ && node@.properties[card.extra@[i].0@] == card.extra@[i].1@ by {
            assert(card.extra@[i] == extra@[i]);
        }
        assert forall|i: int, j: int| 0 <= i < j < card.extra@.len() implies #[trigger] card.extra@[i].0@ != #[trigger] card.extra@[j].0@ by {
            assert(card.extra@[i] == extra@[i] && card.extra@[j] == extra@[j]);
        }
        assert forall|k: Seq<char>| #[trigger] node@.properties.contains_key(k) && k != "nom"@ implies exists|i: int|
            0 <= i < card.extra@.len() && card.extra@[i].0@ == k by {
            let x = choose|x: int| 0 <= x < card.extra@.len() && card.extra@[x].0@ == k;
        }
    }
    card
}

/// The id the viewer gives the `n`-th relation it lists: `e` followed by `n`.
pub fn edge_id(n: u64) -> (r: String)
    ensures
        r@ == seq!['e'] + decimal(n as nat),
{
    let mut out: Vec<char> = Vec::new();
    out.push('e');
    push_decimal(&mut out, n);
    proof {
        assert(out@ =~= seq!['e'] + decimal(n as nat));
    }
    string_from_chars(out.as_slice())
}

} // verus!
