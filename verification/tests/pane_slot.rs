use termica::pane_slot::{pane_ids, LayoutTile, PaneId, PaneIds};

#[test]
fn pane_ids_are_monotonic_and_unique() {
    let mut next = PaneIds::new();
    let a = next.mint();
    let b = next.mint();
    let c = next.mint();
    assert_ne!(a, b);
    assert_ne!(b, c);
    assert_eq!(a.0 + 1, b.0);
    assert_eq!(b.0 + 1, c.0);
}

#[test]
fn pane_ids_lists_every_leaf() {
    let tiles =
        vec![LayoutTile::Pane(PaneId(3)), LayoutTile::Container, LayoutTile::Pane(PaneId(7))];
    let mut ids = pane_ids(&tiles);
    ids.sort_by_key(|p| p.0);
    assert_eq!(ids, vec![PaneId(3), PaneId(7)]);
}
