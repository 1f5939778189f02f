//! The numbers of panes, and what is asked of the workspace.

use vstd::prelude::*;

verus! {

/// The number of a pane.
#[derive(Debug, Clone, Copy, PartialEq, Eq, Hash, Structural)]
pub struct PaneId(pub u64);

/// What a shortcut in a pane asks of the workspace.
#[derive(Debug, Clone, Copy, PartialEq, Eq, Structural)]
pub enum PaneAction {
    /// Open a pane in a new tab.
    NewTab,
    /// Close the tab.
    CloseTab,
    /// Leave the program.
    Quit,
    /// Go to the next tab.
    NextTab,
    /// Go to the previous tab.
    PrevTab,
    /// Forget what the pane has shown.
    ClearScrollback,
    /// Show the oldest output.
    ScrollToTop,
    /// Show the newest output.
    ScrollToBottom,
    /// Show one page further up.
    ScrollPageUp,
    /// Show one page further down.
    ScrollPageDown,
    /// Open the search in the pane.
    OpenFind,
    /// Start a shell in a pane that has none.
    RestartShell,
}

/// Gives out numbers of panes, each once.
#[derive(Debug, Clone, Copy, PartialEq, Eq, Structural)]
pub struct PaneIds {
    pub next: u64,
}

impl PaneIds {
    /// Nothing given out yet.
    pub fn new() -> (r: PaneIds)
        ensures
            r.next == 0,
    {
        PaneIds { next: 0 }
    }

    /// The next number.
    pub fn mint(&mut self) -> (id: PaneId)
        requires
            old(self).next < u64::MAX,
        ensures
            id.0 == old(self).next,
            final(self).next == old(self).next + 1,
    {
        let id = PaneId(self.next);
        self.next = self.next + 1;
        id
    }
}

/// What a pane's place in a layout is.
#[derive(Debug, Clone, Copy, PartialEq, Eq, Structural)]
pub enum LayoutTile {
    /// A pane.
    Pane(PaneId),
    /// Something that holds tiles.
    Container,
}

/// The panes among some tiles, in their order.
pub open spec fn panes_of(tiles: Seq<LayoutTile>) -> Seq<PaneId>
    decreases tiles.len(),
{
    if tiles.len() == 0 {
        Seq::empty()
    } else {
        match tiles.last() {
            LayoutTile::Pane(id) => panes_of(tiles.drop_last()).push(id),
            LayoutTile::Container => panes_of(tiles.drop_last()),
        }
    }
}

/// The panes of a layout: each gets its place back.
pub fn pane_ids(tiles: &Vec<LayoutTile>) -> (r: Vec<PaneId>)
    ensures
        r@ == panes_of(tiles@),
{
    let mut out: Vec<PaneId> = Vec::new();
    let mut i: usize = 0;
    while i < tiles.len()
        invariant
            i <= tiles@.len(),
            out@ == panes_of(tiles@.take(i as int)),
        decreases tiles@.len() - i,
    {
        assert(tiles@.take(i + 1).drop_last() =~= tiles@.take(i as int));
        if let LayoutTile::Pane(id) = tiles[i] {
            out.push(id);
        }
        i += 1;
    }
    assert(tiles@.take(i as int) =~= tiles@);
    out
}

/// Every pane of a layout is found.
pub proof fn law_every_pane_is_found(tiles: Seq<LayoutTile>, id: PaneId)
    ensures
        tiles.contains(LayoutTile::Pane(id)) <==> panes_of(tiles).contains(id),
    decreases tiles.len(),
{
    if tiles.len() > 0 {
        let rest = tiles.drop_last();
        law_every_pane_is_found(rest, id);
        let found = panes_of(rest);
        let all = panes_of(tiles);
        if tiles.contains(LayoutTile::Pane(id)) {
            let k = tiles.index_of(LayoutTile::Pane(id));
            if k < rest.len() {
                assert(rest[k] == LayoutTile::Pane(id));
                let j = found.index_of(id);
                assert(found.contains(id));
                assert(all[j] == id);
            } else {
                assert(all.last() == id);
            }
        }
        if all.contains(id) {
            let j = all.index_of(id);
            if j < found.len() {
                assert(found[j] == id);
                let k = rest.index_of(LayoutTile::Pane(id));
                assert(rest.contains(LayoutTile::Pane(id)));
                assert(tiles[k] == LayoutTile::Pane(id));
            } else {
                assert(tiles.last() == LayoutTile::Pane(id));
            }
        }
    }
}

/// The panes of a layout keep their order, each in its place once.
pub proof fn law_panes_keep_their_order(a: Seq<LayoutTile>, b: Seq<LayoutTile>, id: PaneId)
    ensures
        panes_of(a + b) == panes_of(a) + panes_of(b),
        panes_of(seq![LayoutTile::Pane(id)]) == seq![id],
        panes_of(seq![LayoutTile::Container]).len() == 0,
    decreases b.len(),
{
    let one = seq![LayoutTile::Pane(id)];
    let other = seq![LayoutTile::Container];
    assert(one.drop_last() =~= Seq::<LayoutTile>::empty());
    assert(other.drop_last() =~= Seq::<LayoutTile>::empty());
    assert(panes_of(one.drop_last()) == Seq::<PaneId>::empty());
    assert(one.last() == LayoutTile::Pane(id));
    assert(other.last() == LayoutTile::Container);
    assert(panes_of(one) =~= seq![id]);
    if b.len() == 0 {
        assert(a + b =~= a);
        assert(panes_of(a) + panes_of(b) =~= panes_of(a));
    } else {
        law_panes_keep_their_order(a, b.drop_last(), id);
        assert((a + b).drop_last() =~= a + b.drop_last());
        assert((a + b).last() == b.last());
        assert(panes_of(a + b) =~= panes_of(a) + panes_of(b));
    }
}

} // verus!
