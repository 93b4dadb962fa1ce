//! One reconciliation tick: a scan of the card that is present, upserted into
//! the inventory.
use vstd::prelude::*;
use crate::descriptor::{assemble_scan, kept_apps, scan_ok, AppState, LibraryScan, RootDescriptor, ScanOutcome};
use crate::inventory::{with_card, GameView, Inventory, InventoryView};

verus! {

/// The games after each app of a scan of card `card` is upserted, in order.
pub open spec fn apply_apps(
    games: Map<Seq<char>, GameView>,
    apps: Seq<AppState>,
    card: Seq<char>,
) -> Map<Seq<char>, GameView>
    decreases apps.len(),
{
    if apps.len() == 0 {
        games
    } else {
        apply_apps(games, apps.drop_last(), card).insert(
            apps.last().appid@,
            GameView { name: apps.last().name@, size: apps.last().size_on_disk, card },
        )
    }
}

/// The inventory after a scan of card `card` labelled `label` that found
/// `apps`: the card is upserted, then each of its apps.
pub open spec fn after_scan(
    v: InventoryView,
    card: Seq<char>,
    label: Seq<char>,
    apps: Seq<AppState>,
) -> InventoryView {
    InventoryView {
        cards: with_card(v, card, label).cards,
        games: apply_apps(v.games, apps, card),
    }
}

/// What a tick did.
#[derive(Debug, PartialEq, Eq, Structural)]
pub enum Tick {
    /// The mount point holds no library; nothing changed.
    NotACard,
    /// The scan failed; nothing changed, and the next event retries.
    IoError,
    /// The scan was upserted into the inventory.
    Reconciled,
}

/// The action of a kernel device event on the card's subsystem.
#[derive(Debug, PartialEq, Eq, Structural)]
pub enum DeviceAction {
    Add,
    Remove,
    Change,
    Bind,
    Unbind,
    Other,
}

/// Only a bind, when the card's filesystem is ready, starts a tick.
pub fn triggers_scan(action: &DeviceAction) -> (r: bool)
    ensures
        r == (*action is Bind),
{
    match action {
        DeviceAction::Bind => true,
        _ => false,
    }
}

/// Upserts a scan into the inventory: the card, then every app on it. Games
/// that the card held before and that the scan does not show are kept.
pub fn apply_scan(inv: &mut Inventory, scan: &LibraryScan)
    requires
        old(inv).wf(),
        scan_ok(*scan),
    ensures
        final(inv).wf(),
        final(inv)@.valid(),
        final(inv)@ == after_scan(old(inv)@, scan.contentid@, scan.label@, scan.apps@),
{
    inv.add_card(scan.contentid.clone(), scan.label.clone());
    let ghost cards = inv@.cards;
    let mut i: usize = 0;
    while i < scan.apps.len()
        invariant
            inv.wf(),
            scan_ok(*scan),
            i <= scan.apps.len(),
            cards == with_card(old(inv)@, scan.contentid@, scan.label@).cards,
            inv@.cards == cards,
            inv@.games == apply_apps(old(inv)@.games, scan.apps@.take(i as int), scan.contentid@),
        decreases scan.apps.len() - i,
    {
        assert(scan.apps@.take(i as int + 1).drop_last() =~= scan.apps@.take(i as int));
        let a = &scan.apps[i];
        assert(a.appid@.len() > 0);
        inv.add_game(a.appid.clone(), a.name.clone(), a.size_on_disk, scan.contentid.clone());
        i += 1;
    }
    assert(scan.apps@.take(scan.apps.len() as int) =~= scan.apps@);
    proof {
        inv.lemma_wf_valid();
    }
}

/// One tick, from what was read off the mount point: a missing root descriptor
/// or a failed scan leaves the inventory as it was; a scan is upserted.
pub fn reconcile(
    inv: &mut Inventory,
    root: RootDescriptor,
    apps: Option<Vec<Option<AppState>>>,
) -> (r: Tick)
    requires
        old(inv).wf(),
    ensures
        final(inv).wf(),
        final(inv)@.valid(),
        r == Tick::NotACard <==> root is Missing,
        root is Unparsable ==> r == Tick::IoError,
        r != Tick::Reconciled ==> final(inv)@ == old(inv)@,
        r == Tick::Reconciled <==> (root matches RootDescriptor::Parsed(lf)
            && lf.contentid@.len() > 0 && lf.label@.len() > 0 && apps is Some),
        r == Tick::Reconciled ==> final(inv)@ == after_scan(
            old(inv)@,
            root->Parsed_0.contentid@,
            root->Parsed_0.label@,
            kept_apps(apps->Some_0@),
        ),
{
    match assemble_scan(root, apps) {
        ScanOutcome::NotACard => {
            proof {
                inv.lemma_wf_valid();
            }
            Tick::NotACard
        },
        ScanOutcome::IoError => {
            proof {
                inv.lemma_wf_valid();
            }
            Tick::IoError
        },
        ScanOutcome::Library(s) => {
            apply_scan(inv, &s);
            Tick::Reconciled
        },
    }
}

} // verus!
