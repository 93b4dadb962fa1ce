//! Laws of the inventory and of reconciliation, stated over the store's view.
use vstd::prelude::*;
use crate::descriptor::{AppState, LibraryScan};
use crate::inventory::{card_games, with_name, CardView, GameView, InventoryView};
use crate::reconcile::{after_scan, apply_apps};

verus! {

/// The app ids of a scan's apps.
pub open spec fn app_ids(apps: Seq<AppState>) -> Set<Seq<char>> {
    Set::new(|k: Seq<char>| exists|j: int| 0 <= j < apps.len() && #[trigger] apps[j].appid@ == k)
}

/// The app ids found by any of the scans.
pub open spec fn scanned_ids(scans: Seq<LibraryScan>) -> Set<Seq<char>> {
    Set::new(
        |k: Seq<char>|
            exists|i: int, j: int|
                0 <= i < scans.len() && 0 <= j < scans[i].apps.len()
                    && #[trigger] scans[i].apps@[j].appid@ == k,
    )
}

/// The inventory after the scans, taken in their order, starting from `v`.
pub open spec fn replay(v: InventoryView, scans: Seq<LibraryScan>) -> InventoryView
    decreases scans.len(),
{
    if scans.len() == 0 {
        v
    } else {
        let s = scans.last();
        after_scan(replay(v, scans.drop_last()), s.contentid@, s.label@, s.apps@)
    }
}

/// The empty inventory.
pub open spec fn empty_inventory() -> InventoryView {
    InventoryView {
        cards: Map::<Seq<char>, CardView>::empty(),
        games: Map::<Seq<char>, GameView>::empty(),
    }
}

/// Upserting apps overwrites the old games with the scanned ones.
proof fn lemma_apply_apps_overlay(games: Map<Seq<char>, GameView>, apps: Seq<AppState>, card: Seq<char>)
    ensures
        apply_apps(games, apps, card) == games.union_prefer_right(
            apply_apps(Map::<Seq<char>, GameView>::empty(), apps, card),
        ),
        apply_apps(Map::<Seq<char>, GameView>::empty(), apps, card).dom() == app_ids(apps),
        forall|k: Seq<char>| #[trigger] apply_apps(Map::<Seq<char>, GameView>::empty(), apps, card).contains_key(k)
            ==> apply_apps(Map::<Seq<char>, GameView>::empty(), apps, card)[k].card == card,
    decreases apps.len(),
{
    let e = Map::<Seq<char>, GameView>::empty();
    if apps.len() == 0 {
        assert(apply_apps(games, apps, card) =~= games.union_prefer_right(e));
        assert(app_ids(apps) =~= Set::<Seq<char>>::empty());
        assert(e.dom() =~= Set::<Seq<char>>::empty());
    } else {
        let front = apps.drop_last();
        lemma_apply_apps_overlay(games, front, card);
        assert(apply_apps(games, apps, card) =~= games.union_prefer_right(apply_apps(e, apps, card)));
        assert forall|k: Seq<char>| #[trigger] app_ids(apps).contains(k) <==> app_ids(front).contains(k)
            || k == apps.last().appid@ by {
            if app_ids(apps).contains(k) && k != apps.last().appid@ {
                let j = choose|j: int| 0 <= j < apps.len() && #[trigger] apps[j].appid@ == k;
                assert(front[j].appid@ == k);
            }
            if app_ids(front).contains(k) {
                let j = choose|j: int| 0 <= j < front.len() && #[trigger] front[j].appid@ == k;
                assert(apps[j].appid@ == k);
            }
            if k == apps.last().appid@ {
                assert(apps[apps.len() - 1].appid@ == k);
            }
        }
        assert(apply_apps(e, apps, card).dom() =~= app_ids(apps));
    }
}

/// After a scan of `card`, its games are those it had and those the scan found.
pub proof fn lemma_scan_adds_games(v: InventoryView, card: Seq<char>, label: Seq<char>, apps: Seq<AppState>)
    ensures
        card_games(after_scan(v, card, label, apps), card) == card_games(v, card) + app_ids(apps),
{
    lemma_apply_apps_overlay(v.games, apps, card);
    let w = after_scan(v, card, label, apps);
    assert(card_games(w, card) =~= card_games(v, card) + app_ids(apps));
}

/// Replaying scans of one card into an empty inventory, in any order, gives
/// the card exactly the union of the app ids that the scans found.
pub proof fn law_replay_union(scans: Seq<LibraryScan>, card: Seq<char>)
    requires
        scans.len() > 0,
        forall|i: int| 0 <= i < scans.len() ==> (#[trigger] scans[i]).contentid@ == card,
    ensures
        replay(empty_inventory(), scans).cards.contains_key(card),
        card_games(replay(empty_inventory(), scans), card) == scanned_ids(scans),
    decreases scans.len(),
{
    let s = scans.last();
    let front = scans.drop_last();
    let before = replay(empty_inventory(), front);
    lemma_scan_adds_games(before, card, s.label@, s.apps@);
    assert(s.contentid@ == card);
    if front.len() == 0 {
        assert(card_games(before, card) =~= Set::<Seq<char>>::empty());
    } else {
        assert forall|i: int| 0 <= i < front.len() implies (#[trigger] front[i]).contentid@ == card by {
            assert(front[i] == scans[i]);
        }
        law_replay_union(front, card);
    }
    assert forall|k: Seq<char>| #[trigger] scanned_ids(scans).contains(k)
        <==> scanned_ids(front).contains(k) || app_ids(s.apps@).contains(k) by {
        if scanned_ids(scans).contains(k) {
            let (i, j) = choose|i: int, j: int|
                0 <= i < scans.len() && 0 <= j < scans[i].apps.len()
                    && #[trigger] scans[i].apps@[j].appid@ == k;
            if i < front.len() {
                assert(front[i].apps@[j].appid@ == k);
            } else {
                assert(s.apps@[j].appid@ == k);
            }
        }
        if scanned_ids(front).contains(k) {
            let (i, j) = choose|i: int, j: int|
                0 <= i < front.len() && 0 <= j < front[i].apps.len()
                    && #[trigger] front[i].apps@[j].appid@ == k;
            assert(scans[i].apps@[j].appid@ == k);
        }
        if app_ids(s.apps@).contains(k) {
            let j = choose|j: int| 0 <= j < s.apps@.len() && #[trigger] s.apps@[j].appid@ == k;
            assert(scans[scans.len() - 1].apps@[j].appid@ == k);
        }
    }
    assert(card_games(replay(empty_inventory(), scans), card) =~= scanned_ids(scans));
}

/// A scan that names its card and its apps keeps the inventory valid, and
/// afterwards each game is in the set of exactly the card it refers to.
pub proof fn law_scan_keeps_valid(v: InventoryView, card: Seq<char>, label: Seq<char>, apps: Seq<AppState>)
    requires
        v.valid(),
        card.len() > 0,
        forall|j: int| 0 <= j < apps.len() ==> (#[trigger] apps[j]).appid@.len() > 0,
    ensures
        after_scan(v, card, label, apps).valid(),
        forall|g: Seq<char>, c: Seq<char>|
            #[trigger] card_games(after_scan(v, card, label, apps), c).contains(g)
                <==> after_scan(v, card, label, apps).games.contains_key(g)
                && after_scan(v, card, label, apps).games[g].card == c,
{
    lemma_apply_apps_overlay(v.games, apps, card);
    let w = after_scan(v, card, label, apps);
    let e = Map::<Seq<char>, GameView>::empty();
    assert forall|k: Seq<char>| #[trigger] w.games.contains_key(k)
        implies k.len() > 0 && w.cards.contains_key(w.games[k].card) by {
        if apply_apps(e, apps, card).contains_key(k) {
            assert(app_ids(apps).contains(k));
            let j = choose|j: int| 0 <= j < apps.len() && #[trigger] apps[j].appid@ == k;
            assert(apps[j].appid@.len() > 0);
        } else {
            assert(v.games.contains_key(k));
        }
    }
}

/// A rename shows in the card's name, and a later scan of the card, whatever
/// its label, does not undo it.
pub proof fn law_rename_survives_scan(
    v: InventoryView,
    uid: Seq<char>,
    name: Seq<char>,
    label: Seq<char>,
    apps: Seq<AppState>,
)
    requires
        v.cards.contains_key(uid),
    ensures
        with_name(v, uid, name).cards[uid].name == name,
        after_scan(with_name(v, uid, name), uid, label, apps).cards[uid].name == name,
{
}

/// At one state of the store, a game's card is `c` exactly when `c` is a card
/// whose games include it.
pub proof fn law_card_for_game_iff_listed(v: InventoryView, g: Seq<char>, c: Seq<char>)
    requires
        v.valid(),
    ensures
        (v.games.contains_key(g) && v.games[g].card == c) <==> (v.cards.contains_key(c)
            && card_games(v, c).contains(g)),
{
}

/// Reconciling the same scan twice gives the same inventory as doing it once.
pub proof fn law_scan_idempotent(v: InventoryView, card: Seq<char>, label: Seq<char>, apps: Seq<AppState>)
    ensures
        after_scan(after_scan(v, card, label, apps), card, label, apps) == after_scan(v, card, label, apps),
{
    let w = after_scan(v, card, label, apps);
    let e = Map::<Seq<char>, GameView>::empty();
    lemma_apply_apps_overlay(v.games, apps, card);
    lemma_apply_apps_overlay(w.games, apps, card);
    assert(w.games.union_prefer_right(apply_apps(e, apps, card)) =~= w.games);
    assert(after_scan(w, card, label, apps).cards =~= w.cards);
}

} // verus!
