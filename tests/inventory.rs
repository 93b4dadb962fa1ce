use microsdeck::descriptor::{
    assemble_scan, is_app_descriptor, select_app_descriptors, AppState, LibraryFolder,
    RootDescriptor, ScanOutcome,
};
use microsdeck::inventory::{Card, Game, Inventory, InventoryError};
use microsdeck::reconcile::{reconcile, triggers_scan, DeviceAction, Tick};

fn s(x: &str) -> String {
    x.to_string()
}

fn app(id: &str, name: &str, size: u64) -> Option<AppState> {
    Some(AppState { appid: s(id), name: s(name), size_on_disk: size })
}

fn root(contentid: &str, label: &str) -> RootDescriptor {
    RootDescriptor::Parsed(LibraryFolder { contentid: s(contentid), label: s(label) })
}

fn sorted_games(c: &Card) -> Vec<String> {
    let mut v = c.games.clone();
    v.sort();
    v
}

fn game_ids(gs: &[Game]) -> Vec<String> {
    let mut v: Vec<String> = gs.iter().map(|g| g.uid.clone()).collect();
    v.sort();
    v
}

fn card_summary(inv: &Inventory) -> Vec<(String, String, Vec<String>)> {
    let mut v: Vec<(String, String, Vec<String>)> = inv
        .list_cards()
        .iter()
        .map(|c| (c.uid.clone(), c.name.clone(), sorted_games(c)))
        .collect();
    v.sort();
    v
}

fn blue_card_with_foo() -> Inventory {
    let mut inv = Inventory::new();
    let t = reconcile(&mut inv, root("C1", "Blue"), Some(vec![app("12", "Foo", 100)]));
    assert_eq!(t, Tick::Reconciled);
    inv
}

fn red_card_swapped_in() -> Inventory {
    let mut inv = blue_card_with_foo();
    let t = reconcile(&mut inv, root("C2", "Red"), Some(vec![app("99", "Bar", 50)]));
    assert_eq!(t, Tick::Reconciled);
    inv
}

#[test]
fn fresh_boot_with_card() {
    let inv = blue_card_with_foo();
    assert_eq!(card_summary(&inv), vec![(s("C1"), s("Blue"), vec![s("12")])]);
    let games = inv.list_games();
    assert_eq!(games.len(), 1);
    assert_eq!(games[0].uid, "12");
    assert_eq!(games[0].name, "Foo");
    assert_eq!(games[0].size, 100);
    assert_eq!(games[0].card, "C1");
}

#[test]
fn rename_persists_across_rescan() {
    let mut inv = blue_card_with_foo();
    assert_eq!(inv.set_card_name(&s("C1"), s("Mine")), Ok(()));
    let t = reconcile(&mut inv, root("C1", "Blue"), Some(vec![app("12", "Foo", 100)]));
    assert_eq!(t, Tick::Reconciled);
    assert_eq!(card_summary(&inv), vec![(s("C1"), s("Mine"), vec![s("12")])]);
}

#[test]
fn card_swap_keeps_both_cards() {
    let inv = red_card_swapped_in();
    assert_eq!(
        card_summary(&inv),
        vec![(s("C1"), s("Blue"), vec![s("12")]), (s("C2"), s("Red"), vec![s("99")])]
    );
    assert_eq!(inv.get_game(&s("12")).unwrap().card, "C1");
    assert_eq!(inv.get_game(&s("99")).unwrap().card, "C2");
    let on_c1 = inv.list_games_on_card(&s("C1")).unwrap();
    assert_eq!(game_ids(&on_c1), vec![s("12")]);
}

#[test]
fn game_moved_between_cards() {
    let mut inv = red_card_swapped_in();
    let t = reconcile(
        &mut inv,
        root("C1", "Blue"),
        Some(vec![app("12", "Foo", 100), app("99", "Bar", 50)]),
    );
    assert_eq!(t, Tick::Reconciled);
    assert_eq!(inv.get_card_for_game(&s("99")).unwrap().uid, "C1");
    assert!(game_ids(&inv.list_games_on_card(&s("C2")).unwrap()).is_empty());
    assert_eq!(game_ids(&inv.list_games_on_card(&s("C1")).unwrap()), vec![s("12"), s("99")]);
}

#[test]
fn corrupt_descriptor_tolerated() {
    let mut inv = Inventory::new();
    let apps = vec![app("1", "A", 1), app("2", "B", 2), None, app("4", "D", 4), app("5", "E", 5)];
    assert_eq!(reconcile(&mut inv, root("C1", "Blue"), Some(apps)), Tick::Reconciled);
    let c = inv.get_card(&s("C1")).unwrap();
    assert_eq!(sorted_games(&c), vec![s("1"), s("2"), s("4"), s("5")]);
    let t = reconcile(&mut inv, root("C1", "Blue"), Some(vec![app("3", "C", 3)]));
    assert_eq!(t, Tick::Reconciled);
    assert_eq!(inv.list_games().len(), 5);
}

#[test]
fn unknown_card_rename() {
    let mut inv = blue_card_with_foo();
    let before = card_summary(&inv);
    assert_eq!(inv.set_card_name(&s("does-not-exist"), s("x")), Err(InventoryError::NotFound));
    assert_eq!(card_summary(&inv), before);
}

#[test]
fn empty_name_rejected() {
    let mut inv = blue_card_with_foo();
    let before = card_summary(&inv);
    assert_eq!(inv.set_card_name(&s("C1"), s("")), Err(InventoryError::EmptyName));
    assert_eq!(card_summary(&inv), before);
}

#[test]
fn missing_root_descriptor_is_not_a_card() {
    let mut inv = blue_card_with_foo();
    let before = card_summary(&inv);
    let t = reconcile(&mut inv, RootDescriptor::Missing, Some(vec![app("7", "G", 7)]));
    assert_eq!(t, Tick::NotACard);
    assert_eq!(card_summary(&inv), before);
    assert_eq!(inv.list_games().len(), 1);
}

#[test]
fn empty_app_folder_gives_empty_card() {
    let mut inv = Inventory::new();
    assert_eq!(reconcile(&mut inv, root("C9", "Green"), Some(vec![])), Tick::Reconciled);
    assert_eq!(card_summary(&inv), vec![(s("C9"), s("Green"), vec![])]);
    assert!(inv.list_games_on_card(&s("C9")).unwrap().is_empty());
}

#[test]
fn failed_scans_change_nothing() {
    let mut inv = blue_card_with_foo();
    let before = card_summary(&inv);
    assert_eq!(reconcile(&mut inv, RootDescriptor::Unparsable, Some(vec![])), Tick::IoError);
    assert_eq!(reconcile(&mut inv, root("", "Blue"), Some(vec![])), Tick::IoError);
    assert_eq!(reconcile(&mut inv, root("C5", ""), Some(vec![])), Tick::IoError);
    assert_eq!(reconcile(&mut inv, root("C5", "Pink"), None), Tick::IoError);
    assert_eq!(card_summary(&inv), before);
}

#[test]
fn replay_in_any_order_gives_union() {
    let scans = vec![
        vec![app("1", "A", 1), app("2", "B", 2)],
        vec![app("2", "B", 3)],
        vec![app("3", "C", 4)],
    ];
    for order in [[0usize, 1, 2], [2, 1, 0], [1, 2, 0]] {
        let mut inv = Inventory::new();
        for i in order {
            reconcile(&mut inv, root("C1", "Blue"), Some(scans[i].clone()));
        }
        let c = inv.get_card(&s("C1")).unwrap();
        assert_eq!(sorted_games(&c), vec![s("1"), s("2"), s("3")]);
    }
}

#[test]
fn rescan_is_idempotent() {
    let mut inv = red_card_swapped_in();
    let once = card_summary(&inv);
    let t = reconcile(&mut inv, root("C2", "Red"), Some(vec![app("99", "Bar", 50)]));
    assert_eq!(t, Tick::Reconciled);
    assert_eq!(card_summary(&inv), once);
    assert_eq!(inv.list_games().len(), 2);
}

#[test]
fn rescan_refreshes_game_fields() {
    let mut inv = blue_card_with_foo();
    reconcile(&mut inv, root("C1", "Blue"), Some(vec![app("12", "Foo II", 250)]));
    let g = inv.get_game(&s("12")).unwrap();
    assert_eq!(g.name, "Foo II");
    assert_eq!(g.size, 250);
}

#[test]
fn unrenamed_card_takes_new_label() {
    let mut inv = blue_card_with_foo();
    reconcile(&mut inv, root("C1", "Navy"), Some(vec![]));
    assert_eq!(inv.get_card(&s("C1")).unwrap().name, "Navy");
}

#[test]
fn card_for_game_matches_listing() {
    let inv = red_card_swapped_in();
    for g in ["12", "99"] {
        let c = inv.get_card_for_game(&s(g)).unwrap();
        let listed = game_ids(&inv.list_games_on_card(&c.uid).unwrap());
        assert!(listed.contains(&s(g)));
    }
    assert_eq!(inv.get_card_for_game(&s("5")).err(), Some(InventoryError::NotFound));
    assert_eq!(inv.list_games_on_card(&s("C7")).err(), Some(InventoryError::NotFound));
    assert!(inv.get_card(&s("C7")).is_none());
    assert!(inv.get_game(&s("5")).is_none());
}

#[test]
fn cards_with_games_snapshot() {
    let inv = red_card_swapped_in();
    let mut rows: Vec<(String, Vec<String>)> = inv
        .list_cards_with_games()
        .iter()
        .map(|r| (r.card.uid.clone(), game_ids(&r.games)))
        .collect();
    rows.sort();
    assert_eq!(rows, vec![(s("C1"), vec![s("12")]), (s("C2"), vec![s("99")])]);
}

#[test]
fn descriptor_names() {
    assert!(is_app_descriptor(&s("appmanifest_12.acf")));
    assert!(!is_app_descriptor(&s("appmanifest_12.acf.tmp")));
    assert!(!is_app_descriptor(&s("acf")));
    assert!(!is_app_descriptor(&s("libraryfolder.vdf")));
    let names = vec![s("a.acf"), s("b.txt"), s("c.acf"), s("d")];
    assert_eq!(select_app_descriptors(&names), vec![s("a.acf"), s("c.acf")]);
    assert!(select_app_descriptors(&vec![]).is_empty());
}

#[test]
fn scan_skips_apps_without_id() {
    let out = assemble_scan(root("C1", "Blue"), Some(vec![app("", "X", 1), app("8", "Y", 2)]));
    match out {
        ScanOutcome::Library(scan) => {
            assert_eq!(scan.contentid, "C1");
            assert_eq!(scan.label, "Blue");
            assert_eq!(scan.apps.len(), 1);
            assert_eq!(scan.apps[0].appid, "8");
        }
        _ => panic!("expected a library scan"),
    }
    assert!(matches!(assemble_scan(RootDescriptor::Missing, None), ScanOutcome::NotACard));
}

#[test]
fn only_bind_triggers_scan() {
    assert!(triggers_scan(&DeviceAction::Bind));
    for a in [DeviceAction::Add, DeviceAction::Remove, DeviceAction::Change, DeviceAction::Unbind, DeviceAction::Other] {
        assert!(!triggers_scan(&a));
    }
}
