//! The inventory store: cards and games held as two record lists with
//! uid-valued cross-references. A card's set of games is resolved from the
//! games' card references, so the two sides of the membership always agree.
use vstd::prelude::*;
use crate::keyed::{keyed, lemma_keyed_dom, lemma_keyed_index, lemma_keyed_push, lemma_keyed_update};

verus! {

/// What the store knows of one card.
pub struct CardView {
    pub name: Seq<char>,
    pub renamed: bool,
}

/// What the store knows of one game.
pub struct GameView {
    pub name: Seq<char>,
    pub size: u64,
    pub card: Seq<char>,
}

/// The store as two maps keyed by uid.
pub struct InventoryView {
    pub cards: Map<Seq<char>, CardView>,
    pub games: Map<Seq<char>, GameView>,
}

/// The uids of the games whose card reference is `card`.
pub open spec fn card_games(v: InventoryView, card: Seq<char>) -> Set<Seq<char>> {
    Set::new(|g: Seq<char>| v.games.contains_key(g) && v.games[g].card == card)
}

impl InventoryView {
    /// Uids are non-empty and every game refers to a known card.
    pub open spec fn valid(self) -> bool {
        &&& forall|k: Seq<char>| #[trigger] self.cards.contains_key(k) ==> k.len() > 0
        &&& forall|k: Seq<char>| #[trigger] self.games.contains_key(k)
            ==> k.len() > 0 && self.cards.contains_key(self.games[k].card)
    }
}

/// The store after a card is upserted from a scan: a new card takes the label,
/// a known card keeps a name that a user gave it and otherwise takes the label.
pub open spec fn with_card(v: InventoryView, uid: Seq<char>, label: Seq<char>) -> InventoryView {
    InventoryView {
        cards: v.cards.insert(
            uid,
            if v.cards.contains_key(uid) && v.cards[uid].renamed {
                v.cards[uid]
            } else {
                CardView { name: label, renamed: false }
            },
        ),
        games: v.games,
    }
}

/// The store after a game is upserted: name, size and card come from the arguments.
pub open spec fn with_game(
    v: InventoryView,
    uid: Seq<char>,
    name: Seq<char>,
    size: u64,
    card: Seq<char>,
) -> InventoryView {
    InventoryView {
        cards: v.cards,
        games: v.games.insert(uid, GameView { name, size, card }),
    }
}

/// The store after a user renames a card.
pub open spec fn with_name(v: InventoryView, uid: Seq<char>, name: Seq<char>) -> InventoryView {
    InventoryView {
        cards: v.cards.insert(uid, CardView { name, renamed: true }),
        games: v.games,
    }
}

/// A card as the queries hand it out, with the uids of its games.
pub struct Card {
    pub uid: String,
    pub name: String,
    pub games: Vec<String>,
}

/// A game as the queries hand it out.
pub struct Game {
    pub uid: String,
    pub name: String,
    pub size: u64,
    pub card: String,
}

/// A card together with its games, resolved from one state of the store.
pub struct CardWithGames {
    pub card: Card,
    pub games: Vec<Game>,
}

/// Why a query or a rename was refused.
#[derive(Debug, PartialEq, Eq, Structural)]
pub enum InventoryError {
    /// No card or game has the given uid.
    NotFound,
    /// A card cannot be given an empty name.
    EmptyName,
}

/// The strings' views, as a set.
pub open spec fn uid_set(v: Seq<String>) -> Set<Seq<char>> {
    Set::new(|k: Seq<char>| exists|j: int| 0 <= j < v.len() && #[trigger] v[j]@ == k)
}

/// The uids of a list of games, as a set.
pub open spec fn game_uid_set(v: Seq<Game>) -> Set<Seq<char>> {
    Set::new(|k: Seq<char>| exists|j: int| 0 <= j < v.len() && #[trigger] v[j].uid@ == k)
}

/// `c` shows the card of `v` with its uid: its name and the uids of its games.
pub open spec fn shows_card(v: InventoryView, c: Card) -> bool {
    &&& v.cards.contains_key(c.uid@)
    &&& c.name@ == v.cards[c.uid@].name
    &&& uid_set(c.games@) == card_games(v, c.uid@)
}

/// `g` shows the game of `v` with its uid.
pub open spec fn shows_game(v: InventoryView, g: Game) -> bool {
    &&& v.games.contains_key(g.uid@)
    &&& v.games[g.uid@] == GameView { name: g.name@, size: g.size, card: g.card@ }
}

/// `gs` lists exactly the games of card `card`, each once.
pub open spec fn lists_games_of(v: InventoryView, card: Seq<char>, gs: Seq<Game>) -> bool {
    &&& forall|j: int| 0 <= j < gs.len() ==> shows_game(v, #[trigger] gs[j]) && gs[j].card@ == card
    &&& game_uid_set(gs) == card_games(v, card)
    &&& forall|i: int, j: int| 0 <= i < j < gs.len() ==> gs[i].uid@ != gs[j].uid@
}

struct CardEntry {
    uid: String,
    name: String,
    renamed: bool,
}

struct GameEntry {
    uid: String,
    name: String,
    size: u64,
    card: String,
}

impl CardEntry {
    spec fn view(self) -> CardView {
        CardView { name: self.name@, renamed: self.renamed }
    }
}

impl GameEntry {
    spec fn view(self) -> GameView {
        GameView { name: self.name@, size: self.size, card: self.card@ }
    }
}

/// The store of every card ever seen and every game found on one.
pub struct Inventory {
    cards: Vec<CardEntry>,
    games: Vec<GameEntry>,
}

impl Inventory {
    spec fn card_keys(&self) -> Seq<Seq<char>> {
        self.cards@.map_values(|c: CardEntry| c.uid@)
    }

    spec fn card_vals(&self) -> Seq<CardView> {
        self.cards@.map_values(|c: CardEntry| c.view())
    }

    spec fn game_keys(&self) -> Seq<Seq<char>> {
        self.games@.map_values(|g: GameEntry| g.uid@)
    }

    spec fn game_vals(&self) -> Seq<GameView> {
        self.games@.map_values(|g: GameEntry| g.view())
    }

    pub closed spec fn view(&self) -> InventoryView {
        InventoryView {
            cards: keyed(self.card_keys(), self.card_vals()),
            games: keyed(self.game_keys(), self.game_vals()),
        }
    }

    /// Each uid is held once, and the view is valid.
    pub closed spec fn wf(&self) -> bool {
        &&& self.card_keys().no_duplicates()
        &&& self.game_keys().no_duplicates()
        &&& self@.valid()
    }

    /// A well-formed store has a valid view.
    pub proof fn lemma_wf_valid(&self)
        requires
            self.wf(),
        ensures
            self@.valid(),
    {
    }

    /// An empty store.
    pub fn new() -> (r: Inventory)
        ensures
            r.wf(),
            r@.cards == Map::<Seq<char>, CardView>::empty(),
            r@.games == Map::<Seq<char>, GameView>::empty(),
    {
        let r = Inventory { cards: Vec::new(), games: Vec::new() };
        assert(r.card_keys().len() == 0);
        assert(r.game_keys().len() == 0);
        r
    }

    fn find_card(&self, uid: &String) -> (r: Option<usize>)
        requires
            self.wf(),
        ensures
            match r {
                Some(i) => i < self.cards.len() && self.cards@[i as int].uid@ == uid@
                    && self@.cards.contains_key(uid@)
                    && self@.cards[uid@] == self.cards@[i as int].view(),
                None => !self@.cards.contains_key(uid@),
            },
    {
        let mut i: usize = 0;
        while i < self.cards.len()
            invariant
                self.wf(),
                i <= self.cards.len(),
                forall|j: int| 0 <= j < i ==> self.cards@[j].uid@ != uid@,
            decreases self.cards.len() - i,
        {
            if self.cards[i].uid == *uid {
                proof {
                    lemma_keyed_index(self.card_keys(), self.card_vals(), i as int);
                }
                return Some(i);
            }
            i += 1;
        }
        proof {
            lemma_keyed_dom(self.card_keys(), self.card_vals(), uid@);
            if self.card_keys().contains(uid@) {
                let j = choose|j: int| 0 <= j < self.card_keys().len() && self.card_keys()[j] == uid@;
                assert(self.cards@[j].uid@ == uid@);
            }
        }
        None
    }

    fn find_game(&self, uid: &String) -> (r: Option<usize>)
        requires
            self.wf(),
        ensures
            match r {
                Some(i) => i < self.games.len() && self.games@[i as int].uid@ == uid@
                    && self@.games.contains_key(uid@)
                    && self@.games[uid@] == self.games@[i as int].view(),
                None => !self@.games.contains_key(uid@),
            },
    {
        let mut i: usize = 0;
        while i < self.games.len()
            invariant
                self.wf(),
                i <= self.games.len(),
                forall|j: int| 0 <= j < i ==> self.games@[j].uid@ != uid@,
            decreases self.games.len() - i,
        {
            if self.games[i].uid == *uid {
                proof {
                    lemma_keyed_index(self.game_keys(), self.game_vals(), i as int);
                }
                return Some(i);
            }
            i += 1;
        }
        proof {
            lemma_keyed_dom(self.game_keys(), self.game_vals(), uid@);
            if self.game_keys().contains(uid@) {
                let j = choose|j: int| 0 <= j < self.game_keys().len() && self.game_keys()[j] == uid@;
                assert(self.games@[j].uid@ == uid@);
            }
        }
        None
    }

    /// The games of `card`, described through the record list.
    proof fn lemma_card_games_listed(&self, card: Seq<char>)
        requires
            self.wf(),
        ensures
            card_games(self@, card) == Set::new(
                |g: Seq<char>|
                    exists|j: int|
                        0 <= j < self.games.len() && #[trigger] self.games@[j].uid@ == g
                            && self.games@[j].card@ == card,
            ),
    {
        let listed = Set::new(
            |g: Seq<char>|
                exists|j: int|
                    0 <= j < self.games.len() && #[trigger] self.games@[j].uid@ == g
                        && self.games@[j].card@ == card,
        );
        assert forall|g: Seq<char>| card_games(self@, card).contains(g) <==> listed.contains(g) by {
            lemma_keyed_dom(self.game_keys(), self.game_vals(), g);
            if self.game_keys().contains(g) {
                let j = choose|j: int| 0 <= j < self.game_keys().len() && self.game_keys()[j] == g;
                lemma_keyed_index(self.game_keys(), self.game_vals(), j);
                assert(self.games@[j].uid@ == g);
            }
            if listed.contains(g) {
                let j = choose|j: int|
                    0 <= j < self.games.len() && #[trigger] self.games@[j].uid@ == g
                        && self.games@[j].card@ == card;
                assert(self.game_keys()[j] == g);
                lemma_keyed_index(self.game_keys(), self.game_vals(), j);
            }
        }
        assert(card_games(self@, card) =~= listed);
    }

    fn game_out(&self, i: usize) -> (r: Game)
        requires
            self.wf(),
            i < self.games.len(),
        ensures
            shows_game(self@, r),
            r.uid@ == self.games@[i as int].uid@,
            r.card@ == self.games@[i as int].card@,
    {
        proof {
            lemma_keyed_index(self.game_keys(), self.game_vals(), i as int);
        }
        let e = &self.games[i];
        Game { uid: e.uid.clone(), name: e.name.clone(), size: e.size, card: e.card.clone() }
    }

    fn games_on(&self, card: &String) -> (r: Vec<Game>)
        requires
            self.wf(),
        ensures
            lists_games_of(self@, card@, r@),
    {
        let mut out: Vec<Game> = Vec::new();
        let mut i: usize = 0;
        while i < self.games.len()
            invariant
                self.wf(),
                i <= self.games.len(),
                forall|j: int| 0 <= j < out.len() ==> shows_game(self@, #[trigger] out@[j]) && out@[j].card@ == card@,
                forall|a: int, b: int| 0 <= a < b < out.len() ==> out@[a].uid@ != out@[b].uid@,
                game_uid_set(out@) == Set::new(
                    |g: Seq<char>|
                        exists|j: int|
                            0 <= j < i && #[trigger] self.games@[j].uid@ == g
                                && self.games@[j].card@ == card@,
                ),
            decreases self.games.len() - i,
        {
            let ghost before = out@;
            let ghost seen = Set::new(
                |g: Seq<char>|
                    exists|j: int|
                        0 <= j < i && #[trigger] self.games@[j].uid@ == g
                            && self.games@[j].card@ == card@,
            );
            let ghost next = Set::new(
                |g: Seq<char>|
                    exists|j: int|
                        0 <= j < i + 1 && #[trigger] self.games@[j].uid@ == g
                            && self.games@[j].card@ == card@,
            );
            if self.games[i].card == *card {
                let g = self.game_out(i);
                proof {
                    assert forall|a: int| 0 <= a < before.len() implies before[a].uid@ != g.uid@ by {
                        assert(game_uid_set(before).contains(before[a].uid@));
                        assert(seen.contains(before[a].uid@));
                        if before[a].uid@ == g.uid@ {
                            let j = choose|j: int|
                                0 <= j < i && #[trigger] self.games@[j].uid@ == before[a].uid@
                                    && self.games@[j].card@ == card@;
                            assert(self.game_keys()[j] == self.game_keys()[i as int]);
                        }
                    }
                }
                out.push(g);
                proof {
                    assert forall|k: Seq<char>| game_uid_set(out@).contains(k) <==> next.contains(k) by {
                        if game_uid_set(out@).contains(k) {
                            let a = choose|a: int| 0 <= a < out@.len() && #[trigger] out@[a].uid@ == k;
                            if a < before.len() {
                                assert(out@[a] == before[a]);
                                assert(game_uid_set(before).contains(k));
                            }
                        }
                        if next.contains(k) {
                            let j = choose|j: int|
                                0 <= j < i + 1 && #[trigger] self.games@[j].uid@ == k
                                    && self.games@[j].card@ == card@;
                            if j < i {
                                assert(seen.contains(k));
                                let a = choose|a: int| 0 <= a < before.len() && #[trigger] before[a].uid@ == k;
                                assert(out@[a] == before[a]);
                            } else {
                                assert(out@[before.len() as int].uid@ == k);
                            }
                        }
                    }
                    assert(game_uid_set(out@) =~= next);
                }
            } else {
                proof {
                    assert forall|k: Seq<char>| seen.contains(k) <==> next.contains(k) by {
                        if next.contains(k) {
                            let j = choose|j: int|
                                0 <= j < i + 1 && #[trigger] self.games@[j].uid@ == k
                                    && self.games@[j].card@ == card@;
                            assert(j < i);
                        }
                    }
                    assert(seen =~= next);
                }
            }
            i += 1;
        }
        proof {
            self.lemma_card_games_listed(card@);
            assert(game_uid_set(out@) =~= card_games(self@, card@));
        }
        out
    }

    fn card_out(&self, i: usize) -> (r: Card)
        requires
            self.wf(),
            i < self.cards.len(),
        ensures
            shows_card(self@, r),
            r.uid@ == self.cards@[i as int].uid@,
    {
        proof {
            lemma_keyed_index(self.card_keys(), self.card_vals(), i as int);
        }
        let e = &self.cards[i];
        let gs = self.games_on(&e.uid);
        let mut ids: Vec<String> = Vec::new();
        let mut j: usize = 0;
        while j < gs.len()
            invariant
                j <= gs.len(),
                ids.len() == j,
                forall|a: int| 0 <= a < j ==> #[trigger] ids@[a]@ == gs@[a].uid@,
            decreases gs.len() - j,
        {
            ids.push(gs[j].uid.clone());
            j += 1;
        }
        assert(uid_set(ids@) =~= game_uid_set(gs@)) by {
            assert forall|k: Seq<char>| game_uid_set(gs@).contains(k) implies uid_set(ids@).contains(k) by {
                let a = choose|a: int| 0 <= a < gs@.len() && #[trigger] gs@[a].uid@ == k;
                assert(ids@[a]@ == k);
            }
        }
        Card { uid: e.uid.clone(), name: e.name.clone(), games: ids }
    }

    /// Upserts a card from a scan. A new card takes `label` as its name; a known
    /// card keeps a name that a user gave it, and otherwise takes `label`.
    pub fn add_card(&mut self, uid: String, label: String)
        requires
            old(self).wf(),
            uid@.len() > 0,
        ensures
            final(self).wf(),
            final(self)@ == with_card(old(self)@, uid@, label@),
    {
        match self.find_card(&uid) {
            Some(i) => {
                if !self.cards[i].renamed {
                    let ghost ks = self.card_keys();
                    let ghost vs = self.card_vals();
                    let e = CardEntry { uid, name: label, renamed: false };
                    let ghost ev = e.view();
                    self.cards.set(i, e);
                    proof {
                        assert(self.card_keys() =~= ks);
                        assert(self.card_vals() =~= vs.update(i as int, ev));
                        lemma_keyed_update(ks, vs, i as int, ev);
                    }
                }
                proof {
                    assert(self@.cards =~= with_card(old(self)@, uid@, label@).cards);
                }
            },
            None => {
                let ghost ks = self.card_keys();
                let ghost vs = self.card_vals();
                proof {
                    lemma_keyed_dom(ks, vs, uid@);
                }
                let e = CardEntry { uid, name: label, renamed: false };
                let ghost ev = e.view();
                let ghost k = e.uid@;
                self.cards.push(e);
                proof {
                    assert(self.card_keys() =~= ks.push(k));
                    assert(self.card_vals() =~= vs.push(ev));
                    lemma_keyed_push(ks, vs, k, ev);
                    assert forall|a: int, b: int| 0 <= a < b < ks.push(k).len()
                        implies ks.push(k)[a] != ks.push(k)[b] by {
                        if b == ks.len() {
                            assert(ks[a] == ks.push(k)[a]);
                        }
                    }
                }
            },
        }
        proof {
            let v = self@;
            assert(v.cards =~= with_card(old(self)@, uid@, label@).cards);
            assert forall|k: Seq<char>| #[trigger] v.games.contains_key(k) implies k.len() > 0
                && v.cards.contains_key(v.games[k].card) by {
                assert(old(self)@.games.contains_key(k));
            }
        }
    }

    /// Upserts a game: its name, size and card become the given ones. Moving a
    /// game to another card takes it out of the old card's set at once, since
    /// a card's games are those that refer to it.
    pub fn add_game(&mut self, uid: String, name: String, size: u64, card: String)
        requires
            old(self).wf(),
            uid@.len() > 0,
            old(self)@.cards.contains_key(card@),
        ensures
            final(self).wf(),
            final(self)@ == with_game(old(self)@, uid@, name@, size, card@),
    {
        let ghost ks = self.game_keys();
        let ghost vs = self.game_vals();
        match self.find_game(&uid) {
            Some(i) => {
                let e = GameEntry { uid, name, size, card };
                let ghost ev = e.view();
                self.games.set(i, e);
                proof {
                    assert(self.game_keys() =~= ks);
                    assert(self.game_vals() =~= vs.update(i as int, ev));
                    lemma_keyed_update(ks, vs, i as int, ev);
                }
            },
            None => {
                proof {
                    lemma_keyed_dom(ks, vs, uid@);
                }
                let e = GameEntry { uid, name, size, card };
                let ghost ev = e.view();
                let ghost k = e.uid@;
                self.games.push(e);
                proof {
                    assert(self.game_keys() =~= ks.push(k));
                    assert(self.game_vals() =~= vs.push(ev));
                    lemma_keyed_push(ks, vs, k, ev);
                    assert forall|a: int, b: int| 0 <= a < b < ks.push(k).len()
                        implies ks.push(k)[a] != ks.push(k)[b] by {
                        if b == ks.len() {
                            assert(ks[a] == ks.push(k)[a]);
                        }
                    }
                }
            },
        }
        proof {
            assert(self@.games =~= with_game(old(self)@, uid@, name@, size, card@).games);
        }
    }

    /// Renames a card at a user's request and marks it renamed, so that later
    /// scans keep the name. An empty name is refused first; then an unknown uid.
    /// A refused rename leaves the store as it was.
    pub fn set_card_name(&mut self, uid: &String, name: String) -> (r: Result<(), InventoryError>)
        requires
            old(self).wf(),
        ensures
            final(self).wf(),
            name@.len() == 0 ==> r == Err::<(), InventoryError>(InventoryError::EmptyName),
            name@.len() > 0 && !old(self)@.cards.contains_key(uid@)
                ==> r == Err::<(), InventoryError>(InventoryError::NotFound),
            r is Ok <==> name@.len() > 0 && old(self)@.cards.contains_key(uid@),
            r is Ok ==> final(self)@ == with_name(old(self)@, uid@, name@),
            r is Err ==> final(self)@ == old(self)@,
    {
        if name.as_str().is_empty() {
            return Err(InventoryError::EmptyName);
        }
        match self.find_card(uid) {
            None => Err(InventoryError::NotFound),
            Some(i) => {
                let ghost ks = self.card_keys();
                let ghost vs = self.card_vals();
                let e = CardEntry { uid: uid.clone(), name, renamed: true };
                let ghost ev = e.view();
                self.cards.set(i, e);
                proof {
                    assert(self.card_keys() =~= ks);
                    assert(self.card_vals() =~= vs.update(i as int, ev));
                    lemma_keyed_update(ks, vs, i as int, ev);
                    assert(self@.cards =~= with_name(old(self)@, uid@, ev.name).cards);
                }
                Ok(())
            },
        }
    }

    /// The card with uid `uid`, if the store knows it.
    pub fn get_card(&self, uid: &String) -> (r: Option<Card>)
        requires
            self.wf(),
        ensures
            r is None <==> !self@.cards.contains_key(uid@),
            r matches Some(c) ==> c.uid@ == uid@ && shows_card(self@, c),
    {
        match self.find_card(uid) {
            None => None,
            Some(i) => Some(self.card_out(i)),
        }
    }

    /// The game with uid `uid`, if the store knows it.
    pub fn get_game(&self, uid: &String) -> (r: Option<Game>)
        requires
            self.wf(),
        ensures
            r is None <==> !self@.games.contains_key(uid@),
            r matches Some(g) ==> g.uid@ == uid@ && shows_game(self@, g),
    {
        match self.find_game(uid) {
            None => None,
            Some(i) => Some(self.game_out(i)),
        }
    }

    /// Every card of the store, each once.
    pub fn list_cards(&self) -> (r: Vec<Card>)
        requires
            self.wf(),
        ensures
            forall|j: int| 0 <= j < r.len() ==> shows_card(self@, #[trigger] r@[j]),
            forall|k: Seq<char>| self@.cards.contains_key(k)
                <==> exists|j: int| 0 <= j < r.len() && #[trigger] r@[j].uid@ == k,
            forall|a: int, b: int| 0 <= a < b < r.len() ==> r@[a].uid@ != r@[b].uid@,
    {
        let mut out: Vec<Card> = Vec::new();
        let mut i: usize = 0;
        while i < self.cards.len()
            invariant
                self.wf(),
                i <= self.cards.len(),
                out.len() == i,
                forall|j: int| 0 <= j < i ==> shows_card(self@, #[trigger] out@[j])
                    && out@[j].uid@ == self.cards@[j].uid@,
            decreases self.cards.len() - i,
        {
            out.push(self.card_out(i));
            i += 1;
        }
        proof {
            let ks = self.card_keys();
            assert forall|k: Seq<char>| self@.cards.contains_key(k)
                implies exists|j: int| 0 <= j < out.len() && #[trigger] out@[j].uid@ == k by {
                lemma_keyed_dom(ks, self.card_vals(), k);
                let j = choose|j: int| 0 <= j < ks.len() && ks[j] == k;
                assert(out@[j].uid@ == k);
            }
            assert forall|a: int, b: int| 0 <= a < b < out.len() implies out@[a].uid@ != out@[b].uid@ by {
                assert(ks[a] != ks[b]);
            }
        }
        out
    }

    /// Every game of the store, each once.
    pub fn list_games(&self) -> (r: Vec<Game>)
        requires
            self.wf(),
        ensures
            forall|j: int| 0 <= j < r.len() ==> shows_game(self@, #[trigger] r@[j]),
            forall|k: Seq<char>| self@.games.contains_key(k)
                <==> exists|j: int| 0 <= j < r.len() && #[trigger] r@[j].uid@ == k,
            forall|a: int, b: int| 0 <= a < b < r.len() ==> r@[a].uid@ != r@[b].uid@,
    {
        let mut out: Vec<Game> = Vec::new();
        let mut i: usize = 0;
        while i < self.games.len()
            invariant
                self.wf(),
                i <= self.games.len(),
                out.len() == i,
                forall|j: int| 0 <= j < i ==> shows_game(self@, #[trigger] out@[j])
                    && out@[j].uid@ == self.games@[j].uid@,
            decreases self.games.len() - i,
        {
            out.push(self.game_out(i));
            i += 1;
        }
        proof {
            let ks = self.game_keys();
            assert forall|k: Seq<char>| self@.games.contains_key(k)
                implies exists|j: int| 0 <= j < out.len() && #[trigger] out@[j].uid@ == k by {
                lemma_keyed_dom(ks, self.game_vals(), k);
                let j = choose|j: int| 0 <= j < ks.len() && ks[j] == k;
                assert(out@[j].uid@ == k);
            }
            assert forall|a: int, b: int| 0 <= a < b < out.len() implies out@[a].uid@ != out@[b].uid@ by {
                assert(ks[a] != ks[b]);
            }
        }
        out
    }

    /// The games on card `uid`; `NotFound` exactly when the card is unknown.
    pub fn list_games_on_card(&self, uid: &String) -> (r: Result<Vec<Game>, InventoryError>)
        requires
            self.wf(),
        ensures
            r is Err <==> !self@.cards.contains_key(uid@),
            r matches Err(e) ==> e == InventoryError::NotFound,
            r matches Ok(gs) ==> lists_games_of(self@, uid@, gs@),
    {
        match self.find_card(uid) {
            None => Err(InventoryError::NotFound),
            Some(_) => Ok(self.games_on(uid)),
        }
    }

    /// The card that holds game `uid`; `NotFound` exactly when the game is unknown.
    pub fn get_card_for_game(&self, uid: &String) -> (r: Result<Card, InventoryError>)
        requires
            self.wf(),
        ensures
            r is Err <==> !self@.games.contains_key(uid@),
            r matches Err(e) ==> e == InventoryError::NotFound,
            r matches Ok(c) ==> c.uid@ == self@.games[uid@].card && shows_card(self@, c),
    {
        match self.find_game(uid) {
            None => Err(InventoryError::NotFound),
            Some(i) => {
                match self.find_card(&self.games[i].card) {
                    Some(j) => Ok(self.card_out(j)),
                    None => Err(InventoryError::NotFound),
                }
            },
        }
    }

    /// Every card paired with its games, all read from this one state.
    pub fn list_cards_with_games(&self) -> (r: Vec<CardWithGames>)
        requires
            self.wf(),
        ensures
            forall|j: int| 0 <= j < r.len() ==> shows_card(self@, #[trigger] r@[j].card)
                && lists_games_of(self@, r@[j].card.uid@, r@[j].games@),
            forall|k: Seq<char>| self@.cards.contains_key(k)
                <==> exists|j: int| 0 <= j < r.len() && #[trigger] r@[j].card.uid@ == k,
            forall|a: int, b: int| 0 <= a < b < r.len() ==> r@[a].card.uid@ != r@[b].card.uid@,
    {
        let mut out: Vec<CardWithGames> = Vec::new();
        let mut i: usize = 0;
        while i < self.cards.len()
            invariant
                self.wf(),
                i <= self.cards.len(),
                out.len() == i,
                forall|j: int| 0 <= j < i ==> shows_card(self@, #[trigger] out@[j].card)
                    && lists_games_of(self@, out@[j].card.uid@, out@[j].games@)
                    && out@[j].card.uid@ == self.cards@[j].uid@,
            decreases self.cards.len() - i,
        {
            let card = self.card_out(i);
            let games = self.games_on(&card.uid);
            out.push(CardWithGames { card, games });
            i += 1;
        }
        proof {
            let ks = self.card_keys();
            assert forall|k: Seq<char>| self@.cards.contains_key(k)
                implies exists|j: int| 0 <= j < out.len() && #[trigger] out@[j].card.uid@ == k by {
                lemma_keyed_dom(ks, self.card_vals(), k);
                let j = choose|j: int| 0 <= j < ks.len() && ks[j] == k;
                assert(out@[j].card.uid@ == k);
            }
            assert forall|a: int, b: int| 0 <= a < b < out.len()
                implies out@[a].card.uid@ != out@[b].card.uid@ by {
                assert(ks[a] != ks[b]);
            }
        }
        out
    }
}

} // verus!
