use vstd::prelude::*;

use crate::building::{Building, numbers_of, views_of_strings};
use crate::deck::{Decks, DeckSet};
use crate::setup::{
    deal_initial, filter_ingame, filter_setup, is_ingame_match, is_setup_match,
    lemma_ingame_pool_elements, lemma_setup_pool_membership, round_3_count, round_4_count,
    round_5_count, shuffle_buildings, spec_ingame_pool, spec_initial_cards, spec_is_dealt_id,
    spec_round_3_count, spec_round_4_count, spec_round_5_count, spec_setup_pool, take_range,
};

verus! {

/// One full randomized setup: the three initial rows, and the card rows for
/// the later rounds, each present only when its draw count is positive
/// (round 4 deals one row to every player, possibly empty).
pub struct Setup {
    pub initial_rows: Vec<Vec<Building>>,
    pub round_3_row: Option<Vec<Building>>,
    pub round_4_rows: Vec<Vec<Building>>,
    pub round_5_row: Option<Vec<Building>>,
}

/// No card of the chosen deck consumed by the initial setup shares its
/// identifier with `c`.
pub open spec fn no_initial_reuse(st: Setup, main_deck: Decks, c: Building) -> bool {
    forall|j: int, k: int|
        0 <= j < st.initial_rows@.len() && 0 <= k < (#[trigger] st.initial_rows@[j])@.len()
            ==> {
            let d = #[trigger] st.initial_rows@[j]@[k];
            d.deck == main_deck ==> c.number@ != d.number@
        }
}

/// All rows of a round, one after another.
pub open spec fn rows_concat(rows: Seq<Vec<Building>>) -> Seq<Building>
    decreases rows.len(),
{
    if rows.len() == 0 {
        Seq::<Building>::empty()
    } else {
        rows_concat(rows.drop_last()) + rows.last()@
    }
}

/// The six "B" cards of the initial rows, in dealing order.
pub open spec fn spec_initial_b_cards(st: Setup) -> Seq<Building> {
    seq![
        st.initial_rows@[0]@[0],
        st.initial_rows@[0]@[1],
        st.initial_rows@[1]@[0],
        st.initial_rows@[1]@[1],
        st.initial_rows@[2]@[0],
        st.initial_rows@[2]@[1],
    ]
}

/// The nine "A" cards of the initial rows, in dealing order.
pub open spec fn spec_initial_a_cards(st: Setup) -> Seq<Building> {
    seq![
        st.initial_rows@[0]@[2],
        st.initial_rows@[0]@[3],
        st.initial_rows@[0]@[4],
        st.initial_rows@[1]@[2],
        st.initial_rows@[1]@[3],
        st.initial_rows@[1]@[4],
        st.initial_rows@[2]@[2],
        st.initial_rows@[2]@[3],
        st.initial_rows@[2]@[4],
    ]
}

/// The three initial rows: five cards each, the first two from the "B"
/// setup pool and the last three from the "A" setup pool of the active
/// decks, and no pool card dealt more often than the pool holds it.
pub open spec fn initial_rows_wf(st: Setup, all: Seq<Building>, decks: DeckSet) -> bool {
    &&& st.initial_rows@.len() == 3
    &&& forall|j: int| 0 <= j < 3 ==> (#[trigger] st.initial_rows@[j])@.len() == 5
    &&& forall|j: int, k: int|
        0 <= j < 3 && 0 <= k < 2 ==> {
            let b = #[trigger] st.initial_rows@[j]@[k];
            all.contains(b) && is_setup_match(b, decks, "B"@)
        }
    &&& forall|j: int, k: int|
        0 <= j < 3 && 2 <= k < 5 ==> {
            let b = #[trigger] st.initial_rows@[j]@[k];
            all.contains(b) && is_setup_match(b, decks, "A"@)
        }
    &&& spec_initial_b_cards(st).to_multiset().subset_of(
        spec_setup_pool(all, decks, "B"@).to_multiset(),
    )
    &&& spec_initial_a_cards(st).to_multiset().subset_of(
        spec_setup_pool(all, decks, "A"@).to_multiset(),
    )
}

/// The round 3 row: present exactly when the draw count is positive, holding
/// that many "A" cards of the chosen deck, none reusing an identifier dealt
/// from that deck during the initial setup.
pub open spec fn round_3_wf(st: Setup, all: Seq<Building>, players: u32, main_deck: Decks) -> bool {
    match st.round_3_row {
        Some(row) => spec_round_3_count(players) > 0 && row@.len() == spec_round_3_count(players)
            && row@.to_multiset().subset_of(
            spec_ingame_pool(all, main_deck, "A"@, Seq::<Seq<char>>::empty()).to_multiset(),
        ) && forall|k: int|
            0 <= k < row@.len() ==> {
                let c = #[trigger] row@[k];
                all.contains(c) && c.deck == main_deck && c.abc@ == "A"@ && no_initial_reuse(
                    st,
                    main_deck,
                    c,
                )
            },
        None => spec_round_3_count(players) == 0,
    }
}

/// The round 4 rows: one per player, each with the round's draw count of "C"
/// cards of the chosen deck; a zero draw count skips the round entirely, so
/// no rows exist at all.
pub open spec fn round_4_wf(st: Setup, all: Seq<Building>, players: u32, main_deck: Decks) -> bool {
    &&& st.round_4_rows@.len() == (if spec_round_4_count(players) == 0 {
        0int
    } else {
        players as int
    })
    &&& forall|p: int|
        0 <= p < st.round_4_rows@.len() ==> (#[trigger] st.round_4_rows@[p])@.len()
            == spec_round_4_count(players)
    &&& forall|p: int, k: int|
        0 <= p < st.round_4_rows@.len() && 0 <= k < (#[trigger] st.round_4_rows@[p])@.len() ==> {
            let c = #[trigger] st.round_4_rows@[p]@[k];
            all.contains(c) && c.deck == main_deck && c.abc@ == "C"@
        }
    &&& rows_concat(st.round_4_rows@).to_multiset().subset_of(
        spec_ingame_pool(all, main_deck, "C"@, Seq::<Seq<char>>::empty()).to_multiset(),
    )
}

/// The round 5 row: present exactly when the draw count is positive, holding
/// that many "B" cards of the chosen deck, none reusing an identifier dealt
/// from that deck during the initial setup.
pub open spec fn round_5_wf(st: Setup, all: Seq<Building>, players: u32, main_deck: Decks) -> bool {
    match st.round_5_row {
        Some(row) => spec_round_5_count(players) > 0 && row@.len() == spec_round_5_count(players)
            && row@.to_multiset().subset_of(
            spec_ingame_pool(all, main_deck, "B"@, Seq::<Seq<char>>::empty()).to_multiset(),
        ) && forall|k: int|
            0 <= k < row@.len() ==> {
                let c = #[trigger] row@[k];
                all.contains(c) && c.deck == main_deck && c.abc@ == "B"@ && no_initial_reuse(
                    st,
                    main_deck,
                    c,
                )
            },
        None => spec_round_5_count(players) == 0,
    }
}

/// What every successful setup satisfies.
pub open spec fn setup_wf(
    st: Setup,
    all: Seq<Building>,
    players: u32,
    main_deck: Decks,
    decks: DeckSet,
) -> bool {
    &&& initial_rows_wf(st, all, decks)
    &&& round_3_wf(st, all, players, main_deck)
    &&& round_4_wf(st, all, players, main_deck)
    &&& round_5_wf(st, all, players, main_deck)
}

/// When the dataset is rich enough that dealing can never exhaust a pool:
/// the setup pools cover the initial rows, and each chosen-deck pool covers
/// its round even after every initially dealt identifier (at most fifteen)
/// is excluded; identifiers must be unique within the chosen deck's "A" and
/// "B" sections for that bound to hold.
pub open spec fn spec_data_sufficient(
    all: Seq<Building>,
    players: u32,
    main_deck: Decks,
    decks: DeckSet,
) -> bool {
    &&& spec_setup_pool(all, decks, "A"@).len() >= 9
    &&& spec_setup_pool(all, decks, "B"@).len() >= 6
    &&& numbers_of(spec_ingame_pool(all, main_deck, "A"@, Seq::<Seq<char>>::empty())).no_duplicates()
    &&& spec_ingame_pool(all, main_deck, "A"@, Seq::<Seq<char>>::empty()).len()
        >= spec_round_3_count(players) + 15
    &&& numbers_of(spec_ingame_pool(all, main_deck, "B"@, Seq::<Seq<char>>::empty())).no_duplicates()
    &&& spec_ingame_pool(all, main_deck, "B"@, Seq::<Seq<char>>::empty()).len()
        >= spec_round_5_count(players) + 15
    &&& spec_ingame_pool(all, main_deck, "C"@, Seq::<Seq<char>>::empty()).len() >= players
        * spec_round_4_count(players)
}

/// Which rounds a well-formed setup deals, from the player count alone:
/// round 3 exactly with more than two players, round 4 once per player, and
/// round 5 exactly with three, four or five players.
pub proof fn lemma_round_presence(
    st: Setup,
    all: Seq<Building>,
    players: u32,
    main_deck: Decks,
    decks: DeckSet,
)
    requires
        setup_wf(st, all, players, main_deck, decks),
    ensures
        st.initial_rows@.len() == 3,
        st.round_3_row is Some <==> players > 2,
        st.round_4_rows@.len() > 0 <==> 2 <= players <= 5,
        2 <= players <= 5 ==> st.round_4_rows@.len() == players,
        st.round_5_row is Some <==> (players == 3 || players == 4 || players == 5),
{
}

/// A list drawn from a duplicate-free pool without replacement repeats no
/// record.
pub proof fn lemma_submultiset_of_unique(sub: Seq<Building>, pool: Seq<Building>)
    requires
        sub.to_multiset().subset_of(pool.to_multiset()),
        pool.no_duplicates(),
    ensures
        sub.no_duplicates(),
{
    broadcast use vstd::seq_lib::group_to_multiset_ensures;

    pool.lemma_multiset_has_no_duplicates();
    assert forall|x: Building| sub.to_multiset().contains(x) implies sub.to_multiset().count(x)
        == 1 by {
        assert(sub.to_multiset().count(x) <= pool.to_multiset().count(x));
        assert(pool.to_multiset().contains(x));
    }
    sub.lemma_multiset_has_no_duplicates_conv();
}

/// A pool whose identifiers repeat nowhere repeats no record either.
pub proof fn lemma_unique_numbers_unique_records(s: Seq<Building>)
    requires
        numbers_of(s).no_duplicates(),
    ensures
        s.no_duplicates(),
{
    assert forall|i: int, j: int|
        0 <= i < s.len() && 0 <= j < s.len() && i != j implies s[i] != s[j] by {
        assert(numbers_of(s)[i] == s[i].number@);
        assert(numbers_of(s)[j] == s[j].number@);
    }
}

/// Each round's cards are pairwise distinct records, provided the chosen
/// deck's pools repeat no identifier — spec_data_sufficient assumes this of
/// the "A" and "B" pools; the dataset invariant gives it for "C" too.
pub proof fn lemma_round_rows_distinct(
    st: Setup,
    all: Seq<Building>,
    players: u32,
    main_deck: Decks,
    decks: DeckSet,
)
    requires
        setup_wf(st, all, players, main_deck, decks),
        numbers_of(
            spec_ingame_pool(all, main_deck, "A"@, Seq::<Seq<char>>::empty()),
        ).no_duplicates(),
        numbers_of(
            spec_ingame_pool(all, main_deck, "B"@, Seq::<Seq<char>>::empty()),
        ).no_duplicates(),
        numbers_of(
            spec_ingame_pool(all, main_deck, "C"@, Seq::<Seq<char>>::empty()),
        ).no_duplicates(),
    ensures
        st.round_3_row matches Some(row) ==> row@.no_duplicates(),
        st.round_5_row matches Some(row) ==> row@.no_duplicates(),
        rows_concat(st.round_4_rows@).no_duplicates(),
{
    let empty = Seq::<Seq<char>>::empty();
    match st.round_3_row {
        Some(row) => {
            lemma_unique_numbers_unique_records(spec_ingame_pool(all, main_deck, "A"@, empty));
            lemma_submultiset_of_unique(row@, spec_ingame_pool(all, main_deck, "A"@, empty));
        },
        None => {},
    }
    match st.round_5_row {
        Some(row) => {
            lemma_unique_numbers_unique_records(spec_ingame_pool(all, main_deck, "B"@, empty));
            lemma_submultiset_of_unique(row@, spec_ingame_pool(all, main_deck, "B"@, empty));
        },
        None => {},
    }
    lemma_unique_numbers_unique_records(spec_ingame_pool(all, main_deck, "C"@, empty));
    lemma_submultiset_of_unique(
        rows_concat(st.round_4_rows@),
        spec_ingame_pool(all, main_deck, "C"@, empty),
    );
}

/// The fifteen cards of the initial rows are pairwise distinct records,
/// provided the setup pools themselves repeat no record — which holds of a
/// dataset whose identifiers are unique within each deck and section.
pub proof fn lemma_initial_cards_distinct(st: Setup, all: Seq<Building>, decks: DeckSet)
    requires
        initial_rows_wf(st, all, decks),
        spec_setup_pool(all, decks, "A"@).no_duplicates(),
        spec_setup_pool(all, decks, "B"@).no_duplicates(),
    ensures
        (spec_initial_b_cards(st) + spec_initial_a_cards(st)).no_duplicates(),
{
    let ap = spec_setup_pool(all, decks, "A"@);
    let bp = spec_setup_pool(all, decks, "B"@);
    let bc = spec_initial_b_cards(st);
    let ac = spec_initial_a_cards(st);
    lemma_submultiset_of_unique(bc, bp);
    lemma_submultiset_of_unique(ac, ap);
    // a "B" card and an "A" card differ in their section tag
    assert forall|i: int| 0 <= i < 6 implies (#[trigger] bc[i]).abc@ == "B"@ by {
        let j: int = i / 2;
        let k: int = i % 2;
        assert(bc[i] == st.initial_rows@[j]@[k]);
    }
    assert forall|i: int| 0 <= i < 9 implies (#[trigger] ac[i]).abc@ == "A"@ by {
        let j: int = i / 3;
        let k: int = 2 + i % 3;
        assert(ac[i] == st.initial_rows@[j]@[k]);
    }
    assert("A"@ != "B"@) by {
        broadcast use vstd::string::group_string_axioms;

        reveal_strlit("A");
        reveal_strlit("B");
        assert("A"@[0] == 'A');
        assert("B"@[0] == 'B');
    }
    let both = bc + ac;
    assert forall|i: int, j: int| 0 <= i < j < both.len() implies both[i] != both[j] by {
        if i < 6 && j >= 6 {
            assert(both[i] == bc[i] && both[j] == ac[j - 6]);
            assert(bc[i].abc@ == "B"@ && ac[j - 6].abc@ == "A"@);
        } else if j < 6 {
            assert(both[i] == bc[i] && both[j] == bc[j]);
        } else {
            assert(both[i] == ac[i - 6] && both[j] == ac[j - 6]);
        }
    }
}

/// The total length of equally wide rows laid end to end.
pub proof fn lemma_rows_concat_len(rows: Seq<Vec<Building>>, c: int)
    requires
        c >= 0,
        forall|t: int| 0 <= t < rows.len() ==> (#[trigger] rows[t])@.len() == c,
    ensures
        rows_concat(rows).len() == rows.len() * c,
    decreases rows.len(),
{
    let n = rows.len() as int;
    if n == 0 {
    } else {
        lemma_rows_concat_len(rows.drop_last(), c);
        assert((n - 1) * c + c == n * c) by (nonlinear_arith);
    }
}

/// What round 4 consumes: its rows together hold one draw count of cards
/// per player, and never more than the chosen deck's "C" pool offers.
pub proof fn lemma_round_4_consumption(
    st: Setup,
    all: Seq<Building>,
    players: u32,
    main_deck: Decks,
    decks: DeckSet,
)
    requires
        setup_wf(st, all, players, main_deck, decks),
    ensures
        rows_concat(st.round_4_rows@).len() == players * spec_round_4_count(players),
        players * spec_round_4_count(players) <= spec_ingame_pool(
            all,
            main_deck,
            "C"@,
            Seq::<Seq<char>>::empty(),
        ).len(),
{
    broadcast use vstd::multiset::group_multiset_axioms;
    broadcast use vstd::seq_lib::group_to_multiset_ensures;

    lemma_rows_concat_len(st.round_4_rows@, spec_round_4_count(players) as int);
    let drawn = rows_concat(st.round_4_rows@).to_multiset();
    let pool = spec_ingame_pool(all, main_deck, "C"@, Seq::<Seq<char>>::empty()).to_multiset();
    assert(pool.sub(drawn).len() == pool.len() - drawn.len());
}

/// Two pools with the same multiset hold the same elements.
pub proof fn lemma_same_multiset_same_elements(s1: Seq<Building>, s2: Seq<Building>)
    requires
        s1.to_multiset() == s2.to_multiset(),
    ensures
        forall|b: Building| #![trigger s1.contains(b)] #![trigger s2.contains(b)]
            s1.contains(b) <==> s2.contains(b),
{
    s1.to_multiset_ensures();
    s2.to_multiset_ensures();
    assert forall|b: Building| #![trigger s1.contains(b)] #![trigger s2.contains(b)]
        s1.contains(b) <==> s2.contains(b) by {
        assert(s1.to_multiset().count(b) == s2.to_multiset().count(b));
        if s1.contains(b) {
            assert(s1.to_multiset().count(b) > 0);
            assert(s2.contains(b));
        }
        if s2.contains(b) {
            assert(s2.to_multiset().count(b) > 0);
            assert(s1.contains(b));
        }
    }
}

/// A prefix of a pool consumes no card more often than the pool holds it.
pub proof fn lemma_prefix_submultiset(s: Seq<Building>, n: int)
    requires
        0 <= n <= s.len(),
    ensures
        s.subrange(0, n).to_multiset().subset_of(s.to_multiset()),
{
    broadcast use vstd::multiset::group_multiset_axioms;

    assert(s =~= s.subrange(0, n) + s.subrange(n, s.len() as int));
    vstd::seq_lib::lemma_multiset_commutative(s.subrange(0, n), s.subrange(n, s.len() as int));
}

/// An in-game pool with exclusions holds no card more often than the
/// unrestricted pool.
pub proof fn lemma_excluded_pool_submultiset(
    all: Seq<Building>,
    main_deck: Decks,
    tag: Seq<char>,
    excluded: Seq<Seq<char>>,
)
    ensures
        spec_ingame_pool(all, main_deck, tag, excluded).to_multiset().subset_of(
            spec_ingame_pool(all, main_deck, tag, Seq::<Seq<char>>::empty()).to_multiset(),
        ),
    decreases all.len(),
{
    broadcast use vstd::seq_lib::group_to_multiset_ensures;

    let empty = Seq::<Seq<char>>::empty();
    if all.len() > 0 {
        let pre = all.drop_last();
        lemma_excluded_pool_submultiset(pre, main_deck, tag, excluded);
        assert(!empty.contains(all.last().number@));
    }
}

/// Rows cut one after another out of a pool, each `c` cards wide, together
/// form the pool's prefix.
pub proof fn lemma_rows_concat_prefix(rows: Seq<Vec<Building>>, pool: Seq<Building>, c: int)
    requires
        c >= 0,
        rows.len() * c <= pool.len(),
        forall|t: int|
            0 <= t < rows.len() ==> (#[trigger] rows[t])@ == pool.subrange(t * c, t * c + c),
    ensures
        rows_concat(rows) == pool.subrange(0, rows.len() * c),
    decreases rows.len(),
{
    let n = rows.len() as int;
    if n == 0 {
        assert(rows_concat(rows) =~= pool.subrange(0, 0));
    } else {
        assert((n - 1) * c == n * c - c && 0 <= (n - 1) * c) by (nonlinear_arith)
            requires
                c >= 0,
                n >= 1,
        ;
        lemma_rows_concat_prefix(rows.drop_last(), pool, c);
        assert(rows.last()@ == pool.subrange((n - 1) * c, (n - 1) * c + c));
        assert(pool.subrange(0, (n - 1) * c) + pool.subrange((n - 1) * c, n * c) =~= pool.subrange(
            0,
            n * c,
        ));
    }
}

/// The cards an exclusion list removes from an in-game pool.
pub open spec fn spec_hits(
    all: Seq<Building>,
    main_deck: Decks,
    tag: Seq<char>,
    excluded: Seq<Seq<char>>,
) -> Seq<Building>
    decreases all.len(),
{
    if all.len() == 0 {
        Seq::<Building>::empty()
    } else {
        let rest = spec_hits(all.drop_last(), main_deck, tag, excluded);
        let x = all.last();
        if x.deck == main_deck && x.abc@ == tag && excluded.contains(x.number@) {
            rest.push(x)
        } else {
            rest
        }
    }
}

/// The excluded cards and the kept cards partition the unrestricted pool,
/// every excluded card's identifier is on the exclusion list, and where the
/// unrestricted pool has no repeated identifier neither have the excluded
/// cards.
pub proof fn lemma_hits_structure(
    all: Seq<Building>,
    main_deck: Decks,
    tag: Seq<char>,
    excluded: Seq<Seq<char>>,
)
    ensures
        spec_ingame_pool(all, main_deck, tag, excluded).len() + spec_hits(
            all,
            main_deck,
            tag,
            excluded,
        ).len() == spec_ingame_pool(all, main_deck, tag, Seq::<Seq<char>>::empty()).len(),
        forall|i: int|
            0 <= i < spec_hits(all, main_deck, tag, excluded).len() ==> excluded.contains(
                (#[trigger] spec_hits(all, main_deck, tag, excluded)[i]).number@,
            ),
        forall|id: Seq<char>|
            #[trigger] numbers_of(spec_hits(all, main_deck, tag, excluded)).contains(id)
                ==> numbers_of(
                spec_ingame_pool(all, main_deck, tag, Seq::<Seq<char>>::empty()),
            ).contains(id),
        numbers_of(spec_ingame_pool(all, main_deck, tag, Seq::<Seq<char>>::empty())).no_duplicates()
            ==> numbers_of(spec_hits(all, main_deck, tag, excluded)).no_duplicates(),
    decreases all.len(),
{
    let empty = Seq::<Seq<char>>::empty();
    if all.len() == 0 {
        assert(numbers_of(spec_hits(all, main_deck, tag, excluded)) =~= Seq::<Seq<char>>::empty());
    } else {
        let pre = all.drop_last();
        let x = all.last();
        lemma_hits_structure(pre, main_deck, tag, excluded);
        let hits_pre = spec_hits(pre, main_deck, tag, excluded);
        let hits = spec_hits(all, main_deck, tag, excluded);
        let base_pre = spec_ingame_pool(pre, main_deck, tag, empty);
        let base = spec_ingame_pool(all, main_deck, tag, empty);
        assert(!empty.contains(x.number@));
        if x.deck == main_deck && x.abc@ == tag {
            assert(base == base_pre.push(x));
            assert(numbers_of(base) =~= numbers_of(base_pre).push(x.number@));
            if excluded.contains(x.number@) {
                assert(hits == hits_pre.push(x));
                assert(numbers_of(hits) =~= numbers_of(hits_pre).push(x.number@));
            } else {
                assert(hits == hits_pre);
            }
        } else {
            assert(base == base_pre);
            assert(hits == hits_pre);
        }
        // the per-card clauses carry over to the one possible new last card
        assert forall|i: int| 0 <= i < hits.len() implies excluded.contains(
            (#[trigger] hits[i]).number@,
        ) by {
            if i < hits_pre.len() {
                assert(hits[i] == hits_pre[i]);
            }
        }
        assert forall|id: Seq<char>| #[trigger]
            numbers_of(hits).contains(id) implies numbers_of(base).contains(id) by {
            let i = choose|i: int| 0 <= i < numbers_of(hits).len() && numbers_of(hits)[i] == id;
            if i < hits_pre.len() {
                assert(numbers_of(hits_pre)[i] == id);
                assert(numbers_of(hits_pre).contains(id));
                let w = choose|w: int|
                    0 <= w < numbers_of(base_pre).len() && numbers_of(base_pre)[w] == id;
                assert(numbers_of(base)[w] == id);
            } else {
                assert(numbers_of(base)[numbers_of(base).len() - 1] == id);
            }
        }
        if numbers_of(base).no_duplicates() {
            assert(numbers_of(base_pre).no_duplicates()) by {
                if base == base_pre.push(x) {
                    assert(forall|i: int|
                        0 <= i < numbers_of(base_pre).len() ==> numbers_of(base)[i]
                            == numbers_of(base_pre)[i]);
                }
            }
            if hits.len() > hits_pre.len() {
                // the new identifier is not among the earlier excluded ones,
                // else the unrestricted pool would repeat it
                assert forall|i: int| 0 <= i < numbers_of(hits_pre).len() implies numbers_of(
                    hits_pre,
                )[i] != x.number@ by {
                    if numbers_of(hits_pre)[i] == x.number@ {
                        assert(numbers_of(hits_pre).contains(x.number@));
                        assert(numbers_of(base_pre).contains(x.number@));
                        let w = choose|w: int|
                            0 <= w < numbers_of(base_pre).len() && numbers_of(base_pre)[w]
                                == x.number@;
                        assert(numbers_of(base)[w] == numbers_of(base)[numbers_of(base).len() - 1]);
                        assert(false);
                    }
                }
            }
        }
    }
}

/// Excluding a list of identifiers shrinks an in-game pool by at most the
/// list's length, provided the unrestricted pool repeats no identifier.
pub proof fn lemma_ingame_pool_len(
    all: Seq<Building>,
    main_deck: Decks,
    tag: Seq<char>,
    excluded: Seq<Seq<char>>,
)
    requires
        numbers_of(
            spec_ingame_pool(all, main_deck, tag, Seq::<Seq<char>>::empty()),
        ).no_duplicates(),
    ensures
        spec_ingame_pool(all, main_deck, tag, excluded).len() + excluded.len()
            >= spec_ingame_pool(all, main_deck, tag, Seq::<Seq<char>>::empty()).len(),
{
    broadcast use vstd::seq_lib::seq_to_set_is_finite;

    lemma_hits_structure(all, main_deck, tag, excluded);
    let hits = spec_hits(all, main_deck, tag, excluded);
    let hn = numbers_of(hits);
    hn.unique_seq_to_set();
    excluded.lemma_cardinality_of_set();
    assert forall|x: Seq<char>| hn.to_set().contains(x) implies excluded.to_set().contains(x) by {
        let i = choose|i: int| 0 <= i < hn.len() && hn[i] == x;
        assert(excluded.contains(hits[i].number@));
    }
    assert(hn.to_set().subset_of(excluded.to_set()));
    vstd::set_lib::lemma_len_subset(hn.to_set(), excluded.to_set());
}

/// Draws one full setup: filters the dataset to the active decks, shuffles,
/// deals the three initial rows, and then draws the round 3, 4 and 5 rows
/// from the chosen deck's own shuffled pools, never reusing an identifier
/// dealt from the chosen deck during the initial setup (the "C" pool of
/// round 4 is exempt from that exclusion). Returns `None` when some pool
/// runs out of cards, which cannot happen on sufficient data.
pub fn generate_setup(
    all: &Vec<Building>,
    players: u32,
    main_deck: Decks,
    decks: &DeckSet,
) -> (r: Option<Setup>)
    ensures
        spec_data_sufficient(all@, players, main_deck, *decks) ==> r is Some,
        r matches Some(st) ==> setup_wf(st, all@, players, main_deck, *decks),
{
    let ghost suff = spec_data_sufficient(all@, players, main_deck, *decks);
    let mut setup_a = filter_setup(all, decks, "A");
    let mut setup_b = filter_setup(all, decks, "B");
    shuffle_buildings(&mut setup_a);
    shuffle_buildings(&mut setup_b);
    proof {
        lemma_same_multiset_same_elements(setup_a@, spec_setup_pool(all@, *decks, "A"@));
        lemma_same_multiset_same_elements(setup_b@, spec_setup_pool(all@, *decks, "B"@));
    }
    if setup_a.len() < 9 || setup_b.len() < 6 {
        return None;
    }
    let (rows, dealt) = deal_initial(&setup_a, &setup_b, main_deck);
    let mut ingame_a = filter_ingame(all, main_deck, "A", &dealt);
    let mut ingame_b = filter_ingame(all, main_deck, "B", &dealt);
    let no_ids: Vec<String> = Vec::new();
    let mut ingame_c = filter_ingame(all, main_deck, "C", &no_ids);
    proof {
        assert(views_of_strings(no_ids@) =~= Seq::<Seq<char>>::empty());
    }
    let ghost excl = views_of_strings(dealt@);
    shuffle_buildings(&mut ingame_a);
    shuffle_buildings(&mut ingame_b);
    shuffle_buildings(&mut ingame_c);
    proof {
        lemma_same_multiset_same_elements(
            ingame_a@,
            spec_ingame_pool(all@, main_deck, "A"@, excl),
        );
        lemma_same_multiset_same_elements(
            ingame_b@,
            spec_ingame_pool(all@, main_deck, "B"@, excl),
        );
        lemma_same_multiset_same_elements(
            ingame_c@,
            spec_ingame_pool(all@, main_deck, "C"@, Seq::<Seq<char>>::empty()),
        );
        lemma_ingame_pool_elements(all@, main_deck, "A"@, excl);
        lemma_ingame_pool_elements(all@, main_deck, "B"@, excl);
        lemma_ingame_pool_elements(all@, main_deck, "C"@, Seq::<Seq<char>>::empty());
    }
    let r3 = round_3_count(players);
    let r4 = round_4_count(players);
    let r5 = round_5_count(players);
    if ingame_a.len() < r3 as usize {
        proof {
            if suff {
                lemma_ingame_pool_len(all@, main_deck, "A"@, excl);
            }
        }
        return None;
    }
    if ingame_b.len() < r5 as usize {
        proof {
            if suff {
                lemma_ingame_pool_len(all@, main_deck, "B"@, excl);
            }
        }
        return None;
    }
    let players_us = players as usize;
    let r4n = r4 as usize;
    proof {
        assert(r4n > 0 ==> players_us <= 5);
    }
    let need4 = if r4n == 0 {
        0
    } else {
        players_us * r4n
    };
    proof {
        assert(need4 == players_us * r4n) by (nonlinear_arith)
            requires
                r4n == 0 ==> need4 == 0,
                r4n != 0 ==> need4 == players_us * r4n,
        ;
    }
    if ingame_c.len() < need4 {
        return None;
    }
    let round_3_row = if r3 > 0 {
        Some(take_range(&ingame_a, 0, r3 as usize))
    } else {
        None
    };
    let round_5_row = if r5 > 0 {
        Some(take_range(&ingame_b, 0, r5 as usize))
    } else {
        None
    };
    let mut round_4_rows: Vec<Vec<Building>> = Vec::new();
    let mut p: usize = 0;
    // a zero draw count skips round 4 entirely: no rows are dealt
    while r4n > 0 && p < players_us
        invariant
            p <= players_us,
            r4n == 0 ==> p == 0,
            r4n == spec_round_4_count(players),
            need4 == players_us * r4n,
            need4 <= ingame_c@.len(),
            round_4_rows@.len() == p,
            forall|t: int| 0 <= t < p ==> (#[trigger] round_4_rows@[t])@.len() == r4n,
            forall|t: int|
                0 <= t < p ==> (#[trigger] round_4_rows@[t])@ == ingame_c@.subrange(
                    t * r4n,
                    t * r4n + r4n,
                ),
        decreases players_us - p,
    {
        proof {
            assert(p * r4n + r4n <= players_us * r4n) by (nonlinear_arith)
                requires
                    p < players_us,
                    r4n >= 0,
            ;
        }
        let row = take_range(&ingame_c, p * r4n, r4n);
        round_4_rows.push(row);
        p += 1;
    }
    let st = Setup { initial_rows: rows, round_3_row, round_4_rows, round_5_row };
    proof {
        let allv = all@;
        let cards = spec_initial_cards(setup_a@, setup_b@);
        // the initial rows hold setup-pool cards
        assert forall|j: int, k: int| 0 <= j < 3 && 0 <= k < 2 implies {
            let b = #[trigger] st.initial_rows@[j]@[k];
            allv.contains(b) && is_setup_match(b, *decks, "B"@)
        } by {
            let b = st.initial_rows@[j]@[k];
            assert(b == setup_b@[2 * j + k]);
            assert(setup_b@.contains(b));
            lemma_setup_pool_membership(allv, *decks, "B"@, b);
        }
        assert forall|j: int, k: int| 0 <= j < 3 && 2 <= k < 5 implies {
            let b = #[trigger] st.initial_rows@[j]@[k];
            allv.contains(b) && is_setup_match(b, *decks, "A"@)
        } by {
            let b = st.initial_rows@[j]@[k];
            assert(b == setup_a@[3 * j + (k - 2)]);
            assert(setup_a@.contains(b));
            lemma_setup_pool_membership(allv, *decks, "A"@, b);
        }
        // an identifier of a chosen-deck card in some initial row is a dealt identifier
        assert forall|c: Building|
            !excl.contains(c.number@) implies no_initial_reuse(st, main_deck, c) by {
            assert forall|j: int, k: int|
                0 <= j < st.initial_rows@.len() && 0 <= k < (
                #[trigger] st.initial_rows@[j])@.len() implies {
                let d = #[trigger] st.initial_rows@[j]@[k];
                d.deck == main_deck ==> c.number@ != d.number@
            } by {
                let d = st.initial_rows@[j]@[k];
                if d.deck == main_deck && c.number@ == d.number@ {
                    let idx: int = if k < 2 {
                        2 * j + k
                    } else {
                        6 + 3 * j + (k - 2)
                    };
                    assert(cards[idx] == d);
                    assert(spec_is_dealt_id(d.number@, setup_a@, setup_b@, main_deck));
                    assert(excl.contains(c.number@));
                }
            }
        }
        // round 3 cards come from the excluded "A" pool
        match &st.round_3_row {
            Some(row) => {
                assert forall|k: int| 0 <= k < row@.len() implies {
                    let c = #[trigger] row@[k];
                    allv.contains(c) && c.deck == main_deck && c.abc@ == "A"@ && no_initial_reuse(
                        st,
                        main_deck,
                        c,
                    )
                } by {
                    let c = row@[k];
                    assert(c == ingame_a@[k]);
                    assert(ingame_a@.contains(c));
                    let pool = spec_ingame_pool(allv, main_deck, "A"@, excl);
                    let i = choose|i: int| 0 <= i < pool.len() && pool[i] == c;
                    assert(allv.contains(c) && is_ingame_match(c, main_deck, "A"@, excl));
                }
            },
            None => {},
        }
        match &st.round_5_row {
            Some(row) => {
                assert forall|k: int| 0 <= k < row@.len() implies {
                    let c = #[trigger] row@[k];
                    allv.contains(c) && c.deck == main_deck && c.abc@ == "B"@ && no_initial_reuse(
                        st,
                        main_deck,
                        c,
                    )
                } by {
                    let c = row@[k];
                    assert(c == ingame_b@[k]);
                    assert(ingame_b@.contains(c));
                    let pool = spec_ingame_pool(allv, main_deck, "B"@, excl);
                    let i = choose|i: int| 0 <= i < pool.len() && pool[i] == c;
                    assert(allv.contains(c) && is_ingame_match(c, main_deck, "B"@, excl));
                }
            },
            None => {},
        }
        // cards are dealt without replacement: every round consumes a
        // prefix of a shuffled pool
        assert(spec_initial_b_cards(st) =~= setup_b@.subrange(0, 6));
        assert(spec_initial_a_cards(st) =~= setup_a@.subrange(0, 9));
        lemma_prefix_submultiset(setup_b@, 6);
        lemma_prefix_submultiset(setup_a@, 9);
        assert(spec_initial_b_cards(st).to_multiset().subset_of(
            spec_setup_pool(allv, *decks, "B"@).to_multiset(),
        ));
        assert(spec_initial_a_cards(st).to_multiset().subset_of(
            spec_setup_pool(allv, *decks, "A"@).to_multiset(),
        ));
        match &st.round_3_row {
            Some(row) => {
                assert(row@ == ingame_a@.subrange(0, r3 as int));
                lemma_prefix_submultiset(ingame_a@, r3 as int);
                lemma_excluded_pool_submultiset(allv, main_deck, "A"@, excl);
                assert(row@.to_multiset().subset_of(
                    spec_ingame_pool(allv, main_deck, "A"@, Seq::<Seq<char>>::empty()).to_multiset(),
                ));
            },
            None => {},
        }
        match &st.round_5_row {
            Some(row) => {
                assert(row@ == ingame_b@.subrange(0, r5 as int));
                lemma_prefix_submultiset(ingame_b@, r5 as int);
                lemma_excluded_pool_submultiset(allv, main_deck, "B"@, excl);
                assert(row@.to_multiset().subset_of(
                    spec_ingame_pool(allv, main_deck, "B"@, Seq::<Seq<char>>::empty()).to_multiset(),
                ));
            },
            None => {},
        }
        lemma_rows_concat_prefix(st.round_4_rows@, ingame_c@, r4n as int);
        lemma_prefix_submultiset(ingame_c@, st.round_4_rows@.len() * r4n as int);
        assert(rows_concat(st.round_4_rows@).to_multiset().subset_of(
            spec_ingame_pool(allv, main_deck, "C"@, Seq::<Seq<char>>::empty()).to_multiset(),
        ));
        assert forall|t: int, k: int|
            0 <= t < st.round_4_rows@.len() && 0 <= k < (
            #[trigger] st.round_4_rows@[t])@.len() implies {
            let c = #[trigger] st.round_4_rows@[t]@[k];
            allv.contains(c) && c.deck == main_deck && c.abc@ == "C"@
        } by {
            let c = st.round_4_rows@[t]@[k];
            assert(t * r4n + k < need4 && t * r4n + r4n <= need4 && 0 <= t * r4n) by (
            nonlinear_arith)
                requires
                    0 <= t < players_us as int,
                    0 <= k < r4n,
                    need4 == players_us * r4n,
            ;
            assert(c == ingame_c@[t * r4n + k]);
            assert(ingame_c@.contains(c));
            let pool = spec_ingame_pool(allv, main_deck, "C"@, Seq::<Seq<char>>::empty());
            let i = choose|i: int| 0 <= i < pool.len() && pool[i] == c;
            assert(allv.contains(c) && is_ingame_match(
                c,
                main_deck,
                "C"@,
                Seq::<Seq<char>>::empty(),
            ));
        }
    }
    Some(st)
}

} // verus!
