use vstd::prelude::*;

use rand::seq::SliceRandom;

use crate::building::{Building, views_of_strings};
use crate::deck::{Decks, DeckSet};

verus! {

/// Whether `b` belongs to an initial-setup pool: its deck is active and its
/// section tag is the requested one.
pub open spec fn is_setup_match(b: Building, decks: DeckSet, tag: Seq<char>) -> bool {
    decks.has(b.deck) && b.abc@ == tag
}

/// The initial-setup pool: the records of `all` whose deck is in `decks` and
/// whose section tag is `tag`, in dataset order.
pub open spec fn spec_setup_pool(all: Seq<Building>, decks: DeckSet, tag: Seq<char>) -> Seq<
    Building,
>
    decreases all.len(),
{
    if all.len() == 0 {
        Seq::<Building>::empty()
    } else {
        let rest = spec_setup_pool(all.drop_last(), decks, tag);
        if is_setup_match(all.last(), decks, tag) {
            rest.push(all.last())
        } else {
            rest
        }
    }
}

/// A record is in the initial-setup pool if and only if it occurs in the
/// dataset, its deck is active, and its section tag matches.
pub proof fn lemma_setup_pool_membership(
    all: Seq<Building>,
    decks: DeckSet,
    tag: Seq<char>,
    b: Building,
)
    ensures
        spec_setup_pool(all, decks, tag).contains(b) <==> (all.contains(b) && is_setup_match(
            b,
            decks,
            tag,
        )),
    decreases all.len(),
{
    if all.len() == 0 {
    } else {
        let pre = all.drop_last();
        lemma_setup_pool_membership(pre, decks, tag, b);
        let pool = spec_setup_pool(all, decks, tag);
        let rest = spec_setup_pool(pre, decks, tag);
        if pool.contains(b) {
            let i = choose|i: int| 0 <= i < pool.len() && pool[i] == b;
            if is_setup_match(all.last(), decks, tag) && i == pool.len() - 1 {
                assert(b == all.last());
                assert(all.contains(b)) by {
                    assert(all[all.len() - 1] == b);
                }
            } else {
                assert(rest[i] == b);
                assert(rest.contains(b));
                let j = choose|j: int| 0 <= j < pre.len() && pre[j] == b;
                assert(all[j] == b);
            }
        }
        if all.contains(b) && is_setup_match(b, decks, tag) {
            let i = choose|i: int| 0 <= i < all.len() && all[i] == b;
            if i == all.len() - 1 {
                assert(pool[pool.len() - 1] == b);
            } else {
                assert(pre[i] == b);
                assert(rest.contains(b));
                let j = choose|j: int| 0 <= j < rest.len() && rest[j] == b;
                assert(pool[j] == b);
            }
        }
    }
}

/// Restricts `all` to the active decks and the given section tag.
pub fn filter_setup(all: &Vec<Building>, decks: &DeckSet, tag: &str) -> (r: Vec<Building>)
    ensures
        r@ == spec_setup_pool(all@, *decks, tag@),
{
    let tag_s = tag.to_owned();
    let mut r: Vec<Building> = Vec::new();
    let mut i: usize = 0;
    proof {
        assert(all@.subrange(0, 0) =~= Seq::<Building>::empty());
    }
    while i < all.len()
        invariant
            i <= all@.len(),
            tag_s@ == tag@,
            r@ == spec_setup_pool(all@.subrange(0, i as int), *decks, tag@),
        decreases all@.len() - i,
    {
        let b = &all[i];
        proof {
            assert(all@.subrange(0, i + 1).drop_last() =~= all@.subrange(0, i as int));
            assert(all@.subrange(0, i + 1).last() == all@[i as int]);
        }
        if decks.contains(b.deck) && b.abc.eq(&tag_s) {
            r.push(b.clone());
        }
        i += 1;
    }
    proof {
        assert(all@.subrange(0, all@.len() as int) =~= all@);
    }
    r
}

/// Whether `b` belongs to an in-game pool for the chosen deck: its deck is
/// the chosen one, its section tag is the requested one, and its identifier
/// is not among the excluded ones.
pub open spec fn is_ingame_match(
    b: Building,
    main_deck: Decks,
    tag: Seq<char>,
    excluded: Seq<Seq<char>>,
) -> bool {
    b.deck == main_deck && b.abc@ == tag && !excluded.contains(b.number@)
}

/// An in-game round pool: the records of `all` of the chosen deck with the
/// given section tag whose identifier is not excluded, in dataset order.
pub open spec fn spec_ingame_pool(
    all: Seq<Building>,
    main_deck: Decks,
    tag: Seq<char>,
    excluded: Seq<Seq<char>>,
) -> Seq<Building>
    decreases all.len(),
{
    if all.len() == 0 {
        Seq::<Building>::empty()
    } else {
        let rest = spec_ingame_pool(all.drop_last(), main_deck, tag, excluded);
        if is_ingame_match(all.last(), main_deck, tag, excluded) {
            rest.push(all.last())
        } else {
            rest
        }
    }
}

/// Every card of an in-game pool occurs in the dataset and matches the
/// pool's conditions.
pub proof fn lemma_ingame_pool_elements(
    all: Seq<Building>,
    main_deck: Decks,
    tag: Seq<char>,
    excluded: Seq<Seq<char>>,
)
    ensures
        forall|i: int|
            0 <= i < spec_ingame_pool(all, main_deck, tag, excluded).len() ==> {
                let b = #[trigger] spec_ingame_pool(all, main_deck, tag, excluded)[i];
                all.contains(b) && is_ingame_match(b, main_deck, tag, excluded)
            },
    decreases all.len(),
{
    if all.len() > 0 {
        let pre = all.drop_last();
        lemma_ingame_pool_elements(pre, main_deck, tag, excluded);
        let pool = spec_ingame_pool(all, main_deck, tag, excluded);
        let rest = spec_ingame_pool(pre, main_deck, tag, excluded);
        assert forall|i: int| 0 <= i < pool.len() implies {
            let b = #[trigger] pool[i];
            all.contains(b) && is_ingame_match(b, main_deck, tag, excluded)
        } by {
            if is_ingame_match(all.last(), main_deck, tag, excluded) && i == pool.len() - 1 {
                assert(all[all.len() - 1] == pool[i]);
            } else {
                assert(pool[i] == rest[i]);
                assert(pre.contains(rest[i]) && is_ingame_match(rest[i], main_deck, tag, excluded));
                let j = choose|j: int| 0 <= j < pre.len() && pre[j] == rest[i];
                assert(all[j] == rest[i]);
            }
        }
    }
}

/// Whether the identifier `id@` occurs among `ids`.
pub fn contains_id(ids: &Vec<String>, id: &String) -> (r: bool)
    ensures
        r == views_of_strings(ids@).contains(id@),
{
    let mut i: usize = 0;
    while i < ids.len()
        invariant
            i <= ids@.len(),
            forall|j: int| 0 <= j < i ==> views_of_strings(ids@)[j] != id@,
        decreases ids@.len() - i,
    {
        if id.eq(&ids[i]) {
            proof {
                assert(views_of_strings(ids@)[i as int] == id@);
            }
            return true;
        }
        i += 1;
    }
    proof {
        assert forall|k: int| 0 <= k < views_of_strings(ids@).len() implies views_of_strings(
            ids@,
        )[k] != id@ by {}
    }
    false
}

/// Restricts `all` to the chosen deck and section tag, leaving out any card
/// whose identifier is among `excluded`.
pub fn filter_ingame(
    all: &Vec<Building>,
    main_deck: Decks,
    tag: &str,
    excluded: &Vec<String>,
) -> (r: Vec<Building>)
    ensures
        r@ == spec_ingame_pool(all@, main_deck, tag@, views_of_strings(excluded@)),
{
    let tag_s = tag.to_owned();
    let mut r: Vec<Building> = Vec::new();
    let mut i: usize = 0;
    proof {
        assert(all@.subrange(0, 0) =~= Seq::<Building>::empty());
    }
    while i < all.len()
        invariant
            i <= all@.len(),
            tag_s@ == tag@,
            r@ == spec_ingame_pool(
                all@.subrange(0, i as int),
                main_deck,
                tag@,
                views_of_strings(excluded@),
            ),
        decreases all@.len() - i,
    {
        let b = &all[i];
        proof {
            assert(all@.subrange(0, i + 1).drop_last() =~= all@.subrange(0, i as int));
            assert(all@.subrange(0, i + 1).last() == all@[i as int]);
        }
        if b.deck == main_deck && b.abc.eq(&tag_s) && !contains_id(excluded, &b.number) {
            r.push(b.clone());
        }
        i += 1;
    }
    proof {
        assert(all@.subrange(0, all@.len() as int) =~= all@);
    }
    r
}

/// Cards dealt in round 3: one per player, none with two players or fewer.
pub open spec fn spec_round_3_count(players: u32) -> u32 {
    if players > 2 {
        players
    } else {
        0u32
    }
}

pub fn round_3_count(players: u32) -> (r: u32)
    ensures
        r == spec_round_3_count(players),
{
    if players > 2 {
        players
    } else {
        0
    }
}

/// Cards dealt to each player in round 4: 4, 3, 2 and 2 for 2, 3, 4 and 5
/// players, none otherwise.
pub open spec fn spec_round_4_count(players: u32) -> u32 {
    if players == 2 {
        4u32
    } else if players == 3 {
        3u32
    } else if players == 4 || players == 5 {
        2u32
    } else {
        0u32
    }
}

pub fn round_4_count(players: u32) -> (r: u32)
    ensures
        r == spec_round_4_count(players),
{
    match players {
        2 => 4,
        3 => 3,
        4 | 5 => 2,
        _ => 0,
    }
}

/// Cards dealt in round 5: two with 3 or 4 players, three with 5, none
/// otherwise.
pub open spec fn spec_round_5_count(players: u32) -> u32 {
    if players == 3 || players == 4 {
        2u32
    } else if players == 5 {
        3u32
    } else {
        0u32
    }
}

pub fn round_5_count(players: u32) -> (r: u32)
    ensures
        r == spec_round_5_count(players),
{
    match players {
        3 | 4 => 2,
        5 => 3,
        _ => 0,
    }
}

/// Relies on rand's `SliceRandom::shuffle` with `thread_rng`: it reorders the
/// slice in place, so afterwards the vector holds exactly the old elements,
/// in some order that nothing here may assume.
#[verifier::external_body]
pub(crate) fn shuffle_buildings(v: &mut Vec<Building>)
    ensures
        final(v)@.to_multiset() == old(v)@.to_multiset(),
        final(v)@.len() == old(v)@.len(),
{
    v.shuffle(&mut rand::thread_rng());
}

/// Copies `n` cards of `pool` starting at `start`.
pub fn take_range(pool: &Vec<Building>, start: usize, n: usize) -> (r: Vec<Building>)
    requires
        start + n <= pool@.len(),
    ensures
        r@ == pool@.subrange(start as int, start + n),
{
    let mut r: Vec<Building> = Vec::new();
    let mut i: usize = 0;
    let total = pool.len();
    proof {
        assert(pool@.subrange(start as int, start as int) =~= Seq::<Building>::empty());
    }
    while i < n
        invariant
            i <= n,
            total == pool@.len(),
            start + n <= total,
            r@ == pool@.subrange(start as int, start + i),
        decreases n - i,
    {
        r.push(pool[start + i].clone());
        proof {
            assert(pool@.subrange(start as int, start + i + 1) =~= pool@.subrange(
                start as int,
                start + i,
            ).push(pool@[start + i]));
        }
        i += 1;
    }
    r
}

/// The cards consumed by the initial setup: the first six of the shuffled
/// "B" pool and the first nine of the shuffled "A" pool.
pub open spec fn spec_initial_cards(a: Seq<Building>, b: Seq<Building>) -> Seq<Building> {
    b.subrange(0, 6) + a.subrange(0, 9)
}

/// Whether `id` is the identifier of a chosen-deck card consumed by the
/// initial setup.
pub open spec fn spec_is_dealt_id(
    id: Seq<char>,
    a: Seq<Building>,
    b: Seq<Building>,
    main_deck: Decks,
) -> bool {
    let cards = spec_initial_cards(a, b);
    exists|k: int|
        0 <= k < cards.len() && (#[trigger] cards[k]).deck == main_deck && cards[k].number@ == id
}

/// Recording one more card keeps the dealt-identifier list exact: where the
/// list held exactly the chosen-deck identifiers of the first `t` cards, and
/// the identifier of card `t` was appended exactly when that card is of the
/// chosen deck, the list holds those of the first `t + 1` cards.
proof fn lemma_dealt_extend(
    pre: Seq<Seq<char>>,
    post: Seq<Seq<char>>,
    cards: Seq<Building>,
    main_deck: Decks,
    t: int,
)
    requires
        0 <= t < cards.len(),
        forall|id: Seq<char>|
            #[trigger] pre.contains(id) <==> exists|k: int|
                0 <= k < t && (#[trigger] cards[k]).deck == main_deck && cards[k].number@ == id,
        if cards[t].deck == main_deck {
            post == pre.push(cards[t].number@)
        } else {
            post == pre
        },
    ensures
        forall|id: Seq<char>|
            #[trigger] post.contains(id) <==> exists|k: int|
                0 <= k < t + 1 && (#[trigger] cards[k]).deck == main_deck && cards[k].number@ == id,
{
    assert forall|id: Seq<char>| #[trigger] post.contains(id) implies exists|k: int|
        0 <= k < t + 1 && (#[trigger] cards[k]).deck == main_deck && cards[k].number@ == id by {
        let w = choose|w: int| 0 <= w < post.len() && post[w] == id;
        if w < pre.len() {
            assert(pre[w] == id);
            assert(pre.contains(id));
        } else {
            assert(cards[t].deck == main_deck && cards[t].number@ == id);
        }
    }
    assert forall|id: Seq<char>|
        (exists|k: int|
            0 <= k < t + 1 && (#[trigger] cards[k]).deck == main_deck && cards[k].number@
                == id) implies #[trigger] post.contains(id) by {
        let k = choose|k: int|
            0 <= k < t + 1 && (#[trigger] cards[k]).deck == main_deck && cards[k].number@ == id;
        if k < t {
            assert(pre.contains(id));
            let w = choose|w: int| 0 <= w < pre.len() && pre[w] == id;
            assert(post[w] == id);
        } else {
            assert(post[pre.len() as int] == id);
        }
    }
}

/// Deals the three initial rows: each holds two cards of the "B" pool and
/// then three of the "A" pool, and the identifier of every dealt card of the
/// chosen deck is recorded.
pub fn deal_initial(a_pool: &Vec<Building>, b_pool: &Vec<Building>, main_deck: Decks) -> (res: (
    Vec<Vec<Building>>,
    Vec<String>,
))
    requires
        a_pool@.len() >= 9,
        b_pool@.len() >= 6,
    ensures
        res.0@.len() == 3,
        forall|j: int|
            0 <= j < 3 ==> (#[trigger] res.0@[j])@ =~= seq![
                b_pool@[2 * j],
                b_pool@[2 * j + 1],
                a_pool@[3 * j],
                a_pool@[3 * j + 1],
                a_pool@[3 * j + 2],
            ],
        res.1@.len() <= 15,
        forall|id: Seq<char>|
            #[trigger] views_of_strings(res.1@).contains(id) <==> spec_is_dealt_id(
                id,
                a_pool@,
                b_pool@,
                main_deck,
            ),
{
    let ghost cards = spec_initial_cards(a_pool@, b_pool@);
    let mut rows: Vec<Vec<Building>> = Vec::new();
    let mut j: usize = 0;
    while j < 3
        invariant
            j <= 3,
            a_pool@.len() >= 9,
            b_pool@.len() >= 6,
            rows@.len() == j,
            forall|t: int|
                0 <= t < j ==> (#[trigger] rows@[t])@ =~= seq![
                    b_pool@[2 * t],
                    b_pool@[2 * t + 1],
                    a_pool@[3 * t],
                    a_pool@[3 * t + 1],
                    a_pool@[3 * t + 2],
                ],
        decreases 3 - j,
    {
        let mut row: Vec<Building> = Vec::new();
        row.push(b_pool[2 * j].clone());
        row.push(b_pool[2 * j + 1].clone());
        row.push(a_pool[3 * j].clone());
        row.push(a_pool[3 * j + 1].clone());
        row.push(a_pool[3 * j + 2].clone());
        rows.push(row);
        j += 1;
    }
    let mut dealt: Vec<String> = Vec::new();
    let mut k: usize = 0;
    while k < 6
        invariant
            k <= 6,
            a_pool@.len() >= 9,
            b_pool@.len() >= 6,
            cards == spec_initial_cards(a_pool@, b_pool@),
            dealt@.len() <= k,
            forall|id: Seq<char>|
                #[trigger] views_of_strings(dealt@).contains(id) <==> exists|t: int|
                    0 <= t < k && (#[trigger] cards[t]).deck == main_deck && cards[t].number@ == id,
        decreases 6 - k,
    {
        let b = &b_pool[k];
        let ghost pre = views_of_strings(dealt@);
        proof {
            assert(cards[k as int] == b_pool@[k as int]);
        }
        if b.deck == main_deck {
            dealt.push(b.number.clone());
        }
        proof {
            if b.deck == main_deck {
                assert(views_of_strings(dealt@) =~= pre.push(b.number@));
            }
            lemma_dealt_extend(pre, views_of_strings(dealt@), cards, main_deck, k as int);
        }
        k += 1;
    }
    let mut m: usize = 0;
    while m < 9
        invariant
            m <= 9,
            a_pool@.len() >= 9,
            b_pool@.len() >= 6,
            cards == spec_initial_cards(a_pool@, b_pool@),
            dealt@.len() <= 6 + m,
            forall|id: Seq<char>|
                #[trigger] views_of_strings(dealt@).contains(id) <==> exists|t: int|
                    0 <= t < 6 + m && (#[trigger] cards[t]).deck == main_deck && cards[t].number@
                        == id,
        decreases 9 - m,
    {
        let b = &a_pool[m];
        let ghost pre = views_of_strings(dealt@);
        proof {
            assert(cards[6 + m as int] == a_pool@[m as int]);
        }
        if b.deck == main_deck {
            dealt.push(b.number.clone());
        }
        proof {
            if b.deck == main_deck {
                assert(views_of_strings(dealt@) =~= pre.push(b.number@));
            }
            lemma_dealt_extend(pre, views_of_strings(dealt@), cards, main_deck, 6 + m as int);
        }
        m += 1;
    }
    proof {
        assert(cards.len() == 15);
    }
    (rows, dealt)
}

} // verus!
