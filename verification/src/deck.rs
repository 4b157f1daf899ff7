use vstd::prelude::*;

verus! {

/// The five thematic card decks of the game.
#[derive(Clone, Copy, PartialEq, Eq, Structural, Debug, Hash)]
pub enum Decks {
    Codfish,
    Mackerel,
    Herring,
    Plaice,
    Salmon,
}

/// The deck that `s` names, if any.
pub open spec fn spec_deck_from_name(s: Seq<char>) -> Option<Decks> {
    if s == "Codfish"@ {
        Some(Decks::Codfish)
    } else if s == "Mackerel"@ {
        Some(Decks::Mackerel)
    } else if s == "Herring"@ {
        Some(Decks::Herring)
    } else if s == "Plaice"@ {
        Some(Decks::Plaice)
    } else if s == "Salmon"@ {
        Some(Decks::Salmon)
    } else {
        None
    }
}

impl Decks {
    /// Parses a deck from its printed name; any other text is rejected.
    pub fn from_name(s: &str) -> (r: Option<Decks>)
        ensures
            r == spec_deck_from_name(s@),
    {
        proof {
            reveal_strlit("Codfish");
            reveal_strlit("Mackerel");
            reveal_strlit("Herring");
            reveal_strlit("Plaice");
            reveal_strlit("Salmon");
        }
        let owned = s.to_owned();
        if owned == String::from_str("Codfish") {
            Some(Decks::Codfish)
        } else if owned == String::from_str("Mackerel") {
            Some(Decks::Mackerel)
        } else if owned == String::from_str("Herring") {
            Some(Decks::Herring)
        } else if owned == String::from_str("Plaice") {
            Some(Decks::Plaice)
        } else if owned == String::from_str("Salmon") {
            Some(Decks::Salmon)
        } else {
            None
        }
    }
}

impl core::str::FromStr for Decks {
    type Err = &'static str;

    fn from_str(s: &str) -> (r: Result<Self, Self::Err>)
        ensures
            r matches Ok(d) ==> spec_deck_from_name(s@) == Some(d),
            r is Err <==> spec_deck_from_name(s@) is None,
    {
        match Decks::from_name(s) {
            Some(d) => Ok(d),
            None => Err("no match"),
        }
    }
}

/// A subset of the five decks, used to restrict the initial-setup pools.
#[derive(Clone, Copy, PartialEq, Eq, Structural, Debug)]
pub struct DeckSet {
    pub codfish: bool,
    pub mackerel: bool,
    pub herring: bool,
    pub plaice: bool,
    pub salmon: bool,
}

impl DeckSet {
    /// Whether `d` is a member of this set.
    pub open spec fn has(self, d: Decks) -> bool {
        match d {
            Decks::Codfish => self.codfish,
            Decks::Mackerel => self.mackerel,
            Decks::Herring => self.herring,
            Decks::Plaice => self.plaice,
            Decks::Salmon => self.salmon,
        }
    }

    /// The set holding `d` alone.
    pub fn single(d: Decks) -> (r: DeckSet)
        ensures
            forall|e: Decks| r.has(e) <==> e == d,
    {
        let mut r = DeckSet {
            codfish: false,
            mackerel: false,
            herring: false,
            plaice: false,
            salmon: false,
        };
        r.insert(d);
        r
    }

    /// Adds `d` to the set.
    pub fn insert(&mut self, d: Decks)
        ensures
            forall|e: Decks| final(self).has(e) <==> old(self).has(e) || e == d,
    {
        match d {
            Decks::Codfish => self.codfish = true,
            Decks::Mackerel => self.mackerel = true,
            Decks::Herring => self.herring = true,
            Decks::Plaice => self.plaice = true,
            Decks::Salmon => self.salmon = true,
        }
    }

    /// Membership test.
    pub fn contains(&self, d: Decks) -> (r: bool)
        ensures
            r == self.has(d),
    {
        match d {
            Decks::Codfish => self.codfish,
            Decks::Mackerel => self.mackerel,
            Decks::Herring => self.herring,
            Decks::Plaice => self.plaice,
            Decks::Salmon => self.salmon,
        }
    }
}

/// Which decks a given selection activates for the initial setup: extra decks
/// given one by one win over the all-base-decks shorthand, which wins over the
/// all-decks shorthand; the chosen deck is always a member.
pub open spec fn spec_deck_selected(
    e: Decks,
    main_deck: Decks,
    addins: Seq<Decks>,
    all_base: bool,
    all_decks: bool,
) -> bool {
    if addins.len() > 0 {
        e == main_deck || addins.contains(e)
    } else if all_base {
        e == main_deck || e == Decks::Codfish || e == Decks::Herring || e == Decks::Mackerel
    } else if all_decks {
        true
    } else {
        e == main_deck
    }
}

/// Builds the active-deck set from the command-line selection.
pub fn decks_to_use(
    main_deck: Decks,
    addins: &Vec<Decks>,
    all_base: bool,
    all_decks: bool,
) -> (r: DeckSet)
    ensures
        forall|e: Decks| r.has(e) <==> spec_deck_selected(e, main_deck, addins@, all_base, all_decks),
{
    let mut r = DeckSet::single(main_deck);
    if addins.len() > 0 {
        let mut i: usize = 0;
        while i < addins.len()
            invariant
                i <= addins@.len(),
                forall|e: Decks| r.has(e) <==> (e == main_deck || exists|j: int|
                    0 <= j < i && addins@[j] == e),
            decreases addins@.len() - i,
        {
            r.insert(addins[i]);
            i += 1;
        }
        return r;
    }
    if all_base {
        r.insert(Decks::Codfish);
        r.insert(Decks::Herring);
        r.insert(Decks::Mackerel);
        return r;
    }
    if all_decks {
        r.insert(Decks::Codfish);
        r.insert(Decks::Herring);
        r.insert(Decks::Mackerel);
        r.insert(Decks::Plaice);
        r.insert(Decks::Salmon);
        return r;
    }
    r
}

} // verus!
