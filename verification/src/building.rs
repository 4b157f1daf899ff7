use vstd::prelude::*;

use crate::deck::Decks;

verus! {

/// One card of the dataset: a building with its display name, its identifier
/// within the deck, the deck it belongs to, its section tag ("A", "B" or "C"
/// in the shipped data) and its category label, which only picks a color.
#[derive(Debug)]
pub struct Building {
    pub name: String,
    pub number: String,
    pub deck: Decks,
    pub abc: String,
    pub color: String,
}

/// The mathematical value of a `Building`: its text fields as character
/// sequences.
pub ghost struct BuildingV {
    pub name: Seq<char>,
    pub number: Seq<char>,
    pub deck: Decks,
    pub abc: Seq<char>,
    pub color: Seq<char>,
}

impl View for Building {
    type V = BuildingV;

    open spec fn view(&self) -> BuildingV {
        BuildingV {
            name: self.name@,
            number: self.number@,
            deck: self.deck,
            abc: self.abc@,
            color: self.color@,
        }
    }
}

impl Clone for Building {
    fn clone(&self) -> (r: Self)
        ensures
            r == *self,
    {
        Building {
            name: self.name.clone(),
            number: self.number.clone(),
            deck: self.deck,
            abc: self.abc.clone(),
            color: self.color.clone(),
        }
    }
}

/// The identifiers of a pool, in pool order.
pub open spec fn numbers_of(s: Seq<Building>) -> Seq<Seq<char>> {
    s.map_values(|b: Building| b.number@)
}

/// The views of a list of owned strings.
pub open spec fn views_of_strings(s: Seq<String>) -> Seq<Seq<char>> {
    s.map_values(|t: String| t@)
}

/// The views of a list of buildings.
pub open spec fn views_of_buildings(s: Seq<Building>) -> Seq<BuildingV> {
    s.map_values(|b: Building| b@)
}

} // verus!
