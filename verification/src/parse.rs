use vstd::prelude::*;

use crate::building::{Building, BuildingV, views_of_buildings, views_of_strings};
use crate::deck::{Decks, spec_deck_from_name};

verus! {

/// The pieces of `s` between occurrences of `sep`: one more piece than there
/// are separators, in order, with the separators themselves left out.
pub open spec fn spec_split(s: Seq<char>, sep: char) -> Seq<Seq<char>>
    decreases s.len(),
{
    if s.len() == 0 {
        seq![Seq::<char>::empty()]
    } else {
        let rest = spec_split(s.subrange(1, s.len() as int), sep);
        if s[0] == sep {
            seq![Seq::<char>::empty()].add(rest)
        } else {
            seq![seq![s[0]].add(rest[0])].add(rest.subrange(1, rest.len() as int))
        }
    }
}

pub proof fn lemma_split_len_pos(s: Seq<char>, sep: char)
    ensures
        spec_split(s, sep).len() >= 1,
    decreases s.len(),
{
    if s.len() != 0 {
        lemma_split_len_pos(s.subrange(1, s.len() as int), sep);
    }
}

/// Where no separator stands before position `i`, the split of `s` starts
/// with the piece `s[..i]`: either `i` is the end of `s` and that piece is
/// all there is, or `s[i]` is the first separator and the rest of the split
/// is the split of what follows it.
pub proof fn lemma_split_at_first(s: Seq<char>, sep: char, i: int)
    requires
        0 <= i <= s.len(),
        forall|j: int| 0 <= j < i ==> s[j] != sep,
    ensures
        i == s.len() ==> spec_split(s, sep) == seq![s],
        i < s.len() && s[i] == sep ==> spec_split(s, sep) == seq![s.subrange(0, i)].add(
            spec_split(s.subrange(i + 1, s.len() as int), sep),
        ),
    decreases i,
{
    if i == 0 {
        if i == s.len() {
            assert(s =~= Seq::<char>::empty());
            assert(spec_split(s, sep) =~~= seq![s]);
        } else if s[0] == sep {
            assert(s.subrange(0, 0) =~= Seq::<char>::empty());
            assert(spec_split(s, sep) =~~= seq![s.subrange(0, 0)].add(
                spec_split(s.subrange(1, s.len() as int), sep),
            ));
        }
    } else {
        let s1 = s.subrange(1, s.len() as int);
        let rest = spec_split(s1, sep);
        lemma_split_at_first(s1, sep, i - 1);
        if i == s.len() {
            // no separator anywhere in s
            assert(rest == seq![s1]);
            assert(seq![s[0]].add(rest[0]) =~= s);
            assert(spec_split(s, sep) =~~= seq![s]);
        } else if s[i] == sep {
            assert(s1[i - 1] == sep);
            let tail1 = s1.subrange(i, s1.len() as int);
            assert(rest == seq![s1.subrange(0, i - 1)].add(spec_split(tail1, sep)));
            assert(tail1 =~= s.subrange(i + 1, s.len() as int));
            assert(rest[0] == s1.subrange(0, i - 1));
            assert(seq![s[0]].add(s1.subrange(0, i - 1)) =~= s.subrange(0, i));
            assert(rest.subrange(1, rest.len() as int) =~= spec_split(
                s.subrange(i + 1, s.len() as int),
                sep,
            ));
            assert(spec_split(s, sep) =~~= seq![s.subrange(0, i)].add(
                spec_split(s.subrange(i + 1, s.len() as int), sep),
            ));
        }
    }
}

/// Splits `s` at every occurrence of `sep`.
pub fn split_str(s: &str, sep: char) -> (r: Vec<String>)
    ensures
        views_of_strings(r@) == spec_split(s@, sep),
{
    let n = s.unicode_len();
    let mut parts: Vec<String> = Vec::new();
    let mut start: usize = 0;
    let mut i: usize = 0;
    proof {
        assert(s@.subrange(0, n as int) =~= s@);
        assert(views_of_strings(parts@).add(spec_split(s@, sep)) =~= spec_split(s@, sep));
    }
    while i < n
        invariant
            n == s@.len(),
            start <= i <= n,
            forall|j: int| start <= j < i ==> s@[j] != sep,
            views_of_strings(parts@).add(spec_split(s@.subrange(start as int, n as int), sep))
                == spec_split(s@, sep),
        decreases n - i,
    {
        let c = s.get_char(i);
        if c == sep {
            let piece = s.substring_char(start, i).to_owned();
            proof {
                let suf = s@.subrange(start as int, n as int);
                lemma_split_at_first(suf, sep, i - start);
                assert(suf.subrange(0, i - start) =~= s@.subrange(start as int, i as int));
                assert(suf.subrange(i - start + 1, suf.len() as int) =~= s@.subrange(
                    i + 1,
                    n as int,
                ));
                assert(views_of_strings(parts@.push(piece)) =~= views_of_strings(parts@).push(
                    piece@,
                ));
                assert(views_of_strings(parts@).push(piece@).add(
                    spec_split(s@.subrange(i + 1, n as int), sep),
                ) =~= views_of_strings(parts@).add(
                    seq![piece@].add(spec_split(s@.subrange(i + 1, n as int), sep)),
                ));
            }
            parts.push(piece);
            start = i + 1;
        }
        i += 1;
    }
    let piece = s.substring_char(start, n).to_owned();
    proof {
        let suf = s@.subrange(start as int, n as int);
        lemma_split_at_first(suf, sep, n - start);
        assert(views_of_strings(parts@.push(piece)) =~= views_of_strings(parts@).push(piece@));
        assert(views_of_strings(parts@).push(piece@) =~= views_of_strings(parts@).add(
            seq![piece@],
        ));
    }
    parts.push(piece);
    parts
}

/// The record a line of the dataset describes: its five tab-separated fields
/// in order, rejected unless there are exactly five and the third names a
/// deck.
pub open spec fn spec_building_of_line(l: Seq<char>) -> Option<BuildingV> {
    let fs = spec_split(l, '\t');
    if fs.len() == 5 {
        match spec_deck_from_name(fs[2]) {
            Some(d) => Some(
                BuildingV { name: fs[0], number: fs[1], deck: d, abc: fs[3], color: fs[4] },
            ),
            None => None,
        }
    } else {
        None
    }
}

/// The records of a list of lines, malformed lines dropped.
pub open spec fn spec_buildings_of_lines(lines: Seq<Seq<char>>) -> Seq<BuildingV>
    decreases lines.len(),
{
    if lines.len() == 0 {
        Seq::<BuildingV>::empty()
    } else {
        let rest = spec_buildings_of_lines(lines.subrange(1, lines.len() as int));
        match spec_building_of_line(lines[0]) {
            Some(b) => seq![b].add(rest),
            None => rest,
        }
    }
}

/// The records of a whole dataset: its lines after the header row, each
/// parsed as a tab-separated record, malformed lines dropped.
pub open spec fn spec_parse(data: Seq<char>) -> Seq<BuildingV> {
    let lines = spec_split(data, '\n');
    spec_buildings_of_lines(lines.subrange(1, lines.len() as int))
}

/// Parses the tab-separated dataset: the first line is a header, every later
/// line with exactly five fields and a known deck name in the third becomes a
/// record, and every other line is silently dropped.
pub fn parse_records(data: &str) -> (r: Vec<Building>)
    ensures
        views_of_buildings(r@) == spec_parse(data@),
{
    let lines = split_str(data, '\n');
    let ghost lines_v = views_of_strings(lines@);
    let mut out: Vec<Building> = Vec::new();
    let mut i: usize = 1;
    proof {
        lemma_split_len_pos(data@, '\n');
        assert(views_of_buildings(out@).add(
            spec_buildings_of_lines(lines_v.subrange(1, lines_v.len() as int)),
        ) =~= spec_parse(data@));
    }
    while i < lines.len()
        invariant
            lines_v == views_of_strings(lines@),
            lines_v == spec_split(data@, '\n'),
            1 <= i <= lines@.len(),
            lines@.len() == lines_v.len(),
            views_of_buildings(out@).add(
                spec_buildings_of_lines(lines_v.subrange(i as int, lines_v.len() as int)),
            ) == spec_parse(data@),
        decreases lines@.len() - i,
    {
        let fields = split_str(lines[i].as_str(), '\t');
        let ghost suf = lines_v.subrange(i as int, lines_v.len() as int);
        proof {
            assert(suf[0] == lines_v[i as int]);
            assert(suf.subrange(1, suf.len() as int) =~= lines_v.subrange(
                i + 1,
                lines_v.len() as int,
            ));
            assert(views_of_strings(fields@) == spec_split(lines_v[i as int], '\t'));
        }
        if fields.len() == 5 {
            match Decks::from_name(fields[2].as_str()) {
                Some(d) => {
                    let b = Building {
                        name: fields[0].clone(),
                        number: fields[1].clone(),
                        deck: d,
                        abc: fields[3].clone(),
                        color: fields[4].clone(),
                    };
                    proof {
                        assert(views_of_strings(fields@)[0] == fields@[0]@);
                        assert(views_of_strings(fields@)[1] == fields@[1]@);
                        assert(views_of_strings(fields@)[2] == fields@[2]@);
                        assert(views_of_strings(fields@)[3] == fields@[3]@);
                        assert(views_of_strings(fields@)[4] == fields@[4]@);
                        assert(spec_building_of_line(suf[0]) == Some(b@));
                        assert(views_of_buildings(out@.push(b)) =~= views_of_buildings(
                            out@,
                        ).push(b@));
                        assert(views_of_buildings(out@).push(b@).add(
                            spec_buildings_of_lines(suf.subrange(1, suf.len() as int)),
                        ) =~= views_of_buildings(out@).add(
                            seq![b@].add(spec_buildings_of_lines(suf.subrange(1, suf.len() as int))),
                        ));
                    }
                    out.push(b);
                },
                None => {
                    proof {
                        assert(spec_building_of_line(suf[0]) is None);
                    }
                },
            }
        } else {
            proof {
                assert(views_of_strings(fields@).len() == fields@.len());
                assert(spec_building_of_line(suf[0]) is None);
            }
        }
        i += 1;
    }
    proof {
        assert(lines_v.subrange(i as int, lines_v.len() as int) =~= Seq::<Seq<char>>::empty());
        assert(views_of_buildings(out@).add(Seq::<BuildingV>::empty()) =~= views_of_buildings(
            out@,
        ));
    }
    out
}

} // verus!
