use vstd::prelude::*;

use crate::building::{Building, views_of_strings};
use crate::game::Setup;

verus! {

broadcast use vstd::string::group_string_axioms;

/// The display color of a card's text, decided by its category label.
#[derive(Clone, Copy, PartialEq, Eq, Structural, Debug)]
pub enum CardColor {
    Black,
    Blue,
    Red,
    Yellow,
    BrightYellow,
    BrightBlack,
    Green,
    White,
}

/// The color a category label selects; a spoiler row is painted black
/// whatever its labels say, and an unknown label falls back to white.
pub open spec fn spec_color_for(label: Seq<char>, is_spoiler: bool) -> CardColor {
    if is_spoiler {
        CardColor::Black
    } else if label == "Anytime"@ {
        CardColor::Blue
    } else if label == "Immediately"@ {
        CardColor::Red
    } else if label == "Once"@ {
        CardColor::Yellow
    } else if label == "Victory Points"@ {
        CardColor::BrightYellow
    } else if label == "Special Ability"@ {
        CardColor::BrightBlack
    } else if label == "Whenever"@ {
        CardColor::Green
    } else {
        CardColor::White
    }
}

/// Picks the display color for a category label.
pub fn color_for(label: &String, is_spoiler: bool) -> (r: CardColor)
    ensures
        r == spec_color_for(label@, is_spoiler),
{
    proof {
        reveal_strlit("Anytime");
        reveal_strlit("Immediately");
        reveal_strlit("Once");
        reveal_strlit("Victory Points");
        reveal_strlit("Special Ability");
        reveal_strlit("Whenever");
    }
    if is_spoiler {
        CardColor::Black
    } else if label.eq(&String::from_str("Anytime")) {
        CardColor::Blue
    } else if label.eq(&String::from_str("Immediately")) {
        CardColor::Red
    } else if label.eq(&String::from_str("Once")) {
        CardColor::Yellow
    } else if label.eq(&String::from_str("Victory Points")) {
        CardColor::BrightYellow
    } else if label.eq(&String::from_str("Special Ability")) {
        CardColor::BrightBlack
    } else if label.eq(&String::from_str("Whenever")) {
        CardColor::Green
    } else {
        CardColor::White
    }
}

/// Whether `s` is free of the escape character that starts a display
/// attribute sequence.
pub open spec fn no_escape(s: Seq<char>) -> bool {
    forall|j: int| 0 <= j < s.len() ==> s[j] != '\u{1b}'
}

/// Whether `needle` occurs contiguously inside `hay`.
pub open spec fn contains_substring(hay: Seq<char>, needle: Seq<char>) -> bool {
    exists|i: int|
        0 <= i && i + needle.len() <= hay.len() && #[trigger] hay.subrange(i, i + needle.len())
            == needle
}

/// Relies on colored's `Colorize::color` and the `Display` of the colored
/// string it returns: whether or not color output is enabled, the input text
/// is written out verbatim, wrapped at most in escape sequences — so a text
/// that itself holds no escape character occurs in the result unchanged.
#[verifier::external_body]
fn paint(text: &str, color: &CardColor) -> (r: String)
    ensures
        (forall|j: int| 0 <= j < text@.len() ==> text@[j] != '\u{1b}') ==> contains_substring(
            r@,
            text@,
        ),
{
    let c = match color {
        CardColor::Black => colored::Color::Black,
        CardColor::Blue => colored::Color::Blue,
        CardColor::Red => colored::Color::Red,
        CardColor::Yellow => colored::Color::Yellow,
        CardColor::BrightYellow => colored::Color::BrightYellow,
        CardColor::BrightBlack => colored::Color::BrightBlack,
        CardColor::Green => colored::Color::Green,
        CardColor::White => colored::Color::White,
    };
    colored::Colorize::color(text, c).to_string()
}

/// Paints `text` in the color its category label selects, black for spoiler
/// rows.
pub fn colorize(text: &String, color: &String, is_spoiler: bool) -> (r: String)
    ensures
        (forall|j: int| 0 <= j < text@.len() ==> text@[j] != '\u{1b}') ==> contains_substring(
            r@,
            text@,
        ),
{
    let c = color_for(color, is_spoiler);
    paint(text.as_str(), &c)
}

/// `s` padded with spaces on the right up to width `w`; text already that
/// wide is kept as it is.
pub open spec fn spec_pad(s: Seq<char>, w: int) -> Seq<char> {
    if s.len() >= w {
        s
    } else {
        s + Seq::new((w - s.len()) as nat, |i: int| ' ')
    }
}

/// Pads `s` with spaces on the right up to width `w`.
pub fn pad_to(s: &String, w: usize) -> (r: String)
    ensures
        r@ == spec_pad(s@, w as int),
{
    let mut r = s.clone();
    let mut len = s.as_str().unicode_len();
    proof {
        reveal_strlit(" ");
    }
    if len >= w {
        return r;
    }
    while len < w
        invariant
            s@.len() <= len <= w,
            r@ == s@ + Seq::new((len - s@.len()) as nat, |i: int| ' '),
        decreases w - len,
    {
        let ghost old_r = r@;
        r.append(" ");
        proof {
            reveal_strlit(" ");
            assert(" "@ =~= seq![' ']);
            assert(old_r + seq![' '] =~= s@ + Seq::new((len + 1 - s@.len()) as nat, |i: int| ' '));
        }
        len = len + 1;
    }
    proof {
        assert(r@ == spec_pad(s@, w as int));
    }
    r
}

/// The text of one output line: each cell in order, with one extra `|` after
/// the second cell when a separator is requested.
pub open spec fn spec_join_from(cells: Seq<Seq<char>>, separator: bool, i: nat) -> Seq<char>
    decreases cells.len() - i,
{
    if i >= cells.len() {
        Seq::<char>::empty()
    } else {
        let here = if i == 1 && separator {
            cells[i as int] + seq!['|']
        } else {
            cells[i as int]
        };
        here + spec_join_from(cells, separator, (i + 1) as nat)
    }
}

pub open spec fn spec_join_cells(cells: Seq<Seq<char>>, separator: bool) -> Seq<char> {
    spec_join_from(cells, separator, 0)
}

/// Joins the cells of one output line.
pub fn build_line(cells: &Vec<String>, separator: bool) -> (r: String)
    ensures
        r@ == spec_join_cells(views_of_strings(cells@), separator),
{
    let ghost cv = views_of_strings(cells@);
    let mut r = String::new();
    let mut i: usize = 0;
    proof {
        reveal_strlit("|");
        assert(Seq::<char>::empty() + spec_join_from(cv, separator, 0) =~= spec_join_from(
            cv,
            separator,
            0,
        ));
    }
    while i < cells.len()
        invariant
            cv == views_of_strings(cells@),
            i <= cells@.len(),
            cells@.len() == cv.len(),
            spec_join_cells(cv, separator) == r@ + spec_join_from(cv, separator, i as nat),
        decreases cells@.len() - i,
    {
        let ghost pre = r@;
        r.append(cells[i].as_str());
        if i == 1 && separator {
            r.append("|");
            proof {
                reveal_strlit("|");
                assert("|"@ =~= seq!['|']);
                assert(r@ =~= pre + (cv[i as int] + seq!['|']));
            }
        } else {
            proof {
                assert(r@ =~= pre + cv[i as int]);
            }
        }
        proof {
            let here = if i == 1 && separator {
                cv[i as int] + seq!['|']
            } else {
                cv[i as int]
            };
            assert(spec_join_from(cv, separator, i as nat) == here + spec_join_from(
                cv,
                separator,
                (i + 1) as nat,
            ));
            assert(pre + (here + spec_join_from(cv, separator, (i + 1) as nat)) =~= (pre + here)
                + spec_join_from(cv, separator, (i + 1) as nat));
        }
        i += 1;
    }
    proof {
        assert(r@ + spec_join_from(cv, separator, i as nat) =~= r@);
    }
    r
}

/// `n` copies of one cell text.
pub fn repeat_cells(n: usize, piece: &str) -> (r: Vec<String>)
    ensures
        views_of_strings(r@) == Seq::new(n as nat, |i: int| piece@),
{
    let mut r: Vec<String> = Vec::new();
    let mut i: usize = 0;
    while i < n
        invariant
            i <= n,
            r@.len() == i,
            forall|j: int| 0 <= j < i ==> (#[trigger] r@[j])@ == piece@,
        decreases n - i,
    {
        r.push(piece.to_owned());
        i += 1;
    }
    proof {
        assert(views_of_strings(r@) =~= Seq::new(n as nat, |i: int| piece@));
    }
    r
}

/// Wraps one padded cell text in the card's side borders.
pub fn make_cell(content: &String) -> (r: String)
    ensures
        r@ == "| "@ + content@ + " |"@,
{
    let mut r = String::from_str("| ");
    r.append(content.as_str());
    r.append(" |");
    proof {
        assert(("| "@ + content@) + " |"@ =~= "| "@ + content@ + " |"@);
    }
    r
}

/// The top border cells of a row of `w` cards.
pub open spec fn spec_top_cells(w: nat) -> Seq<Seq<char>> {
    Seq::new(w, |i: int| "/----------------------\\"@)
}

/// The blank band cells of a row of `w` cards.
pub open spec fn spec_blank_cells(w: nat) -> Seq<Seq<char>> {
    Seq::new(w, |i: int| "|                      |"@)
}

/// The bottom border cells of a row of `w` cards.
pub open spec fn spec_bottom_cells(w: nat) -> Seq<Seq<char>> {
    Seq::new(w, |i: int| "\\----------------------/"@)
}

/// Whether the five lines of `ls` starting at `at` frame a row of `w`
/// cards: its top border, blank band and bottom border stand at the first,
/// third and fifth line of the block.
pub open spec fn block_frame_at(ls: Seq<String>, at: int, w: nat, separator: bool) -> bool {
    &&& (ls[at])@ == spec_join_cells(spec_top_cells(w), separator)
    &&& (ls[at + 2])@ == spec_join_cells(spec_blank_cells(w), separator)
    &&& (ls[at + 4])@ == spec_join_cells(spec_bottom_cells(w), separator)
}

/// Renders one row of cards as five output lines: a top border, the names,
/// a blank band, the identifiers, and a bottom border; with a separator a
/// `|` is inserted after the second card of every line, and in a spoiler
/// row every text is painted black. Each name and identifier is padded to
/// width 20 first and painted after, so the escape sequences stand outside
/// the padded field.
pub fn render_card_row(cards: &Vec<Building>, print_separator: bool, is_spoiler: bool) -> (r: Vec<
    String,
>)
    ensures
        r@.len() == 5,
        r@[0]@ == spec_join_cells(spec_top_cells(cards@.len()), print_separator),
        r@[2]@ == spec_join_cells(spec_blank_cells(cards@.len()), print_separator),
        r@[4]@ == spec_join_cells(spec_bottom_cells(cards@.len()), print_separator),
        block_frame_at(r@, 0, cards@.len(), print_separator),
        exists|pn: Seq<Seq<char>>, pq: Seq<Seq<char>>|
            #![trigger pn.len(), pq.len()]
            {
                &&& pn.len() == cards@.len()
                &&& pq.len() == cards@.len()
                &&& r@[1]@ == spec_join_cells(
                    Seq::new(cards@.len(), |i: int| "| "@ + pn[i] + " |"@),
                    print_separator,
                )
                &&& r@[3]@ == spec_join_cells(
                    Seq::new(cards@.len(), |i: int| "| "@ + pq[i] + " |"@),
                    print_separator,
                )
                &&& forall|i: int|
                    0 <= i < cards@.len() ==> (no_escape(cards@[i].name@)
                        ==> contains_substring(#[trigger] pn[i], spec_pad(cards@[i].name@, 20)))
                &&& forall|i: int|
                    0 <= i < cards@.len() ==> (no_escape(cards@[i].number@)
                        ==> contains_substring(#[trigger] pq[i], spec_pad(cards@[i].number@, 20)))
            },
{
    let n = cards.len();
    let top = repeat_cells(n, "/----------------------\\");
    let blank = repeat_cells(n, "|                      |");
    let bottom = repeat_cells(n, "\\----------------------/");
    let mut name_cells: Vec<String> = Vec::new();
    let mut number_cells: Vec<String> = Vec::new();
    let ghost mut pn = Seq::<Seq<char>>::empty();
    let ghost mut pq = Seq::<Seq<char>>::empty();
    let mut i: usize = 0;
    while i < n
        invariant
            n == cards@.len(),
            i <= n,
            name_cells@.len() == i,
            number_cells@.len() == i,
            pn.len() == i,
            pq.len() == i,
            forall|t: int| 0 <= t < i ==> (#[trigger] name_cells@[t])@ == "| "@ + pn[t] + " |"@,
            forall|t: int| 0 <= t < i ==> (#[trigger] number_cells@[t])@ == "| "@ + pq[t] + " |"@,
            forall|t: int|
                0 <= t < i ==> (no_escape(cards@[t].name@) ==> contains_substring(
                    #[trigger] pn[t],
                    spec_pad(cards@[t].name@, 20),
                )),
            forall|t: int|
                0 <= t < i ==> (no_escape(cards@[t].number@) ==> contains_substring(
                    #[trigger] pq[t],
                    spec_pad(cards@[t].number@, 20),
                )),
        decreases n - i,
    {
        let b = &cards[i];
        let padded_name = pad_to(&b.name, 20);
        let padded_number = pad_to(&b.number, 20);
        let painted_name = colorize(&padded_name, &b.color, is_spoiler);
        let painted_number = colorize(&padded_number, &b.color, is_spoiler);
        name_cells.push(make_cell(&painted_name));
        number_cells.push(make_cell(&painted_number));
        proof {
            // padding adds only spaces, so a clean text stays clean and the
            // paint wrapper's containment clause applies
            if no_escape(cards@[i as int].name@) {
                assert forall|j: int|
                    0 <= j < padded_name@.len() implies padded_name@[j] != '\u{1b}' by {
                    if j < cards@[i as int].name@.len() {
                        assert(cards@[i as int].name@[j] != '\u{1b}');
                    }
                }
            }
            if no_escape(cards@[i as int].number@) {
                assert forall|j: int|
                    0 <= j < padded_number@.len() implies padded_number@[j] != '\u{1b}' by {
                    if j < cards@[i as int].number@.len() {
                        assert(cards@[i as int].number@[j] != '\u{1b}');
                    }
                }
            }
            pn = pn.push(painted_name@);
            pq = pq.push(painted_number@);
        }
        i += 1;
    }
    let l0 = build_line(&top, print_separator);
    let l1 = build_line(&name_cells, print_separator);
    let l2 = build_line(&blank, print_separator);
    let l3 = build_line(&number_cells, print_separator);
    let l4 = build_line(&bottom, print_separator);
    proof {
        assert(views_of_strings(top@) =~= spec_top_cells(cards@.len()));
        assert(views_of_strings(blank@) =~= spec_blank_cells(cards@.len()));
        assert(views_of_strings(bottom@) =~= spec_bottom_cells(cards@.len()));
        assert(views_of_strings(name_cells@) =~= Seq::new(
            cards@.len(),
            |t: int| "| "@ + pn[t] + " |"@,
        ));
        assert(views_of_strings(number_cells@) =~= Seq::new(
            cards@.len(),
            |t: int| "| "@ + pq[t] + " |"@,
        ));
    }
    let mut r: Vec<String> = Vec::new();
    r.push(l0);
    r.push(l1);
    r.push(l2);
    r.push(l3);
    r.push(l4);
    r
}

/// Appends every line of `src` to `dst`.
pub fn push_lines(dst: &mut Vec<String>, src: &Vec<String>)
    ensures
        final(dst)@ == old(dst)@ + src@,
{
    let mut i: usize = 0;
    proof {
        assert(dst@ =~= old(dst)@ + src@.subrange(0, 0));
    }
    while i < src.len()
        invariant
            i <= src@.len(),
            dst@ == old(dst)@ + src@.subrange(0, i as int),
        decreases src@.len() - i,
    {
        dst.push(src[i].clone());
        proof {
            assert(dst@ =~= old(dst)@ + src@.subrange(0, i + 1));
        }
        i += 1;
    }
    proof {
        assert(old(dst)@ + src@.subrange(0, src@.len() as int) =~= old(dst)@ + src@);
    }
}

/// The decimal digit `d` as a character.
pub open spec fn spec_digit_char(d: int) -> char {
    if d == 0 {
        '0'
    } else if d == 1 {
        '1'
    } else if d == 2 {
        '2'
    } else if d == 3 {
        '3'
    } else if d == 4 {
        '4'
    } else if d == 5 {
        '5'
    } else if d == 6 {
        '6'
    } else if d == 7 {
        '7'
    } else if d == 8 {
        '8'
    } else {
        '9'
    }
}

/// The decimal digit `d` as text.
pub fn digit_string(d: usize) -> (r: String)
    requires
        d <= 9,
    ensures
        r@ == seq![spec_digit_char(d as int)],
{
    let r = match d {
        0 => String::from_str("0"),
        1 => String::from_str("1"),
        2 => String::from_str("2"),
        3 => String::from_str("3"),
        4 => String::from_str("4"),
        5 => String::from_str("5"),
        6 => String::from_str("6"),
        7 => String::from_str("7"),
        8 => String::from_str("8"),
        _ => String::from_str("9"),
    };
    proof {
        reveal_strlit("0");
        reveal_strlit("1");
        reveal_strlit("2");
        reveal_strlit("3");
        reveal_strlit("4");
        reveal_strlit("5");
        reveal_strlit("6");
        reveal_strlit("7");
        reveal_strlit("8");
        reveal_strlit("9");
        assert(r@ =~= seq![spec_digit_char(d as int)]);
    }
    r
}

/// Where the round 4 section of the output starts, when there is one.
pub open spec fn spec_round_4_start(st: Setup) -> int {
    5 * st.initial_rows@.len() as int + (if st.round_3_row is Some {
        6int
    } else {
        0int
    })
}

/// Renders a whole setup as output lines: five lines for each of the three
/// initial rows; a header and five lines for round 3 when it is dealt; when
/// round 4 deals at all, its header and, for every player, a player line and
/// five row lines; and a header and five lines for round 5 when it is dealt.
/// A round with no rows produces no output at all.
pub fn render_setup(st: &Setup) -> (r: Vec<String>)
    requires
        st.round_4_rows@.len() <= 9,
    ensures
        r@.len() == 5 * st.initial_rows@.len() + (if st.round_3_row is Some {
            6int
        } else {
            0int
        }) + (if st.round_4_rows@.len() > 0 {
            1 + 6 * st.round_4_rows@.len() as int
        } else {
            0int
        }) + (if st.round_5_row is Some {
            6int
        } else {
            0int
        }),
        forall|j: int|
            0 <= j < st.initial_rows@.len() ==> block_frame_at(
                r@,
                5 * j,
                (#[trigger] st.initial_rows@[j])@.len(),
                true,
            ),
        st.round_3_row is Some ==> (r@[5 * st.initial_rows@.len() as int])@
            == "********* ROUND 3 CARDS *********"@,
        st.round_3_row matches Some(row) ==> block_frame_at(
            r@,
            5 * st.initial_rows@.len() as int + 1,
            row@.len(),
            false,
        ),
        st.round_4_rows@.len() > 0 ==> (r@[spec_round_4_start(*st)])@
            == "******** ROUND 4 CARDS ********"@,
        forall|p: int|
            0 <= p < st.round_4_rows@.len() ==> (#[trigger] r@[spec_round_4_start(*st) + 1 + 6
                * p])@ == "Doing Player "@ + seq![spec_digit_char(p)],
        forall|p: int|
            0 <= p < st.round_4_rows@.len() ==> block_frame_at(
                r@,
                spec_round_4_start(*st) + 2 + 6 * p,
                (#[trigger] st.round_4_rows@[p])@.len(),
                false,
            ),
        st.round_5_row is Some ==> (r@[r@.len() as int - 6])@ == "********* ROUND 5 CARDS *********"@,
        st.round_5_row matches Some(row) ==> block_frame_at(
            r@,
            r@.len() as int - 5,
            row@.len(),
            false,
        ),
{
    let mut lines: Vec<String> = Vec::new();
    let mut j: usize = 0;
    while j < st.initial_rows.len()
        invariant
            j <= st.initial_rows@.len(),
            lines@.len() == 5 * j,
            forall|t: int|
                0 <= t < j ==> block_frame_at(
                    lines@,
                    5 * t,
                    (#[trigger] st.initial_rows@[t])@.len(),
                    true,
                ),
        decreases st.initial_rows@.len() - j,
    {
        let ghost pre = lines@;
        let row_lines = render_card_row(&st.initial_rows[j], true, false);
        push_lines(&mut lines, &row_lines);
        proof {
            assert(lines@[pre.len() as int] == row_lines@[0]);
            assert(lines@[pre.len() as int + 2] == row_lines@[2]);
            assert(lines@[pre.len() as int + 4] == row_lines@[4]);
        }
        j += 1;
    }
    let ghost base = lines@.len();
    match &st.round_3_row {
        Some(row) => {
            lines.push(String::from_str("********* ROUND 3 CARDS *********"));
            proof {
                assert((lines@[base as int])@ == "********* ROUND 3 CARDS *********"@);
            }
            let ghost pre = lines@;
            let row_lines = render_card_row(row, false, true);
            push_lines(&mut lines, &row_lines);
            proof {
                assert(lines@[pre.len() as int] == row_lines@[0]);
                assert(lines@[pre.len() as int + 2] == row_lines@[2]);
                assert(lines@[pre.len() as int + 4] == row_lines@[4]);
                assert(block_frame_at(lines@, base as int + 1, row@.len(), false));
            }
        },
        None => {},
    }
    let ghost r4h = lines@.len();
    proof {
        assert(r4h == spec_round_4_start(*st));
    }
    if st.round_4_rows.len() > 0 {
        lines.push(String::from_str("******** ROUND 4 CARDS ********"));
        proof {
            assert((lines@[r4h as int])@ == "******** ROUND 4 CARDS ********"@);
        }
        let mut p: usize = 0;
        let ghost mid = lines@.len();
        while p < st.round_4_rows.len()
            invariant
                st.round_4_rows@.len() <= 9,
                p <= st.round_4_rows@.len(),
                lines@.len() == mid + 6 * p,
                mid == r4h + 1,
                base == 5 * st.initial_rows@.len(),
                base <= r4h < lines@.len(),
                r4h == base + (if st.round_3_row is Some {
                    6int
                } else {
                    0int
                }),
                forall|t: int|
                    0 <= t < st.initial_rows@.len() ==> block_frame_at(
                        lines@,
                        5 * t,
                        (#[trigger] st.initial_rows@[t])@.len(),
                        true,
                    ),
                st.round_3_row is Some ==> (lines@[base as int])@
                    == "********* ROUND 3 CARDS *********"@,
                st.round_3_row matches Some(row) ==> block_frame_at(
                    lines@,
                    base as int + 1,
                    row@.len(),
                    false,
                ),
                (lines@[r4h as int])@ == "******** ROUND 4 CARDS ********"@,
                forall|t: int|
                    0 <= t < p ==> (#[trigger] lines@[r4h as int + 1 + 6 * t])@ == "Doing Player "@
                        + seq![spec_digit_char(t)],
                forall|t: int|
                    0 <= t < p ==> block_frame_at(
                        lines@,
                        r4h as int + 2 + 6 * t,
                        (#[trigger] st.round_4_rows@[t])@.len(),
                        false,
                    ),
            decreases st.round_4_rows@.len() - p,
        {
            let mut player_line = String::from_str("Doing Player ");
            player_line.append(digit_string(p).as_str());
            proof {
                assert(player_line@ =~= "Doing Player "@ + seq![spec_digit_char(p as int)]);
            }
            lines.push(player_line);
            proof {
                assert((lines@[r4h as int + 1 + 6 * p as int])@ == "Doing Player "@ + seq![
                    spec_digit_char(p as int),
                ]);
            }
            let ghost pre = lines@;
            let row_lines = render_card_row(&st.round_4_rows[p], false, true);
            push_lines(&mut lines, &row_lines);
            proof {
                assert(lines@[pre.len() as int] == row_lines@[0]);
                assert(lines@[pre.len() as int + 2] == row_lines@[2]);
                assert(lines@[pre.len() as int + 4] == row_lines@[4]);
                match &st.round_3_row {
                    Some(row) => {
                        assert(lines@[base as int + 1] == pre[base as int + 1]);
                        assert(lines@[base as int + 3] == pre[base as int + 3]);
                        assert(lines@[base as int + 5] == pre[base as int + 5]);
                        assert(block_frame_at(lines@, base as int + 1, row@.len(), false));
                    },
                    None => {},
                }
            }
            p += 1;
        }
    }
    match &st.round_5_row {
        Some(row) => {
            let ghost r5h = lines@.len();
            lines.push(String::from_str("********* ROUND 5 CARDS *********"));
            proof {
                assert((lines@[r5h as int])@ == "********* ROUND 5 CARDS *********"@);
            }
            let ghost pre = lines@;
            let row_lines = render_card_row(row, false, true);
            push_lines(&mut lines, &row_lines);
            proof {
                assert(r5h == lines@.len() - 6);
                assert(lines@[pre.len() as int] == row_lines@[0]);
                assert(lines@[pre.len() as int + 2] == row_lines@[2]);
                assert(lines@[pre.len() as int + 4] == row_lines@[4]);
                assert(block_frame_at(lines@, r5h as int + 1, row@.len(), false));
            }
        },
        None => {},
    }
    lines
}

} // verus!
