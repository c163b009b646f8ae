//! The picture of a scored row: three lines of boxes, one box per letter,
//! each on the background that its verdict calls for.

use crate::score::{square, ScoredRow, Square, Verdict};
use colored::Colorize;
use vstd::prelude::*;

verus! {

/// The background of a box.
#[derive(Clone, Copy, Debug, PartialEq, Eq, Hash, Structural)]
pub enum Color {
    Gray,
    Yellow,
    Green,
}

/// A stretch of text on one background.
#[derive(Clone, Debug, PartialEq, Eq)]
pub struct Cell {
    pub color: Color,
    pub text: String,
}

impl View for Cell {
    type V = (Color, Seq<char>);

    open spec fn view(&self) -> (Color, Seq<char>) {
        (self.color, self.text@)
    }
}

/// The background that shows a verdict.
pub open spec fn color_of(verdict: Verdict) -> Color {
    match verdict {
        Verdict::Correct => Color::Green,
        Verdict::Present => Color::Yellow,
        Verdict::Absent => Color::Gray,
    }
}

/// What a box holds on line `line`: its upper edge, the letter between its
/// sides, or its lower edge.
pub open spec fn box_text(line: int, letter: char) -> Seq<char> {
    if line == 0 {
        "┌───┐"@
    } else if line == 1 {
        "│ "@.push(letter) + " │"@
    } else {
        "└───┘"@
    }
}

/// The cell that shows `square` on line `line`.
pub open spec fn cell_of(square: Square, line: int) -> (Color, Seq<char>) {
    (color_of(square.verdict), box_text(line, square.letter))
}

/// Line `line` of the picture of `row`: one cell for each square.
pub open spec fn line_of(row: Seq<Square>, line: int) -> Seq<(Color, Seq<char>)> {
    Seq::new(row.len(), |k: int| cell_of(row[k], line))
}

/// The picture of `row`: three lines.
pub open spec fn layout_of(row: Seq<Square>) -> Seq<Seq<(Color, Seq<char>)>> {
    Seq::new(3, |line: int| line_of(row, line))
}

/// What a picture stands for: line by line, the cells with their
/// backgrounds and texts.
pub open spec fn cells_of(lines: Seq<Vec<Cell>>) -> Seq<Seq<(Color, Seq<char>)>> {
    Seq::new(lines.len(), |line: int| Seq::new(lines[line]@.len(), |k: int| lines[line]@[k]@))
}

/// The text of a line whose cells are printed as `cells`: each of them with
/// two spaces behind it.
pub open spec fn line_text(cells: Seq<Seq<char>>) -> Seq<char>
    decreases cells.len(),
{
    if cells.len() == 0 {
        Seq::empty()
    } else {
        line_text(cells.drop_last()) + cells.last() + "  "@
    }
}

/// The text of a picture whose lines hold `lines`: each line with a line
/// feed behind it.
pub open spec fn picture_text(lines: Seq<Seq<Seq<char>>>) -> Seq<char>
    decreases lines.len(),
{
    if lines.len() == 0 {
        Seq::empty()
    } else {
        picture_text(lines.drop_last()) + line_text(lines.last()) + "\n"@
    }
}

/// Calls `String::push`. Trusted: that it puts the character at the end of
/// the string and changes nothing else.
#[verifier::external_body]
fn push_char(text: &mut String, c: char)
    ensures
        final(text)@ == old(text)@.push(c),
{
    text.push(c)
}

/// Whether `text` holds the code that sets a terminal back: an escape,
/// `[`, `0` and `m` in a row.
pub open spec fn holds_reset(text: Seq<char>) -> bool {
    exists|i: int|
        0 <= i && i + 3 < text.len() && #[trigger] text[i] == '\u{1b}' && text[i + 1] == '['
            && text[i + 2] == '0' && text[i + 3] == 'm'
}

/// The code that sets a terminal back.
pub open spec fn reset() -> Seq<char> {
    seq!['\u{1b}', '[', '0', 'm']
}

/// Whether `text` begins with the code that sets a terminal back.
pub open spec fn begins_with_reset(text: Seq<char>) -> bool {
    text.len() >= 4 && text[0] == '\u{1b}' && text[1] == '[' && text[2] == '0' && text[3] == 'm'
}

/// The code that sets a background: `code` between an escape with `[` and
/// an `m`.
pub open spec fn style(code: Seq<char>) -> Seq<char> {
    seq!['\u{1b}', '['] + code + seq!['m']
}

/// `text` with `style` set again behind each code in it that sets the
/// terminal back, so that the background holds to the end of the text.
pub open spec fn mended(text: Seq<char>, style: Seq<char>) -> Seq<char>
    decreases text.len(),
{
    if text.len() == 0 {
        text
    } else if begins_with_reset(text) {
        reset() + style + mended(text.skip(4), style)
    } else {
        seq![text[0]] + mended(text.skip(1), style)
    }
}

/// `text` on a background: behind the code that sets the background, mended
/// so that the background holds, and before the code that sets everything
/// back.
pub open spec fn wrapped(code: Seq<char>, text: Seq<char>) -> Seq<char> {
    style(code) + mended(text, style(code)) + reset()
}

/// The code for a green background.
pub open spec fn green_code() -> Seq<char> {
    seq!['4', '2']
}

/// The code for a yellow background.
pub open spec fn yellow_code() -> Seq<char> {
    seq!['4', '3']
}

/// The code for the gray background, for a terminal that takes any color:
/// red, green and blue at 127 each.
pub open spec fn gray_code() -> Seq<char> {
    seq!['4', '8', ';', '2', ';', '1', '2', '7', ';', '1', '2', '7', ';', '1', '2', '7']
}

/// The code for the nearest background to that gray that every terminal
/// takes: bright black, which is that very gray.
pub open spec fn bright_black_code() -> Seq<char> {
    seq!['1', '0', '0']
}

/// Whether `painted` shows `text` on the background `color`: where colors
/// are off it is the text as it stands, and where they are on it is the
/// mended text between the code for that background and the code that sets
/// the terminal back. Gray has one code or the other, by what the terminal
/// takes.
pub open spec fn shows(painted: Seq<char>, color: Color, text: Seq<char>) -> bool {
    ||| painted == text
    ||| match color {
        Color::Green => painted == wrapped(green_code(), text),
        Color::Yellow => painted == wrapped(yellow_code(), text),
        Color::Gray => painted == wrapped(gray_code(), text) || painted == wrapped(
            bright_black_code(),
            text,
        ),
    }
}

/// Calls `Colorize::on_green` of `colored` and formats what it returns.
/// Trusted: that the string is the text itself where colors are off, and
/// where they are on the code for a green background, the text with that
/// code set again behind each reset in it, and the reset. Which of the two
/// lies with the terminal and the environment.
#[verifier::external_body]
fn on_green(text: &str) -> (painted: String)
    ensures
        painted@ == text@ || painted@ == wrapped(green_code(), text@),
{
    format!("{}", text.on_green())
}

/// Calls `Colorize::on_yellow` of `colored` and formats what it returns.
/// Trusted: that the string is the text itself where colors are off, and
/// where they are on the code for a yellow background, the text with that
/// code set again behind each reset in it, and the reset. Which of the two
/// lies with the terminal and the environment.
#[verifier::external_body]
fn on_yellow(text: &str) -> (painted: String)
    ensures
        painted@ == text@ || painted@ == wrapped(yellow_code(), text@),
{
    format!("{}", text.on_yellow())
}

/// Calls `Colorize::on_truecolor` of `colored` and formats what it returns.
/// Trusted: that the string is the text itself where colors are off, and
/// where they are on a code for a background, the text with that code set
/// again behind each reset in it, and the reset. The code is that of the
/// color itself where the environment announces a terminal that takes any
/// color, and else that of the nearest of sixteen colors. For 127, 127, 127
/// these are the two codes given: that gray is bright black, one of the
/// sixteen.
#[verifier::external_body]
fn on_truecolor(text: &str, r: u8, g: u8, b: u8) -> (painted: String)
    ensures
        painted@ == text@ || exists|code: Seq<char>| painted@ == #[trigger] wrapped(code, text@),
        r == 127 && g == 127 && b == 127 ==> painted@ == text@ || painted@ == wrapped(
            gray_code(),
            text@,
        ) || painted@ == wrapped(bright_black_code(), text@),
{
    format!("{}", text.on_truecolor(r, g, b))
}

/// The background that shows `verdict`.
pub fn color_for(verdict: Verdict) -> (color: Color)
    ensures
        color == color_of(verdict),
{
    match verdict {
        Verdict::Correct => Color::Green,
        Verdict::Present => Color::Yellow,
        Verdict::Absent => Color::Gray,
    }
}

/// The text of a box on line `line`.
fn box_for(line: usize, letter: char) -> (text: String)
    ensures
        text@ == box_text(line as int, letter),
{
    if line == 0 {
        String::from_str("┌───┐")
    } else if line == 1 {
        let mut text = String::from_str("│ ");
        push_char(&mut text, letter);
        text.append(" │");
        text
    } else {
        String::from_str("└───┘")
    }
}

/// Lays out the picture of `row`: three lines of five cells.
pub fn layout(row: &ScoredRow) -> (lines: Vec<Vec<Cell>>)
    ensures
        cells_of(lines@) == layout_of(row@),
{
    let mut lines: Vec<Vec<Cell>> = Vec::new();
    let mut line: usize = 0;
    while line < 3
        invariant
            line <= 3,
            row@.len() == 5,
            lines@.len() == line,
            forall|l: int|
                0 <= l < line ==> {
                    &&& (#[trigger] lines@[l])@.len() == 5
                    &&& forall|k: int|
                        0 <= k < 5 ==> (#[trigger] lines@[l]@[k])@ == cell_of(row@[k], l)
                },
        decreases 3 - line,
    {
        let mut cells: Vec<Cell> = Vec::new();
        let mut k: usize = 0;
        while k < 5
            invariant
                k <= 5,
                line < 3,
                row@.len() == 5,
                cells@.len() == k,
                forall|j: int| 0 <= j < k ==> (#[trigger] cells@[j])@ == cell_of(row@[j], line as int),
            decreases 5 - k,
        {
            let shown = square(row, k);
            cells.push(Cell { color: color_for(shown.verdict), text: box_for(line, shown.letter) });
            k += 1;
        }
        lines.push(cells);
        line += 1;
    }
    proof {
        let got = cells_of(lines@);
        let want = layout_of(row@);
        assert(got.len() == want.len());
        assert forall|l: int| 0 <= l < 3 implies got[l] == want[l] by {
            assert(lines@[l]@.len() == 5);
            assert forall|k: int| 0 <= k < 5 implies got[l][k] == want[l][k] by {
                assert(lines@[l]@[k]@ == cell_of(row@[k], l));
            }
            assert(got[l] =~= want[l]);
        }
        assert(got =~= want);
    }
    lines
}

/// The text that shows `text` on the background `color`. Whether colors
/// are on lies with the terminal and the environment, so either form may
/// come back.
pub fn paint(color: Color, text: &str) -> (painted: String)
    ensures
        shows(painted@, color, text@),
{
    match color {
        Color::Gray => on_truecolor(text, 127, 127, 127),
        Color::Yellow => on_yellow(text),
        Color::Green => on_green(text),
    }
}

/// Puts painted cells together: each cell with two spaces behind it, each
/// line with a line feed behind it.
pub fn assemble(painted: &Vec<Vec<String>>) -> (picture: String)
    ensures
        picture@ == picture_text(painted.deep_view()),
{
    let ghost texts = painted.deep_view();
    let mut picture = String::new();
    let mut line: usize = 0;
    while line < painted.len()
        invariant
            line <= painted.len(),
            texts == painted.deep_view(),
            texts.len() == painted@.len(),
            picture@ == picture_text(texts.take(line as int)),
        decreases painted.len() - line,
    {
        let cells = &painted[line];
        let ghost cell_texts = cells.deep_view();
        let ghost before = picture@;
        let mut k: usize = 0;
        while k < cells.len()
            invariant
                k <= cells.len(),
                cell_texts == cells.deep_view(),
                cell_texts.len() == cells@.len(),
                picture@ == before + line_text(cell_texts.take(k as int)),
            decreases cells.len() - k,
        {
            picture.append(cells[k].as_str());
            picture.append("  ");
            proof {
                assert(cell_texts.take(k + 1).drop_last() =~= cell_texts.take(k as int));
                assert(cell_texts.take(k + 1).last() == cells@[k as int]@);
            }
            k += 1;
        }
        picture.append("\n");
        proof {
            assert(cell_texts.take(k as int) =~= cell_texts);
            assert(texts.take(line + 1).drop_last() =~= texts.take(line as int));
            assert(texts.take(line + 1).last() == cell_texts);
        }
        line += 1;
    }
    proof {
        assert(texts.take(line as int) =~= texts);
    }
    picture
}

/// Whether `painted` holds one painted text for each cell of a picture of
/// three lines of five.
pub open spec fn fits_picture(painted: Seq<Seq<Seq<char>>>) -> bool {
    painted.len() == 3 && forall|line: int| 0 <= line < 3 ==> (#[trigger] painted[line]).len() == 5
}

/// Whether `painted` holds, for each cell of the picture of `row`, a text
/// that shows the box of that cell on the background of its square's
/// verdict.
pub open spec fn paints(painted: Seq<Seq<Seq<char>>>, row: Seq<Square>) -> bool {
    &&& fits_picture(painted)
    &&& forall|line: int, k: int|
        0 <= line < 3 && 0 <= k < 5 ==> shows(
            #[trigger] painted[line][k],
            color_of(row[k].verdict),
            box_text(line, row[k].letter),
        )
}

/// A text that holds no code to set the terminal back needs no mending.
pub proof fn lemma_mended_without_reset(text: Seq<char>, style: Seq<char>)
    requires
        !holds_reset(text),
    ensures
        mended(text, style) == text,
    decreases text.len(),
{
    if text.len() > 0 {
        assert(!begins_with_reset(text)) by {
            if begins_with_reset(text) {
                assert(text[0] == '\u{1b}');
            }
        }
        let rest = text.skip(1);
        assert(!holds_reset(rest)) by {
            if holds_reset(rest) {
                let i: int = choose|i: int|
                    0 <= i && i + 3 < rest.len() && #[trigger] rest[i] == '\u{1b}' && rest[i + 1]
                        == '[' && rest[i + 2] == '0' && rest[i + 3] == 'm';
                assert(text[i + 1] == '\u{1b}');
            }
        }
        lemma_mended_without_reset(rest, style);
        assert(seq![text[0]] + rest =~= text);
    }
}

/// A painted box is the box between the code for its background and the
/// code that sets the terminal back: no box needs mending.
pub proof fn lemma_box_wrapped(code: Seq<char>, line: int, letter: char)
    ensures
        wrapped(code, box_text(line, letter)) == style(code) + box_text(line, letter) + reset(),
{
    lemma_box_holds_no_reset(line, letter);
    lemma_mended_without_reset(box_text(line, letter), style(code));
}

/// No box holds a code to set the terminal back, whatever its letter.
pub proof fn lemma_box_holds_no_reset(line: int, letter: char)
    ensures
        !holds_reset(box_text(line, letter)),
{
    reveal_strlit("┌───┐");
    reveal_strlit("│ ");
    reveal_strlit(" │");
    reveal_strlit("└───┘");
    let text = box_text(line, letter);
    assert(text.len() == 5);
    assert(text[0] != '\u{1b}');
    assert(text[1] != '\u{1b}');
}

/// Renders `row` for the terminal: the boxes of its layout, each painted on
/// the background of its square's verdict, and put together. Whether colors
/// are on, and which of its two codes gray goes by, lies with the terminal
/// and the environment.
pub fn render(row: &ScoredRow) -> (picture: String)
    ensures
        exists|painted: Seq<Seq<Seq<char>>>|
            paints(painted, row@) && picture@ == picture_text(painted),
{
    let lines = layout(row);
    assert(cells_of(lines@).len() == 3);
    let mut painted: Vec<Vec<String>> = Vec::new();
    let mut line: usize = 0;
    while line < 3
        invariant
            line <= 3,
            lines@.len() == 3,
            cells_of(lines@) == layout_of(row@),
            row@.len() == 5,
            painted@.len() == line,
            forall|l: int| 0 <= l < line ==> (#[trigger] painted@[l])@.len() == 5,
            forall|l: int, j: int|
                0 <= l < line && 0 <= j < 5 ==> shows(
                    #[trigger] painted@[l]@[j]@,
                    color_of(row@[j].verdict),
                    box_text(l, row@[j].letter),
                ),
        decreases 3 - line,
    {
        let cells = &lines[line];
        assert(cells@.len() == 5) by {
            assert(cells_of(lines@)[line as int].len() == layout_of(row@)[line as int].len());
        }
        let mut texts: Vec<String> = Vec::new();
        let mut k: usize = 0;
        while k < 5
            invariant
                k <= 5,
                line < 3,
                lines@.len() == 3,
                cells == lines@[line as int],
                cells_of(lines@) == layout_of(row@),
                row@.len() == 5,
                cells@.len() == 5,
                texts@.len() == k,
                forall|j: int|
                    0 <= j < k ==> shows(
                        #[trigger] texts@[j]@,
                        color_of(row@[j].verdict),
                        box_text(line as int, row@[j].letter),
                    ),
            decreases 5 - k,
        {
            proof {
                assert(cells_of(lines@)[line as int][k as int] == layout_of(row@)[line as int][k as int]);
                assert(cells@[k as int]@ == cell_of(row@[k as int], line as int));
            }
            texts.push(paint(cells[k].color, cells[k].text.as_str()));
            k += 1;
        }
        painted.push(texts);
        line += 1;
    }
    let picture = assemble(&painted);
    proof {
        let shown = painted.deep_view();
        assert(shown.len() == 3);
        assert forall|l: int| 0 <= l < 3 implies (#[trigger] shown[l]).len() == 5 by {
            assert(painted@[l]@.len() == 5);
        }
        assert forall|l: int, j: int| 0 <= l < 3 && 0 <= j < 5 implies shows(
            #[trigger] shown[l][j],
            color_of(row@[j].verdict),
            box_text(l, row@[j].letter),
        ) by {
            assert(painted@[l]@.len() == 5);
            assert(shown[l][j] == painted@[l]@[j]@);
        }
        assert(paints(shown, row@));
    }
    picture
}

/// With colors on, the three backgrounds are told apart: two paintings of
/// one text on different backgrounds, neither of them the bare text, are
/// different.
pub proof fn lemma_treatments_distinct(
    first: Color,
    second: Color,
    text: Seq<char>,
    painted_first: Seq<char>,
    painted_second: Seq<char>,
)
    requires
        first != second,
        shows(painted_first, first, text),
        shows(painted_second, second, text),
        painted_first != text,
        painted_second != text,
    ensures
        painted_first != painted_second,
{
    // The codes differ in their first or their second character, which
    // stand third and fourth in the painted text.
    assert(wrapped(green_code(), text)[2] == '4' && wrapped(green_code(), text)[3] == '2');
    assert(wrapped(yellow_code(), text)[2] == '4' && wrapped(yellow_code(), text)[3] == '3');
    assert(wrapped(gray_code(), text)[2] == '4' && wrapped(gray_code(), text)[3] == '8');
    assert(wrapped(bright_black_code(), text)[2] == '1');
}

/// Whether `picture` begins with `start`.
spec fn begins_with(picture: Seq<char>, start: Seq<char>) -> bool {
    start.len() <= picture.len() && picture.subrange(0, start.len() as int) == start
}

/// A line begins with its cells up to any one of them.
proof fn lemma_line_begins(cells: Seq<Seq<char>>, j: int)
    requires
        0 <= j < cells.len(),
    ensures
        begins_with(line_text(cells), line_text(cells.take(j)) + cells[j]),
    decreases cells.len(),
{
    let start = line_text(cells.take(j)) + cells[j];
    let shorter = cells.drop_last();
    if j == cells.len() - 1 {
        assert(cells.take(j) =~= shorter);
        assert(line_text(cells).subrange(0, start.len() as int) =~= start);
    } else {
        lemma_line_begins(shorter, j);
        assert(shorter.take(j) =~= cells.take(j));
        assert(shorter[j] == cells[j]);
        assert(line_text(shorter).subrange(0, start.len() as int) == start);
        assert(line_text(cells).subrange(0, start.len() as int) =~= line_text(shorter).subrange(
            0,
            start.len() as int,
        ));
    }
}

/// A picture begins with its first line.
proof fn lemma_picture_begins(lines: Seq<Seq<Seq<char>>>)
    requires
        lines.len() > 0,
    ensures
        begins_with(picture_text(lines), line_text(lines[0])),
    decreases lines.len(),
{
    let start = line_text(lines[0]);
    let fewer = lines.drop_last();
    if lines.len() == 1 {
        assert(picture_text(fewer) =~= Seq::<char>::empty());
        assert(picture_text(lines).subrange(0, start.len() as int) =~= start);
    } else {
        lemma_picture_begins(fewer);
        assert(fewer[0] == lines[0]);
        assert(picture_text(lines).subrange(0, start.len() as int) =~= picture_text(
            fewer,
        ).subrange(0, start.len() as int));
    }
}

/// Where two lines differ in a cell, there is a first cell in which they
/// differ.
proof fn lemma_first_difference(first: Seq<Seq<char>>, second: Seq<Seq<char>>, k: int) -> (j: int)
    requires
        0 <= k < first.len(),
        0 <= k < second.len(),
        first[k] != second[k],
    ensures
        0 <= j <= k,
        first[j] != second[j],
        first.take(j) == second.take(j),
    decreases k,
{
    if first.take(k) =~= second.take(k) {
        k
    } else {
        let i: int = choose|i: int| 0 <= i < k && first.take(k)[i] != second.take(k)[i];
        let j: int = lemma_first_difference(first, second, i);
        j
    }
}

/// With colors on, a verdict shows in the picture: two rows of the same
/// letters that differ in a verdict have different pictures, whichever of
/// its codes gray goes by. That colors are on is to say that no cell is
/// left as its bare text.
pub proof fn lemma_verdict_shows(
    first: Seq<Square>,
    second: Seq<Square>,
    painted_first: Seq<Seq<Seq<char>>>,
    painted_second: Seq<Seq<Seq<char>>>,
    k: int,
)
    requires
        first.len() == 5,
        second.len() == 5,
        forall|j: int| 0 <= j < 5 ==> first[j].letter == second[j].letter,
        0 <= k < 5,
        first[k].verdict != second[k].verdict,
        paints(painted_first, first),
        paints(painted_second, second),
        forall|line: int, j: int|
            0 <= line < 3 && 0 <= j < 5 ==> #[trigger] painted_first[line][j] != box_text(
                line,
                first[j].letter,
            ),
        forall|line: int, j: int|
            0 <= line < 3 && 0 <= j < 5 ==> #[trigger] painted_second[line][j] != box_text(
                line,
                second[j].letter,
            ),
    ensures
        picture_text(painted_first) != picture_text(painted_second),
{
    let top_first = painted_first[0];
    let top_second = painted_second[0];
    assert(top_first[k] != top_second[k]) by {
        lemma_treatments_distinct(
            color_of(first[k].verdict),
            color_of(second[k].verdict),
            box_text(0, first[k].letter),
            top_first[k],
            top_second[k],
        );
    }
    let j = lemma_first_difference(top_first, top_second, k);
    let edge = box_text(0, first[j].letter);
    let cell_first = top_first[j];
    let cell_second = top_second[j];
    assert(shows(cell_first, color_of(first[j].verdict), edge));
    assert(shows(cell_second, color_of(second[j].verdict), edge));
    assert(cell_first != edge && cell_second != edge);
    // Each of the two cells goes by one of four codes, which differ in
    // their first or their second character.
    assert(wrapped(green_code(), edge)[2] == '4' && wrapped(green_code(), edge)[3] == '2');
    assert(wrapped(yellow_code(), edge)[2] == '4' && wrapped(yellow_code(), edge)[3] == '3');
    assert(wrapped(gray_code(), edge)[2] == '4' && wrapped(gray_code(), edge)[3] == '8');
    assert(wrapped(bright_black_code(), edge)[2] == '1' && wrapped(bright_black_code(), edge)[3]
        == '0');
    assert(cell_first.len() >= 4 && cell_second.len() >= 4);
    let at: int = if cell_first[2] != cell_second[2] {
        2
    } else {
        3
    };
    assert(cell_first[at] != cell_second[at]);

    let before = line_text(top_first.take(j));
    assert(before == line_text(top_second.take(j)));
    let start_first = before + cell_first;
    let start_second = before + cell_second;
    let picture_first = picture_text(painted_first);
    let picture_second = picture_text(painted_second);
    lemma_line_begins(top_first, j);
    lemma_line_begins(top_second, j);
    lemma_picture_begins(painted_first);
    lemma_picture_begins(painted_second);
    let place = before.len() + at;
    assert(picture_first[place] == cell_first[at]) by {
        let line = line_text(top_first);
        assert(picture_first.subrange(0, line.len() as int)[place] == line[place]);
        assert(line.subrange(0, start_first.len() as int)[place] == start_first[place]);
        assert(start_first[place] == cell_first[at]);
    }
    assert(picture_second[place] == cell_second[at]) by {
        let line = line_text(top_second);
        assert(picture_second.subrange(0, line.len() as int)[place] == line[place]);
        assert(line.subrange(0, start_second.len() as int)[place] == start_second[place]);
        assert(start_second[place] == cell_second[at]);
    }
}

/// The three verdicts are told apart: no two of them share a background.
pub proof fn lemma_colors_distinct(a: Verdict, b: Verdict)
    requires
        a != b,
    ensures
        color_of(a) != color_of(b),
{
}

/// Rendering keeps no state: the layout of a row depends on the row alone,
/// so two layouts of one row show the same cells.
pub proof fn lemma_layout_repeatable(row: ScoredRow, first: Seq<Vec<Cell>>, second: Seq<Vec<Cell>>)
    requires
        cells_of(first) == layout_of(row@),
        cells_of(second) == layout_of(row@),
    ensures
        cells_of(first) == cells_of(second),
{
}

} // verus!
