use wordle::render::{assemble, color_for, layout, paint, render, Cell, Color};
use wordle::score::{score_guess, ScoredRow, Verdict};
use wordle::word::AsWord;

fn cell(color: Color, text: &str) -> Cell {
    Cell { color, text: text.to_string() }
}

fn scored(target: &str, guess: &str) -> ScoredRow {
    score_guess(&target.as_word().unwrap(), &guess.as_word().unwrap())
}

fn wrap(code: &str, text: &str) -> String {
    format!("\u{1b}[{}m{}\u{1b}[0m", code, text)
}

// The text with `style` set again behind each reset in it.
fn mend(text: &str, style: &str) -> String {
    let mut mended = String::new();
    let mut rest = text;
    while let Some(c) = rest.chars().next() {
        if rest.starts_with("\u{1b}[0m") {
            mended.push_str("\u{1b}[0m");
            mended.push_str(style);
            rest = &rest[4..];
        } else {
            mended.push(c);
            rest = &rest[c.len_utf8()..];
        }
    }
    mended
}

fn dress(code: &str, text: &str) -> String {
    let style = format!("\u{1b}[{}m", code);
    format!("{}{}\u{1b}[0m", style, mend(text, &style))
}

fn is_gray(painted: &str, text: &str) -> bool {
    painted == wrap("48;2;127;127;127", text) || painted == wrap("100", text)
}

#[test]
fn each_verdict_has_its_color() {
    assert_eq!(color_for(Verdict::Correct), Color::Green);
    assert_eq!(color_for(Verdict::Present), Color::Yellow);
    assert_eq!(color_for(Verdict::Absent), Color::Gray);
}

#[test]
fn layout_draws_three_lines_of_boxes() {
    let row = scored("ARRAY", "FURRY");
    let colors = [Color::Gray, Color::Gray, Color::Green, Color::Yellow, Color::Green];
    let letters = ['F', 'U', 'R', 'R', 'Y'];
    let lines = layout(&row);
    assert_eq!(lines.len(), 3);
    for k in 0..5 {
        assert_eq!(lines[0][k], cell(colors[k], "┌───┐"));
        assert_eq!(lines[1][k], cell(colors[k], &format!("│ {} │", letters[k])));
        assert_eq!(lines[2][k], cell(colors[k], "└───┘"));
    }
    for line in &lines {
        assert_eq!(line.len(), 5);
    }
}

#[test]
fn layout_of_one_row_is_always_the_same() {
    let row = scored("SALES", "ESSAL");
    assert_eq!(layout(&row), layout(&row));
}

#[test]
fn assemble_puts_spaces_and_line_feeds() {
    let painted = vec![
        vec!["a".to_string(), "b".to_string()],
        vec![],
        vec!["cd".to_string()],
    ];
    assert_eq!(assemble(&painted), "a  b  \n\ncd  \n");
    assert_eq!(assemble(&Vec::new()), "");
}

// The switch for colors belongs to the whole process: everything that
// depends on it is looked at here, one setting after the other.
#[test]
fn painting_follows_the_switch_for_colors() {
    let furry = scored("ARRAY", "FURRY");
    let array = scored("ARRAY", "ARRAY");
    let meter = scored("ARRAY", "METER");

    colored::control::set_override(false);

    for text in ["", "x", "┌───┐", "│ A │", "a\u{1b}[0mb"] {
        assert_eq!(paint(Color::Green, text), text);
        assert_eq!(paint(Color::Yellow, text), text);
        assert_eq!(paint(Color::Gray, text), text);
    }
    assert_eq!(
        render(&furry),
        "┌───┐  ┌───┐  ┌───┐  ┌───┐  ┌───┐  \n\
         │ F │  │ U │  │ R │  │ R │  │ Y │  \n\
         └───┘  └───┘  └───┘  └───┘  └───┘  \n"
    );
    assert_eq!(render(&meter), render(&meter));

    colored::control::set_override(true);

    for text in ["", "x", "┌───┐", "│ A │"] {
        assert_eq!(paint(Color::Green, text), wrap("42", text));
        assert_eq!(paint(Color::Yellow, text), wrap("43", text));
        let gray = paint(Color::Gray, text);
        assert!(is_gray(&gray, text));
        assert_ne!(gray, paint(Color::Green, text));
        assert_ne!(gray, paint(Color::Yellow, text));
        assert_ne!(paint(Color::Green, text), paint(Color::Yellow, text));
    }

    // A code to set the terminal back inside the text is mended.
    assert_eq!(
        paint(Color::Green, "a\u{1b}[0mb"),
        "\u{1b}[42ma\u{1b}[0m\u{1b}[42mb\u{1b}[0m"
    );
    assert_eq!(
        paint(Color::Yellow, "\u{1b}[0m"),
        "\u{1b}[43m\u{1b}[0m\u{1b}[43m\u{1b}[0m"
    );
    assert_eq!(
        paint(Color::Green, "ab\u{1b}[0m\u{1b}[0m"),
        "\u{1b}[42mab\u{1b}[0m\u{1b}[42m\u{1b}[0m\u{1b}[42m\u{1b}[0m"
    );
    assert_eq!(paint(Color::Green, "x\u{1b}[0"), "\u{1b}[42mx\u{1b}[0\u{1b}[0m");
    assert_eq!(
        paint(Color::Green, "\u{1b}\u{1b}[0mé"),
        "\u{1b}[42m\u{1b}\u{1b}[0m\u{1b}[42mé\u{1b}[0m"
    );
    for text in [
        "",
        "x",
        "\u{1b}",
        "\u{1b}[0m",
        "\u{1b}[0m\u{1b}[0m",
        "\u{1b}[\u{1b}[0m",
        "\u{1b}[0\u{1b}[0mm",
        "é\u{1b}[0mé\u{1b}[0m日本",
        "a\u{1b}[1mb\u{1b}[0mc",
        "\u{1b}[0m\u{1b}[42m",
        "tail\u{1b}[0",
    ] {
        let green = paint(Color::Green, text);
        let yellow = paint(Color::Yellow, text);
        let gray = paint(Color::Gray, text);
        assert_eq!(green, dress("42", text));
        assert_eq!(yellow, dress("43", text));
        assert!(gray == dress("48;2;127;127;127", text) || gray == dress("100", text));
        assert_ne!(green, yellow);
        assert_ne!(green, gray);
        assert_ne!(yellow, gray);
    }

    let green = |text: &str| format!("{}  ", wrap("42", text));
    let mut expected = String::new();
    expected.push_str(&green("┌───┐").repeat(5));
    expected.push('\n');
    for letter in ['A', 'R', 'R', 'A', 'Y'] {
        expected.push_str(&green(&format!("│ {} │", letter)));
    }
    expected.push('\n');
    expected.push_str(&green("└───┘").repeat(5));
    expected.push('\n');
    assert_eq!(render(&array), expected);

    // The row of FURRY against ARRAY: gray, gray, green, yellow, green.
    let picture = render(&furry);
    let gray_code = if picture.starts_with("\u{1b}[100m") { "100" } else { "48;2;127;127;127" };
    let codes = [gray_code, gray_code, "42", "43", "42"];
    let letters = ['F', 'U', 'R', 'R', 'Y'];
    let mut expected = String::new();
    for code in codes {
        expected.push_str(&wrap(code, "┌───┐"));
        expected.push_str("  ");
    }
    expected.push('\n');
    for k in 0..5 {
        expected.push_str(&wrap(codes[k], &format!("│ {} │", letters[k])));
        expected.push_str("  ");
    }
    expected.push('\n');
    for code in codes {
        expected.push_str(&wrap(code, "└───┘"));
        expected.push_str("  ");
    }
    expected.push('\n');
    assert_eq!(picture, expected);

    // The same letters with other verdicts make another picture.
    let all_correct = scored("FURRY", "FURRY");
    let one_less = scored("FURRS", "FURRY");
    assert_ne!(render(&furry), render(&all_correct));
    assert_ne!(render(&one_less), render(&all_correct));
    assert_ne!(render(&one_less), render(&furry));
    assert_eq!(render(&meter), render(&meter));
}
