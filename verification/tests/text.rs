use connect_four::text::{center, decimal_text};
use connect_four::{Area, Error, State};

const RULE: &str = "------------------------------------";

#[test]
fn decimal_text_of_small_and_large_numbers() {
    assert_eq!(decimal_text(0), "0");
    assert_eq!(decimal_text(7), "7");
    assert_eq!(decimal_text(10), "10");
    assert_eq!(decimal_text(4096), "4096");
    assert_eq!(decimal_text(usize::MAX), usize::MAX.to_string());
}

#[test]
fn center_pads_with_odd_space_on_the_right() {
    assert_eq!(center("0", 4), " 0  ");
    assert_eq!(center("10", 4), " 10 ");
    assert_eq!(center("123", 4), "123 ");
    assert_eq!(center("1234", 4), "1234");
    assert_eq!(center("12345", 4), "12345");
    assert_eq!(center("", 3), "   ");
    assert_eq!(center("x", 0), "x");
    assert_eq!(center("5", 4), format!("{: ^4}", 5));
}

#[test]
fn snapshot_of_empty_area() {
    let area = Area::new();
    let mut expected = String::from("| 0  | 1  | 2  | 3  | 4  | 5  | 6  |\n");
    expected += RULE;
    expected += "\n";
    for _ in 0..6 {
        expected += "|    |    |    |    |    |    |    |\n";
    }
    expected += RULE;
    assert_eq!(RULE.len(), 36);
    assert_eq!(area.to_text(), expected);
}

#[test]
fn snapshot_shows_top_row_first() {
    let mut area = Area::new();
    assert_eq!(area.set_token(State::YellowToken, 0), Ok(false));
    assert_eq!(area.set_token(State::RedToken, 0), Ok(false));
    assert_eq!(area.set_token(State::RedToken, 6), Ok(false));
    let mut expected = String::from("| 0  | 1  | 2  | 3  | 4  | 5  | 6  |\n");
    expected += RULE;
    expected += "\n";
    for _ in 0..4 {
        expected += "|    |    |    |    |    |    |    |\n";
    }
    expected += "| 🔴 |    |    |    |    |    |    |\n";
    expected += "| 🟡 |    |    |    |    |    | 🔴 |\n";
    expected += RULE;
    assert_eq!(area.to_text(), expected);
}

#[test]
fn error_messages() {
    assert_eq!(Error::FilledColumn.message(), "La colonne choisie est déjà pleine");
    assert_eq!(Error::InvalidColumn.message(), "La colonne choisie est invalide");
    assert_eq!(Error::NotAToken.message(), "L’élément fourni n’est pas un jeton");
    assert_eq!(
        Error::InvalidPlayerId(3).message(),
        "Le joueur 3 n’existe pas. Seul 1 et 2 sont acceptés"
    );
    assert_eq!(
        Error::InvalidPlayerId(120).message(),
        format!("Le joueur {} n’existe pas. Seul 1 et 2 sont acceptés", 120)
    );
}
