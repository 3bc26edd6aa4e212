use anki_kindle_import::cloze::cloze_exec;
use anki_kindle_import::grammar::{card_from_line, kept_parts, parse_meta, parse_title};
use anki_kindle_import::model::{Basic, Card, Cloze, ConvertError};
use anki_kindle_import::text::{split_lines, trim_exec};

fn v(s: &str) -> Vec<char> {
    s.chars().collect()
}

fn s(v: &[char]) -> String {
    v.iter().collect()
}

#[test]
fn title_with_series_parenthetical() {
    let (book, author) = parse_title(&v("Book (Series 2) (Jane Doe)")).unwrap();
    assert_eq!(s(&book), "Book (Series 2)");
    assert_eq!(s(&author), "Jane Doe");
}

#[test]
fn title_without_author_is_refused() {
    assert_eq!(parse_title(&v("Book")), None);
    assert_eq!(parse_title(&v("(Author)")), None);
    assert_eq!(parse_title(&v("Book ()")), None);
}

#[test]
fn meta_line_kind_and_date() {
    let (kind, date) =
        parse_meta(&v("- Your Note on page 3 | Added on Sunday, March 3, 2019 9:05:00 PM")).unwrap();
    assert_eq!(s(&kind), "Note");
    assert_eq!(s(&date), "March 3, 2019 9:05:00 PM");
    assert_eq!(parse_meta(&v("- Your Note | Added on Sunday, March 3, 2019")), None);
}

#[test]
fn plain_line_is_lowercased_basic() {
    let c = card_from_line(&v("Hill"), None, 0).unwrap();
    assert_eq!(c, Card::Basic(Basic { front: String::new(), back: "hill".to_string() }));
}

#[test]
fn basic_parts_joined_by_newlines() {
    let c = card_from_line(&v(" hill .. a small mountain ..  seen from afar "), None, 0).unwrap();
    assert_eq!(
        c,
        Card::Basic(Basic { front: String::new(), back: "hill\na small mountain\nseen from afar".to_string() })
    );
}

#[test]
fn basic_needs_two_parts() {
    assert_eq!(
        card_from_line(&v("hill .. "), None, 4),
        Err(ConvertError::MissingBasicDescription { line: 4 })
    );
    assert_eq!(
        card_from_line(&v(" .. description"), None, 5),
        Err(ConvertError::MissingBasicDescription { line: 5 })
    );
}

#[test]
fn cloze_is_case_insensitive_and_replaces_every_occurrence() {
    let sentence = v("Walk the dog; then WALK home and walk on.");
    let c = card_from_line(&v("wAlK ... verb"), Some(&sentence), 0).unwrap();
    assert_eq!(
        c,
        Card::Cloze(Cloze {
            text: "{{c1::Walk}} the dog; then {{c1::WALK}} home and {{c1::walk}} on.".to_string(),
            back_extra: "verb".to_string(),
        })
    );
}

#[test]
fn cloze_without_extra_text() {
    let sentence = v("The cat walked over a hill");
    let c = card_from_line(&v("hill ... "), Some(&sentence), 0).unwrap();
    assert_eq!(
        c,
        Card::Cloze(Cloze { text: "The cat walked over a {{c1::hill}}".to_string(), back_extra: String::new() })
    );
}

#[test]
fn cloze_needs_a_highlight() {
    assert_eq!(
        card_from_line(&v("walked ... x"), None, 7),
        Err(ConvertError::MissingHighlightForCloze { line: 7 })
    );
}

#[test]
fn cloze_needs_a_match() {
    let sentence = v("The cat walked over a hill");
    assert_eq!(
        card_from_line(&v("ran ... x"), Some(&sentence), 2),
        Err(ConvertError::NoClozeMatch { line: 2 })
    );
}

#[test]
fn cloze_substitution_non_overlapping() {
    let (text, found) = cloze_exec(&v("aaaa"), &v("AA"));
    assert!(found);
    assert_eq!(s(&text), "{{c1::aa}}{{c1::aa}}");
    let (text, found) = cloze_exec(&v("abc"), &v(""));
    assert!(!found);
    assert_eq!(s(&text), "abc");
}

#[test]
fn kept_parts_drop_blank_parts() {
    let parts = kept_parts(&v("a .. .. b"), &v(" .. "));
    let parts: Vec<String> = parts.iter().map(|p| s(p)).collect();
    assert_eq!(parts, vec!["a".to_string(), ".. b".to_string()]);
}

#[test]
fn lines_and_trim() {
    let lines = split_lines(&v("a\r\nb\n\nc"));
    let lines: Vec<String> = lines.iter().map(|l| s(l)).collect();
    assert_eq!(lines, vec!["a", "b", "", "c"]);
    assert!(split_lines(&v("")).is_empty());
    assert_eq!(split_lines(&v("x\n")).len(), 1);
    assert_eq!(s(&trim_exec(&v("\t x y \r\n"))), "x y");
}
