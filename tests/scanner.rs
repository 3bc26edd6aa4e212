use anki_kindle_import::clock::clipping_naive_seconds;
use anki_kindle_import::model::{Basic, Card, Clipping, Cloze, ConvertError};
use anki_kindle_import::scanner::parse_from_txt;

const HIGHLIGHT: &str = "Alpha (Bob)\n- Your Highlight on page 1 | Added on Tuesday, November 24, 2018 11:31:30 AM\n\nThe cat walked over a hill\n==========\n";
const BOOKMARK: &str = "Alpha (Bob)\n- Your Bookmark on page 2 | Added on Tuesday, November 24, 2018 11:31:45 AM\n\n\n==========\n";

fn note(body: &str) -> String {
    format!(
        "Alpha (Bob)\n- Your Note on page 1 | Added on Tuesday, November 24, 2018 11:32:00 AM\n\n{}\n==========\n",
        body
    )
}

fn basic(back: &str) -> Card {
    Card::Basic(Basic { front: String::new(), back: back.to_string() })
}

fn parse(text: &str) -> Result<Vec<Clipping>, ConvertError> {
    parse_from_txt(text.to_string(), None)
}

#[test]
fn end_to_end_highlight_and_note() {
    let text = format!("{}{}", HIGHLIGHT, note("hill\nwalk"));
    let entries = parse(&text).unwrap();
    assert_eq!(entries.len(), 2);
    match &entries[0] {
        Clipping::Highlight { book, author, sentence, .. } => {
            assert_eq!(book, "Alpha");
            assert_eq!(author, "Bob");
            assert_eq!(sentence, "The cat walked over a hill");
        }
        other => panic!("expected a highlight, got {:?}", other),
    }
    match &entries[1] {
        Clipping::Note { book, author, cards, .. } => {
            assert_eq!(book, "Alpha");
            assert_eq!(author, "Bob");
            assert_eq!(cards, &vec![basic("hill"), basic("walk")]);
        }
        other => panic!("expected a note, got {:?}", other),
    }
    assert_eq!(entries[1].date() - entries[0].date(), 30);
}

#[test]
fn cloze_note_after_highlight() {
    let text = format!("{}{}", HIGHLIGHT, note("walked ... some extra text"));
    let entries = parse(&text).unwrap();
    match &entries[1] {
        Clipping::Note { cards, .. } => assert_eq!(
            cards,
            &vec![Card::Cloze(Cloze {
                text: "The cat {{c1::walked}} over a hill".to_string(),
                back_extra: "some extra text".to_string(),
            })]
        ),
        other => panic!("expected a note, got {:?}", other),
    }
}

#[test]
fn bookmark_gives_no_entry_and_keeps_boundaries() {
    let without = format!("{}{}", HIGHLIGHT, note("walked ... extra\nhill"));
    let with = format!("{}{}{}", HIGHLIGHT, BOOKMARK, note("walked ... extra\nhill"));
    let a = parse(&without).unwrap();
    let b = parse(&with).unwrap();
    assert_eq!(a, b);
    assert_eq!(b.len(), 2);
}

#[test]
fn bookmark_at_end_without_delimiter() {
    let text = format!("{}Alpha (Bob)\n- Your Bookmark on page 2 | Added on Tuesday, November 24, 2018 11:31:45 AM\n", HIGHLIGHT);
    assert_eq!(parse(&text).unwrap().len(), 1);
}

#[test]
fn cutoff_drops_entries_at_or_before_it() {
    let text = format!("{}{}", HIGHLIGHT, note("hill"));
    let all = parse(&text).unwrap();
    let first = all[0].date();
    let kept = parse_from_txt(text.clone(), Some(first)).unwrap();
    assert_eq!(kept.len(), 1);
    assert_eq!(kept[0], all[1]);
    let none = parse_from_txt(text.clone(), Some(all[1].date())).unwrap();
    assert!(none.is_empty());
    let every = parse_from_txt(text, Some(first - 1)).unwrap();
    assert_eq!(every, all);
}

#[test]
fn cutoff_skips_record_with_unknown_kind() {
    let odd = "Alpha (Bob)\n- Your Clip on page 1 | Added on Tuesday, November 24, 2018 11:00:00 AM\n\nx\n==========\n";
    let text = format!("{}{}", odd, HIGHLIGHT);
    let all_err = parse(&text);
    assert_eq!(all_err, Err(ConvertError::UnknownRecordKind { line: 1 }));
    let later = parse(HIGHLIGHT).unwrap()[0].date();
    let kept = parse_from_txt(text, Some(later - 1)).unwrap();
    assert_eq!(kept.len(), 1);
}

#[test]
fn multi_line_highlight_keeps_newlines() {
    let text = "Alpha (Bob)\n- Your Highlight on Location 10-12 | Added on Tuesday, November 24, 2018 11:31:30 AM\n\nline one\nline two\n==========\n";
    match &parse(text).unwrap()[0] {
        Clipping::Highlight { sentence, .. } => assert_eq!(sentence, "line one\nline two"),
        other => panic!("expected a highlight, got {:?}", other),
    }
}

#[test]
fn carriage_returns_are_dropped() {
    let text = format!("{}{}", HIGHLIGHT, note("hill")).replace('\n', "\r\n");
    let entries = parse(&text).unwrap();
    assert_eq!(entries.len(), 2);
    match &entries[0] {
        Clipping::Highlight { sentence, .. } => assert_eq!(sentence, "The cat walked over a hill"),
        other => panic!("expected a highlight, got {:?}", other),
    }
}

#[test]
fn page_and_location_clause() {
    let text = "Alpha (Bob)\n- Your Highlight on page 5 | location 70-71 | Added on Tuesday, November 24, 2018 11:31:30 AM\n\nx\n==========\n";
    assert_eq!(parse(text).unwrap().len(), 1);
}

#[test]
fn malformed_title_line() {
    let text = "Alpha Bob\n- Your Highlight on page 1 | Added on Tuesday, November 24, 2018 11:31:30 AM\n\nx\n==========\n";
    assert_eq!(parse(text), Err(ConvertError::MalformedTitleLine { line: 0 }));
}

#[test]
fn malformed_meta_line() {
    let text = format!("{}Alpha (Bob)\nnot a meta line\n\nx\n==========\n", HIGHLIGHT);
    assert_eq!(parse(&text), Err(ConvertError::MalformedMetaLine { line: 6 }));
}

#[test]
fn missing_meta_line() {
    assert_eq!(parse("Alpha (Bob)\n"), Err(ConvertError::MalformedMetaLine { line: 1 }));
}

#[test]
fn bad_date_text() {
    let text = "Alpha (Bob)\n- Your Highlight on page 1 | Added on Tuesday, Smarch 44, 2018 11:31:30 AM\n\nx\n==========\n";
    assert_eq!(parse(text), Err(ConvertError::DateParseError { line: 1 }));
}

#[test]
fn unknown_record_kind() {
    let text = "Alpha (Bob)\n- Your Clip on page 1 | Added on Tuesday, November 24, 2018 11:31:30 AM\n\nx\n==========\n";
    assert_eq!(parse(text), Err(ConvertError::UnknownRecordKind { line: 1 }));
}

#[test]
fn cloze_without_highlight_fails() {
    let text = note("walked ... extra");
    assert_eq!(parse(&text), Err(ConvertError::MissingHighlightForCloze { line: 3 }));
}

#[test]
fn cloze_after_note_fails() {
    let text = format!("{}{}{}", HIGHLIGHT, note("hill"), note("walked ... extra"));
    assert_eq!(parse(&text), Err(ConvertError::MissingHighlightForCloze { line: 13 }));
}

#[test]
fn cloze_without_match_fails() {
    let text = format!("{}{}", HIGHLIGHT, note("ran ... extra"));
    assert_eq!(parse(&text), Err(ConvertError::NoClozeMatch { line: 8 }));
}

#[test]
fn basic_without_description_fails() {
    let text = format!("{}{}", HIGHLIGHT, note("hill\nhill ..  "));
    assert_eq!(parse(&text), Err(ConvertError::MissingBasicDescription { line: 9 }));
}

#[test]
fn empty_input_gives_no_entries() {
    assert_eq!(parse(""), Ok(vec![]));
}

#[test]
fn clipping_date_wall_clock_seconds() {
    let d: Vec<char> = "November 24, 2018 11:31:30 AM".chars().collect();
    assert_eq!(clipping_naive_seconds(&d), Some(1543059090));
    let pm: Vec<char> = "November 24, 2018 1:31:30 PM".chars().collect();
    assert_eq!(clipping_naive_seconds(&pm), Some(1543059090 + 7200));
    let bad: Vec<char> = "2018-11-24".chars().collect();
    assert_eq!(clipping_naive_seconds(&bad), None);
}
