use anki_kindle_import::clock::date_from_str;
use anki_kindle_import::codec::{deserialize, reconcile, serialize_entries, validate};
use anki_kindle_import::model::{Basic, Card, Clipping, Cloze, ConvertError};
use anki_kindle_import::scanner::parse_from_txt;

fn basic(front: &str, back: &str) -> Card {
    Card::Basic(Basic { front: front.to_string(), back: back.to_string() })
}

fn highlight(sentence: &str, date: i64) -> Clipping {
    Clipping::Highlight { book: "B".to_string(), author: "A".to_string(), date, sentence: sentence.to_string() }
}

#[test]
fn serialize_layout() {
    let entries = vec![
        highlight("The cat\nwalked", 1),
        Clipping::Note {
            book: "B".to_string(),
            author: "A".to_string(),
            date: 2,
            cards: vec![
                basic("", "hill"),
                Card::Cloze(Cloze { text: "The {{c1::cat}}".to_string(), back_extra: "x".to_string() }),
            ],
        },
    ];
    assert_eq!(
        serialize_entries(&entries),
        "========\nThe cat\nwalked\n========\n----\n\n|-\nhill\n----\n----\nThe {{c1::cat}}\n|-\nx\n----\n"
    );
}

#[test]
fn round_trip_through_intermediate_text() {
    let text = "Alpha (Bob)\n- Your Highlight on page 1 | Added on Tuesday, November 24, 2018 11:31:30 AM\n\nThe cat walked over a hill\n==========\nAlpha (Bob)\n- Your Note on page 1 | Added on Tuesday, November 24, 2018 11:32:00 AM\n\nhill\nwalked ... past tense\nhill .. a mound .. rounded\n==========\n";
    let entries = parse_from_txt(text.to_string(), None).unwrap();
    let inter = serialize_entries(&entries);
    let cards = deserialize(&inter).unwrap();
    assert_eq!(
        cards,
        vec![
            basic("", "hill<br><br>The cat walked over a hill"),
            Card::Cloze(Cloze {
                text: "The cat {{c1::walked}} over a hill".to_string(),
                back_extra: "past tense".to_string(),
            }),
            basic("", "hill<br><br>The cat walked over a hill<br><br>a mound<br>rounded"),
        ]
    );
}

#[test]
fn edited_front_is_kept() {
    let inter = "========\nA sentence\non two lines\n========\n----\na small hill\n|-\n  hill  \n----\n";
    assert_eq!(
        deserialize(inter),
        Ok(vec![basic("a small hill", "hill<br><br>A sentence<br>on two lines")])
    );
}

#[test]
fn stray_line_is_refused_with_its_index() {
    let inter = "========\nS\n========\nstray\n----\n\n|-\nx\n----\n";
    assert_eq!(deserialize(inter), Err(ConvertError::InvalidBlockSequence { line: 3 }));
    assert_eq!(deserialize("oops\n"), Err(ConvertError::InvalidBlockSequence { line: 0 }));
}

#[test]
fn card_needs_exactly_one_separator() {
    assert_eq!(
        deserialize("========\nS\n========\n----\nfront\nback\n----\n"),
        Err(ConvertError::MissingFrontBackSeparator { line: 3 })
    );
    assert_eq!(
        deserialize("----\na\n|-\nb\n|-\nc\n----\n"),
        Err(ConvertError::MissingFrontBackSeparator { line: 0 })
    );
}

#[test]
fn card_needs_a_term() {
    assert_eq!(deserialize("----\nfront\n|-\n----\n"), Err(ConvertError::MissingCardTerm { line: 0 }));
}

#[test]
fn empty_intermediate_text() {
    assert_eq!(deserialize(""), Ok(vec![]));
}

#[test]
fn reconcile_takes_first_and_last_dates() {
    let meta = vec![highlight("a", 10), highlight("b", 5), highlight("c", 30)];
    let out = reconcile(vec![basic("f", "b")], &meta).unwrap();
    assert_eq!(out.begin_date, 10);
    assert_eq!(out.end_date, 30);
    assert_eq!(out.cards, vec![basic("f", "b")]);
}

#[test]
fn reconcile_needs_metadata() {
    assert_eq!(reconcile(vec![], &vec![]), Err(ConvertError::EmptyMetadata));
}

#[test]
fn validate_compiles_cards() {
    let meta = vec![highlight("S", 7)];
    let out = validate("========\nS\n========\n----\ndef\n|-\nword\n----\n", &meta).unwrap();
    assert_eq!(out.cards, vec![basic("def", "word<br><br>S")]);
    assert_eq!((out.begin_date, out.end_date), (7, 7));
    assert_eq!(validate("x\n", &meta), Err(ConvertError::InvalidBlockSequence { line: 0 }));
    assert_eq!(validate("", &vec![]), Err(ConvertError::EmptyMetadata));
}

#[test]
fn start_date_option() {
    assert!(date_from_str("11-24-2018").is_ok());
    assert_eq!(date_from_str("2018/11/24"), Err(ConvertError::InvalidStartDate));
    let a = date_from_str("11-24-2018").unwrap();
    let b = date_from_str("11-25-2018").unwrap();
    assert!(b - a >= 82800 && b - a <= 90000);
}
