//! The intermediate text format. A highlight is a block of its sentence
//! between two `========` lines; a card is a block between two `----` lines
//! whose two sides are parted by a `|-` line. Serializing writes the
//! clippings in order; deserializing reads the (edited) text back into
//! cards, each basic card carrying the sentence of the highlight block
//! read last.
use vstd::prelude::*;
use crate::cloze::{cloze_open, cloze_open_exec};
use crate::model::{Basic, Card, CardModel, Cloze, Clipping, ClippingModel, ConvertError, Output, cards_model, clippings_model};
use crate::scanner::cards_result_model;
use crate::text::{
    chars_eq, chars_of, contains, contains_exec, copy_lines, find_equal, join, join_range,
    lines_of, lines_view, next_equal, push_all, split_lines, string_of,
    trim, trim_exec,
};

verus! {

/// The line around a highlight's sentence.
pub open spec fn highlight_mark() -> Seq<char> {
    "========"@
}

/// The line around a card.
pub open spec fn card_mark() -> Seq<char> {
    "----"@
}

/// The line between a card's two sides.
pub open spec fn side_mark() -> Seq<char> {
    "|-"@
}

/// The line break written into compiled cards.
pub open spec fn br() -> Seq<char> {
    "<br>"@
}

/// The line end written between lines.
pub open spec fn nl() -> Seq<char> {
    "\n"@
}

// ---------------------------------------------------------------------------
// Serializing
// ---------------------------------------------------------------------------

/// The two sides of a card as written: text and extra of a cloze card,
/// front and back of a basic one.
pub open spec fn sides(c: CardModel) -> (Seq<char>, Seq<char>) {
    match c {
        CardModel::Cloze { text, back_extra } => (text, back_extra),
        CardModel::Basic { front, back } => (front, back),
    }
}

/// The block of one card.
pub open spec fn card_text(c: CardModel) -> Seq<char> {
    card_mark() + nl() + sides(c).0 + nl() + side_mark() + nl() + sides(c).1 + nl() + card_mark()
        + nl()
}

/// The blocks of a sequence of cards.
pub open spec fn cards_text(cs: Seq<CardModel>) -> Seq<char>
    decreases cs.len(),
{
    if cs.len() == 0 {
        Seq::empty()
    } else {
        cards_text(cs.drop_last()) + card_text(cs.last())
    }
}

/// The blocks of one clipping: its sentence block, or its cards' blocks.
pub open spec fn entry_text(e: ClippingModel) -> Seq<char> {
    match e {
        ClippingModel::Highlight { sentence, .. } => highlight_mark() + nl() + sentence + nl()
            + highlight_mark() + nl(),
        ClippingModel::Note { cards, .. } => cards_text(cards),
    }
}

/// The intermediate text of a sequence of clippings.
pub open spec fn serialize_spec(es: Seq<ClippingModel>) -> Seq<char>
    decreases es.len(),
{
    if es.len() == 0 {
        Seq::empty()
    } else {
        serialize_spec(es.drop_last()) + entry_text(es.last())
    }
}

fn push_card(out: &mut Vec<char>, a: &Vec<char>, b: &Vec<char>, cm: &Vec<char>, sm: &Vec<char>, nlv: &Vec<char>)
    requires
        cm@ == card_mark(),
        sm@ == side_mark(),
        nlv@ == nl(),
    ensures
        final(out)@ == old(out)@ + card_mark() + nl() + a@ + nl() + side_mark() + nl() + b@ + nl()
            + card_mark() + nl(),
{
    push_all(out, cm);
    push_all(out, nlv);
    push_all(out, a);
    push_all(out, nlv);
    push_all(out, sm);
    push_all(out, nlv);
    push_all(out, b);
    push_all(out, nlv);
    push_all(out, cm);
    push_all(out, nlv);
}

/// Writes the intermediate text of the clippings.
pub fn serialize_entries(entries: &Vec<Clipping>) -> (r: String)
    ensures
        r@ == serialize_spec(clippings_model(entries@)),
{
    let ghost es = clippings_model(entries@);
    let hm = chars_of("========");
    let cm = chars_of("----");
    let sm = chars_of("|-");
    let nlv = chars_of("\n");
    let mut out: Vec<char> = Vec::new();
    let mut i: usize = 0;
    while i < entries.len()
        invariant
            i <= entries.len(),
            es == clippings_model(entries@),
            hm@ == highlight_mark(),
            cm@ == card_mark(),
            sm@ == side_mark(),
            nlv@ == nl(),
            out@ == serialize_spec(es.take(i as int)),
        decreases entries.len() - i,
    {
        proof {
            assert(es.take(i + 1).drop_last() =~= es.take(i as int));
        }
        match &entries[i] {
            Clipping::Highlight { sentence, .. } => {
                let s = chars_of(sentence.as_str());
                push_all(&mut out, &hm);
                push_all(&mut out, &nlv);
                push_all(&mut out, &s);
                push_all(&mut out, &nlv);
                push_all(&mut out, &hm);
                push_all(&mut out, &nlv);
            },
            Clipping::Note { cards, .. } => {
                let ghost cs = cards_model(cards@);
                let ghost out0 = out@;
                let mut k: usize = 0;
                proof {
                    assert(cs.take(0) =~= Seq::<CardModel>::empty());
                }
                while k < cards.len()
                    invariant
                        k <= cards.len(),
                        cs == cards_model(cards@),
                        cm@ == card_mark(),
                        sm@ == side_mark(),
                        nlv@ == nl(),
                        out@ == out0 + cards_text(cs.take(k as int)),
                    decreases cards.len() - k,
                {
                    proof {
                        assert(cs.take(k + 1).drop_last() =~= cs.take(k as int));
                    }
                    match &cards[k] {
                        Card::Cloze(c) => {
                            let a = chars_of(c.text.as_str());
                            let b = chars_of(c.back_extra.as_str());
                            push_card(&mut out, &a, &b, &cm, &sm, &nlv);
                        },
                        Card::Basic(c) => {
                            let a = chars_of(c.front.as_str());
                            let b = chars_of(c.back.as_str());
                            push_card(&mut out, &a, &b, &cm, &sm, &nlv);
                        },
                    }
                    proof {
                        assert(out@ =~= out0 + cards_text(cs.take(k + 1)));
                    }
                    k += 1;
                }
                proof {
                    assert(cs.take(cards.len() as int) =~= cs);
                }
            },
        }
        i += 1;
    }
    proof {
        assert(es.take(entries.len() as int) =~= es);
    }
    string_of(&out)
}

// ---------------------------------------------------------------------------
// Deserializing
// ---------------------------------------------------------------------------

/// The card of the lines of one card block, opened at line `line`, with
/// `sentence` the sentence read last. Exactly one `|-` line is required.
/// A front holding `{{c1::` makes a cloze card; otherwise the first back
/// line is the term, and the back becomes the term, the sentence and the
/// rest of the back lines (left out when empty), parted by `<br><br>`.
pub open spec fn card_block(block: Seq<Seq<char>>, sentence: Seq<char>, line: int) -> Result<
    CardModel,
    ConvertError,
> {
    let idx = next_equal(block, 0, side_mark());
    if idx >= block.len() || next_equal(block, idx + 1, side_mark()) < block.len() {
        Err(ConvertError::MissingFrontBackSeparator { line: line as usize })
    } else {
        let front = join(block.take(idx), br());
        let back_lines = block.skip(idx + 1);
        if contains(front, cloze_open()) {
            Ok(CardModel::Cloze { text: front, back_extra: join(back_lines, br()) })
        } else if back_lines.len() == 0 {
            Err(ConvertError::MissingCardTerm { line: line as usize })
        } else {
            let term = trim(back_lines[0]);
            let rest = trim(join(back_lines.skip(1), br()));
            Ok(
                CardModel::Basic {
                    front,
                    back: if rest.len() == 0 {
                        term + br() + br() + sentence
                    } else {
                        term + br() + br() + sentence + br() + br() + rest
                    },
                },
            )
        }
    }
}

/// The cards of the lines from index `i` on, after those in `acc`, with
/// `sentence` the sentence read last.
pub open spec fn decode_from(
    lines: Seq<Seq<char>>,
    i: int,
    sentence: Seq<char>,
    acc: Seq<CardModel>,
) -> Result<Seq<CardModel>, ConvertError>
    decreases lines.len() + 1 - i,
{
    if i < 0 || i >= lines.len() {
        Ok(acc)
    } else if lines[i] == highlight_mark() {
        let j = next_equal(lines, i + 1, highlight_mark());
        if i < j <= lines.len() {
            decode_from(lines, j + 1, join(lines.subrange(i + 1, j), br()), acc)
        } else {
            Ok(acc)
        }
    } else if lines[i] == card_mark() {
        let j = next_equal(lines, i + 1, card_mark());
        if i < j <= lines.len() {
            match card_block(lines.subrange(i + 1, j), sentence, i) {
                Err(e) => Err(e),
                Ok(c) => decode_from(lines, j + 1, sentence, acc.push(c)),
            }
        } else {
            Ok(acc)
        }
    } else {
        Err(ConvertError::InvalidBlockSequence { line: i as usize })
    }
}

/// The cards of an intermediate text.
pub open spec fn deserialize_spec(text: Seq<char>) -> Result<Seq<CardModel>, ConvertError> {
    decode_from(lines_of(text), 0, Seq::empty(), Seq::empty())
}

fn card_block_exec(block: &Vec<Vec<char>>, sentence: &Vec<char>, line: usize) -> (r: Result<
    Card,
    ConvertError,
>)
    ensures
        match r {
            Ok(c) => card_block(lines_view(block@), sentence@, line as int) == Ok::<
                CardModel,
                ConvertError,
            >(c@),
            Err(e) => card_block(lines_view(block@), sentence@, line as int) == Err::<
                CardModel,
                ConvertError,
            >(e),
        },
{
    let ghost b = lines_view(block@);
    let sm = chars_of("|-");
    let brv = chars_of("<br>");
    let open = cloze_open_exec();
    let idx = find_equal(block, 0, &sm);
    if idx >= block.len() {
        return Err(ConvertError::MissingFrontBackSeparator { line });
    }
    let idx2 = find_equal(block, idx + 1, &sm);
    if idx2 < block.len() {
        return Err(ConvertError::MissingFrontBackSeparator { line });
    }
    let front = join_range(block, 0, idx, &brv);
    proof {
        assert(b.subrange(0, idx as int) =~= b.take(idx as int));
        assert(b.subrange(idx + 1, b.len() as int) =~= b.skip(idx + 1));
    }
    if contains_exec(&front, &open) {
        let extra = join_range(block, idx + 1, block.len(), &brv);
        return Ok(Card::Cloze(Cloze { text: string_of(&front), back_extra: string_of(&extra) }));
    }
    if idx + 1 >= block.len() {
        return Err(ConvertError::MissingCardTerm { line });
    }
    let term = trim_exec(&block[idx + 1]);
    let rest_joined = join_range(block, idx + 2, block.len(), &brv);
    let rest = trim_exec(&rest_joined);
    proof {
        assert(b.skip(idx + 1).skip(1) =~= b.subrange(idx + 2, b.len() as int));
        assert(b.skip(idx + 1)[0] == b[idx + 1]);
    }
    let mut back = term;
    push_all(&mut back, &brv);
    push_all(&mut back, &brv);
    push_all(&mut back, sentence);
    if rest.len() > 0 {
        push_all(&mut back, &brv);
        push_all(&mut back, &brv);
        push_all(&mut back, &rest);
    }
    Ok(Card::Basic(Basic { front: string_of(&front), back: string_of(&back) }))
}

/// Reads an intermediate text back into cards.
pub fn deserialize(text: &str) -> (r: Result<Vec<Card>, ConvertError>)
    ensures
        cards_result_model(r) == deserialize_spec(text@),
{
    let chars = chars_of(text);
    let lines = split_lines(&chars);
    let ghost l = lines_view(lines@);
    let hm = chars_of("========");
    let cm = chars_of("----");
    let brv = chars_of("<br>");
    let mut sentence: Vec<char> = Vec::new();
    let mut cards: Vec<Card> = Vec::new();
    let mut i: usize = 0;
    proof {
        assert(cards_model(cards@) =~= Seq::<CardModel>::empty());
    }
    while i < lines.len()
        invariant
            i <= lines.len(),
            l == lines_view(lines@),
            l == lines_of(text@),
            hm@ == highlight_mark(),
            cm@ == card_mark(),
            brv@ == br(),
            decode_from(l, 0, Seq::empty(), Seq::empty()) == decode_from(
                l,
                i as int,
                sentence@,
                cards_model(cards@),
            ),
        decreases lines.len() - i,
    {
        let ghost acc = cards_model(cards@);
        let ghost sent = sentence@;
        proof {
            assert(l[i as int] == lines@[i as int]@);
        }
        if chars_eq(&lines[i], &hm) {
            let j = find_equal(&lines, i + 1, &hm);
            proof {
                assert(decode_from(l, i as int, sent, acc) == decode_from(
                    l,
                    j + 1,
                    join(l.subrange(i + 1, j as int), br()),
                    acc,
                ));
                if j == lines.len() {
                    assert(decode_from(l, j + 1, join(l.subrange(i + 1, j as int), br()), acc) == Ok::<Seq<CardModel>, ConvertError>(acc));
                    assert(decode_from(l, j as int, join(l.subrange(i + 1, j as int), br()), acc) == Ok::<Seq<CardModel>, ConvertError>(acc));
                }
            }
            sentence = join_range(&lines, i + 1, j, &brv);
            i = if j < lines.len() {
                j + 1
            } else {
                j
            };
        } else if chars_eq(&lines[i], &cm) {
            let j = find_equal(&lines, i + 1, &cm);
            let block = copy_lines(&lines, i + 1, j);
            let c = match card_block_exec(&block, &sentence, i) {
                Err(e) => {
                    proof {
                        assert(card_block(l.subrange(i + 1, j as int), sent, i as int) == Err::<CardModel, ConvertError>(e));
                    }
                    return Err(e);
                },
                Ok(c) => c,
            };
            let ghost cards0 = cards_model(cards@);
            cards.push(c);
            proof {
                assert(cards_model(cards@) =~= cards0.push(c@));
                assert(decode_from(l, i as int, sent, acc) == decode_from(
                    l,
                    j + 1,
                    sent,
                    acc.push(c@),
                ));
                if j == lines.len() {
                    assert(decode_from(l, j + 1, sent, acc.push(c@)) == Ok::<Seq<CardModel>, ConvertError>(acc.push(c@)));
                    assert(decode_from(l, j as int, sent, acc.push(c@)) == Ok::<Seq<CardModel>, ConvertError>(acc.push(c@)));
                }
            }
            i = if j < lines.len() {
                j + 1
            } else {
                j
            };
        } else {
            return Err(ConvertError::InvalidBlockSequence { line: i });
        }
    }
    Ok(cards)
}

// ---------------------------------------------------------------------------
// Reconciling
// ---------------------------------------------------------------------------

/// Assembles the output from the compiled cards and the clippings saved at
/// conversion time: the dates are those of the first and the last clipping.
pub fn reconcile(cards: Vec<Card>, metadata: &Vec<Clipping>) -> (r: Result<Output, ConvertError>)
    ensures
        metadata@.len() == 0 <==> r == Err::<Output, ConvertError>(ConvertError::EmptyMetadata),
        r is Ok || r == Err::<Output, ConvertError>(ConvertError::EmptyMetadata),
        r matches Ok(o) ==> o.cards@ == cards@ && o.begin_date == metadata@[0]@.date()
            && o.end_date == metadata@.last()@.date(),
{
    if metadata.len() == 0 {
        return Err(ConvertError::EmptyMetadata);
    }
    let begin_date = metadata[0].date();
    let end_date = metadata[metadata.len() - 1].date();
    Ok(Output { cards, begin_date, end_date })
}

/// Compiles an edited intermediate text into the output, with the
/// clippings saved at conversion time.
pub fn validate(intermediate: &str, metadata: &Vec<Clipping>) -> (r: Result<Output, ConvertError>)
    ensures
        match deserialize_spec(intermediate@) {
            Err(e) => r == Err::<Output, ConvertError>(e),
            Ok(cs) => if metadata@.len() == 0 {
                r == Err::<Output, ConvertError>(ConvertError::EmptyMetadata)
            } else {
                r matches Ok(o) && cards_model(o.cards@) == cs && o.begin_date
                    == metadata@[0]@.date() && o.end_date == metadata@.last()@.date()
            },
        },
{
    let cards = match deserialize(intermediate) {
        Err(e) => return Err(e),
        Ok(c) => c,
    };
    reconcile(cards, metadata)
}

} // verus!
