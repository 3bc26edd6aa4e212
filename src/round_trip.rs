//! The round trip through the intermediate text: the lines of a serialized
//! text are the lines of its blocks, and reading those blocks back gives
//! each card with its sides' lines joined by `<br>` and, for a basic card,
//! the term, the sentence of the highlight before it and the rest.
use vstd::prelude::*;
use crate::cloze::cloze_open;
use crate::codec::{
    br, card_block, card_mark, card_text, cards_text, decode_from, deserialize_spec, entry_text,
    highlight_mark, nl, serialize_spec, side_mark, sides,
};
use crate::model::{CardModel, ClippingModel, ConvertError};
use crate::text::{contains, join, lemma_split_nl_nonempty, lines_of, next_equal, split_nl, strip_cr, trim};

verus! {

// ---------------------------------------------------------------------------
// Lines of a serialized text
// ---------------------------------------------------------------------------

proof fn lemma_split_nl_concat(x: Seq<char>, y: Seq<char>)
    ensures
        split_nl(x + seq!['\n'] + y) == split_nl(x) + split_nl(y),
    decreases y.len(),
{
    let z = x + seq!['\n'] + y;
    if y.len() == 0 {
        assert(z.drop_last() =~= x);
        assert(split_nl(x) + split_nl(y) =~= split_nl(x).push(Seq::empty()));
    } else {
        let y0 = y.drop_last();
        lemma_split_nl_concat(x, y0);
        assert(z.drop_last() =~= x + seq!['\n'] + y0);
        assert(z.last() == y.last());
        lemma_split_nl_nonempty(y0);
        let a = split_nl(x);
        let b = split_nl(y0);
        if y.last() == '\n' {
            assert(split_nl(z) =~= a + split_nl(y));
        } else {
            assert((a + b).last() == b.last());
            assert(split_nl(z) =~= a + split_nl(y));
        }
    }
}

proof fn lemma_chunks(t1: Seq<char>, t2: Seq<char>, l1: Seq<Seq<char>>, l2: Seq<Seq<char>>)
    requires
        split_nl(t1) == l1.push(Seq::empty()),
        split_nl(t2) == l2.push(Seq::empty()),
    ensures
        split_nl(t1 + t2) == (l1 + l2).push(Seq::empty()),
{
    let e = Seq::<char>::empty();
    if t1.len() == 0 {
        assert(l1.push(e).len() == 1);
        assert(t1 + t2 =~= t2);
        assert(l1 + l2 =~= l2);
    } else {
        let t0 = t1.drop_last();
        lemma_split_nl_nonempty(t0);
        if t1.last() != '\n' {
            assert(split_nl(t1).last().len() > 0);
        }
        assert(l1 =~= l1.push(e).drop_last());
        assert(l1 =~= split_nl(t0));
        assert(t1 + t2 =~= t0 + seq!['\n'] + t2);
        lemma_split_nl_concat(t0, t2);
        assert(split_nl(t0) + l2.push(e) =~= (l1 + l2).push(e));
    }
}

proof fn lemma_line_chunk(t: Seq<char>)
    ensures
        split_nl(t + nl()) == split_nl(t).push(Seq::empty()),
{
    reveal_strlit("\n");
    assert((t + nl()).drop_last() =~= t);
}

proof fn lemma_split_no_nl(m: Seq<char>)
    requires
        forall|k: int| 0 <= k < m.len() ==> m[k] != '\n',
    ensures
        split_nl(m) == seq![m],
    decreases m.len(),
{
    if m.len() > 0 {
        lemma_split_no_nl(m.drop_last());
        assert(m.drop_last().push(m.last()) =~= m);
        assert(seq![m.drop_last()].update(0, m) =~= seq![m]);
    } else {
        assert(m =~= Seq::<char>::empty());
    }
}

proof fn lemma_marks()
    ensures
        split_nl(highlight_mark()) == seq![highlight_mark()],
        split_nl(card_mark()) == seq![card_mark()],
        split_nl(side_mark()) == seq![side_mark()],
        strip_cr(highlight_mark()) == highlight_mark(),
        strip_cr(card_mark()) == card_mark(),
        strip_cr(side_mark()) == side_mark(),
        highlight_mark() != card_mark(),
        highlight_mark() != side_mark(),
        card_mark() != side_mark(),
        br().len() == 4,
{
    reveal_strlit("========");
    reveal_strlit("----");
    reveal_strlit("|-");
    reveal_strlit("<br>");
    lemma_split_no_nl(highlight_mark());
    lemma_split_no_nl(card_mark());
    lemma_split_no_nl(side_mark());
}

/// The lines of one card's block.
pub open spec fn card_lines(c: CardModel) -> Seq<Seq<char>> {
    seq![card_mark()] + split_nl(sides(c).0) + seq![side_mark()] + split_nl(sides(c).1) + seq![
        card_mark(),
    ]
}

/// The lines of the blocks of a sequence of cards.
pub open spec fn cards_lines(cs: Seq<CardModel>) -> Seq<Seq<char>>
    decreases cs.len(),
{
    if cs.len() == 0 {
        Seq::empty()
    } else {
        cards_lines(cs.drop_last()) + card_lines(cs.last())
    }
}

/// The lines of one clipping's blocks.
pub open spec fn entry_lines(e: ClippingModel) -> Seq<Seq<char>> {
    match e {
        ClippingModel::Highlight { sentence, .. } => seq![highlight_mark()] + split_nl(sentence)
            + seq![highlight_mark()],
        ClippingModel::Note { cards, .. } => cards_lines(cards),
    }
}

/// The lines of the blocks of a sequence of clippings.
pub open spec fn serial_lines(es: Seq<ClippingModel>) -> Seq<Seq<char>>
    decreases es.len(),
{
    if es.len() == 0 {
        Seq::empty()
    } else {
        serial_lines(es.drop_last()) + entry_lines(es.last())
    }
}

proof fn lemma_card_split(c: CardModel)
    ensures
        split_nl(card_text(c)) == card_lines(c).push(Seq::empty()),
{
    let e = Seq::<char>::empty();
    let (a, b) = sides(c);
    lemma_marks();
    lemma_line_chunk(card_mark());
    lemma_line_chunk(a);
    lemma_line_chunk(side_mark());
    lemma_line_chunk(b);
    let m = card_mark() + nl();
    let s = side_mark() + nl();
    lemma_chunks(m, a + nl(), seq![card_mark()], split_nl(a));
    lemma_chunks(m + (a + nl()), s, seq![card_mark()] + split_nl(a), seq![side_mark()]);
    lemma_chunks(
        m + (a + nl()) + s,
        b + nl(),
        seq![card_mark()] + split_nl(a) + seq![side_mark()],
        split_nl(b),
    );
    lemma_chunks(
        m + (a + nl()) + s + (b + nl()),
        m,
        seq![card_mark()] + split_nl(a) + seq![side_mark()] + split_nl(b),
        seq![card_mark()],
    );
    assert(m + (a + nl()) + s + (b + nl()) + m =~= card_text(c));
}

proof fn lemma_cards_split(cs: Seq<CardModel>)
    ensures
        split_nl(cards_text(cs)) == cards_lines(cs).push(Seq::empty()),
    decreases cs.len(),
{
    if cs.len() == 0 {
        assert(split_nl(Seq::empty()) =~= Seq::<Seq<char>>::empty().push(Seq::empty()));
    } else {
        lemma_cards_split(cs.drop_last());
        lemma_card_split(cs.last());
        lemma_chunks(
            cards_text(cs.drop_last()),
            card_text(cs.last()),
            cards_lines(cs.drop_last()),
            card_lines(cs.last()),
        );
    }
}

proof fn lemma_entry_split(en: ClippingModel)
    ensures
        split_nl(entry_text(en)) == entry_lines(en).push(Seq::empty()),
{
    match en {
        ClippingModel::Highlight { sentence, .. } => {
            lemma_marks();
            lemma_line_chunk(highlight_mark());
            lemma_line_chunk(sentence);
            let m = highlight_mark() + nl();
            lemma_chunks(m, sentence + nl(), seq![highlight_mark()], split_nl(sentence));
            lemma_chunks(
                m + (sentence + nl()),
                m,
                seq![highlight_mark()] + split_nl(sentence),
                seq![highlight_mark()],
            );
            assert(m + (sentence + nl()) + m =~= entry_text(en));
        },
        ClippingModel::Note { cards, .. } => {
            lemma_cards_split(cards);
        },
    }
}

proof fn lemma_serial_split(es: Seq<ClippingModel>)
    ensures
        split_nl(serialize_spec(es)) == serial_lines(es).push(Seq::empty()),
    decreases es.len(),
{
    if es.len() == 0 {
        assert(split_nl(Seq::empty()) =~= Seq::<Seq<char>>::empty().push(Seq::empty()));
    } else {
        lemma_serial_split(es.drop_last());
        lemma_entry_split(es.last());
        lemma_chunks(
            serialize_spec(es.drop_last()),
            entry_text(es.last()),
            serial_lines(es.drop_last()),
            entry_lines(es.last()),
        );
    }
}

// ---------------------------------------------------------------------------
// Reading the blocks back
// ---------------------------------------------------------------------------

/// A line that survives the round trip: no trailing carriage return, and
/// no block marker.
pub open spec fn safe_line(l: Seq<char>) -> bool {
    &&& strip_cr(l) == l
    &&& l != highlight_mark()
    &&& l != card_mark()
    &&& l != side_mark()
}

/// Every line of the text survives the round trip.
pub open spec fn safe_text(t: Seq<char>) -> bool {
    forall|k: int| 0 <= k < split_nl(t).len() ==> safe_line(#[trigger] split_nl(t)[k])
}

/// A card survives the round trip: its sides' lines do, and its front,
/// joined by `<br>`, holds the cloze marker exactly when it is a cloze card.
pub open spec fn safe_card(c: CardModel) -> bool {
    &&& safe_text(sides(c).0)
    &&& safe_text(sides(c).1)
    &&& (c is Cloze <==> contains(join(split_nl(sides(c).0), br()), cloze_open()))
}

/// A clipping survives the round trip.
pub open spec fn safe_entry(e: ClippingModel) -> bool {
    match e {
        ClippingModel::Highlight { sentence, .. } => safe_text(sentence),
        ClippingModel::Note { cards, .. } => forall|k: int|
            0 <= k < cards.len() ==> safe_card(#[trigger] cards[k]),
    }
}

/// The card read back from a written card, with `sentence` the sentence
/// read last: the sides' lines joined by `<br>`; a basic card's back becomes
/// its trimmed first line, the sentence, and the trimmed rest when not empty.
pub open spec fn expect_card(c: CardModel, sentence: Seq<char>) -> CardModel {
    let front = join(split_nl(sides(c).0), br());
    let bl = split_nl(sides(c).1);
    match c {
        CardModel::Cloze { .. } => CardModel::Cloze { text: front, back_extra: join(bl, br()) },
        CardModel::Basic { .. } => {
            let term = trim(bl[0]);
            let rest = trim(join(bl.skip(1), br()));
            CardModel::Basic {
                front,
                back: if rest.len() == 0 {
                    term + br() + br() + sentence
                } else {
                    term + br() + br() + sentence + br() + br() + rest
                },
            }
        },
    }
}

pub open spec fn expect_cards(cs: Seq<CardModel>, sentence: Seq<char>) -> Seq<CardModel> {
    cs.map_values(|c: CardModel| expect_card(c, sentence))
}

/// The sentence read last after the blocks of `es`: the last highlight's
/// lines joined by `<br>`.
pub open spec fn register(es: Seq<ClippingModel>) -> Seq<char>
    decreases es.len(),
{
    if es.len() == 0 {
        Seq::empty()
    } else {
        match es.last() {
            ClippingModel::Highlight { sentence, .. } => join(split_nl(sentence), br()),
            ClippingModel::Note { .. } => register(es.drop_last()),
        }
    }
}

/// The cards read back from the blocks of `es`.
pub open spec fn expected_cards(es: Seq<ClippingModel>) -> Seq<CardModel>
    decreases es.len(),
{
    if es.len() == 0 {
        Seq::empty()
    } else {
        match es.last() {
            ClippingModel::Highlight { .. } => expected_cards(es.drop_last()),
            ClippingModel::Note { cards, .. } => expected_cards(es.drop_last()) + expect_cards(
                cards,
                register(es.drop_last()),
            ),
        }
    }
}

proof fn lemma_next_equal_at(lines: Seq<Seq<char>>, from: int, k: int, m: Seq<char>)
    requires
        0 <= from <= k < lines.len(),
        lines[k] == m,
        forall|t: int| from <= t < k ==> lines[t] != m,
    ensures
        next_equal(lines, from, m) == k,
    decreases k - from,
{
    if from < k {
        lemma_next_equal_at(lines, from + 1, k, m);
    }
}

proof fn lemma_next_equal_none(lines: Seq<Seq<char>>, from: int, m: Seq<char>)
    requires
        0 <= from <= lines.len(),
        forall|t: int| from <= t < lines.len() ==> lines[t] != m,
    ensures
        next_equal(lines, from, m) == lines.len(),
    decreases lines.len() - from,
{
    if from < lines.len() {
        lemma_next_equal_none(lines, from + 1, m);
    }
}

proof fn lemma_card_step(
    p: Seq<Seq<char>>,
    c: CardModel,
    r: Seq<Seq<char>>,
    sent: Seq<char>,
    acc: Seq<CardModel>,
)
    requires
        safe_card(c),
    ensures
        decode_from(p + card_lines(c) + r, p.len() as int, sent, acc) == decode_from(
            p + card_lines(c) + r,
            (p.len() + card_lines(c).len()) as int,
            sent,
            acc.push(expect_card(c, sent)),
        ),
{
    lemma_marks();
    let lines = p + card_lines(c) + r;
    let la = split_nl(sides(c).0);
    let lb = split_nl(sides(c).1);
    lemma_split_nl_nonempty(sides(c).1);
    let i = p.len() as int;
    let j = i + 1 + la.len() + 1 + lb.len();
    assert(lines[i] == card_mark());
    assert(lines[j] == card_mark());
    assert forall|t: int| i + 1 <= t < j implies lines[t] != card_mark() by {
        if t <= i + la.len() {
            assert(lines[t] == la[t - i - 1]);
            assert(safe_line(la[t - i - 1]));
        } else if t == i + la.len() + 1 {
            assert(lines[t] == side_mark());
        } else {
            assert(lines[t] == lb[t - i - la.len() - 2]);
            assert(safe_line(lb[t - i - la.len() - 2]));
        }
    }
    lemma_next_equal_at(lines, i + 1, j, card_mark());
    let block = lines.subrange(i + 1, j);
    assert(block =~= la + seq![side_mark()] + lb);
    assert forall|t: int| 0 <= t < la.len() implies block[t] != side_mark() by {
        assert(block[t] == la[t]);
        assert(safe_line(la[t]));
    }
    lemma_next_equal_at(block, 0, la.len() as int, side_mark());
    assert forall|t: int| la.len() + 1 <= t < block.len() implies block[t] != side_mark() by {
        assert(block[t] == lb[t - la.len() - 1]);
        assert(safe_line(lb[t - la.len() - 1]));
    }
    lemma_next_equal_none(block, (la.len() + 1) as int, side_mark());
    assert(block.take(la.len() as int) =~= la);
    assert(block.skip((la.len() + 1) as int) =~= lb);
    assert(card_block(block, sent, i) == Ok::<CardModel, ConvertError>(expect_card(c, sent)));
}

proof fn lemma_cards_step(
    p: Seq<Seq<char>>,
    cs: Seq<CardModel>,
    r: Seq<Seq<char>>,
    sent: Seq<char>,
    acc: Seq<CardModel>,
)
    requires
        forall|k: int| 0 <= k < cs.len() ==> safe_card(#[trigger] cs[k]),
    ensures
        decode_from(p + cards_lines(cs) + r, p.len() as int, sent, acc) == decode_from(
            p + cards_lines(cs) + r,
            (p.len() + cards_lines(cs).len()) as int,
            sent,
            acc + expect_cards(cs, sent),
        ),
    decreases cs.len(),
{
    if cs.len() == 0 {
        assert(acc + expect_cards(cs, sent) =~= acc);
        assert(cards_lines(cs).len() == 0);
    } else {
        let c0 = cs.drop_last();
        let c = cs.last();
        assert(safe_card(cs[cs.len() - 1]));
        let lines = p + cards_lines(cs) + r;
        assert(lines =~= p + cards_lines(c0) + (card_lines(c) + r));
        assert(lines =~= (p + cards_lines(c0)) + card_lines(c) + r);
        lemma_cards_step(p, c0, card_lines(c) + r, sent, acc);
        lemma_card_step(p + cards_lines(c0), c, r, sent, acc + expect_cards(c0, sent));
        assert((acc + expect_cards(c0, sent)).push(expect_card(c, sent)) =~= acc + expect_cards(
            cs,
            sent,
        ));
    }
}

proof fn lemma_highlight_step(
    p: Seq<Seq<char>>,
    ls: Seq<Seq<char>>,
    r: Seq<Seq<char>>,
    sent: Seq<char>,
    acc: Seq<CardModel>,
)
    requires
        forall|k: int| 0 <= k < ls.len() ==> safe_line(#[trigger] ls[k]),
    ensures
        decode_from(
            p + (seq![highlight_mark()] + ls + seq![highlight_mark()]) + r,
            p.len() as int,
            sent,
            acc,
        ) == decode_from(
            p + (seq![highlight_mark()] + ls + seq![highlight_mark()]) + r,
            (p.len() + ls.len() + 2) as int,
            join(ls, br()),
            acc,
        ),
{
    lemma_marks();
    let lines = p + (seq![highlight_mark()] + ls + seq![highlight_mark()]) + r;
    let i = p.len() as int;
    let j = i + 1 + ls.len();
    assert(lines[i] == highlight_mark());
    assert(lines[j] == highlight_mark());
    assert forall|t: int| i + 1 <= t < j implies lines[t] != highlight_mark() by {
        assert(lines[t] == ls[t - i - 1]);
        assert(safe_line(ls[t - i - 1]));
    }
    lemma_next_equal_at(lines, i + 1, j, highlight_mark());
    assert(lines.subrange(i + 1, j) =~= ls);
}

proof fn lemma_entries_step(es: Seq<ClippingModel>, r: Seq<Seq<char>>)
    requires
        forall|k: int| 0 <= k < es.len() ==> safe_entry(#[trigger] es[k]),
    ensures
        decode_from(serial_lines(es) + r, 0, Seq::empty(), Seq::empty()) == decode_from(
            serial_lines(es) + r,
            serial_lines(es).len() as int,
            register(es),
            expected_cards(es),
        ),
    decreases es.len(),
{
    if es.len() > 0 {
        let e0 = es.drop_last();
        let en = es.last();
        assert(safe_entry(es[es.len() - 1]));
        assert forall|k: int| 0 <= k < e0.len() implies safe_entry(#[trigger] e0[k]) by {
            assert(e0[k] == es[k]);
        }
        let lines = serial_lines(es) + r;
        assert(lines =~= serial_lines(e0) + (entry_lines(en) + r));
        assert(lines =~= serial_lines(e0) + entry_lines(en) + r);
        lemma_entries_step(e0, entry_lines(en) + r);
        match en {
            ClippingModel::Highlight { sentence, .. } => {
                let ls = split_nl(sentence);
                assert forall|k: int| 0 <= k < ls.len() implies safe_line(#[trigger] ls[k]) by {}
                lemma_highlight_step(serial_lines(e0), ls, r, register(e0), expected_cards(e0));
            },
            ClippingModel::Note { cards, .. } => {
                lemma_cards_step(serial_lines(e0), cards, r, register(e0), expected_cards(e0));
            },
        }
    }
}

proof fn lemma_clean(es: Seq<ClippingModel>)
    requires
        forall|k: int| 0 <= k < es.len() ==> safe_entry(#[trigger] es[k]),
    ensures
        forall|k: int|
            0 <= k < serial_lines(es).len() ==> strip_cr(#[trigger] serial_lines(es)[k])
                == serial_lines(es)[k],
    decreases es.len(),
{
    lemma_marks();
    if es.len() > 0 {
        let e0 = es.drop_last();
        let en = es.last();
        assert(safe_entry(es[es.len() - 1]));
        assert forall|k: int| 0 <= k < e0.len() implies safe_entry(#[trigger] e0[k]) by {
            assert(e0[k] == es[k]);
        }
        lemma_clean(e0);
        lemma_entry_clean(en);
        let a = serial_lines(e0);
        let b = entry_lines(en);
        assert forall|k: int| 0 <= k < serial_lines(es).len() implies strip_cr(
            #[trigger] serial_lines(es)[k],
        ) == serial_lines(es)[k] by {
            if k < a.len() {
                assert(serial_lines(es)[k] == a[k]);
            } else {
                assert(serial_lines(es)[k] == b[k - a.len()]);
            }
        }
    }
}

proof fn lemma_text_clean(t: Seq<char>)
    requires
        safe_text(t),
    ensures
        forall|k: int| 0 <= k < split_nl(t).len() ==> strip_cr(#[trigger] split_nl(t)[k]) == split_nl(t)[k],
{
    assert forall|k: int| 0 <= k < split_nl(t).len() implies strip_cr(#[trigger] split_nl(t)[k]) == split_nl(t)[k] by {
        assert(safe_line(split_nl(t)[k]));
    }
}

proof fn lemma_card_clean(c: CardModel)
    requires
        safe_card(c),
    ensures
        forall|k: int| 0 <= k < card_lines(c).len() ==> strip_cr(#[trigger] card_lines(c)[k]) == card_lines(c)[k],
{
    lemma_marks();
    let la = split_nl(sides(c).0);
    let lb = split_nl(sides(c).1);
    lemma_text_clean(sides(c).0);
    lemma_text_clean(sides(c).1);
    assert forall|k: int| 0 <= k < card_lines(c).len() implies strip_cr(#[trigger] card_lines(c)[k]) == card_lines(c)[k] by {
        if k == 0 {
        } else if k <= la.len() {
            assert(card_lines(c)[k] == la[k - 1]);
        } else if k == la.len() + 1 {
        } else if k <= la.len() + 1 + lb.len() {
            assert(card_lines(c)[k] == lb[k - la.len() - 2]);
        }
    }
}

proof fn lemma_cards_clean(cs: Seq<CardModel>)
    requires
        forall|k: int| 0 <= k < cs.len() ==> safe_card(#[trigger] cs[k]),
    ensures
        forall|k: int| 0 <= k < cards_lines(cs).len() ==> strip_cr(#[trigger] cards_lines(cs)[k]) == cards_lines(cs)[k],
    decreases cs.len(),
{
    if cs.len() > 0 {
        let c0 = cs.drop_last();
        assert(safe_card(cs[cs.len() - 1]));
        assert forall|k: int| 0 <= k < c0.len() implies safe_card(#[trigger] c0[k]) by {
            assert(c0[k] == cs[k]);
        }
        lemma_cards_clean(c0);
        lemma_card_clean(cs.last());
        let a = cards_lines(c0);
        let b = card_lines(cs.last());
        assert forall|k: int| 0 <= k < cards_lines(cs).len() implies strip_cr(#[trigger] cards_lines(cs)[k]) == cards_lines(cs)[k] by {
            if k < a.len() {
                assert(cards_lines(cs)[k] == a[k]);
            } else {
                assert(cards_lines(cs)[k] == b[k - a.len()]);
            }
        }
    }
}

proof fn lemma_entry_clean(en: ClippingModel)
    requires
        safe_entry(en),
    ensures
        forall|k: int| 0 <= k < entry_lines(en).len() ==> strip_cr(#[trigger] entry_lines(en)[k]) == entry_lines(en)[k],
{
    lemma_marks();
    match en {
        ClippingModel::Highlight { sentence, .. } => {
            let ls = split_nl(sentence);
            lemma_text_clean(sentence);
            assert forall|k: int| 0 <= k < entry_lines(en).len() implies strip_cr(#[trigger] entry_lines(en)[k]) == entry_lines(en)[k] by {
                if 1 <= k <= ls.len() {
                    assert(entry_lines(en)[k] == ls[k - 1]);
                }
            }
        },
        ClippingModel::Note { cards, .. } => {
            lemma_cards_clean(cards);
        },
    }
}

/// The round trip: serializing clippings whose texts survive it and reading
/// the text back gives, for each card in order, the card with its sides'
/// lines joined by `<br>`; a basic card's back holds its term, the sentence
/// of the highlight written last before it, and its further lines.
pub proof fn law_round_trip(es: Seq<ClippingModel>)
    requires
        forall|k: int| 0 <= k < es.len() ==> safe_entry(#[trigger] es[k]),
    ensures
        deserialize_spec(serialize_spec(es)) == Ok::<Seq<CardModel>, ConvertError>(
            expected_cards(es),
        ),
{
    let l = serial_lines(es);
    lemma_serial_split(es);
    lemma_clean(es);
    let p = split_nl(serialize_spec(es));
    assert(p.last().len() == 0);
    assert(p.drop_last() =~= l);
    assert(l.map_values(|x: Seq<char>| strip_cr(x)) =~= l);
    assert(lines_of(serialize_spec(es)) == l);
    lemma_entries_step(es, Seq::empty());
    assert(l + Seq::<Seq<char>>::empty() =~= l);
}

} // verus!
