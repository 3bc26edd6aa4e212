//! Laws that relate the library's functions, stated over the spec functions
//! their contracts use, and proved.
use vstd::prelude::*;
use crate::codec::{card_mark, decode_from, highlight_mark};
use crate::grammar::{basic_sep, card_spec, cloze_sep, kept_from};
use crate::model::{CardModel, ClippingModel, ConvertError};
use crate::scanner::{assemble_from, is_cut, RawModel};
use crate::text::contains;

verus! {

/// The dates of a sequence of clippings.
pub open spec fn dates_of(es: Seq<ClippingModel>) -> Seq<i64> {
    es.map_values(|e: ClippingModel| e.date())
}

/// The record kinds that give a clipping.
pub open spec fn gives_clipping(kind: Seq<char>) -> bool {
    kind == "Highlight"@ || kind == "Note"@
}

/// The stamps, in order, of the records from index `i` on that give a
/// clipping and are not cut.
pub open spec fn kept_dates(
    recs: Seq<RawModel>,
    stamps: Seq<Option<i64>>,
    after: Option<i64>,
    i: int,
) -> Seq<i64>
    decreases recs.len() - i,
{
    if i < 0 || i >= recs.len() {
        Seq::empty()
    } else {
        let rest = kept_dates(recs, stamps, after, i + 1);
        match stamps[i] {
            Some(d) => if !is_cut(d, after) && gives_clipping(recs[i].kind) {
                seq![d] + rest
            } else {
                rest
            },
            None => rest,
        }
    }
}

proof fn lemma_kept_dates_not_cut(
    recs: Seq<RawModel>,
    stamps: Seq<Option<i64>>,
    after: Option<i64>,
    i: int,
)
    ensures
        forall|k: int|
            0 <= k < kept_dates(recs, stamps, after, i).len() ==> !is_cut(
                #[trigger] kept_dates(recs, stamps, after, i)[k],
                after,
            ),
    decreases recs.len() - i,
{
    if 0 <= i < recs.len() {
        lemma_kept_dates_not_cut(recs, stamps, after, i + 1);
        let rest = kept_dates(recs, stamps, after, i + 1);
        if let Some(d) = stamps[i] {
            if !is_cut(d, after) && gives_clipping(recs[i].kind) {
                assert forall|k: int|
                    0 <= k < kept_dates(recs, stamps, after, i).len() implies !is_cut(
                    #[trigger] kept_dates(recs, stamps, after, i)[k],
                    after,
                ) by {
                    if k > 0 {
                        assert(kept_dates(recs, stamps, after, i)[k] == rest[k - 1]);
                    }
                }
            }
        }
    }
}

proof fn lemma_assemble_dates(
    recs: Seq<RawModel>,
    stamps: Seq<Option<i64>>,
    after: Option<i64>,
    i: int,
    acc: Seq<ClippingModel>,
)
    requires
        0 <= i,
        assemble_from(recs, stamps, after, i, acc) is Ok,
    ensures
        dates_of(assemble_from(recs, stamps, after, i, acc)->Ok_0) == dates_of(acc) + kept_dates(
            recs,
            stamps,
            after,
            i,
        ),
    decreases recs.len() - i,
{
    if i >= recs.len() {
        assert(dates_of(acc) + Seq::<i64>::empty() =~= dates_of(acc));
    } else {
        let r = recs[i];
        let d = stamps[i]->Some_0;
        let rest = kept_dates(recs, stamps, after, i + 1);
        if is_cut(d, after) {
            lemma_assemble_dates(recs, stamps, after, i + 1, acc);
        } else if r.kind == "Highlight"@ {
            let e = ClippingModel::Highlight {
                book: r.book,
                author: r.author,
                date: d,
                sentence: crate::text::join(r.body, "\n"@),
            };
            lemma_assemble_dates(recs, stamps, after, i + 1, acc.push(e));
            assert(dates_of(acc.push(e)) + rest =~= dates_of(acc) + (seq![d] + rest));
        } else if r.kind == "Note"@ {
            let cards = crate::scanner::note_cards(
                r.body,
                crate::scanner::prev_sentence(acc),
                r.line + 3,
                0,
                Seq::empty(),
            )->Ok_0;
            let e = ClippingModel::Note { book: r.book, author: r.author, date: d, cards };
            lemma_assemble_dates(recs, stamps, after, i + 1, acc.push(e));
            assert(dates_of(acc.push(e)) + rest =~= dates_of(acc) + (seq![d] + rest));
        } else {
            lemma_assemble_dates(recs, stamps, after, i + 1, acc);
        }
    }
}

/// Cutoff filtering: when the records assemble, the clippings are exactly
/// those of the highlight and note records dated after the cutoff, in file
/// order; none is dated at or before it.
pub proof fn law_cutoff(recs: Seq<RawModel>, stamps: Seq<Option<i64>>, after: Option<i64>)
    requires
        assemble_from(recs, stamps, after, 0, Seq::empty()) is Ok,
    ensures
        dates_of(assemble_from(recs, stamps, after, 0, Seq::empty())->Ok_0) == kept_dates(
            recs,
            stamps,
            after,
            0,
        ),
        forall|k: int|
            0 <= k < assemble_from(recs, stamps, after, 0, Seq::empty())->Ok_0.len() ==> !is_cut(
                #[trigger] assemble_from(recs, stamps, after, 0, Seq::empty())->Ok_0[k].date(),
                after,
            ),
{
    lemma_assemble_dates(recs, stamps, after, 0, Seq::empty());
    lemma_kept_dates_not_cut(recs, stamps, after, 0);
    let out = assemble_from(recs, stamps, after, 0, Seq::empty())->Ok_0;
    assert(dates_of(Seq::<ClippingModel>::empty()) + kept_dates(recs, stamps, after, 0)
        =~= kept_dates(recs, stamps, after, 0));
    assert forall|k: int| 0 <= k < out.len() implies !is_cut(#[trigger] out[k].date(), after) by {
        assert(dates_of(out)[k] == out[k].date());
    }
}

/// A note line holding ` .. ` with fewer than two non-empty parts is refused
/// as missing its description; a cloze line with no highlight just before
/// is refused as missing its highlight.
pub proof fn law_card_errors(line: Seq<char>, prev: Option<Seq<char>>, n: usize)
    ensures
        contains(line, basic_sep()) && kept_from(line, basic_sep(), 0).len() < 2 ==> card_spec(
            line,
            prev,
            n,
        ) == Err::<CardModel, ConvertError>(ConvertError::MissingBasicDescription { line: n }),
        !contains(line, basic_sep()) && contains(line, cloze_sep()) ==> card_spec(line, None, n)
            == Err::<CardModel, ConvertError>(ConvertError::MissingHighlightForCloze { line: n }),
{
}

/// A line outside every block that is neither block marker fails the whole
/// text with `InvalidBlockSequence` naming that line's index, whatever was
/// read before it.
pub proof fn law_stray_line(
    lines: Seq<Seq<char>>,
    i: int,
    sentence: Seq<char>,
    acc: Seq<CardModel>,
)
    requires
        0 <= i < lines.len(),
        lines[i] != highlight_mark(),
        lines[i] != card_mark(),
    ensures
        decode_from(lines, i, sentence, acc) == Err::<Seq<CardModel>, ConvertError>(
            ConvertError::InvalidBlockSequence { line: i as usize },
        ),
{
}

/// The clipping a highlight or note record at index `i` gives after `acc`.
spec fn step_entry(r: RawModel, d: i64, acc: Seq<ClippingModel>) -> ClippingModel {
    if r.kind == "Highlight"@ {
        ClippingModel::Highlight {
            book: r.book,
            author: r.author,
            date: d,
            sentence: crate::text::join(r.body, "\n"@),
        }
    } else {
        ClippingModel::Note {
            book: r.book,
            author: r.author,
            date: d,
            cards: crate::scanner::note_cards(
                r.body,
                crate::scanner::prev_sentence(acc),
                r.line + 3,
                0,
                Seq::empty(),
            )->Ok_0,
        }
    }
}

proof fn lemma_shift(
    recs: Seq<RawModel>,
    stamps: Seq<Option<i64>>,
    after: Option<i64>,
    p: int,
    b: RawModel,
    d: i64,
    q: int,
    acc: Seq<ClippingModel>,
)
    requires
        0 <= p <= q,
        p <= recs.len(),
        stamps.len() == recs.len(),
    ensures
        assemble_from(recs.insert(p, b), stamps.insert(p, Some(d)), after, q + 1, acc)
            == assemble_from(recs, stamps, after, q, acc),
    decreases recs.len() - q,
{
    let r2 = recs.insert(p, b);
    let s2 = stamps.insert(p, Some(d));
    if q < recs.len() {
        assert(r2[q + 1] == recs[q]);
        assert(s2[q + 1] == stamps[q]);
        let r = recs[q];
        lemma_shift(recs, stamps, after, p, b, d, q + 1, acc);
        if let Some(e) = stamps[q] {
            if !is_cut(e, after) && gives_clipping(r.kind) {
                lemma_shift(recs, stamps, after, p, b, d, q + 1, acc.push(step_entry(r, e, acc)));
            }
        }
    }
}

proof fn lemma_prefix(
    recs: Seq<RawModel>,
    stamps: Seq<Option<i64>>,
    after: Option<i64>,
    p: int,
    b: RawModel,
    d: i64,
    i: int,
    acc: Seq<ClippingModel>,
)
    requires
        0 <= i <= p <= recs.len(),
        stamps.len() == recs.len(),
        b.kind == "Bookmark"@,
    ensures
        assemble_from(recs.insert(p, b), stamps.insert(p, Some(d)), after, i, acc)
            == assemble_from(recs, stamps, after, i, acc),
    decreases p - i,
{
    let r2 = recs.insert(p, b);
    let s2 = stamps.insert(p, Some(d));
    if i == p {
        reveal_strlit("Bookmark");
        reveal_strlit("Highlight");
        reveal_strlit("Note");
        assert(r2[p] == b);
        assert(b.kind.len() == 8);
        lemma_shift(recs, stamps, after, p, b, d, p, acc);
    } else {
        assert(r2[i] == recs[i]);
        assert(s2[i] == stamps[i]);
        let r = recs[i];
        lemma_prefix(recs, stamps, after, p, b, d, i + 1, acc);
        if let Some(e) = stamps[i] {
            if !is_cut(e, after) && gives_clipping(r.kind) {
                lemma_prefix(recs, stamps, after, p, b, d, i + 1, acc.push(step_entry(r, e, acc)));
            }
        }
    }
}

/// A bookmark record gives no clipping and leaves the records around it as
/// they were: inserting one anywhere among the records changes nothing.
pub proof fn law_bookmark_ignored(
    recs: Seq<RawModel>,
    stamps: Seq<Option<i64>>,
    after: Option<i64>,
    p: int,
    b: RawModel,
    d: i64,
)
    requires
        0 <= p <= recs.len(),
        stamps.len() == recs.len(),
        b.kind == "Bookmark"@,
    ensures
        assemble_from(recs.insert(p, b), stamps.insert(p, Some(d)), after, 0, Seq::empty())
            == assemble_from(recs, stamps, after, 0, Seq::empty()),
{
    lemma_prefix(recs, stamps, after, p, b, d, 0, Seq::empty());
}

} // verus!
