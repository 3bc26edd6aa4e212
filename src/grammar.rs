//! The grammars of one clipping record's title line and meta line, and the
//! card grammar that turns one note line into a card.
use vstd::prelude::*;
use crate::cloze::{ci_found, cloze_all, cloze_exec, fold, fold_exec};
use crate::model::{Basic, Card, CardModel, Cloze, ConvertError};
use crate::text::{
    occurs_at,    chars_of, contains, contains_exec, find_from, find_last, first_at, join, join_range, last_at,
    lemma_first_at_bounds, lemma_last_at_bounds, lines_view, slice_chars, string_of, trim, trim_exec,
};

verus! {

// ---------------------------------------------------------------------------
// Title line: `<book> (<author>)`
// ---------------------------------------------------------------------------

/// Book and author of a title line: the author is what stands between the
/// last ` (` that leaves room for it and the last `)`; the book is the
/// non-empty text before that ` (`.
pub open spec fn title_spec(s: Seq<char>) -> Option<(Seq<char>, Seq<char>)> {
    match last_at(s, ")"@, s.len() - 1) {
        None => None,
        Some(q) => match last_at(s, " ("@, q - 3) {
            None => None,
            Some(k) => if k >= 1 {
                Some((s.take(k), s.subrange(k + 2, q)))
            } else {
                None
            },
        },
    }
}

/// Reads the book and the author from a title line.
pub fn parse_title(s: &Vec<char>) -> (r: Option<(Vec<char>, Vec<char>)>)
    ensures
        r matches Some(p) ==> title_spec(s@) == Some((p.0@, p.1@)),
        r is None ==> title_spec(s@) is None,
{
    if s.len() == 0 {
        return None;
    }
    let close = chars_of(")");
    let open = chars_of(" (");
    match find_last(s, &close, s.len() - 1) {
        None => None,
        Some(q) => {
            proof {
                lemma_last_at_bounds(s@, ")"@, s.len() - 1);
            }
            if q < 3 {
                return None;
            }
            match find_last(s, &open, q - 3) {
                None => None,
                Some(k) => {
                    proof {
                        lemma_last_at_bounds(s@, " ("@, q - 3);
                    }
                    if k >= 1 {
                        Some((slice_chars(s, 0, k), slice_chars(s, k + 2, q)))
                    } else {
                        None
                    }
                },
            }
        },
    }
}

// ---------------------------------------------------------------------------
// Meta line: `- Your <kind> on <where> | Added on <weekday>, <date>`
// ---------------------------------------------------------------------------

/// Record kind and date text of a meta line. The kind is the non-empty text
/// after the first `- Your ` up to the next ` on `; the date text is what
/// follows the first `, ` after the next `| Added on `.
pub open spec fn meta_spec(s: Seq<char>) -> Option<(Seq<char>, Seq<char>)> {
    match first_at(s, "- Your "@, 0) {
        None => None,
        Some(y) => match first_at(s, " on "@, y + 7) {
            None => None,
            Some(o) => if o <= y + 7 {
                None
            } else {
                match first_at(s, "| Added on "@, o + 4) {
                    None => None,
                    Some(m) => match first_at(s, ", "@, m + 11) {
                        None => None,
                        Some(c) => Some((s.subrange(y + 7, o), s.skip(c + 2))),
                    },
                }
            },
        },
    }
}

/// Reads the record kind and the date text from a meta line.
pub fn parse_meta(s: &Vec<char>) -> (r: Option<(Vec<char>, Vec<char>)>)
    ensures
        r matches Some(p) ==> meta_spec(s@) == Some((p.0@, p.1@)),
        r is None ==> meta_spec(s@) is None,
{
    let your = chars_of("- Your ");
    let on = chars_of(" on ");
    let added = chars_of("| Added on ");
    let comma = chars_of(", ");
    proof {
        reveal_strlit("- Your ");
        reveal_strlit(" on ");
        reveal_strlit("| Added on ");
        reveal_strlit(", ");
        assert(your@.len() == 7);
        assert(on@.len() == 4);
        assert(added@.len() == 11);
        assert(comma@.len() == 2);
    }
    let y = match find_from(s, &your, 0) {
        None => return None,
        Some(y) => y,
    };
    proof {
        lemma_first_at_bounds(s@, your@, 0);
        assert(y + 7 <= s.len());
    }
    let o = match find_from(s, &on, y + 7) {
        None => return None,
        Some(o) => o,
    };
    proof {
        lemma_first_at_bounds(s@, on@, y + 7);
        assert(o + 4 <= s.len());
    }
    if o <= y + 7 {
        return None;
    }
    let m = match find_from(s, &added, o + 4) {
        None => return None,
        Some(m) => m,
    };
    proof {
        lemma_first_at_bounds(s@, added@, o + 4);
    }
    let c = match find_from(s, &comma, m + 11) {
        None => return None,
        Some(c) => c,
    };
    proof {
        lemma_first_at_bounds(s@, comma@, m + 11);
    }
    Some((slice_chars(s, y + 7, o), slice_chars(s, c + 2, s.len())))
}

// ---------------------------------------------------------------------------
// Card grammar
// ---------------------------------------------------------------------------

/// The separator of a basic card's parts.
pub open spec fn basic_sep() -> Seq<char> {
    " .. "@
}

/// The separator between a cloze term and its extra text.
pub open spec fn cloze_sep() -> Seq<char> {
    " ... "@
}

/// A trimmed part, kept only when it is not empty.
pub open spec fn keep(t: Seq<char>) -> Seq<Seq<char>> {
    if t.len() == 0 {
        Seq::empty()
    } else {
        seq![t]
    }
}

/// The non-empty trimmed parts of `s[from..]` separated by `sep`.
pub open spec fn kept_from(s: Seq<char>, sep: Seq<char>, from: int) -> Seq<Seq<char>>
    decreases s.len() + 1 - from,
{
    match first_at(s, sep, from) {
        None => keep(trim(s.subrange(from, s.len() as int))),
        Some(i) => if 0 <= from <= i && sep.len() > 0 && i + sep.len() <= s.len() {
            keep(trim(s.subrange(from, i))) + kept_from(s, sep, i + sep.len())
        } else {
            Seq::empty()
        },
    }
}

/// The non-empty trimmed parts of `s` separated by `sep` (not empty).
pub fn kept_parts(s: &Vec<char>, sep: &Vec<char>) -> (r: Vec<Vec<char>>)
    requires
        sep.len() > 0,
    ensures
        lines_view(r@) == kept_from(s@, sep@, 0),
{
    let mut out: Vec<Vec<char>> = Vec::new();
    let mut pos: usize = 0;
    loop
        invariant
            pos <= s.len(),
            sep.len() > 0,
            lines_view(out@) + kept_from(s@, sep@, pos as int) == kept_from(s@, sep@, 0),
        decreases s.len() - pos,
    {
        let ghost out0 = lines_view(out@);
        match find_from(s, sep, pos) {
            None => {
                let piece = slice_chars(s, pos, s.len());
                let t = trim_exec(&piece);
                if t.len() > 0 {
                    out.push(t);
                }
                proof {
                    assert(lines_view(out@) =~= out0 + keep(trim(s@.subrange(pos as int, s.len() as int))));
                }
                return out;
            },
            Some(i) => {
                proof {
                    lemma_first_at_bounds(s@, sep@, pos as int);
                }
                let piece = slice_chars(s, pos, i);
                let t = trim_exec(&piece);
                if t.len() > 0 {
                    out.push(t);
                }
                proof {
                    assert(lines_view(out@) =~= out0 + keep(trim(s@.subrange(pos as int, i as int))));
                    assert(lines_view(out@) + kept_from(s@, sep@, i + sep.len()) =~= out0 + kept_from(s@, sep@, pos as int));
                }
                pos = i + sep.len();
            },
        }
    }
}

/// The card of one note line, given the sentence of the clipping just
/// before the note when that is a highlight. `n` is the line's index.
///
/// A line holding ` .. ` is a basic card: its non-empty trimmed parts joined
/// by newlines, at least two of them. Otherwise a line holding ` ... ` is a
/// cloze card: the trimmed term before the first ` ... ` is wrapped wherever
/// it occurs in the sentence, the trimmed rest is the extra text. Otherwise
/// the line, in lower case, is the back of a basic card.
pub open spec fn card_spec(line: Seq<char>, prev: Option<Seq<char>>, n: usize) -> Result<
    CardModel,
    ConvertError,
> {
    if contains(line, basic_sep()) {
        let parts = kept_from(line, basic_sep(), 0);
        if parts.len() < 2 {
            Err(ConvertError::MissingBasicDescription { line: n })
        } else {
            Ok(CardModel::Basic { front: Seq::empty(), back: join(parts, "\n"@) })
        }
    } else {
        match first_at(line, cloze_sep(), 0) {
            Some(i) => {
                let term = trim(line.take(i));
                let extra = trim(line.skip(i + 5));
                match prev {
                    None => Err(ConvertError::MissingHighlightForCloze { line: n }),
                    Some(s) => if ci_found(s, term) {
                        Ok(CardModel::Cloze { text: cloze_all(s, term), back_extra: extra })
                    } else {
                        Err(ConvertError::NoClozeMatch { line: n })
                    },
                }
            },
            None => Ok(CardModel::Basic { front: Seq::empty(), back: fold(line) }),
        }
    }
}

/// The model of a card result.
pub open spec fn card_result_model(r: Result<Card, ConvertError>) -> Result<
    CardModel,
    ConvertError,
> {
    match r {
        Ok(c) => Ok(c@),
        Err(e) => Err(e),
    }
}

/// Joins the parts with newlines.
fn join_lines(parts: &Vec<Vec<char>>) -> (r: Vec<char>)
    ensures
        r@ == join(lines_view(parts@), "\n"@),
{
    let nl = chars_of("\n");
    let r = join_range(parts, 0, parts.len(), &nl);
    proof {
        assert(lines_view(parts@).subrange(0, parts@.len() as int) =~= lines_view(parts@));
    }
    r
}

/// Derives the card of one note line (see `card_spec`).
pub fn card_from_line(line: &Vec<char>, prev: Option<&Vec<char>>, n: usize) -> (r: Result<
    Card,
    ConvertError,
>)
    ensures
        card_result_model(r) == card_spec(
            line@,
            match prev {
                Some(p) => Some(p@),
                None => None,
            },
            n,
        ),
{
    let bsep = chars_of(" .. ");
    let csep = chars_of(" ... ");
    proof {
        reveal_strlit(" .. ");
        reveal_strlit(" ... ");
        assert(csep@.len() == 5);
    }
    if contains_exec(line, &bsep) {
        let parts = kept_parts(line, &bsep);
        if parts.len() < 2 {
            return Err(ConvertError::MissingBasicDescription { line: n });
        }
        let back = join_lines(&parts);
        return Ok(Card::Basic(Basic { front: String::new(), back: string_of(&back) }));
    }
    match find_from(line, &csep, 0) {
        Some(i) => {
            proof {
                lemma_first_at_bounds(line@, csep@, 0);
                assert(i + 5 <= line.len());
            }
            let before = slice_chars(line, 0, i);
            let after = slice_chars(line, i + 5, line.len());
            let term = trim_exec(&before);
            let extra = trim_exec(&after);
            proof {
                assert(before@ =~= line@.take(i as int));
                assert(after@ =~= line@.skip(i + 5));
            }
            match prev {
                None => Err(ConvertError::MissingHighlightForCloze { line: n }),
                Some(s) => {
                    let (text, found) = cloze_exec(s, &term);
                    if found {
                        Ok(Card::Cloze(Cloze { text: string_of(&text), back_extra: string_of(&extra) }))
                    } else {
                        Err(ConvertError::NoClozeMatch { line: n })
                    }
                },
            }
        },
        None => {
            let back = fold_exec(line);
            Ok(Card::Basic(Basic { front: String::new(), back: string_of(&back) }))
        },
    }
}

} // verus!
