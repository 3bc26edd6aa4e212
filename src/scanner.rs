//! The clippings scanner. A record is a title line, a meta line, a separator
//! line and a body, closed by a line holding `==========`. Scanning runs in
//! three steps: the lines are cut into raw records (title, kind, the date's
//! wall-clock seconds, body); each wall-clock time is placed in the local
//! time zone; and the records become clippings, in file order, skipping
//! bookmarks and records at or before the cutoff.
use vstd::prelude::*;
use crate::clock::{clipping_date_format, clipping_naive_seconds, local_to_utc_seconds, naive_seconds_of};
use crate::grammar::{card_from_line, card_spec, meta_spec, parse_meta, parse_title, title_spec};
use crate::model::{Card, CardModel, Clipping, ClippingModel, ConvertError, cards_model, clippings_model};
use crate::text::{
    chars_eq, chars_of, contains, contains_exec, join, join_range, lines_of, lines_view,
    slice_chars, split_lines, string_of,
};

verus! {

/// One record as cut from the lines, before its date is placed in a time zone.
pub struct RawRecord {
    pub book: Vec<char>,
    pub author: Vec<char>,
    pub kind: Vec<char>,
    /// The date's wall-clock time as seconds since the epoch, read as UTC.
    pub naive: i64,
    pub body: Vec<Vec<char>>,
    /// Index of the record's title line.
    pub line: usize,
}

/// The model of a raw record.
pub struct RawModel {
    pub book: Seq<char>,
    pub author: Seq<char>,
    pub kind: Seq<char>,
    pub naive: i64,
    pub body: Seq<Seq<char>>,
    pub line: int,
}

impl View for RawRecord {
    type V = RawModel;

    open spec fn view(&self) -> RawModel {
        RawModel {
            book: self.book@,
            author: self.author@,
            kind: self.kind@,
            naive: self.naive,
            body: lines_view(self.body@),
            line: self.line as int,
        }
    }
}

/// The models of a sequence of raw records.
pub open spec fn raw_model(v: Seq<RawRecord>) -> Seq<RawModel> {
    v.map_values(|r: RawRecord| r@)
}

/// The line numbers of a record's body fit in `usize`.
pub open spec fn wf_record(r: RawModel) -> bool {
    &&& 0 <= r.line < usize::MAX
    &&& r.body.len() > 0 ==> r.line + 3 + r.body.len() <= usize::MAX
}

/// The line that closes a record.
pub open spec fn delimiter() -> Seq<char> {
    "=========="@
}

/// The first index at or after `from` of a line holding the delimiter, or
/// the number of lines.
pub open spec fn next_delim(lines: Seq<Seq<char>>, from: int) -> int
    decreases lines.len() - from,
{
    if from >= lines.len() {
        lines.len() as int
    } else if contains(lines[from], delimiter()) {
        from
    } else {
        next_delim(lines, from + 1)
    }
}

/// The delimiter search ends between its start and the number of lines.
pub proof fn lemma_next_delim_bounds(lines: Seq<Seq<char>>, from: int)
    requires
        from <= lines.len(),
    ensures
        from <= next_delim(lines, from) <= lines.len(),
    decreases lines.len() - from,
{
    if from < lines.len() && !contains(lines[from], delimiter()) {
        lemma_next_delim_bounds(lines, from + 1);
    }
}

/// The raw records of the lines from index `i` on, after those in `acc`.
pub open spec fn records_from(lines: Seq<Seq<char>>, i: int, acc: Seq<RawModel>) -> Result<
    Seq<RawModel>,
    ConvertError,
>
    decreases lines.len() + 1 - i,
{
    if i < 0 || i >= lines.len() {
        Ok(acc)
    } else {
        match title_spec(lines[i]) {
            None => Err(ConvertError::MalformedTitleLine { line: i as usize }),
            Some((book, author)) => if i + 1 >= lines.len() {
                Err(ConvertError::MalformedMetaLine { line: (i + 1) as usize })
            } else {
                match meta_spec(lines[i + 1]) {
                    None => Err(ConvertError::MalformedMetaLine { line: (i + 1) as usize }),
                    Some((kind, date_text)) => match naive_seconds_of(
                        date_text,
                        clipping_date_format(),
                    ) {
                        None => Err(ConvertError::DateParseError { line: (i + 1) as usize }),
                        Some(naive) => {
                            let j = next_delim(lines, i + 2);
                            let body = if j >= i + 3 {
                                lines.subrange(i + 3, j)
                            } else {
                                Seq::empty()
                            };
                            if i + 2 <= j <= lines.len() {
                                records_from(
                                    lines,
                                    j + 1,
                                    acc.push(RawModel { book, author, kind, naive, body, line: i }),
                                )
                            } else {
                                Ok(acc)
                            }
                        },
                    },
                }
            },
        }
    }
}

/// The model of a record-cutting result.
pub open spec fn raw_result_model(r: Result<Vec<RawRecord>, ConvertError>) -> Result<
    Seq<RawModel>,
    ConvertError,
> {
    match r {
        Ok(v) => Ok(raw_model(v@)),
        Err(e) => Err(e),
    }
}

/// Cuts the lines into raw records.
pub fn split_records(lines: &Vec<Vec<char>>) -> (r: Result<Vec<RawRecord>, ConvertError>)
    ensures
        raw_result_model(r) == records_from(lines_view(lines@), 0, Seq::empty()),
        r matches Ok(v) ==> forall|k: int| 0 <= k < v@.len() ==> wf_record(#[trigger] v@[k]@),
{
    let ghost l = lines_view(lines@);
    let delim = chars_of("==========");
    let mut out: Vec<RawRecord> = Vec::new();
    let mut i: usize = 0;
    proof {
        assert(raw_model(out@) =~= Seq::<RawModel>::empty());
    }
    while i < lines.len()
        invariant
            i <= lines.len(),
            l == lines_view(lines@),
            delim@ == delimiter(),
            records_from(l, 0, Seq::empty()) == records_from(l, i as int, raw_model(out@)),
            forall|k: int| 0 <= k < out@.len() ==> wf_record(#[trigger] out@[k]@),
        decreases lines.len() - i,
    {
        let (book, author) = match parse_title(&lines[i]) {
            None => return Err(ConvertError::MalformedTitleLine { line: i }),
            Some(p) => p,
        };
        if i + 1 >= lines.len() {
            return Err(ConvertError::MalformedMetaLine { line: i + 1 });
        }
        let (kind, date_text) = match parse_meta(&lines[i + 1]) {
            None => return Err(ConvertError::MalformedMetaLine { line: i + 1 }),
            Some(p) => p,
        };
        let naive = match clipping_naive_seconds(&date_text) {
            None => return Err(ConvertError::DateParseError { line: i + 1 }),
            Some(n) => n,
        };
        let mut j = i + 2;
        while j < lines.len() && !contains_exec(&lines[j], &delim)
            invariant
                i + 2 <= j <= lines.len(),
                l == lines_view(lines@),
                delim@ == delimiter(),
                next_delim(l, i + 2) == next_delim(l, j as int),
            decreases lines.len() - j,
        {
            j += 1;
        }
        proof {
            lemma_next_delim_bounds(l, i + 2);
        }
        let mut body: Vec<Vec<char>> = Vec::new();
        if j > i + 2 {
            let mut k = i + 3;
            proof {
                assert(lines_view(body@) =~= l.subrange(i + 3, k as int));
            }
            while k < j
                invariant
                    i + 3 <= k <= j <= lines.len(),
                    l == lines_view(lines@),
                    lines_view(body@) == l.subrange(i + 3, k as int),
                decreases j - k,
            {
                let line = slice_chars(&lines[k], 0, lines[k].len());
                let ghost body0 = lines_view(body@);
                body.push(line);
                proof {
                    assert(lines[k as int]@.subrange(0, lines[k as int]@.len() as int) =~= lines[k as int]@);
                    assert(lines_view(body@) =~= body0.push(line@));
                    assert(l.subrange(i + 3, k + 1) =~= l.subrange(i + 3, k as int).push(l[k as int]));
                }
                k += 1;
            }
        } else {
            proof {
                assert(lines_view(body@) =~= Seq::<Seq<char>>::empty());
            }
        }
        let rec = RawRecord { book, author, kind, naive, body, line: i };
        let ghost out0 = raw_model(out@);
        out.push(rec);
        proof {
            assert(raw_model(out@) =~= out0.push(rec@));
        }
        if j < lines.len() {
            i = j + 1;
        } else {
            i = j;
        }
    }
    Ok(out)
}

// ---------------------------------------------------------------------------
// From raw records to clippings
// ---------------------------------------------------------------------------

/// The sentence of the last clipping, when that is a highlight.
pub open spec fn prev_sentence(acc: Seq<ClippingModel>) -> Option<Seq<char>> {
    if acc.len() > 0 {
        match acc.last() {
            ClippingModel::Highlight { sentence, .. } => Some(sentence),
            _ => None,
        }
    } else {
        None
    }
}

/// The cards of a note's body lines from index `j` on, after those in `acc`;
/// body line `j` is line `first + j` of the file.
pub open spec fn note_cards(
    body: Seq<Seq<char>>,
    prev: Option<Seq<char>>,
    first: int,
    j: int,
    acc: Seq<CardModel>,
) -> Result<Seq<CardModel>, ConvertError>
    decreases body.len() - j,
{
    if j < 0 || j >= body.len() {
        Ok(acc)
    } else {
        match card_spec(body[j], prev, (first + j) as usize) {
            Err(e) => Err(e),
            Ok(c) => note_cards(body, prev, first, j + 1, acc.push(c)),
        }
    }
}

/// A record dated `stamp` is cut when a cutoff is set and it is not after it.
pub open spec fn is_cut(stamp: i64, after: Option<i64>) -> bool {
    match after {
        Some(a) => stamp <= a,
        None => false,
    }
}

/// The clippings of the records from index `i` on, after those in `acc`,
/// with `stamps[k]` the UTC instant of record `k`'s date.
pub open spec fn assemble_from(
    recs: Seq<RawModel>,
    stamps: Seq<Option<i64>>,
    after: Option<i64>,
    i: int,
    acc: Seq<ClippingModel>,
) -> Result<Seq<ClippingModel>, ConvertError>
    decreases recs.len() - i,
{
    if i < 0 || i >= recs.len() {
        Ok(acc)
    } else {
        let r = recs[i];
        match stamps[i] {
            None => Err(ConvertError::DateParseError { line: (r.line + 1) as usize }),
            Some(d) => if is_cut(d, after) {
                assemble_from(recs, stamps, after, i + 1, acc)
            } else if r.kind == "Highlight"@ {
                assemble_from(
                    recs,
                    stamps,
                    after,
                    i + 1,
                    acc.push(
                        ClippingModel::Highlight {
                            book: r.book,
                            author: r.author,
                            date: d,
                            sentence: join(r.body, "\n"@),
                        },
                    ),
                )
            } else if r.kind == "Note"@ {
                match note_cards(r.body, prev_sentence(acc), r.line + 3, 0, Seq::empty()) {
                    Err(e) => Err(e),
                    Ok(cards) => assemble_from(
                        recs,
                        stamps,
                        after,
                        i + 1,
                        acc.push(
                            ClippingModel::Note { book: r.book, author: r.author, date: d, cards },
                        ),
                    ),
                }
            } else if r.kind == "Bookmark"@ {
                assemble_from(recs, stamps, after, i + 1, acc)
            } else {
                Err(ConvertError::UnknownRecordKind { line: (r.line + 1) as usize })
            },
        }
    }
}

/// The model of a card-sequence result.
pub open spec fn cards_result_model(r: Result<Vec<Card>, ConvertError>) -> Result<
    Seq<CardModel>,
    ConvertError,
> {
    match r {
        Ok(v) => Ok(cards_model(v@)),
        Err(e) => Err(e),
    }
}

/// The model of a clipping-sequence result.
pub open spec fn clippings_result_model(r: Result<Vec<Clipping>, ConvertError>) -> Result<
    Seq<ClippingModel>,
    ConvertError,
> {
    match r {
        Ok(v) => Ok(clippings_model(v@)),
        Err(e) => Err(e),
    }
}

/// The model of an optional sentence.
pub open spec fn opt_model(p: Option<&Vec<char>>) -> Option<Seq<char>> {
    match p {
        Some(v) => Some(v@),
        None => None,
    }
}

/// The cards of a note's body lines (see `note_cards`).
pub fn note_cards_exec(body: &Vec<Vec<char>>, prev: Option<&Vec<char>>, first: usize) -> (r:
    Result<Vec<Card>, ConvertError>)
    requires
        first + body.len() <= usize::MAX,
    ensures
        cards_result_model(r) == note_cards(
            lines_view(body@),
            opt_model(prev),
            first as int,
            0,
            Seq::empty(),
        ),
{
    let ghost b = lines_view(body@);
    let mut cards: Vec<Card> = Vec::new();
    let mut j: usize = 0;
    proof {
        assert(cards_model(cards@) =~= Seq::<CardModel>::empty());
    }
    while j < body.len()
        invariant
            j <= body.len(),
            first + body.len() <= usize::MAX,
            b == lines_view(body@),
            note_cards(b, opt_model(prev), first as int, 0, Seq::empty()) == note_cards(
                b,
                opt_model(prev),
                first as int,
                j as int,
                cards_model(cards@),
            ),
        decreases body.len() - j,
    {
        let c = match card_from_line(&body[j], prev, first + j) {
            Err(e) => return Err(e),
            Ok(c) => c,
        };
        let ghost cards0 = cards_model(cards@);
        cards.push(c);
        proof {
            assert(cards_model(cards@) =~= cards0.push(c@));
        }
        j += 1;
    }
    Ok(cards)
}

/// Turns raw records into clippings, given the UTC instant of each record's
/// date (`None` where it could not be placed in the time zone). Records at
/// or before `date_after` and bookmarks give no clipping; a note's cloze
/// cards read the sentence of the clipping just before it.
pub fn assemble(records: &Vec<RawRecord>, stamps: &Vec<Option<i64>>, date_after: Option<i64>) -> (r:
    Result<Vec<Clipping>, ConvertError>)
    requires
        stamps.len() == records.len(),
        forall|k: int| 0 <= k < records@.len() ==> wf_record(#[trigger] records@[k]@),
    ensures
        clippings_result_model(r) == assemble_from(
            raw_model(records@),
            stamps@,
            date_after,
            0,
            Seq::empty(),
        ),
{
    let ghost recs = raw_model(records@);
    let highlight = chars_of("Highlight");
    let note = chars_of("Note");
    let bookmark = chars_of("Bookmark");
    let nl = chars_of("\n");
    let mut entries: Vec<Clipping> = Vec::new();
    let mut i: usize = 0;
    proof {
        assert(clippings_model(entries@) =~= Seq::<ClippingModel>::empty());
    }
    while i < records.len()
        invariant
            i <= records.len(),
            stamps.len() == records.len(),
            recs == raw_model(records@),
            forall|k: int| 0 <= k < records@.len() ==> wf_record(#[trigger] records@[k]@),
            highlight@ == "Highlight"@,
            note@ == "Note"@,
            bookmark@ == "Bookmark"@,
            nl@ == "\n"@,
            assemble_from(recs, stamps@, date_after, 0, Seq::empty()) == assemble_from(
                recs,
                stamps@,
                date_after,
                i as int,
                clippings_model(entries@),
            ),
        decreases records.len() - i,
    {
        let rec = &records[i];
        let ghost acc = clippings_model(entries@);
        proof {
            assert(wf_record(records@[i as int]@));
        }
        let d = match stamps[i] {
            None => return Err(ConvertError::DateParseError { line: rec.line + 1 }),
            Some(d) => d,
        };
        let cut = match date_after {
            Some(a) => d <= a,
            None => false,
        };
        if cut {
        } else if chars_eq(&rec.kind, &highlight) {
            let sentence = join_range(&rec.body, 0, rec.body.len(), &nl);
            proof {
                assert(lines_view(rec.body@).subrange(0, rec.body@.len() as int) =~= lines_view(
                    rec.body@,
                ));
            }
            let c = Clipping::Highlight {
                book: string_of(&rec.book),
                author: string_of(&rec.author),
                date: d,
                sentence: string_of(&sentence),
            };
            entries.push(c);
            proof {
                assert(clippings_model(entries@) =~= acc.push(c@));
            }
        } else if chars_eq(&rec.kind, &note) {
            let prev: Option<Vec<char>> = if entries.len() > 0 {
                match &entries[entries.len() - 1] {
                    Clipping::Highlight { sentence, .. } => Some(chars_of(sentence.as_str())),
                    _ => None,
                }
            } else {
                None
            };
            let prev_ref: Option<&Vec<char>> = match &prev {
                Some(v) => Some(v),
                None => None,
            };
            proof {
                assert(opt_model(prev_ref) == prev_sentence(acc));
            }
            let first = if rec.body.len() > 0 {
                rec.line + 3
            } else {
                0
            };
            let cards = match note_cards_exec(&rec.body, prev_ref, first) {
                Err(e) => return Err(e),
                Ok(cards) => cards,
            };
            let c = Clipping::Note {
                book: string_of(&rec.book),
                author: string_of(&rec.author),
                date: d,
                cards,
            };
            entries.push(c);
            proof {
                assert(clippings_model(entries@) =~= acc.push(c@));
            }
        } else if chars_eq(&rec.kind, &bookmark) {
        } else {
            return Err(ConvertError::UnknownRecordKind { line: rec.line + 1 });
        }
        i += 1;
    }
    Ok(entries)
}

/// Decodes a clippings export into clippings. `date_after`, when set, drops
/// every record dated at or before it. Whatever instant the time zone gives
/// each record's date, the result is what `assemble_from` gives for it.
pub fn parse_from_txt(clippings_txt: String, date_after: Option<i64>) -> (r: Result<
    Vec<Clipping>,
    ConvertError,
>)
    ensures
        match records_from(lines_of(clippings_txt@), 0, Seq::empty()) {
            Err(e) => r == Err::<Vec<Clipping>, ConvertError>(e),
            Ok(recs) => exists|stamps: Seq<Option<i64>>|
                stamps.len() == recs.len() && clippings_result_model(r) == assemble_from(
                    recs,
                    stamps,
                    date_after,
                    0,
                    Seq::empty(),
                ),
        },
{
    let chars = chars_of(clippings_txt.as_str());
    let lines = split_lines(&chars);
    let records = match split_records(&lines) {
        Err(e) => return Err(e),
        Ok(v) => v,
    };
    let mut stamps: Vec<Option<i64>> = Vec::new();
    let mut i: usize = 0;
    while i < records.len()
        invariant
            i <= records.len(),
            stamps.len() == i,
        decreases records.len() - i,
    {
        stamps.push(local_to_utc_seconds(records[i].naive));
        i += 1;
    }
    let r = assemble(&records, &stamps, date_after);
    proof {
        assert(stamps@.len() == raw_model(records@).len());
    }
    r
}

} // verus!
