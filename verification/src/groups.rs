//! Laws of how the pieces of a text become sentences and paragraphs.

use vstd::prelude::*;

use crate::lines;
use crate::lists;
use crate::sentences;
use crate::sentences::{BlockKind, ScanModel};
use crate::text;
use crate::types::{ParagraphModel, SentenceModel};
use crate::words;

verus! {

// ── Pieces and stops ───────────────────────────────────────────────────────

/// What a reader of the text comes across: a piece of prose with its place,
/// or a stop that ends a sentence.
pub enum Event {
    Piece(Seq<char>, int, int),
    Stop,
}

/// The stretch from `from` to `to` of line number `line`, without its outer
/// white space. A blank stretch is no piece.
pub open spec fn piece(s: Seq<char>, from: int, to: int, line: int) -> Seq<Event> {
    let t = s.subrange(from, to);
    if text::trim(t).len() == 0 {
        Seq::empty()
    } else {
        seq![
            Event::Piece(
                text::trim(t),
                line,
                text::byte_offset(s, from + text::white_end(t, 0)) as int + 1,
            ),
        ]
    }
}

/// Where the stretch before sentence end `k` begins.
pub open spec fn stretch_start(ends: Seq<(int, int)>, start: int, k: int) -> int {
    if k == 0 {
        start
    } else {
        start + ends[k - 1].1
    }
}

/// The pieces and stops of a line. Each sentence end is a stop. A line that
/// starts a block has a stop before it. A heading, and every line when lines
/// are not merged, has a stop after it. A blank line and a ruler are stops.
pub open spec fn line_events(s: Seq<char>, line: int, merge_lines: bool) -> Seq<Event> {
    let kind = sentences::block(s).0;
    let start = sentences::block(s).1;
    let ends = sentences::ends_from(s.skip(start), 0);
    if text::is_blank(s) || kind is ThematicBreak {
        seq![Event::Stop]
    } else {
        (if kind is Plain {
            Seq::empty()
        } else {
            seq![Event::Stop]
        }) + lists::collected(
            ends.len(),
            |k: int|
                piece(s, stretch_start(ends, start, k), start + ends[k].1, line).push(Event::Stop),
        ) + piece(s, stretch_start(ends, start, ends.len() as int), s.len() as int, line) + (if kind
            is SingleLine || !merge_lines {
            seq![Event::Stop]
        } else {
            Seq::empty()
        })
    }
}

/// The pieces and stops of a text, line after line.
pub open spec fn events(text: Seq<char>, merge_lines: bool) -> Seq<Event> {
    let rows = lines::split(text, '\n');
    lists::collected(rows.len(), |k: int| line_events(rows[k], k + 1, merge_lines))
}

/// A reader comes across one more event.
spec fn step(st: ScanModel, e: Event) -> ScanModel {
    match e {
        Event::Piece(t, line, column) => ScanModel {
            done: st.done,
            parts: st.parts.push(t),
            line: if st.parts.len() == 0 {
                line
            } else {
                st.line
            },
            column: if st.parts.len() == 0 {
                column
            } else {
                st.column
            },
        },
        Event::Stop => sentences::closed(st),
    }
}

spec fn run(st: ScanModel, v: Seq<Event>) -> ScanModel
    decreases v.len(),
{
    if v.len() == 0 {
        st
    } else {
        step(run(st, v.drop_last()), v.last())
    }
}

/// The sentences that a list of events gives.
pub closed spec fn grouped(v: Seq<Event>) -> Seq<SentenceModel> {
    sentences::closed(run(sentences::scan_start(), v)).done
}

proof fn lemma_run_concat(st: ScanModel, a: Seq<Event>, b: Seq<Event>)
    ensures
        run(st, a + b) == run(run(st, a), b),
    decreases b.len(),
{
    if b.len() > 0 {
        lemma_run_concat(st, a, b.drop_last());
        assert((a + b).drop_last() =~= a + b.drop_last());
        assert((a + b).last() == b.last());
    } else {
        assert(a + b =~= a);
    }
}

proof fn lemma_run_one(st: ScanModel, e: Event)
    ensures
        run(st, seq![e]) == step(st, e),
{
    assert(seq![e].drop_last() =~= Seq::<Event>::empty());
    assert(run(st, Seq::empty()) == st);
}

proof fn lemma_piece(st: ScanModel, s: Seq<char>, from: int, to: int, line: int)
    ensures
        run(st, piece(s, from, to, line)) == sentences::added(st, s, from, to, line),
{
    let t = s.subrange(from, to);
    text::lemma_trim(t);
    let v = piece(s, from, to, line);
    if text::trim(t).len() > 0 {
        lemma_run_one(st, v[0]);
        assert(v =~= seq![v[0]]);
    }
}

proof fn lemma_scan_ends(
    st: ScanModel,
    s: Seq<char>,
    start: int,
    ends: Seq<(int, int)>,
    line: int,
    n: int,
)
    requires
        0 <= n <= ends.len(),
    ensures
        sentences::scan_ends(st, s, start, ends, line, n) == run(
            st,
            lists::collected(
                n as nat,
                |k: int|
                    piece(s, stretch_start(ends, start, k), start + ends[k].1, line).push(
                        Event::Stop,
                    ),
            ),
        ),
    decreases n,
{
    let f = |k: int|
        piece(s, stretch_start(ends, start, k), start + ends[k].1, line).push(Event::Stop);
    lists::lemma_collected(n as nat, f);
    if n > 0 {
        lemma_scan_ends(st, s, start, ends, line, n - 1);
        let before = lists::collected((n - 1) as nat, f);
        let mid = run(st, before);
        let p = piece(s, stretch_start(ends, start, n - 1), start + ends[n - 1].1, line);
        lemma_run_concat(st, before, f(n - 1));
        assert(f(n - 1) =~= p + seq![Event::Stop]);
        lemma_run_concat(mid, p, seq![Event::Stop]);
        lemma_run_one(run(mid, p), Event::Stop);
        lemma_piece(mid, s, stretch_start(ends, start, n - 1), start + ends[n - 1].1, line);
    } else {
        assert(lists::collected(0, f) =~= Seq::<Event>::empty());
    }
}

proof fn lemma_scan_line(st: ScanModel, s: Seq<char>, line: int, merge_lines: bool)
    ensures
        sentences::scan_line(st, s, line, merge_lines) == run(
            st,
            line_events(s, line, merge_lines),
        ),
{
    let (kind, start) = sentences::block(s);
    let ends = sentences::ends_from(s.skip(start), 0);
    let n = ends.len() as int;
    lemma_run_one(st, Event::Stop);
    if !(text::is_blank(s) || kind is ThematicBreak) {
        let none = Seq::<Event>::empty();
        let a = if kind is Plain {
            none
        } else {
            seq![Event::Stop]
        };
        let b = lists::collected(
            ends.len(),
            |k: int|
                piece(s, stretch_start(ends, start, k), start + ends[k].1, line).push(Event::Stop),
        );
        let c = piece(s, stretch_start(ends, start, n), s.len() as int, line);
        let d = if kind is SingleLine || !merge_lines {
            seq![Event::Stop]
        } else {
            none
        };
        let opened = run(st, a);
        let mid = run(opened, b);
        let read = run(mid, c);
        assert(run(st, none) == st);
        assert(run(read, none) == read);
        lemma_run_concat(st, a, b);
        lemma_run_concat(st, a + b, c);
        lemma_run_concat(st, a + b + c, d);
        lemma_scan_ends(opened, s, start, ends, line, n);
        lemma_piece(mid, s, stretch_start(ends, start, n), s.len() as int, line);
        lemma_run_one(read, Event::Stop);
    }
}

proof fn lemma_scan(rows: Seq<Seq<char>>, n: int, merge_lines: bool)
    requires
        0 <= n <= rows.len(),
    ensures
        sentences::scan(rows, n, merge_lines) == run(
            sentences::scan_start(),
            lists::collected(
                n as nat,
                |k: int| line_events(rows[k], k + 1, merge_lines),
            ),
        ),
    decreases n,
{
    let f = |k: int| line_events(rows[k], k + 1, merge_lines);
    lists::lemma_collected(n as nat, f);
    if n > 0 {
        lemma_scan(rows, n - 1, merge_lines);
        let before = lists::collected((n - 1) as nat, f);
        lemma_run_concat(sentences::scan_start(), before, f(n - 1));
        lemma_scan_line(run(sentences::scan_start(), before), rows[n - 1], n, merge_lines);
    } else {
        assert(lists::collected(0, f) =~= Seq::<Event>::empty());
    }
}

/// The sentences of a text are what its pieces and stops give.
pub proof fn law_sentences_come_from_pieces(text: Seq<char>, merge_lines: bool)
    ensures
        sentences::sentences(text, merge_lines) == grouped(events(text, merge_lines)),
{
    let rows = lines::split(text, '\n');
    lemma_scan(rows, rows.len() as int, merge_lines);
}

// ── From pieces to sentences ───────────────────────────────────────────────

/// A list of pieces, without a stop.
pub open spec fn are_pieces(v: Seq<Event>) -> bool {
    forall|k: int| 0 <= k < v.len() ==> (#[trigger] v[k]) is Piece
}

/// The texts of a list of pieces.
pub open spec fn piece_texts(v: Seq<Event>) -> Seq<Seq<char>> {
    Seq::new(v.len(), |k: int| v[k]->Piece_0)
}

spec fn is_at(st: ScanModel, done: Seq<SentenceModel>, v: Seq<Event>) -> bool {
    &&& st.done == done
    &&& st.parts == piece_texts(v)
    &&& v.len() > 0 ==> st.line == v[0]->Piece_1 && st.column == v[0]->Piece_2
}

proof fn lemma_pieces(done: Seq<SentenceModel>, v: Seq<Event>)
    requires
        are_pieces(v),
    ensures
        is_at(run(ScanModel { done, parts: Seq::empty(), line: 0, column: 0 }, v), done, v),
    decreases v.len(),
{
    let st = ScanModel { done, parts: Seq::empty(), line: 0, column: 0 };
    if v.len() > 0 {
        let w = v.drop_last();
        assert(are_pieces(w)) by {
            assert forall|k: int| 0 <= k < w.len() implies (#[trigger] w[k]) is Piece by {
                assert(w[k] == v[k]);
            }
        }
        lemma_pieces(done, w);
        assert(v[v.len() - 1] is Piece);
        assert(piece_texts(v) =~= piece_texts(w).push(v.last()->Piece_0));
        if w.len() > 0 {
            assert(w[0] == v[0]);
        }
    } else {
        assert(piece_texts(v) =~= st.parts);
    }
}

/// Pieces without a stop between them are one sentence. Its text is that of
/// the pieces with a space between them, and it stands at the place of the
/// first. Nothing gives no sentence.
pub proof fn law_pieces_form_a_sentence(v: Seq<Event>)
    requires
        are_pieces(v),
    ensures
        v.len() == 0 ==> grouped(v).len() == 0,
        v.len() > 0 ==> grouped(v) == seq![
            SentenceModel {
                text: lines::join(piece_texts(v), seq![' ']),
                line: v[0]->Piece_1,
                column: v[0]->Piece_2,
                word_count: text::word_count(lines::join(piece_texts(v), seq![' '])) as int,
            },
        ],
{
    let none = Seq::<SentenceModel>::empty();
    lemma_pieces(none, v);
    reveal_strlit(" ");
    assert(" "@ =~= seq![' ']);
    let st = run(sentences::scan_start(), v);
    assert(is_at(st, none, v));
    if v.len() > 0 {
        assert(grouped(v) =~= seq![grouped(v)[0]]);
    }
}

spec fn behind(base: Seq<SentenceModel>, st: ScanModel) -> ScanModel {
    ScanModel { done: base + st.done, ..st }
}

proof fn lemma_closed_behind(base: Seq<SentenceModel>, st: ScanModel)
    ensures
        sentences::closed(behind(base, st)) == behind(base, sentences::closed(st)),
{
    assert(sentences::closed(behind(base, st)).done =~= behind(base, sentences::closed(st)).done);
}

proof fn lemma_run_behind(base: Seq<SentenceModel>, st: ScanModel, v: Seq<Event>)
    ensures
        run(behind(base, st), v) == behind(base, run(st, v)),
    decreases v.len(),
{
    if v.len() > 0 {
        lemma_run_behind(base, st, v.drop_last());
        lemma_closed_behind(base, run(st, v.drop_last()));
    }
}

spec fn is_tidy(st: ScanModel) -> bool {
    st.parts.len() == 0 ==> st.line == 0 && st.column == 0
}

proof fn lemma_tidy(v: Seq<Event>)
    ensures
        is_tidy(run(sentences::scan_start(), v)),
    decreases v.len(),
{
    if v.len() > 0 {
        lemma_tidy(v.drop_last());
    }
}

/// A stop parts sentences: those before it and those after it do not depend
/// on each other.
pub proof fn law_stops_part_sentences(a: Seq<Event>, b: Seq<Event>)
    ensures
        grouped(a + seq![Event::Stop] + b) == grouped(a) + grouped(b),
{
    let start = sentences::scan_start();
    let x = run(start, a);
    lemma_run_concat(start, a, seq![Event::Stop]);
    lemma_run_one(x, Event::Stop);
    lemma_run_concat(start, a + seq![Event::Stop], b);
    lemma_tidy(a);
    let y = sentences::closed(x);
    assert(y.parts =~= start.parts);
    assert(y.done =~= behind(y.done, start).done);
    assert(y == behind(y.done, start));
    lemma_run_behind(y.done, start, b);
    lemma_closed_behind(y.done, run(start, b));
}

// ── Paragraphs ─────────────────────────────────────────────────────────────

/// A new paragraph begins at line `i`: after a blank line, and at a line that
/// is not blank and starts a block.
pub open spec fn is_boundary(rows: Seq<Seq<char>>, i: int) -> bool {
    text::is_blank(rows[i - 1]) || (!text::is_blank(rows[i]) && !(sentences::block(
        rows[i],
    ).0 is Plain))
}

/// Two lines belong to one paragraph exactly when no paragraph begins between
/// them.
pub proof fn law_paragraph_boundaries(rows: Seq<Seq<char>>, a: int, b: int)
    requires
        0 <= a <= b < rows.len(),
    ensures
        sentences::paragraph_of(rows, a) <= sentences::paragraph_of(rows, b),
        sentences::paragraph_of(rows, a) == sentences::paragraph_of(rows, b) <==> forall|i: int|
            a < i <= b ==> !#[trigger] is_boundary(rows, i),
    decreases b - a,
{
    if a < b {
        law_paragraph_boundaries(rows, a, b - 1);
        assert(is_boundary(rows, b) || !is_boundary(rows, b));
        if forall|i: int| a < i <= b ==> !#[trigger] is_boundary(rows, i) {
            assert(!is_boundary(rows, b));
        }
    }
}

/// The first line of a paragraph that is not blank, counted from one. Zero
/// when there is none.
pub proof fn law_first_line(rows: Seq<Seq<char>>, p: int, i: int)
    requires
        0 <= i <= rows.len(),
    ensures
        ({
            let l = sentences::first_line(rows, p, i);
            &&& l > 0 ==> i < l <= rows.len() && sentences::paragraph_of(rows, l - 1) == p
                && !text::is_blank(rows[l - 1])
            &&& forall|k: int|
                #![trigger rows[k]]
                i <= k < rows.len() && (l == 0 || k < l - 1) ==> sentences::paragraph_of(rows, k)
                    != p || text::is_blank(rows[k])
            &&& l >= 0
        }),
    decreases rows.len() - i,
{
    if i < rows.len() && !(sentences::paragraph_of(rows, i) == p && !text::is_blank(rows[i])) {
        law_first_line(rows, p, i + 1);
    }
}

/// The sentence stands on a line of paragraph `p` that is not blank.
pub open spec fn is_member(rows: Seq<Seq<char>>, p: int, s: SentenceModel) -> bool {
    let i = if s.line <= 0 {
        0
    } else {
        s.line - 1
    };
    i < rows.len() && !text::is_blank(rows[i]) && sentences::paragraph_of(rows, i) == p
}

/// The paragraph of number `p` with its sentences. Without any it is left out.
pub open spec fn one_paragraph(
    rows: Seq<Seq<char>>,
    given: Seq<SentenceModel>,
    p: int,
) -> Seq<ParagraphModel> {
    let own = given.filter(|s: SentenceModel| is_member(rows, p, s));
    if own.len() == 0 {
        Seq::empty()
    } else {
        seq![
            ParagraphModel {
                sentences: own,
                line: sentences::first_line(rows, p, 0),
                column: 1,
            },
        ]
    }
}

proof fn lemma_members(rows: Seq<Seq<char>>, given: Seq<SentenceModel>, p: int, n: int)
    requires
        0 <= n <= given.len(),
    ensures
        sentences::members(rows, given, p, n) == given.take(n).filter(
            |s: SentenceModel| is_member(rows, p, s),
        ),
    decreases n,
{
    reveal(Seq::filter);
    if n > 0 {
        lemma_members(rows, given, p, n - 1);
        assert(given.take(n).drop_last() =~= given.take(n - 1));
        assert(sentences::owner(rows, given[n - 1]) == Some(p) <==> is_member(
            rows,
            p,
            given[n - 1],
        ));
    }
}

proof fn lemma_paragraphs(rows: Seq<Seq<char>>, given: Seq<SentenceModel>, n: int)
    requires
        0 <= n,
    ensures
        sentences::paragraphs_to(rows, given, n) == lists::collected(
            n as nat,
            |p: int| one_paragraph(rows, given, p),
        ),
    decreases n,
{
    let f = |p: int| one_paragraph(rows, given, p);
    lists::lemma_collected(n as nat, f);
    if n > 0 {
        lemma_paragraphs(rows, given, n - 1);
        lemma_members(rows, given, n - 1, given.len() as int);
        assert(given.take(given.len() as int) =~= given);
        let before = sentences::paragraphs_to(rows, given, n - 1);
        assert(f(n - 1) == one_paragraph(rows, given, n - 1));
        assert(sentences::paragraphs_to(rows, given, n) =~= before + f(n - 1));
    }
}

/// The paragraphs of a text are those that own sentences, in their order,
/// each with the sentences that stand on its lines.
pub proof fn law_paragraphs(text: Seq<char>, given: Seq<SentenceModel>)
    ensures
        ({
            let rows = lines::split(text, '\n');
            sentences::paragraphs(text, given) == lists::collected(
                sentences::paragraph_of(rows, rows.len() - 1) + 1,
                |p: int| one_paragraph(rows, given, p),
            )
        }),
{
    let rows = lines::split(text, '\n');
    lemma_paragraphs(rows, given, sentences::paragraph_of(rows, rows.len() - 1) as int + 1);
}

// ── Lines that wrap ────────────────────────────────────────────────────────

/// A line of running text: it is not blank, starts no block, has no marker and
/// ends no sentence.
pub open spec fn is_running(s: Seq<char>) -> bool {
    &&& !s.contains('\n')
    &&& !text::is_blank(s)
    &&& sentences::block(s) == (BlockKind::Plain, 0int)
    &&& sentences::ends_from(s, 0).len() == 0
}

/// The piece that a line of running text is.
pub open spec fn whole(s: Seq<char>, line: int) -> Event {
    Event::Piece(text::trim(s), line, text::indent(s) as int + 1)
}

proof fn lemma_running(s: Seq<char>, line: int)
    requires
        is_running(s),
    ensures
        line_events(s, line, true) == seq![whole(s, line)],
        line_events(s, line, false) == seq![whole(s, line), Event::Stop],
{
    assert(s.skip(0) =~= s);
    assert(s.subrange(0, s.len() as int) =~= s);
    text::lemma_trim(s);
    let ends = sentences::ends_from(s.skip(0), 0);
    let f = |k: int|
        piece(s, stretch_start(ends, 0, k), 0 + ends[k].1, line).push(Event::Stop);
    lists::lemma_collected(0, f);
    let p = piece(s, 0, s.len() as int, line);
    assert(p =~= seq![whole(s, line)]);
    assert(line_events(s, line, true) =~= p);
    assert(line_events(s, line, false) =~= p + seq![Event::Stop]);
}

proof fn lemma_two_lines(x: Seq<char>, y: Seq<char>, merge_lines: bool)
    requires
        !x.contains('\n'),
        !y.contains('\n'),
    ensures
        events(x + seq!['\n'] + y, merge_lines) == line_events(x, 1, merge_lines) + line_events(
            y,
            2,
            merge_lines,
        ),
{
    let text = x + seq!['\n'] + y;
    let rows = lines::split(text, '\n');
    lines::law_split_of_two(x, y, '\n');
    words::law_one_piece(x, '\n');
    words::law_one_piece(y, '\n');
    assert(rows =~= seq![x, y]);
    let f = |k: int| line_events(rows[k], k + 1, merge_lines);
    lists::lemma_collected(2, f);
    lists::lemma_collected(1, f);
    lists::lemma_collected(0, f);
    assert(events(text, merge_lines) =~= line_events(x, 1, merge_lines) + line_events(
        y,
        2,
        merge_lines,
    ));
}

/// A sentence goes on over a line break when lines are merged: the two lines
/// are joined by a space. When they are not, each line is a sentence.
pub proof fn law_sentences_wrap(x: Seq<char>, y: Seq<char>)
    requires
        is_running(x),
        is_running(y),
    ensures
        ({
            let text = x + seq!['\n'] + y;
            let both = text::trim(x) + seq![' '] + text::trim(y);
            let first = text::indent(x) as int + 1;
            let second = text::indent(y) as int + 1;
            &&& sentences::sentences(text, true) == seq![
                SentenceModel {
                    text: both,
                    line: 1,
                    column: first,
                    word_count: text::word_count(both) as int,
                },
            ]
            &&& sentences::sentences(text, false) == seq![
                SentenceModel {
                    text: text::trim(x),
                    line: 1,
                    column: first,
                    word_count: text::word_count(text::trim(x)) as int,
                },
                SentenceModel {
                    text: text::trim(y),
                    line: 2,
                    column: second,
                    word_count: text::word_count(text::trim(y)) as int,
                },
            ]
        }),
{
    let text = x + seq!['\n'] + y;
    let a = seq![whole(x, 1)];
    let b = seq![whole(y, 2)];
    let sep = seq![' '];
    lemma_running(x, 1);
    lemma_running(y, 2);
    law_sentences_come_from_pieces(text, true);
    lemma_two_lines(x, y, true);
    law_pieces_form_a_sentence(a + b);
    assert(piece_texts(a + b) =~= seq![text::trim(x)].push(text::trim(y)));
    words::law_join(seq![text::trim(x)], text::trim(y), sep);
    words::law_join(Seq::empty(), text::trim(x), sep);
    law_sentences_come_from_pieces(text, false);
    lemma_two_lines(x, y, false);
    law_pieces_form_a_sentence(a);
    law_pieces_form_a_sentence(b);
    let none = Seq::<Event>::empty();
    law_pieces_form_a_sentence(none);
    law_stops_part_sentences(a, b + seq![Event::Stop]);
    law_stops_part_sentences(b, none);
    assert(b + seq![Event::Stop] + none =~= b + seq![Event::Stop]);
    assert(line_events(x, 1, false) + line_events(y, 2, false) =~= a + seq![Event::Stop] + (b + seq![
        Event::Stop,
    ]));
    assert(piece_texts(a) =~= seq![text::trim(x)]);
    assert(piece_texts(b) =~= seq![text::trim(y)]);
    words::law_join(Seq::empty(), text::trim(y), sep);
    assert(grouped(b) + grouped(none) =~= grouped(b));
}

} // verus!
