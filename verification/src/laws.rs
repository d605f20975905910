//! The format-level laws of the parser and the generator, each stated and
//! proved over the same spec functions the public contracts use.

use vstd::prelude::*;

use crate::error::ErrView;
use crate::parser::HeaderAcc;
use crate::parser::break_scan;
use crate::parser::duet_scan;
use crate::parser::empty_acc;
use crate::parser::finalize_header;
use crate::parser::find_tag;
use crate::parser::header_step;
use crate::parser::missing_fields;
use crate::parser::note_scan;
use crate::parser::note_step;
use crate::parser::parse_header_from;
use crate::parser::parse_lines_from;
use crate::parser::rel_scan;
use crate::parser::spec_parse_header;
use crate::parser::spec_parse_lines;
use crate::parser::unknown_has_key;
use crate::structs::LineView;
use crate::structs::NoteView;
use crate::text::split_lines;

verus! {

// ------------------------------------------------------------------
// line classification priority
// ------------------------------------------------------------------

/// Line classification priority: a line that matches the note pattern is
/// read as a note even when it also matches a break pattern or the player
/// change pattern, because the note pattern is tested first.
pub proof fn lemma_note_pattern_wins(
    lines: Seq<Seq<char>>,
    i: int,
    done: Seq<LineView>,
    cur: LineView,
)
    requires
        0 <= i < lines.len(),
        lines[i].len() > 0,
        lines[i][0] != '#',
        lines[i][0] != 'B',
        lines[i][0] != 'E',
        note_scan(lines[i]) is Some,
        break_scan(lines[i]) is Some || rel_scan(lines[i]) is Some || duet_scan(lines[i]) is Some,
    ensures
        parse_lines_from(lines, i, done, cur) == match note_step(note_scan(lines[i])->0, i + 1) {
            Ok(nv) => parse_lines_from(
                lines,
                i + 1,
                done,
                LineView { notes: cur.notes.push(nv), ..cur },
            ),
            Err(e) => Err(e),
        },
{
}

/// Break patterns are tested before the player change pattern: a line that
/// matches no note pattern but an absolute break pattern is read as a break,
/// whatever else it would match.
pub proof fn lemma_break_pattern_wins(
    lines: Seq<Seq<char>>,
    i: int,
    done: Seq<LineView>,
    cur: LineView,
)
    requires
        0 <= i < lines.len(),
        lines[i].len() > 0,
        lines[i][0] != '#',
        lines[i][0] != 'B',
        lines[i][0] != 'E',
        note_scan(lines[i]) is None,
        break_scan(lines[i]) is Some,
    ensures
        parse_lines_from(lines, i, done, cur) == ({
            let s1 = break_scan(lines[i])->0;
            if crate::numbers::fits_i32(crate::numbers::int_val(s1)) {
                parse_lines_from(
                    lines,
                    i + 1,
                    done.push(cur),
                    LineView {
                        start: crate::numbers::int_val(s1),
                        rel: None,
                        notes: Seq::empty(),
                    },
                )
            } else {
                Err(ErrView::ValueError { line: i + 1, field: "line start"@ })
            }
        }),
{
}

// ------------------------------------------------------------------
// missing-essential aggregation
// ------------------------------------------------------------------

/// Aggregate reporting of missing mandatory fields: a header run that set
/// only TITLE fails with every other mandatory field listed, in the fixed
/// order ARTIST, BPM, audio path.
pub proof fn lemma_missing_essential_aggregation(acc: HeaderAcc)
    requires
        acc.title is Some,
        acc.artist is None,
        acc.bpm is None,
        acc.audio is None,
    ensures
        finalize_header(acc) == Err::<crate::structs::HeaderView, ErrView>(
            ErrView::MissingEssential { fields: seq!["Artist"@, "BPM"@, "Audio Path"@] },
        ),
{
    assert(missing_fields(acc) =~= seq!["Artist"@, "BPM"@, "Audio Path"@]);
}

// ------------------------------------------------------------------
// terminator requirement
// ------------------------------------------------------------------

/// The line is consumed without error and without ending the walk: it is a
/// header line, a readable note, a readable break, or a readable player
/// change.
pub open spec fn line_consumes_ok(line: Seq<char>) -> bool {
    &&& line.len() > 0
    &&& line[0] != 'B'
    &&& line[0] != 'E'
    &&& (line[0] == '#' || {
        ||| (note_scan(line) matches Some(m) && {
            &&& crate::numbers::fits_i32(crate::numbers::int_val(m.s1))
            &&& crate::numbers::fits_i32(crate::numbers::int_val(m.s2))
            &&& crate::numbers::int_val(m.s2) >= 0
            &&& crate::numbers::fits_i32(crate::numbers::int_val(m.s3))
            &&& (m.sym == ':' || m.sym == '*' || m.sym == 'F' || m.sym == 'R' || m.sym == 'G')
        })
        ||| (note_scan(line) is None && (break_scan(line) matches Some(s)
            && crate::numbers::fits_i32(crate::numbers::int_val(s))))
        ||| (note_scan(line) is None && break_scan(line) is None && (rel_scan(line) matches Some(p)
            && crate::numbers::fits_i32(crate::numbers::int_val(p.0))
            && crate::numbers::fits_i32(crate::numbers::int_val(p.1))))
        ||| (note_scan(line) is None && break_scan(line) is None && rel_scan(line) is None
            && (duet_scan(line) matches Some(s)
            && crate::numbers::fits_i32(crate::numbers::int_val(s))
            && 1 <= crate::numbers::int_val(s) <= 3))
    })
}

/// Terminator requirement: a body whose every line is consumed without ever
/// reaching an `E` line fails with the missing-end-indicator error.
pub proof fn lemma_missing_end_indicator(
    lines: Seq<Seq<char>>,
    i: int,
    done: Seq<LineView>,
    cur: LineView,
)
    requires
        0 <= i <= lines.len(),
        forall|k: int| i <= k < lines.len() ==> line_consumes_ok(#[trigger] lines[k]),
    ensures
        parse_lines_from(lines, i, done, cur) == Err::<Seq<LineView>, ErrView>(
            ErrView::MissingEndIndicator,
        ),
    decreases lines.len() - i,
{
    if i < lines.len() {
        let line = lines[i];
        assert(line_consumes_ok(line));
        if line[0] == '#' {
            lemma_missing_end_indicator(lines, i + 1, done, cur);
        } else if note_scan(line) is Some {
            let m = note_scan(line)->0;
            let nv = note_step(m, i + 1)->Ok_0;
            lemma_missing_end_indicator(
                lines,
                i + 1,
                done,
                LineView { notes: cur.notes.push(nv), ..cur },
            );
        } else if break_scan(line) is Some {
            let s1 = break_scan(line)->0;
            lemma_missing_end_indicator(
                lines,
                i + 1,
                done.push(cur),
                LineView { start: crate::numbers::int_val(s1), rel: None, notes: Seq::empty() },
            );
        } else if rel_scan(line) is Some {
            let p = rel_scan(line)->0;
            lemma_missing_end_indicator(
                lines,
                i + 1,
                done.push(cur),
                LineView {
                    start: crate::numbers::int_val(p.0),
                    rel: Some(crate::numbers::int_val(p.1)),
                    notes: Seq::empty(),
                },
            );
        } else {
            let s1 = duet_scan(line)->0;
            lemma_missing_end_indicator(
                lines,
                i + 1,
                done,
                LineView {
                    notes: cur.notes.push(
                        NoteView::PlayerChange { player: crate::numbers::int_val(s1) },
                    ),
                    ..cur
                },
            );
        }
    }
}

/// Terminator requirement over whole texts.
pub proof fn lemma_missing_end_indicator_text(s: Seq<char>)
    requires
        forall|k: int|
            0 <= k < split_lines(s).len() ==> line_consumes_ok(#[trigger] split_lines(s)[k]),
    ensures
        spec_parse_lines(s) == Err::<Seq<LineView>, ErrView>(ErrView::MissingEndIndicator),
{
    lemma_missing_end_indicator(
        split_lines(s),
        0,
        Seq::empty(),
        crate::parser::first_line_view(),
    );
}

// ------------------------------------------------------------------
// duplicate detection
// ------------------------------------------------------------------

/// A tag name the header parser recognizes.
pub open spec fn recognized(key: Seq<char>) -> bool {
    ||| key == "TITLE"@
    ||| key == "ARTIST"@
    ||| key == "MP3"@
    ||| key == "BPM"@
    ||| key == "GAP"@
    ||| key == "COVER"@
    ||| key == "BACKGROUND"@
    ||| key == "VIDEO"@
    ||| key == "VIDEOGAP"@
    ||| key == "GENRE"@
    ||| key == "EDITION"@
    ||| key == "LANGUAGE"@
    ||| key == "YEAR"@
    ||| key == "RELATIVE"@
}

/// The accumulator field that belongs to a recognized tag is set.
pub open spec fn field_set(acc: HeaderAcc, key: Seq<char>) -> bool {
    if key == "TITLE"@ {
        acc.title is Some
    } else if key == "ARTIST"@ {
        acc.artist is Some
    } else if key == "MP3"@ {
        acc.audio is Some
    } else if key == "BPM"@ {
        acc.bpm is Some
    } else if key == "GAP"@ {
        acc.gap is Some
    } else if key == "COVER"@ {
        acc.cover is Some
    } else if key == "BACKGROUND"@ {
        acc.background is Some
    } else if key == "VIDEO"@ {
        acc.video is Some
    } else if key == "VIDEOGAP"@ {
        acc.video_gap is Some
    } else if key == "GENRE"@ {
        acc.genre is Some
    } else if key == "EDITION"@ {
        acc.edition is Some
    } else if key == "LANGUAGE"@ {
        acc.language is Some
    } else if key == "YEAR"@ {
        acc.year is Some
    } else if key == "RELATIVE"@ {
        acc.relative is Some
    } else {
        false
    }
}

/// A recognized tag whose field is already set fails as a duplicate, naming
/// the line and the tag.
pub proof fn lemma_second_occurrence_fails(acc: HeaderAcc, key: Seq<char>, value: Seq<char>, ln: int)
    requires
        recognized(key),
        field_set(acc, key),
    ensures
        header_step(acc, key, value, ln) == Err::<HeaderAcc, ErrView>(
            ErrView::DuplicateHeader { line: ln, tag: key },
        ),
{
}

/// A successful step on a recognized tag sets that tag's field.
pub proof fn lemma_step_sets_field(
    acc: HeaderAcc,
    key: Seq<char>,
    value: Seq<char>,
    ln: int,
    acc2: HeaderAcc,
)
    requires
        recognized(key),
        header_step(acc, key, value, ln) == Ok::<HeaderAcc, ErrView>(acc2),
    ensures
        field_set(acc2, key),
{
}

/// No step ever clears a field that is set.
pub proof fn lemma_step_keeps_field(
    acc: HeaderAcc,
    key: Seq<char>,
    k2: Seq<char>,
    v2: Seq<char>,
    ln: int,
    acc2: HeaderAcc,
)
    requires
        recognized(key),
        field_set(acc, key),
        header_step(acc, k2, v2, ln) == Ok::<HeaderAcc, ErrView>(acc2),
    ensures
        field_set(acc2, key),
{
}

/// Line `k` bears the tag `key` with a nonempty value.
pub open spec fn has_occurrence(lines: Seq<Seq<char>>, k: int, key: Seq<char>) -> bool {
    find_tag(lines[k]) matches Some(p) && p.0 == key && p.1.len() > 0
}

/// Duplicate detection over the accumulator: when line `j` bears a
/// recognized tag whose field is already set, or that occurred on an
/// earlier line, and the lines up to `j` all bear tags and parse cleanly,
/// then the whole parse fails as a duplicate at line `j + 1` naming the tag.
pub proof fn lemma_duplicate_detected(
    lines: Seq<Seq<char>>,
    acc: HeaderAcc,
    i: int,
    j: int,
    key: Seq<char>,
    vj: Seq<char>,
)
    requires
        0 <= i <= j < lines.len(),
        forall|k: int| i <= k <= j ==> (#[trigger] find_tag(lines[k])) is Some,
        find_tag(lines[j]) == Some((key, vj)),
        vj.len() > 0,
        recognized(key),
        parse_header_from(lines.take(j), i, acc) is Ok,
        field_set(acc, key) || exists|k: int| i <= k < j && #[trigger] has_occurrence(lines, k, key),
    ensures
        parse_header_from(lines, i, acc) == Err::<HeaderAcc, ErrView>(
            ErrView::DuplicateHeader { line: j + 1, tag: key },
        ),
    decreases j - i,
{
    if i == j {
        assert(field_set(acc, key));
        lemma_second_occurrence_fails(acc, key, vj, j + 1);
    } else {
        let line0 = lines[i];
        assert(find_tag(line0) is Some);
        let p0 = find_tag(line0)->0;
        assert(lines.take(j)[i] == lines[i]);
        if p0.1.len() == 0 {
            if !field_set(acc, key) {
                let k = choose|k: int| i <= k < j && #[trigger] has_occurrence(lines, k, key);
                assert(k != i);
                assert(i + 1 <= k < j && has_occurrence(lines, k, key));
            }
            lemma_duplicate_detected(lines, acc, i + 1, j, key, vj);
        } else {
            let st = header_step(acc, p0.0, p0.1, i + 1);
            assert(st is Ok);
            let acc1 = st->Ok_0;
            if field_set(acc, key) {
                lemma_step_keeps_field(acc, key, p0.0, p0.1, i + 1, acc1);
            } else {
                let k = choose|k: int| i <= k < j && #[trigger] has_occurrence(lines, k, key);
                if k == i {
                    assert(p0.0 == key);
                    lemma_step_sets_field(acc, key, p0.1, i + 1, acc1);
                } else {
                    assert(i + 1 <= k < j && has_occurrence(lines, k, key));
                }
            }
            lemma_duplicate_detected(lines, acc1, i + 1, j, key, vj);
        }
    }
}

/// Duplicate detection over whole texts: for every recognized tag name, a
/// second nonempty occurrence anywhere in the header region fails with the
/// duplicate error naming that line and that tag, provided the lines up to
/// it all bear tags and parse cleanly.
pub proof fn lemma_duplicate_header(s: Seq<char>, i: int, j: int, key: Seq<char>)
    requires
        0 <= i < j < split_lines(s).len(),
        forall|k: int| 0 <= k <= j ==> (#[trigger] find_tag(split_lines(s)[k])) is Some,
        has_occurrence(split_lines(s), i, key),
        has_occurrence(split_lines(s), j, key),
        recognized(key),
        parse_header_from(split_lines(s).take(j), 0, empty_acc()) is Ok,
    ensures
        spec_parse_header(s) == Err::<crate::structs::HeaderView, ErrView>(
            ErrView::DuplicateHeader { line: j + 1, tag: key },
        ),
{
    let lines = split_lines(s);
    let pj = find_tag(lines[j])->0;
    assert(find_tag(lines[j]) == Some((key, pj.1)));
    assert(has_occurrence(lines, i, key));
    lemma_duplicate_detected(lines, empty_acc(), 0, j, key, pj.1);
}

// ------------------------------------------------------------------
// round trip: pieces, tags and the shape of generated lines
// ------------------------------------------------------------------

/// The piece contains no newline and does not end in a carriage return, so
/// it survives line splitting unchanged.
pub open spec fn piece_ok(t: Seq<char>) -> bool {
    (forall|i: int| 0 <= i < t.len() ==> t[i] != '\n') && (t.len() > 0 ==> t.last() != '\r')
}

/// A nonempty piece; what every emitted tag value must be.
pub open spec fn value_ok(t: Seq<char>) -> bool {
    t.len() > 0 && piece_ok(t)
}

/// Every character is a tag-name character.
pub open spec fn name_ok(name: Seq<char>) -> bool {
    forall|i: int| 0 <= i < name.len() ==> crate::text::is_name_char(#[trigger] name[i])
}

/// Splitting takes one newline-terminated piece off the front.
pub proof fn lemma_split_one(l: Seq<char>, rest: Seq<char>)
    requires
        piece_ok(l),
    ensures
        split_lines(l + seq!['\n'] + rest) == seq![l] + split_lines(rest),
{
    let s = l + seq!['\n'] + rest;
    assert forall|k: int| 0 <= k < l.len() implies s[k] != '\n' by {
        assert(s[k] == l[k]);
    }
    assert(s[l.len() as int] == '\n');
    crate::text::lemma_find_nl_at(s, l.len() as int);
    assert(s.take(l.len() as int) =~= l);
    assert(crate::text::strip_cr(l) == l);
    assert(s.skip(l.len() + 1int) =~= rest);
    assert(split_lines(s) == seq![l] + split_lines(rest));
}

/// The lone terminator after the last newline is its own line.
pub proof fn lemma_split_terminator()
    ensures
        split_lines(seq!['E']) == seq![seq!['E']],
{
    let s = seq!['E'];
    crate::text::lemma_find_nl_at(s, 1);
    assert(crate::text::strip_cr(s) == s);
    assert(split_lines(s) == seq![s]);
}

pub proof fn lemma_first_tag_pos_props(s: Seq<char>, i: int)
    requires
        0 <= i <= s.len(),
    ensures
        i <= crate::parser::first_tag_pos(s, i) <= s.len(),
        forall|k: int| i <= k < crate::parser::first_tag_pos(s, i) ==> !crate::parser::tag_at(s, k),
        crate::parser::first_tag_pos(s, i) < s.len() ==> crate::parser::tag_at(
            s,
            crate::parser::first_tag_pos(s, i),
        ),
    decreases s.len() - i,
{
    if i < s.len() && !crate::parser::tag_at(s, i) {
        lemma_first_tag_pos_props(s, i + 1);
        assert forall|k: int| i <= k < crate::parser::first_tag_pos(s, i) implies !crate::parser::tag_at(
            s,
            k,
        ) by {
            if k > i {
                assert(!crate::parser::tag_at(s, k));
            }
        }
    }
}

/// A name run inside a concatenation, at or after the seam, is the name run
/// of the right part, shifted.
pub proof fn lemma_name_run_concat(a: Seq<char>, b: Seq<char>, i: int)
    requires
        a.len() <= i <= a.len() + b.len(),
    ensures
        crate::text::name_run(a + b, i) == a.len() + crate::text::name_run(b, i - a.len()),
    decreases a.len() + b.len() - i,
{
    let s = a + b;
    if i < s.len() {
        assert(s[i] == b[i - a.len()]);
        if crate::text::is_name_char(s[i]) {
            lemma_name_run_concat(a, b, i + 1);
        }
    }
}

/// The text of one header line, without its newline.
pub open spec fn tag_content(name: Seq<char>, value: Seq<char>) -> Seq<char> {
    seq!['#'] + name + seq![':'] + value
}

/// A generated header line parses back to exactly its name and value.
pub proof fn lemma_find_tag_content(name: Seq<char>, value: Seq<char>)
    requires
        name_ok(name),
    ensures
        find_tag(tag_content(name, value)) == Some((name, value)),
{
    let c = tag_content(name, value);
    assert(c.len() == 2 + name.len() + value.len());
    assert(c[0] == '#');
    assert forall|k: int| 1 <= k < 1int + name.len() implies crate::text::is_name_char(c[k]) by {
        assert(c[k] == name[k - 1]);
    }
    assert(c[1int + name.len()] == ':');
    crate::text::lemma_name_run_at(c, 1, 1int + name.len());
    assert(crate::parser::tag_at(c, 0));
    crate::parser::lemma_first_tag_pos_at(c, 0, 0);
    assert(c.subrange(1, 1int + name.len()) =~= name);
    assert(c.subrange(2int + name.len(), c.len() as int) =~= value);
}

/// A line without a number sign bears no tag at all.
pub proof fn lemma_no_hash_no_tag(line: Seq<char>)
    requires
        forall|i: int| 0 <= i < line.len() ==> line[i] != '#',
    ensures
        find_tag(line) is None,
{
    assert forall|k: int| 0 <= k < line.len() implies !crate::parser::tag_at(line, k) by {}
    crate::parser::lemma_first_tag_pos_at(line, 0, line.len() as int);
}

/// Whether a tag pattern starts inside the right part of a concatenation
/// depends on the right part alone.
pub proof fn lemma_tag_at_concat(pre: Seq<char>, t: Seq<char>, q: int)
    requires
        pre.len() <= q < pre.len() + t.len(),
    ensures
        crate::parser::tag_at(pre + t, q) == crate::parser::tag_at(t, q - pre.len()),
{
    let s = pre + t;
    assert(s[q] == t[q - pre.len()]);
    lemma_name_run_concat(pre, t, q + 1);
    crate::text::lemma_name_run(t, q + 1 - pre.len());
    let nrt = crate::text::name_run(t, q + 1 - pre.len());
    if nrt < t.len() {
        assert(s[pre.len() + nrt] == t[nrt]);
    }
}

/// A line made of a hash-free prefix and a text without a tag pattern bears
/// no tag pattern.
pub proof fn lemma_prefixed_no_tag(pre: Seq<char>, t: Seq<char>)
    requires
        forall|i: int| 0 <= i < pre.len() ==> pre[i] != '#',
        crate::parser::first_tag_pos(t, 0) == t.len(),
    ensures
        find_tag(pre + t) is None,
{
    let s = pre + t;
    lemma_first_tag_pos_props(t, 0);
    assert forall|q: int| 0 <= q < s.len() implies !crate::parser::tag_at(s, q) by {
        if q < pre.len() {
            assert(s[q] == pre[q]);
        } else {
            lemma_tag_at_concat(pre, t, q);
        }
    }
    crate::parser::lemma_first_tag_pos_at(s, 0, s.len() as int);
}

/// The decimal text of a signed value is made of digits, after a possible
/// leading minus sign.
pub proof fn lemma_int_str_chars(v: int)
    ensures
        crate::numbers::int_str(v).len() >= 1,
        forall|k: int|
            0 <= k < crate::numbers::int_str(v).len() ==> (crate::text::is_digit(
                #[trigger] crate::numbers::int_str(v)[k],
            ) || crate::numbers::int_str(v)[k] == '-'),
        crate::text::is_digit(crate::numbers::int_str(v).last()),
        forall|k: int|
            1 <= k < crate::numbers::int_str(v).len() ==> crate::text::is_digit(
                #[trigger] crate::numbers::int_str(v)[k],
            ),
        crate::numbers::int_str(v)[0] == '-' ==> crate::numbers::int_str(v).len() >= 2,
        crate::numbers::int_str(v)[0] == '-' || crate::text::is_digit(crate::numbers::int_str(v)[0]),
{
    if v < 0 {
        crate::numbers::lemma_dec_digits_shape((-v) as nat);
        let d = crate::numbers::dec_digits((-v) as nat);
        let s = crate::numbers::int_str(v);
        assert(s == seq!['-'] + d);
        assert forall|k: int|
            0 <= k < s.len() implies (crate::text::is_digit(#[trigger] s[k]) || s[k] == '-') by {
            if k >= 1 {
                assert(s[k] == d[k - 1]);
            }
        }
        assert(s.last() == d.last());
    } else {
        crate::numbers::lemma_dec_digits_shape(v as nat);
    }
}

/// The tag names and keywords the generator writes, with the character
/// facts the round-trip proof needs of them.
pub proof fn lemma_names_ok()
    ensures
        name_ok("TITLE"@),
        ("TITLE"@).len() == 5,
        ("TITLE"@)[0] == 'T',
        name_ok("ARTIST"@),
        ("ARTIST"@).len() == 6,
        ("ARTIST"@)[0] == 'A',
        name_ok("MP3"@),
        ("MP3"@).len() == 3,
        ("MP3"@)[0] == 'M',
        name_ok("BPM"@),
        ("BPM"@).len() == 3,
        ("BPM"@)[0] == 'B',
        name_ok("GAP"@),
        ("GAP"@).len() == 3,
        ("GAP"@)[0] == 'G',
        name_ok("COVER"@),
        ("COVER"@).len() == 5,
        ("COVER"@)[0] == 'C',
        name_ok("BACKGROUND"@),
        ("BACKGROUND"@).len() == 10,
        ("BACKGROUND"@)[0] == 'B',
        name_ok("VIDEO"@),
        ("VIDEO"@).len() == 5,
        ("VIDEO"@)[0] == 'V',
        name_ok("VIDEOGAP"@),
        ("VIDEOGAP"@).len() == 8,
        ("VIDEOGAP"@)[0] == 'V',
        name_ok("GENRE"@),
        ("GENRE"@).len() == 5,
        ("GENRE"@)[0] == 'G',
        name_ok("EDITION"@),
        ("EDITION"@).len() == 7,
        ("EDITION"@)[0] == 'E',
        name_ok("LANGUAGE"@),
        ("LANGUAGE"@).len() == 8,
        ("LANGUAGE"@)[0] == 'L',
        name_ok("YEAR"@),
        ("YEAR"@).len() == 4,
        ("YEAR"@)[0] == 'Y',
        name_ok("RELATIVE"@),
        ("RELATIVE"@).len() == 8,
        ("RELATIVE"@)[0] == 'R',
        value_ok("YES"@),
        ("YES"@).len() == 3,
        ("YES"@)[0] == 'Y',
        crate::parser::is_yes_word("YES"@),
        !crate::parser::is_no_word("YES"@),
        value_ok("NO"@),
        ("NO"@).len() == 2,
        ("NO"@)[0] == 'N',
        crate::parser::is_no_word("NO"@),
        !crate::parser::is_yes_word("NO"@),
        value_ok("yes"@),
        ("yes"@).len() == 3,
        ("yes"@)[0] == 'y',
        value_ok("no"@),
        ("no"@).len() == 2,
        ("no"@)[0] == 'n',
{
    reveal_strlit("TITLE");
    reveal_strlit("ARTIST");
    reveal_strlit("MP3");
    reveal_strlit("BPM");
    reveal_strlit("GAP");
    reveal_strlit("COVER");
    reveal_strlit("BACKGROUND");
    reveal_strlit("VIDEO");
    reveal_strlit("VIDEOGAP");
    reveal_strlit("GENRE");
    reveal_strlit("EDITION");
    reveal_strlit("LANGUAGE");
    reveal_strlit("YEAR");
    reveal_strlit("RELATIVE");
    reveal_strlit("YES");
    reveal_strlit("NO");
    reveal_strlit("yes");
    reveal_strlit("no");
    assert forall|i: int| 0 <= i < ("TITLE"@).len() implies crate::text::is_name_char(#[trigger] ("TITLE"@)[i]) by {
        if i == 0 {
            assert(("TITLE"@)[0] == 'T');
        } else if i == 1 {
            assert(("TITLE"@)[1] == 'I');
        } else if i == 2 {
            assert(("TITLE"@)[2] == 'T');
        } else if i == 3 {
            assert(("TITLE"@)[3] == 'L');
        } else if i == 4 {
            assert(("TITLE"@)[4] == 'E');
        }
    }
    assert forall|i: int| 0 <= i < ("ARTIST"@).len() implies crate::text::is_name_char(#[trigger] ("ARTIST"@)[i]) by {
        if i == 0 {
            assert(("ARTIST"@)[0] == 'A');
        } else if i == 1 {
            assert(("ARTIST"@)[1] == 'R');
        } else if i == 2 {
            assert(("ARTIST"@)[2] == 'T');
        } else if i == 3 {
            assert(("ARTIST"@)[3] == 'I');
        } else if i == 4 {
            assert(("ARTIST"@)[4] == 'S');
        } else if i == 5 {
            assert(("ARTIST"@)[5] == 'T');
        }
    }
    assert forall|i: int| 0 <= i < ("MP3"@).len() implies crate::text::is_name_char(#[trigger] ("MP3"@)[i]) by {
        if i == 0 {
            assert(("MP3"@)[0] == 'M');
        } else if i == 1 {
            assert(("MP3"@)[1] == 'P');
        } else if i == 2 {
            assert(("MP3"@)[2] == '3');
        }
    }
    assert forall|i: int| 0 <= i < ("BPM"@).len() implies crate::text::is_name_char(#[trigger] ("BPM"@)[i]) by {
        if i == 0 {
            assert(("BPM"@)[0] == 'B');
        } else if i == 1 {
            assert(("BPM"@)[1] == 'P');
        } else if i == 2 {
            assert(("BPM"@)[2] == 'M');
        }
    }
    assert forall|i: int| 0 <= i < ("GAP"@).len() implies crate::text::is_name_char(#[trigger] ("GAP"@)[i]) by {
        if i == 0 {
            assert(("GAP"@)[0] == 'G');
        } else if i == 1 {
            assert(("GAP"@)[1] == 'A');
        } else if i == 2 {
            assert(("GAP"@)[2] == 'P');
        }
    }
    assert forall|i: int| 0 <= i < ("COVER"@).len() implies crate::text::is_name_char(#[trigger] ("COVER"@)[i]) by {
        if i == 0 {
            assert(("COVER"@)[0] == 'C');
        } else if i == 1 {
            assert(("COVER"@)[1] == 'O');
        } else if i == 2 {
            assert(("COVER"@)[2] == 'V');
        } else if i == 3 {
            assert(("COVER"@)[3] == 'E');
        } else if i == 4 {
            assert(("COVER"@)[4] == 'R');
        }
    }
    assert forall|i: int| 0 <= i < ("BACKGROUND"@).len() implies crate::text::is_name_char(#[trigger] ("BACKGROUND"@)[i]) by {
        if i == 0 {
            assert(("BACKGROUND"@)[0] == 'B');
        } else if i == 1 {
            assert(("BACKGROUND"@)[1] == 'A');
        } else if i == 2 {
            assert(("BACKGROUND"@)[2] == 'C');
        } else if i == 3 {
            assert(("BACKGROUND"@)[3] == 'K');
        } else if i == 4 {
            assert(("BACKGROUND"@)[4] == 'G');
        } else if i == 5 {
            assert(("BACKGROUND"@)[5] == 'R');
        } else if i == 6 {
            assert(("BACKGROUND"@)[6] == 'O');
        } else if i == 7 {
            assert(("BACKGROUND"@)[7] == 'U');
        } else if i == 8 {
            assert(("BACKGROUND"@)[8] == 'N');
        } else if i == 9 {
            assert(("BACKGROUND"@)[9] == 'D');
        }
    }
    assert forall|i: int| 0 <= i < ("VIDEO"@).len() implies crate::text::is_name_char(#[trigger] ("VIDEO"@)[i]) by {
        if i == 0 {
            assert(("VIDEO"@)[0] == 'V');
        } else if i == 1 {
            assert(("VIDEO"@)[1] == 'I');
        } else if i == 2 {
            assert(("VIDEO"@)[2] == 'D');
        } else if i == 3 {
            assert(("VIDEO"@)[3] == 'E');
        } else if i == 4 {
            assert(("VIDEO"@)[4] == 'O');
        }
    }
    assert forall|i: int| 0 <= i < ("VIDEOGAP"@).len() implies crate::text::is_name_char(#[trigger] ("VIDEOGAP"@)[i]) by {
        if i == 0 {
            assert(("VIDEOGAP"@)[0] == 'V');
        } else if i == 1 {
            assert(("VIDEOGAP"@)[1] == 'I');
        } else if i == 2 {
            assert(("VIDEOGAP"@)[2] == 'D');
        } else if i == 3 {
            assert(("VIDEOGAP"@)[3] == 'E');
        } else if i == 4 {
            assert(("VIDEOGAP"@)[4] == 'O');
        } else if i == 5 {
            assert(("VIDEOGAP"@)[5] == 'G');
        } else if i == 6 {
            assert(("VIDEOGAP"@)[6] == 'A');
        } else if i == 7 {
            assert(("VIDEOGAP"@)[7] == 'P');
        }
    }
    assert forall|i: int| 0 <= i < ("GENRE"@).len() implies crate::text::is_name_char(#[trigger] ("GENRE"@)[i]) by {
        if i == 0 {
            assert(("GENRE"@)[0] == 'G');
        } else if i == 1 {
            assert(("GENRE"@)[1] == 'E');
        } else if i == 2 {
            assert(("GENRE"@)[2] == 'N');
        } else if i == 3 {
            assert(("GENRE"@)[3] == 'R');
        } else if i == 4 {
            assert(("GENRE"@)[4] == 'E');
        }
    }
    assert forall|i: int| 0 <= i < ("EDITION"@).len() implies crate::text::is_name_char(#[trigger] ("EDITION"@)[i]) by {
        if i == 0 {
            assert(("EDITION"@)[0] == 'E');
        } else if i == 1 {
            assert(("EDITION"@)[1] == 'D');
        } else if i == 2 {
            assert(("EDITION"@)[2] == 'I');
        } else if i == 3 {
            assert(("EDITION"@)[3] == 'T');
        } else if i == 4 {
            assert(("EDITION"@)[4] == 'I');
        } else if i == 5 {
            assert(("EDITION"@)[5] == 'O');
        } else if i == 6 {
            assert(("EDITION"@)[6] == 'N');
        }
    }
    assert forall|i: int| 0 <= i < ("LANGUAGE"@).len() implies crate::text::is_name_char(#[trigger] ("LANGUAGE"@)[i]) by {
        if i == 0 {
            assert(("LANGUAGE"@)[0] == 'L');
        } else if i == 1 {
            assert(("LANGUAGE"@)[1] == 'A');
        } else if i == 2 {
            assert(("LANGUAGE"@)[2] == 'N');
        } else if i == 3 {
            assert(("LANGUAGE"@)[3] == 'G');
        } else if i == 4 {
            assert(("LANGUAGE"@)[4] == 'U');
        } else if i == 5 {
            assert(("LANGUAGE"@)[5] == 'A');
        } else if i == 6 {
            assert(("LANGUAGE"@)[6] == 'G');
        } else if i == 7 {
            assert(("LANGUAGE"@)[7] == 'E');
        }
    }
    assert forall|i: int| 0 <= i < ("YEAR"@).len() implies crate::text::is_name_char(#[trigger] ("YEAR"@)[i]) by {
        if i == 0 {
            assert(("YEAR"@)[0] == 'Y');
        } else if i == 1 {
            assert(("YEAR"@)[1] == 'E');
        } else if i == 2 {
            assert(("YEAR"@)[2] == 'A');
        } else if i == 3 {
            assert(("YEAR"@)[3] == 'R');
        }
    }
    assert forall|i: int| 0 <= i < ("RELATIVE"@).len() implies crate::text::is_name_char(#[trigger] ("RELATIVE"@)[i]) by {
        if i == 0 {
            assert(("RELATIVE"@)[0] == 'R');
        } else if i == 1 {
            assert(("RELATIVE"@)[1] == 'E');
        } else if i == 2 {
            assert(("RELATIVE"@)[2] == 'L');
        } else if i == 3 {
            assert(("RELATIVE"@)[3] == 'A');
        } else if i == 4 {
            assert(("RELATIVE"@)[4] == 'T');
        } else if i == 5 {
            assert(("RELATIVE"@)[5] == 'I');
        } else if i == 6 {
            assert(("RELATIVE"@)[6] == 'V');
        } else if i == 7 {
            assert(("RELATIVE"@)[7] == 'E');
        }
    }
    assert forall|i: int| 0 <= i < ("YES"@).len() implies ("YES"@)[i] != '\n' by {
        if i == 0 {
            assert(("YES"@)[0] == 'Y');
        } else if i == 1 {
            assert(("YES"@)[1] == 'E');
        } else if i == 2 {
            assert(("YES"@)[2] == 'S');
        }
    }
    assert(("YES"@).last() == 'S');
    assert(("YES"@)[1] == 'E');
    assert(("YES"@)[2] == 'S');
    assert forall|i: int| 0 <= i < ("NO"@).len() implies ("NO"@)[i] != '\n' by {
        if i == 0 {
            assert(("NO"@)[0] == 'N');
        } else if i == 1 {
            assert(("NO"@)[1] == 'O');
        }
    }
    assert(("NO"@).last() == 'O');
    assert(("NO"@)[1] == 'O');
    assert forall|i: int| 0 <= i < ("yes"@).len() implies ("yes"@)[i] != '\n' by {
        if i == 0 {
            assert(("yes"@)[0] == 'y');
        } else if i == 1 {
            assert(("yes"@)[1] == 'e');
        } else if i == 2 {
            assert(("yes"@)[2] == 's');
        }
    }
    assert(("yes"@).last() == 's');
    assert forall|i: int| 0 <= i < ("no"@).len() implies ("no"@)[i] != '\n' by {
        if i == 0 {
            assert(("no"@)[0] == 'n');
        } else if i == 1 {
            assert(("no"@)[1] == 'o');
        }
    }
    assert(("no"@).last() == 'o');
}

// ------------------------------------------------------------------
// round trip: what the parser can produce, minus the few inputs that
// do not survive a rewrite
// ------------------------------------------------------------------

/// A numeric text field as the parser stores it: nonempty, newline-free,
/// accepted by the float grammar, and already comma-free.
pub open spec fn float_ok(t: Seq<char>) -> bool {
    value_ok(t) && crate::numbers::float_syntax(t) && (forall|i: int|
        0 <= i < t.len() ==> t[i] != ',')
}

/// A media reference whose text reparses to the reference itself.
pub open spec fn source_ok(sv: crate::structs::SourceView) -> bool {
    value_ok(crate::structs::source_text(sv)) && crate::structs::spec_source_parse(
        crate::structs::source_text(sv),
    ) == sv
}

/// One stored unknown tag: a name-shaped key the parser does not recognize,
/// with a nonempty newline-free value.
pub open spec fn unknown_entry_ok(p: (Seq<char>, Seq<char>)) -> bool {
    name_ok(p.0) && !recognized(p.0) && value_ok(p.1)
}

/// A stored unknown-tag list: nonempty, well-formed entries, distinct keys.
pub open spec fn unknown_ok(us: Seq<(Seq<char>, Seq<char>)>) -> bool {
    &&& us.len() >= 1
    &&& forall|i: int| 0 <= i < us.len() ==> unknown_entry_ok(#[trigger] us[i])
    &&& forall|i: int, j: int| 0 <= i < j < us.len() ==> us[i].0 != us[j].0
}

/// A header the round trip covers: each stored field is one the parser can
/// produce, no text field ends in a carriage return, and each media
/// reference reparses to itself.
pub open spec fn header_rt_ok(h: crate::structs::HeaderView) -> bool {
    &&& value_ok(h.title)
    &&& value_ok(h.artist)
    &&& float_ok(h.bpm)
    &&& source_ok(h.audio_path)
    &&& (h.gap matches Some(g) ==> float_ok(g))
    &&& (h.cover_path matches Some(s) ==> source_ok(s))
    &&& (h.background_path matches Some(s) ==> source_ok(s))
    &&& (h.video_path matches Some(s) ==> source_ok(s))
    &&& (h.video_gap matches Some(g) ==> float_ok(g))
    &&& (h.genre matches Some(t) ==> value_ok(t))
    &&& (h.edition matches Some(t) ==> value_ok(t))
    &&& (h.language matches Some(t) ==> value_ok(t))
    &&& (h.unknown matches Some(us) ==> unknown_ok(us))
}

// ------------------------------------------------------------------
// round trip: the generated header, line by line
// ------------------------------------------------------------------

/// The line an optional text tag contributes.
pub open spec fn opt_lines(name: Seq<char>, v: Option<Seq<char>>) -> Seq<Seq<char>> {
    match v {
        Some(x) => seq![tag_content(name, x)],
        None => Seq::empty(),
    }
}

/// The line an optional media tag contributes.
pub open spec fn opt_source_lines(name: Seq<char>, v: Option<crate::structs::SourceView>) -> Seq<
    Seq<char>,
> {
    match v {
        Some(s) => seq![tag_content(name, crate::structs::source_text(s))],
        None => Seq::empty(),
    }
}

/// The line the YEAR tag contributes.
pub open spec fn year_lines(v: Option<u32>) -> Seq<Seq<char>> {
    match v {
        Some(y) => seq![tag_content("YEAR"@, crate::numbers::dec_digits(y as nat))],
        None => Seq::empty(),
    }
}

/// The line the RELATIVE tag contributes.
pub open spec fn relative_lines(v: Option<bool>) -> Seq<Seq<char>> {
    match v {
        Some(true) => seq![tag_content("RELATIVE"@, "YES"@)],
        Some(false) => seq![tag_content("RELATIVE"@, "NO"@)],
        None => Seq::empty(),
    }
}

/// The lines the unknown tags contribute, in stored order.
pub open spec fn unknown_lines(us: Seq<(Seq<char>, Seq<char>)>) -> Seq<Seq<char>> {
    Seq::new(us.len(), |i: int| tag_content(us[i].0, us[i].1))
}

/// The lines the whole unknown block contributes.
pub open spec fn unknown_opt_lines(u: Option<Seq<(Seq<char>, Seq<char>)>>) -> Seq<Seq<char>> {
    match u {
        Some(us) => unknown_lines(us),
        None => Seq::empty(),
    }
}

/// The optional part of the generated header, as text.
pub open spec fn header_tail_text(h: crate::structs::HeaderView) -> Seq<char> {
    crate::generator::opt_tag("GAP"@, h.gap) + (crate::generator::opt_source_tag(
        "COVER"@,
        h.cover_path,
    ) + (crate::generator::opt_source_tag("BACKGROUND"@, h.background_path)
        + (crate::generator::opt_source_tag("VIDEO"@, h.video_path) + (crate::generator::opt_tag(
        "VIDEOGAP"@,
        h.video_gap,
    ) + (crate::generator::opt_tag("GENRE"@, h.genre) + (crate::generator::opt_tag(
        "EDITION"@,
        h.edition,
    ) + (crate::generator::opt_tag("LANGUAGE"@, h.language) + (crate::generator::year_tag(h.year)
        + (crate::generator::relative_tag(h.relative) + crate::generator::unknown_text(
        h.unknown,
    ))))))))))
}

/// The optional part of the generated header, as the list of its lines.
pub open spec fn header_tail_lines(h: crate::structs::HeaderView) -> Seq<Seq<char>> {
    opt_lines("GAP"@, h.gap) + (opt_source_lines("COVER"@, h.cover_path) + (opt_source_lines(
        "BACKGROUND"@,
        h.background_path,
    ) + (opt_source_lines("VIDEO"@, h.video_path) + (opt_lines("VIDEOGAP"@, h.video_gap)
        + (opt_lines("GENRE"@, h.genre) + (opt_lines("EDITION"@, h.edition) + (opt_lines(
        "LANGUAGE"@,
        h.language,
    ) + (year_lines(h.year) + (relative_lines(h.relative) + unknown_opt_lines(h.unknown))))))))))
}

/// The generated header, as the list of its lines.
pub open spec fn header_lines(h: crate::structs::HeaderView) -> Seq<Seq<char>> {
    seq![
        tag_content("TITLE"@, h.title),
        tag_content("ARTIST"@, h.artist),
        tag_content("MP3"@, crate::structs::source_text(h.audio_path)),
        tag_content("BPM"@, h.bpm),
    ] + header_tail_lines(h)
}

/// Splitting takes one generated header line off the front.
pub proof fn lemma_split_tag_line(name: Seq<char>, value: Seq<char>, rest: Seq<char>)
    requires
        name_ok(name),
        value_ok(value),
    ensures
        split_lines(crate::generator::tag_line(name, value) + rest) == seq![
            tag_content(name, value),
        ] + split_lines(rest),
{
    let c = tag_content(name, value);
    assert(piece_ok(c)) by {
        assert forall|i: int| 0 <= i < c.len() implies c[i] != '\n' by {
            if i == 0 {
            } else if i < 1int + name.len() {
                assert(c[i] == name[i - 1]);
            } else if i == 1int + name.len() {
            } else {
                assert(c[i] == value[i - 2 - name.len()]);
            }
        }
        assert(c.last() == value.last());
    }
    assert(crate::generator::tag_line(name, value) + rest =~= c + seq!['\n'] + rest);
    lemma_split_one(c, rest);
}

/// Splitting an optional text tag.
pub proof fn lemma_split_opt_tag(name: Seq<char>, v: Option<Seq<char>>, rest: Seq<char>)
    requires
        name_ok(name),
        v matches Some(x) ==> value_ok(x),
    ensures
        split_lines(crate::generator::opt_tag(name, v) + rest) == opt_lines(name, v) + split_lines(
            rest,
        ),
{
    match v {
        Some(x) => {
            lemma_split_tag_line(name, x, rest);
        },
        None => {
            assert(crate::generator::opt_tag(name, v) + rest =~= rest);
            assert(opt_lines(name, v) + split_lines(rest) =~= split_lines(rest));
        },
    }
}

/// Splitting an optional media tag.
pub proof fn lemma_split_opt_source(
    name: Seq<char>,
    v: Option<crate::structs::SourceView>,
    rest: Seq<char>,
)
    requires
        name_ok(name),
        v matches Some(s) ==> source_ok(s),
    ensures
        split_lines(crate::generator::opt_source_tag(name, v) + rest) == opt_source_lines(name, v)
            + split_lines(rest),
{
    match v {
        Some(s) => {
            lemma_split_tag_line(name, crate::structs::source_text(s), rest);
        },
        None => {
            assert(crate::generator::opt_source_tag(name, v) + rest =~= rest);
            assert(opt_source_lines(name, v) + split_lines(rest) =~= split_lines(rest));
        },
    }
}

/// The decimal digits of a year form a well-formed tag value.
pub proof fn lemma_dec_digits_value_ok(n: nat)
    ensures
        value_ok(crate::numbers::dec_digits(n)),
{
    crate::numbers::lemma_dec_digits_shape(n);
    let d = crate::numbers::dec_digits(n);
    assert forall|i: int| 0 <= i < d.len() implies d[i] != '\n' by {
        assert(crate::text::is_digit(d[i]));
    }
    assert(crate::text::is_digit(d.last()));
}

/// Splitting the YEAR tag.
pub proof fn lemma_split_year(v: Option<u32>, rest: Seq<char>)
    ensures
        split_lines(crate::generator::year_tag(v) + rest) == year_lines(v) + split_lines(rest),
{
    lemma_names_ok();
    match v {
        Some(y) => {
            lemma_dec_digits_value_ok(y as nat);
            lemma_split_tag_line("YEAR"@, crate::numbers::dec_digits(y as nat), rest);
        },
        None => {
            assert(crate::generator::year_tag(v) + rest =~= rest);
            assert(year_lines(v) + split_lines(rest) =~= split_lines(rest));
        },
    }
}

/// Splitting the RELATIVE tag.
pub proof fn lemma_split_relative(v: Option<bool>, rest: Seq<char>)
    ensures
        split_lines(crate::generator::relative_tag(v) + rest) == relative_lines(v) + split_lines(
            rest,
        ),
{
    lemma_names_ok();
    match v {
        Some(true) => {
            lemma_split_tag_line("RELATIVE"@, "YES"@, rest);
        },
        Some(false) => {
            lemma_split_tag_line("RELATIVE"@, "NO"@, rest);
        },
        None => {
            assert(crate::generator::relative_tag(v) + rest =~= rest);
            assert(relative_lines(v) + split_lines(rest) =~= split_lines(rest));
        },
    }
}

/// The unknown block taken apart at its first entry.
pub proof fn lemma_unknown_cat_first(us: Seq<(Seq<char>, Seq<char>)>)
    requires
        us.len() > 0,
    ensures
        crate::generator::unknown_cat(us) == crate::generator::tag_line(us[0].0, us[0].1)
            + crate::generator::unknown_cat(us.drop_first()),
    decreases us.len(),
{
    if us.len() == 1 {
        assert(us.drop_last() =~= Seq::<(Seq<char>, Seq<char>)>::empty());
        assert(us.drop_first() =~= Seq::<(Seq<char>, Seq<char>)>::empty());
        assert(us.last() == us[0]);
        assert(crate::generator::unknown_cat(us) =~= crate::generator::tag_line(us[0].0, us[0].1)
            + crate::generator::unknown_cat(us.drop_first()));
    } else {
        let dl = us.drop_last();
        lemma_unknown_cat_first(dl);
        assert(dl[0] == us[0]);
        assert(us.drop_first().drop_last() =~= dl.drop_first());
        assert(us.drop_first().last() == us.last());
        assert(crate::generator::unknown_cat(us.drop_first()) == crate::generator::unknown_cat(
            dl.drop_first(),
        ) + crate::generator::tag_line(us.last().0, us.last().1));
        assert(crate::generator::unknown_cat(us) =~= crate::generator::tag_line(us[0].0, us[0].1)
            + crate::generator::unknown_cat(us.drop_first()));
    }
}

/// Splitting the unknown block.
pub proof fn lemma_split_unknown(us: Seq<(Seq<char>, Seq<char>)>, rest: Seq<char>)
    requires
        forall|i: int| 0 <= i < us.len() ==> unknown_entry_ok(#[trigger] us[i]),
    ensures
        split_lines(crate::generator::unknown_cat(us) + rest) == unknown_lines(us) + split_lines(
            rest,
        ),
    decreases us.len(),
{
    if us.len() == 0 {
        assert(crate::generator::unknown_cat(us) + rest =~= rest);
        assert(unknown_lines(us) + split_lines(rest) =~= split_lines(rest));
    } else {
        lemma_unknown_cat_first(us);
        let tail = crate::generator::unknown_cat(us.drop_first()) + rest;
        assert(crate::generator::unknown_cat(us) + rest =~= crate::generator::tag_line(
            us[0].0,
            us[0].1,
        ) + tail);
        assert(unknown_entry_ok(us[0]));
        lemma_split_tag_line(us[0].0, us[0].1, tail);
        assert forall|i: int|
            0 <= i < us.drop_first().len() implies unknown_entry_ok(
            #[trigger] us.drop_first()[i],
        ) by {
            assert(us.drop_first()[i] == us[i + 1]);
        }
        lemma_split_unknown(us.drop_first(), rest);
        assert forall|i: int|
            0 <= i < unknown_lines(us).len() implies unknown_lines(us)[i] == (seq![
            tag_content(us[0].0, us[0].1),
        ] + unknown_lines(us.drop_first()))[i] by {
            if i > 0 {
                assert(us.drop_first()[i - 1] == us[i]);
            }
        }
        assert(unknown_lines(us) =~= seq![tag_content(us[0].0, us[0].1)] + unknown_lines(
            us.drop_first(),
        ));
    }
}

/// The emission order of the header, re-associated so that the first tag
/// stands alone at the front.
#[verifier::rlimit(60)]
pub proof fn lemma_header_text_chain(h: crate::structs::HeaderView)
    ensures
        crate::generator::header_text(h) == crate::generator::tag_line("TITLE"@, h.title)
            + (crate::generator::tag_line("ARTIST"@, h.artist) + (crate::generator::tag_line(
            "MP3"@,
            crate::structs::source_text(h.audio_path),
        ) + (crate::generator::tag_line("BPM"@, h.bpm) + header_tail_text(h)))),
{
    let t1 = crate::generator::tag_line("TITLE"@, h.title);
    let t2 = crate::generator::tag_line("ARTIST"@, h.artist);
    let t3 = crate::generator::tag_line("MP3"@, crate::structs::source_text(h.audio_path));
    let t4 = crate::generator::tag_line("BPM"@, h.bpm);
    let t5 = crate::generator::opt_tag("GAP"@, h.gap);
    let t6 = crate::generator::opt_source_tag("COVER"@, h.cover_path);
    let t7 = crate::generator::opt_source_tag("BACKGROUND"@, h.background_path);
    let t8 = crate::generator::opt_source_tag("VIDEO"@, h.video_path);
    let t9 = crate::generator::opt_tag("VIDEOGAP"@, h.video_gap);
    let t10 = crate::generator::opt_tag("GENRE"@, h.genre);
    let t11 = crate::generator::opt_tag("EDITION"@, h.edition);
    let t12 = crate::generator::opt_tag("LANGUAGE"@, h.language);
    let t13 = crate::generator::year_tag(h.year);
    let t14 = crate::generator::relative_tag(h.relative);
    let t15 = crate::generator::unknown_text(h.unknown);
    let w14 = t14 + t15;
    let w13 = t13 + w14;
    let w12 = t12 + w13;
    let w11 = t11 + w12;
    let w10 = t10 + w11;
    let w9 = t9 + w10;
    let w8 = t8 + w9;
    let w7 = t7 + w8;
    let w6 = t6 + w7;
    let w5 = t5 + w6;
    let w4 = t4 + w5;
    let w3 = t3 + w4;
    let w2 = t2 + w3;
    let g1 = t1;
    let g2 = g1 + t2;
    let g3 = g2 + t3;
    let g4 = g3 + t4;
    let g5 = g4 + t5;
    let g6 = g5 + t6;
    let g7 = g6 + t7;
    let g8 = g7 + t8;
    let g9 = g8 + t9;
    let g10 = g9 + t10;
    let g11 = g10 + t11;
    let g12 = g11 + t12;
    let g13 = g12 + t13;
    let g14 = g13 + t14;
    assert(crate::generator::header_text(h) == g14 + t15);
    vstd::seq_lib::lemma_concat_associative(g13, t14, t15);
    vstd::seq_lib::lemma_concat_associative(g12, t13, w14);
    vstd::seq_lib::lemma_concat_associative(g11, t12, w13);
    vstd::seq_lib::lemma_concat_associative(g10, t11, w12);
    vstd::seq_lib::lemma_concat_associative(g9, t10, w11);
    vstd::seq_lib::lemma_concat_associative(g8, t9, w10);
    vstd::seq_lib::lemma_concat_associative(g7, t8, w9);
    vstd::seq_lib::lemma_concat_associative(g6, t7, w8);
    vstd::seq_lib::lemma_concat_associative(g5, t6, w7);
    vstd::seq_lib::lemma_concat_associative(g4, t5, w6);
    vstd::seq_lib::lemma_concat_associative(g3, t4, w5);
    vstd::seq_lib::lemma_concat_associative(g2, t3, w4);
    vstd::seq_lib::lemma_concat_associative(g1, t2, w3);
    assert(w5 == header_tail_text(h));
}

/// Splitting the optional part of the generated header.
#[verifier::rlimit(100)]
pub proof fn lemma_split_header_tail(h: crate::structs::HeaderView, rest: Seq<char>)
    requires
        header_rt_ok(h),
    ensures
        split_lines(header_tail_text(h) + rest) == header_tail_lines(h) + split_lines(rest),
{
    lemma_names_ok();
    let t5 = crate::generator::opt_tag("GAP"@, h.gap);
    let t6 = crate::generator::opt_source_tag("COVER"@, h.cover_path);
    let t7 = crate::generator::opt_source_tag("BACKGROUND"@, h.background_path);
    let t8 = crate::generator::opt_source_tag("VIDEO"@, h.video_path);
    let t9 = crate::generator::opt_tag("VIDEOGAP"@, h.video_gap);
    let t10 = crate::generator::opt_tag("GENRE"@, h.genre);
    let t11 = crate::generator::opt_tag("EDITION"@, h.edition);
    let t12 = crate::generator::opt_tag("LANGUAGE"@, h.language);
    let t13 = crate::generator::year_tag(h.year);
    let t14 = crate::generator::relative_tag(h.relative);
    let t15 = crate::generator::unknown_text(h.unknown);
    let w14 = t14 + t15;
    let w13 = t13 + w14;
    let w12 = t12 + w13;
    let w11 = t11 + w12;
    let w10 = t10 + w11;
    let w9 = t9 + w10;
    let w8 = t8 + w9;
    let w7 = t7 + w8;
    let w6 = t6 + w7;
    assert(header_tail_text(h) == t5 + w6);
    let r15 = t15 + rest;
    let r14 = t14 + r15;
    vstd::seq_lib::lemma_concat_associative(t14, t15, rest);
    let r13 = t13 + r14;
    vstd::seq_lib::lemma_concat_associative(t13, w14, rest);
    let r12 = t12 + r13;
    vstd::seq_lib::lemma_concat_associative(t12, w13, rest);
    let r11 = t11 + r12;
    vstd::seq_lib::lemma_concat_associative(t11, w12, rest);
    let r10 = t10 + r11;
    vstd::seq_lib::lemma_concat_associative(t10, w11, rest);
    let r9 = t9 + r10;
    vstd::seq_lib::lemma_concat_associative(t9, w10, rest);
    let r8 = t8 + r9;
    vstd::seq_lib::lemma_concat_associative(t8, w9, rest);
    let r7 = t7 + r8;
    vstd::seq_lib::lemma_concat_associative(t7, w8, rest);
    let r6 = t6 + r7;
    vstd::seq_lib::lemma_concat_associative(t6, w7, rest);
    vstd::seq_lib::lemma_concat_associative(t5, w6, rest);
    assert(header_tail_text(h) + rest == t5 + r6);
    let l15 = unknown_opt_lines(h.unknown);
    match h.unknown {
        Some(us) => {
            lemma_split_unknown(us, rest);
        },
        None => {
            assert(t15 + rest =~= rest);
            assert(l15 + split_lines(rest) =~= split_lines(rest));
        },
    }
    assert(split_lines(r15) == l15 + split_lines(rest));
    lemma_split_relative(h.relative, r15);
    let l14 = relative_lines(h.relative) + l15;
    vstd::seq_lib::lemma_concat_associative(relative_lines(h.relative), l15, split_lines(rest));
    assert(split_lines(r14) == l14 + split_lines(rest));
    lemma_split_year(h.year, r14);
    let l13 = year_lines(h.year) + l14;
    vstd::seq_lib::lemma_concat_associative(year_lines(h.year), l14, split_lines(rest));
    assert(split_lines(r13) == l13 + split_lines(rest));
    lemma_split_opt_tag("LANGUAGE"@, h.language, r13);
    let l12 = opt_lines("LANGUAGE"@, h.language) + l13;
    vstd::seq_lib::lemma_concat_associative(
        opt_lines("LANGUAGE"@, h.language),
        l13,
        split_lines(rest),
    );
    assert(split_lines(r12) == l12 + split_lines(rest));
    lemma_split_opt_tag("EDITION"@, h.edition, r12);
    let l11 = opt_lines("EDITION"@, h.edition) + l12;
    vstd::seq_lib::lemma_concat_associative(
        opt_lines("EDITION"@, h.edition),
        l12,
        split_lines(rest),
    );
    assert(split_lines(r11) == l11 + split_lines(rest));
    lemma_split_opt_tag("GENRE"@, h.genre, r11);
    let l10 = opt_lines("GENRE"@, h.genre) + l11;
    vstd::seq_lib::lemma_concat_associative(opt_lines("GENRE"@, h.genre), l11, split_lines(rest));
    assert(split_lines(r10) == l10 + split_lines(rest));
    lemma_split_opt_tag("VIDEOGAP"@, h.video_gap, r10);
    let l9 = opt_lines("VIDEOGAP"@, h.video_gap) + l10;
    vstd::seq_lib::lemma_concat_associative(
        opt_lines("VIDEOGAP"@, h.video_gap),
        l10,
        split_lines(rest),
    );
    assert(split_lines(r9) == l9 + split_lines(rest));
    lemma_split_opt_source("VIDEO"@, h.video_path, r9);
    let l8 = opt_source_lines("VIDEO"@, h.video_path) + l9;
    vstd::seq_lib::lemma_concat_associative(
        opt_source_lines("VIDEO"@, h.video_path),
        l9,
        split_lines(rest),
    );
    assert(split_lines(r8) == l8 + split_lines(rest));
    lemma_split_opt_source("BACKGROUND"@, h.background_path, r8);
    let l7 = opt_source_lines("BACKGROUND"@, h.background_path) + l8;
    vstd::seq_lib::lemma_concat_associative(
        opt_source_lines("BACKGROUND"@, h.background_path),
        l8,
        split_lines(rest),
    );
    assert(split_lines(r7) == l7 + split_lines(rest));
    lemma_split_opt_source("COVER"@, h.cover_path, r7);
    let l6 = opt_source_lines("COVER"@, h.cover_path) + l7;
    vstd::seq_lib::lemma_concat_associative(
        opt_source_lines("COVER"@, h.cover_path),
        l7,
        split_lines(rest),
    );
    assert(split_lines(r6) == l6 + split_lines(rest));
    lemma_split_opt_tag("GAP"@, h.gap, r6);
    let l5 = opt_lines("GAP"@, h.gap) + l6;
    vstd::seq_lib::lemma_concat_associative(opt_lines("GAP"@, h.gap), l6, split_lines(rest));
    assert(split_lines(t5 + r6) == l5 + split_lines(rest));
    assert(header_tail_lines(h) == l5);
}

/// Splitting the whole generated header block.
#[verifier::rlimit(100)]
pub proof fn lemma_split_header(h: crate::structs::HeaderView, rest: Seq<char>)
    requires
        header_rt_ok(h),
    ensures
        split_lines(crate::generator::header_text(h) + rest) == header_lines(h) + split_lines(
            rest,
        ),
{
    lemma_names_ok();
    lemma_header_text_chain(h);
    let t1 = crate::generator::tag_line("TITLE"@, h.title);
    let t2 = crate::generator::tag_line("ARTIST"@, h.artist);
    let t3 = crate::generator::tag_line("MP3"@, crate::structs::source_text(h.audio_path));
    let t4 = crate::generator::tag_line("BPM"@, h.bpm);
    let w5 = header_tail_text(h);
    let w4 = t4 + w5;
    let w3 = t3 + w4;
    let w2 = t2 + w3;
    assert(crate::generator::header_text(h) == t1 + w2);
    let r5 = w5 + rest;
    let r4 = t4 + r5;
    vstd::seq_lib::lemma_concat_associative(t4, w5, rest);
    let r3 = t3 + r4;
    vstd::seq_lib::lemma_concat_associative(t3, w4, rest);
    let r2 = t2 + r3;
    vstd::seq_lib::lemma_concat_associative(t2, w3, rest);
    vstd::seq_lib::lemma_concat_associative(t1, w2, rest);
    assert(crate::generator::header_text(h) + rest == t1 + r2);
    lemma_split_header_tail(h, rest);
    assert(split_lines(r5) == header_tail_lines(h) + split_lines(rest));
    lemma_split_tag_line("BPM"@, h.bpm, r5);
    let l4 = seq![tag_content("BPM"@, h.bpm)] + (header_tail_lines(h));
    vstd::seq_lib::lemma_concat_associative(
        seq![tag_content("BPM"@, h.bpm)],
        header_tail_lines(h),
        split_lines(rest),
    );
    assert(split_lines(r4) == l4 + split_lines(rest));
    lemma_split_tag_line("MP3"@, crate::structs::source_text(h.audio_path), r4);
    let l3 = seq![tag_content("MP3"@, crate::structs::source_text(h.audio_path))] + l4;
    vstd::seq_lib::lemma_concat_associative(
        seq![tag_content("MP3"@, crate::structs::source_text(h.audio_path))],
        l4,
        split_lines(rest),
    );
    assert(split_lines(r3) == l3 + split_lines(rest));
    lemma_split_tag_line("ARTIST"@, h.artist, r3);
    let l2 = seq![tag_content("ARTIST"@, h.artist)] + l3;
    vstd::seq_lib::lemma_concat_associative(
        seq![tag_content("ARTIST"@, h.artist)],
        l3,
        split_lines(rest),
    );
    assert(split_lines(r2) == l2 + split_lines(rest));
    lemma_split_tag_line("TITLE"@, h.title, r2);
    let l1 = seq![tag_content("TITLE"@, h.title)] + l2;
    vstd::seq_lib::lemma_concat_associative(
        seq![tag_content("TITLE"@, h.title)],
        l2,
        split_lines(rest),
    );
    assert(split_lines(crate::generator::header_text(h) + rest) == l1 + split_lines(rest));
    assert(header_lines(h) =~= l1);
}


// ------------------------------------------------------------------
// round trip: the generated body, line by line
// ------------------------------------------------------------------

/// No tag pattern occurs anywhere in the text.
pub open spec fn no_tag_in(t: Seq<char>) -> bool {
    crate::parser::first_tag_pos(t, 0) == t.len()
}

/// A timed note the round trip covers: values fit, the duration is not
/// negative, and the text is newline-free, does not end in a carriage
/// return, and holds no tag pattern.
pub open spec fn timed_ok(start: int, duration: int, pitch: int, text: Seq<char>) -> bool {
    &&& crate::numbers::fits_i32(start)
    &&& crate::numbers::fits_i32(duration)
    &&& duration >= 0
    &&& crate::numbers::fits_i32(pitch)
    &&& piece_ok(text)
    &&& no_tag_in(text)
}

/// A note the round trip covers.
pub open spec fn note_rt_ok(nv: NoteView) -> bool {
    match nv {
        NoteView::Regular { start, duration, pitch, text } => timed_ok(start, duration, pitch, text),
        NoteView::Golden { start, duration, pitch, text } => timed_ok(start, duration, pitch, text),
        NoteView::Freestyle { start, duration, pitch, text } => timed_ok(
            start,
            duration,
            pitch,
            text,
        ),
        NoteView::Rap { start, duration, pitch, text } => timed_ok(start, duration, pitch, text),
        NoteView::RapGolden { start, duration, pitch, text } => timed_ok(
            start,
            duration,
            pitch,
            text,
        ),
        NoteView::PlayerChange { player } => 1 <= player <= 3,
    }
}

/// Every note of the sequence is covered.
pub open spec fn notes_rt_ok(ns: Seq<NoteView>) -> bool {
    forall|j: int| 0 <= j < ns.len() ==> note_rt_ok(#[trigger] ns[j])
}

/// A line sequence the round trip covers: it is what the parser shapes it
/// as (a first line with start zero and no offset), minus lines whose
/// explicit break would not be re-emitted (a later start of zero).
pub open spec fn lines_rt_ok(ls: Seq<LineView>) -> bool {
    &&& ls.len() >= 1
    &&& ls[0].start == 0
    &&& ls[0].rel is None
    &&& forall|i: int|
        1 <= i < ls.len() ==> (#[trigger] ls[i]).start != 0 && crate::numbers::fits_i32(ls[i].start)
            && (ls[i].rel matches Some(r) ==> crate::numbers::fits_i32(r))
    &&& forall|i: int| 0 <= i < ls.len() ==> notes_rt_ok((#[trigger] ls[i]).notes)
}

/// The text of one note line, without its newline.
pub open spec fn note_content(nv: NoteView) -> Seq<char> {
    match nv {
        NoteView::Regular { start, duration, pitch, text } => seq![':'] + timed_body(
            start,
            duration,
            pitch,
            text,
        ),
        NoteView::Golden { start, duration, pitch, text } => seq!['*'] + timed_body(
            start,
            duration,
            pitch,
            text,
        ),
        NoteView::Freestyle { start, duration, pitch, text } => seq!['F'] + timed_body(
            start,
            duration,
            pitch,
            text,
        ),
        NoteView::Rap { start, duration, pitch, text } => seq!['R'] + timed_body(
            start,
            duration,
            pitch,
            text,
        ),
        NoteView::RapGolden { start, duration, pitch, text } => seq!['G'] + timed_body(
            start,
            duration,
            pitch,
            text,
        ),
        NoteView::PlayerChange { player } => seq!['P'] + crate::numbers::int_str(player),
    }
}

/// The numbers and text of a timed note, without the newline.
pub open spec fn timed_body(s: int, d: int, p: int, t: Seq<char>) -> Seq<char> {
    seq![' '] + crate::numbers::int_str(s) + seq![' '] + crate::numbers::int_str(d) + seq![' ']
        + crate::numbers::int_str(p) + seq![' '] + t
}

/// The text of one break line, without its newline.
pub open spec fn break_content(l: LineView) -> Seq<char> {
    match l.rel {
        Some(r) => seq!['-', ' '] + crate::numbers::int_str(l.start) + seq![' ']
            + crate::numbers::int_str(r),
        None => seq!['-', ' '] + crate::numbers::int_str(l.start),
    }
}

/// A note line is its content and a newline.
pub proof fn lemma_note_text_line_content(nv: NoteView)
    ensures
        crate::generator::note_text_line(nv) == note_content(nv) + seq!['\n'],
{
    assert(crate::generator::note_text_line(nv) =~= note_content(nv) + seq!['\n']);
}

/// A break marker is its content and a newline.
pub proof fn lemma_break_part_content(l: LineView)
    requires
        l.start != 0,
    ensures
        crate::generator::break_part(l) == break_content(l) + seq!['\n'],
{
    assert(crate::generator::break_part(l) =~= break_content(l) + seq!['\n']);
}

/// The content of a covered note survives splitting.
pub proof fn lemma_note_content_piece_ok(nv: NoteView)
    requires
        note_rt_ok(nv),
    ensures
        piece_ok(note_content(nv)),
{
    let c = note_content(nv);
    match nv {
        NoteView::PlayerChange { player } => {
            lemma_int_str_chars(player);
            assert forall|i: int| 0 <= i < c.len() implies c[i] != '\n' by {
                if i >= 1 {
                    assert(c[i] == crate::numbers::int_str(player)[i - 1]);
                }
            }
            assert(c.last() == crate::numbers::int_str(player).last());
        },
        _ => {
            let s = match nv {
                NoteView::Regular { start, .. } => start,
                NoteView::Golden { start, .. } => start,
                NoteView::Freestyle { start, .. } => start,
                NoteView::Rap { start, .. } => start,
                NoteView::RapGolden { start, .. } => start,
                NoteView::PlayerChange { .. } => 0,
            };
            let d = match nv {
                NoteView::Regular { duration, .. } => duration,
                NoteView::Golden { duration, .. } => duration,
                NoteView::Freestyle { duration, .. } => duration,
                NoteView::Rap { duration, .. } => duration,
                NoteView::RapGolden { duration, .. } => duration,
                NoteView::PlayerChange { .. } => 0,
            };
            let p = match nv {
                NoteView::Regular { pitch, .. } => pitch,
                NoteView::Golden { pitch, .. } => pitch,
                NoteView::Freestyle { pitch, .. } => pitch,
                NoteView::Rap { pitch, .. } => pitch,
                NoteView::RapGolden { pitch, .. } => pitch,
                NoteView::PlayerChange { .. } => 0,
            };
            let t = match nv {
                NoteView::Regular { text, .. } => text,
                NoteView::Golden { text, .. } => text,
                NoteView::Freestyle { text, .. } => text,
                NoteView::Rap { text, .. } => text,
                NoteView::RapGolden { text, .. } => text,
                NoteView::PlayerChange { .. } => Seq::empty(),
            };
            lemma_int_str_chars(s);
            lemma_int_str_chars(d);
            lemma_int_str_chars(p);
            let b = timed_body(s, d, p, t);
            assert(c =~= seq![c[0]] + b);
            let i1 = crate::numbers::int_str(s);
            let i2 = crate::numbers::int_str(d);
            let i3 = crate::numbers::int_str(p);
            assert forall|i: int| 0 <= i < b.len() implies b[i] != '\n' by {
                if 1 <= i < 1 + i1.len() {
                    assert(b[i] == i1[i - 1]);
                } else if 2 + i1.len() <= i < 2 + i1.len() + i2.len() {
                    assert(b[i] == i2[i - 2 - i1.len()]);
                } else if 3 + i1.len() + i2.len() <= i < 3 + i1.len() + i2.len() + i3.len() {
                    assert(b[i] == i3[i - 3 - i1.len() - i2.len()]);
                } else if i >= 4 + i1.len() + i2.len() + i3.len() {
                    assert(b[i] == t[i - 4 - i1.len() - i2.len() - i3.len()]);
                }
            }
            if t.len() > 0 {
                assert(b.last() == t.last());
            } else {
                assert(b.last() == ' ');
            }
            assert(c.last() == b.last());
        },
    }
}

/// The content of a covered break marker survives splitting.
pub proof fn lemma_break_content_piece_ok(l: LineView)
    ensures
        piece_ok(break_content(l)),
{
    let c = break_content(l);
    let i1 = crate::numbers::int_str(l.start);
    lemma_int_str_chars(l.start);
    match l.rel {
        Some(r) => {
            let i2 = crate::numbers::int_str(r);
            lemma_int_str_chars(r);
            assert forall|i: int| 0 <= i < c.len() implies c[i] != '\n' by {
                if 2 <= i < 2 + i1.len() {
                    assert(c[i] == i1[i - 2]);
                } else if i >= 3 + i1.len() {
                    assert(c[i] == i2[i - 3 - i1.len()]);
                }
            }
            assert(c.last() == i2.last());
        },
        None => {
            assert forall|i: int| 0 <= i < c.len() implies c[i] != '\n' by {
                if 2 <= i < 2 + i1.len() {
                    assert(c[i] == i1[i - 2]);
                }
            }
            assert(c.last() == i1.last());
        },
    }
}

/// The lines the notes of one line contribute.
pub open spec fn note_lines_of(ns: Seq<NoteView>) -> Seq<Seq<char>> {
    Seq::new(ns.len(), |j: int| note_content(ns[j]))
}

/// The lines one song line contributes: its break marker when its start is
/// nonzero, then its notes.
pub open spec fn block_lines(l: LineView) -> Seq<Seq<char>> {
    if l.start != 0 {
        seq![break_content(l)] + note_lines_of(l.notes)
    } else {
        note_lines_of(l.notes)
    }
}

/// The body lines from song line `k` on, ending in the terminator line.
pub open spec fn blocks_from(ls: Seq<LineView>, k: int) -> Seq<Seq<char>>
    decreases ls.len() - k,
{
    if k < 0 || k >= ls.len() {
        seq![seq!['E']]
    } else {
        block_lines(ls[k]) + blocks_from(ls, k + 1)
    }
}

/// The note text taken apart at its first note.
pub proof fn lemma_notes_text_first(ns: Seq<NoteView>)
    requires
        ns.len() > 0,
    ensures
        crate::generator::notes_text(ns) == crate::generator::note_text_line(ns[0])
            + crate::generator::notes_text(ns.drop_first()),
    decreases ns.len(),
{
    if ns.len() == 1 {
        assert(ns.drop_last() =~= Seq::<NoteView>::empty());
        assert(ns.drop_first() =~= Seq::<NoteView>::empty());
        assert(ns.last() == ns[0]);
        assert(crate::generator::notes_text(ns) =~= crate::generator::note_text_line(ns[0])
            + crate::generator::notes_text(ns.drop_first()));
    } else {
        let dl = ns.drop_last();
        lemma_notes_text_first(dl);
        assert(dl[0] == ns[0]);
        assert(ns.drop_first().drop_last() =~= dl.drop_first());
        assert(ns.drop_first().last() == ns.last());
        assert(crate::generator::notes_text(ns.drop_first()) == crate::generator::notes_text(
            dl.drop_first(),
        ) + crate::generator::note_text_line(ns.last()));
        assert(crate::generator::notes_text(ns) =~= crate::generator::note_text_line(ns[0])
            + crate::generator::notes_text(ns.drop_first()));
    }
}

/// The body text taken apart at its first line.
pub proof fn lemma_lines_text_first(ls: Seq<LineView>)
    requires
        ls.len() > 0,
    ensures
        crate::generator::lines_text(ls) == crate::generator::line_text(ls[0])
            + crate::generator::lines_text(ls.drop_first()),
    decreases ls.len(),
{
    if ls.len() == 1 {
        assert(ls.drop_last() =~= Seq::<LineView>::empty());
        assert(ls.drop_first() =~= Seq::<LineView>::empty());
        assert(ls.last() == ls[0]);
        assert(crate::generator::lines_text(ls) =~= crate::generator::line_text(ls[0])
            + crate::generator::lines_text(ls.drop_first()));
    } else {
        let dl = ls.drop_last();
        lemma_lines_text_first(dl);
        assert(dl[0] == ls[0]);
        assert(ls.drop_first().drop_last() =~= dl.drop_first());
        assert(ls.drop_first().last() == ls.last());
        assert(crate::generator::lines_text(ls.drop_first()) == crate::generator::lines_text(
            dl.drop_first(),
        ) + crate::generator::line_text(ls.last()));
        assert(crate::generator::lines_text(ls) =~= crate::generator::line_text(ls[0])
            + crate::generator::lines_text(ls.drop_first()));
    }
}

/// Splitting the notes of one line.
pub proof fn lemma_split_notes(ns: Seq<NoteView>, rest: Seq<char>)
    requires
        notes_rt_ok(ns),
    ensures
        split_lines(crate::generator::notes_text(ns) + rest) == note_lines_of(ns) + split_lines(
            rest,
        ),
    decreases ns.len(),
{
    if ns.len() == 0 {
        assert(crate::generator::notes_text(ns) + rest =~= rest);
        assert(note_lines_of(ns) + split_lines(rest) =~= split_lines(rest));
    } else {
        lemma_notes_text_first(ns);
        lemma_note_text_line_content(ns[0]);
        let tail = crate::generator::notes_text(ns.drop_first()) + rest;
        vstd::seq_lib::lemma_concat_associative(
            crate::generator::note_text_line(ns[0]),
            crate::generator::notes_text(ns.drop_first()),
            rest,
        );
        assert(crate::generator::notes_text(ns) + rest == crate::generator::note_text_line(ns[0])
            + tail);
        assert(note_content(ns[0]) + seq!['\n'] + tail =~= crate::generator::note_text_line(ns[0])
            + tail);
        lemma_note_content_piece_ok(ns[0]);
        lemma_split_one(note_content(ns[0]), tail);
        assert forall|j: int| 0 <= j < ns.drop_first().len() implies note_rt_ok(
            #[trigger] ns.drop_first()[j],
        ) by {
            assert(ns.drop_first()[j] == ns[j + 1]);
        }
        lemma_split_notes(ns.drop_first(), rest);
        assert forall|j: int|
            0 <= j < note_lines_of(ns).len() implies note_lines_of(ns)[j] == (seq![
            note_content(ns[0]),
        ] + note_lines_of(ns.drop_first()))[j] by {
            if j > 0 {
                assert(ns.drop_first()[j - 1] == ns[j]);
            }
        }
        assert(note_lines_of(ns) =~= seq![note_content(ns[0])] + note_lines_of(ns.drop_first()));
        vstd::seq_lib::lemma_concat_associative(
            seq![note_content(ns[0])],
            note_lines_of(ns.drop_first()),
            split_lines(rest),
        );
    }
}

/// Splitting one song line: its break marker, then its notes.
pub proof fn lemma_split_block(l: LineView, rest: Seq<char>)
    requires
        notes_rt_ok(l.notes),
        l.start != 0 ==> crate::numbers::fits_i32(l.start),
    ensures
        split_lines(crate::generator::line_text(l) + rest) == block_lines(l) + split_lines(rest),
{
    if l.start != 0 {
        lemma_break_part_content(l);
        let tail = crate::generator::notes_text(l.notes) + rest;
        vstd::seq_lib::lemma_concat_associative(
            crate::generator::break_part(l),
            crate::generator::notes_text(l.notes),
            rest,
        );
        assert(crate::generator::line_text(l) + rest == crate::generator::break_part(l) + tail);
        assert(break_content(l) + seq!['\n'] + tail =~= crate::generator::break_part(l) + tail);
        lemma_break_content_piece_ok(l);
        lemma_split_one(break_content(l), tail);
        lemma_split_notes(l.notes, rest);
        vstd::seq_lib::lemma_concat_associative(
            seq![break_content(l)],
            note_lines_of(l.notes),
            split_lines(rest),
        );
    } else {
        assert(crate::generator::line_text(l) + rest =~= crate::generator::notes_text(l.notes)
            + rest);
        lemma_split_notes(l.notes, rest);
    }
}

/// Splitting the whole generated body, from song line `k` on.
pub proof fn lemma_split_body(ls: Seq<LineView>, k: int)
    requires
        0 <= k <= ls.len(),
        forall|i: int| 0 <= i < ls.len() ==> notes_rt_ok((#[trigger] ls[i]).notes),
        forall|i: int|
            0 <= i < ls.len() ==> ((#[trigger] ls[i]).start != 0 ==> crate::numbers::fits_i32(
                ls[i].start,
            )),
    ensures
        split_lines(crate::generator::lines_text(ls.skip(k)) + seq!['E']) == blocks_from(ls, k),
    decreases ls.len() - k,
{
    if k == ls.len() {
        assert(ls.skip(k) =~= Seq::<LineView>::empty());
        assert(crate::generator::lines_text(ls.skip(k)) + seq!['E'] =~= seq!['E']);
        lemma_split_terminator();
    } else {
        let tl = ls.skip(k);
        lemma_lines_text_first(tl);
        assert(tl[0] == ls[k]);
        assert(tl.drop_first() =~= ls.skip(k + 1));
        vstd::seq_lib::lemma_concat_associative(
            crate::generator::line_text(ls[k]),
            crate::generator::lines_text(ls.skip(k + 1)),
            seq!['E'],
        );
        assert(crate::generator::lines_text(tl) + seq!['E'] == crate::generator::line_text(ls[k])
            + (crate::generator::lines_text(ls.skip(k + 1)) + seq!['E']));
        lemma_split_body(ls, k + 1);
        lemma_split_block(ls[k], crate::generator::lines_text(ls.skip(k + 1)) + seq!['E']);
    }
}



/// In a line whose characters from `a` on spell the decimal text of `v`,
/// followed by the end of the line or a non-digit other than a minus sign,
/// the integer scan at `a` finds exactly that text.
pub proof fn lemma_int_at(c: Seq<char>, a: int, v: int)
    requires
        0 <= a,
        a + crate::numbers::int_str(v).len() <= c.len(),
        forall|k: int|
            0 <= k < crate::numbers::int_str(v).len() ==> c[a + k] == #[trigger] crate::numbers::int_str(
                v,
            )[k],
        a + crate::numbers::int_str(v).len() < c.len() ==> !crate::text::is_digit(
            c[a + crate::numbers::int_str(v).len()],
        ),
    ensures
        crate::parser::has_int(c, a),
        crate::parser::int_end(c, a) == a + crate::numbers::int_str(v).len(),
        c.subrange(a, a + crate::numbers::int_str(v).len()) =~= crate::numbers::int_str(v),
{
    lemma_int_str_chars(v);
    let iv = crate::numbers::int_str(v);
    assert(c[a] == iv[0]);
    if c[a] == '-' {
        assert(iv.len() >= 2);
        assert forall|k: int| a + 1 <= k < a + iv.len() implies crate::text::is_digit(c[k]) by {
            assert(c[k] == iv[k - a]);
        }
        crate::text::lemma_digit_run_at(c, a + 1, a + iv.len());
    } else {
        assert(crate::text::is_digit(c[a]));
        assert forall|k: int| a <= k < a + iv.len() implies crate::text::is_digit(c[k]) by {
            if k > a {
                assert(c[k] == iv[k - a]);
            }
        }
        crate::text::lemma_digit_run_at(c, a, a + iv.len());
    }
    assert(c.subrange(a, a + iv.len()) =~= iv);
}

/// A generated timed note line scans back to its own pieces, and one step
/// of the line grammar turns it back into the note.
#[verifier::rlimit(100)]
pub proof fn lemma_note_line_scan(nv: NoteView)
    requires
        note_rt_ok(nv),
        !(nv is PlayerChange),
    ensures
        note_content(nv).len() > 0,
        note_content(nv)[0] != '#',
        note_content(nv)[0] != 'B',
        note_content(nv)[0] != 'E',
        note_scan(note_content(nv)) is Some,
        forall|ln: int|
            #[trigger] note_step(note_scan(note_content(nv))->0, ln) == Ok::<NoteView, ErrView>(nv),
{
    let c = note_content(nv);
    let sym = c[0];
    let s = match nv {
        NoteView::Regular { start, .. } => start,
        NoteView::Golden { start, .. } => start,
        NoteView::Freestyle { start, .. } => start,
        NoteView::Rap { start, .. } => start,
        NoteView::RapGolden { start, .. } => start,
        NoteView::PlayerChange { .. } => 0,
    };
    let d = match nv {
        NoteView::Regular { duration, .. } => duration,
        NoteView::Golden { duration, .. } => duration,
        NoteView::Freestyle { duration, .. } => duration,
        NoteView::Rap { duration, .. } => duration,
        NoteView::RapGolden { duration, .. } => duration,
        NoteView::PlayerChange { .. } => 0,
    };
    let p = match nv {
        NoteView::Regular { pitch, .. } => pitch,
        NoteView::Golden { pitch, .. } => pitch,
        NoteView::Freestyle { pitch, .. } => pitch,
        NoteView::Rap { pitch, .. } => pitch,
        NoteView::RapGolden { pitch, .. } => pitch,
        NoteView::PlayerChange { .. } => 0,
    };
    let t = match nv {
        NoteView::Regular { text, .. } => text,
        NoteView::Golden { text, .. } => text,
        NoteView::Freestyle { text, .. } => text,
        NoteView::Rap { text, .. } => text,
        NoteView::RapGolden { text, .. } => text,
        NoteView::PlayerChange { .. } => Seq::empty(),
    };
    let i1 = crate::numbers::int_str(s);
    let i2 = crate::numbers::int_str(d);
    let i3 = crate::numbers::int_str(p);
    lemma_int_str_chars(s);
    lemma_int_str_chars(d);
    lemma_int_str_chars(p);
    let b1 = 2 + i1.len() as int;
    let a2 = b1 + 1;
    let b2 = a2 + i2.len() as int;
    let a3 = b2 + 1;
    let b3 = a3 + i3.len() as int;
    assert(c =~= seq![sym] + timed_body(s, d, p, t));
    assert(c.len() == b3 + 1 + t.len());
    assert(c[1] == ' ');
    assert forall|k: int| 0 <= k < i1.len() implies c[2 + k] == #[trigger] i1[k] by {}
    assert(c[b1] == ' ');
    assert forall|k: int| 0 <= k < i2.len() implies c[a2 + k] == #[trigger] i2[k] by {}
    assert(c[b2] == ' ');
    assert forall|k: int| 0 <= k < i3.len() implies c[a3 + k] == #[trigger] i3[k] by {}
    assert(c[b3] == ' ');
    assert forall|k: int| 0 <= k < t.len() implies c[b3 + 1 + k] == #[trigger] t[k] by {}
    assert(!crate::text::is_space(c[2]));
    crate::text::lemma_space_run_at(c, 1, 2);
    lemma_int_at(c, 2, s);
    assert(crate::text::is_space(c[b1]));
    assert(!crate::text::is_space(c[a2]));
    crate::text::lemma_space_run_at(c, b1, a2);
    lemma_int_at(c, a2, d);
    assert(crate::text::is_space(c[b2]));
    assert(!crate::text::is_space(c[a3]));
    crate::text::lemma_space_run_at(c, b2, a3);
    lemma_int_at(c, a3, p);
    assert(crate::text::is_space(c[b3]));
    assert(c.subrange(b3 + 1, c.len() as int) =~= t);
    let m = crate::parser::NoteMatch { sym: sym, s1: i1, s2: i2, s3: i3, text: t };
    assert(note_scan(c) == Some(m));
    crate::numbers::lemma_int_str_roundtrip(s);
    crate::numbers::lemma_int_str_roundtrip(d);
    crate::numbers::lemma_int_str_roundtrip(p);
    assert forall|ln: int| #[trigger] note_step(m, ln) == Ok::<NoteView, ErrView>(nv) by {}
}

/// A generated player change line is read back as a player change, and as
/// nothing else.
pub proof fn lemma_player_line_scan(player: int)
    requires
        1 <= player <= 3,
    ensures
        note_content(NoteView::PlayerChange { player }).len() > 0,
        note_content(NoteView::PlayerChange { player })[0] == 'P',
        note_scan(note_content(NoteView::PlayerChange { player })) is None,
        break_scan(note_content(NoteView::PlayerChange { player })) is None,
        rel_scan(note_content(NoteView::PlayerChange { player })) is None,
        duet_scan(note_content(NoteView::PlayerChange { player })) == Some(
            crate::numbers::int_str(player),
        ),
{
    let c = note_content(NoteView::PlayerChange { player });
    let iv = crate::numbers::int_str(player);
    lemma_int_str_chars(player);
    assert(c.len() == 1 + iv.len());
    assert(c[0] == 'P');
    assert forall|k: int| 0 <= k < iv.len() implies c[1 + k] == #[trigger] iv[k] by {}
    assert(!crate::text::is_space(c[1]));
    crate::text::lemma_space_run_at(c, 1, 1);
    lemma_int_at(c, 1, player);
    assert(crate::parser::int_end(c, 1) == c.len());
    assert(note_scan(c) is None);
    assert(duet_scan(c) == Some(c.subrange(1, c.len() as int)));
}

/// A generated break marker line is read back as exactly the break it came
/// from: as an absolute break without an offset, as a relative break with
/// one, and never as a note.
pub proof fn lemma_break_line_scan(l: LineView)
    requires
        l.start != 0,
        crate::numbers::fits_i32(l.start),
        l.rel matches Some(r) ==> crate::numbers::fits_i32(r),
    ensures
        break_content(l).len() > 0,
        break_content(l)[0] == '-',
        note_scan(break_content(l)) is None,
        l.rel is None ==> break_scan(break_content(l)) == Some(crate::numbers::int_str(l.start)),
        l.rel matches Some(r) ==> break_scan(break_content(l)) is None && rel_scan(
            break_content(l),
        ) == Some((crate::numbers::int_str(l.start), crate::numbers::int_str(r))),
{
    let c = break_content(l);
    let i1 = crate::numbers::int_str(l.start);
    lemma_int_str_chars(l.start);
    let b1 = 2 + i1.len() as int;
    match l.rel {
        None => {
            assert(c.len() == b1);
            assert(c[0] == '-');
            assert(c[1] == ' ');
            assert forall|k: int| 0 <= k < i1.len() implies c[2 + k] == #[trigger] i1[k] by {}
            assert(!crate::text::is_space(c[2]));
            crate::text::lemma_space_run_at(c, 1, 2);
            lemma_int_at(c, 2, l.start);
            assert(crate::parser::int_end(c, 2) == c.len());
            assert(note_scan(c) is None);
            crate::text::lemma_space_run_at(c, c.len() as int, c.len() as int);
            assert(break_scan(c) == Some(c.subrange(2, c.len() as int)));
        },
        Some(r) => {
            let i2 = crate::numbers::int_str(r);
            lemma_int_str_chars(r);
            let a2 = b1 + 1;
            assert(c.len() == a2 + i2.len());
            assert(c[0] == '-');
            assert(c[1] == ' ');
            assert forall|k: int| 0 <= k < i1.len() implies c[2 + k] == #[trigger] i1[k] by {}
            assert(c[b1] == ' ');
            assert forall|k: int| 0 <= k < i2.len() implies c[a2 + k] == #[trigger] i2[k] by {}
            assert(!crate::text::is_space(c[2]));
            crate::text::lemma_space_run_at(c, 1, 2);
            lemma_int_at(c, 2, l.start);
            assert(crate::text::is_space(c[b1]));
            assert(!crate::text::is_space(c[a2]));
            crate::text::lemma_space_run_at(c, b1, a2);
            lemma_int_at(c, a2, r);
            assert(crate::parser::int_end(c, a2) == c.len());
            assert(note_scan(c) is None);
            assert(break_scan(c) is None);
            assert(rel_scan(c) == Some(
                (c.subrange(2, b1), c.subrange(a2, c.len() as int)),
            ));
        },
    }
}


/// The note lines of one song line, from note `j` on.
pub open spec fn note_lines_from(ns: Seq<NoteView>, j: int) -> Seq<Seq<char>> {
    Seq::new((ns.len() - j) as nat, |m: int| note_content(ns[j + m]))
}

pub proof fn lemma_blocks_from_len(ls: Seq<LineView>, k: int)
    ensures
        blocks_from(ls, k).len() >= 1,
    decreases ls.len() - k,
{
    if 0 <= k < ls.len() {
        lemma_blocks_from_len(ls, k + 1);
    }
}

/// Folding the line grammar over the generated body: from the middle of
/// song line `k`, with its first `j` notes already gathered, the walk ends
/// with exactly the song's lines.
#[verifier::rlimit(100)]
pub proof fn lemma_parse_body(all: Seq<Seq<char>>, i: int, ls: Seq<LineView>, k: int, j: int)
    requires
        lines_rt_ok(ls),
        0 <= i <= all.len(),
        0 <= k < ls.len(),
        0 <= j <= ls[k].notes.len(),
        all.skip(i) == note_lines_from(ls[k].notes, j) + blocks_from(ls, k + 1),
    ensures
        parse_lines_from(
            all,
            i,
            ls.take(k),
            LineView { start: ls[k].start, rel: ls[k].rel, notes: ls[k].notes.take(j) },
        ) == Ok::<Seq<LineView>, ErrView>(ls),
    decreases ls.len() - k, ls[k].notes.len() - j,
{
    let ns = ls[k].notes;
    let done = ls.take(k);
    let cur = LineView { start: ls[k].start, rel: ls[k].rel, notes: ns.take(j) };
    lemma_blocks_from_len(ls, k + 1);
    assert(all.skip(i).len() >= 1);
    assert(i < all.len());
    let line = all[i];
    assert(line == all.skip(i)[0]);
    assert(notes_rt_ok(ns));
    if j < ns.len() {
        let nv = ns[j];
        assert(note_rt_ok(nv));
        assert(line == note_lines_from(ns, j)[0]);
        assert(line == note_content(nv));
        assert(all.skip(i + 1) =~= note_lines_from(ns, j + 1) + blocks_from(ls, k + 1)) by {
            assert forall|m: int|
                0 <= m < all.skip(i + 1).len() implies #[trigger] all.skip(i + 1)[m]
                == (note_lines_from(ns, j + 1) + blocks_from(ls, k + 1))[m] by {
                assert(all.skip(i + 1)[m] == all.skip(i)[m + 1]);
            }
        }
        lemma_parse_body(all, i + 1, ls, k, j + 1);
        assert(ns.take(j).push(nv) =~= ns.take(j + 1));
        match nv {
            NoteView::PlayerChange { player } => {
                lemma_player_line_scan(player);
                crate::numbers::lemma_int_str_roundtrip(player);
                assert(parse_lines_from(all, i, done, cur) == parse_lines_from(
                    all,
                    i + 1,
                    done,
                    LineView { notes: cur.notes.push(NoteView::PlayerChange { player }), ..cur },
                ));
            },
            _ => {
                lemma_note_line_scan(nv);
                assert(note_step(note_scan(line)->0, i + 1) == Ok::<NoteView, ErrView>(nv));
            },
        }
    } else {
        assert(note_lines_from(ns, j).len() == 0);
        assert(line == blocks_from(ls, k + 1)[0]);
        assert(cur.notes =~= ns);
        assert(cur == ls[k]);
        if k + 1 < ls.len() {
            let l2 = ls[k + 1];
            assert(l2.start != 0 && crate::numbers::fits_i32(l2.start));
            assert(blocks_from(ls, k + 1) == block_lines(l2) + blocks_from(ls, k + 2));
            assert(line == break_content(l2));
            lemma_break_line_scan(l2);
            crate::numbers::lemma_int_str_roundtrip(l2.start);
            assert(all.skip(i + 1) =~= note_lines_from(l2.notes, 0) + blocks_from(ls, k + 2)) by {
                assert forall|m: int|
                    0 <= m < all.skip(i + 1).len() implies #[trigger] all.skip(i + 1)[m]
                    == (note_lines_from(l2.notes, 0) + blocks_from(ls, k + 2))[m] by {
                    assert(all.skip(i + 1)[m] == all.skip(i)[m + 1]);
                    assert(all.skip(i)[m + 1] == (block_lines(l2) + blocks_from(ls, k + 2))[m + 1]);
                }
            }
            lemma_parse_body(all, i + 1, ls, k + 1, 0);
            assert(ls.take(k).push(ls[k]) =~= ls.take(k + 1));
            assert(l2.notes.take(0) =~= Seq::<NoteView>::empty());
            match l2.rel {
                None => {
                    assert(parse_lines_from(all, i, done, cur) == parse_lines_from(
                        all,
                        i + 1,
                        done.push(cur),
                        LineView { start: l2.start, rel: None, notes: Seq::empty() },
                    ));
                },
                Some(r) => {
                    crate::numbers::lemma_int_str_roundtrip(r);
                    assert(parse_lines_from(all, i, done, cur) == parse_lines_from(
                        all,
                        i + 1,
                        done.push(cur),
                        LineView { start: l2.start, rel: Some(r), notes: Seq::empty() },
                    ));
                },
            }
        } else {
            assert(blocks_from(ls, k + 1) == seq![seq!['E']]);
            assert(line =~= seq!['E']);
            assert(line.len() == 1 && line[0] == 'E');
            assert(ls.take(k).push(ls[k]) =~= ls);
        }
    }
}

/// Every line of the list is nonempty and starts with a number sign.
pub open spec fn all_hash(lines: Seq<Seq<char>>) -> bool {
    forall|m: int| 0 <= m < lines.len() ==> (#[trigger] lines[m]).len() > 0 && lines[m][0] == '#'
}

pub proof fn lemma_all_hash_concat(a: Seq<Seq<char>>, b: Seq<Seq<char>>)
    requires
        all_hash(a),
        all_hash(b),
    ensures
        all_hash(a + b),
{
    assert forall|m: int|
        0 <= m < (a + b).len() implies ((a + b)[m]).len() > 0 && (a + b)[m][0] == '#' by {
        if m < a.len() {
            assert((a + b)[m] == a[m]);
        } else {
            assert((a + b)[m] == b[m - a.len()]);
        }
    }
}

/// Every generated header line starts with a number sign.
pub proof fn lemma_header_lines_hash(h: crate::structs::HeaderView)
    ensures
        all_hash(header_lines(h)),
{
    assert(all_hash(seq![
        tag_content("TITLE"@, h.title),
        tag_content("ARTIST"@, h.artist),
        tag_content("MP3"@, crate::structs::source_text(h.audio_path)),
        tag_content("BPM"@, h.bpm),
    ]));
    assert(all_hash(opt_lines("GAP"@, h.gap)));
    assert(all_hash(opt_source_lines("COVER"@, h.cover_path)));
    assert(all_hash(opt_source_lines("BACKGROUND"@, h.background_path)));
    assert(all_hash(opt_source_lines("VIDEO"@, h.video_path)));
    assert(all_hash(opt_lines("VIDEOGAP"@, h.video_gap)));
    assert(all_hash(opt_lines("GENRE"@, h.genre)));
    assert(all_hash(opt_lines("EDITION"@, h.edition)));
    assert(all_hash(opt_lines("LANGUAGE"@, h.language)));
    assert(all_hash(year_lines(h.year)));
    assert(all_hash(relative_lines(h.relative)));
    assert(all_hash(unknown_opt_lines(h.unknown)));
    lemma_all_hash_concat(relative_lines(h.relative), unknown_opt_lines(h.unknown));
    lemma_all_hash_concat(
        year_lines(h.year),
        relative_lines(h.relative) + unknown_opt_lines(h.unknown),
    );
    let w12 = year_lines(h.year) + (relative_lines(h.relative) + unknown_opt_lines(h.unknown));
    lemma_all_hash_concat(opt_lines("LANGUAGE"@, h.language), w12);
    let w11 = opt_lines("LANGUAGE"@, h.language) + w12;
    lemma_all_hash_concat(opt_lines("EDITION"@, h.edition), w11);
    let w10 = opt_lines("EDITION"@, h.edition) + w11;
    lemma_all_hash_concat(opt_lines("GENRE"@, h.genre), w10);
    let w9 = opt_lines("GENRE"@, h.genre) + w10;
    lemma_all_hash_concat(opt_lines("VIDEOGAP"@, h.video_gap), w9);
    let w8 = opt_lines("VIDEOGAP"@, h.video_gap) + w9;
    lemma_all_hash_concat(opt_source_lines("VIDEO"@, h.video_path), w8);
    let w7 = opt_source_lines("VIDEO"@, h.video_path) + w8;
    lemma_all_hash_concat(opt_source_lines("BACKGROUND"@, h.background_path), w7);
    let w6 = opt_source_lines("BACKGROUND"@, h.background_path) + w7;
    lemma_all_hash_concat(opt_source_lines("COVER"@, h.cover_path), w6);
    let w5 = opt_source_lines("COVER"@, h.cover_path) + w6;
    lemma_all_hash_concat(opt_lines("GAP"@, h.gap), w5);
    let w4 = opt_lines("GAP"@, h.gap) + w5;
    assert(header_tail_lines(h) =~= w4);
    lemma_all_hash_concat(
        seq![
            tag_content("TITLE"@, h.title),
            tag_content("ARTIST"@, h.artist),
            tag_content("MP3"@, crate::structs::source_text(h.audio_path)),
            tag_content("BPM"@, h.bpm),
        ],
        header_tail_lines(h),
    );
}

/// The line grammar skips the header lines without changing its state.
pub proof fn lemma_skip_hash_lines(
    all: Seq<Seq<char>>,
    i: int,
    n: int,
    done: Seq<LineView>,
    cur: LineView,
)
    requires
        0 <= i <= n <= all.len(),
        forall|m: int| i <= m < n ==> (#[trigger] all[m]).len() > 0 && all[m][0] == '#',
    ensures
        parse_lines_from(all, i, done, cur) == parse_lines_from(all, n, done, cur),
    decreases n - i,
{
    if i < n {
        lemma_skip_hash_lines(all, i + 1, n, done, cur);
    }
}

/// Round trip, body half: parsing the generated text of a covered header
/// and covered lines returns exactly the lines.
pub proof fn lemma_round_trip_lines(h: crate::structs::HeaderView, ls: Seq<LineView>)
    requires
        header_rt_ok(h),
        lines_rt_ok(ls),
    ensures
        spec_parse_lines(crate::generator::spec_generate(h, ls)) == Ok::<Seq<LineView>, ErrView>(
            ls,
        ),
{
    let txt = crate::generator::spec_generate(h, ls);
    let body = crate::generator::lines_text(ls) + seq!['E'];
    vstd::seq_lib::lemma_concat_associative(
        crate::generator::header_text(h),
        crate::generator::lines_text(ls),
        seq!['E'],
    );
    assert(txt == crate::generator::header_text(h) + body);
    lemma_split_header(h, body);
    assert(ls.skip(0) =~= ls);
    assert forall|i: int|
        0 <= i < ls.len() implies ((#[trigger] ls[i]).start != 0 ==> crate::numbers::fits_i32(
        ls[i].start,
    )) by {
        if i >= 1 {
            assert(ls[i].start != 0);
        }
    }
    lemma_split_body(ls, 0);
    let all = split_lines(txt);
    assert(all == header_lines(h) + blocks_from(ls, 0));
    let hn = header_lines(h).len() as int;
    lemma_header_lines_hash(h);
    assert forall|m: int| 0 <= m < hn implies (#[trigger] all[m]).len() > 0 && all[m][0]
        == '#' by {
        assert(all[m] == header_lines(h)[m]);
    }
    lemma_blocks_from_len(ls, 0);
    lemma_skip_hash_lines(all, 0, hn, Seq::empty(), crate::parser::first_line_view());
    assert(block_lines(ls[0]) == note_lines_of(ls[0].notes));
    assert(all.skip(hn) =~= note_lines_from(ls[0].notes, 0) + blocks_from(ls, 1)) by {
        assert forall|m: int|
            0 <= m < all.skip(hn).len() implies #[trigger] all.skip(hn)[m] == (note_lines_from(
            ls[0].notes,
            0,
        ) + blocks_from(ls, 1))[m] by {
            assert(all.skip(hn)[m] == blocks_from(ls, 0)[m]);
        }
    }
    lemma_parse_body(all, hn, ls, 0, 0);
    assert(ls.take(0) =~= Seq::<LineView>::empty());
    assert(ls[0].notes.take(0) =~= Seq::<NoteView>::empty());
    assert(crate::parser::first_line_view() == LineView {
        start: ls[0].start,
        rel: ls[0].rel,
        notes: ls[0].notes.take(0),
    });
}


// ------------------------------------------------------------------
// round trip: folding the header grammar over the generated lines
// ------------------------------------------------------------------

/// The accumulator that holds exactly the fields of a header.
pub open spec fn acc_of_header(h: crate::structs::HeaderView) -> HeaderAcc {
    HeaderAcc {
        title: Some(h.title),
        artist: Some(h.artist),
        bpm: Some(h.bpm),
        audio: Some(h.audio_path),
        gap: h.gap,
        cover: h.cover_path,
        background: h.background_path,
        video: h.video_path,
        video_gap: h.video_gap,
        genre: h.genre,
        edition: h.edition,
        language: h.language,
        year: h.year,
        relative: h.relative,
        unknown: h.unknown,
    }
}

/// Peeling the first line off a suffix of the line list.
pub proof fn lemma_skip_peel(all: Seq<Seq<char>>, i: int, c: Seq<char>, rem2: Seq<Seq<char>>)
    requires
        0 <= i <= all.len(),
        all.skip(i) == seq![c] + rem2,
    ensures
        i < all.len(),
        all[i] == c,
        all.skip(i + 1) == rem2,
{
    assert(all.skip(i).len() == all.len() - i);
    assert(all[i] == all.skip(i)[0]);
    assert forall|m: int| 0 <= m < rem2.len() implies #[trigger] all.skip(i + 1)[m] == rem2[m] by {
        assert(all.skip(i + 1)[m] == all.skip(i)[m + 1]);
    }
    assert(all.skip(i + 1) =~= rem2);
}

/// One generated tag line advances the header fold by one accepted step.
pub proof fn lemma_header_tag_step(
    all: Seq<Seq<char>>,
    i: int,
    acc: HeaderAcc,
    name: Seq<char>,
    value: Seq<char>,
    acc2: HeaderAcc,
)
    requires
        0 <= i < all.len(),
        all[i] == tag_content(name, value),
        name_ok(name),
        value.len() > 0,
        header_step(acc, name, value, i + 1) == Ok::<HeaderAcc, ErrView>(acc2),
    ensures
        parse_header_from(all, i, acc) == parse_header_from(all, i + 1, acc2),
{
    lemma_find_tag_content(name, value);
}

/// The unknown lines from entry `q` on.
pub open spec fn unknown_lines_from(us: Seq<(Seq<char>, Seq<char>)>, q: int) -> Seq<Seq<char>> {
    Seq::new((us.len() - q) as nat, |m: int| tag_content(us[q + m].0, us[q + m].1))
}

/// Folding the header grammar over the generated unknown tags.
pub proof fn lemma_parse_unknown_fold(
    all: Seq<Seq<char>>,
    i: int,
    us: Seq<(Seq<char>, Seq<char>)>,
    q: int,
    acc: HeaderAcc,
    rest: Seq<Seq<char>>,
)
    requires
        unknown_ok(us),
        0 <= q <= us.len(),
        0 <= i <= all.len(),
        all.skip(i) == unknown_lines_from(us, q) + rest,
        rest.len() == 0 || find_tag(rest[0]) is None,
        acc.unknown == if q == 0 {
            Option::<Seq<(Seq<char>, Seq<char>)>>::None
        } else {
            Some(us.take(q))
        },
    ensures
        parse_header_from(all, i, acc) == Ok::<HeaderAcc, ErrView>(
            HeaderAcc { unknown: Some(us), ..acc },
        ),
    decreases us.len() - q,
{
    if q == us.len() {
        assert(unknown_lines_from(us, q).len() == 0);
        assert(all.skip(i) =~= rest);
        if rest.len() == 0 {
            assert(i == all.len());
        } else {
            assert(all[i] == all.skip(i)[0]);
            assert(all[i] == rest[0]);
        }
        assert(us.take(q) =~= us);
        assert(acc == HeaderAcc { unknown: Some(us), ..acc });
    } else {
        let pair = us[q];
        assert(unknown_entry_ok(pair));
        let rem2 = unknown_lines_from(us, q + 1) + rest;
        assert(all.skip(i) =~= seq![tag_content(pair.0, pair.1)] + rem2) by {
            assert forall|m: int|
                0 <= m < all.skip(i).len() implies #[trigger] all.skip(i)[m] == (seq![
                tag_content(pair.0, pair.1),
            ] + rem2)[m] by {
                assert(all.skip(i)[m] == (unknown_lines_from(us, q) + rest)[m]);
            }
        }
        lemma_skip_peel(all, i, tag_content(pair.0, pair.1), rem2);
        // the step accepts the tag as a fresh unknown
        let st = header_step(acc, pair.0, pair.1, i + 1);
        let acc2 = if q == 0 {
            HeaderAcc { unknown: Some(seq![pair]), ..acc }
        } else {
            HeaderAcc { unknown: Some(us.take(q).push(pair)), ..acc }
        };
        if q > 0 {
            assert(!unknown_has_key(us.take(q), pair.0)) by {
                if unknown_has_key(us.take(q), pair.0) {
                    let m = choose|m: int|
                        0 <= m < us.take(q).len() && (#[trigger] us.take(q)[m]).0 == pair.0;
                    assert(us[m].0 == us[q].0);
                }
            }
        }
        assert(st == Ok::<HeaderAcc, ErrView>(acc2));
        lemma_header_tag_step(all, i, acc, pair.0, pair.1, acc2);
        assert(acc2.unknown == Some(us.take(q + 1))) by {
            if q == 0 {
                assert(seq![pair] =~= us.take(1));
            } else {
                assert(us.take(q).push(pair) =~= us.take(q + 1));
            }
        }
        lemma_parse_unknown_fold(all, i + 1, us, q + 1, acc2, rest);
        assert(HeaderAcc { unknown: Some(us), ..acc2 } == HeaderAcc { unknown: Some(us), ..acc });
    }
}


/// The generated lines of the last optional tags and the unknown block.
pub open spec fn header_tail2_lines(h: crate::structs::HeaderView) -> Seq<Seq<char>> {
    opt_lines("EDITION"@, h.edition) + (opt_lines("LANGUAGE"@, h.language) + (year_lines(h.year)
        + (relative_lines(h.relative) + unknown_opt_lines(h.unknown))))
}

/// Folding the header grammar over the last optional tags and the unknown
/// block.
#[verifier::rlimit(100)]
pub proof fn lemma_parse_header_tail2_fold(
    all: Seq<Seq<char>>,
    i: int,
    h: crate::structs::HeaderView,
    acc: HeaderAcc,
    rest: Seq<Seq<char>>,
)
    requires
        header_rt_ok(h),
        0 <= i <= all.len(),
        all.skip(i) == header_tail2_lines(h) + rest,
        rest.len() == 0 || find_tag(rest[0]) is None,
        acc == (HeaderAcc {
            title: Some(h.title),
            artist: Some(h.artist),
            bpm: Some(h.bpm),
            audio: Some(h.audio_path),
            gap: h.gap,
            cover: h.cover_path,
            background: h.background_path,
            video: h.video_path,
            video_gap: h.video_gap,
            genre: h.genre,
            edition: None,
            language: None,
            year: None,
            relative: None,
            unknown: None,
        }),
    ensures
        parse_header_from(all, i, acc) == Ok::<HeaderAcc, ErrView>(acc_of_header(h)),
{
    lemma_names_ok();
    let s11 = unknown_opt_lines(h.unknown);
    let s10 = relative_lines(h.relative) + s11;
    let s9 = year_lines(h.year) + s10;
    let s8 = opt_lines("LANGUAGE"@, h.language) + s9;
    assert(header_tail2_lines(h) == opt_lines("EDITION"@, h.edition) + s8);
    vstd::seq_lib::lemma_concat_associative(opt_lines("EDITION"@, h.edition), s8, rest);
    vstd::seq_lib::lemma_concat_associative(opt_lines("LANGUAGE"@, h.language), s9, rest);
    vstd::seq_lib::lemma_concat_associative(year_lines(h.year), s10, rest);
    vstd::seq_lib::lemma_concat_associative(relative_lines(h.relative), s11, rest);
    // EDITION
    let (i7, acc7) = match h.edition {
        Some(g) => {
            assert(all.skip(i) =~= seq![tag_content("EDITION"@, g)] + (s8 + rest));
            lemma_skip_peel(all, i, tag_content("EDITION"@, g), s8 + rest);
            let a = HeaderAcc { edition: Some(g), ..acc };
            assert(header_step(acc, "EDITION"@, g, i + 1) == Ok::<HeaderAcc, ErrView>(a));
            lemma_header_tag_step(all, i, acc, "EDITION"@, g, a);
            (i + 1, a)
        },
        None => {
            assert(all.skip(i) =~= s8 + rest);
            (i, acc)
        },
    };
    assert(all.skip(i7) == s8 + rest);
    assert(parse_header_from(all, i, acc) == parse_header_from(all, i7, acc7));
    // LANGUAGE
    let (i8, acc8) = match h.language {
        Some(g) => {
            assert(all.skip(i7) =~= seq![tag_content("LANGUAGE"@, g)] + (s9 + rest));
            lemma_skip_peel(all, i7, tag_content("LANGUAGE"@, g), s9 + rest);
            let a = HeaderAcc { language: Some(g), ..acc7 };
            assert(header_step(acc7, "LANGUAGE"@, g, i7 + 1) == Ok::<HeaderAcc, ErrView>(a));
            lemma_header_tag_step(all, i7, acc7, "LANGUAGE"@, g, a);
            (i7 + 1, a)
        },
        None => {
            assert(all.skip(i7) =~= s9 + rest);
            (i7, acc7)
        },
    };
    assert(all.skip(i8) == s9 + rest);
    assert(parse_header_from(all, i7, acc7) == parse_header_from(all, i8, acc8));
    // YEAR
    let (i9, acc9) = match h.year {
        Some(y) => {
            let v = crate::numbers::dec_digits(y as nat);
            crate::numbers::lemma_dec_digits_shape(y as nat);
            assert(all.skip(i8) =~= seq![tag_content("YEAR"@, v)] + (s10 + rest));
            lemma_skip_peel(all, i8, tag_content("YEAR"@, v), s10 + rest);
            assert(crate::text::is_digit(v[0]));
            assert(crate::numbers::u32_body(v) == v);
            assert(crate::numbers::is_u32_shape(v));
            let a = HeaderAcc { year: Some(y), ..acc8 };
            assert(header_step(acc8, "YEAR"@, v, i8 + 1) == Ok::<HeaderAcc, ErrView>(a));
            lemma_header_tag_step(all, i8, acc8, "YEAR"@, v, a);
            (i8 + 1, a)
        },
        None => {
            assert(all.skip(i8) =~= s10 + rest);
            (i8, acc8)
        },
    };
    assert(all.skip(i9) == s10 + rest);
    assert(parse_header_from(all, i8, acc8) == parse_header_from(all, i9, acc9));
    // RELATIVE
    let (i10, acc10) = match h.relative {
        Some(b) => {
            let v = if b {
                "YES"@
            } else {
                "NO"@
            };
            assert(all.skip(i9) =~= seq![tag_content("RELATIVE"@, v)] + (s11 + rest));
            lemma_skip_peel(all, i9, tag_content("RELATIVE"@, v), s11 + rest);
            let a = HeaderAcc { relative: Some(b), ..acc9 };
            assert(header_step(acc9, "RELATIVE"@, v, i9 + 1) == Ok::<HeaderAcc, ErrView>(a));
            lemma_header_tag_step(all, i9, acc9, "RELATIVE"@, v, a);
            (i9 + 1, a)
        },
        None => {
            assert(all.skip(i9) =~= s11 + rest);
            (i9, acc9)
        },
    };
    assert(all.skip(i10) == s11 + rest);
    assert(parse_header_from(all, i9, acc9) == parse_header_from(all, i10, acc10));
    // the unknown block, or the stop
    match h.unknown {
        Some(us) => {
            assert(s11 == unknown_lines(us));
            assert(all.skip(i10) =~= unknown_lines_from(us, 0) + rest);
            assert(acc10.unknown is None);
            lemma_parse_unknown_fold(all, i10, us, 0, acc10, rest);
            assert(HeaderAcc { unknown: Some(us), ..acc10 } == acc_of_header(h));
        },
        None => {
            assert(all.skip(i10) =~= rest);
            if rest.len() == 0 {
                assert(i10 == all.len());
            } else {
                assert(all[i10] == all.skip(i10)[0]);
                assert(all[i10] == rest[0]);
            }
            assert(acc10 == acc_of_header(h));
        },
    }
}

/// Folding the header grammar over the optional tags and the unknown block.
#[verifier::rlimit(100)]
pub proof fn lemma_parse_header_tail_fold(
    all: Seq<Seq<char>>,
    i: int,
    h: crate::structs::HeaderView,
    acc: HeaderAcc,
    rest: Seq<Seq<char>>,
)
    requires
        header_rt_ok(h),
        0 <= i <= all.len(),
        all.skip(i) == header_tail_lines(h) + rest,
        rest.len() == 0 || find_tag(rest[0]) is None,
        acc == (HeaderAcc {
            title: Some(h.title),
            artist: Some(h.artist),
            bpm: Some(h.bpm),
            audio: Some(h.audio_path),
            gap: None,
            cover: None,
            background: None,
            video: None,
            video_gap: None,
            genre: None,
            edition: None,
            language: None,
            year: None,
            relative: None,
            unknown: None,
        }),
    ensures
        parse_header_from(all, i, acc) == Ok::<HeaderAcc, ErrView>(acc_of_header(h)),
{
    lemma_names_ok();
    let s7 = header_tail2_lines(h);
    let s6 = opt_lines("GENRE"@, h.genre) + s7;
    let s5 = opt_lines("VIDEOGAP"@, h.video_gap) + s6;
    let s4 = opt_source_lines("VIDEO"@, h.video_path) + s5;
    let s3 = opt_source_lines("BACKGROUND"@, h.background_path) + s4;
    let s2 = opt_source_lines("COVER"@, h.cover_path) + s3;
    assert(header_tail_lines(h) =~= opt_lines("GAP"@, h.gap) + s2) by {
        vstd::seq_lib::lemma_concat_associative(
            opt_lines("EDITION"@, h.edition),
            opt_lines("LANGUAGE"@, h.language),
            year_lines(h.year) + (relative_lines(h.relative) + unknown_opt_lines(h.unknown)),
        );
    }
    vstd::seq_lib::lemma_concat_associative(opt_lines("GAP"@, h.gap), s2, rest);
    vstd::seq_lib::lemma_concat_associative(opt_source_lines("COVER"@, h.cover_path), s3, rest);
    vstd::seq_lib::lemma_concat_associative(
        opt_source_lines("BACKGROUND"@, h.background_path),
        s4,
        rest,
    );
    vstd::seq_lib::lemma_concat_associative(opt_source_lines("VIDEO"@, h.video_path), s5, rest);
    vstd::seq_lib::lemma_concat_associative(opt_lines("VIDEOGAP"@, h.video_gap), s6, rest);
    vstd::seq_lib::lemma_concat_associative(opt_lines("GENRE"@, h.genre), s7, rest);
    // GAP
    let (i1, acc1) = match h.gap {
        Some(g) => {
            assert(all.skip(i) =~= seq![tag_content("GAP"@, g)] + (s2 + rest));
            lemma_skip_peel(all, i, tag_content("GAP"@, g), s2 + rest);
            crate::numbers::lemma_subst_commas_id(g);
            let a = HeaderAcc { gap: Some(g), ..acc };
            assert(header_step(acc, "GAP"@, g, i + 1) == Ok::<HeaderAcc, ErrView>(a));
            lemma_header_tag_step(all, i, acc, "GAP"@, g, a);
            (i + 1, a)
        },
        None => {
            assert(all.skip(i) =~= s2 + rest);
            (i, acc)
        },
    };
    assert(all.skip(i1) == s2 + rest);
    assert(parse_header_from(all, i, acc) == parse_header_from(all, i1, acc1));
    // COVER
    let (i2, acc2) = match h.cover_path {
        Some(sv) => {
            let v = crate::structs::source_text(sv);
            assert(all.skip(i1) =~= seq![tag_content("COVER"@, v)] + (s3 + rest));
            lemma_skip_peel(all, i1, tag_content("COVER"@, v), s3 + rest);
            let a = HeaderAcc { cover: Some(sv), ..acc1 };
            assert(header_step(acc1, "COVER"@, v, i1 + 1) == Ok::<HeaderAcc, ErrView>(a));
            lemma_header_tag_step(all, i1, acc1, "COVER"@, v, a);
            (i1 + 1, a)
        },
        None => {
            assert(all.skip(i1) =~= s3 + rest);
            (i1, acc1)
        },
    };
    assert(all.skip(i2) == s3 + rest);
    assert(parse_header_from(all, i1, acc1) == parse_header_from(all, i2, acc2));
    // BACKGROUND
    let (i3, acc3) = match h.background_path {
        Some(sv) => {
            let v = crate::structs::source_text(sv);
            assert(all.skip(i2) =~= seq![tag_content("BACKGROUND"@, v)] + (s4 + rest));
            lemma_skip_peel(all, i2, tag_content("BACKGROUND"@, v), s4 + rest);
            let a = HeaderAcc { background: Some(sv), ..acc2 };
            assert(header_step(acc2, "BACKGROUND"@, v, i2 + 1) == Ok::<HeaderAcc, ErrView>(a));
            lemma_header_tag_step(all, i2, acc2, "BACKGROUND"@, v, a);
            (i2 + 1, a)
        },
        None => {
            assert(all.skip(i2) =~= s4 + rest);
            (i2, acc2)
        },
    };
    assert(all.skip(i3) == s4 + rest);
    assert(parse_header_from(all, i2, acc2) == parse_header_from(all, i3, acc3));
    // VIDEO
    let (i4, acc4) = match h.video_path {
        Some(sv) => {
            let v = crate::structs::source_text(sv);
            assert(all.skip(i3) =~= seq![tag_content("VIDEO"@, v)] + (s5 + rest));
            lemma_skip_peel(all, i3, tag_content("VIDEO"@, v), s5 + rest);
            let a = HeaderAcc { video: Some(sv), ..acc3 };
            assert(header_step(acc3, "VIDEO"@, v, i3 + 1) == Ok::<HeaderAcc, ErrView>(a));
            lemma_header_tag_step(all, i3, acc3, "VIDEO"@, v, a);
            (i3 + 1, a)
        },
        None => {
            assert(all.skip(i3) =~= s5 + rest);
            (i3, acc3)
        },
    };
    assert(all.skip(i4) == s5 + rest);
    assert(parse_header_from(all, i3, acc3) == parse_header_from(all, i4, acc4));
    // VIDEOGAP
    let (i5, acc5) = match h.video_gap {
        Some(g) => {
            assert(all.skip(i4) =~= seq![tag_content("VIDEOGAP"@, g)] + (s6 + rest));
            lemma_skip_peel(all, i4, tag_content("VIDEOGAP"@, g), s6 + rest);
            crate::numbers::lemma_subst_commas_id(g);
            let a = HeaderAcc { video_gap: Some(g), ..acc4 };
            assert(header_step(acc4, "VIDEOGAP"@, g, i4 + 1) == Ok::<HeaderAcc, ErrView>(a));
            lemma_header_tag_step(all, i4, acc4, "VIDEOGAP"@, g, a);
            (i4 + 1, a)
        },
        None => {
            assert(all.skip(i4) =~= s6 + rest);
            (i4, acc4)
        },
    };
    assert(all.skip(i5) == s6 + rest);
    assert(parse_header_from(all, i4, acc4) == parse_header_from(all, i5, acc5));
    // GENRE
    let (i6, acc6) = match h.genre {
        Some(g) => {
            assert(all.skip(i5) =~= seq![tag_content("GENRE"@, g)] + (s7 + rest));
            lemma_skip_peel(all, i5, tag_content("GENRE"@, g), s7 + rest);
            let a = HeaderAcc { genre: Some(g), ..acc5 };
            assert(header_step(acc5, "GENRE"@, g, i5 + 1) == Ok::<HeaderAcc, ErrView>(a));
            lemma_header_tag_step(all, i5, acc5, "GENRE"@, g, a);
            (i5 + 1, a)
        },
        None => {
            assert(all.skip(i5) =~= s7 + rest);
            (i5, acc5)
        },
    };
    assert(all.skip(i6) == s7 + rest);
    assert(parse_header_from(all, i5, acc5) == parse_header_from(all, i6, acc6));
    lemma_parse_header_tail2_fold(all, i6, h, acc6, rest);
}

/// Folding the header grammar over the whole generated header block.
#[verifier::rlimit(100)]
pub proof fn lemma_parse_header_fold(
    all: Seq<Seq<char>>,
    i: int,
    h: crate::structs::HeaderView,
    rest: Seq<Seq<char>>,
)
    requires
        header_rt_ok(h),
        0 <= i <= all.len(),
        all.skip(i) == header_lines(h) + rest,
        rest.len() == 0 || find_tag(rest[0]) is None,
    ensures
        parse_header_from(all, i, empty_acc()) == Ok::<HeaderAcc, ErrView>(acc_of_header(h)),
{
    lemma_names_ok();
    let c1 = tag_content("TITLE"@, h.title);
    let c2 = tag_content("ARTIST"@, h.artist);
    let c3 = tag_content("MP3"@, crate::structs::source_text(h.audio_path));
    let c4 = tag_content("BPM"@, h.bpm);
    let tl = header_tail_lines(h);
    vstd::seq_lib::lemma_concat_associative(seq![c1, c2, c3, c4], tl, rest);
    assert(all.skip(i) == seq![c1, c2, c3, c4] + (tl + rest));
    assert(all.skip(i) =~= seq![c1] + (seq![c2, c3, c4] + (tl + rest)));
    lemma_skip_peel(all, i, c1, seq![c2, c3, c4] + (tl + rest));
    let a0 = empty_acc();
    let a1 = HeaderAcc { title: Some(h.title), ..a0 };
    assert(header_step(a0, "TITLE"@, h.title, i + 1) == Ok::<HeaderAcc, ErrView>(a1));
    lemma_header_tag_step(all, i, a0, "TITLE"@, h.title, a1);
    assert(all.skip(i + 1) =~= seq![c2] + (seq![c3, c4] + (tl + rest)));
    lemma_skip_peel(all, i + 1, c2, seq![c3, c4] + (tl + rest));
    let a2 = HeaderAcc { artist: Some(h.artist), ..a1 };
    assert(header_step(a1, "ARTIST"@, h.artist, i + 2) == Ok::<HeaderAcc, ErrView>(a2));
    lemma_header_tag_step(all, i + 1, a1, "ARTIST"@, h.artist, a2);
    assert(all.skip(i + 2) =~= seq![c3] + (seq![c4] + (tl + rest)));
    lemma_skip_peel(all, i + 2, c3, seq![c4] + (tl + rest));
    let a3 = HeaderAcc { audio: Some(h.audio_path), ..a2 };
    assert(header_step(a2, "MP3"@, crate::structs::source_text(h.audio_path), i + 3) == Ok::<
        HeaderAcc,
        ErrView,
    >(a3));
    lemma_header_tag_step(all, i + 2, a2, "MP3"@, crate::structs::source_text(h.audio_path), a3);
    assert(all.skip(i + 3) =~= seq![c4] + (tl + rest));
    lemma_skip_peel(all, i + 3, c4, tl + rest);
    crate::numbers::lemma_subst_commas_id(h.bpm);
    let a4 = HeaderAcc { bpm: Some(h.bpm), ..a3 };
    assert(header_step(a3, "BPM"@, h.bpm, i + 4) == Ok::<HeaderAcc, ErrView>(a4));
    lemma_header_tag_step(all, i + 3, a3, "BPM"@, h.bpm, a4);
    lemma_parse_header_tail_fold(all, i + 4, h, a4, rest);
}


/// No tag pattern occurs in a generated note line.
pub proof fn lemma_note_line_no_tag(nv: NoteView)
    requires
        note_rt_ok(nv),
    ensures
        find_tag(note_content(nv)) is None,
{
    let c = note_content(nv);
    match nv {
        NoteView::PlayerChange { player } => {
            lemma_int_str_chars(player);
            assert forall|k: int| 0 <= k < c.len() implies c[k] != '#' by {
                if k >= 1 {
                    assert(c[k] == crate::numbers::int_str(player)[k - 1]);
                }
            }
            lemma_no_hash_no_tag(c);
        },
        _ => {
            let s = match nv {
                NoteView::Regular { start, .. } => start,
                NoteView::Golden { start, .. } => start,
                NoteView::Freestyle { start, .. } => start,
                NoteView::Rap { start, .. } => start,
                NoteView::RapGolden { start, .. } => start,
                NoteView::PlayerChange { .. } => 0,
            };
            let d = match nv {
                NoteView::Regular { duration, .. } => duration,
                NoteView::Golden { duration, .. } => duration,
                NoteView::Freestyle { duration, .. } => duration,
                NoteView::Rap { duration, .. } => duration,
                NoteView::RapGolden { duration, .. } => duration,
                NoteView::PlayerChange { .. } => 0,
            };
            let p = match nv {
                NoteView::Regular { pitch, .. } => pitch,
                NoteView::Golden { pitch, .. } => pitch,
                NoteView::Freestyle { pitch, .. } => pitch,
                NoteView::Rap { pitch, .. } => pitch,
                NoteView::RapGolden { pitch, .. } => pitch,
                NoteView::PlayerChange { .. } => 0,
            };
            let t = match nv {
                NoteView::Regular { text, .. } => text,
                NoteView::Golden { text, .. } => text,
                NoteView::Freestyle { text, .. } => text,
                NoteView::Rap { text, .. } => text,
                NoteView::RapGolden { text, .. } => text,
                NoteView::PlayerChange { .. } => Seq::empty(),
            };
            let i1 = crate::numbers::int_str(s);
            let i2 = crate::numbers::int_str(d);
            let i3 = crate::numbers::int_str(p);
            lemma_int_str_chars(s);
            lemma_int_str_chars(d);
            lemma_int_str_chars(p);
            let pre = seq![c[0]] + (seq![' '] + i1 + seq![' '] + i2 + seq![' '] + i3 + seq![' ']);
            assert(c =~= pre + t);
            assert(c[0] == ':' || c[0] == '*' || c[0] == 'F' || c[0] == 'R' || c[0] == 'G');
            assert forall|k: int| 0 <= k < pre.len() implies pre[k] != '#' by {
                assert(pre[k] == c[k]);
                if 2 <= k < 2 + i1.len() {
                    assert(c[k] == i1[k - 2]);
                } else if 3 + i1.len() <= k < 3 + i1.len() + i2.len() {
                    assert(c[k] == i2[k - 3 - i1.len()]);
                } else if 4 + i1.len() + i2.len() <= k < 4 + i1.len() + i2.len() + i3.len() {
                    assert(c[k] == i3[k - 4 - i1.len() - i2.len()]);
                }
            }
            lemma_prefixed_no_tag(pre, t);
        },
    }
}

/// No tag pattern occurs in a generated break marker line.
pub proof fn lemma_break_line_no_tag(l: LineView)
    ensures
        find_tag(break_content(l)) is None,
{
    let c = break_content(l);
    let i1 = crate::numbers::int_str(l.start);
    lemma_int_str_chars(l.start);
    match l.rel {
        Some(r) => {
            lemma_int_str_chars(r);
            assert forall|k: int| 0 <= k < c.len() implies c[k] != '#' by {
                if 2 <= k < 2 + i1.len() {
                    assert(c[k] == i1[k - 2]);
                } else if k >= 3 + i1.len() {
                    assert(c[k] == crate::numbers::int_str(r)[k - 3 - i1.len()]);
                }
            }
        },
        None => {
            assert forall|k: int| 0 <= k < c.len() implies c[k] != '#' by {
                if 2 <= k < 2 + i1.len() {
                    assert(c[k] == i1[k - 2]);
                }
            }
        },
    }
    lemma_no_hash_no_tag(c);
}

/// The header parser stops at the first generated body line: none of them
/// can bear a tag pattern.
pub proof fn lemma_first_body_no_tag(ls: Seq<LineView>)
    requires
        lines_rt_ok(ls),
    ensures
        blocks_from(ls, 0).len() >= 1,
        find_tag(blocks_from(ls, 0)[0]) is None,
{
    lemma_blocks_from_len(ls, 0);
    assert(ls[0].start == 0);
    assert(block_lines(ls[0]) == note_lines_of(ls[0].notes));
    if ls[0].notes.len() > 0 {
        assert(blocks_from(ls, 0)[0] == note_content(ls[0].notes[0]));
        assert(notes_rt_ok(ls[0].notes));
        lemma_note_line_no_tag(ls[0].notes[0]);
    } else {
        assert(note_lines_of(ls[0].notes).len() == 0);
        assert(blocks_from(ls, 0) =~= blocks_from(ls, 1));
        if ls.len() > 1 {
            assert(ls[1].start != 0);
            assert(blocks_from(ls, 1)[0] == break_content(ls[1]));
            lemma_break_line_no_tag(ls[1]);
        } else {
            assert(blocks_from(ls, 1) == seq![seq!['E']]);
            let e = seq!['E'];
            assert forall|k: int| 0 <= k < e.len() implies e[k] != '#' by {}
            lemma_no_hash_no_tag(e);
        }
    }
}

/// Round trip, header half: parsing the generated text of a covered header
/// and covered lines returns exactly the header.
pub proof fn lemma_round_trip_header(h: crate::structs::HeaderView, ls: Seq<LineView>)
    requires
        header_rt_ok(h),
        lines_rt_ok(ls),
    ensures
        spec_parse_header(crate::generator::spec_generate(h, ls)) == Ok::<
            crate::structs::HeaderView,
            ErrView,
        >(h),
{
    let txt = crate::generator::spec_generate(h, ls);
    let body = crate::generator::lines_text(ls) + seq!['E'];
    vstd::seq_lib::lemma_concat_associative(
        crate::generator::header_text(h),
        crate::generator::lines_text(ls),
        seq!['E'],
    );
    assert(txt == crate::generator::header_text(h) + body);
    lemma_split_header(h, body);
    assert(ls.skip(0) =~= ls);
    assert forall|i: int|
        0 <= i < ls.len() implies ((#[trigger] ls[i]).start != 0 ==> crate::numbers::fits_i32(
        ls[i].start,
    )) by {
        if i >= 1 {
            assert(ls[i].start != 0);
        }
    }
    lemma_split_body(ls, 0);
    let all = split_lines(txt);
    assert(all == header_lines(h) + blocks_from(ls, 0));
    lemma_first_body_no_tag(ls);
    assert(all.skip(0) =~= all);
    lemma_parse_header_fold(all, 0, h, blocks_from(ls, 0));
    assert(finalize_header(acc_of_header(h)) == Ok::<crate::structs::HeaderView, ErrView>(h));
}

/// Round trip: for any header and line sequence the parser could have
/// produced — excepting only values that end in a carriage return, note
/// texts holding a `#NAME:` pattern, and later lines with an explicit start
/// of zero, none of which survive a rewrite — generating the song text and
/// parsing it again returns the same header and the same lines.
pub proof fn lemma_round_trip(h: crate::structs::HeaderView, ls: Seq<LineView>)
    requires
        header_rt_ok(h),
        lines_rt_ok(ls),
    ensures
        spec_parse_header(crate::generator::spec_generate(h, ls)) == Ok::<
            crate::structs::HeaderView,
            ErrView,
        >(h),
        spec_parse_lines(crate::generator::spec_generate(h, ls)) == Ok::<Seq<LineView>, ErrView>(
            ls,
        ),
{
    lemma_round_trip_header(h, ls);
    lemma_round_trip_lines(h, ls);
}

} // verus!
