//! The generator: a header and its lines, serialized back to the text form.
//!
//! The header tags are emitted in a fixed order, unknown tags following in
//! their stored order; each line with a nonzero start is introduced by a
//! break marker; and the output ends in a single `E` with no newline after
//! it. The generator trusts the structural invariants of its input and only
//! the rendering of a media reference as text can fail.

use vstd::prelude::*;

pub use crate::error::ErrorKind;

use crate::numbers::dec_digits;
use crate::numbers::int_str;
use crate::numbers::push_i32;
use crate::numbers::push_u64;
use crate::structs::FloatNum;
use crate::structs::Header;
use crate::structs::HeaderView;
use crate::structs::Line;
use crate::structs::LineView;
use crate::structs::NoteView;
use crate::structs::Source;
use crate::structs::SourceView;
use crate::structs::source_text;
use crate::structs::view_opt_float;
use crate::structs::view_opt_source;
use crate::structs::view_opt_str;
use crate::structs::view_pairs;
use crate::structs::view_unknown;

verus! {

/// One header line: `#NAME:VALUE` and a newline.
pub open spec fn tag_line(name: Seq<char>, value: Seq<char>) -> Seq<char> {
    seq!['#'] + name + seq![':'] + value + seq!['\n']
}

/// A tag emitted only when its value is present.
pub open spec fn opt_tag(name: Seq<char>, v: Option<Seq<char>>) -> Seq<char> {
    match v {
        Some(x) => tag_line(name, x),
        None => Seq::empty(),
    }
}

/// A media tag emitted only when its reference is present.
pub open spec fn opt_source_tag(name: Seq<char>, v: Option<SourceView>) -> Seq<char> {
    match v {
        Some(s) => tag_line(name, source_text(s)),
        None => Seq::empty(),
    }
}

/// The YEAR tag, emitted only when present.
pub open spec fn year_tag(v: Option<u32>) -> Seq<char> {
    match v {
        Some(y) => tag_line("YEAR"@, dec_digits(y as nat)),
        None => Seq::empty(),
    }
}

/// The RELATIVE tag as `YES`/`NO`, emitted only when present.
pub open spec fn relative_tag(v: Option<bool>) -> Seq<char> {
    match v {
        Some(true) => tag_line("RELATIVE"@, "YES"@),
        Some(false) => tag_line("RELATIVE"@, "NO"@),
        None => Seq::empty(),
    }
}

/// The unknown tags, each as `#KEY:VALUE`, in their stored order.
pub open spec fn unknown_cat(us: Seq<(Seq<char>, Seq<char>)>) -> Seq<char>
    decreases us.len(),
{
    if us.len() == 0 {
        Seq::empty()
    } else {
        unknown_cat(us.drop_last()) + tag_line(us.last().0, us.last().1)
    }
}

/// The unknown block, empty when no unknown tag was stored.
pub open spec fn unknown_text(u: Option<Seq<(Seq<char>, Seq<char>)>>) -> Seq<char> {
    match u {
        Some(us) => unknown_cat(us),
        None => Seq::empty(),
    }
}

/// The whole header block, in the fixed emission order.
pub open spec fn header_text(h: HeaderView) -> Seq<char> {
    tag_line("TITLE"@, h.title) + tag_line("ARTIST"@, h.artist) + tag_line(
        "MP3"@,
        source_text(h.audio_path),
    ) + tag_line("BPM"@, h.bpm) + opt_tag("GAP"@, h.gap) + opt_source_tag("COVER"@, h.cover_path)
        + opt_source_tag("BACKGROUND"@, h.background_path) + opt_source_tag("VIDEO"@, h.video_path)
        + opt_tag("VIDEOGAP"@, h.video_gap) + opt_tag("GENRE"@, h.genre) + opt_tag(
        "EDITION"@,
        h.edition,
    ) + opt_tag("LANGUAGE"@, h.language) + year_tag(h.year) + relative_tag(h.relative)
        + unknown_text(h.unknown)
}

/// The body of a timed note after its symbol: the three numbers and the
/// text, space separated, and a newline.
pub open spec fn note_body(s: int, d: int, p: int, t: Seq<char>) -> Seq<char> {
    seq![' '] + int_str(s) + seq![' '] + int_str(d) + seq![' '] + int_str(p) + seq![' '] + t + seq![
        '\n',
    ]
}

/// One note line: the kind's symbol and the note body, or `P` and the
/// player number for a player change.
pub open spec fn note_text_line(nv: NoteView) -> Seq<char> {
    match nv {
        NoteView::Regular { start, duration, pitch, text } => seq![':'] + note_body(
            start,
            duration,
            pitch,
            text,
        ),
        NoteView::Golden { start, duration, pitch, text } => seq!['*'] + note_body(
            start,
            duration,
            pitch,
            text,
        ),
        NoteView::Freestyle { start, duration, pitch, text } => seq!['F'] + note_body(
            start,
            duration,
            pitch,
            text,
        ),
        NoteView::Rap { start, duration, pitch, text } => seq!['R'] + note_body(
            start,
            duration,
            pitch,
            text,
        ),
        NoteView::RapGolden { start, duration, pitch, text } => seq!['G'] + note_body(
            start,
            duration,
            pitch,
            text,
        ),
        NoteView::PlayerChange { player } => seq!['P'] + int_str(player) + seq!['\n'],
    }
}

/// The notes of one line, in order.
pub open spec fn notes_text(ns: Seq<NoteView>) -> Seq<char>
    decreases ns.len(),
{
    if ns.len() == 0 {
        Seq::empty()
    } else {
        notes_text(ns.drop_last()) + note_text_line(ns.last())
    }
}

/// The break marker of a line: `- start` or `- start rel`, emitted only
/// when the start is nonzero.
pub open spec fn break_part(l: LineView) -> Seq<char> {
    if l.start != 0 {
        match l.rel {
            Some(r) => seq!['-', ' '] + int_str(l.start) + seq![' '] + int_str(r) + seq!['\n'],
            None => seq!['-', ' '] + int_str(l.start) + seq!['\n'],
        }
    } else {
        Seq::empty()
    }
}

/// One line: its break marker, then its notes.
pub open spec fn line_text(l: LineView) -> Seq<char> {
    break_part(l) + notes_text(l.notes)
}

/// All lines, in order.
pub open spec fn lines_text(ls: Seq<LineView>) -> Seq<char>
    decreases ls.len(),
{
    if ls.len() == 0 {
        Seq::empty()
    } else {
        lines_text(ls.drop_last()) + line_text(ls.last())
    }
}

/// The whole song text: the header block, the lines, and the terminator.
pub open spec fn spec_generate(h: HeaderView, ls: Seq<LineView>) -> Seq<char> {
    header_text(h) + lines_text(ls) + seq!['E']
}

/// Append `#NAME:VALUE` and a newline.
fn push_tag(out: &mut String, name: &str, value: &str)
    ensures
        final(out)@ == old(out)@ + tag_line(name@, value@),
{
    proof {
        reveal_strlit("#");
        reveal_strlit(":");
        reveal_strlit("\n");
    }
    out.append("#");
    out.append(name);
    out.append(":");
    out.append(value);
    out.append("\n");
    proof {
        assert(final(out)@ =~= old(out)@ + tag_line(name@, value@));
    }
}

/// Append the `- start` or `- start rel` break marker and a newline.
fn push_break(out: &mut String, start: i32, rel: Option<i32>)
    requires
        start != 0,
    ensures
        final(out)@ == old(out)@ + break_part(
            LineView {
                start: start as int,
                rel: match rel {
                    Some(r) => Some(r as int),
                    None => None,
                },
                notes: Seq::empty(),
            },
        ),
{
    proof {
        reveal_strlit("- ");
        reveal_strlit(" ");
        reveal_strlit("\n");
    }
    out.append("- ");
    push_i32(out, start);
    match rel {
        Some(r) => {
            out.append(" ");
            push_i32(out, r);
            out.append("\n");
            proof {
                assert(final(out)@ =~= old(out)@ + (seq!['-', ' '] + int_str(start as int) + seq![
                    ' ',
                ] + int_str(r as int) + seq!['\n']));
            }
        },
        None => {
            out.append("\n");
            proof {
                assert(final(out)@ =~= old(out)@ + (seq!['-', ' '] + int_str(start as int) + seq![
                    '\n',
                ]));
            }
        },
    }
}

/// Append one note's symbol, numbers and text, and a newline.
fn push_note(out: &mut String, note: &crate::structs::Note)
    ensures
        final(out)@ == old(out)@ + note_text_line(note@),
{
    proof {
        reveal_strlit(":");
        reveal_strlit("*");
        reveal_strlit("F");
        reveal_strlit("R");
        reveal_strlit("G");
        reveal_strlit("P");
        reveal_strlit(" ");
        reveal_strlit("\n");
    }
    match note {
        crate::structs::Note::Regular { start, duration, pitch, text } => {
            out.append(":");
            push_note_body(out, *start, *duration, *pitch, text.as_str());
            proof {
                assert(final(out)@ =~= old(out)@ + note_text_line(note@));
            }
        },
        crate::structs::Note::Golden { start, duration, pitch, text } => {
            out.append("*");
            push_note_body(out, *start, *duration, *pitch, text.as_str());
            proof {
                assert(final(out)@ =~= old(out)@ + note_text_line(note@));
            }
        },
        crate::structs::Note::Freestyle { start, duration, pitch, text } => {
            out.append("F");
            push_note_body(out, *start, *duration, *pitch, text.as_str());
            proof {
                assert(final(out)@ =~= old(out)@ + note_text_line(note@));
            }
        },
        crate::structs::Note::Rap { start, duration, pitch, text } => {
            out.append("R");
            push_note_body(out, *start, *duration, *pitch, text.as_str());
            proof {
                assert(final(out)@ =~= old(out)@ + note_text_line(note@));
            }
        },
        crate::structs::Note::RapGolden { start, duration, pitch, text } => {
            out.append("G");
            push_note_body(out, *start, *duration, *pitch, text.as_str());
            proof {
                assert(final(out)@ =~= old(out)@ + note_text_line(note@));
            }
        },
        crate::structs::Note::PlayerChange { player } => {
            out.append("P");
            push_i32(out, *player);
            out.append("\n");
            proof {
                assert(final(out)@ =~= old(out)@ + note_text_line(note@));
            }
        },
    }
}

/// Append the space-separated numbers and text of a timed note.
fn push_note_body(out: &mut String, start: i32, duration: i32, pitch: i32, text: &str)
    ensures
        final(out)@ == old(out)@ + note_body(start as int, duration as int, pitch as int, text@),
{
    proof {
        reveal_strlit(" ");
        reveal_strlit("\n");
    }
    out.append(" ");
    push_i32(out, start);
    out.append(" ");
    push_i32(out, duration);
    out.append(" ");
    push_i32(out, pitch);
    out.append(" ");
    out.append(text);
    out.append("\n");
    proof {
        assert(final(out)@ =~= old(out)@ + note_body(
            start as int,
            duration as int,
            pitch as int,
            text@,
        ));
    }
}

/// Append an optional text tag.
fn push_opt_str_tag(out: &mut String, name: &str, v: &Option<String>)
    ensures
        final(out)@ == old(out)@ + opt_tag(name@, view_opt_str(*v)),
{
    match v {
        Some(x) => {
            push_tag(out, name, x.as_str());
        },
        None => {
            proof {
                assert(final(out)@ =~= old(out)@ + opt_tag(name@, view_opt_str(*v)));
            }
        },
    }
}

/// Append an optional numeric text tag.
fn push_opt_float_tag(out: &mut String, name: &str, v: &Option<FloatNum>)
    ensures
        final(out)@ == old(out)@ + opt_tag(name@, view_opt_float(*v)),
{
    match v {
        Some(x) => {
            push_tag(out, name, x.repr.as_str());
        },
        None => {
            proof {
                assert(final(out)@ =~= old(out)@ + opt_tag(name@, view_opt_float(*v)));
            }
        },
    }
}

/// Append an optional media tag, rendering the reference as text.
fn push_opt_source_tag(out: &mut String, name: &str, v: &Option<Source>) -> (r: Result<
    (),
    ErrorKind,
>)
    ensures
        r matches Ok(_) && final(out)@ == old(out)@ + opt_source_tag(name@, view_opt_source(*v)),
{
    match v {
        Some(x) => {
            let s = match x.to_str() {
                Some(s) => s,
                None => {
                    return Err(ErrorKind::InvalidPathEncoding(name.to_owned()));
                },
            };
            push_tag(out, name, s);
        },
        None => {
            proof {
                assert(final(out)@ =~= old(out)@ + opt_source_tag(name@, view_opt_source(*v)));
            }
        },
    }
    Ok(())
}

/// Append the YEAR tag when present.
fn push_year_tag(out: &mut String, v: Option<u32>)
    ensures
        final(out)@ == old(out)@ + year_tag(v),
{
    match v {
        Some(year) => {
            proof {
                reveal_strlit("#YEAR:");
                reveal_strlit("\n");
            }
            out.append("#YEAR:");
            push_u64(out, year as u64);
            out.append("\n");
            proof {
                assert(final(out)@ =~= old(out)@ + year_tag(v)) by {
                    reveal_strlit("YEAR");
                }
            }
        },
        None => {
            proof {
                assert(final(out)@ =~= old(out)@ + year_tag(v));
            }
        },
    }
}

/// Append the RELATIVE tag when present.
fn push_relative_tag(out: &mut String, v: Option<bool>)
    ensures
        final(out)@ == old(out)@ + relative_tag(v),
{
    match v {
        Some(true) => {
            push_tag(out, "RELATIVE", "YES");
        },
        Some(false) => {
            push_tag(out, "RELATIVE", "NO");
        },
        None => {
            proof {
                assert(final(out)@ =~= old(out)@ + relative_tag(v));
            }
        },
    }
}

/// Append every unknown tag, in stored order.
fn push_unknown(out: &mut String, v: &Option<Vec<(String, String)>>)
    ensures
        final(out)@ == old(out)@ + unknown_text(view_unknown(*v)),
{
    match v {
        Some(unknown) => {
            let ghost base = out@;
            let ghost up = view_pairs(unknown@);
            let mut i: usize = 0;
            proof {
                assert(up.take(0int) =~= Seq::<(Seq<char>, Seq<char>)>::empty());
            }
            while i < unknown.len()
                invariant
                    up == view_pairs(unknown@),
                    i <= unknown.len(),
                    out@ == base + unknown_cat(up.take(i as int)),
                decreases unknown.len() - i,
            {
                push_tag(out, unknown[i].0.as_str(), unknown[i].1.as_str());
                proof {
                    assert(up.take(i + 1).drop_last() =~= up.take(i as int));
                    assert(up.take(i + 1).last() == up[i as int]);
                    assert(out@ =~= base + unknown_cat(up.take(i + 1)));
                }
                i += 1;
            }
            proof {
                assert(up.take(unknown@.len() as int) =~= up);
            }
        },
        None => {
            proof {
                assert(final(out)@ =~= old(out)@ + unknown_text(view_unknown(*v)));
            }
        },
    }
}

/// Append the whole header block.
#[verifier::rlimit(50)]
fn push_header(out: &mut String, header: &Header) -> (r: Result<(), ErrorKind>)
    ensures
        r matches Ok(_) && final(out)@ == old(out)@ + header_text(header@),
{
    let mp3_str = match header.audio_path.to_str() {
        Some(x) => x,
        None => {
            return Err(ErrorKind::InvalidPathEncoding("MP3".to_owned()));
        },
    };
    push_tag(out, "TITLE", header.title.as_str());
    push_tag(out, "ARTIST", header.artist.as_str());
    push_tag(out, "MP3", mp3_str);
    push_tag(out, "BPM", header.bpm.repr.as_str());
    push_opt_float_tag(out, "GAP", &header.gap);
    match push_opt_source_tag(out, "COVER", &header.cover_path) {
        Ok(_) => {},
        Err(e) => {
            return Err(e);
        },
    }
    match push_opt_source_tag(out, "BACKGROUND", &header.background_path) {
        Ok(_) => {},
        Err(e) => {
            return Err(e);
        },
    }
    match push_opt_source_tag(out, "VIDEO", &header.video_path) {
        Ok(_) => {},
        Err(e) => {
            return Err(e);
        },
    }
    push_opt_float_tag(out, "VIDEOGAP", &header.video_gap);
    push_opt_str_tag(out, "GENRE", &header.genre);
    push_opt_str_tag(out, "EDITION", &header.edition);
    push_opt_str_tag(out, "LANGUAGE", &header.language);
    push_year_tag(out, header.year);
    push_relative_tag(out, header.relative);
    push_unknown(out, &header.unknown);
    proof {
        assert(final(out)@ =~= old(out)@ + header_text(header@));
    }
    Ok(())
}

/// Converts a song back to the Ultrastar text format and returns it as a
/// string.
///
/// The returned text is exactly [`spec_generate`] of the header's and the
/// lines' views.
pub fn generate_song_txt(header: &Header, lines: &Vec<Line>) -> (r: Result<String, ErrorKind>)
    ensures
        r matches Ok(s) && s@ == spec_generate(header@, lines.deep_view()),
{
    let mut out = String::new();
    match push_header(&mut out, header) {
        Ok(_) => {},
        Err(e) => {
            return Err(e);
        },
    }
    let ghost lsv = lines.deep_view();
    let mut i: usize = 0;
    proof {
        assert(lsv.take(0int) =~= Seq::<LineView>::empty());
    }
    while i < lines.len()
        invariant
            lsv == lines.deep_view(),
            i <= lines.len(),
            out@ == header_text(header@) + lines_text(lsv.take(i as int)),
        decreases lines.len() - i,
    {
        let line = &lines[i];
        let ghost base = out@;
        if line.start != 0 {
            push_break(&mut out, line.start, line.rel);
            proof {
                assert(out@ == base + break_part(line@)) by {
                    assert(break_part(
                        LineView {
                            start: line.start as int,
                            rel: match line.rel {
                                Some(r) => Some(r as int),
                                None => None,
                            },
                            notes: Seq::empty(),
                        },
                    ) =~= break_part(line@));
                }
            }
        } else {
            proof {
                assert(break_part(line@) =~= Seq::<char>::empty());
                assert(out@ =~= base + break_part(line@));
            }
        }
        let ghost nv = line.notes.deep_view();
        let mut j: usize = 0;
        proof {
            assert(nv.take(0int) =~= Seq::<NoteView>::empty());
            assert(notes_text(nv.take(0int)) =~= Seq::<char>::empty());
            assert(out@ =~= base + break_part(line@) + notes_text(nv.take(0int)));
        }
        while j < line.notes.len()
            invariant
                nv == line.notes.deep_view(),
                j <= line.notes.len(),
                out@ == base + break_part(line@) + notes_text(nv.take(j as int)),
            decreases line.notes.len() - j,
        {
            push_note(&mut out, &line.notes[j]);
            proof {
                assert(nv.take(j + 1).drop_last() =~= nv.take(j as int));
                assert(nv.take(j + 1).last() == nv[j as int]);
                assert(out@ =~= base + break_part(line@) + notes_text(nv.take(j + 1)));
            }
            j += 1;
        }
        proof {
            assert(nv.take(line.notes@.len() as int) =~= nv);
            assert(lsv.take(i + 1).drop_last() =~= lsv.take(i as int));
            assert(lsv.take(i + 1).last() == lsv[i as int]);
            assert(lsv[i as int] == line@);
            assert(out@ =~= header_text(header@) + lines_text(lsv.take(i + 1)));
        }
        i += 1;
    }
    proof {
        reveal_strlit("E");
        assert(lsv.take(lines@.len() as int) =~= lsv);
    }
    out.append("E");
    proof {
        assert(out@ =~= spec_generate(header@, lines.deep_view()));
    }
    Ok(out)
}

} // verus!
